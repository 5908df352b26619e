pub mod event;
pub mod fields;
pub mod correlation;
pub mod detect;
pub mod format;
pub mod loader;
pub mod parser;
pub mod parsers;
pub mod scanner;
