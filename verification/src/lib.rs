pub mod text;
pub mod time;
pub mod log;
pub mod query;
pub mod ui;
