pub mod export;
pub mod facets;
pub mod filter;
pub mod tally;
