pub mod board;
pub mod common;
pub mod search;
