pub mod cell;
pub mod grid;
pub mod types;
