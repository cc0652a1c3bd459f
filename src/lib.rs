pub mod date;
pub mod store;
pub mod streak;
pub mod grid;
pub mod tracker;
