pub mod delete;
pub mod draw;
pub mod grid;
pub mod history;
pub mod snap;
