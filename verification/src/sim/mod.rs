pub mod dynamic;
pub mod fem;
pub mod graph;
