pub mod constraints;
pub mod cells;
