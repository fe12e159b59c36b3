pub mod board;
pub mod color;
pub mod laws;
pub mod rows;
pub mod spawn;
