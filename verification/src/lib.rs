pub mod segment;
pub mod sequence;
