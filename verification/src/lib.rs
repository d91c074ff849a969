pub mod font;
pub mod math;
pub mod parse;
pub mod render;
pub mod tables;
