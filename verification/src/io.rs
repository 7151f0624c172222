pub mod seek;
pub mod writer;
