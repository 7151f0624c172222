pub mod builder;
pub mod header;
pub mod writer;
