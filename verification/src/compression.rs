pub mod block;
pub mod lzma2;
