pub mod archive;
pub mod checksum;
pub mod compression;
pub mod error;
pub mod io;
pub mod seqs;
pub mod threading;

pub use archive::builder::SevenZipWriter;
pub use compression::lzma2::Lzma2Config;
pub use error::SevenZipError;
