pub mod bytes;
pub mod directory;
pub mod error;
pub mod external;
pub mod extra;
pub mod file;
pub mod repackage;
pub mod snapshot;
pub mod stream;
pub mod text;
pub mod zip;

pub use miniz_oxide::deflate::CompressionLevel;
