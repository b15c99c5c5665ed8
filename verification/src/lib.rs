//! Reader for S3D (PFS) archives: a header, a table of descriptors, payloads
//! stored as zlib-compressed chunks, and a trailing directory payload that
//! carries the file names.

pub mod archive;
pub mod chunk_header;
pub mod codec;
pub mod cursor;
pub mod descriptor_block;
pub mod error;
pub mod file_data;
pub mod header;
pub mod laws;
pub mod layout;
pub mod names;
pub mod sorting;

pub use crate::chunk_header::ChunkHeader;
pub use crate::cursor::ByteCursor;
pub use crate::descriptor_block::DescriptorBlock;
pub use crate::error::S3dError;
pub use crate::archive::S3d;
pub use crate::file_data::FileData;
pub use crate::header::Header;
