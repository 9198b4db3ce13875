//! Read-only driver for the FAT family of on-disk filesystem formats
//! (FAT12/FAT16/FAT32), operating on an in-memory image of a seekable
//! byte stream: boot-record decoding, variant detection, the decoded
//! allocation table, bounded byte-range views, cluster-chain file
//! readers, and directory readers.

mod bytes;
pub mod dir;
pub mod fs;
pub mod file;
pub mod slice;
pub mod table;

pub use fs::{FatError, FatFileSystem, FatType};
pub use table::{ClusterLink, FatTable};
pub use slice::{FatSlice, SeekFrom};
pub use file::FatFile;
pub use dir::{DirEntry, FatDir, FatDirReader};
