//! A uniform way to read a named bundle of files (a "silo"), whether the
//! files are held in an immutable in-memory table snapshotted from a
//! directory or read live from a directory on disk, with layered sets of
//! silos where later members override earlier ones file-for-file.

pub mod embed;
pub mod file;
pub mod fsio;
pub mod laws;
pub mod paths;
pub mod scan;
pub mod silo;
pub mod silo_set;
pub mod strutil;

pub use embed::EmbedEntry;
pub use embed::EmbedFile;
pub use embed::EmbedSilo;
pub use file::DynFile;
pub use file::Error;
pub use file::File;
pub use file::Meta;
pub use scan::ScanRecord;
pub use silo::DynamicSilo;
pub use silo::Silo;
pub use silo::StaticSilo;
pub use silo_set::SiloSet;
