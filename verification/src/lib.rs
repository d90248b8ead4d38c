//! A small reader and writer for USTAR archives held in memory.
//!
//! The codec works on byte buffers only: [`write_tar`] turns a list of
//! entries into the bytes of an archive and [`read_tar`] turns such bytes
//! back into entries. [`Tar`] wraps a list of entries and adds lookups and
//! updates by name. [`pack`], [`list`] and [`list_entry`] do the same for
//! the bytes of an archive file, which may be a gzip stream. Every function
//! comes with a contract over the pure model of the format in [`tar`].
pub mod extract;
pub mod file;
pub mod gzip;
pub mod tar;

pub use file::list;
pub use file::list_entry;
pub use file::pack;
pub use tar::read_tar;
pub use tar::write_tar;
pub use tar::Tar;
pub use tar::TarEntry;
pub use tar::TarHeader;
