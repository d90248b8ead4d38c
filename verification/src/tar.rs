//! The USTAR codec: header blocks, checksums, archives and the entry
//! container.
pub mod archive;
pub mod checksum;
pub mod container;
pub mod header;
pub mod laws;
pub mod layout;
pub mod octal;
pub mod text;

pub use archive::read_tar;
pub use archive::write_tar;
pub use archive::TarEntry;
pub use checksum::calc_checksum;
pub use container::Tar;
pub use header::TarHeader;
