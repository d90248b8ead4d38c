//! Where each field of a header block lies.
//!
//! A header is one block of 512 bytes. Every field has a fixed offset and a
//! fixed width; the twelve bytes behind the last field are not used.
use vstd::prelude::*;

verus! {

/// The size of a block, the unit in which an archive is laid out.
pub const BLOCK_SIZE: usize = 512;

pub const NAME_OFFSET: usize = 0;

pub const NAME_WIDTH: usize = 100;

pub const MODE_OFFSET: usize = 100;

pub const MODE_WIDTH: usize = 8;

pub const UID_OFFSET: usize = 108;

pub const UID_WIDTH: usize = 8;

pub const GID_OFFSET: usize = 116;

pub const GID_WIDTH: usize = 8;

pub const SIZE_OFFSET: usize = 124;

pub const SIZE_WIDTH: usize = 12;

pub const MTIME_OFFSET: usize = 136;

pub const MTIME_WIDTH: usize = 12;

pub const CHECKSUM_OFFSET: usize = 148;

pub const CHECKSUM_WIDTH: usize = 8;

pub const TYPEFLAG_OFFSET: usize = 156;

pub const LINKNAME_OFFSET: usize = 157;

pub const LINKNAME_WIDTH: usize = 100;

pub const MAGIC_OFFSET: usize = 257;

pub const MAGIC_WIDTH: usize = 6;

pub const VERSION_OFFSET: usize = 263;

pub const VERSION_WIDTH: usize = 2;

pub const UNAME_OFFSET: usize = 265;

pub const UNAME_WIDTH: usize = 32;

pub const GNAME_OFFSET: usize = 297;

pub const GNAME_WIDTH: usize = 32;

pub const DEVMAJOR_OFFSET: usize = 329;

pub const DEVMAJOR_WIDTH: usize = 8;

pub const DEVMINOR_OFFSET: usize = 337;

pub const DEVMINOR_WIDTH: usize = 8;

pub const PREFIX_OFFSET: usize = 345;

pub const PREFIX_WIDTH: usize = 155;

/// The end of the last field; a header is read from this many bytes.
pub const FIELDS_END: usize = 500;

/// The type flag of a regular file.
pub const TYPE_REGULAR: u8 = 48;

/// The type flag that old archives give a regular file.
pub const TYPE_REGULAR_OLD: u8 = 0;

/// The ASCII space, which stands for each byte of the checksum field while
/// the checksum is taken.
pub const SPACE: u8 = 32;

/// The bytes of the field of `width` bytes at `offset` in `block`.
pub open spec fn field(block: Seq<u8>, offset: int, width: int) -> Seq<u8> {
    block.subrange(offset, offset + width)
}

/// `bytes` made to fill a field of `width` bytes: cut to the width where it
/// is longer, filled up with NUL bytes where it is shorter.
pub open spec fn fit(bytes: Seq<u8>, width: nat) -> Seq<u8> {
    Seq::new(
        width,
        |i: int|
            if i < bytes.len() {
                bytes[i]
            } else {
                0u8
            },
    )
}

/// `n` NUL bytes.
pub open spec fn zeros(n: nat) -> Seq<u8> {
    Seq::new(n, |i: int| 0u8)
}

/// Whether a type flag marks a regular file.
pub open spec fn is_regular(typeflag: u8) -> bool {
    typeflag == TYPE_REGULAR || typeflag == TYPE_REGULAR_OLD
}

/// How many NUL bytes follow a payload of `len` bytes, so that the next
/// header starts on a block boundary.
pub open spec fn padding(len: nat) -> nat {
    ((BLOCK_SIZE - len % (BLOCK_SIZE as nat)) % (BLOCK_SIZE as int)) as nat
}

} // verus!
