//! The header record and its block of 512 bytes.
use vstd::prelude::*;
use vstd::string::StringExecFns;
use vstd::utf8::encode_utf8;
use std::ops::Range;
use crate::tar::checksum::calc_checksum;
use crate::tar::checksum::checksum;
use crate::tar::layout::{
    BLOCK_SIZE, CHECKSUM_OFFSET, CHECKSUM_WIDTH, DEVMAJOR_OFFSET, DEVMAJOR_WIDTH,
    DEVMINOR_OFFSET, DEVMINOR_WIDTH, FIELDS_END, GID_OFFSET, GID_WIDTH, GNAME_OFFSET,
    GNAME_WIDTH, LINKNAME_OFFSET, LINKNAME_WIDTH, MAGIC_OFFSET, MAGIC_WIDTH, MODE_OFFSET,
    MODE_WIDTH, MTIME_OFFSET, MTIME_WIDTH, NAME_OFFSET, NAME_WIDTH, PREFIX_OFFSET,
    PREFIX_WIDTH, SIZE_OFFSET, SIZE_WIDTH, SPACE, TYPEFLAG_OFFSET, TYPE_REGULAR, UID_OFFSET,
    UID_WIDTH, UNAME_OFFSET, UNAME_WIDTH, VERSION_OFFSET, VERSION_WIDTH, field, fit, zeros,
};
use crate::tar::octal::format_octal;
use crate::tar::octal::lemma_octal_padded_len;
use crate::tar::octal::octal_padded;
use crate::tar::octal::octal_text;
use crate::tar::octal::parse_octal_or_zero;
use crate::tar::octal::parse_octal_or_zero_chars;
use crate::tar::octal::push_octal_padded;
use crate::tar::text::chars_of;
use crate::tar::text::checksum_field_text;
use crate::tar::text::decode_text;
use crate::tar::text::field_text;
use crate::tar::text::trim;
use crate::tar::text::trim_bounds;
use crate::tar::text::trim_end_nul;
use crate::tar::text::trim_end_nul_len;

verus! {

/// The metadata of one archive entry.
#[derive(Debug)]
pub struct TarHeader {
    pub name: String,
    pub mode: u32,
    pub uid: u32,
    pub gid: u32,
    pub size: u64,
    pub mtime: u64,
    pub checksum: u32,
    pub typeflag: u8,
    pub linkname: String,
    pub magic: String,
    pub version: String,
    pub uname: String,
    pub gname: String,
    pub devmajor: u32,
    pub devminor: u32,
    pub prefix: String,
}

/// A header as a plain value: each text as its characters.
pub struct HeaderView {
    pub name: Seq<char>,
    pub mode: u32,
    pub uid: u32,
    pub gid: u32,
    pub size: u64,
    pub mtime: u64,
    pub checksum: u32,
    pub typeflag: u8,
    pub linkname: Seq<char>,
    pub magic: Seq<char>,
    pub version: Seq<char>,
    pub uname: Seq<char>,
    pub gname: Seq<char>,
    pub devmajor: u32,
    pub devminor: u32,
    pub prefix: Seq<char>,
}

impl View for TarHeader {
    type V = HeaderView;

    open spec fn view(&self) -> HeaderView {
        HeaderView {
            name: self.name@,
            mode: self.mode,
            uid: self.uid,
            gid: self.gid,
            size: self.size,
            mtime: self.mtime,
            checksum: self.checksum,
            typeflag: self.typeflag,
            linkname: self.linkname@,
            magic: self.magic@,
            version: self.version@,
            uname: self.uname@,
            gname: self.gname@,
            devmajor: self.devmajor,
            devminor: self.devminor,
            prefix: self.prefix@,
        }
    }
}

/// The magic that every written header carries.
pub open spec fn ustar_magic() -> Seq<char> {
    seq!['u', 's', 't', 'a', 'r']
}

/// The version that every written header carries.
pub open spec fn ustar_version() -> Seq<char> {
    seq!['0', '0']
}

/// The header of a regular file with the given name, mode and size, and
/// nothing else set.
pub open spec fn new_header(name: Seq<char>, mode: u32, size: u64) -> HeaderView {
    HeaderView {
        name,
        mode,
        uid: 0,
        gid: 0,
        size,
        mtime: 0,
        checksum: 0,
        typeflag: TYPE_REGULAR,
        linkname: Seq::empty(),
        magic: ustar_magic(),
        version: ustar_version(),
        uname: Seq::empty(),
        gname: Seq::empty(),
        devmajor: 0,
        devminor: 0,
        prefix: Seq::empty(),
    }
}

/// The bytes of a text field of `width` bytes that holds `text`.
pub open spec fn text_field(text: Seq<char>, width: nat) -> Seq<u8> {
    fit(encode_utf8(text), width)
}

/// The bytes of a numeric field of `width` bytes that holds `n`.
pub open spec fn octal_field(n: nat, width: nat) -> Seq<u8> {
    fit(octal_text(n), width)
}

/// The bytes of the magic field: `ustar` and a NUL.
pub open spec fn magic_field() -> Seq<u8> {
    seq![117u8, 115u8, 116u8, 97u8, 114u8, 0u8]
}

/// The bytes of the version field: `00`.
pub open spec fn version_field() -> Seq<u8> {
    seq![48u8, 48u8]
}

/// The bytes of a checksum field that holds `sum`: six octal digits, a NUL
/// and a space.
pub open spec fn checksum_field(sum: nat) -> Seq<u8> {
    octal_padded(sum, 6).push(0u8).push(SPACE)
}

/// The byte at `i` of the block of `h`, with `sum_field` as the bytes of
/// its checksum field.
pub open spec fn header_byte(h: HeaderView, sum_field: Seq<u8>, i: int) -> u8 {
    if i < MODE_OFFSET {
        text_field(h.name, NAME_WIDTH as nat)[i - NAME_OFFSET]
    } else if i < UID_OFFSET {
        octal_field(h.mode as nat, MODE_WIDTH as nat)[i - MODE_OFFSET]
    } else if i < GID_OFFSET {
        octal_field(h.uid as nat, UID_WIDTH as nat)[i - UID_OFFSET]
    } else if i < SIZE_OFFSET {
        octal_field(h.gid as nat, GID_WIDTH as nat)[i - GID_OFFSET]
    } else if i < MTIME_OFFSET {
        octal_field(h.size as nat, SIZE_WIDTH as nat)[i - SIZE_OFFSET]
    } else if i < CHECKSUM_OFFSET {
        octal_field(h.mtime as nat, MTIME_WIDTH as nat)[i - MTIME_OFFSET]
    } else if i < TYPEFLAG_OFFSET {
        sum_field[i - CHECKSUM_OFFSET]
    } else if i < LINKNAME_OFFSET {
        h.typeflag
    } else if i < MAGIC_OFFSET {
        text_field(h.linkname, LINKNAME_WIDTH as nat)[i - LINKNAME_OFFSET]
    } else if i < VERSION_OFFSET {
        magic_field()[i - MAGIC_OFFSET]
    } else if i < UNAME_OFFSET {
        version_field()[i - VERSION_OFFSET]
    } else if i < GNAME_OFFSET {
        text_field(h.uname, UNAME_WIDTH as nat)[i - UNAME_OFFSET]
    } else if i < DEVMAJOR_OFFSET {
        text_field(h.gname, GNAME_WIDTH as nat)[i - GNAME_OFFSET]
    } else if i < DEVMINOR_OFFSET {
        octal_field(h.devmajor as nat, DEVMAJOR_WIDTH as nat)[i - DEVMAJOR_OFFSET]
    } else if i < PREFIX_OFFSET {
        octal_field(h.devminor as nat, DEVMINOR_WIDTH as nat)[i - DEVMINOR_OFFSET]
    } else if i < FIELDS_END {
        text_field(h.prefix, PREFIX_WIDTH as nat)[i - PREFIX_OFFSET]
    } else {
        0u8
    }
}

/// The block of `h` with `sum_field` as the bytes of its checksum field.
pub open spec fn header_block(h: HeaderView, sum_field: Seq<u8>) -> Seq<u8> {
    Seq::new(BLOCK_SIZE as nat, |i: int| header_byte(h, sum_field, i))
}

/// The block of `h` before its checksum is written.
pub open spec fn unsigned_block(h: HeaderView) -> Seq<u8> {
    header_block(h, zeros(CHECKSUM_WIDTH as nat))
}

/// The block that `h` is written as. Every text is cut to the width of its
/// field, every number is written in octal and cut likewise, magic and
/// version are those of USTAR whatever `h` holds, and the checksum is that
/// of the block itself; the checksum that `h` holds is not used.
pub open spec fn encode_header(h: HeaderView) -> Seq<u8> {
    header_block(h, checksum_field(checksum(unsigned_block(h))))
}

/// The number in the numeric field of `width` bytes at `offset`, and zero
/// where the field holds no octal number of at most `max`.
pub open spec fn number_at(block: Seq<u8>, offset: int, width: int, max: nat) -> nat {
    parse_octal_or_zero(field_text(field(block, offset, width)), max)
}

/// The text in the field of `width` bytes at `offset`.
pub open spec fn text_at(block: Seq<u8>, offset: int, width: int) -> Seq<char> {
    field_text(field(block, offset, width))
}

/// The checksum that `block` has stored in its checksum field.
pub open spec fn stored_checksum(block: Seq<u8>) -> nat {
    parse_octal_or_zero(
        checksum_field_text(field(block, CHECKSUM_OFFSET as int, CHECKSUM_WIDTH as int)),
        u32::MAX as nat,
    )
}

/// The header that `block` is read as. Only the first 500 bytes are looked
/// at. The stored checksum is read and not checked.
#[verifier::opaque]
pub open spec fn decode_header(block: Seq<u8>) -> HeaderView {
    HeaderView {
        name: text_at(block, NAME_OFFSET as int, NAME_WIDTH as int),
        mode: number_at(block, MODE_OFFSET as int, MODE_WIDTH as int, u32::MAX as nat) as u32,
        uid: number_at(block, UID_OFFSET as int, UID_WIDTH as int, u32::MAX as nat) as u32,
        gid: number_at(block, GID_OFFSET as int, GID_WIDTH as int, u32::MAX as nat) as u32,
        size: number_at(block, SIZE_OFFSET as int, SIZE_WIDTH as int, u64::MAX as nat) as u64,
        mtime: number_at(block, MTIME_OFFSET as int, MTIME_WIDTH as int, u64::MAX as nat) as u64,
        checksum: stored_checksum(block) as u32,
        typeflag: block[TYPEFLAG_OFFSET as int],
        linkname: text_at(block, LINKNAME_OFFSET as int, LINKNAME_WIDTH as int),
        magic: text_at(block, MAGIC_OFFSET as int, MAGIC_WIDTH as int),
        version: text_at(block, VERSION_OFFSET as int, VERSION_WIDTH as int),
        uname: text_at(block, UNAME_OFFSET as int, UNAME_WIDTH as int),
        gname: text_at(block, GNAME_OFFSET as int, GNAME_WIDTH as int),
        devmajor: number_at(block, DEVMAJOR_OFFSET as int, DEVMAJOR_WIDTH as int, u32::MAX as nat) as u32,
        devminor: number_at(block, DEVMINOR_OFFSET as int, DEVMINOR_WIDTH as int, u32::MAX as nat) as u32,
        prefix: text_at(block, PREFIX_OFFSET as int, PREFIX_WIDTH as int),
    }
}

impl TarHeader {
    /// The header of a regular file with the given name, mode and size.
    pub fn new(name: String, mode: u32, size: u64) -> (header: Self)
        ensures
            header@ == new_header(name@, mode, size),
    {
        proof {
            reveal_strlit("ustar");
            reveal_strlit("00");
        }
        let header = Self {
            name,
            mode,
            size,
            uid: 0,
            gid: 0,
            mtime: 0,
            checksum: 0,
            typeflag: TYPE_REGULAR,
            linkname: String::new(),
            magic: String::from_str("ustar"),
            version: String::from_str("00"),
            uname: String::new(),
            gname: String::new(),
            devmajor: 0,
            devminor: 0,
            prefix: String::new(),
        };
        assert(header.magic@ =~= ustar_magic());
        assert(header.version@ =~= ustar_version());
        header
    }

    /// A header with the fields that describe a file on disk.
    pub fn new_full(
        name: String,
        mode: u32,
        size: u64,
        mtime: u64,
        typeflag: u8,
        linkname: String,
        uname: String,
        gname: String,
    ) -> (header: Self)
        ensures
            header@ == (HeaderView {
                mtime,
                typeflag,
                linkname: linkname@,
                uname: uname@,
                gname: gname@,
                ..new_header(name@, mode, size)
            }),
    {
        let mut header = Self::new(name, mode, size);
        header.mtime = mtime;
        header.typeflag = typeflag;
        header.linkname = linkname;
        header.uname = uname;
        header.gname = gname;
        header
    }

    /// Reads a header from the first 500 bytes of `data`.
    pub fn from_bytes(data: &[u8]) -> (header: Self)
        requires
            data@.len() >= FIELDS_END,
        ensures
            header@ == decode_header(data@),
    {
        parse_tar_header(data)
    }

    /// The block of this header.
    pub fn to_bytes(&self) -> (block: [u8; 512])
        ensures
            block@ == encode_header(self@),
    {
        create_tar_header(self)
    }

    /// Whether the checksum that this header holds is the checksum of
    /// `data`.
    pub fn verify_checksum(&self, data: &[u8]) -> (valid: bool)
        ensures
            valid == (checksum(data@) == self.checksum),
    {
        let sum: u32 = calc_checksum(data);
        sum == self.checksum
    }
}

/// Reads the text of the field that lies at `range` in `data`.
pub fn read_tar_str(data: &[u8], range: Range<usize>) -> (text: String)
    requires
        range.start <= range.end <= data@.len(),
    ensures
        text@ == field_text(data@.subrange(range.start as int, range.end as int)),
{
    decode_text(&data[range])
}

/// Reads the number of the field that lies at `range` in `data`.
pub fn read_tar_u32(data: &[u8], range: Range<usize>) -> (n: u32)
    requires
        range.start <= range.end <= data@.len(),
    ensures
        n == parse_octal_or_zero(
            field_text(data@.subrange(range.start as int, range.end as int)),
            u32::MAX as nat,
        ),
{
    let text: String = read_tar_str(data, range);
    let chars: Vec<char> = chars_of(text.as_str());
    parse_octal_or_zero_chars(chars.as_slice(), u32::MAX as u64) as u32
}

/// Reads the number of the field that lies at `range` in `data`.
pub fn read_tar_u64(data: &[u8], range: Range<usize>) -> (n: u64)
    requires
        range.start <= range.end <= data@.len(),
    ensures
        n == parse_octal_or_zero(
            field_text(data@.subrange(range.start as int, range.end as int)),
            u64::MAX as nat,
        ),
{
    let text: String = read_tar_str(data, range);
    let chars: Vec<char> = chars_of(text.as_str());
    parse_octal_or_zero_chars(chars.as_slice(), u64::MAX)
}

/// Reads the checksum of the field that lies at `range` in `data`.
pub fn read_tar_checksum(data: &[u8], range: Range<usize>) -> (n: u32)
    requires
        range.start <= range.end <= data@.len(),
    ensures
        n == parse_octal_or_zero(
            checksum_field_text(data@.subrange(range.start as int, range.end as int)),
            u32::MAX as nat,
        ),
{
    let text: String = read_tar_str(data, range);
    let chars: Vec<char> = chars_of(text.as_str());
    let ghost all = chars@;
    assert(all.subrange(0, all.len() as int) =~= all);
    let (a, b) = trim_bounds(chars.as_slice(), 0, chars.len());
    let ghost once = all.subrange(a as int, b as int);
    assert(once == trim(all));
    let inner: &[char] = &chars.as_slice()[a..b];
    assert(inner@.take(inner@.len() as int) =~= inner@);
    let end: usize = trim_end_nul_len(inner, inner.len());
    assert(inner@.subrange(0, end as int) =~= inner@.take(end as int));
    let (c, d) = trim_bounds(inner, 0, end);
    let digits: &[char] = &inner[c..d];
    assert(digits@ == trim(trim_end_nul(trim(all))));
    parse_octal_or_zero_chars(digits, u32::MAX as u64) as u32
}

/// Reads a header from the first 500 bytes of `data`.
pub fn parse_tar_header(data: &[u8]) -> (header: TarHeader)
    requires
        data@.len() >= FIELDS_END,
    ensures
        header@ == decode_header(data@),
{
    reveal(decode_header);
    TarHeader {
        name: read_tar_str(data, NAME_OFFSET..MODE_OFFSET),
        mode: read_tar_u32(data, MODE_OFFSET..UID_OFFSET),
        uid: read_tar_u32(data, UID_OFFSET..GID_OFFSET),
        gid: read_tar_u32(data, GID_OFFSET..SIZE_OFFSET),
        size: read_tar_u64(data, SIZE_OFFSET..MTIME_OFFSET),
        mtime: read_tar_u64(data, MTIME_OFFSET..CHECKSUM_OFFSET),
        checksum: read_tar_checksum(data, CHECKSUM_OFFSET..TYPEFLAG_OFFSET),
        typeflag: data[TYPEFLAG_OFFSET],
        linkname: read_tar_str(data, LINKNAME_OFFSET..MAGIC_OFFSET),
        magic: read_tar_str(data, MAGIC_OFFSET..VERSION_OFFSET),
        version: read_tar_str(data, VERSION_OFFSET..UNAME_OFFSET),
        uname: read_tar_str(data, UNAME_OFFSET..GNAME_OFFSET),
        gname: read_tar_str(data, GNAME_OFFSET..DEVMAJOR_OFFSET),
        devmajor: read_tar_u32(data, DEVMAJOR_OFFSET..DEVMINOR_OFFSET),
        devminor: read_tar_u32(data, DEVMINOR_OFFSET..PREFIX_OFFSET),
        prefix: read_tar_str(data, PREFIX_OFFSET..FIELDS_END),
    }
}

/// Writes `bytes` into the field of `width` bytes at `offset`: cut to the
/// width, and followed by NUL bytes up to the end of the field.
fn put_field(block: &mut [u8; 512], offset: usize, width: usize, bytes: &[u8])
    requires
        offset + width <= BLOCK_SIZE,
    ensures
        forall|i: int|
            0 <= i < BLOCK_SIZE ==> #[trigger] final(block)@[i] == if offset <= i < offset + width {
                fit(bytes@, width as nat)[i - offset]
            } else {
                old(block)@[i]
            },
{
    let mut k: usize = 0;
    while k < width
        invariant
            k <= width,
            offset + width <= BLOCK_SIZE,
            forall|i: int|
                0 <= i < BLOCK_SIZE ==> #[trigger] block@[i] == if offset <= i < offset + k {
                    fit(bytes@, width as nat)[i - offset]
                } else {
                    old(block)@[i]
                },
        decreases width - k,
    {
        block[offset + k] = if k < bytes.len() {
            bytes[k]
        } else {
            0u8
        };
        k += 1;
    }
}

/// Writes the octal text of `n` into the field of `width` bytes at `offset`.
fn put_octal(block: &mut [u8; 512], offset: usize, width: usize, n: u64)
    requires
        offset + width <= BLOCK_SIZE,
    ensures
        forall|i: int|
            0 <= i < BLOCK_SIZE ==> #[trigger] final(block)@[i] == if offset <= i < offset + width {
                octal_field(n as nat, width as nat)[i - offset]
            } else {
                old(block)@[i]
            },
{
    let text: Vec<u8> = format_octal(n);
    put_field(block, offset, width, text.as_slice());
}

/// Writes `text` into the field of `width` bytes at `offset`.
fn put_text(block: &mut [u8; 512], offset: usize, width: usize, text: &String)
    requires
        offset + width <= BLOCK_SIZE,
    ensures
        forall|i: int|
            0 <= i < BLOCK_SIZE ==> #[trigger] final(block)@[i] == if offset <= i < offset + width {
                text_field(text@, width as nat)[i - offset]
            } else {
                old(block)@[i]
            },
{
    put_field(block, offset, width, text.as_str().as_bytes());
}

/// The block of `header`.
pub fn create_tar_header(header: &TarHeader) -> (block: [u8; 512])
    ensures
        block@ == encode_header(header@),
{
    let mut block: [u8; 512] = [0u8; 512];
    put_text(&mut block, NAME_OFFSET, NAME_WIDTH, &header.name);
    put_octal(&mut block, MODE_OFFSET, MODE_WIDTH, header.mode as u64);
    put_octal(&mut block, UID_OFFSET, UID_WIDTH, header.uid as u64);
    put_octal(&mut block, GID_OFFSET, GID_WIDTH, header.gid as u64);
    put_octal(&mut block, SIZE_OFFSET, SIZE_WIDTH, header.size);
    put_octal(&mut block, MTIME_OFFSET, MTIME_WIDTH, header.mtime);
    block[TYPEFLAG_OFFSET] = header.typeflag;
    put_text(&mut block, LINKNAME_OFFSET, LINKNAME_WIDTH, &header.linkname);
    let magic: [u8; 5] = [117u8, 115u8, 116u8, 97u8, 114u8];
    put_field(&mut block, MAGIC_OFFSET, MAGIC_WIDTH, magic.as_slice());
    let version: [u8; 2] = [48u8, 48u8];
    put_field(&mut block, VERSION_OFFSET, VERSION_WIDTH, version.as_slice());
    put_text(&mut block, UNAME_OFFSET, UNAME_WIDTH, &header.uname);
    put_text(&mut block, GNAME_OFFSET, GNAME_WIDTH, &header.gname);
    put_octal(&mut block, DEVMAJOR_OFFSET, DEVMAJOR_WIDTH, header.devmajor as u64);
    put_octal(&mut block, DEVMINOR_OFFSET, DEVMINOR_WIDTH, header.devminor as u64);
    put_text(&mut block, PREFIX_OFFSET, PREFIX_WIDTH, &header.prefix);
    assert(block@ =~= unsigned_block(header@));
    let sum: u32 = calc_checksum(block.as_slice());
    let mut sum_text: Vec<u8> = Vec::new();
    push_octal_padded(&mut sum_text, sum as u64, 6);
    sum_text.push(0u8);
    sum_text.push(SPACE);
    let ghost sum_field = checksum_field(checksum(unsigned_block(header@)));
    assert(sum_text@ =~= sum_field);
    proof {
        lemma_octal_padded_len(sum as nat, 6);
    }
    assert(fit(sum_field, CHECKSUM_WIDTH as nat) =~= sum_field);
    put_field(&mut block, CHECKSUM_OFFSET, CHECKSUM_WIDTH, sum_text.as_slice());
    assert forall|i: int| 0 <= i < BLOCK_SIZE implies block@[i] == header_byte(
        header@,
        sum_field,
        i,
    ) by {
        assert(unsigned_block(header@)[i] == header_byte(
            header@,
            zeros(CHECKSUM_WIDTH as nat),
            i,
        ));
    }
    assert(block@ =~= encode_header(header@));
    block
}

} // verus!
