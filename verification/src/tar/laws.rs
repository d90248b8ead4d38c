//! What holds of the codec as a whole: what a written header reads back as,
//! and what a written archive reads back as.
use vstd::prelude::*;
use vstd::utf8::decode_utf8;
use vstd::utf8::encode_utf8;
use vstd::utf8::encode_utf8_decode_utf8;
use vstd::utf8::encode_utf8_valid_utf8;
use vstd::utf8::is_ascii_chars;
use vstd::utf8::is_ascii_chars_encode_utf8;
use vstd::utf8::valid_utf8;
use crate::tar::archive::archive_bytes;
use crate::tar::archive::first_entry;
use crate::tar::archive::first_header;
use crate::tar::archive::first_payload_end;
use crate::tar::archive::first_record_end;
use crate::tar::archive::is_zero_block;
use crate::tar::archive::read_entries;
use crate::tar::archive::record_bytes;
use crate::tar::archive::starts_with_record;
use crate::tar::archive::EntryView;
use crate::tar::checksum::checksum;
use crate::tar::container::has_named;
use crate::tar::container::is_first_named;
use crate::tar::container::is_upsert;
use crate::tar::container::payload_text;
use crate::tar::checksum::lemma_checksum_bound;
use crate::tar::checksum::lemma_checksum_upto_ignores_field;
use crate::tar::header::checksum_field;
use crate::tar::header::decode_header;
use crate::tar::header::encode_header;
use crate::tar::header::header_block;
use crate::tar::header::magic_field;
use crate::tar::header::octal_field;
use crate::tar::header::text_field;
use crate::tar::header::ustar_magic;
use crate::tar::header::ustar_version;
use crate::tar::header::version_field;
use crate::tar::header::stored_checksum;
use crate::tar::header::unsigned_block;
use crate::tar::header::HeaderView;
use crate::tar::layout::field;
use crate::tar::layout::{
    fit, is_regular, padding, BLOCK_SIZE, CHECKSUM_OFFSET, CHECKSUM_WIDTH, DEVMAJOR_OFFSET,
    DEVMAJOR_WIDTH, DEVMINOR_OFFSET, DEVMINOR_WIDTH, GID_OFFSET, GID_WIDTH, GNAME_OFFSET,
    GNAME_WIDTH, LINKNAME_OFFSET, LINKNAME_WIDTH, MAGIC_OFFSET, MAGIC_WIDTH, MODE_OFFSET,
    MODE_WIDTH, MTIME_OFFSET, MTIME_WIDTH, NAME_OFFSET, NAME_WIDTH, PREFIX_OFFSET, PREFIX_WIDTH,
    SIZE_OFFSET, SIZE_WIDTH, TYPEFLAG_OFFSET, UID_OFFSET, UID_WIDTH, UNAME_OFFSET,
    UNAME_WIDTH, VERSION_OFFSET, VERSION_WIDTH,
};
use crate::tar::octal::all_octal;
use crate::tar::octal::is_octal_char;
use crate::tar::octal::lemma_octal_padded_len;
use crate::tar::octal::octal_padded;
use crate::tar::octal::octal_text;
use crate::tar::octal::octal_value;
use crate::tar::octal::parse_octal_or_zero;
use crate::tar::octal::pow8;
use crate::tar::octal::unsigned_part;
use crate::tar::text::checksum_field_text;
use crate::tar::layout::zeros;
use crate::tar::text::field_text;
use crate::tar::text::is_whitespace;
use crate::tar::text::lossy_text;
use crate::tar::text::trim;
use crate::tar::text::trim_end;
use crate::tar::text::trim_end_nul;
use crate::tar::text::trim_start;

verus! {

/// The characters that ASCII bytes stand for.
pub open spec fn ascii_chars(bytes: Seq<u8>) -> Seq<char> {
    Seq::new(bytes.len(), |i: int| bytes[i] as char)
}

/// Whether every byte is below 128.
pub open spec fn is_ascii_bytes(bytes: Seq<u8>) -> bool {
    forall|i: int| 0 <= i < bytes.len() ==> #[trigger] bytes[i] < 128
}

/// Whether trimming would leave `text` as it is: it neither starts nor ends
/// with white space, and does not end with a NUL.
pub open spec fn is_trimmed(text: Seq<char>) -> bool {
    text.len() > 0 ==> !is_whitespace(text[0]) && !is_whitespace(text.last()) && text.last()
        != '\0'
}

/// The encoding of a concatenation is the concatenation of the encodings.
pub proof fn lemma_encode_concat(a: Seq<char>, b: Seq<char>)
    ensures
        encode_utf8(a + b) == encode_utf8(a) + encode_utf8(b),
    decreases a.len(),
{
    if a.len() == 0 {
        assert(a + b =~= b);
        assert(encode_utf8(a) + encode_utf8(b) =~= encode_utf8(b));
    } else {
        assert((a + b).drop_first() =~= a.drop_first() + b);
        lemma_encode_concat(a.drop_first(), b);
        assert(encode_utf8(a + b) =~= encode_utf8(a) + encode_utf8(b));
    }
}

/// ASCII bytes are valid UTF-8 and decode to one character each.
pub proof fn lemma_ascii_bytes(bytes: Seq<u8>)
    requires
        is_ascii_bytes(bytes),
    ensures
        encode_utf8(ascii_chars(bytes)) == bytes,
        valid_utf8(bytes),
        decode_utf8(bytes) == ascii_chars(bytes),
{
    let chars = ascii_chars(bytes);
    assert(is_ascii_chars(chars)) by {
        assert forall|i: int| 0 <= i < chars.len() implies '\0' <= #[trigger] chars[i]
            <= '\u{7f}' by {
            assert(bytes[i] < 128);
        }
    }
    is_ascii_chars_encode_utf8(chars);
    assert(encode_utf8(chars) =~= bytes) by {
        assert forall|i: int| 0 <= i < bytes.len() implies encode_utf8(chars)[i] == bytes[i] by {
            assert(chars[i] as u8 == encode_utf8(chars)[i]);
            assert(bytes[i] < 128);
        }
    }
    encode_utf8_valid_utf8(chars);
    encode_utf8_decode_utf8(chars);
}

/// NUL characters at the end of a text are dropped, however many.
pub proof fn lemma_trim_end_nul_padding(text: Seq<char>, n: nat)
    ensures
        trim_end_nul(text + ascii_chars(zeros(n))) == trim_end_nul(text),
    decreases n,
{
    let padded = text + ascii_chars(zeros(n));
    if n == 0 {
        assert(padded =~= text);
    } else {
        assert(padded.last() == '\0');
        assert(padded.drop_last() =~= text + ascii_chars(zeros((n - 1) as nat)));
        lemma_trim_end_nul_padding(text, (n - 1) as nat);
    }
}

/// Trimming leaves a trimmed text as it is.
pub proof fn lemma_trim_of_trimmed(text: Seq<char>)
    requires
        is_trimmed(text),
    ensures
        trim_end_nul(text) == text,
        trim(text) == text,
{
}

/// A text that fits its field and that trimming would leave as it is reads
/// back from the field as it was written.
pub proof fn lemma_text_field_round_trip(text: Seq<char>, width: nat)
    requires
        encode_utf8(text).len() <= width,
        is_trimmed(text),
    ensures
        field_text(fit(encode_utf8(text), width)) == text,
{
    let bytes = encode_utf8(text);
    let n = (width - bytes.len()) as nat;
    let nuls = ascii_chars(zeros(n));
    assert(fit(bytes, width) =~= bytes + zeros(n));
    lemma_ascii_bytes(zeros(n));
    lemma_encode_concat(text, nuls);
    encode_utf8_valid_utf8(text + nuls);
    encode_utf8_decode_utf8(text + nuls);
    assert(lossy_text(fit(bytes, width)) == text + nuls);
    lemma_trim_end_nul_padding(text, n);
    lemma_trim_of_trimmed(text);
}

/// Octal text is never empty and is made of the digits `0` to `7`.
pub proof fn lemma_octal_text_digits(n: nat)
    ensures
        octal_text(n).len() >= 1,
        forall|i: int| 0 <= i < octal_text(n).len() ==> 48 <= #[trigger] octal_text(n)[i] <= 55,
    decreases n,
{
    if n >= 8 {
        lemma_octal_text_digits(n / 8);
    }
}

/// A number below `8^width` has at most `width` octal digits.
pub proof fn lemma_octal_text_len(n: nat, width: nat)
    requires
        width >= 1,
        n < pow8(width),
    ensures
        octal_text(n).len() <= width,
    decreases width,
{
    if n >= 8 {
        assert(pow8(1) == 8) by {
            reveal_with_fuel(pow8, 2);
        }
        lemma_octal_text_len(n / 8, (width - 1) as nat);
    }
}

/// The octal text of a number stands for that number.
pub proof fn lemma_octal_value_of_text(n: nat)
    ensures
        octal_value(ascii_chars(octal_text(n))) == n,
        all_octal(ascii_chars(octal_text(n))),
    decreases n,
{
    lemma_octal_text_digits(n);
    let chars = ascii_chars(octal_text(n));
    assert(all_octal(chars)) by {
        assert forall|i: int| 0 <= i < chars.len() implies is_octal_char(#[trigger] chars[i]) by {
            assert(48 <= octal_text(n)[i] <= 55);
        }
    }
    if n < 8 {
        assert(chars.drop_last() =~= Seq::<char>::empty());
        assert(octal_value(chars.drop_last()) == 0);
        assert(chars.last() as nat == 48 + n);
    } else {
        lemma_octal_value_of_text(n / 8);
        assert(chars.drop_last() =~= ascii_chars(octal_text(n / 8)));
        assert(chars.last() as nat == 48 + n % 8);
    }
}

/// A number that fits its field reads back from the field as it was
/// written.
pub proof fn lemma_octal_field_round_trip(n: nat, width: nat, max: nat)
    requires
        width >= 1,
        n < pow8(width),
        n <= max,
    ensures
        parse_octal_or_zero(field_text(fit(octal_text(n), width)), max) == n,
{
    let bytes = octal_text(n);
    let chars = ascii_chars(bytes);
    lemma_octal_text_digits(n);
    lemma_octal_text_len(n, width);
    lemma_ascii_bytes(bytes);
    lemma_octal_value_of_text(n);
    assert(is_octal_char(chars[0]));
    assert(is_octal_char(chars.last()));
    assert(is_trimmed(chars));
    lemma_text_field_round_trip(chars, width);
    assert(unsigned_part(chars) == chars);
}

/// Padded octal text is made of the digits `0` to `7`, and stands for the
/// number where that is below `8^width`.
pub proof fn lemma_octal_value_of_padded(n: nat, width: nat)
    requires
        n < pow8(width),
    ensures
        octal_padded(n, width).len() == width,
        is_ascii_bytes(octal_padded(n, width)),
        all_octal(ascii_chars(octal_padded(n, width))),
        octal_value(ascii_chars(octal_padded(n, width))) == n,
    decreases width,
{
    let chars = ascii_chars(octal_padded(n, width));
    if width > 0 {
        let shorter = (width - 1) as nat;
        lemma_octal_value_of_padded(n / 8, shorter);
        assert(chars.drop_last() =~= ascii_chars(octal_padded(n / 8, shorter)));
        assert(chars.last() as nat == 48 + n % 8);
        assert forall|i: int| 0 <= i < chars.len() implies is_octal_char(#[trigger] chars[i]) by {
            if i < shorter {
                assert(chars[i] == ascii_chars(octal_padded(n / 8, shorter))[i]);
            }
        }
    }
}

/// A checksum field reads back as the sum that it was written from.
pub proof fn lemma_checksum_field_round_trip(sum: nat)
    requires
        sum < pow8(6),
    ensures
        checksum_field(sum).len() == CHECKSUM_WIDTH,
        parse_octal_or_zero(checksum_field_text(checksum_field(sum)), u32::MAX as nat) == sum,
{
    let digits = octal_padded(sum, 6);
    let bytes = checksum_field(sum);
    lemma_octal_value_of_padded(sum, 6);
    let d = ascii_chars(digits);
    let chars = ascii_chars(bytes);
    assert(is_ascii_bytes(bytes)) by {
        assert forall|i: int| 0 <= i < bytes.len() implies #[trigger] bytes[i] < 128 by {
            if i < 6 {
                assert(bytes[i] == digits[i]);
            }
        }
    }
    lemma_ascii_bytes(bytes);
    assert(chars =~= d.push('\0').push(' '));
    assert(is_octal_char(d[0]));
    assert(is_octal_char(d.last()));
    // The field as text: the space goes, the NUL stays.
    assert(trim_end_nul(chars) == chars);
    assert(trim_start(chars) == chars);
    assert(chars.drop_last() =~= d.push('\0'));
    assert(trim_end(d.push('\0')) == d.push('\0'));
    assert(trim_end(chars) == d.push('\0'));
    assert(field_text(bytes) == d.push('\0'));
    // Trimmed once more, the NUL goes as well.
    assert(trim_start(d.push('\0')) == d.push('\0'));
    assert(d.push('\0').drop_last() =~= d);
    assert(trim_end_nul(d) == d);
    assert(trim_end_nul(d.push('\0')) == d);
    assert(trim(d) == d);
    assert(checksum_field_text(bytes) == d);
    assert(unsigned_part(d) == d);
    assert(pow8(6) == 262144) by {
        reveal_with_fuel(pow8, 7);
    }
}

/// The checksum that a written header stores is the checksum of the block
/// that it stands in.
pub proof fn lemma_stored_checksum_is_checksum(h: HeaderView)
    ensures
        encode_header(h).len() == BLOCK_SIZE,
        stored_checksum(encode_header(h)) == checksum(encode_header(h)),
{
    let plain = unsigned_block(h);
    let sum = checksum(plain);
    let block = encode_header(h);
    lemma_checksum_bound(plain);
    assert(pow8(6) == 262144) by {
        reveal_with_fuel(pow8, 7);
    }
    lemma_checksum_field_round_trip(sum);
    assert(field(block, CHECKSUM_OFFSET as int, CHECKSUM_WIDTH as int) =~= checksum_field(sum));
    lemma_checksum_upto_ignores_field(plain, block, BLOCK_SIZE as nat);
}

/// Every field of a block holds what the header gives it, cut or filled to
/// the width of the field; no field reaches into another.
pub proof fn lemma_fields_of_block(h: HeaderView, sum_field: Seq<u8>)
    requires
        sum_field.len() == CHECKSUM_WIDTH,
    ensures
        header_block(h, sum_field).len() == BLOCK_SIZE,
        field(header_block(h, sum_field), NAME_OFFSET as int, NAME_WIDTH as int) == text_field(
            h.name,
            NAME_WIDTH as nat,
        ),
        field(header_block(h, sum_field), MODE_OFFSET as int, MODE_WIDTH as int) == octal_field(
            h.mode as nat,
            MODE_WIDTH as nat,
        ),
        field(header_block(h, sum_field), UID_OFFSET as int, UID_WIDTH as int) == octal_field(
            h.uid as nat,
            UID_WIDTH as nat,
        ),
        field(header_block(h, sum_field), GID_OFFSET as int, GID_WIDTH as int) == octal_field(
            h.gid as nat,
            GID_WIDTH as nat,
        ),
        field(header_block(h, sum_field), SIZE_OFFSET as int, SIZE_WIDTH as int) == octal_field(
            h.size as nat,
            SIZE_WIDTH as nat,
        ),
        field(header_block(h, sum_field), MTIME_OFFSET as int, MTIME_WIDTH as int) == octal_field(
            h.mtime as nat,
            MTIME_WIDTH as nat,
        ),
        field(header_block(h, sum_field), CHECKSUM_OFFSET as int, CHECKSUM_WIDTH as int)
            == sum_field,
        header_block(h, sum_field)[TYPEFLAG_OFFSET as int] == h.typeflag,
        field(header_block(h, sum_field), LINKNAME_OFFSET as int, LINKNAME_WIDTH as int)
            == text_field(h.linkname, LINKNAME_WIDTH as nat),
        field(header_block(h, sum_field), MAGIC_OFFSET as int, MAGIC_WIDTH as int)
            == magic_field(),
        field(header_block(h, sum_field), VERSION_OFFSET as int, VERSION_WIDTH as int)
            == version_field(),
        field(header_block(h, sum_field), UNAME_OFFSET as int, UNAME_WIDTH as int) == text_field(
            h.uname,
            UNAME_WIDTH as nat,
        ),
        field(header_block(h, sum_field), GNAME_OFFSET as int, GNAME_WIDTH as int) == text_field(
            h.gname,
            GNAME_WIDTH as nat,
        ),
        field(header_block(h, sum_field), DEVMAJOR_OFFSET as int, DEVMAJOR_WIDTH as int)
            == octal_field(h.devmajor as nat, DEVMAJOR_WIDTH as nat),
        field(header_block(h, sum_field), DEVMINOR_OFFSET as int, DEVMINOR_WIDTH as int)
            == octal_field(h.devminor as nat, DEVMINOR_WIDTH as nat),
        field(header_block(h, sum_field), PREFIX_OFFSET as int, PREFIX_WIDTH as int)
            == text_field(h.prefix, PREFIX_WIDTH as nat),
{
    let b = header_block(h, sum_field);
    assert(field(b, NAME_OFFSET as int, NAME_WIDTH as int) =~= text_field(
        h.name,
        NAME_WIDTH as nat,
    ));
    assert(field(b, MODE_OFFSET as int, MODE_WIDTH as int) =~= octal_field(
        h.mode as nat,
        MODE_WIDTH as nat,
    ));
    assert(field(b, UID_OFFSET as int, UID_WIDTH as int) =~= octal_field(
        h.uid as nat,
        UID_WIDTH as nat,
    ));
    assert(field(b, GID_OFFSET as int, GID_WIDTH as int) =~= octal_field(
        h.gid as nat,
        GID_WIDTH as nat,
    ));
    assert(field(b, SIZE_OFFSET as int, SIZE_WIDTH as int) =~= octal_field(
        h.size as nat,
        SIZE_WIDTH as nat,
    ));
    assert(field(b, MTIME_OFFSET as int, MTIME_WIDTH as int) =~= octal_field(
        h.mtime as nat,
        MTIME_WIDTH as nat,
    ));
    assert(field(b, CHECKSUM_OFFSET as int, CHECKSUM_WIDTH as int) =~= sum_field);
    assert(field(b, LINKNAME_OFFSET as int, LINKNAME_WIDTH as int) =~= text_field(
        h.linkname,
        LINKNAME_WIDTH as nat,
    ));
    assert(field(b, MAGIC_OFFSET as int, MAGIC_WIDTH as int) =~= magic_field());
    assert(field(b, VERSION_OFFSET as int, VERSION_WIDTH as int) =~= version_field());
    assert(field(b, UNAME_OFFSET as int, UNAME_WIDTH as int) =~= text_field(
        h.uname,
        UNAME_WIDTH as nat,
    ));
    assert(field(b, GNAME_OFFSET as int, GNAME_WIDTH as int) =~= text_field(
        h.gname,
        GNAME_WIDTH as nat,
    ));
    assert(field(b, DEVMAJOR_OFFSET as int, DEVMAJOR_WIDTH as int) =~= octal_field(
        h.devmajor as nat,
        DEVMAJOR_WIDTH as nat,
    ));
    assert(field(b, DEVMINOR_OFFSET as int, DEVMINOR_WIDTH as int) =~= octal_field(
        h.devminor as nat,
        DEVMINOR_WIDTH as nat,
    ));
    assert(field(b, PREFIX_OFFSET as int, PREFIX_WIDTH as int) =~= text_field(
        h.prefix,
        PREFIX_WIDTH as nat,
    ));
}

/// Whether a text is read back from a field of `width` bytes as it was
/// written: it fits the field, and trimming would leave it as it is.
pub open spec fn text_survives(text: Seq<char>, width: nat) -> bool {
    encode_utf8(text).len() <= width && is_trimmed(text)
}

/// Whether a number is read back from a field of `width` bytes as it was
/// written: it has no more octal digits than the field is wide.
pub open spec fn number_survives(n: nat, width: nat) -> bool {
    n < pow8(width)
}

/// Whether every field of `h` is read back as it was written.
pub open spec fn header_survives(h: HeaderView) -> bool {
    &&& text_survives(h.name, NAME_WIDTH as nat)
    &&& number_survives(h.mode as nat, MODE_WIDTH as nat)
    &&& number_survives(h.uid as nat, UID_WIDTH as nat)
    &&& number_survives(h.gid as nat, GID_WIDTH as nat)
    &&& number_survives(h.size as nat, SIZE_WIDTH as nat)
    &&& number_survives(h.mtime as nat, MTIME_WIDTH as nat)
    &&& text_survives(h.linkname, LINKNAME_WIDTH as nat)
    &&& text_survives(h.uname, UNAME_WIDTH as nat)
    &&& text_survives(h.gname, GNAME_WIDTH as nat)
    &&& number_survives(h.devmajor as nat, DEVMAJOR_WIDTH as nat)
    &&& number_survives(h.devminor as nat, DEVMINOR_WIDTH as nat)
    &&& text_survives(h.prefix, PREFIX_WIDTH as nat)
}

/// What holds of every written header, whatever its fields: the block has
/// 512 bytes and is not all NUL, and it reads back with the type flag that
/// was written, the magic and version of USTAR, and its own checksum.
pub proof fn lemma_written_block(h: HeaderView)
    ensures
        encode_header(h).len() == BLOCK_SIZE,
        !is_zero_block(encode_header(h)),
        decode_header(encode_header(h)).typeflag == h.typeflag,
        decode_header(encode_header(h)).magic == ustar_magic(),
        decode_header(encode_header(h)).version == ustar_version(),
        decode_header(encode_header(h)).checksum == checksum(encode_header(h)),
{
    reveal(decode_header);
    let block = encode_header(h);
    let sum_field = checksum_field(checksum(unsigned_block(h)));
    lemma_octal_padded_len(checksum(unsigned_block(h)), 6);
    lemma_fields_of_block(h, sum_field);
    lemma_stored_checksum_is_checksum(h);
    lemma_checksum_bound(block);
    assert(block[MAGIC_OFFSET as int] == 117);
    let magic_bytes = seq![117u8, 115u8, 116u8, 97u8, 114u8];
    lemma_ascii_bytes(magic_bytes);
    assert(ascii_chars(magic_bytes) =~= ustar_magic());
    assert(fit(magic_bytes, MAGIC_WIDTH as nat) =~= magic_field());
    lemma_text_field_round_trip(ustar_magic(), MAGIC_WIDTH as nat);
    lemma_ascii_bytes(version_field());
    assert(ascii_chars(version_field()) =~= ustar_version());
    assert(fit(version_field(), VERSION_WIDTH as nat) =~= version_field());
    lemma_text_field_round_trip(ustar_version(), VERSION_WIDTH as nat);
}

/// A name and a size that fit their fields are read back as they were
/// written, whatever the other fields hold.
pub proof fn lemma_name_and_size_round_trip(h: HeaderView)
    requires
        text_survives(h.name, NAME_WIDTH as nat),
        number_survives(h.size as nat, SIZE_WIDTH as nat),
    ensures
        decode_header(encode_header(h)).name == h.name,
        decode_header(encode_header(h)).size == h.size,
{
    reveal(decode_header);
    let sum_field = checksum_field(checksum(unsigned_block(h)));
    lemma_octal_padded_len(checksum(unsigned_block(h)), 6);
    lemma_fields_of_block(h, sum_field);
    lemma_text_field_round_trip(h.name, NAME_WIDTH as nat);
    lemma_octal_field_round_trip(h.size as nat, SIZE_WIDTH as nat, u64::MAX as nat);
}

/// A header whose fields all fit is read back as it was written, but for
/// the three fields that writing sets: magic and version are those of
/// USTAR, and the checksum is that of the block.
pub proof fn lemma_header_round_trip(h: HeaderView)
    requires
        header_survives(h),
    ensures
        decode_header(encode_header(h)) == (HeaderView {
            checksum: checksum(encode_header(h)) as u32,
            magic: ustar_magic(),
            version: ustar_version(),
            ..h
        }),
{
    lemma_written_block(h);
    lemma_name_and_size_round_trip(h);
    reveal(decode_header);
    let sum_field = checksum_field(checksum(unsigned_block(h)));
    lemma_octal_padded_len(checksum(unsigned_block(h)), 6);
    lemma_fields_of_block(h, sum_field);
    assert(pow8(8) == 16777216) by {
        reveal_with_fuel(pow8, 9);
    }
    lemma_octal_field_round_trip(h.mode as nat, MODE_WIDTH as nat, u32::MAX as nat);
    lemma_octal_field_round_trip(h.uid as nat, UID_WIDTH as nat, u32::MAX as nat);
    lemma_octal_field_round_trip(h.gid as nat, GID_WIDTH as nat, u32::MAX as nat);
    lemma_octal_field_round_trip(h.mtime as nat, MTIME_WIDTH as nat, u64::MAX as nat);
    lemma_octal_field_round_trip(h.devmajor as nat, DEVMAJOR_WIDTH as nat, u32::MAX as nat);
    lemma_octal_field_round_trip(h.devminor as nat, DEVMINOR_WIDTH as nat, u32::MAX as nat);
    lemma_text_field_round_trip(h.linkname, LINKNAME_WIDTH as nat);
    lemma_text_field_round_trip(h.uname, UNAME_WIDTH as nat);
    lemma_text_field_round_trip(h.gname, GNAME_WIDTH as nat);
    lemma_text_field_round_trip(h.prefix, PREFIX_WIDTH as nat);
}

/// The entries of a list that are regular files, in their order.
pub open spec fn regular_entries(entries: Seq<EntryView>) -> Seq<EntryView> {
    entries.filter(|e: EntryView| is_regular(e.header.typeflag))
}

/// What an entry is read back as from the record that it was written as:
/// its payload as it was, the header that its block reads as, and that
/// block.
pub open spec fn read_back(e: EntryView) -> EntryView {
    EntryView {
        header: decode_header(encode_header(e.header)),
        data: e.data,
        header_bytes: encode_header(e.header),
    }
}

/// Each entry of a list as it is read back.
pub open spec fn read_back_all(entries: Seq<EntryView>) -> Seq<EntryView> {
    entries.map_values(|e: EntryView| read_back(e))
}

/// Whether the size that the header of `e` holds is the length of its
/// payload, and fits the size field.
pub open spec fn is_consistent(e: EntryView) -> bool {
    e.header.size == e.data.len() && number_survives(e.header.size as nat, SIZE_WIDTH as nat)
}

/// Whether `e` is consistent and has a name that is read back as it was
/// written.
pub open spec fn name_survives(e: EntryView) -> bool {
    is_consistent(e) && text_survives(e.header.name, NAME_WIDTH as nat)
}

/// A record has a whole number of blocks.
pub proof fn lemma_record_len(e: EntryView)
    ensures
        record_bytes(e).len() == BLOCK_SIZE + e.data.len() + padding(e.data.len()),
        record_bytes(e).len() % 512 == 0,
{
    lemma_written_block(e.header);
}

/// An archive of consistent entries reads back as its regular files, each
/// as it is read back from its own record, in the order in which they were
/// written.
pub proof fn lemma_read_written(entries: Seq<EntryView>)
    requires
        forall|i: int| 0 <= i < entries.len() ==> is_consistent(#[trigger] entries[i]),
    ensures
        read_entries(archive_bytes(entries)) == read_back_all(regular_entries(entries)),
    decreases entries.len(),
{
    let data = archive_bytes(entries);
    if entries.len() == 0 {
        reveal(Seq::filter);
        assert(read_back_all(regular_entries(entries)) =~= Seq::<EntryView>::empty());
        assert(is_zero_block(data.take(BLOCK_SIZE as int)));
    } else {
        let e = entries[0];
        let rest = entries.drop_first();
        let tail = archive_bytes(rest);
        let record = record_bytes(e);
        let block = encode_header(e.header);
        assert(is_consistent(e));
        assert forall|i: int| 0 <= i < rest.len() implies is_consistent(#[trigger] rest[i]) by {
            assert(rest[i] == entries[i + 1]);
        }
        lemma_read_written(rest);
        lemma_written_block(e.header);
        lemma_record_len(e);
        assert(data.take(BLOCK_SIZE as int) =~= block);
        let sum_field = checksum_field(checksum(unsigned_block(e.header)));
        lemma_octal_padded_len(checksum(unsigned_block(e.header)), 6);
        lemma_fields_of_block(e.header, sum_field);
        assert(first_header(data).size == e.header.size) by {
            reveal(decode_header);
            lemma_octal_field_round_trip(
                e.header.size as nat,
                SIZE_WIDTH as nat,
                u64::MAX as nat,
            );
        }
        assert(first_payload_end(data) == BLOCK_SIZE + e.data.len());
        assert(first_record_end(data) == record.len());
        assert(starts_with_record(data));
        assert(data.skip(record.len() as int) =~= tail);
        assert(data.subrange(BLOCK_SIZE as int, first_payload_end(data)) =~= e.data);
        assert(first_entry(data) == read_back(e));
        let regular = |e: EntryView| is_regular(e.header.typeflag);
        assert(entries =~= seq![e] + rest);
        rest.lemma_filter_prepend(e, regular);
        if is_regular(e.header.typeflag) {
            assert(regular_entries(entries) == seq![e] + regular_entries(rest));
            assert(read_back_all(seq![e] + regular_entries(rest)) =~= seq![read_back(e)]
                + read_back_all(regular_entries(rest)));
        } else {
            assert(regular_entries(entries) =~= regular_entries(rest));
        }
    }
}

/// Writing and reading back keeps the regular files: the archive of entries
/// whose names and sizes fit their fields reads back as the regular files
/// among them, in their order, each with the name, the size and the payload
/// that it had.
pub proof fn lemma_round_trip(entries: Seq<EntryView>)
    requires
        forall|i: int| 0 <= i < entries.len() ==> name_survives(#[trigger] entries[i]),
    ensures
        read_entries(archive_bytes(entries)).len() == regular_entries(entries).len(),
        forall|k: int|
            #![trigger read_entries(archive_bytes(entries))[k]]
            0 <= k < regular_entries(entries).len() ==> {
                let read = read_entries(archive_bytes(entries))[k];
                let written = regular_entries(entries)[k];
                &&& read.header.name == written.header.name
                &&& read.header.size == written.header.size
                &&& read.header.typeflag == written.header.typeflag
                &&& read.data == written.data
            },
{
    lemma_read_written(entries);
    let kept = regular_entries(entries);
    let regular = |e: EntryView| is_regular(e.header.typeflag);
    assert forall|k: int| 0 <= k < kept.len() implies {
        let read = #[trigger] read_entries(archive_bytes(entries))[k];
        let written = kept[k];
        &&& read.header.name == written.header.name
        &&& read.header.size == written.header.size
        &&& read.header.typeflag == written.header.typeflag
        &&& read.data == written.data
    } by {
        let written = kept[k];
        assert(kept.contains(written));
        entries.lemma_filter_contains_rev(regular, written);
        let i = choose|i: int| 0 <= i < entries.len() && entries[i] == written;
        assert(name_survives(entries[i]));
        lemma_name_and_size_round_trip(written.header);
        lemma_written_block(written.header);
    }
}

/// A name that is longer than its field is written as its first 100
/// bytes, and nothing of it reaches beyond the field.
pub proof fn lemma_long_name_is_cut(h: HeaderView)
    requires
        encode_utf8(h.name).len() >= NAME_WIDTH,
    ensures
        encode_header(h).len() == BLOCK_SIZE,
        field(encode_header(h), NAME_OFFSET as int, NAME_WIDTH as int) == encode_utf8(
            h.name,
        ).take(NAME_WIDTH as int),
        field(encode_header(h), MODE_OFFSET as int, MODE_WIDTH as int) == octal_field(
            h.mode as nat,
            MODE_WIDTH as nat,
        ),
{
    let sum_field = checksum_field(checksum(unsigned_block(h)));
    lemma_octal_padded_len(checksum(unsigned_block(h)), 6);
    lemma_fields_of_block(h, sum_field);
    assert(fit(encode_utf8(h.name), NAME_WIDTH as nat) =~= encode_utf8(h.name).take(
        NAME_WIDTH as int,
    ));
}

/// An archive that breaks off within the payload of its first record reads
/// as no entries at all.
pub proof fn lemma_truncated_first_record(data: Seq<u8>)
    requires
        data.len() >= BLOCK_SIZE,
        first_payload_end(data) > data.len(),
    ensures
        read_entries(data) == Seq::<EntryView>::empty(),
{
}

/// An archive is a whole number of blocks, two at the least.
pub proof fn lemma_archive_len(entries: Seq<EntryView>)
    ensures
        archive_bytes(entries).len() >= 2 * BLOCK_SIZE,
        archive_bytes(entries).len() % 512 == 0,
    decreases entries.len(),
{
    if entries.len() > 0 {
        lemma_record_len(entries[0]);
        lemma_archive_len(entries.drop_first());
    }
}

/// Where some entry has the name, one of them is the first.
pub proof fn lemma_first_named_exists(entries: Seq<EntryView>, name: Seq<char>)
    requires
        has_named(entries, name),
    ensures
        exists|i: int| is_first_named(entries, name, i),
    decreases entries.len(),
{
    let k = choose|k: int| 0 <= k < entries.len() && (#[trigger] entries[k]).header.name == name;
    let shorter = entries.take(k);
    if has_named(shorter, name) {
        lemma_first_named_exists(shorter, name);
        let i = choose|i: int| is_first_named(shorter, name, i);
        assert(shorter[i] == entries[i]);
        assert forall|j: int| 0 <= j < i implies (#[trigger] entries[j]).header.name != name by {
            assert(shorter[j] == entries[j]);
        }
        assert(is_first_named(entries, name, i));
    } else {
        assert forall|j: int| 0 <= j < k implies (#[trigger] entries[j]).header.name != name by {
            assert(shorter[j] == entries[j]);
        }
        assert(is_first_named(entries, name, k));
    }
}

/// What is put under a name is found under it: after `content` was put
/// under `name`, the first entry of that name holds it, and the text that
/// is read from that entry is `content` without its trailing NUL
/// characters. Putting it there adds an entry only where the name was new.
pub proof fn lemma_upsert_then_lookup(
    before: Seq<EntryView>,
    after: Seq<EntryView>,
    name: Seq<char>,
    content: Seq<char>,
    with_block: bool,
)
    requires
        is_upsert(before, after, name, content, with_block),
    ensures
        after.len() == if has_named(before, name) {
            before.len()
        } else {
            before.len() + 1
        },
        exists|i: int|
            is_first_named(after, name, i) && (#[trigger] after[i]).data == encode_utf8(content)
                && payload_text(after[i].data) == trim_end_nul(content),
{
    encode_utf8_valid_utf8(content);
    encode_utf8_decode_utf8(content);
    if has_named(before, name) {
        lemma_first_named_exists(before, name);
        let i = choose|i: int| is_first_named(before, name, i);
        assert forall|j: int| 0 <= j < i implies (#[trigger] after[j]).header.name != name by {
            assert(after[j] == before[j]);
        }
        assert(is_first_named(after, name, i));
    } else {
        let i = before.len() as int;
        assert forall|j: int| 0 <= j < i implies (#[trigger] after[j]).header.name != name by {
            assert(after[j] == before[j]);
        }
        assert(is_first_named(after, name, i));
    }
}

} // verus!
