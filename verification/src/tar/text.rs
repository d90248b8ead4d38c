//! Text fields: how the bytes of a header field are read as text.
//!
//! A field is decoded as UTF-8, with a replacement character wherever the
//! bytes are no UTF-8. Trailing NUL characters are then dropped, and after
//! that the white space at both ends.
use vstd::prelude::*;
use vstd::string::StrSliceExecFns;
use vstd::string::StringExecFns;
use vstd::utf8::decode_utf8;
use vstd::utf8::encode_utf8;
use vstd::utf8::valid_utf8;

verus! {

/// What `String::from_utf8_lossy` makes of `bytes`.
pub uninterp spec fn utf8_lossy(bytes: Seq<u8>) -> Seq<char>;

/// The characters that a lossy decoding of `bytes` gives: the decoded text
/// where the bytes are valid UTF-8, and otherwise the text in which every
/// invalid sequence has become a replacement character.
pub open spec fn lossy_text(bytes: Seq<u8>) -> Seq<char> {
    if valid_utf8(bytes) {
        decode_utf8(bytes)
    } else {
        utf8_lossy(bytes)
    }
}

/// Calls `String::from_utf8_lossy`. Valid UTF-8 is decoded as it stands;
/// of any other input the contract says only that the result is the one
/// that this std function gives for these bytes.
#[verifier::external_body]
fn from_utf8_lossy(bytes: &[u8]) -> (text: String)
    ensures
        text@ == lossy_text(bytes@),
        !valid_utf8(bytes@) ==> text@ == utf8_lossy(bytes@),
{
    String::from_utf8_lossy(bytes).into_owned()
}

/// Whether `c` has the Unicode property `White_Space`.
pub open spec fn is_whitespace(c: char) -> bool {
    let u = c as u32;
    ||| 0x09 <= u <= 0x0D
    ||| u == 0x20
    ||| u == 0x85
    ||| u == 0xA0
    ||| u == 0x1680
    ||| 0x2000 <= u <= 0x200A
    ||| u == 0x2028
    ||| u == 0x2029
    ||| u == 0x202F
    ||| u == 0x205F
    ||| u == 0x3000
}

/// `s` without its trailing NUL characters.
pub open spec fn trim_end_nul(s: Seq<char>) -> Seq<char>
    decreases s.len(),
{
    if s.len() > 0 && s.last() == '\0' {
        trim_end_nul(s.drop_last())
    } else {
        s
    }
}

/// `s` without its leading white space.
pub open spec fn trim_start(s: Seq<char>) -> Seq<char>
    decreases s.len(),
{
    if s.len() > 0 && is_whitespace(s[0]) {
        trim_start(s.drop_first())
    } else {
        s
    }
}

/// `s` without its trailing white space.
pub open spec fn trim_end(s: Seq<char>) -> Seq<char>
    decreases s.len(),
{
    if s.len() > 0 && is_whitespace(s.last()) {
        trim_end(s.drop_last())
    } else {
        s
    }
}

/// `s` without the white space at both ends.
pub open spec fn trim(s: Seq<char>) -> Seq<char> {
    trim_end(trim_start(s))
}

/// The text of a header field that holds `bytes`.
pub open spec fn field_text(bytes: Seq<u8>) -> Seq<char> {
    trim(trim_end_nul(lossy_text(bytes)))
}

/// The text of the checksum field. The field ends in a NUL and a space, in
/// that order, so it is trimmed once more than the others.
pub open spec fn checksum_field_text(bytes: Seq<u8>) -> Seq<char> {
    trim(trim_end_nul(trim(field_text(bytes))))
}

/// Whether `c` is white space.
pub fn is_whitespace_char(c: char) -> (b: bool)
    ensures
        b == is_whitespace(c),
{
    let u: u32 = c as u32;
    (0x09 <= u && u <= 0x0D) || u == 0x20 || u == 0x85 || u == 0xA0 || u == 0x1680 || (0x2000 <= u
        && u <= 0x200A) || u == 0x2028 || u == 0x2029 || u == 0x202F || u == 0x205F || u == 0x3000
}

/// The characters of `s`.
pub fn chars_of(s: &str) -> (chars: Vec<char>)
    ensures
        chars@ == s@,
{
    let mut chars: Vec<char> = Vec::new();
    for c in it: s.chars()
        invariant
            it.seq() == s@,
            chars@ == s@.take(it.index() as int),
    {
        chars.push(c);
        assert(s@.take(it.index() + 1) =~= s@.take(it.index() as int).push(s@[it.index() as int]));
    }
    assert(s@.take(s@.len() as int) =~= s@);
    chars
}

/// The length of `chars[..end]` once its trailing NUL characters are gone.
pub fn trim_end_nul_len(chars: &[char], end: usize) -> (len: usize)
    requires
        end <= chars@.len(),
    ensures
        len <= end,
        chars@.take(len as int) == trim_end_nul(chars@.take(end as int)),
{
    let mut len: usize = end;
    while len > 0 && chars[len - 1] == '\0'
        invariant
            len <= end <= chars@.len(),
            trim_end_nul(chars@.take(len as int)) == trim_end_nul(chars@.take(end as int)),
        decreases len,
    {
        assert(chars@.take(len as int).drop_last() =~= chars@.take(len - 1));
        len -= 1;
    }
    len
}

/// The bounds of `chars[start..end]` once the white space at both of its
/// ends is gone.
pub fn trim_bounds(chars: &[char], start: usize, end: usize) -> (bounds: (usize, usize))
    requires
        start <= end <= chars@.len(),
    ensures
        start <= bounds.0 <= bounds.1 <= end,
        chars@.subrange(bounds.0 as int, bounds.1 as int) == trim(
            chars@.subrange(start as int, end as int),
        ),
{
    let mut a: usize = start;
    while a < end && is_whitespace_char(chars[a])
        invariant
            start <= a <= end <= chars@.len(),
            trim_start(chars@.subrange(a as int, end as int)) == trim_start(
                chars@.subrange(start as int, end as int),
            ),
        decreases end - a,
    {
        assert(chars@.subrange(a as int, end as int).drop_first() =~= chars@.subrange(
            a + 1,
            end as int,
        ));
        a += 1;
    }
    let mut b: usize = end;
    while b > a && is_whitespace_char(chars[b - 1])
        invariant
            a <= b <= end <= chars@.len(),
            trim_end(chars@.subrange(a as int, b as int)) == trim_end(
                chars@.subrange(a as int, end as int),
            ),
        decreases b,
    {
        assert(chars@.subrange(a as int, b as int).drop_last() =~= chars@.subrange(
            a as int,
            b - 1,
        ));
        b -= 1;
    }
    (a, b)
}

/// Reads the bytes of a header field as text.
pub fn decode_text(bytes: &[u8]) -> (text: String)
    ensures
        text@ == field_text(bytes@),
{
    let lossy: String = from_utf8_lossy(bytes);
    let chars: Vec<char> = chars_of(lossy.as_str());
    assert(chars@.take(chars@.len() as int) =~= chars@);
    let end: usize = trim_end_nul_len(chars.as_slice(), chars.len());
    let (a, b) = trim_bounds(chars.as_slice(), 0, end);
    assert(chars@.subrange(0, end as int) =~= chars@.take(end as int));
    String::from_str(lossy.as_str().substring_char(a, b))
}

/// Reads `bytes` as text and drops the trailing NUL characters, nothing
/// else.
pub fn decode_payload_text(bytes: &[u8]) -> (text: String)
    ensures
        text@ == trim_end_nul(lossy_text(bytes@)),
{
    let lossy: String = from_utf8_lossy(bytes);
    let chars: Vec<char> = chars_of(lossy.as_str());
    assert(chars@.take(chars@.len() as int) =~= chars@);
    let end: usize = trim_end_nul_len(chars.as_slice(), chars.len());
    assert(chars@.subrange(0, end as int) =~= chars@.take(end as int));
    String::from_str(lossy.as_str().substring_char(0, end))
}

/// Whether two strings hold the same characters.
pub fn same_text(a: &str, b: &str) -> (same: bool)
    ensures
        same == (a@ == b@),
{
    broadcast use vstd::utf8::encode_utf8_decode_utf8;

    let x: &[u8] = a.as_bytes();
    let y: &[u8] = b.as_bytes();
    assert(decode_utf8(encode_utf8(a@)) == a@);
    assert(decode_utf8(encode_utf8(b@)) == b@);
    if x.len() != y.len() {
        return false;
    }
    let mut i: usize = 0;
    while i < x.len()
        invariant
            i <= x@.len(),
            x@.len() == y@.len(),
            x@ == encode_utf8(a@),
            y@ == encode_utf8(b@),
            forall|j: int| 0 <= j < i ==> x@[j] == y@[j],
            decode_utf8(encode_utf8(a@)) == a@,
            decode_utf8(encode_utf8(b@)) == b@,
        decreases x@.len() - i,
    {
        if x[i] != y[i] {
            return false;
        }
        i += 1;
    }
    assert(x@ =~= y@);
    true
}

} // verus!
