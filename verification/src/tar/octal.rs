//! Octal text, the encoding of every numeric header field.
use vstd::prelude::*;

verus! {

/// The ASCII digit for `d`, which is meant to be below 8.
pub open spec fn octal_digit(d: nat) -> u8 {
    (48 + d) as u8
}

/// The octal text of `n`, most significant digit first, without leading
/// zeros; zero is written as a single `0`.
pub open spec fn octal_text(n: nat) -> Seq<u8>
    decreases n,
{
    if n < 8 {
        seq![octal_digit(n)]
    } else {
        octal_text(n / 8).push(octal_digit(n % 8))
    }
}

/// `8` to the power `k`.
pub open spec fn pow8(k: nat) -> nat
    decreases k,
{
    if k == 0 {
        1
    } else {
        8 * pow8((k - 1) as nat)
    }
}

/// The octal text of `n` in exactly `width` digits, padded with leading
/// zeros. Digits above the width are dropped from the front.
pub open spec fn octal_padded(n: nat, width: nat) -> Seq<u8>
    decreases width,
{
    if width == 0 {
        Seq::empty()
    } else {
        octal_padded(n / 8, (width - 1) as nat).push(octal_digit(n % 8))
    }
}

/// A padded text has the width that was asked for.
pub proof fn lemma_octal_padded_len(n: nat, width: nat)
    ensures
        octal_padded(n, width).len() == width,
    decreases width,
{
    if width > 0 {
        lemma_octal_padded_len(n / 8, (width - 1) as nat);
    }
}

/// Whether `c` is one of the digits `0` to `7`.
pub open spec fn is_octal_char(c: char) -> bool {
    '0' <= c <= '7'
}

/// Whether `digits` is made of octal digits only.
pub open spec fn all_octal(digits: Seq<char>) -> bool {
    forall|i: int| 0 <= i < digits.len() ==> is_octal_char(#[trigger] digits[i])
}

/// The number that a run of octal digits stands for.
pub open spec fn octal_value(digits: Seq<char>) -> nat
    decreases digits.len(),
{
    if digits.len() == 0 {
        0
    } else {
        octal_value(digits.drop_last()) * 8 + (digits.last() as nat - 48) as nat
    }
}

/// The digits of a numeric text: the text itself, less one leading `+`.
pub open spec fn unsigned_part(text: Seq<char>) -> Seq<char> {
    if text.len() > 0 && text[0] == '+' {
        text.drop_first()
    } else {
        text
    }
}

/// Reads `text` as an octal number of at most `max`. The text is an optional
/// `+` followed by one or more octal digits; anything else, and any number
/// above `max`, is no number.
pub open spec fn parse_octal(text: Seq<char>, max: nat) -> Option<nat> {
    let digits = unsigned_part(text);
    if digits.len() > 0 && all_octal(digits) && octal_value(digits) <= max {
        Some(octal_value(digits))
    } else {
        None
    }
}

/// Reads `text` as an octal number of at most `max`, and takes zero for
/// whatever is no such number.
pub open spec fn parse_octal_or_zero(text: Seq<char>, max: nat) -> nat {
    match parse_octal(text, max) {
        Some(v) => v,
        None => 0,
    }
}

/// Appends the octal text of `n` to `out`.
pub fn push_octal(out: &mut Vec<u8>, n: u64)
    ensures
        final(out)@ == old(out)@ + octal_text(n as nat),
    decreases n,
{
    if n >= 8 {
        push_octal(out, n / 8);
    }
    out.push(48u8 + (n % 8) as u8);
    assert(final(out)@ =~= old(out)@ + octal_text(n as nat));
}

/// The octal text of `n`.
pub fn format_octal(n: u64) -> (text: Vec<u8>)
    ensures
        text@ == octal_text(n as nat),
{
    let mut text: Vec<u8> = Vec::new();
    push_octal(&mut text, n);
    assert(text@ =~= octal_text(n as nat));
    text
}

/// Appends the octal text of `n` in exactly `width` digits to `out`.
pub fn push_octal_padded(out: &mut Vec<u8>, n: u64, width: usize)
    ensures
        final(out)@ == old(out)@ + octal_padded(n as nat, width as nat),
    decreases width,
{
    if width > 0 {
        push_octal_padded(out, n / 8, width - 1);
        out.push(48u8 + (n % 8) as u8);
    }
    assert(final(out)@ =~= old(out)@ + octal_padded(n as nat, width as nat));
}

/// A value grows when a digit is appended, so a prefix above the limit puts
/// the whole run above the limit.
pub proof fn lemma_octal_value_prefix(digits: Seq<char>, k: int)
    requires
        0 <= k <= digits.len(),
    ensures
        octal_value(digits.take(k)) <= octal_value(digits),
    decreases digits.len() - k,
{
    if k == digits.len() {
        assert(digits.take(k) =~= digits);
    } else {
        lemma_octal_value_prefix(digits, k + 1);
        assert(digits.take(k + 1).drop_last() =~= digits.take(k));
    }
}

/// Reads `text` as an octal number of at most `max`.
pub fn parse_octal_chars(text: &[char], max: u64) -> (r: Option<u64>)
    ensures
        r matches Some(v) ==> parse_octal(text@, max as nat) == Some(v as nat),
        r is None ==> parse_octal(text@, max as nat) is None,
{
    let n: usize = text.len();
    let mut i: usize = 0;
    if n > 0 && text[0] == '+' {
        i = 1;
    }
    let start: usize = i;
    let ghost digits = unsigned_part(text@);
    assert(digits =~= text@.skip(start as int));
    if i == n {
        return None;
    }
    let mut acc: u64 = 0;
    while i < n
        invariant
            start <= i <= n,
            n == text@.len(),
            digits == unsigned_part(text@),
            digits == text@.skip(start as int),
            all_octal(digits.take(i - start)),
            acc == octal_value(digits.take(i - start)),
            acc <= max,
        decreases n - i,
    {
        let c: char = text[i];
        let ghost k = i - start;
        assert(digits[k] == c);
        assert(digits.take(k + 1).drop_last() =~= digits.take(k));
        assert(digits.take(k + 1).last() == c);
        if !('0' <= c && c <= '7') {
            assert(!is_octal_char(digits[k]));
            return None;
        }
        let d: u64 = (c as u32 - 48) as u64;
        assert(octal_value(digits.take(k + 1)) == acc * 8 + d);
        if acc > max / 8 || d > max - acc * 8 {
            proof {
                lemma_octal_value_prefix(digits, k + 1);
            }
            return None;
        }
        acc = acc * 8 + d;
        i += 1;
        assert forall|j: int| 0 <= j < digits.take(k + 1).len() implies is_octal_char(
            #[trigger] digits.take(k + 1)[j],
        ) by {
            if j < k {
                assert(digits.take(k)[j] == digits[j]);
            }
        }
    }
    assert(digits.take(n - start) =~= digits);
    Some(acc)
}

/// Reads `text` as an octal number of at most `max`; zero where it is none.
pub fn parse_octal_or_zero_chars(text: &[char], max: u64) -> (v: u64)
    ensures
        v == parse_octal_or_zero(text@, max as nat),
        v <= max,
{
    match parse_octal_chars(text, max) {
        Some(v) => v,
        None => 0,
    }
}

} // verus!
