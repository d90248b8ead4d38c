//! The gzip filter around an archive.
//!
//! Whether the bytes of an archive file are a gzip stream is told from the
//! name of the file alone. The streams themselves are made and read by
//! `flate2`.
use vstd::prelude::*;
use vstd::utf8::decode_utf8;
use vstd::utf8::decode_utf8_split;
use vstd::utf8::encode_utf8;
use vstd::utf8::encode_utf8_decode_utf8;
use vstd::utf8::encode_utf8_valid_utf8;
use vstd::utf8::is_ascii_chars;
use vstd::utf8::is_ascii_chars_encode_utf8;
use vstd::utf8::is_char_boundary_iff_is_leading_byte;
use crate::tar::laws::lemma_encode_concat;

verus! {

/// The error of `std::io`, which `flate2` reports its failures in.
#[verifier::external_type_specification]
#[verifier::external_body]
pub struct ExIoError(std::io::Error);

/// Why a gzip stream could not be made or read.
#[derive(Debug)]
pub enum GzipError {
    /// Compressing failed; the error is that of the encoder.
    Compress(std::io::Error),
    /// The bytes are no gzip stream, or one that is damaged; the error is
    /// that of the decoder.
    Decompress(std::io::Error),
}

/// The gzip stream that `flate2` makes of `data` at its default level, and
/// `None` where it reports an error.
pub uninterp spec fn gzip_stream(data: Seq<u8>) -> Option<Seq<u8>>;

/// What `flate2` reads from the gzip stream `data`, and `None` where it
/// reports an error.
pub uninterp spec fn gunzip_stream(data: Seq<u8>) -> Option<Seq<u8>>;

/// Runs `data` through `flate2::write::GzEncoder` at the default level. The
/// outcome, bytes or an error, is the one that the encoder has for this
/// input; the contract does not say which of the two it is.
#[verifier::external_body]
fn encode_gzip(data: &[u8]) -> (outcome: Result<Vec<u8>, std::io::Error>)
    ensures
        outcome matches Ok(bytes) ==> gzip_stream(data@) == Some(bytes@),
        outcome is Err ==> gzip_stream(data@) is None,
{
    let mut encoder = flate2::write::GzEncoder::new(Vec::new(), flate2::Compression::default());
    match std::io::Write::write_all(&mut encoder, data) {
        Ok(()) => encoder.finish(),
        Err(e) => Err(e),
    }
}

/// Reads `data` to its end through `flate2::read::GzDecoder`. The outcome,
/// bytes or an error, is the one that the decoder has for this input.
#[verifier::external_body]
fn decode_gzip(data: &[u8]) -> (outcome: Result<Vec<u8>, std::io::Error>)
    ensures
        outcome matches Ok(bytes) ==> gunzip_stream(data@) == Some(bytes@),
        outcome is Err ==> gunzip_stream(data@) is None,
{
    let mut decoder = flate2::read::GzDecoder::new(data);
    let mut bytes = Vec::new();
    match std::io::Read::read_to_end(&mut decoder, &mut bytes) {
        Ok(_) => Ok(bytes),
        Err(e) => Err(e),
    }
}

/// The characters `.tar.gz`.
pub open spec fn tar_gz_suffix() -> Seq<char> {
    seq!['.', 't', 'a', 'r', '.', 'g', 'z']
}

/// The characters `.tgz`.
pub open spec fn tgz_suffix() -> Seq<char> {
    seq!['.', 't', 'g', 'z']
}

/// Whether a file of this name holds a gzip stream: the name ends in
/// `.tar.gz` or in `.tgz`.
pub open spec fn is_gzip_name(name: Seq<char>) -> bool {
    tar_gz_suffix().is_suffix_of(name) || tgz_suffix().is_suffix_of(name)
}

/// The bytes of a file of this name that holds `data`: a gzip stream of
/// `data` where the name asks for one, and `data` itself where it does not.
/// `None` where the stream cannot be made.
pub open spec fn gzipped(name: Seq<char>, data: Seq<u8>) -> Option<Seq<u8>> {
    if is_gzip_name(name) {
        gzip_stream(data)
    } else {
        Some(data)
    }
}

/// What a file of this name holds, given its bytes: what its gzip stream
/// unpacks to where the name tells of one, and the bytes themselves where
/// it does not. `None` where the stream cannot be read.
pub open spec fn ungzipped(name: Seq<char>, data: Seq<u8>) -> Option<Seq<u8>> {
    if is_gzip_name(name) {
        gunzip_stream(data)
    } else {
        Some(data)
    }
}

/// An ASCII text ends a name exactly where its bytes end the bytes of the
/// name.
pub proof fn lemma_ascii_suffix(suffix: Seq<char>, name: Seq<char>)
    requires
        is_ascii_chars(suffix),
    ensures
        suffix.is_suffix_of(name) <==> encode_utf8(suffix).is_suffix_of(encode_utf8(name)),
{
    let bytes = encode_utf8(name);
    let tail = encode_utf8(suffix);
    is_ascii_chars_encode_utf8(suffix);
    if suffix.is_suffix_of(name) {
        let head = name.subrange(0, name.len() - suffix.len());
        assert(name =~= head + suffix);
        lemma_encode_concat(head, suffix);
        assert(tail =~= bytes.subrange(bytes.len() - tail.len(), bytes.len() as int));
    }
    if tail.is_suffix_of(bytes) {
        let index = bytes.len() - tail.len();
        encode_utf8_valid_utf8(name);
        encode_utf8_decode_utf8(name);
        encode_utf8_decode_utf8(suffix);
        if suffix.len() == 0 {
            assert(suffix =~= name.subrange(name.len() as int, name.len() as int));
        } else {
            assert(bytes[index] == tail[0]);
            assert(tail[0] == suffix[0] as u8);
            assert('\0' <= suffix[0] <= '\u{7f}');
            is_char_boundary_iff_is_leading_byte(bytes, index);
            decode_utf8_split(bytes, index);
            let head = decode_utf8(bytes.subrange(0, index));
            assert(bytes.subrange(index, bytes.len() as int) =~= tail);
            assert(name =~= head + suffix);
            assert(suffix =~= name.subrange(name.len() - suffix.len(), name.len() as int));
        }
    }
}

/// Whether `bytes` ends in `suffix`.
fn ends_with(bytes: &[u8], suffix: &[u8]) -> (found: bool)
    ensures
        found == suffix@.is_suffix_of(bytes@),
{
    if suffix.len() > bytes.len() {
        return false;
    }
    let start: usize = bytes.len() - suffix.len();
    let mut i: usize = 0;
    while i < suffix.len()
        invariant
            i <= suffix@.len(),
            start + suffix@.len() == bytes@.len() <= usize::MAX,
            forall|j: int| 0 <= j < i ==> suffix@[j] == bytes@[start + j],
        decreases suffix@.len() - i,
    {
        if bytes[start + i] != suffix[i] {
            assert(bytes@.subrange(start as int, bytes@.len() as int)[i as int] != suffix@[i as int]);
            return false;
        }
        i += 1;
    }
    assert(suffix@ =~= bytes@.subrange(start as int, bytes@.len() as int));
    true
}

/// Whether a file of this name holds a gzip stream.
pub fn is_gzipped(filename: &str) -> (gzipped: bool)
    ensures
        gzipped == is_gzip_name(filename@),
{
    proof {
        reveal_strlit(".tar.gz");
        reveal_strlit(".tgz");
        assert(".tar.gz"@ =~= tar_gz_suffix());
        assert(".tgz"@ =~= tgz_suffix());
        lemma_ascii_suffix(tar_gz_suffix(), filename@);
        lemma_ascii_suffix(tgz_suffix(), filename@);
    }
    let name: &[u8] = filename.as_bytes();
    ends_with(name, ".tar.gz".as_bytes()) || ends_with(name, ".tgz".as_bytes())
}

/// What compressing gives for each outcome of the encoder: the bytes where
/// it succeeded, and its error where it failed.
pub fn compressed(outcome: Result<Vec<u8>, std::io::Error>) -> (res: Result<Vec<u8>, GzipError>)
    ensures
        match outcome {
            Ok(bytes) => res == Ok::<Vec<u8>, GzipError>(bytes),
            Err(e) => res == Err::<Vec<u8>, GzipError>(GzipError::Compress(e)),
        },
{
    match outcome {
        Ok(bytes) => Ok(bytes),
        Err(e) => Err(GzipError::Compress(e)),
    }
}

/// What decompressing gives for each outcome of the decoder: the bytes
/// where it succeeded, and its error where it failed.
pub fn decompressed(outcome: Result<Vec<u8>, std::io::Error>) -> (res: Result<Vec<u8>, GzipError>)
    ensures
        match outcome {
            Ok(bytes) => res == Ok::<Vec<u8>, GzipError>(bytes),
            Err(e) => res == Err::<Vec<u8>, GzipError>(GzipError::Decompress(e)),
        },
{
    match outcome {
        Ok(bytes) => Ok(bytes),
        Err(e) => Err(GzipError::Decompress(e)),
    }
}

/// The bytes of a file of this name that holds `data`: a gzip stream of
/// `data` where the name asks for one, and `data` itself where it does not.
pub fn gzip(filename: &str, data: Vec<u8>) -> (res: Result<Vec<u8>, GzipError>)
    ensures
        !is_gzip_name(filename@) ==> res == Ok::<Vec<u8>, GzipError>(data),
        match res {
            Ok(bytes) => gzipped(filename@, data@) == Some(bytes@),
            Err(e) => e is Compress && gzipped(filename@, data@) is None,
        },
{
    if is_gzipped(filename) {
        compressed(encode_gzip(data.as_slice()))
    } else {
        Ok(data)
    }
}

/// What a file of this name holds, given its bytes: what its gzip stream
/// unpacks to where the name tells of one, and the bytes themselves where
/// it does not.
pub fn ungzip(filename: &str, data: Vec<u8>) -> (res: Result<Vec<u8>, GzipError>)
    ensures
        !is_gzip_name(filename@) ==> res == Ok::<Vec<u8>, GzipError>(data),
        match res {
            Ok(bytes) => ungzipped(filename@, data@) == Some(bytes@),
            Err(e) => e is Decompress && ungzipped(filename@, data@) is None,
        },
{
    if is_gzipped(filename) {
        decompressed(decode_gzip(data.as_slice()))
    } else {
        Ok(data)
    }
}

} // verus!
