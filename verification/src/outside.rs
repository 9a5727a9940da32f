//! Calls into other crates. Nothing here is proved: each contract is what the
//! named function is relied upon to do.
use flate2::read::ZlibDecoder;
use flate2::write::ZlibEncoder;
use flate2::Compression;
use std::io::{Read, Write};
use uuid::Uuid;
use vstd::prelude::*;
use vstd::utf8::*;

verus! {

/// A lowercase hexadecimal digit.
pub open spec fn hex_digit(c: char) -> bool {
    ('0' <= c && c <= '9') || ('a' <= c && c <= 'f')
}

/// The text form of a 32-byte digest: sixty-four lowercase hexadecimal digits.
pub open spec fn digest_text(s: Seq<char>) -> bool {
    s.len() == 64 && forall|i: int| 0 <= i < s.len() ==> hex_digit(#[trigger] s[i])
}

/// The BLAKE3 digest of a byte string, in lowercase hexadecimal.
pub uninterp spec fn blake3_hex(bytes: Seq<u8>) -> Seq<char>;

/// `blake3::hash` followed by `Hash::to_hex`: the digest depends on the bytes
/// alone and its text is made of sixty-four lowercase hexadecimal digits.
#[verifier::external_body]
pub(crate) fn blake3_digest(bytes: &[u8]) -> (digest: String)
    ensures
        digest@ == blake3_hex(bytes@),
        digest_text(digest@),
{
    blake3::hash(bytes).to_hex().to_string()
}

/// A digest in the making, of the `blake3` crate.
#[verifier::external_type_specification]
#[verifier::external_body]
pub struct ExHasher(blake3::Hasher);

/// The bytes that a digest in the making has taken in.
pub uninterp spec fn hashed(hasher: blake3::Hasher) -> Seq<u8>;

/// `blake3::Hasher::new`: a digest in the making of no bytes.
#[verifier::external_body]
pub(crate) fn hasher_new() -> (hasher: blake3::Hasher)
    ensures
        hashed(hasher) == Seq::<u8>::empty(),
{
    blake3::Hasher::new()
}

/// `blake3::Hasher::update`: takes in more bytes, after those it has taken in.
#[verifier::external_body]
pub(crate) fn hasher_update(hasher: &mut blake3::Hasher, bytes: &[u8])
    ensures
        hashed(*final(hasher)) == hashed(*old(hasher)) + bytes@,
{
    hasher.update(bytes);
}

/// `blake3::Hasher::finalize` in hexadecimal: the digest of all bytes that were taken
/// in, which is the one that `blake3::hash` gives of them at once.
#[verifier::external_body]
pub(crate) fn hasher_digest(hasher: &blake3::Hasher) -> (digest: String)
    ensures
        digest@ == blake3_hex(hashed(*hasher)),
{
    hasher.finalize().to_hex().to_string()
}

/// The zlib stream that a compression level gives for a byte string, where the
/// encoder succeeds.
pub uninterp spec fn zlib_stream(level: u32, bytes: Seq<u8>) -> Option<Seq<u8>>;

/// What is decoded from a zlib stream when at most `limit` bytes are read from
/// it, with the number of stream bytes the decoder took in; nothing where the
/// decoder fails.
pub uninterp spec fn zlib_decoded(stream: Seq<u8>, limit: nat) -> Option<(Seq<u8>, nat)>;

/// `flate2::write::ZlibEncoder` over a vector, written to and finished: the
/// stream depends on the level and the bytes alone, and decoding it with room
/// for more than the bytes gives them back and takes in the whole stream.
#[verifier::external_body]
pub(crate) fn zlib_compress(bytes: &[u8], level: u32) -> (stream: Option<Vec<u8>>)
    requires
        level <= 9,
    ensures
        match stream {
            Some(v) => zlib_stream(level, bytes@) == Some(v@),
            None => zlib_stream(level, bytes@) is None,
        },
        match stream {
            Some(v) => forall|limit: nat| #![trigger zlib_decoded(v@, limit)]
                bytes@.len() < limit <= u64::MAX ==> zlib_decoded(v@, limit) == Some((bytes@, v@.len())),
            None => true,
        },
{
    let mut encoder = ZlibEncoder::new(Vec::new(), Compression::new(level));
    encoder.write_all(bytes).ok()?;
    encoder.finish().ok()
}

/// `flate2::read::ZlibDecoder` read to its end through `Read::take`: the result
/// depends on the stream and the limit alone, at most `limit` bytes come out,
/// and the decoder takes in no more than the stream holds.
#[verifier::external_body]
pub(crate) fn zlib_decompress(stream: &[u8], limit: u64) -> (decoded: Option<(Vec<u8>, u64)>)
    ensures
        match decoded {
            Some((bytes, taken)) => zlib_decoded(stream@, limit as nat) == Some(
                (bytes@, taken as nat),
            ),
            None => zlib_decoded(stream@, limit as nat) is None,
        },
        match decoded {
            Some((bytes, taken)) => bytes@.len() <= limit && taken <= stream@.len(),
            None => true,
        },
{
    let mut bytes = Vec::new();
    let mut decoder = ZlibDecoder::new(stream);
    (&mut decoder).take(limit).read_to_end(&mut bytes).ok()?;
    Some((bytes, decoder.total_in()))
}

/// `String::from_utf8`: a text where the bytes are UTF-8, and nothing otherwise.
#[verifier::external_body]
pub(crate) fn text_from_utf8(bytes: Vec<u8>) -> (text: Option<String>)
    ensures
        match text {
            Some(s) => valid_utf8(bytes@) && s@ == decode_utf8(bytes@),
            None => !valid_utf8(bytes@),
        },
{
    String::from_utf8(bytes).ok()
}

/// A text in lowercase, as Unicode maps it.
pub uninterp spec fn lowercase(text: Seq<char>) -> Seq<char>;

/// `str::to_lowercase`: the lowercase form depends on the text alone.
#[verifier::external_body]
pub(crate) fn to_lowercase(text: &str) -> (lower: String)
    ensures
        lower@ == lowercase(text@),
{
    text.to_lowercase()
}

/// A text is a JSON document.
pub uninterp spec fn json_accepts(text: Seq<char>) -> bool;

/// `serde_json::from_str` into `serde_json::Value`: whether a text is a JSON
/// document depends on the text alone.
#[verifier::external_body]
pub(crate) fn json_valid(text: &str) -> (valid: bool)
    ensures
        valid == json_accepts(text@),
{
    serde_json::from_str::<serde_json::Value>(text).is_ok()
}

/// A lowercase hexadecimal digit of a number below sixteen.
pub open spec fn hex_char(n: int) -> char {
    if n < 10 {
        ('0' as int + n) as char
    } else {
        ('a' as int + n - 10) as char
    }
}

/// How JSON writes a character within a string.
pub open spec fn json_escaped(c: char) -> Seq<char> {
    if c == '"' || c == '\\' {
        seq!['\\', c]
    } else if c == '\u{8}' {
        seq!['\\', 'b']
    } else if c == '\t' {
        seq!['\\', 't']
    } else if c == '\n' {
        seq!['\\', 'n']
    } else if c == '\u{c}' {
        seq!['\\', 'f']
    } else if c == '\r' {
        seq!['\\', 'r']
    } else if (c as int) < 32 {
        seq!['\\', 'u', '0', '0', hex_char(c as int / 16), hex_char(c as int % 16)]
    } else {
        seq![c]
    }
}

/// A text as a JSON string, in quotation marks and with what has to be escaped. Every
/// text has one.
#[verifier::opaque]
pub open spec fn json_text(text: Seq<char>) -> Option<Seq<char>> {
    Some(seq!['"'] + text.map_values(|c: char| json_escaped(c)).flatten() + seq!['"'])
}

/// `serde_json::to_string` of a text: quotation marks around the text, in which
/// quotation marks, backslashes and control characters are escaped.
#[verifier::external_body]
pub(crate) fn json_string(text: &str) -> (document: Option<String>)
    ensures
        document is Some && json_text(text@) == Some(document->0@),
{
    serde_json::to_string(text).ok()
}

/// The canonical text of a UUID: lowercase hexadecimal digits in groups of
/// eight, four, four, four and twelve with hyphens between them.
#[verifier::opaque]
pub open spec fn canonical_uuid(s: Seq<char>) -> bool {
    &&& s.len() == 36
    &&& forall|i: int|
        0 <= i < 36 ==> if i == 8 || i == 13 || i == 18 || i == 23 {
            #[trigger] s[i] == '-'
        } else {
            hex_digit(s[i])
        }
}

/// `Uuid::parse_str` followed by the hyphenated form: what is given is canonical, and a
/// text is given back as it stands exactly where it is the canonical form of a UUID.
#[verifier::external_body]
pub(crate) fn uuid_canonical(text: &str) -> (canonical: Option<String>)
    ensures
        canonical_uuid(text@) <==> (canonical matches Some(c) && c@ == text@),
        canonical matches Some(c) ==> canonical_uuid(c@),
{
    Some(Uuid::parse_str(text).ok()?.hyphenated().to_string())
}

/// `Uuid::new_v4` in its hyphenated form: the value is left to chance, its text
/// is canonical.
#[verifier::external_body]
pub(crate) fn uuid_fresh() -> (id: String)
    ensures
        canonical_uuid(id@),
{
    Uuid::new_v4().hyphenated().to_string()
}

} // verus!
