//! SHA-256 digests and the two texts they are recorded in: hexadecimal, and
//! the SRI form that Nix uses.
use base64::Engine;
use sha2::Digest;
use vstd::prelude::*;

use crate::error::{Fault, FetchError};

verus! {

/// The SHA-256 digest of a message.
pub uninterp spec fn sha256(data: Seq<u8>) -> Seq<u8>;

/// Calls `sha2::Sha256`: the digest of the whole message, 32 bytes long.
#[verifier::external_body]
fn sha256_digest(data: &[u8]) -> (r: Vec<u8>)
    ensures
        r@ == sha256(data@),
        r@.len() == 32,
{
    let mut hasher = sha2::Sha256::new();
    hasher.update(data);
    hasher.finalize().to_vec()
}

pub open spec fn hex_digit(v: int) -> char {
    if v < 10 {
        (48 + v) as char
    } else {
        (87 + v) as char
    }
}

/// Two small hexadecimal digits for each byte, the high half first.
pub open spec fn hex_text(data: Seq<u8>) -> Seq<char> {
    Seq::new(
        2 * data.len(),
        |i: int|
            if i % 2 == 0 {
                hex_digit(data[i / 2] as int / 16)
            } else {
                hex_digit(data[i / 2] as int % 16)
            },
    )
}

/// Calls `hex::encode`: two small digits for each byte.
#[verifier::external_body]
fn hex_encode(data: &[u8]) -> (r: String)
    ensures
        r@ == hex_text(data@),
{
    hex::encode(data)
}

pub open spec fn is_hex_digit(c: char) -> bool {
    '0' <= c <= '9' || 'a' <= c <= 'f' || 'A' <= c <= 'F'
}

pub open spec fn hex_value(c: char) -> int {
    if '0' <= c <= '9' {
        c as int - 48
    } else if 'a' <= c <= 'f' {
        c as int - 87
    } else {
        c as int - 55
    }
}

/// The bytes that a text of hexadecimal digits, small or capital, stands for.
pub open spec fn hex_bytes(text: Seq<char>) -> Option<Seq<u8>> {
    if text.len() % 2 == 0 && forall|i: int|
        0 <= i < text.len() ==> is_hex_digit(#[trigger] text[i]) {
        Some(
            Seq::new(
                text.len() / 2,
                |i: int| (16 * hex_value(text[2 * i]) + hex_value(text[2 * i + 1])) as u8,
            ),
        )
    } else {
        None
    }
}

/// Calls `hex::decode`: the bytes, or nothing where the text has an odd length
/// or a character that is no hexadecimal digit.
#[verifier::external_body]
fn hex_decode(text: &str) -> (r: Option<Vec<u8>>)
    ensures
        match r {
            Some(bytes) => hex_bytes(text@) == Some(bytes@),
            None => hex_bytes(text@) is None,
        },
{
    hex::decode(text).ok()
}

/// The character for six bits in the standard base64 alphabet.
pub open spec fn base64_char(v: int) -> char {
    if v < 26 {
        (65 + v) as char
    } else if v < 52 {
        (71 + v) as char
    } else if v < 62 {
        (v - 4) as char
    } else if v == 62 {
        '+'
    } else {
        '/'
    }
}

/// Byte `i` of the data, or zero behind its end.
pub open spec fn byte_at(data: Seq<u8>, i: int) -> int {
    if i < data.len() {
        data[i] as int
    } else {
        0
    }
}

/// The bits that character `i` of the base64 text stands for.
pub open spec fn sextet(data: Seq<u8>, i: int) -> int {
    let k = 3 * (i / 4);
    if i % 4 == 0 {
        byte_at(data, k) / 4
    } else if i % 4 == 1 {
        byte_at(data, k) % 4 * 16 + byte_at(data, k + 1) / 16
    } else if i % 4 == 2 {
        byte_at(data, k + 1) % 16 * 4 + byte_at(data, k + 2) / 64
    } else {
        byte_at(data, k + 2) % 64
    }
}

/// Standard base64: four characters for each group of three bytes; where the
/// last group is short, `=` stands for what is missing.
pub open spec fn base64_text(data: Seq<u8>) -> Seq<char> {
    Seq::new(
        (data.len() + 2) / 3 * 4,
        |i: int|
            if 6 * i < 8 * data.len() {
                base64_char(sextet(data, i))
            } else {
                '='
            },
    )
}

/// Calls `base64` with the `STANDARD` engine, which pads.
#[verifier::external_body]
fn base64_encode(data: &[u8]) -> (r: String)
    requires
        (data@.len() / 3 + 1) * 4 <= usize::MAX,
    ensures
        r@ == base64_text(data@),
{
    base64::engine::general_purpose::STANDARD.encode(data)
}

/// The SRI text of a digest.
pub open spec fn sri_text(digest: Seq<u8>) -> Seq<char> {
    "sha256-"@ + base64_text(digest)
}

/// The digest of a message in small hexadecimal digits.
pub fn sha256_hex(data: &[u8]) -> (r: String)
    ensures
        r@ == hex_text(sha256(data@)),
        sha256(data@).len() == 32,
{
    hex_encode(sha256_digest(data).as_slice())
}

/// The SRI text of a digest that is given in hexadecimal.
pub fn nix_sri_from_hex(hex_digest: &str) -> (r: Result<String, FetchError>)
    ensures
        match (hex_bytes(hex_digest@), r) {
            (Some(digest), Ok(sri)) => digest.len() == 32 && sri@ == sri_text(digest),
            (Some(digest), Err(e)) => digest.len() != 32 && e@ == Fault::InvalidArchive(
                "SHA-256 digest has the wrong length"@,
            ),
            (None, Ok(_)) => false,
            (None, Err(e)) => e@ == Fault::InvalidArchive("invalid SHA-256 digest"@),
        },
{
    match hex_decode(hex_digest) {
        Some(digest) => {
            if digest.len() != 32 {
                return Err(
                    FetchError::InvalidArchive("SHA-256 digest has the wrong length".to_owned()),
                );
            }
            let mut sri = "sha256-".to_owned();
            sri.append(base64_encode(digest.as_slice()).as_str());
            Ok(sri)
        },
        None => Err(FetchError::InvalidArchive("invalid SHA-256 digest".to_owned())),
    }
}

/// Bytes written in hexadecimal read back as themselves.
pub proof fn lemma_hex_reads_back(data: Seq<u8>)
    ensures
        hex_bytes(hex_text(data)) == Some(data),
{
    let text = hex_text(data);
    assert forall|i: int| 0 <= i < text.len() implies is_hex_digit(#[trigger] text[i]) by {
        assert(0 <= data[i / 2] as int / 16 < 16);
    }
    let back = hex_bytes(text).unwrap();
    assert forall|i: int| 0 <= i < data.len() implies back[i] == data[i] by {
        assert(text[2 * i] == hex_digit(data[i] as int / 16));
        assert(text[2 * i + 1] == hex_digit(data[i] as int % 16));
        assert(hex_value(text[2 * i]) == data[i] as int / 16);
        assert(hex_value(text[2 * i + 1]) == data[i] as int % 16);
    }
    assert(back == data);
}

proof fn lemma_base64_char_is_unique(a: int, b: int)
    requires
        0 <= a < 64,
        0 <= b < 64,
        base64_char(a) == base64_char(b),
    ensures
        a == b,
{
}

/// Equal characters of two base64 texts stand for equal bits.
proof fn lemma_same_sextet(a: Seq<u8>, b: Seq<u8>, i: int)
    requires
        a.len() == b.len(),
        base64_text(a) == base64_text(b),
        0 <= i < base64_text(a).len(),
        6 * i < 8 * a.len(),
    ensures
        sextet(a, i) == sextet(b, i),
{
    assert(base64_text(a)[i] == base64_char(sextet(a, i)));
    assert(base64_text(b)[i] == base64_char(sextet(b, i)));
    lemma_base64_char_is_unique(sextet(a, i), sextet(b, i));
}

/// An SRI text belongs to one digest only.
pub proof fn lemma_sri_is_unique(a: Seq<u8>, b: Seq<u8>)
    requires
        a.len() == b.len(),
        sri_text(a) == sri_text(b),
    ensures
        a == b,
{
    let prefix = "sha256-"@;
    assert(sri_text(a).skip(prefix.len() as int) == base64_text(a));
    assert(sri_text(b).skip(prefix.len() as int) == base64_text(b));
    assert forall|n: int| 0 <= n < a.len() implies a[n] == b[n] by {
        let k = n / 3;
        let i = 4 * k;
        assert(i / 4 == k && (i + 1) / 4 == k && (i + 2) / 4 == k && (i + 3) / 4 == k);
        if n % 3 == 0 {
            lemma_same_sextet(a, b, i);
            lemma_same_sextet(a, b, i + 1);
        } else if n % 3 == 1 {
            lemma_same_sextet(a, b, i + 1);
            lemma_same_sextet(a, b, i + 2);
        } else {
            lemma_same_sextet(a, b, i + 2);
            lemma_same_sextet(a, b, i + 3);
        }
    }
    assert(a == b);
}

/// A digest in hexadecimal becomes an SRI text exactly where it has 32 bytes.
pub proof fn lemma_sri_of_digests(hex: &str, digest: Seq<u8>, r: Result<String, FetchError>)
    requires
        hex@ == hex_text(digest),
        call_ensures(nix_sri_from_hex, (hex,), r),
    ensures
        digest.len() == 32 ==> (r matches Ok(sri) && sri@ == "sha256-"@ + base64_text(digest)),
        digest.len() != 32 ==> (r matches Err(e) && e@ == Fault::InvalidArchive(
            "SHA-256 digest has the wrong length"@,
        )),
{
    lemma_hex_reads_back(digest);
}

}
