//! The fingerprinter: the MD5 digest of the normalized text, in lowercase hexadecimal.
use vstd::prelude::*;
use vstd::utf8::encode_utf8;
use crate::normalizer::{normalize, normalized};

verus! {

/// The lowercase hexadecimal digit for a value below sixteen.
pub open spec fn hex_digit(n: int) -> char {
    seq!['0', '1', '2', '3', '4', '5', '6', '7', '8', '9', 'a', 'b', 'c', 'd', 'e', 'f'][n]
}

/// Whether `c` is one of `0-9a-f`.
pub open spec fn is_lower_hex_digit(c: char) -> bool {
    ('0' <= c <= '9') || ('a' <= c <= 'f')
}

/// Two lowercase hexadecimal digits per byte, high nibble first.
pub open spec fn hex_lower(b: Seq<u8>) -> Seq<char> {
    Seq::new(
        2 * b.len(),
        |i: int|
            if i % 2 == 0 {
                hex_digit(b[i / 2] as int / 16)
            } else {
                hex_digit(b[i / 2] as int % 16)
            },
    )
}

/// What `md5::compute` makes of a byte sequence.
pub uninterp spec fn md5_of(data: Seq<u8>) -> Seq<u8>;

/// The cache key of `text`: the hex rendering of the MD5 digest of the UTF-8
/// encoding of its normalized form.
pub open spec fn fingerprint(text: Seq<char>) -> Seq<char> {
    hex_lower(md5_of(encode_utf8(normalized(text))))
}

/// Whether `s` is 32 characters of `0-9a-f`.
pub open spec fn is_key_shaped(s: Seq<char>) -> bool {
    s.len() == 32 && forall|i: int| 0 <= i < s.len() ==> is_lower_hex_digit(#[trigger] s[i])
}

/// Relies on `md5::compute`: the 16-byte digest, a function of the bytes alone.
#[verifier::external_body]
fn md5_digest(data: &[u8]) -> (r: [u8; 16])
    ensures
        r@ == md5_of(data@),
{
    md5::compute(data).0
}

/// Relies on `faster_hex::hex_string`: two lowercase digits per byte, high nibble
/// first; it panics only where the doubled length does not fit in `isize`.
#[verifier::external_body]
fn hex_string(src: &[u8]) -> (r: String)
    requires
        2 * src@.len() <= isize::MAX,
    ensures
        r@ == hex_lower(src@),
{
    faster_hex::hex_string(src)
}

/// The hex rendering of a 16-byte digest.
pub fn render_digest(digest: &[u8; 16]) -> (r: String)
    ensures
        r@ == hex_lower(digest@),
        is_key_shaped(r@),
{
    let r = hex_string(digest.as_slice());
    assert forall|i: int| 0 <= i < r@.len() implies is_lower_hex_digit(#[trigger] r@[i]) by {
        let b = digest@[i / 2];
        let n: int = if i % 2 == 0 { b as int / 16 } else { b as int % 16 };
        assert(0 <= n < 16);
        assert(r@[i] == hex_digit(n));
    }
    r
}

/// The cache key of `text`.
pub fn text_hash(text: &str) -> (r: String)
    ensures
        r@ == fingerprint(text@),
        is_key_shaped(r@),
{
    let normalized = normalize(text);
    let digest = md5_digest(normalized.as_str().as_bytes());
    render_digest(&digest)
}

/// Normalizes `text` and returns its cache key.
pub fn normalize_and_hash(text: &str) -> (r: String)
    ensures
        r@ == fingerprint(text@),
        is_key_shaped(r@),
{
    text_hash(text)
}

/// The cache key of each text, in the same order.
pub fn normalize_and_hash_batch(texts: Vec<String>) -> (r: Vec<String>)
    ensures
        r.len() == texts.len(),
        forall|i: int| 0 <= i < texts.len() ==> #[trigger] r[i]@ == fingerprint(texts[i]@),
        forall|i: int| 0 <= i < r.len() ==> is_key_shaped(#[trigger] r[i]@),
{
    let mut out: Vec<String> = Vec::with_capacity(texts.len());
    let mut i: usize = 0;
    while i < texts.len()
        invariant
            i <= texts.len(),
            out.len() == i,
            forall|j: int| 0 <= j < i ==> #[trigger] out[j]@ == fingerprint(texts[j]@),
            forall|j: int| 0 <= j < i ==> is_key_shaped(#[trigger] out[j]@),
        decreases texts.len() - i,
    {
        out.push(text_hash(texts[i].as_str()));
        i += 1;
    }
    out
}

/// Texts with the same normalized form have the same cache key.
pub proof fn lemma_same_normal_form_same_key(t1: Seq<char>, t2: Seq<char>)
    requires
        normalized(t1) == normalized(t2),
    ensures
        fingerprint(t1) == fingerprint(t2),
{
}

} // verus!
