//! The URL fingerprint: the first eight hexadecimal characters of a
//! cryptographic digest of the raw URL string, used as the natural
//! deduplication key of the store.

use vstd::prelude::*;

verus! {

/// The hexadecimal digest of a byte string. The digest depends on the
/// input alone.
pub uninterp spec fn digest_hex_of(s: Seq<char>) -> Seq<char>;

/// Relies on `blake3::hash` and `Hash::to_hex`: the 64-character
/// hexadecimal form of the 32-byte digest of the input.
#[verifier::external_body]
fn blake3_hex(s: &str) -> (r: String)
    ensures
        r@ == digest_hex_of(s@),
        r@.len() == 64,
{
    blake3::hash(s.as_bytes()).to_hex().as_str().to_string()
}

/// How many digest characters the fingerprint keeps.
pub open spec fn fingerprint_len() -> int {
    8
}

/// The fingerprint of a URL: the first eight digest characters.
pub open spec fn fingerprint_of(url: Seq<char>) -> Seq<char> {
    digest_hex_of(url).take(fingerprint_len())
}

/// Computes the stored fingerprint of a URL.
pub fn url_fingerprint(url: &str) -> (r: String)
    ensures
        r@ == fingerprint_of(url@),
        r@.len() == 8,
{
    let hex = blake3_hex(url);
    let chars = crate::strutil::str_to_chars(hex.as_str());
    let mut first: Vec<char> = Vec::new();
    let mut i: usize = 0;
    while i < 8
        invariant
            chars@ == hex@,
            chars@.len() == 64,
            i <= 8,
            first@ == chars@.take(i as int),
        decreases 8 - i,
    {
        first.push(chars[i]);
        proof {
            assert(first@ =~= chars@.take(i + 1));
        }
        i = i + 1;
    }
    crate::strutil::chars_to_string(&first)
}

} // verus!
