//! Content fingerprints of the form `sha256:<lowercase hex>`.

use vstd::prelude::*;

verus! {

/// The lowercase hexadecimal alphabet.
pub open spec fn hex_alphabet() -> Seq<char> {
    seq!['0', '1', '2', '3', '4', '5', '6', '7', '8', '9', 'a', 'b', 'c', 'd', 'e', 'f']
}

/// Lowercase base16 text of a byte string: two digits per byte, high nibble first.
pub open spec fn lower_hex(b: Seq<u8>) -> Seq<char> {
    Seq::new(
        2 * b.len(),
        |i: int|
            if i % 2 == 0 {
                hex_alphabet()[b[i / 2] as int / 16]
            } else {
                hex_alphabet()[b[i / 2] as int % 16]
            },
    )
}

/// The only algorithm prefix that a declared checksum may carry.
pub open spec fn algorithm_prefix() -> Seq<char> {
    seq!['s', 'h', 'a', '2', '5', '6', ':']
}

/// The fingerprint text of a digest.
pub open spec fn fingerprint_of(digest: Seq<u8>) -> Seq<char> {
    algorithm_prefix() + lower_hex(digest)
}

/// Whether a declared checksum names the supported algorithm.
pub open spec fn is_supported_checksum(declared: Seq<char>) -> bool {
    algorithm_prefix().is_prefix_of(declared)
}

/// The SHA-256 digest of a byte string.
pub uninterp spec fn sha256_of(data: Seq<u8>) -> Seq<u8>;

/// Relies on sha2's `Sha256::digest`: the 32-byte SHA-256 digest of `data`.
#[verifier::external_body]
pub(crate) fn sha256_digest(data: &[u8]) -> (r: Vec<u8>)
    ensures
        r@ == sha256_of(data@),
        r@.len() == 32,
{
    <sha2::Sha256 as sha2::Digest>::digest(data).to_vec()
}

/// Relies on base16ct's `lower::encode_string`: lowercase hex, two digits per byte.
#[verifier::external_body]
fn encode_lower_hex(data: &[u8]) -> (r: String)
    requires
        data@.len() <= usize::MAX / 2,
    ensures
        r@ == lower_hex(data@),
{
    base16ct::lower::encode_string(data)
}

/// The fingerprint text of a digest that was already computed.
pub fn fingerprint_text(digest: &[u8]) -> (r: String)
    requires
        digest@.len() <= usize::MAX / 2,
    ensures
        r@ == fingerprint_of(digest@),
{
    let mut text = "sha256:".to_owned();
    proof {
        reveal_strlit("sha256:");
    }
    let hex = encode_lower_hex(digest);
    text.append(hex.as_str());
    text
}

/// The fingerprint of a byte buffer: `sha256:` followed by the lowercase hex digest.
pub fn digest(data: &[u8]) -> (r: String)
    ensures
        r@ == fingerprint_of(sha256_of(data@)),
{
    let d = sha256_digest(data);
    fingerprint_text(d.as_slice())
}

/// Whether a declared checksum equals the fingerprint of an already computed digest.
pub fn digest_matches(digest: &[u8], expected: &String) -> (r: bool)
    requires
        digest@.len() <= usize::MAX / 2,
    ensures
        r == (expected@ == fingerprint_of(digest@)),
{
    let text = fingerprint_text(digest);
    text == *expected
}

/// Whether a declared checksum equals the fingerprint of `data`.
pub fn verify(data: &[u8], expected: &String) -> (r: bool)
    ensures
        r == (expected@ == fingerprint_of(sha256_of(data@))),
{
    let d = sha256_digest(data);
    digest_matches(d.as_slice(), expected)
}

/// Whether a declared checksum starts with the supported algorithm prefix.
pub fn is_supported(declared: &String) -> (r: bool)
    ensures
        r == is_supported_checksum(declared@),
{
    let prefix = "sha256:";
    proof {
        reveal_strlit("sha256:");
    }
    let text = declared.as_str();
    let n = text.unicode_len();
    if n < 7 {
        return false;
    }
    let mut i: usize = 0;
    while i < 7
        invariant
            i <= 7,
            n == text@.len(),
            7 <= n,
            prefix@ == algorithm_prefix(),
            text@ == declared@,
            forall|j: int| 0 <= j < i ==> text@[j] == algorithm_prefix()[j],
        decreases 7 - i,
    {
        if text.get_char(i) != prefix.get_char(i) {
            return false;
        }
        i = i + 1;
    }
    true
}

} // verus!
