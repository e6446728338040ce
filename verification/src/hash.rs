//! Content fingerprinting: a SHA-256 digest of a file's bytes, rendered
//! as upper-case hexadecimal. The fingerprint decides whether a source
//! file has changed since its binary was last compiled.
use vstd::prelude::*;

verus! {

/// The SHA-256 digest of a byte sequence. Its value is fixed by the
/// algorithm, so it is named rather than written out; the trusted
/// wrapper below ties it to the implementation.
pub uninterp spec fn sha256_of(data: Seq<u8>) -> Seq<u8>;

/// One upper-case hexadecimal digit for a value below sixteen.
pub open spec fn hex_digit(d: u8) -> char
    recommends
        d < 16,
{
    if d < 10 {
        ((d + 0x30) as u8) as char
    } else {
        ((d + 0x37) as u8) as char
    }
}

/// Upper-case hexadecimal text: two digits per byte, high nibble first.
pub open spec fn hex_upper_of(data: Seq<u8>) -> Seq<char>
    decreases data.len(),
{
    if data.len() == 0 {
        Seq::empty()
    } else {
        seq![hex_digit(data[0] / 16), hex_digit(data[0] % 16)] + hex_upper_of(data.skip(1))
    }
}

/// The fingerprint of a byte content: its SHA-256 digest in upper-case
/// hexadecimal.
pub open spec fn fingerprint_of(data: Seq<u8>) -> Seq<char> {
    hex_upper_of(sha256_of(data))
}

/// Relies on `ring::digest::digest` with `ring::digest::SHA256`: the
/// digest is a function of the input bytes alone and is 32 bytes long.
/// The length bound keeps the input below the algorithm's limit, under
/// which `ring` would refuse the computation.
#[verifier::external_body]
pub fn sha256_digest(data: &[u8]) -> (r: Vec<u8>)
    requires
        data@.len() < 0x2000000000000000,
    ensures
        r@ == sha256_of(data@),
        r@.len() == 32,
{
    ring::digest::digest(&ring::digest::SHA256, data).as_ref().to_vec()
}

/// Relies on `data_encoding::HEXUPPER.encode`: each input byte becomes
/// two upper-case hexadecimal digits, high nibble first.
#[verifier::external_body]
pub fn hex_upper_encode(data: &[u8]) -> (r: String)
    requires
        data@.len() * 2 <= usize::MAX,
    ensures
        r@ == hex_upper_of(data@),
{
    data_encoding::HEXUPPER.encode(data)
}

/// The fingerprint of `data`, as the cache stores it.
pub fn fingerprint(data: &[u8]) -> (r: String)
    requires
        data@.len() < 0x2000000000000000,
    ensures
        r@ == fingerprint_of(data@),
{
    let digest = sha256_digest(data);
    hex_upper_encode(digest.as_slice())
}

/// Law: the fingerprint depends on the byte content alone — hashing
/// equal contents yields equal fingerprints.
pub proof fn lemma_fingerprint_deterministic(a: Seq<u8>, b: Seq<u8>)
    requires
        a == b,
    ensures
        fingerprint_of(a) == fingerprint_of(b),
{
}

} // verus!
