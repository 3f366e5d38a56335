//! Content fingerprinting: a deterministic non-cryptographic digest of a
//! string, rendered as lowercase hex. The digest keys both the managed
//! storage directory names (over the source file's full path) and the
//! insights cache files (over the trimmed transcript text).

use vstd::prelude::*;
use vstd::string::*;
use crate::textutil::push_char;

verus! {

/// The 16-byte MD5 digest of the UTF-8 encoding of a string. The digest is
/// a pure function of the characters alone, identical on every machine.
pub uninterp spec fn md5_of(s: Seq<char>) -> Seq<u8>;

/// Relies on md5::compute, which returns the 16-byte MD5 digest of the
/// input bytes; the digest depends on those bytes alone.
#[verifier::external_body]
fn md5_digest(s: &str) -> (r: Vec<u8>)
    ensures
        r@ == md5_of(s@),
        r@.len() == 16,
{
    md5::compute(s.as_bytes()).0.to_vec()
}

/// The lowercase hex character for a value below 16.
pub open spec fn hex_digit(n: u8) -> char
    recommends
        n < 16,
{
    if n < 10 {
        ((n + 0x30) as u8) as char
    } else {
        ((n + 0x57) as u8) as char
    }
}

/// The lowercase hex rendering of a byte string: two digits per byte,
/// high nibble first.
pub open spec fn hex_of(b: Seq<u8>) -> Seq<char> {
    Seq::new(
        2 * b.len(),
        |i: int|
            if i % 2 == 0 {
                hex_digit((b[i / 2] >> 4) as u8)
            } else {
                hex_digit((b[i / 2] & 0xf) as u8)
            },
    )
}

pub(crate) fn hex_digit_char(n: u8) -> (c: char)
    requires
        n < 16,
    ensures
        c == hex_digit(n),
{
    if n < 10 {
        (n + 0x30) as char
    } else {
        (n + 0x57) as char
    }
}

/// Renders a byte string as lowercase hex.
pub fn to_hex(b: &Vec<u8>) -> (r: String)
    ensures
        r@ == hex_of(b@),
{
    let mut r = String::new();
    let mut i: usize = 0;
    while i < b.len()
        invariant
            i <= b@.len(),
            r@ == hex_of(b@).take(2 * i as int),
        decreases b@.len() - i,
    {
        let byte = b[i];
        let hi = byte >> 4;
        let lo = byte & 0xf;
        assert((byte >> 4) < 16 && (byte & 0xf) < 16) by (bit_vector);
        push_char(&mut r, hex_digit_char(hi));
        push_char(&mut r, hex_digit_char(lo));
        i = i + 1;
        proof {
            assert(r@ =~= hex_of(b@).take(2 * i as int));
        }
    }
    proof {
        assert(r@ =~= hex_of(b@));
    }
    r
}

/// The fingerprint of a string: the lowercase hex rendering of its digest,
/// always 32 characters long.
pub fn fingerprint_hex(s: &str) -> (r: String)
    ensures
        r@ == hex_of(md5_of(s@)),
        r@.len() == 32,
{
    let digest = md5_digest(s);
    to_hex(&digest)
}

} // verus!
