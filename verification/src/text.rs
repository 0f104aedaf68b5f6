//! Text handling for command arguments: lossy, non-failing decoding of raw
//! bytes, and ASCII upper-casing for case-insensitive command-name matching.

use vstd::prelude::*;
use vstd::utf8::decode_utf8;
use vstd::utf8::valid_utf8;

verus! {

/// What `String::from_utf8_lossy` returns on bytes that are not valid
/// UTF-8: a function of the bytes alone.
pub uninterp spec fn lossy_decode(bytes: Seq<u8>) -> Seq<char>;

/// The text a byte sequence decodes to under the lossy policy: valid UTF-8
/// decodes exactly; anything else has its invalid sequences replaced, as
/// named by `lossy_decode`.
pub open spec fn text_of(bytes: Seq<u8>) -> Seq<char> {
    if valid_utf8(bytes) {
        decode_utf8(bytes)
    } else {
        lossy_decode(bytes)
    }
}

/// Relies on String::from_utf8_lossy: the result is a function of the bytes
/// alone, and valid UTF-8 is decoded exactly, without replacement.
#[verifier::external_body]
fn from_utf8_lossy(bytes: &[u8]) -> (s: String)
    ensures
        s@ == lossy_decode(bytes@),
        valid_utf8(bytes@) ==> s@ == decode_utf8(bytes@),
{
    String::from_utf8_lossy(bytes).into_owned()
}

/// Decodes argument bytes to text under the lossy policy: never fails,
/// never panics.
pub fn lossy_text(bytes: &[u8]) -> (s: String)
    ensures
        s@ == text_of(bytes@),
{
    from_utf8_lossy(bytes)
}

/// ASCII upper-casing of one byte: the twenty-six lower-case letters map to
/// their upper-case forms, every other byte is left alone.
pub open spec fn upper_byte(b: u8) -> u8 {
    if 97 <= b <= 122 {
        (b - 32) as u8
    } else {
        b
    }
}

/// ASCII upper-casing of a byte sequence, byte for byte.
pub open spec fn upper_bytes(s: Seq<u8>) -> Seq<u8> {
    s.map_values(|b: u8| upper_byte(b))
}

/// Upper-cases a byte sequence for case-insensitive matching.
pub fn to_upper(b: &Vec<u8>) -> (r: Vec<u8>)
    ensures
        r@ == upper_bytes(b@),
{
    let n = b.len();
    let mut r: Vec<u8> = Vec::new();
    let mut i: usize = 0;
    while i < n
        invariant
            i <= n,
            n == b@.len(),
            r@ == upper_bytes(b@.take(i as int)),
        decreases n - i,
    {
        let c = b[i];
        if c >= 97 && c <= 122 {
            r.push(c - 32);
        } else {
            r.push(c);
        }
        assert(r@ =~= upper_bytes(b@.take(i + 1)));
        i = i + 1;
    }
    assert(b@.take(n as int) =~= b@);
    r
}

} // verus!
