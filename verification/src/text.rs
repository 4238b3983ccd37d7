//! Text and the bytes that stand for it.
//!
//! What arrives from the network need not be valid UTF-8. It is decoded
//! permissively: valid input keeps its meaning, and whatever is malformed is
//! replaced rather than refused.

use vstd::prelude::*;
use vstd::utf8::{
    decode_utf8, decode_utf8_encode_utf8, encode_utf8, encode_utf8_decode_utf8, valid_utf8,
};

verus! {

/// The text that the standard library's lossy decoding makes of `bytes`.
pub uninterp spec fn lossy_text(bytes: Seq<u8>) -> Seq<char>;

/// The text that a permissive decoding makes of `bytes`: the characters they
/// encode where they are valid UTF-8, and the result of lossy decoding where
/// they are not.
pub open spec fn permissive_text(bytes: Seq<u8>) -> Seq<char> {
    if valid_utf8(bytes) {
        decode_utf8(bytes)
    } else {
        lossy_text(bytes)
    }
}

/// Calls `String::from_utf8_lossy` and takes the result as an owned string.
///
/// Not proved: that the result is a function of the bytes alone, named
/// `lossy_text`, and that valid UTF-8 comes back as the string made of
/// exactly those bytes.
#[verifier::external_body]
fn decode_lossy(bytes: &[u8]) -> (text: String)
    ensures
        text@ == lossy_text(bytes@),
        valid_utf8(bytes@) ==> encode_utf8(text@) == bytes@,
{
    String::from_utf8_lossy(bytes).into_owned()
}

/// Decodes `bytes` permissively.
pub fn decode(bytes: &[u8]) -> (text: String)
    ensures
        text@ == permissive_text(bytes@),
{
    let text = decode_lossy(bytes);
    proof {
        encode_utf8_decode_utf8(text@);
    }
    text
}

/// Whether two pieces of text are the same, character for character.
pub fn same_text(left: &str, right: &str) -> (same: bool)
    ensures
        same == (left@ == right@),
{
    let a = left.as_bytes();
    let b = right.as_bytes();
    if a.len() != b.len() {
        return false;
    }
    let mut i: usize = 0;
    while i < a.len()
        invariant
            0 <= i <= a@.len(),
            a@ == encode_utf8(left@),
            b@ == encode_utf8(right@),
            a@.len() == b@.len(),
            a@.take(i as int) == b@.take(i as int),
        decreases a@.len() - i,
    {
        if a[i] != b[i] {
            return false;
        }
        i = i + 1;
    }
    proof {
        assert(a@.take(a@.len() as int) =~= a@);
        assert(b@.take(b@.len() as int) =~= b@);
        encode_utf8_decode_utf8(left@);
        encode_utf8_decode_utf8(right@);
    }
    true
}

/// The bytes of two texts written one after the other are the bytes of the
/// first followed by the bytes of the second.
pub proof fn lemma_encode_concat(first: Seq<char>, second: Seq<char>)
    ensures
        encode_utf8(first + second) == encode_utf8(first) + encode_utf8(second),
    decreases first.len(),
{
    if first.len() > 0 {
        lemma_encode_concat(first.drop_first(), second);
        assert((first + second).drop_first() =~= first.drop_first() + second);
    }
}

/// Decoding permissively and encoding again gives back valid UTF-8 unchanged.
pub proof fn lemma_valid_round_trip(bytes: Seq<u8>)
    requires
        valid_utf8(bytes),
    ensures
        encode_utf8(permissive_text(bytes)) == bytes,
{
    decode_utf8_encode_utf8(bytes);
}

} // verus!
