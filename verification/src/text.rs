//! Rendering checksum bytes as text: ASCII byte/character conversions, their
//! round-trip facts, and the trusted call into `core::str::from_utf8`.

use vstd::prelude::*;
use vstd::utf8::{
    decode_utf8, is_leading_byte_width_1, pop_first_scalar, valid_first_scalar, valid_utf8,
};

verus! {

/// True when every byte of the sequence is in the ASCII range.
pub open spec fn all_ascii(b: Seq<u8>) -> bool {
    forall|i: int| 0 <= i < b.len() ==> #[trigger] b[i] < 128
}

/// The characters that a sequence of ASCII bytes denotes, one per byte.
pub open spec fn ascii_chars_of(b: Seq<u8>) -> Seq<char> {
    Seq::new(b.len(), |i: int| b[i] as char)
}

/// The code points of a sequence of characters, truncated to bytes.
pub open spec fn ascii_bytes_of(c: Seq<char>) -> Seq<u8> {
    Seq::new(c.len(), |i: int| c[i] as u8)
}

/// ASCII bytes are valid UTF-8 and decode one byte to one character.
pub proof fn lemma_ascii_decode(b: Seq<u8>)
    requires
        all_ascii(b),
    ensures
        valid_utf8(b),
        decode_utf8(b) == ascii_chars_of(b),
    decreases b.len(),
{
    if b.len() == 0 {
        assert(decode_utf8(b) =~= ascii_chars_of(b));
    } else {
        assert(is_leading_byte_width_1(b[0]));
        let b0: u8 = b[0];
        assert(b0 & 0x7f == b0) by (bit_vector)
            requires
                b0 < 128,
        ;
        assert(valid_first_scalar(b));
        let rest = pop_first_scalar(b);
        assert(rest =~= b.skip(1));
        lemma_ascii_decode(rest);
        assert(decode_utf8(b) =~= ascii_chars_of(b));
    }
}

/// Turning ASCII bytes into characters and back gives the original bytes.
pub proof fn lemma_ascii_round_trip(b: Seq<u8>)
    requires
        all_ascii(b),
    ensures
        ascii_bytes_of(ascii_chars_of(b)) == b,
{
    assert(ascii_bytes_of(ascii_chars_of(b)) =~= b);
}

/// Relies on `core::str::from_utf8`: it succeeds exactly when the bytes are a
/// valid UTF-8 encoding, and then returns the text those bytes encode.
#[verifier::external_body]
pub(crate) fn utf8_to_string(v: &[u8]) -> (r: Option<String>)
    ensures
        r is Some <==> valid_utf8(v@),
        r matches Some(t) ==> t@ == decode_utf8(v@),
{
    match core::str::from_utf8(v) {
        Ok(s) => Some(s.to_owned()),
        Err(_) => None,
    }
}

} // verus!
