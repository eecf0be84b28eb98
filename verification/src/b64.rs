//! Standard base64 encoding (RFC 4648 section 4) stated as a specification,
//! together with the shape facts the checksum pipeline needs and the trusted
//! call into the `base64` crate.

use vstd::prelude::*;

verus! {

/// The padding byte `'='` that standard base64 appends to fill out a
/// four-character block.
pub const PAD_BYTE: u8 = 61;

/// True of exactly the bytes of the standard base64 alphabet:
/// `'A'..='Z'`, `'a'..='z'`, `'0'..='9'`, `'+'` and `'/'`.
pub open spec fn is_b64_byte(b: u8) -> bool {
    ||| 65 <= b <= 90
    ||| 97 <= b <= 122
    ||| 48 <= b <= 57
    ||| b == 43
    ||| b == 47
}

/// The alphabet byte that standard base64 assigns to a six-bit value.
pub open spec fn b64_char(v: u8) -> u8
    recommends
        v < 64,
{
    if v < 26 {
        (v + 65) as u8  // 'A'..='Z'
    } else if v < 52 {
        (v + 71) as u8  // 'a'..='z'
    } else if v < 62 {
        (v - 4) as u8  // '0'..='9'
    } else if v == 62 {
        43  // '+'
    } else {
        47  // '/'
    }
}

/// The four alphabet bytes that encode a full group of three input bytes.
pub open spec fn enc3(a: u8, b: u8, c: u8) -> Seq<u8> {
    seq![
        b64_char(a >> 2),
        b64_char(((a & 0x03) << 4) | (b >> 4)),
        b64_char(((b & 0x0f) << 2) | (c >> 6)),
        b64_char(c & 0x3f),
    ]
}

/// The four bytes that encode a final group of two input bytes: three
/// alphabet bytes and one padding byte.
pub open spec fn enc2(a: u8, b: u8) -> Seq<u8> {
    seq![
        b64_char(a >> 2),
        b64_char(((a & 0x03) << 4) | (b >> 4)),
        b64_char((b & 0x0f) << 2),
        PAD_BYTE,
    ]
}

/// The four bytes that encode a final group of one input byte: two alphabet
/// bytes and two padding bytes.
pub open spec fn enc1(a: u8) -> Seq<u8> {
    seq![b64_char(a >> 2), b64_char((a & 0x03) << 4), PAD_BYTE, PAD_BYTE]
}

/// Standard base64 with `=` padding: the input is encoded in groups of three
/// bytes, and a final group of one or two bytes is padded to four characters.
pub open spec fn base64_encoding(s: Seq<u8>) -> Seq<u8>
    decreases s.len(),
{
    if s.len() == 0 {
        Seq::empty()
    } else if s.len() == 1 {
        enc1(s[0])
    } else if s.len() == 2 {
        enc2(s[0], s[1])
    } else {
        enc3(s[0], s[1], s[2]) + base64_encoding(s.skip(3))
    }
}

/// Every six-bit value maps into the base64 alphabet, and the alphabet never
/// contains the padding byte.
pub proof fn lemma_b64_char_in_alphabet(v: u8)
    ensures
        is_b64_byte(b64_char(v)),
        b64_char(v) != PAD_BYTE,
{
}

/// The encoded length is four bytes for every started group of three.
pub proof fn lemma_base64_encoding_len(s: Seq<u8>)
    ensures
        base64_encoding(s).len() == 4 * ((s.len() + 2) / 3),
    decreases s.len(),
{
    if s.len() > 2 {
        lemma_base64_encoding_len(s.skip(3));
    }
}

/// When the input length leaves a remainder of two, the encoding ends in
/// exactly one padding byte and every byte before it is from the alphabet.
pub proof fn lemma_base64_encoding_two_rem(s: Seq<u8>)
    requires
        s.len() % 3 == 2,
    ensures
        base64_encoding(s).len() == 4 * ((s.len() + 2) / 3),
        base64_encoding(s)[base64_encoding(s).len() - 1] == PAD_BYTE,
        forall|i: int|
            0 <= i < base64_encoding(s).len() - 1 ==> is_b64_byte(#[trigger] base64_encoding(s)[i]),
    decreases s.len(),
{
    lemma_base64_encoding_len(s);
    if s.len() == 2 {
        assert forall|i: int| 0 <= i < 3 implies is_b64_byte(#[trigger] base64_encoding(s)[i]) by {
            lemma_b64_char_in_alphabet(s[0] >> 2);
            lemma_b64_char_in_alphabet(((s[0] & 0x03) << 4) | (s[1] >> 4));
            lemma_b64_char_in_alphabet((s[1] & 0x0f) << 2);
        }
    } else {
        let rest = s.skip(3);
        lemma_base64_encoding_two_rem(rest);
        lemma_base64_encoding_len(rest);
        let e = base64_encoding(s);
        let head = enc3(s[0], s[1], s[2]);
        assert forall|i: int| 0 <= i < e.len() - 1 implies is_b64_byte(#[trigger] e[i]) by {
            if i < 4 {
                lemma_b64_char_in_alphabet(s[0] >> 2);
                lemma_b64_char_in_alphabet(((s[0] & 0x03) << 4) | (s[1] >> 4));
                lemma_b64_char_in_alphabet(((s[1] & 0x0f) << 2) | (s[2] >> 6));
                lemma_b64_char_in_alphabet(s[2] & 0x3f);
            } else {
                assert(e[i] == base64_encoding(rest)[i - 4]);
            }
        }
        assert(e[e.len() - 1] == base64_encoding(rest)[base64_encoding(rest).len() - 1]);
    }
}

/// Relies on `base64::encode`: standard-alphabet base64 with `=` padding
/// (RFC 4648 section 4) of the input bytes.
#[verifier::external_body]
pub(crate) fn base64_encode_bytes(data: &[u8]) -> (r: Vec<u8>)
    ensures
        r@ == base64_encoding(data@),
{
    base64::encode(data).into_bytes()
}

} // verus!
