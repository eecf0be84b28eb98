//! The checksum value type and the pipeline that computes it: uppercase the
//! input, hash it with SHA-1, base64-encode the 20-byte digest, and strip the
//! single trailing padding character, leaving 27 printable bytes.

use crate::b64::{base64_encode_bytes, base64_encoding, is_b64_byte, lemma_base64_encoding_two_rem};
use crate::text::{
    all_ascii, ascii_bytes_of, ascii_chars_of, lemma_ascii_decode, lemma_ascii_round_trip,
    utf8_to_string,
};
use core::cmp::Ordering;
use sha1::Digest;
use vstd::prelude::*;
use vstd::utf8::{
    decode_utf8, encode_utf8, is_ascii_chars, is_ascii_chars_encode_utf8, valid_utf8,
};

verus! {

/// The 20-byte SHA-1 digest of a byte sequence; a function of the bytes alone.
pub uninterp spec fn sha1_of(data: Seq<u8>) -> Seq<u8>;

/// Relies on `sha1::Sha1` through the `Digest` trait: the 20-byte SHA-1
/// digest of the input, a function of the input bytes alone.
#[verifier::external_body]
fn sha1_digest(data: &[u8]) -> (r: Vec<u8>)
    ensures
        r@ == sha1_of(data@),
        r@.len() == 20,
{
    sha1::Sha1::digest(data).to_vec()
}

/// ASCII uppercasing of one byte: lowercase letters fold, all else unchanged.
pub open spec fn upper_byte(b: u8) -> u8 {
    if 97 <= b <= 122 {
        (b - 32) as u8
    } else {
        b
    }
}

/// Byte-wise ASCII uppercasing of a sequence.
pub open spec fn upper_seq(s: Seq<u8>) -> Seq<u8> {
    Seq::new(s.len(), |i: int| upper_byte(s[i]))
}

/// The 27 checksum bytes for an input: uppercase, hash, base64-encode, and
/// keep everything before the single trailing padding character.
pub open spec fn seguid_bytes(s: Seq<u8>) -> Seq<u8> {
    base64_encoding(sha1_of(upper_seq(s))).take(27)
}

/// Byte-wise lexicographic comparison of two byte sequences.
pub open spec fn bytes_cmp(a: Seq<u8>, b: Seq<u8>) -> Ordering
    decreases a.len(),
{
    if a.len() == 0 && b.len() == 0 {
        Ordering::Equal
    } else if a.len() == 0 {
        Ordering::Less
    } else if b.len() == 0 {
        Ordering::Greater
    } else if a[0] < b[0] {
        Ordering::Less
    } else if b[0] < a[0] {
        Ordering::Greater
    } else {
        bytes_cmp(a.drop_first(), b.drop_first())
    }
}

/// The ways a checksum operation can fail.
#[derive(Debug, Clone, Copy, PartialEq, Eq, Structural)]
pub enum SeguidError {
    /// The 27 bytes of the checksum are not valid UTF-8 text.
    InvalidTextEncoding,
    /// A byte outside the base64 alphabet was handed to the validating
    /// constructor.
    MalformedChecksum,
}

/// A SEGUID checksum: 27 printable bytes, the base64 encoding of a 160-bit
/// hash with its padding stripped. Compares and sorts byte-wise.
#[derive(Debug, Hash, Clone, Copy, Eq, Ord)]
pub struct Seguid {
    inner: [u8; 27],
}

impl View for Seguid {
    type V = Seq<u8>;

    closed spec fn view(&self) -> Seq<u8> {
        self.inner@
    }
}

impl Seguid {
    /// Well-formed: all 27 bytes are from the base64 alphabet, as every value
    /// the digest pipeline produces is.
    pub open spec fn wf(self) -> bool {
        &&& self@.len() == 27
        &&& forall|i: int| 0 <= i < 27 ==> is_b64_byte(#[trigger] self@[i])
    }

    /// Computes the checksum of an arbitrary byte sequence. Total: any bytes,
    /// including none, are accepted; letter case does not affect the result.
    pub fn digest(data: &[u8]) -> (r: Self)
        ensures
            r@ == seguid_bytes(data@),
            r.wf(),
    {
        let mut upper: Vec<u8> = Vec::new();
        let mut i: usize = 0;
        while i < data.len()
            invariant
                i <= data@.len(),
                upper@.len() == i,
                forall|j: int| 0 <= j < i ==> upper@[j] == upper_byte(#[trigger] data@[j]),
            decreases data@.len() - i,
        {
            upper.push(uppercase_byte(data[i]));
            i += 1;
        }
        assert(upper@ =~= upper_seq(data@));
        let hash = sha1_digest(upper.as_slice());
        let encoded = base64_encode_bytes(hash.as_slice());
        proof {
            lemma_base64_encoding_two_rem(hash@);
        }
        let mut arr: [u8; 27] = [0; 27];
        let mut k: usize = 0;
        while k < 27
            invariant
                k <= 27,
                encoded@ == base64_encoding(sha1_of(upper_seq(data@))),
                encoded@.len() == 28,
                forall|j: int| 0 <= j < 27 ==> is_b64_byte(#[trigger] encoded@[j]),
                forall|j: int| 0 <= j < k ==> arr@[j] == #[trigger] encoded@[j],
            decreases 27 - k,
        {
            arr[k] = encoded[k];
            k += 1;
        }
        let r = Seguid { inner: arr };
        assert(r@ =~= seguid_bytes(data@));
        r
    }

    /// Wraps 27 caller-supplied bytes verbatim, with no validation: a
    /// deliberate trust boundary for identifiers read back from storage.
    pub fn new(arr: [u8; 27]) -> (r: Self)
        ensures
            r@ == arr@,
    {
        Seguid { inner: arr }
    }

    /// Validating constructor: accepts exactly arrays whose bytes all lie in
    /// the base64 alphabet, and rejects anything else as malformed.
    pub fn checked_new(arr: [u8; 27]) -> (r: Result<Self, SeguidError>)
        ensures
            r is Ok <==> (forall|i: int| 0 <= i < 27 ==> is_b64_byte(#[trigger] arr@[i])),
            r matches Ok(c) ==> c@ == arr@ && c.wf(),
            r matches Err(e) ==> e == SeguidError::MalformedChecksum,
    {
        let mut i: usize = 0;
        while i < 27
            invariant
                i <= 27,
                forall|j: int| 0 <= j < i ==> is_b64_byte(#[trigger] arr@[j]),
            decreases 27 - i,
        {
            if !byte_in_alphabet(arr[i]) {
                return Err(SeguidError::MalformedChecksum);
            }
            i += 1;
        }
        Ok(Seguid { inner: arr })
    }

    /// Renders the checksum as text. Succeeds exactly when the 27 bytes are
    /// valid UTF-8 — always the case for values the digest pipeline produced,
    /// whose text is then the 27 bytes read as characters.
    pub fn display(&self) -> (r: Result<String, SeguidError>)
        ensures
            r is Ok <==> valid_utf8(self@),
            r matches Ok(t) ==> t@ == decode_utf8(self@),
            r matches Err(e) ==> e == SeguidError::InvalidTextEncoding,
            self.wf() ==> (r matches Ok(t) && t@ == ascii_chars_of(self@) && t@.len() == 27),
    {
        proof {
            if self.wf() {
                assert(all_ascii(self@));
                lemma_ascii_decode(self@);
            }
        }
        match utf8_to_string(self.inner.as_slice()) {
            Some(t) => Ok(t),
            None => Err(SeguidError::InvalidTextEncoding),
        }
    }
}

/// ASCII uppercasing of one byte, as the pipeline's normalization step uses.
fn uppercase_byte(b: u8) -> (r: u8)
    ensures
        r == upper_byte(b),
{
    if b >= 97 && b <= 122 {
        b - 32
    } else {
        b
    }
}

/// Executable test for membership in the base64 alphabet.
pub fn byte_in_alphabet(b: u8) -> (r: bool)
    ensures
        r == is_b64_byte(b),
{
    (b >= 65 && b <= 90) || (b >= 97 && b <= 122) || (b >= 48 && b <= 57) || b == 43 || b == 47
}

impl PartialEq for Seguid {
    fn eq(&self, other: &Seguid) -> (r: bool) {
        let mut i: usize = 0;
        while i < 27
            invariant
                i <= 27,
                forall|j: int| 0 <= j < i ==> self@[j] == #[trigger] other@[j],
            decreases 27 - i,
        {
            if self.inner[i] != other.inner[i] {
                assert(self@[i as int] != other@[i as int]);
                return false;
            }
            i += 1;
        }
        assert(self@ =~= other@);
        true
    }
}

impl vstd::std_specs::cmp::PartialEqSpecImpl for Seguid {
    open spec fn obeys_eq_spec() -> bool {
        true
    }

    open spec fn eq_spec(&self, other: &Seguid) -> bool {
        self@ == other@
    }
}

impl PartialOrd for Seguid {
    fn partial_cmp(&self, other: &Seguid) -> (r: Option<Ordering>) {
        let mut i: usize = 0;
        while i < 27
            invariant
                i <= 27,
                forall|j: int| 0 <= j < i ==> self@[j] == #[trigger] other@[j],
            decreases 27 - i,
        {
            let a: u8 = self.inner[i];
            let b: u8 = other.inner[i];
            if a < b {
                proof {
                    lemma_bytes_cmp_common_prefix(self@, other@, i as int);
                    assert(self@.skip(i as int)[0] == self@[i as int]);
                    assert(other@.skip(i as int)[0] == other@[i as int]);
                }
                return Some(Ordering::Less);
            }
            if b < a {
                proof {
                    lemma_bytes_cmp_common_prefix(self@, other@, i as int);
                    assert(self@.skip(i as int)[0] == self@[i as int]);
                    assert(other@.skip(i as int)[0] == other@[i as int]);
                }
                return Some(Ordering::Greater);
            }
            i += 1;
        }
        proof {
            lemma_bytes_cmp_common_prefix(self@, other@, 27);
            assert(self@.skip(27).len() == 0);
            assert(other@.skip(27).len() == 0);
        }
        Some(Ordering::Equal)
    }
}

impl vstd::std_specs::cmp::PartialOrdSpecImpl for Seguid {
    open spec fn obeys_partial_cmp_spec() -> bool {
        true
    }

    open spec fn partial_cmp_spec(&self, other: &Seguid) -> Option<Ordering> {
        Some(bytes_cmp(self@, other@))
    }
}

impl From<[u8; 27]> for Seguid {
    fn from(arr: [u8; 27]) -> (r: Seguid) {
        let r = Seguid::new(arr);
        proof {
            assert(r.inner =~= arr);
        }
        r
    }
}

impl vstd::std_specs::convert::FromSpecImpl<[u8; 27]> for Seguid {
    open spec fn obeys_from_spec() -> bool {
        true
    }

    closed spec fn from_spec(arr: [u8; 27]) -> Seguid {
        Seguid { inner: arr }
    }
}

/// Direct construction through `From` wraps the bytes verbatim.
pub proof fn lemma_from_bytes(arr: [u8; 27])
    ensures
        <Seguid as vstd::std_specs::convert::FromSpec<[u8; 27]>>::from_spec(arr)@ == arr@,
{
}

/// Case-insensitivity: an input and its uppercased form have the same
/// checksum bytes.
pub proof fn lemma_digest_case_insensitive(s: Seq<u8>)
    ensures
        seguid_bytes(upper_seq(s)) == seguid_bytes(s),
{
    assert(upper_seq(upper_seq(s)) =~= upper_seq(s));
}

/// Every well-formed checksum renders as exactly 27 characters, all of them
/// from the base64 alphabet `A`-`Z`, `a`-`z`, `0`-`9`, `+`, `/`.
pub proof fn lemma_display_shape(c: Seguid)
    requires
        c.wf(),
    ensures
        ascii_chars_of(c@).len() == 27,
        forall|i: int| 0 <= i < 27 ==> is_b64_byte(#[trigger] ascii_chars_of(c@)[i] as u8),
{
    assert forall|i: int| 0 <= i < 27 implies is_b64_byte(
        #[trigger] ascii_chars_of(c@)[i] as u8,
    ) by {
        assert(ascii_chars_of(c@)[i] == c@[i] as char);
    }
}

/// Round trip: the rendered text of a well-formed checksum, read back as its
/// raw bytes, is the checksum itself, so rendering the reconstructed value
/// reproduces the text exactly.
pub proof fn lemma_display_round_trip(c: Seguid)
    requires
        c.wf(),
    ensures
        encode_utf8(ascii_chars_of(c@)) == c@,
        ascii_bytes_of(ascii_chars_of(c@)) == c@,
        ascii_chars_of(ascii_bytes_of(ascii_chars_of(c@))) == ascii_chars_of(c@),
{
    let t = ascii_chars_of(c@);
    assert(is_ascii_chars(t));
    is_ascii_chars_encode_utf8(t);
    assert(encode_utf8(t) =~= c@);
    lemma_ascii_round_trip(c@);
}

/// Rendered texts compare byte-wise exactly as the checksums themselves do:
/// whenever one displayed string precedes another, the first checksum is the
/// smaller one.
pub proof fn lemma_order_matches_display(c1: Seguid, c2: Seguid)
    requires
        c1.wf(),
        c2.wf(),
    ensures
        bytes_cmp(encode_utf8(ascii_chars_of(c1@)), encode_utf8(ascii_chars_of(c2@))) == bytes_cmp(
            c1@,
            c2@,
        ),
{
    lemma_display_round_trip(c1);
    lemma_display_round_trip(c2);
}

/// `Equal` means the sequences are the same, and swapping the operands turns
/// `Less` into `Greater`: together with transitivity, byte-wise comparison is
/// a strict total order.
pub proof fn lemma_bytes_cmp_antisymmetric(a: Seq<u8>, b: Seq<u8>)
    ensures
        bytes_cmp(a, b) == Ordering::Equal <==> a == b,
        bytes_cmp(a, b) == Ordering::Less <==> bytes_cmp(b, a) == Ordering::Greater,
    decreases a.len(),
{
    if a.len() == 0 && b.len() == 0 {
        assert(a =~= b);
    }
    if a.len() > 0 && b.len() > 0 && a[0] == b[0] {
        lemma_bytes_cmp_antisymmetric(a.drop_first(), b.drop_first());
        if bytes_cmp(a, b) == Ordering::Equal {
            assert(a.drop_first() == b.drop_first());
            assert forall|i: int| 0 <= i < a.len() implies a[i] == b[i] by {
                if i > 0 {
                    assert(a[i] == a.drop_first()[i - 1]);
                    assert(b[i] == b.drop_first()[i - 1]);
                }
            }
            assert(a =~= b);
        }
        if a == b {
            assert(a.drop_first() =~= b.drop_first());
        }
    }
}

/// Byte-wise comparison is transitive.
pub proof fn lemma_bytes_cmp_transitive(a: Seq<u8>, b: Seq<u8>, c: Seq<u8>)
    requires
        bytes_cmp(a, b) == Ordering::Less,
        bytes_cmp(b, c) == Ordering::Less,
    ensures
        bytes_cmp(a, c) == Ordering::Less,
    decreases a.len(),
{
    if a.len() > 0 {
        if a[0] == b[0] && b.len() > 0 && c.len() > 0 && b[0] == c[0] {
            lemma_bytes_cmp_transitive(a.drop_first(), b.drop_first(), c.drop_first());
        }
    }
}

/// Determinism: any two checksum values whose bytes come from the same input
/// are the same value.
pub proof fn lemma_digest_deterministic(s: Seq<u8>, c1: Seguid, c2: Seguid)
    requires
        c1@ == seguid_bytes(s),
        c2@ == seguid_bytes(s),
    ensures
        c1 == c2,
{
    assert(c1.inner =~= c2.inner);
}

/// Comparing two sequences that agree on a common prefix is comparing what
/// follows the prefix.
proof fn lemma_bytes_cmp_common_prefix(a: Seq<u8>, b: Seq<u8>, i: int)
    requires
        0 <= i <= a.len(),
        i <= b.len(),
        forall|j: int| 0 <= j < i ==> a[j] == #[trigger] b[j],
    ensures
        bytes_cmp(a, b) == bytes_cmp(a.skip(i), b.skip(i)),
    decreases i,
{
    if i > 0 {
        assert(a.len() > 0 && b.len() > 0);
        assert(a[0] == b[0]);
        lemma_bytes_cmp_common_prefix(a.drop_first(), b.drop_first(), i - 1);
        assert(a.drop_first().skip(i - 1) =~= a.skip(i));
        assert(b.drop_first().skip(i - 1) =~= b.skip(i));
    } else {
        assert(a.skip(0) =~= a);
        assert(b.skip(0) =~= b);
    }
}

} // verus!
