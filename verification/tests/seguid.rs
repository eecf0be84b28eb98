use seguid::Seguid;
use seguid::SeguidError;

#[test]
fn test_does_the_thing() {
    let seq1 = &b"QSALTQPASVSGSPGQSITISCTGTSSDVGSYNLVSWYQQHPGKAPKLMIYEGSKRPS\
                  GVSNRFSGSKSGNTASLTISGLQAEDEADYYCCSYAGSSTWVFGGGTKLTVL"[..];
    let seq2 = &b"ACGTACGTACGT"[..];
    let seq3 = &b"QSALTQPASVSGSPGQSITISCTGTSSDVGSYNLVSWYQQHPGKAPKLMIYEGSKRPS\
                  GVSNRFSGSKSGNTASLTISGLQAEDEADYYCSSYAGSSTLVFGGGTKLTVL"[..];

    assert_eq!(Seguid::digest(seq1).display().unwrap(), "X5XEaayob1nZLOc7eVT9qyczarY");
    assert_eq!(Seguid::digest(seq2).display().unwrap(), "If6HIvcnRSQDVNiAoefAzySc6i4");
    assert_eq!(Seguid::digest(seq3).display().unwrap(), "BpBeDdcNUYNsdk46JoJdw7Pd3BI");
}

#[test]
fn test_checksum_same_as_raw() {
    let seq2 = &b"ACGTACGTACGT"[..];
    let checksum = Seguid::digest(seq2);
    let cs1 = Seguid::new([
        73, 102, 54, 72, 73, 118, 99, 110, 82, 83, 81, 68, 86, 78, 105, 65, 111, 101, 102, 65,
        122, 121, 83, 99, 54, 105, 52,
    ]);
    let cs2 = Seguid::new(*b"If6HIvcnRSQDVNiAoefAzySc6i4");
    assert_eq!(checksum, cs1);
    assert_eq!(checksum, cs2);
}

#[test]
fn test_checksum_orderable() {
    let cs1 = Seguid::new(*b"BpBeDdcNUYNsdk46JoJdw7Pd3BI");
    let cs2 = Seguid::new(*b"If6HIvcnRSQDVNiAoefAzySc6i4");
    assert!(cs1 < cs2);
}

#[test]
fn test_empty_sequence() {
    assert_eq!(Seguid::digest(&b""[..]).display().unwrap(), "2jmj7l5rSw0yVb/vlWAYkK/YBwk");
}

#[test]
fn test_case_insensitive() {
    let lower = Seguid::digest(&b"acgtacgtacgt"[..]);
    let upper = Seguid::digest(&b"ACGTACGTACGT"[..]);
    let mixed = Seguid::digest(&b"AcGtAcGtAcGt"[..]);
    assert_eq!(lower, upper);
    assert_eq!(mixed, upper);
    assert_eq!(lower.display().unwrap(), "If6HIvcnRSQDVNiAoefAzySc6i4");
}

#[test]
fn test_display_length_and_alphabet() {
    let inputs: [&[u8]; 4] = [b"", b"A", b"ACGTACGTACGT", b"some arbitrary bytes \x00\xff\x80!"];
    for input in inputs {
        let text = Seguid::digest(input).display().unwrap();
        assert_eq!(text.len(), 27);
        assert!(text.bytes().all(|b| {
            b.is_ascii_uppercase()
                || b.is_ascii_lowercase()
                || b.is_ascii_digit()
                || b == b'+'
                || b == b'/'
        }));
    }
}

#[test]
fn test_display_round_trip() {
    let text = Seguid::digest(&b"ACGTACGTACGT"[..]).display().unwrap();
    let raw: [u8; 27] = text.as_bytes().try_into().unwrap();
    let rebuilt = Seguid::new(raw);
    assert_eq!(rebuilt.display().unwrap(), text);
}

#[test]
fn test_order_matches_display() {
    let cs1 = Seguid::digest(&b"ACGTACGTACGT"[..]);
    let cs2 = Seguid::digest(&b""[..]);
    let t1 = cs1.display().unwrap();
    let t2 = cs2.display().unwrap();
    assert_eq!(t1 < t2, cs1 < cs2);
    assert_eq!(t2 < t1, cs2 < cs1);
    assert!(!(cs1 < cs1));
    assert!("BpBeDdcNUYNsdk46JoJdw7Pd3BI" < "If6HIvcnRSQDVNiAoefAzySc6i4");
}

#[test]
fn test_deterministic() {
    let a = Seguid::digest(&b"MKVLAA"[..]);
    let b = Seguid::digest(&b"MKVLAA"[..]);
    assert_eq!(a, b);
    assert_eq!(a.display().unwrap(), b.display().unwrap());
}

#[test]
fn test_display_rejects_invalid_utf8() {
    let c = Seguid::new([0xff; 27]);
    assert_eq!(c.display(), Err(SeguidError::InvalidTextEncoding));
}

#[test]
fn test_display_accepts_multibyte_utf8() {
    // Thirteen two-byte encodings of U+00E9 followed by one ASCII byte: valid
    // UTF-8 that the hashing pipeline itself would never produce.
    let mut raw = [0u8; 27];
    let mut i: usize = 0;
    while i < 26 {
        raw[i] = 0xc3;
        raw[i + 1] = 0xa9;
        i += 2;
    }
    raw[26] = b'A';
    let text = Seguid::new(raw).display().unwrap();
    assert_eq!(text, "\u{e9}\u{e9}\u{e9}\u{e9}\u{e9}\u{e9}\u{e9}\u{e9}\u{e9}\u{e9}\u{e9}\u{e9}\u{e9}A");
}

#[test]
fn test_checked_new() {
    let ok = Seguid::checked_new(*b"If6HIvcnRSQDVNiAoefAzySc6i4").unwrap();
    assert_eq!(ok, Seguid::new(*b"If6HIvcnRSQDVNiAoefAzySc6i4"));

    let mut bad = *b"If6HIvcnRSQDVNiAoefAzySc6i4";
    bad[5] = b'=';
    assert_eq!(Seguid::checked_new(bad), Err(SeguidError::MalformedChecksum));
}

#[test]
fn test_from_raw_bytes() {
    let via_from = Seguid::from(*b"BpBeDdcNUYNsdk46JoJdw7Pd3BI");
    let via_new = Seguid::new(*b"BpBeDdcNUYNsdk46JoJdw7Pd3BI");
    assert_eq!(via_from, via_new);
    assert_eq!(via_from.display().unwrap(), "BpBeDdcNUYNsdk46JoJdw7Pd3BI");
}
