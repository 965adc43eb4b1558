//! Frame-codec and rational-number tests.

use growattproxy::codec::{decrypt_in_place, validate};
use growattproxy::dataprocessor::{find_subsequence, layout_tag};
use growattproxy::layouts::{detect_layout, t065004x, t06nnnnx};
use growattproxy::rational::Rational;
use growattproxy::ProxyError;
use num_rational::Rational64;

const MASK: [u8; 7] = [0x47, 0x72, 0x6f, 0x77, 0x61, 0x74, 0x74];

fn apply_mask(frame: &mut Vec<u8>) {
    for i in 8..frame.len() {
        frame[i] ^= MASK[(i - 8) % 7];
    }
}

fn seal_checksum(frame: &mut Vec<u8>) {
    let n = frame.len();
    let crc = crc16::State::<crc16::MODBUS>::calculate(&frame[..n - 2]);
    frame[n - 2] = (crc >> 8) as u8;
    frame[n - 1] = (crc & 0xff) as u8;
}

/// A small known-good frame with protocol 0x05, so that the checksum is
/// required and sealed over the exact wire bytes.
fn checked_frame() -> Vec<u8> {
    let mut frame = vec![0u8; 64];
    frame[..8].copy_from_slice(&[0x12, 0x34, 0x00, 0x05, 0x00, 56, 0x01, 0x02]);
    for i in 8..62 {
        frame[i] = (i * 7 % 251) as u8;
    }
    seal_checksum(&mut frame);
    frame
}

#[test]
fn known_good_frame_validates() {
    let frame = checked_frame();
    assert!(validate(&frame).is_ok());
}

#[test]
fn single_byte_corruption_always_changes_the_checksum() {
    let frame = checked_frame();
    let n = frame.len();
    let good_crc = crc16::State::<crc16::MODBUS>::calculate(&frame[..n - 2]);
    for j in 0..n - 2 {
        for bit in 0..8 {
            let mut corrupted = frame.clone();
            corrupted[j] ^= 1 << bit;
            let crc = crc16::State::<crc16::MODBUS>::calculate(&corrupted[..n - 2]);
            assert_ne!(crc, good_crc, "corruption at byte {j} bit {bit} left the checksum unchanged");
            // as long as the corrupted frame still demands a checksum, it
            // can no longer validate
            if corrupted[3] == 0x05 || corrupted[3] == 0x06 {
                assert!(validate(&corrupted).is_err());
            }
        }
    }
}

#[test]
fn length_and_checksum_mismatches_are_distinct_errors() {
    let mut wrong_len = checked_frame();
    wrong_len[4] = 0x02;
    assert_eq!(validate(&wrong_len).unwrap_err(), ProxyError::LengthMismatch);

    let mut wrong_crc = checked_frame();
    wrong_crc[63] ^= 0x01;
    assert_eq!(validate(&wrong_crc).unwrap_err(), ProxyError::ChecksumMismatch);

    // protocol codes other than 0x05/0x06 skip the checksum entirely
    let mut unchecked = checked_frame();
    unchecked[3] = 0x27;
    unchecked[63] ^= 0x01;
    assert!(validate(&unchecked).is_ok());
}

#[test]
fn decrypt_is_self_inverse() {
    let original: Vec<u8> = (0u8..=255).cycle().take(300).collect();
    let mut buf = original.clone();
    decrypt_in_place(&mut buf);
    assert_ne!(buf, original, "decryption must change the body");
    assert_eq!(buf[..8], original[..8], "the header is never touched");
    decrypt_in_place(&mut buf);
    assert_eq!(buf, original);

    // short buffers have no body to transform
    let mut short = vec![1u8, 2, 3];
    decrypt_in_place(&mut short);
    assert_eq!(short, vec![1u8, 2, 3]);
}

#[test]
fn decryption_uses_the_published_mask() {
    let mut buf = vec![0u8; 22];
    decrypt_in_place(&mut buf);
    assert_eq!(&buf[8..15], b"Growatt");
    assert_eq!(&buf[15..22], b"Growatt");
}

#[test]
fn rationals_are_exact_and_reduced() {
    // the produced rational equals n / d exactly, in lowest terms
    let cases: [(i64, i64, i64, i64); 8] = [
        (31326207, 10, 31326207, 10),
        (313262070, 10, 31326207, 1),
        (10, 4, 5, 2),
        (0, 7, 0, 1),
        (-6, -4, 3, 2),
        (6, -4, -3, 2),
        (-6, 4, -3, 2),
        (1, 7200, 1, 7200),
    ];
    for (n, d, num, den) in cases {
        let r = Rational::new(n, d);
        assert_eq!((r.numer(), r.denom()), (num, den), "for {n}/{d}");
        // cross-multiplication: r equals n/d with no loss
        assert_eq!(i128::from(r.numer()) * i128::from(d), i128::from(n) * i128::from(r.denom()));
    }
}

#[test]
fn rationals_match_the_reference_arithmetic() {
    let pairs: [(i64, i64); 10] = [
        (1, 1),
        (31326207, 10),
        (80000, 10),
        (123456, 100),
        (7, 7200),
        (-9, 12),
        (9, -12),
        (-9, -12),
        (0, 5),
        (65535, 2),
    ];
    for (n, d) in pairs {
        let mine = Rational::new(n, d);
        let reference = Rational64::new(n, d);
        assert_eq!(mine.numer(), *reference.numer(), "numerator of {n}/{d}");
        assert_eq!(mine.denom(), *reference.denom(), "denominator of {n}/{d}");
    }
}

#[test]
fn layout_tags_follow_the_header() {
    assert_eq!(layout_tag(&[0, 0, 0, 0x06, 0, 0, 0x50, 0x04]), "T065004");
    assert_eq!(layout_tag(&[0, 0, 0, 0x06, 0, 0, 0x51, 0x03]), "T065103");
    // smart-meter class codes append the trailing mark
    assert_eq!(layout_tag(&[0, 0, 0, 0x06, 0, 0, 0x50, 0x20]), "T065020X");
    assert_eq!(layout_tag(&[0, 0, 0, 0x06, 0, 0, 0x50, 0x1b]), "T06501bX");
}

#[test]
fn detection_never_fails_and_degrades_to_the_fallback() {
    let spec = detect_layout(&[0, 0, 0, 0x06, 0, 0, 0x50, 0x04]);
    assert!(spec.fields_well_formed());
    let full = t065004x();
    let reduced = t06nnnnx();
    assert!(full.fields_well_formed());
    assert!(reduced.fields_well_formed());
    // an arbitrary unknown header also resolves to a usable layout
    let other = detect_layout(&[9, 9, 9, 9, 9, 9, 9, 9]);
    assert!(other.fields_well_formed());
    assert!(other.requires_decrypt());
}

#[test]
fn subsequence_search_finds_the_first_occurrence() {
    let haystack = b"xxMFK0CE306QyyMFK0CE306Qzz";
    assert_eq!(find_subsequence(haystack, b"MFK0CE306Q"), Some(2));
    assert_eq!(find_subsequence(haystack, b"zz"), Some(24));
    assert_eq!(find_subsequence(haystack, b"absent"), None);
    assert_eq!(find_subsequence(b"ab", b"abc"), None);
    assert_eq!(find_subsequence(b"abc", b"abc"), Some(0));
}
