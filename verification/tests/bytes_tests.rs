//! Big-endian amount bytes and lexicographic key order.

use rinha_core::bytes::{be_bytes_of, be_to_u64, lex_le_bytes};

#[test]
fn be_bytes_match_std_f64_encoding() {
    for f in [0.0f64, 19.9, -5.5, 1.0e308, -1.0e-300, f64::MIN_POSITIVE, f64::INFINITY] {
        let bits = f.to_bits();
        let ours = be_bytes_of(bits);
        assert_eq!(ours.as_slice(), f.to_be_bytes().as_slice());
    }
}

#[test]
fn be_round_trip_is_bitwise() {
    for f in [0.0f64, -0.0, 19.9, 5.0, -5.5, 1.0e308, f64::NAN] {
        let bits = f.to_bits();
        let bytes = be_bytes_of(bits);
        let back = be_to_u64(bytes.as_slice());
        assert_eq!(back, bits);
        assert_eq!(f64::from_bits(back).to_bits(), f.to_bits());
    }
}

#[test]
fn lex_order_is_chronological_for_fixed_width() {
    let a = b"2024-01-01T00:00:00Z";
    let b = b"2024-06-01T00:00:00Z";
    let c = b"2025-01-01T00:00:00Z";
    assert!(lex_le_bytes(a, a));
    assert!(lex_le_bytes(a, b));
    assert!(lex_le_bytes(b, c));
    assert!(!lex_le_bytes(c, a));
}

#[test]
fn lex_order_on_prefixes() {
    assert!(lex_le_bytes(b"", b"x"));
    assert!(lex_le_bytes(b"ab", b"abc"));
    assert!(!lex_le_bytes(b"abc", b"ab"));
}
