use num_bigint::BigInt;
use text_encode::EncodingError;
use text_encode::alphabet::{Alphabet, default_alphabet};
use text_encode::binary_encode::{bin2num, bin_round_trip, num2bin};
use text_encode::codec::{num2str, str2num};

fn radix64_text_alphabet() -> Alphabet {
    let symbols: Vec<u8> =
        b"ABCDEFGHIJKLMNOPQRSTUVWXYZabcdefghijklmnopqrstuvwxyz0123456789+/".to_vec();
    match Alphabet::new(symbols) {
        Ok(a) => a,
        Err(_) => panic!("the radix-64 text alphabet is valid"),
    }
}

#[test]
fn alphabet_rejects_duplicate_symbol() {
    let r = Alphabet::new(vec![b'a', b'b', b'a']);
    assert!(matches!(r, Err(EncodingError::InvalidAlphabet)));
}

#[test]
fn alphabet_rejects_too_few_symbols() {
    let r = Alphabet::new(vec![b'a']);
    assert!(matches!(r, Err(EncodingError::InvalidAlphabet)));
    let r = Alphabet::new(Vec::new());
    assert!(matches!(r, Err(EncodingError::InvalidAlphabet)));
}

#[test]
fn decode_empty_is_zero_radix64_alphabet() {
    let alphabet = radix64_text_alphabet();
    let r = str2num(b"", &alphabet).unwrap();
    assert_eq!(r, BigInt::from(0u32));
}

#[test]
fn decode_empty_is_zero_default_alphabet() {
    let alphabet = default_alphabet();
    let r = str2num(b"", &alphabet).unwrap();
    assert_eq!(r, BigInt::from(0u32));
}

#[test]
fn decode_single_symbols_match_positions() {
    let alphabet = radix64_text_alphabet();
    assert_eq!(str2num(b"A", &alphabet).unwrap(), BigInt::from(0u32));
    assert_eq!(str2num(b"B", &alphabet).unwrap(), BigInt::from(1u32));
    assert_eq!(str2num(b"/", &alphabet).unwrap(), BigInt::from(63u32));
}

#[test]
fn decode_positional_exact_value() {
    // "BA/" over the radix-64 text alphabet: 1*64^2 + 0*64 + 63 = 4159.
    let alphabet = radix64_text_alphabet();
    assert_eq!(str2num(b"BA/", &alphabet).unwrap(), BigInt::from(4159u32));
}

#[test]
fn decode_of_encode_is_identity() {
    let alphabet = radix64_text_alphabet();
    let n = BigInt::from(123456789u32);
    let s = num2str(n.clone(), &alphabet);
    assert_eq!(str2num(&s, &alphabet).unwrap(), n);

    let d = default_alphabet();
    let big = BigInt::from(2u32).pow(512) + BigInt::from(12345u32);
    let s = num2str(big.clone(), &d);
    assert_eq!(str2num(&s, &d).unwrap(), big);
}

#[test]
fn encode_of_zero_is_empty() {
    let alphabet = default_alphabet();
    let s = num2str(BigInt::from(0u32), &alphabet);
    assert!(s.is_empty());
}

#[test]
fn decode_collapses_leading_zero_symbols() {
    // "AAB" and "B" denote the same value; encode reproduces only the
    // canonical spelling.
    let alphabet = radix64_text_alphabet();
    let n = str2num(b"AAB", &alphabet).unwrap();
    assert_eq!(n, BigInt::from(1u32));
    assert_eq!(num2str(n, &alphabet), b"B".to_vec());
}

#[test]
fn decode_rejects_foreign_symbol_with_position() {
    let alphabet = default_alphabet();
    // The space (0x20) is not a symbol of the default alphabet.
    let r = str2num(b"ab cd", &alphabet);
    match r {
        Err(EncodingError::InvalidSymbol { symbol, index }) => {
            assert_eq!(symbol, b' ');
            assert_eq!(index, 2);
        }
        other => panic!("expected an invalid-symbol error, got {:?}", other),
    }
}

#[test]
fn decode_rejects_radix64_symbol_missing_from_small_alphabet() {
    let alphabet = match Alphabet::new(vec![b'0', b'1']) {
        Ok(a) => a,
        Err(_) => panic!("two distinct symbols form a valid alphabet"),
    };
    let r = str2num(b"01012", &alphabet);
    match r {
        Err(EncodingError::InvalidSymbol { symbol, index }) => {
            assert_eq!(symbol, b'2');
            assert_eq!(index, 4);
        }
        other => panic!("expected an invalid-symbol error, got {:?}", other),
    }
}

#[test]
fn bin2num_exact_value_hello_world() {
    // The bridge encodes "hello world" as "aGVsbG8gd29ybGQ="; reading that
    // string over the default alphabet (base 94, digit = byte - 0x21) must
    // give exactly this independently computed value.
    let mut expected = BigInt::from(0u32);
    for &b in b"aGVsbG8gd29ybGQ=" {
        expected = expected * 94u32 + BigInt::from((b - 0x21) as u32);
    }
    let got = bin2num(b"hello world").unwrap();
    assert_eq!(got, expected);
}

#[test]
fn num2bin_error_is_malformed_encoding() {
    let r = num2bin(BigInt::from(123456789u32));
    assert!(matches!(r, Err(EncodingError::MalformedEncoding)));
}

#[test]
fn pipeline_round_trips_edge_buffers() {
    // A buffer whose printable-radix encoding starts with '0', a digit that
    // sits in the middle of the default alphabet.
    let cases: Vec<Vec<u8>> = vec![
        vec![0xD0],
        vec![0x00],
        vec![0x00, 0x00, 0x00],
        vec![0xFF, 0xFE, 0x00, 0x01],
        (0u16..=255u16).map(|b| b as u8).collect(),
    ];
    for case in cases {
        let n = bin2num(&case).unwrap();
        let back = num2bin(n).unwrap();
        assert_eq!(back, case);
        assert_eq!(bin_round_trip(&case), case);
    }
}

#[test]
fn pipeline_round_trip_empty() {
    assert_eq!(bin_round_trip(b""), Vec::<u8>::new());
    let n = bin2num(b"").unwrap();
    assert_eq!(n, BigInt::from(0u32));
    assert_eq!(num2bin(n).unwrap(), Vec::<u8>::new());
}
