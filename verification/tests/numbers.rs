use dbase::digits::{decimal_len, parse_u32, push_decimal, push_zero_padded};
use dbase::numeric::{check_decimal_literal, check_places};
use dbase::{Binary64, Decimal};

#[test]
fn unsigned_numbers_are_parsed() {
    assert_eq!(parse_u32(b"0"), Some(0));
    assert_eq!(parse_u32(b"007"), Some(7));
    assert_eq!(parse_u32(b"+42"), Some(42));
    assert_eq!(parse_u32(b"4294967295"), Some(u32::MAX));
    assert_eq!(parse_u32(b"0000000004294967295"), Some(u32::MAX));
    assert_eq!(parse_u32(b"4294967296"), None);
    assert_eq!(parse_u32(b"99999999999999999999999"), None);
    assert_eq!(parse_u32(b""), None);
    assert_eq!(parse_u32(b"+"), None);
    assert_eq!(parse_u32(b"-1"), None);
    assert_eq!(parse_u32(b"++1"), None);
    assert_eq!(parse_u32(b" 1"), None);
    assert_eq!(parse_u32(b"1 "), None);
    assert_eq!(parse_u32(b"12a"), None);
    assert_eq!(parse_u32(b"99999999999999999999999x"), None);
}

#[test]
fn unsigned_numbers_are_parsed_as_the_standard_library_does() {
    for text in ["0", "+0", "-0", "12", "+", "", "4294967295", "4294967296", "1e3", "0x10", "٣"] {
        assert_eq!(parse_u32(text.as_bytes()), text.parse::<u32>().ok(), "{}", text);
    }
}

#[test]
fn numbers_are_written_in_decimal() {
    let mut out = Vec::new();
    push_decimal(&mut out, 0);
    push_decimal(&mut out, 9);
    push_decimal(&mut out, 10);
    push_decimal(&mut out, u32::MAX);
    assert_eq!(out, b"09104294967295".to_vec());
    assert_eq!(decimal_len(0), 1);
    assert_eq!(decimal_len(99), 2);
    assert_eq!(decimal_len(100), 3);
    assert_eq!(decimal_len(u32::MAX), 10);
    let mut out = Vec::new();
    push_zero_padded(&mut out, 7, 4);
    push_zero_padded(&mut out, 12345, 4);
    push_zero_padded(&mut out, 0, 0);
    assert_eq!(out, b"0007123450".to_vec());
}

#[test]
fn decimal_literals_are_those_of_the_standard_library() {
    let texts = [
        "0", "32", "32.0", "-3.14", "+3.14", "2.5E10", "2.5e-10", "2.5e+10", "5.", ".5", "-.5",
        "inf", "-inf", "+infinity", "NaN", "nan", "INF", "Infinity", "iNf", "1e5", "1E5",
        "", ".", "-", "+", "e5", ".e5", "1e", "1e+", "1e-", "1e5.0", "1.2.3", "--1", "+-1",
        "1 ", " 1", "1,5", "0x10", "infinit", "infinityy", "na", "nanx", "1_000", "١", "1e5e5",
        "*", "***", "1d5", "5.e3", ".5e3", "-5.e-3", "00.00", "+.e1", "1.e", "in", "-nan",
    ];
    for text in texts {
        assert_eq!(
            check_decimal_literal(text.as_bytes()),
            text.parse::<f64>().is_ok(),
            "{:?}",
            text
        );
        assert_eq!(
            Decimal::from_ascii(text.as_bytes()).is_some(),
            text.parse::<f32>().is_ok(),
            "{:?}",
            text
        );
    }
}

#[test]
fn formatted_floats_fit_their_places() {
    let numbers = [0.0f64, -0.0, 32.0, -1.5, 1e21, 1e-7, 123456.789, f64::MAX, f64::MIN_POSITIVE];
    for number in numbers {
        for places in [0u8, 1, 2, 10] {
            let text = format!("{:.*}", places as usize, number);
            assert!(check_decimal_literal(text.as_bytes()), "{}", text);
            assert!(check_places(text.as_bytes(), places), "{}", text);
            assert!(!check_places(text.as_bytes(), places + 1), "{}", text);
        }
    }
    for number in [f64::NAN, f64::INFINITY, f64::NEG_INFINITY] {
        let text = format!("{:.3}", number);
        assert!(check_decimal_literal(text.as_bytes()), "{}", text);
        assert!(check_places(text.as_bytes(), 3), "{}", text);
    }
}

#[test]
fn places_of_a_literal() {
    assert!(check_places(b"12", 0));
    assert!(check_places(b"12.", 0));
    assert!(check_places(b"-12.50", 2));
    assert!(check_places(b"+.5", 1));
    assert!(!check_places(b"12", 1));
    assert!(!check_places(b"12.5", 0));
    assert!(!check_places(b"12.5e0", 1));
    assert!(!check_places(b"abc", 0));
    assert!(!check_places(b"", 0));
    let number = Decimal::from_ascii(b"7.25").unwrap();
    assert!(number.fits_places(2));
    assert!(!number.fits_places(3));
    assert_eq!(number.clone(), number);
}

#[test]
fn binary64_is_its_bits() {
    let number = Binary64::from_bits(0x4040_4000_0000_0000);
    assert_eq!(number.to_bits(), 0x4040_4000_0000_0000);
    assert_eq!(f64::from_bits(number.to_bits()), 32.5);
    assert_eq!(number.to_le_bytes(), 32.5f64.to_le_bytes());
    assert_eq!(Binary64::from_le_bytes(&32.5f64.to_le_bytes()), number);
    let bytes = [1u8, 2, 3, 4, 5, 6, 7, 8, 9];
    assert_eq!(Binary64::from_le_bytes(&bytes).to_bits(), 0x0807_0605_0403_0201);
}
