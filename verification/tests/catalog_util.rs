use starstuff_types::number::Decimal;
use starstuff_types::catalog::util::{
    byte_is_digit, byte_is_space, clip_bounds, field_bytes, parse_decimal, parse_number,
    parse_trim_decimal,
    parse_trim_string, parse_trim_usize, parse_unsigned, split_positions,
};

fn float(d: Decimal) -> f64 {
    let magnitude = d.mantissa as f64 / 10f64.powi(d.scale as i32);
    if d.negative {
        -magnitude
    } else {
        magnitude
    }
}

#[test]
fn byte_classes() {
    for b in 0..=255u8 {
        assert_eq!(byte_is_digit(b), (b as char).is_ascii_digit());
        assert_eq!(byte_is_space(b), b < 128 && (b as char).is_whitespace());
    }
}

#[test]
fn trimming_agrees_with_std() {
    for text in ["", " ", "   ", "a", " a", "a ", "  a b  ", "\t\n a\r\x0b\x0c", "ab", " τ "] {
        assert_eq!(field_bytes(text.as_bytes(), 0, text.len()), text.trim().as_bytes());
    }
    assert_eq!(field_bytes(b"  ab  cd  ", 1, 7), b"ab  c");
    assert_eq!(field_bytes(b"  ab  cd  ", 1, 6), b"ab");
    assert_eq!(field_bytes(b"  ab  cd  ", 4, 6), b"");
    assert_eq!(field_bytes(b"abcd", 2, 2), b"");
    assert_eq!(field_bytes(b"abcd", 2, 100), b"cd");
    assert_eq!(field_bytes(b"abcd", 7, 100), b"");
    assert_eq!(field_bytes(b"abcd", 3, 1), b"");
}

#[test]
fn clipping() {
    assert_eq!(clip_bounds(10, 2, 5), (2, 5));
    assert_eq!(clip_bounds(10, 8, 15), (8, 10));
    assert_eq!(clip_bounds(10, 12, 15), (10, 10));
    assert_eq!(clip_bounds(10, 7, 3), (3, 3));
    assert_eq!(clip_bounds(0, 0, 4), (0, 0));
}

#[test]
fn unsigned_agrees_with_std() {
    for text in [
        "", "0", "7", "007", "+7", "+", "-7", "-0", "12a", "a12", " 12", "12 ", "1_000",
        "18446744073709551615", "18446744073709551616", "99999999999999999999", "++1", "+-1",
        "4294967295", "4294967296", "١٢",
    ] {
        assert_eq!(
            parse_unsigned(text.as_bytes(), u64::MAX),
            text.parse::<u64>().ok(),
            "{:?}",
            text
        );
        assert_eq!(
            parse_unsigned(text.as_bytes(), u32::MAX as u64),
            text.parse::<u32>().ok().map(u64::from),
            "{:?}",
            text
        );
    }
    assert_eq!(parse_unsigned(b"59", 59), Some(59));
    assert_eq!(parse_unsigned(b"60", 59), None);
    assert_eq!(parse_unsigned(b"5", 0), None);
    assert_eq!(parse_unsigned(b"0", 0), Some(0));
}

#[test]
fn decimal_values() {
    let d = |negative, mantissa, scale| Some(Decimal { negative, mantissa, scale });
    assert_eq!(parse_decimal(b"0"), d(false, 0, 0));
    assert_eq!(parse_decimal(b"-0"), d(true, 0, 0));
    assert_eq!(parse_decimal(b"+0.0"), d(false, 0, 1));
    assert_eq!(parse_decimal(b"5.50"), d(false, 550, 2));
    assert_eq!(parse_decimal(b"-18.36"), d(true, 1836, 2));
    assert_eq!(parse_decimal(b"000.00091185"), d(false, 91185, 8));
    assert_eq!(parse_decimal(b"5."), d(false, 5, 0));
    assert_eq!(parse_decimal(b".5"), d(false, 5, 1));
    assert_eq!(parse_decimal(b"-.25"), d(true, 25, 2));
    assert_eq!(parse_decimal(b"18446744073709551615"), d(false, u64::MAX, 0));
    assert_eq!(parse_decimal(b"1844674407370955.1615"), d(false, u64::MAX, 4));
    assert_eq!(parse_decimal(b"0.12345678901234567"), d(false, 12345678901234567, 17));
}

#[test]
fn decimal_rejects() {
    for text in [
        "", "+", "-", ".", "-.", "1.2.3", "1,5", "1e5", "1.5e3", "inf", "nan", " 1", "1 ", "--1",
        "0x10", "18446744073709551616", "1844674407370955161.6", "0.123456789012345678",
        "1_0", "１",
    ] {
        assert_eq!(parse_decimal(text.as_bytes()), None, "{:?}", text);
    }
}

#[test]
fn numbers_with_exponents() {
    let d = |negative, mantissa, scale| Some(Decimal { negative, mantissa, scale });
    assert_eq!(parse_number(b"1e5"), d(false, 100_000, 0));
    assert_eq!(parse_number(b"1.5e3"), d(false, 1500, 0));
    assert_eq!(parse_number(b"1.5E-3"), d(false, 15, 4));
    assert_eq!(parse_number(b"-1.25e+1"), d(true, 125, 1));
    assert_eq!(parse_number(b"2.50e2"), d(false, 250, 0));
    assert_eq!(parse_number(b"2.50e1"), d(false, 250, 1));
    assert_eq!(parse_number(b"7e0"), d(false, 7, 0));
    assert_eq!(parse_number(b"7e-0"), d(false, 7, 0));
    assert_eq!(parse_number(b"-0e30"), d(true, 0, 0));
    assert_eq!(parse_number(b".5e1"), d(false, 5, 0));
    assert_eq!(parse_number(b"1e19"), d(false, 10_000_000_000_000_000_000, 0));
    assert_eq!(parse_number(b"1e-17"), d(false, 1, 17));
    assert_eq!(parse_number(b"0.001e007"), d(false, 10_000, 0));
    // Without an exponent a number is a plain decimal.
    assert_eq!(parse_number(b"5.50"), d(false, 550, 2));
    assert_eq!(parse_number(b"-.25"), d(true, 25, 2));
    for text in [
        "", "e5", "1e", "1e+", "1e-", "1e+-5", "1e-+5", "1e5e2", "1e5.0", "1e 5", "1ee5", "e",
        "2e19", "1e20", "1e99", "1e100", "1e-18", "0.5e-17", "inf", "nan", "1.2.3e1", "0x1e5",
    ] {
        assert_eq!(parse_number(text.as_bytes()), None, "{:?}", text);
    }
}

#[test]
fn numbers_agree_with_std() {
    for text in [
        "1e5", "1.5e3", "1.5E-3", "-1.25e+1", "2.50e2", "7e0", ".5e1", "1e19", "1e-17", "114.44",
        "0.001e007", "-18.36",
    ] {
        let mine = float(parse_number(text.as_bytes()).unwrap());
        let std: f64 = text.parse().unwrap();
        assert_eq!(mine.to_bits(), std.to_bits(), "{:?}", text);
    }
}

#[test]
fn decimal_agrees_with_std_on_plain_numbers() {
    for text in [
        "0", "-0", "0.0", "5.50", "-18.36", "0.0046977187", "-0.8518927495", "04.5982692",
        "35.492919", "114.44", "000.00091185", "+01.08901332", "9.2043", "5.", ".5", "-.25",
        "1234567890.123456", "0.911",
    ] {
        let mine = float(parse_decimal(text.as_bytes()).unwrap());
        let std: f64 = text.parse().unwrap();
        assert_eq!(mine.to_bits(), std.to_bits(), "{:?}", text);
    }
}

#[test]
fn fields_of_a_line() {
    let line = "  12 +3.5   ab  ";
    let bytes = line.as_bytes();
    assert_eq!(parse_trim_usize(bytes, 0, 4), Some(12));
    assert_eq!(parse_trim_usize(bytes, 0, 3), Some(1));
    assert_eq!(parse_trim_usize(bytes, 4, 9), None);
    assert_eq!(parse_trim_usize(bytes, 9, 12), None);
    assert_eq!(parse_trim_decimal(bytes, 4, 9), Some(Decimal { negative: false, mantissa: 35, scale: 1 }));
    assert_eq!(parse_trim_decimal(bytes, 0, 4), Some(Decimal { negative: false, mantissa: 12, scale: 0 }));
    assert_eq!(parse_trim_decimal(bytes, 9, 12), None);
    assert_eq!(
        parse_trim_decimal(b"x 2.5e-2 y", 1, 9),
        Some(Decimal { negative: false, mantissa: 25, scale: 3 })
    );
    assert_eq!(parse_trim_string(line, 9, 16), Some(String::from("ab")));
    assert_eq!(parse_trim_string(line, 9, 12), None);
    assert_eq!(parse_trim_string(line, 0, 16), Some(String::from("12 +3.5   ab")));
    // Beyond the end of the line there is nothing.
    assert_eq!(parse_trim_string(line, 12, 40), Some(String::from("ab")));
    assert_eq!(parse_trim_string(line, 20, 40), None);
    assert_eq!(parse_trim_usize(bytes, 20, 40), None);
    assert_eq!(parse_trim_usize(bytes, 2, 100), None);
    assert_eq!(parse_trim_usize(b"   42", 0, 100), Some(42));
    assert_eq!(parse_trim_usize(b"99999999999999999999999", 0, 30), None);
}

#[test]
fn text_that_is_cut_inside_a_character() {
    let line = "aτb";
    assert_eq!(parse_trim_string(line, 0, 4), Some(String::from("aτb")));
    assert_eq!(parse_trim_string(line, 1, 3), Some(String::from("τ")));
    assert_eq!(parse_trim_string(line, 0, 2), None);
    assert_eq!(parse_trim_string(line, 2, 4), None);
}

#[test]
fn splitting() {
    assert_eq!(split_positions(b"a|b||c", b'|'), vec![1, 3, 4]);
    assert_eq!(split_positions(b"", b'|'), Vec::<usize>::new());
    assert_eq!(split_positions(b"|", b'|'), vec![0]);
    assert_eq!(split_positions(b"abc", b'|'), Vec::<usize>::new());
    let line = b"a|bc||d";
    let mut cuts: Vec<usize> = split_positions(line, b'|');
    cuts.push(line.len());
    let mut start = 0;
    let mut pieces: Vec<&[u8]> = Vec::new();
    for cut in cuts {
        pieces.push(&line[start..cut]);
        start = cut + 1;
    }
    let expected: Vec<&[u8]> = line.split(|b| *b == b'|').collect();
    assert_eq!(pieces, expected);
}
