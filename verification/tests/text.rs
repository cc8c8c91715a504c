use emily::text::{copy, is, put, put_decimal, put_lit, put_signed, read_number, same, search, space, split, trim};

#[test]
fn whitespace_is_space_and_the_five_controls() {
    for b in 0u8..=255 {
        assert_eq!(space(b), b == b' ' || (9..=13).contains(&b));
    }
}

#[test]
fn same_compares_bytes() {
    assert!(same(b"abc", b"abc"));
    assert!(!same(b"abc", b"abd"));
    assert!(!same(b"abc", b"ab"));
    assert!(same(b"", b""));
    assert!(is(b"score", "score"));
    assert!(!is(b"scores", "score"));
}

#[test]
fn put_appends() {
    let mut out = b"ab".to_vec();
    put(&mut out, b"cd");
    put_lit(&mut out, "ef");
    assert_eq!(out, b"abcdef".to_vec());
    assert_eq!(copy(b"abcdef", 1, 4), b"bcd".to_vec());
    assert_eq!(copy(b"abcdef", 2, 2), Vec::<u8>::new());
}

#[test]
fn trim_cuts_both_ends() {
    assert_eq!(trim(b"  a b \t\r\n"), b"a b");
    assert_eq!(trim(b"a"), b"a");
    assert_eq!(trim(b" \t "), b"");
    assert_eq!(trim(b""), b"");
    assert_eq!(trim(b"\x0b\x0cx\x0b"), b"x");
}

#[test]
fn split_gives_the_words() {
    assert_eq!(split(b" depth  1\tscore cp 0 "), vec![
        b"depth".to_vec(),
        b"1".to_vec(),
        b"score".to_vec(),
        b"cp".to_vec(),
        b"0".to_vec(),
    ]);
    assert_eq!(split(b""), Vec::<Vec<u8>>::new());
    assert_eq!(split(b"   "), Vec::<Vec<u8>>::new());
    assert_eq!(split(b"one"), vec![b"one".to_vec()]);
}

#[test]
fn search_finds_the_first_place() {
    assert_eq!(search(b"a string b string c", b" string "), Some(1));
    assert_eq!(search(b"abc", b"abc"), Some(0));
    assert_eq!(search(b"abc", b"c"), Some(2));
    assert_eq!(search(b"abc", b"d"), None);
    assert_eq!(search(b"ab", b"abc"), None);
    assert_eq!(search(b"abc", b""), Some(0));
    assert_eq!(search(b"", b""), Some(0));
    assert_eq!(search(b"aab", b"ab"), Some(1));
}

#[test]
fn decimal_digits() {
    let mut out = Vec::new();
    put_decimal(&mut out, 0);
    out.push(b' ');
    put_decimal(&mut out, 7);
    out.push(b' ');
    put_decimal(&mut out, 10);
    out.push(b' ');
    put_decimal(&mut out, 1203);
    out.push(b' ');
    put_decimal(&mut out, u64::MAX);
    assert_eq!(out, b"0 7 10 1203 18446744073709551615".to_vec());
}

#[test]
fn signed_decimal_digits() {
    let mut out = Vec::new();
    put_signed(&mut out, 0);
    out.push(b' ');
    put_signed(&mut out, -1);
    out.push(b' ');
    put_signed(&mut out, 42);
    out.push(b' ');
    put_signed(&mut out, i64::MIN);
    assert_eq!(out, b"0 -1 42 -9223372036854775808".to_vec());
}

#[test]
fn numbers_are_read_as_rust_reads_them() {
    assert_eq!(read_number(b"0", 0, 255), Some(0));
    assert_eq!(read_number(b"255", 0, 255), Some(255));
    assert_eq!(read_number(b"256", 0, 255), None);
    assert_eq!(read_number(b"+5", 0, 255), Some(5));
    assert_eq!(read_number(b"-5", 0, 255), None);
    assert_eq!(read_number(b"-0", 0, 255), None);
    assert_eq!(read_number(b"-0", -128, 127), Some(0));
    assert_eq!(read_number(b"007", 0, 255), Some(7));
    assert_eq!(read_number(b"", 0, 255), None);
    assert_eq!(read_number(b"+", 0, 255), None);
    assert_eq!(read_number(b"-", -128, 127), None);
    assert_eq!(read_number(b"1a", 0, 255), None);
    assert_eq!(read_number(b" 1", 0, 255), None);
    assert_eq!(read_number(b"-128", -128, 127), Some(-128));
    assert_eq!(read_number(b"-129", -128, 127), None);
    assert_eq!(read_number(b"127", -128, 127), Some(127));
    assert_eq!(read_number(b"128", -128, 127), None);
    assert_eq!(read_number(b"-32768", -32768, 32767), Some(-32768));
    assert_eq!(read_number(b"32767", -32768, 32767), Some(32767));
    assert_eq!(read_number(b"32768", -32768, 32767), None);
    assert_eq!(read_number(b"99999999999999999999999999", -32768, 32767), None);
    assert_eq!(read_number(b"00000000000000000000000012", -32768, 32767), Some(12));
}

#[test]
fn numbers_agree_with_the_standard_parser() {
    let words: [&str; 14] = [
        "0", "1", "-1", "+1", "255", "256", "-0", "+0", "", "+", "-", "12x", "0012", "-00128",
    ];
    for w in words {
        assert_eq!(read_number(w.as_bytes(), 0, 255), w.parse::<u8>().ok().map(i64::from));
        assert_eq!(read_number(w.as_bytes(), -128, 127), w.parse::<i8>().ok().map(i64::from));
        assert_eq!(read_number(w.as_bytes(), -32768, 32767), w.parse::<i16>().ok().map(i64::from));
    }
}

#[test]
fn numbers_are_read_within_any_bounds() {
    assert_eq!(read_number(b"5", 1, 9), Some(5));
    assert_eq!(read_number(b"0", 1, 9), None);
    assert_eq!(read_number(b"10", 1, 9), None);
    assert_eq!(read_number(b"-5", 1, 9), None);
    assert_eq!(read_number(b"-5", -9, -1), Some(-5));
    assert_eq!(read_number(b"-0", -9, -1), None);
    assert_eq!(read_number(b"5", -9, -1), None);
    assert_eq!(read_number(b"0", -9, -1), None);
    assert_eq!(read_number(b"7", 9, 1), None);
    assert_eq!(read_number(b"9223372036854775807", i64::MIN, i64::MAX), Some(i64::MAX));
    assert_eq!(read_number(b"9223372036854775808", i64::MIN, i64::MAX), None);
    assert_eq!(read_number(b"-9223372036854775808", i64::MIN, i64::MAX), Some(i64::MIN));
    assert_eq!(read_number(b"-9223372036854775809", i64::MIN, i64::MAX), None);
    assert_eq!(read_number(b"+9223372036854775807", 0, i64::MAX), Some(i64::MAX));
    assert_eq!(read_number(b"340282366920938463463374607431768211456", i64::MIN, i64::MAX), None);
    for w in ["0", "-1", "1", "-9223372036854775808", "9223372036854775807", "99999999999999999999", "x"] {
        assert_eq!(read_number(w.as_bytes(), i64::MIN, i64::MAX), w.parse::<i64>().ok());
    }
}
