use dictionary::text::{
    chars_of, check_b64_text, hex_encode, push_decimal, push_signed_decimal, read_decimal,
    read_signed_decimal, same_text, split_chars, string_of,
};

fn chars(s: &str) -> Vec<char> {
    s.chars().collect()
}

fn text(v: &Vec<char>) -> String {
    v.iter().collect()
}

#[test]
fn chars_and_strings_convert_both_ways() {
    assert_eq!(chars_of("h\u{e9}llo"), vec!['h', '\u{e9}', 'l', 'l', 'o']);
    assert_eq!(string_of(&vec!['a', '\u{4e16}', 'b']), "a\u{4e16}b");
    assert!(same_text(&chars("abc"), "abc"));
    assert!(!same_text(&chars("abc"), "abd"));
    assert!(!same_text(&chars("abc"), "ab"));
}

#[test]
fn decimal_writing() {
    let mut out = chars("n=");
    push_decimal(&mut out, 0);
    out.push(',');
    push_decimal(&mut out, 19456);
    out.push(',');
    push_decimal(&mut out, u64::MAX);
    assert_eq!(text(&out), "n=0,19456,18446744073709551615");
}

#[test]
fn signed_decimal_writing() {
    let mut out = Vec::new();
    push_signed_decimal(&mut out, i32::MIN);
    out.push(' ');
    push_signed_decimal(&mut out, -7);
    out.push(' ');
    push_signed_decimal(&mut out, 0);
    out.push(' ');
    push_signed_decimal(&mut out, i32::MAX);
    assert_eq!(text(&out), "-2147483648 -7 0 2147483647");
}

#[test]
fn decimal_reading() {
    assert_eq!(read_decimal(&chars("0"), 10), Some(0));
    assert_eq!(read_decimal(&chars("10"), 10), Some(10));
    assert_eq!(read_decimal(&chars("11"), 10), None);
    assert_eq!(read_decimal(&chars("007"), 10), None);
    assert_eq!(read_decimal(&chars("00"), 10), None);
    assert_eq!(read_decimal(&chars(""), 10), None);
    assert_eq!(read_decimal(&chars("+1"), 10), None);
    assert_eq!(read_decimal(&chars("1a"), 10), None);
    assert_eq!(read_decimal(&chars("\u{663}"), 10), None);
    assert_eq!(read_decimal(&chars("18446744073709551615"), u64::MAX), Some(u64::MAX));
    assert_eq!(read_decimal(&chars("18446744073709551616"), u64::MAX), None);
    assert_eq!(read_decimal(&chars("99999999999999999999999"), u64::MAX), None);
    assert_eq!(read_decimal(&chars("4294967295"), 4294967295), Some(4294967295));
    assert_eq!(read_decimal(&chars("4294967296"), 4294967295), None);
    assert_eq!(read_decimal(&chars("5"), 3), None);
}

#[test]
fn signed_decimal_reading() {
    assert_eq!(read_signed_decimal(&chars("-2147483648")), Some(i32::MIN));
    assert_eq!(read_signed_decimal(&chars("-2147483649")), None);
    assert_eq!(read_signed_decimal(&chars("2147483647")), Some(i32::MAX));
    assert_eq!(read_signed_decimal(&chars("2147483648")), None);
    assert_eq!(read_signed_decimal(&chars("-0")), None);
    assert_eq!(read_signed_decimal(&chars("-")), None);
    assert_eq!(read_signed_decimal(&chars("--1")), None);
    assert_eq!(read_signed_decimal(&chars("-01")), None);
    assert_eq!(read_signed_decimal(&chars("0")), Some(0));
    assert_eq!(read_signed_decimal(&chars("-15")), Some(-15));
}

#[test]
fn hexadecimal_writing() {
    assert_eq!(text(&hex_encode(&vec![])), "");
    assert_eq!(text(&hex_encode(&vec![0x00, 0x0f, 0xa0, 0xff, 0x9a])), "000fa0ff9a");
}

#[test]
fn splitting() {
    let parts = |s: &str, d: char| -> Vec<String> {
        split_chars(&chars(s), d).iter().map(text).collect()
    };
    assert_eq!(parts("", '.'), vec![""]);
    assert_eq!(parts("abc", '.'), vec!["abc"]);
    assert_eq!(parts("a.b", '.'), vec!["a", "b"]);
    assert_eq!(parts(".a..b.", '.'), vec!["", "a", "", "b", ""]);
    assert_eq!(parts("$x$y", '$'), vec!["", "x", "y"]);
}

#[test]
fn salt_alphabet() {
    assert!(check_b64_text(&chars("AZaz09+/")));
    assert!(!check_b64_text(&chars("")));
    assert!(!check_b64_text(&chars("abc=")));
    assert!(!check_b64_text(&chars("ab-c")));
    assert!(!check_b64_text(&chars("ab$c")));
}
