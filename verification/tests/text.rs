use arrow2::text::{
    chars_are, chars_eq, chars_lt, chars_of, parse_i32, parse_usize, push_decimal,
    push_decimal_i32, split_chars, string_of,
};

fn chars(s: &str) -> Vec<char> {
    s.chars().collect()
}

#[test]
fn characters_of_text_and_back() {
    assert_eq!(chars_of("a€b"), vec!['a', '€', 'b']);
    assert_eq!(chars_of(""), Vec::<char>::new());
    assert_eq!(string_of(&['t', 's', ':']), "ts:");
    assert!(chars_are(&chars("tdD"), "tdD"));
    assert!(!chars_are(&chars("tdD"), "tdm"));
    assert!(!chars_are(&chars("td"), "tdD"));
    assert!(chars_eq(&chars(""), &chars("")));
}

#[test]
fn order_of_texts() {
    assert!(chars_lt(&chars("a"), &chars("b")));
    assert!(!chars_lt(&chars("b"), &chars("a")));
    assert!(!chars_lt(&chars("a"), &chars("a")));
    assert!(chars_lt(&chars(""), &chars("a")));
    assert!(chars_lt(&chars("a"), &chars("aa")));
    assert!(!chars_lt(&chars("aa"), &chars("a")));
    assert!(chars_lt(&chars("Z"), &chars("a")));
    assert!(chars_lt(&chars("z"), &chars("é")));
    assert!(chars_lt(&chars("ab"), &chars("b")));
}

#[test]
fn numerals() {
    let mut s = String::new();
    push_decimal(&mut s, 0);
    s.push(',');
    push_decimal(&mut s, 7);
    s.push(',');
    push_decimal(&mut s, 1203);
    s.push(',');
    push_decimal(&mut s, u64::MAX);
    assert_eq!(s, "0,7,1203,18446744073709551615");
    let mut s = "x".to_string();
    push_decimal_i32(&mut s, -45);
    push_decimal_i32(&mut s, 0);
    push_decimal_i32(&mut s, i32::MIN);
    push_decimal_i32(&mut s, i32::MAX);
    assert_eq!(s, "x-450-21474836482147483647");
}

#[test]
fn reading_unsigned_numbers() {
    assert_eq!(parse_usize(&chars("0")), Some(0));
    assert_eq!(parse_usize(&chars("128")), Some(128));
    assert_eq!(parse_usize(&chars("+128")), Some(128));
    assert_eq!(parse_usize(&chars("000128")), Some(128));
    assert_eq!(parse_usize(&chars("")), None);
    assert_eq!(parse_usize(&chars("+")), None);
    assert_eq!(parse_usize(&chars("-1")), None);
    assert_eq!(parse_usize(&chars("-0")), None);
    assert_eq!(parse_usize(&chars("1 ")), None);
    assert_eq!(parse_usize(&chars("1a")), None);
    assert_eq!(parse_usize(&chars("++1")), None);
    assert_eq!(parse_usize(&chars("١")), None);
    assert_eq!(
        parse_usize(&chars(&usize::MAX.to_string())),
        Some(usize::MAX)
    );
    assert_eq!(parse_usize(&chars("18446744073709551616")), None);
    assert_eq!(parse_usize(&chars("99999999999999999999999")), None);
    for text in ["0", "+7", "007", "x", "", "+", "-3", "4294967296"] {
        assert_eq!(parse_usize(&chars(text)), text.parse::<usize>().ok(), "{}", text);
    }
}

#[test]
fn reading_signed_numbers() {
    assert_eq!(parse_i32(&chars("0")), Some(0));
    assert_eq!(parse_i32(&chars("-0")), Some(0));
    assert_eq!(parse_i32(&chars("+12")), Some(12));
    assert_eq!(parse_i32(&chars("-12")), Some(-12));
    assert_eq!(parse_i32(&chars("2147483647")), Some(i32::MAX));
    assert_eq!(parse_i32(&chars("2147483648")), None);
    assert_eq!(parse_i32(&chars("-2147483648")), Some(i32::MIN));
    assert_eq!(parse_i32(&chars("-2147483649")), None);
    assert_eq!(parse_i32(&chars("-")), None);
    assert_eq!(parse_i32(&chars("+-1")), None);
    assert_eq!(parse_i32(&chars("--1")), None);
    assert_eq!(parse_i32(&chars("")), None);
    for text in ["0", "-7", "+7", "x", "", "+", "-", "1.5", "-2147483648", "3000000000"] {
        assert_eq!(parse_i32(&chars(text)), text.parse::<i32>().ok(), "{}", text);
    }
}

#[test]
fn splitting() {
    let parts = |s: &str, sep: char| -> Vec<String> {
        split_chars(&chars(s), sep)
            .iter()
            .map(|p| p.iter().collect())
            .collect()
    };
    assert_eq!(parts("a:b", ':'), vec!["a", "b"]);
    assert_eq!(parts("", ':'), vec![""]);
    assert_eq!(parts("a", ':'), vec!["a"]);
    assert_eq!(parts("a:", ':'), vec!["a", ""]);
    assert_eq!(parts(":a", ':'), vec!["", "a"]);
    assert_eq!(parts("::", ':'), vec!["", "", ""]);
    assert_eq!(parts("tss:+01:00", ':'), vec!["tss", "+01", "00"]);
    assert_eq!(parts("1,2,3", ','), vec!["1", "2", "3"]);
    for text in ["", "a", ":", "a:b:c", "::a::"] {
        let expected: Vec<String> = text.split(':').map(|p| p.to_string()).collect();
        assert_eq!(parts(text, ':'), expected);
    }
}
