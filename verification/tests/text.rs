use localsend_cli::text::{
    before_sep, chars_of, contains, field_after_sep, parse_number_exec, same_text, starts_with,
    string_from, trim, word_two, NumberError,
};

fn c(s: &str) -> Vec<char> {
    s.chars().collect()
}

fn s(v: &[char]) -> String {
    v.iter().collect()
}

#[test]
fn chars_round_trip() {
    let v = chars_of("héllo\r\n");
    assert_eq!(v, c("héllo\r\n"));
    assert_eq!(string_from(&v), "héllo\r\n");
}

#[test]
fn trimming() {
    assert_eq!(s(&trim(&c("  12 \r\n"))), "12");
    assert_eq!(s(&trim(&c("\u{3000}x y\u{a0}"))), "x y");
    assert_eq!(s(&trim(&c(" \t "))), "");
    assert_eq!(s(&trim(&c(""))), "");
}

#[test]
fn words_and_fields() {
    assert_eq!(word_two(&c("HTTP/1.1 200 OK\r\n")).map(|w| s(&w)), Some("200".to_string()));
    assert_eq!(word_two(&c("  a\t\tb  c")).map(|w| s(&w)), Some("b".to_string()));
    assert_eq!(word_two(&c("HTTP/1.1\r\n")), None);
    assert_eq!(field_after_sep(&c("Content-Length: 5\r\n"), ':').map(|f| s(&f)), Some(" 5\r\n".to_string()));
    assert_eq!(field_after_sep(&c("a:b:c"), ':').map(|f| s(&f)), Some("b".to_string()));
    assert_eq!(field_after_sep(&c("abc"), ':'), None);
    assert_eq!(s(&before_sep(&c("1a;name=x\r\n"), ';')), "1a");
    assert_eq!(s(&before_sep(&c("1a\r\n"), ';')), "1a\r\n");
}

#[test]
fn searching() {
    assert!(contains(&c("transfer-encoding: chunked"), &c("chunked")));
    assert!(!contains(&c("chunk"), &c("chunked")));
    assert!(contains(&c("x"), &c("")));
    assert!(starts_with(&c("Content-Length: 1"), &c("Content-Length")));
    assert!(!starts_with(&c("content-length: 1"), &c("Content-Length")));
    assert!(same_text(&c("abc"), &c("abc")));
    assert!(!same_text(&c("abc"), &c("abd")));
}

#[test]
fn parsing_numbers_like_std() {
    let cases = [
        "", "+", "-", "0", "42", "+42", "-42", "007", "4x2", "18446744073709551615",
        "18446744073709551616", "99999999999999999999x", "1x99999999999999999999", " 1", "1 ",
        "٣",
    ];
    for case in cases {
        let mine = parse_number_exec(&c(case), 10);
        let std = case.parse::<usize>();
        match (mine, std) {
            (Ok(a), Ok(b)) => assert_eq!(a, b, "{:?}", case),
            (Err(e), Err(f)) => {
                let kind = match e {
                    NumberError::Empty => std::num::IntErrorKind::Empty,
                    NumberError::InvalidDigit => std::num::IntErrorKind::InvalidDigit,
                    NumberError::PosOverflow => std::num::IntErrorKind::PosOverflow,
                };
                assert_eq!(&kind, f.kind(), "{:?}", case);
            }
            (a, b) => panic!("{:?}: {:?} but std gives {:?}", case, a, b),
        }
    }
}

#[test]
fn parsing_hex_numbers() {
    assert_eq!(parse_number_exec(&c("1a"), 16), Ok(26));
    assert_eq!(parse_number_exec(&c("FFff"), 16), Ok(0xffff));
    assert_eq!(parse_number_exec(&c("0"), 16), Ok(0));
    assert_eq!(parse_number_exec(&c("g"), 16), Err(NumberError::InvalidDigit));
    assert_eq!(parse_number_exec(&c("1ffffffffffffffff"), 16), Err(NumberError::PosOverflow));
    assert_eq!(parse_number_exec(&c(""), 16), Err(NumberError::Empty));
}
