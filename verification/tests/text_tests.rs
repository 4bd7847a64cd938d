use a2l_editor::number::{is_numeric, push_decimal, push_number, read_address, read_hex};
use a2l_editor::text::{
    chars_of, ends_with, find, has_substring, is_ws, lowered, rfind, split_lines, split_tokens,
    starts_with, string_of, trimmed,
};

fn chars(s: &str) -> Vec<char> {
    s.chars().collect()
}

fn strings(v: Vec<Vec<char>>) -> Vec<String> {
    v.into_iter().map(|l| l.into_iter().collect()).collect()
}

#[test]
fn chars_and_strings_round_trip() {
    for s in ["", "a", "héllo wörld", "tab\there", "日本語"] {
        assert_eq!(chars_of(s), chars(s));
        assert_eq!(string_of(&chars(s)), s);
    }
}

#[test]
fn white_space_is_the_unicode_property() {
    let mut c: u32 = 0;
    while c <= 0x3100 {
        if let Some(ch) = char::from_u32(c) {
            assert_eq!(is_ws(ch), ch.is_whitespace(), "U+{:04X}", c);
        }
        c += 1;
    }
    assert!(!is_ws('\u{FEFF}'));
    assert!(!is_ws('\u{10FFFF}'));
}

#[test]
fn trimmed_agrees_with_trim() {
    for s in ["", "   ", "abc", "  abc", "abc  ", " \t a b \r\n", "\u{a0}x\u{3000}", " a\u{2028}"] {
        assert_eq!(string_of(&trimmed(&chars(s))), s.trim(), "{:?}", s);
    }
}

#[test]
fn lines_agree_with_str_lines() {
    for s in [
        "",
        "\n",
        "a",
        "a\n",
        "a\nb",
        "a\r\nb\r\n",
        "a\rb\n",
        "a\r",
        "a\r\r\n",
        "\r\n",
        "\n\n",
        "x\n\ny\n",
        "last line without end",
    ] {
        let expected: Vec<String> = s.lines().map(|l| l.to_string()).collect();
        assert_eq!(strings(split_lines(&chars(s))), expected, "{:?}", s);
    }
}

#[test]
fn tokens_agree_with_split_whitespace() {
    for s in ["", "   ", "a", " a  b\tc ", "/begin MEASUREMENT x \"\"", "a\u{a0}b", "\ta\n"] {
        let expected: Vec<String> = s.split_whitespace().map(|l| l.to_string()).collect();
        assert_eq!(strings(split_tokens(&chars(s))), expected, "{:?}", s);
    }
}

#[test]
fn searching_agrees_with_str_find() {
    let cases = [
        ("", ""),
        ("abc", ""),
        ("", "a"),
        ("abcabc", "bc"),
        ("abcabc", "abc"),
        ("abcabc", "cab"),
        ("abcabc", "x"),
        ("aaa", "aa"),
        ("/end MEASUREMENT\n/end MEASUREMENT", "/end MEASUREMENT"),
    ];
    for (s, p) in cases {
        assert_eq!(find(&chars(s), &chars(p)), s.find(p), "{:?} {:?}", s, p);
        assert_eq!(rfind(&chars(s), &chars(p)), s.rfind(p), "{:?} {:?}", s, p);
        assert_eq!(has_substring(&chars(s), &chars(p)), s.contains(p));
        assert_eq!(starts_with(&chars(s), &chars(p)), s.starts_with(p));
        assert_eq!(ends_with(&chars(s), &chars(p)), s.ends_with(p));
    }
}

#[test]
fn lowered_is_the_lower_case_form() {
    assert_eq!(string_of(&lowered("Speed_U8")), "speed_u8");
    assert_eq!(string_of(&lowered("ÄÖÜ")), "äöü");
    assert_eq!(string_of(&lowered("already")), "already");
}

#[test]
fn numbers_are_rendered_like_format() {
    for n in [0u64, 1, 9, 10, 255, 4096, 0xDEADBEEF, u64::MAX] {
        let mut d = Vec::new();
        push_decimal(&mut d, n);
        assert_eq!(string_of(&d), format!("{}", n));
        let mut x = Vec::new();
        push_number(&mut x, n, 16, true, 8);
        assert_eq!(string_of(&x), format!("{:08X}", n));
        let mut l = Vec::new();
        push_number(&mut l, n, 16, false, 0);
        assert_eq!(string_of(&l), format!("{:x}", n));
        let mut p = Vec::new();
        push_number(&mut p, n % 100, 10, false, 2);
        assert_eq!(string_of(&p), format!("{:02}", n % 100));
    }
}

#[test]
fn hexadecimal_is_read_like_from_str_radix() {
    for s in [
        "", "+", "0", "ff", "FF", "+1f", "-1", "0x10", "g", "12 ", " 12", "ffffffffffffffff",
        "10000000000000000", "00000000000000000000001", "DeadBeef", "+", "++1",
    ] {
        assert_eq!(read_hex(&chars(s)), u64::from_str_radix(s, 16).ok(), "{:?}", s);
    }
}

#[test]
fn addresses_drop_their_prefixes() {
    fn std_address(s: &str) -> u64 {
        u64::from_str_radix(s.trim_start_matches("0x").trim_start_matches("0X"), 16).unwrap_or(0)
    }
    for s in ["0x20000100", "0X1F", "0x0x10", "0x0X10", "0X0x10", "20", "", "0x", "zz", "0xZZ"] {
        assert_eq!(read_address(&chars(s)), std_address(s), "{:?}", s);
    }
    assert_eq!(read_address(&chars("0x20000100")), 0x20000100);
}

#[test]
fn numeric_literals_are_what_parses_as_a_number() {
    for s in [
        "", "0", "1", "-1", "+1", "1.5", ".5", "5.", ".", "1e5", "1E5", "1e", "e5", "1e+5", "1e-5",
        "1e+", "1.5e3", "1.e3", ".5e3", ".e3", "inf", "-inf", "+INF", "Infinity", "infinit",
        "nan", "NaN", "-nan", "nanx", "0x10", "1_000", "12abc", "abc", "UBYTE", "--1", "+-1",
        "1..2", "1.2.3", "١٢", " 1", "1 ", "+", "-", "1e5e5", "infinityy", "1f32",
    ] {
        assert_eq!(is_numeric(&chars(s)), s.parse::<f64>().is_ok(), "{:?}", s);
    }
}
