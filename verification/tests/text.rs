use howlingwind::text::{
    chars_of, contains_chars, find_chars, parse_i8, parse_unsigned, replace_chars, split_lines, split_words,
    strip_all_prefixes, string_of, trim_chars, trim_end_chars,
};

fn v(s: &str) -> Vec<char> {
    s.chars().collect()
}

fn strs(x: Vec<Vec<char>>) -> Vec<String> {
    x.into_iter().map(|c| c.into_iter().collect()).collect()
}

#[test]
fn number_parsing_matches_std() {
    for s in ["0", "42", "+7", "255", "256", "", "+", "-1", "12a", "00012", "4294967295", "4294967296"] {
        assert_eq!(parse_unsigned(&v(s), 10, u32::MAX as u64).map(|x| x as u32), s.parse::<u32>().ok(), "{:?}", s);
        assert_eq!(parse_unsigned(&v(s), 10, 255).map(|x| x as u8), s.parse::<u8>().ok(), "{:?}", s);
    }
    for s in ["ff", "FF", "0a10", "+1", "10000", "g", ""] {
        assert_eq!(parse_unsigned(&v(s), 16, 0xFFFF).map(|x| x as u16), u16::from_str_radix(s, 16).ok(), "{:?}", s);
    }
    for s in ["-128", "127", "128", "-129", "-", "+5", "-0", "x"] {
        assert_eq!(parse_i8(&v(s)), s.parse::<i8>().ok(), "{:?}", s);
    }
}

#[test]
fn words_and_lines_match_std() {
    for s in ["  a b\tc  ", "", "   ", "one", "x\u{3000}y\nz"] {
        let expected: Vec<String> = s.split_whitespace().map(|w| w.to_string()).collect();
        assert_eq!(strs(split_words(&v(s))), expected, "{:?}", s);
    }
    for s in ["a\nb", "a\r\nb\r\n", "", "\n", "a\n\nb\r", "x\r"] {
        let expected: Vec<String> = s.lines().map(|l| l.to_string()).collect();
        assert_eq!(strs(split_lines(&v(s))), expected, "{:?}", s);
    }
}

#[test]
fn trimming_and_searching_match_std() {
    for s in ["  a b  ", "\t\n", "x", ""] {
        assert_eq!(string_of(&trim_chars(&v(s))), s.trim());
        assert_eq!(string_of(&trim_end_chars(&v(s))), s.trim_end());
    }
    assert_eq!(string_of(&strip_all_prefixes(&v("0x0x12"), &v("0x"))), "0x0x12".trim_start_matches("0x"));
    assert!(contains_chars(&v("hello world"), &v("o w")));
    assert!(!contains_chars(&v("hello"), &v("hello!")));
    assert!(contains_chars(&v("abc"), &v("")));
    assert_eq!(find_chars(&v("abcabc"), &v("ca")), "abcabc".find("ca"));
    assert_eq!(find_chars(&v("abc"), &v("d")), None);
    assert_eq!(string_of(&replace_chars(&v("aaa"), &v("aa"), &v("b"))), "aaa".replace("aa", "b"));
    assert_eq!(string_of(&replace_chars(&v("x[C]y[C]"), &v("[C]"), &v("[C]\nZ"))), "x[C]y[C]".replace("[C]", "[C]\nZ"));
    assert_eq!(chars_of("héllo"), v("héllo"));
}
