use sim_automation::number::{numbers, parse_i32, parse_usize};
use sim_automation::order::precedes;
use sim_automation::text::{
    chars_of, contains, first_lines, is_whitespace, lines, remove_all, same_chars, same_text,
    split, string_of, trim,
};

fn cs(s: &str) -> Vec<char> {
    s.chars().collect()
}

fn strings(v: Vec<Vec<char>>) -> Vec<String> {
    v.into_iter().map(|p| p.into_iter().collect()).collect()
}

#[test]
fn chars_and_strings_convert_both_ways() {
    assert_eq!(chars_of("añ😀"), vec!['a', 'ñ', '😀']);
    assert_eq!(chars_of(""), Vec::<char>::new());
    assert_eq!(string_of(&['a', 'ñ', '😀']), "añ😀");
    assert_eq!(string_of(&[]), "");
}

#[test]
fn split_keeps_empty_pieces() {
    assert_eq!(strings(split(&cs("a|b||c|"), '|')), vec!["a", "b", "", "c", ""]);
    assert_eq!(strings(split(&cs(""), '|')), vec![""]);
    assert_eq!(strings(split(&cs("abc"), '|')), vec!["abc"]);
    assert_eq!(strings(split(&cs("|"), '|')), vec!["", ""]);
}

#[test]
fn split_agrees_with_std() {
    for text in ["", "|", "a", "a|", "|a", "a||b", "||", "x|yy|zzz"] {
        let expected: Vec<String> = text.split('|').map(|p| p.to_string()).collect();
        assert_eq!(strings(split(&cs(text), '|')), expected);
    }
}

#[test]
fn lines_end_at_line_feeds() {
    assert_eq!(strings(lines(&cs("a\nb\r\nc"))), vec!["a", "b", "c"]);
    assert_eq!(strings(lines(&cs("a\n"))), vec!["a"]);
    assert_eq!(strings(lines(&cs("a\n\nb\n"))), vec!["a", "", "b"]);
    assert_eq!(strings(lines(&cs(""))), Vec::<String>::new());
    assert_eq!(strings(lines(&cs("\n"))), vec![""]);
}

#[test]
fn lines_agree_with_std() {
    for text in ["", "\n", "a", "a\r", "a\r\n", "\r\n\r\n", "a\rb\nc", "a\n\r\nb\r", "x\n\ny"] {
        let expected: Vec<String> = text.lines().map(|p| p.to_string()).collect();
        assert_eq!(strings(lines(&cs(text))), expected, "{:?}", text);
    }
}

#[test]
fn white_space_is_what_unicode_says() {
    for code in 0u32..0x11_0000 {
        if let Some(c) = char::from_u32(code) {
            assert_eq!(is_whitespace(c), c.is_whitespace(), "{:x}", code);
        }
    }
}

#[test]
fn trim_cuts_both_ends() {
    assert_eq!(trim(&cs("  a b \t\n")), &cs("a b")[..]);
    assert_eq!(trim(&cs("\u{3000}x\u{a0}")), &cs("x")[..]);
    assert_eq!(trim(&cs("   ")), &cs("")[..]);
    assert_eq!(trim(&cs("")), &cs("")[..]);
    assert_eq!(trim(&cs("ab")), &cs("ab")[..]);
}

#[test]
fn parse_i32_reads_decimal_numerals() {
    assert_eq!(parse_i32(&cs("0")), Some(0));
    assert_eq!(parse_i32(&cs("42")), Some(42));
    assert_eq!(parse_i32(&cs("-42")), Some(-42));
    assert_eq!(parse_i32(&cs("+42")), Some(42));
    assert_eq!(parse_i32(&cs("-0")), Some(0));
    assert_eq!(parse_i32(&cs("000012")), Some(12));
    assert_eq!(parse_i32(&cs("2147483647")), Some(i32::MAX));
    assert_eq!(parse_i32(&cs("-2147483648")), Some(i32::MIN));
}

#[test]
fn parse_i32_refuses_everything_else() {
    for text in ["", "+", "-", "2147483648", "-2147483649", "99999999999999999999999", " 1", "1 ",
        "1.0", "1e3", "--1", "+-1", "0x10", "١٢", "1_000", "a"]
    {
        assert_eq!(parse_i32(&cs(text)), None, "{:?}", text);
    }
}

#[test]
fn parse_i32_agrees_with_std() {
    for text in ["7", "-7", "+7", "", "-", "+", "007", "2147483647", "2147483648", "-2147483648",
        "-2147483649", "12a", "a12", " 12", "1 2", "-+1", "00000000000000000000000000001"]
    {
        assert_eq!(parse_i32(&cs(text)), text.parse::<i32>().ok(), "{:?}", text);
    }
}

#[test]
fn parse_usize_reads_decimal_numerals() {
    assert_eq!(parse_usize(&cs("0")), Some(0));
    assert_eq!(parse_usize(&cs("+17")), Some(17));
    assert_eq!(parse_usize(&cs("0017")), Some(17));
    assert_eq!(parse_usize(&cs(&usize::MAX.to_string())), Some(usize::MAX));
    assert_eq!(parse_usize(&cs("-1")), None);
    assert_eq!(parse_usize(&cs("-0")), None);
    assert_eq!(parse_usize(&cs("")), None);
    assert_eq!(parse_usize(&cs("+")), None);
    assert_eq!(parse_usize(&cs("340282366920938463463374607431768211456")), None);
}

#[test]
fn parse_usize_agrees_with_std() {
    for text in ["7", "-7", "+7", "", "-", "+", "007", "18446744073709551615",
        "18446744073709551616", "4294967295", "4294967296", "12a", " 12"]
    {
        assert_eq!(parse_usize(&cs(text)), text.parse::<usize>().ok(), "{:?}", text);
    }
}

#[test]
fn contains_finds_contiguous_parts() {
    assert!(contains(&cs("hello world"), &cs("lo w")));
    assert!(contains(&cs("hello"), &cs("hello")));
    assert!(contains(&cs("hello"), &cs("")));
    assert!(contains(&cs(""), &cs("")));
    assert!(contains(&cs("aab"), &cs("ab")));
    assert!(!contains(&cs("hello"), &cs("hello!")));
    assert!(!contains(&cs("hello"), &cs("hlo")));
    assert!(!contains(&cs(""), &cs("a")));
}

#[test]
fn same_chars_and_same_text_compare_contents() {
    assert!(same_chars(&cs("abc"), &cs("abc")));
    assert!(!same_chars(&cs("abc"), &cs("abd")));
    assert!(!same_chars(&cs("abc"), &cs("ab")));
    assert!(same_chars(&cs(""), &cs("")));
    assert!(same_text("Booted", "Booted"));
    assert!(!same_text("Booted", "booted"));
}

#[test]
fn numbers_keeps_what_is_a_number() {
    assert_eq!(numbers(&cs("10,20"), ','), vec![10, 20]);
    assert_eq!(numbers(&cs(" 10 , -20 "), ','), vec![10, -20]);
    assert_eq!(numbers(&cs("10,abc,20"), ','), vec![10, 20]);
    assert_eq!(numbers(&cs("390x844"), 'x'), vec![390, 844]);
    assert_eq!(numbers(&cs(""), ','), Vec::<i32>::new());
    assert_eq!(numbers(&cs("1,2,3"), ','), vec![1, 2, 3]);
    assert_eq!(numbers(&cs("1.5,2"), ','), vec![2]);
}

#[test]
fn remove_all_takes_every_occurrence_out() {
    assert_eq!(
        remove_all(&cs("com.apple.CoreSimulator.SimRuntime.iOS-17-0"), &cs("com.apple.CoreSimulator.SimRuntime.")),
        cs("iOS-17-0")
    );
    assert_eq!(remove_all(&cs("abcabc"), &cs("bc")), cs("aa"));
    assert_eq!(remove_all(&cs("aaa"), &cs("aa")), cs("a"));
    assert_eq!(remove_all(&cs("abc"), &cs("")), cs("abc"));
    assert_eq!(remove_all(&cs("abc"), &cs("abcd")), cs("abc"));
    assert_eq!(remove_all(&cs(""), &cs("a")), cs(""));
}

#[test]
fn remove_all_agrees_with_std() {
    for (text, pattern) in [("ababab", "ab"), ("aXbXc", "X"), ("aaaa", "aa"), ("abc", "z"), ("xxabxx", "xx")] {
        let expected: Vec<char> = text.replace(pattern, "").chars().collect();
        assert_eq!(remove_all(&cs(text), &cs(pattern)), expected);
    }
}

#[test]
fn precedes_is_dictionary_order() {
    assert!(precedes(&cs("abc"), &cs("abd")));
    assert!(precedes(&cs("ab"), &cs("abc")));
    assert!(precedes(&cs(""), &cs("a")));
    assert!(precedes(&cs("Z"), &cs("a")));
    assert!(!precedes(&cs("abc"), &cs("abc")));
    assert!(!precedes(&cs("b"), &cs("abc")));
    assert!(!precedes(&cs(""), &cs("")));
}

#[test]
fn precedes_agrees_with_std() {
    let words = ["", "a", "ab", "b", "é", "z😀", "😀", "iPhone 15", "iPhone 15 Pro", "iPad"];
    for a in words {
        for b in words {
            assert_eq!(precedes(&cs(a), &cs(b)), a < b, "{:?} {:?}", a, b);
        }
    }
}

#[test]
fn first_lines_takes_at_most_n() {
    assert_eq!(first_lines("a\nb\nc\n", 2), vec!["a", "b"]);
    assert_eq!(first_lines("a\nb\nc\n", 3), vec!["a", "b", "c"]);
    assert_eq!(first_lines("a\nb\nc\n", 9), vec!["a", "b", "c"]);
    assert_eq!(first_lines("a\nb\nc\n", 0), Vec::<String>::new());
    assert_eq!(first_lines("", 5), Vec::<String>::new());
}
