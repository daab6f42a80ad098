use hwgauge::text::{
    char_count, char_is_digit, char_is_space, chars_of, contains, decimal_string, matches_at,
    push_chars, push_decimal, push_number, push_number_left, push_pad_end, push_pad_start,
    push_repeated, push_spaces, replace, starts_with, string_of,
};

fn chars(text: &str) -> Vec<char> {
    text.chars().collect()
}

fn replaced(text: &str, pattern: &str, with: &str) -> String {
    replace(&chars(text), &chars(pattern), &chars(with)).iter().collect()
}

#[test]
fn chars_and_strings_convert_both_ways() {
    assert_eq!(chars_of("a°█"), vec!['a', '°', '█']);
    assert_eq!(chars_of(""), Vec::<char>::new());
    assert_eq!(string_of(&chars("a°█")), "a°█");
    let mut text = String::from("x");
    push_chars(&mut text, &chars("yz"));
    assert_eq!(text, "xyz");
    assert_eq!(char_count("a°█"), 3);
}

#[test]
fn replace_agrees_with_the_standard_replace() {
    let cases = [
        ("coretemp Core 0", "Core ", "core "),
        ("aaaa", "aa", "b"),
        ("aaa", "aa", "b"),
        ("abcabc", "bc", ""),
        ("abc", "", "x"),
        ("abc", "abcd", "x"),
        ("", "a", "b"),
        ("SSSD SD ", "SSD ", ""),
        ("a b", " ", "  "),
        ("°°", "°", "deg"),
    ];
    for (text, pattern, with) in cases {
        if pattern.is_empty() {
            assert_eq!(replaced(text, pattern, with), text);
        } else {
            assert_eq!(replaced(text, pattern, with), text.replace(pattern, with));
        }
    }
}

#[test]
fn searching_agrees_with_the_standard_search() {
    let texts = ["", "a", "abc", "aab", "core Package id 0", "xxwifi", "°C"];
    let patterns = ["", "a", "ab", "b", "abc", "abcd", "wifi", "core ", "C", "°"];
    for text in texts {
        for pattern in patterns {
            assert_eq!(contains(&chars(text), &chars(pattern)), text.contains(pattern));
            assert_eq!(starts_with(&chars(text), &chars(pattern)), text.starts_with(pattern));
            for at in 0..6 {
                let expected = text.chars().skip(at).collect::<String>().starts_with(pattern)
                    && at <= text.chars().count();
                assert_eq!(matches_at(&chars(text), &chars(pattern), at), expected);
            }
        }
    }
}

#[test]
fn digits_and_spaces_are_told_apart() {
    for c in ['0', '5', '9'] {
        assert!(char_is_digit(c));
    }
    for c in ['/', ':', 'a', '٣', ' '] {
        assert!(!char_is_digit(c));
    }
    for code in 0..0x3100u32 {
        if let Some(c) = char::from_u32(code) {
            assert_eq!(char_is_space(c), c.is_whitespace(), "{:x}", code);
        }
    }
}

#[test]
fn numbers_are_written_in_decimal() {
    for n in [0, 7, 10, 99, 100, 1234567890, u64::MAX] {
        assert_eq!(decimal_string(n), n.to_string());
    }
    let mut text = String::from("n=");
    push_decimal(&mut text, 42);
    assert_eq!(text, "n=42");
}

#[test]
fn padding_fills_up_to_the_width() {
    let mut text = String::new();
    push_pad_start(&mut text, "ab", 4);
    push_pad_end(&mut text, "cd", 4);
    push_pad_start(&mut text, "toolong", 3);
    push_pad_end(&mut text, "°", 2);
    push_number(&mut text, 5, 3);
    push_number_left(&mut text, 6, 3);
    push_number(&mut text, 12345, 2);
    assert_eq!(text, "  abcd  toolong°   56  12345");
    let mut blanks = String::new();
    push_spaces(&mut blanks, 3);
    push_repeated(&mut blanks, '█', 2);
    push_spaces(&mut blanks, 0);
    assert_eq!(blanks, "   ██");
}
