use null::chars::{chars_of, space, spells, split_chars, string_of, trimmed};
use null::error::Error;
use null::text::{decimal_string, decimal_text, text_from_utf8};

fn chars(s: &str) -> Vec<char> {
    s.chars().collect()
}

#[test]
fn decimal_of_signed_numbers() {
    assert_eq!(decimal_string(0), "0");
    assert_eq!(decimal_string(7), "7");
    assert_eq!(decimal_string(10), "10");
    assert_eq!(decimal_string(1600000000), "1600000000");
    assert_eq!(decimal_string(-1), "-1");
    assert_eq!(decimal_string(-120), "-120");
    assert_eq!(decimal_string(i64::MAX), "9223372036854775807");
    assert_eq!(decimal_string(i64::MIN), "-9223372036854775808");
}

#[test]
fn decimal_of_unsigned_numbers() {
    assert_eq!(decimal_text(0), "0");
    assert_eq!(decimal_text(9), "9");
    assert_eq!(decimal_text(100), "100");
    assert_eq!(decimal_text(u64::MAX), "18446744073709551615");
}

#[test]
fn bytes_become_the_text_they_spell() {
    assert_eq!(text_from_utf8(b"abc %20".to_vec()), Ok("abc %20".to_string()));
    assert_eq!(
        text_from_utf8("\u{e9}\u{2603}".as_bytes().to_vec()),
        Ok("\u{e9}\u{2603}".to_string())
    );
    assert_eq!(text_from_utf8(Vec::new()), Ok(String::new()));
}

#[test]
fn bytes_that_spell_nothing_are_an_encoding_failure() {
    assert_eq!(text_from_utf8(vec![0x80]), Err(Error::EncodingFailure));
    assert_eq!(text_from_utf8(vec![0x61, 0xe2, 0x98]), Err(Error::EncodingFailure));
    assert_eq!(text_from_utf8(vec![0xed, 0xa0, 0x80]), Err(Error::EncodingFailure));
    assert_eq!(text_from_utf8(vec![0xc0, 0xaf]), Err(Error::EncodingFailure));
}

#[test]
fn text_and_characters_convert_both_ways() {
    assert_eq!(chars_of("a\u{e9}\u{2603}"), vec!['a', '\u{e9}', '\u{2603}']);
    assert_eq!(string_of(&['a', '\u{e9}', '\u{2603}']), "a\u{e9}\u{2603}");
    assert_eq!(string_of(&[]), "");
    assert!(spells(&chars("TW_NAME"), "TW_NAME"));
    assert!(!spells(&chars("TW_NAME"), "TW_NAM"));
    assert!(!spells(&chars("TW_NAME"), "TW_NAMF"));
    assert!(spells(&[], ""));
}

#[test]
fn splitting_gives_one_more_piece_than_separators() {
    assert_eq!(split_chars(&chars(""), '&'), vec![chars("")]);
    assert_eq!(split_chars(&chars("a"), '&'), vec![chars("a")]);
    assert_eq!(split_chars(&chars("a&b"), '&'), vec![chars("a"), chars("b")]);
    assert_eq!(split_chars(&chars("&a&&b&"), '&'), vec![chars(""), chars("a"), chars(""), chars("b"), chars("")]);
    for text in ["", "x", "a=b=c", "==", "k = v", "\n\na\n"] {
        for sep in ['=', '\n'] {
            let expected: Vec<Vec<char>> = text.split(sep).map(chars).collect();
            assert_eq!(split_chars(&chars(text), sep), expected);
        }
    }
}

#[test]
fn trimming_removes_white_space_at_both_ends() {
    for text in ["", " ", "a", " a", "a ", "  a b \t\r\n", "\u{a0}x\u{3000}", "\u{2003}\u{85}", "\u{200b}x"] {
        assert_eq!(trimmed(&chars(text)), chars(text.trim()));
    }
}

#[test]
fn white_space_is_what_unicode_says() {
    for code in 0..0x11000u32 {
        if let Some(c) = char::from_u32(code) {
            assert_eq!(space(c), c.is_whitespace());
        }
    }
}
