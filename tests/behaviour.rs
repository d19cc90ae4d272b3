use str_reader::{ParseError, StringReader};

#[test]
fn first_word_and_rest() {
    let mut reader = StringReader::new("Hello, World!!!   1234\n\tfoo-bar");
    assert_eq!(reader.read_word(), "Hello,");
    assert_eq!(reader.as_str(), " World!!!   1234\n\tfoo-bar");
}

#[test]
fn char_and_literal_matching() {
    let mut reader = StringReader::new("World!!!   1234\n\tfoo-bar");
    assert_eq!(reader.read_char(), Ok('W'));
    assert_eq!(reader.match_char('o'), Ok(()));
    assert_eq!(reader.match_char('R'), Err(ParseError::NoMatch));
    assert_eq!(reader.as_str(), "rld!!!   1234\n\tfoo-bar");
    assert_eq!(reader.current_char(), Some('r'));
    assert_eq!(reader.match_str("RLD!!!"), Err(ParseError::NoMatch));
    assert_eq!(reader.as_str(), "rld!!!   1234\n\tfoo-bar");
    assert_eq!(reader.match_str("rld!!!"), Ok(()));
    assert_eq!(reader.as_str(), "   1234\n\tfoo-bar");
}

#[test]
fn number_then_failed_number() {
    let mut reader = StringReader::new("   1234\n\tfoo-bar");
    assert_eq!(reader.read_u32(), Ok(1234));
    assert_eq!(reader.as_str(), "\n\tfoo-bar");
    assert!(reader.read_u32().is_err());
    assert_eq!(reader.as_str(), "\n\tfoo-bar");
    assert_eq!(reader.current_char(), Some('\n'));
}

#[test]
fn exhausted_input() {
    let mut reader = StringReader::new("");
    assert!(reader.is_empty());
    assert_eq!(reader.current_char(), None);
    assert_eq!(reader.read_word(), "");
    assert_eq!(reader.read_char(), Err(ParseError::EmptyInput));
    assert_eq!(reader.match_char('a'), Err(ParseError::EmptyInput));
    assert_eq!(reader.match_str(""), Ok(()));
    assert_eq!(reader.match_str("a"), Err(ParseError::NoMatch));
    reader.skip_char();
    reader.skip_whitespace();
    assert_eq!(reader.read_until(|c| c == 'x'), "");
    assert!(reader.is_empty());
}

#[test]
fn failed_match_keeps_state() {
    let mut reader = StringReader::new("abc");
    assert_eq!(reader.match_char('b'), Err(ParseError::NoMatch));
    assert_eq!(reader.match_str("abd"), Err(ParseError::NoMatch));
    assert_eq!(reader.match_str("abcd"), Err(ParseError::NoMatch));
    assert_eq!(reader.current_char(), Some('a'));
    assert_eq!(reader.as_str(), "abc");
}

#[test]
fn lookahead_follows_remaining() {
    let mut reader = StringReader::new("a é\u{1F600}z");
    let mut seen = Vec::new();
    loop {
        let rest = reader.as_str();
        assert_eq!(reader.current_char(), rest.chars().next());
        assert_eq!(reader.is_empty(), rest.is_empty());
        match reader.read_char() {
            Ok(c) => seen.push(c),
            Err(e) => {
                assert_eq!(e, ParseError::EmptyInput);
                break;
            }
        }
    }
    assert_eq!(seen, vec!['a', ' ', 'é', '\u{1F600}', 'z']);
}

#[test]
fn peeking_changes_nothing() {
    let reader = StringReader::new("xyz");
    for _ in 0..3 {
        assert_eq!(reader.current_char(), Some('x'));
        assert_eq!(reader.as_str(), "xyz");
    }
}

#[test]
fn remaining_only_shrinks() {
    let mut reader = StringReader::new("ab  12 cd");
    let mut len = reader.as_str().len();
    reader.skip_char();
    assert!(reader.as_str().len() < len);
    len = reader.as_str().len();
    assert!(reader.match_char('x').is_err());
    assert_eq!(reader.as_str().len(), len);
    reader.skip_whitespace();
    assert!(reader.as_str().len() <= len);
    len = reader.as_str().len();
    assert_eq!(reader.read_word(), "b");
    assert!(reader.as_str().len() < len);
    len = reader.as_str().len();
    assert_eq!(reader.read_u8(), Ok(12));
    assert!(reader.as_str().len() < len);
}

#[test]
fn words_and_spaces_rebuild_input() {
    let input = "  one\ttwo \u{3000}three\n\n ";
    let mut reader = StringReader::new(input);
    let mut rebuilt = String::new();
    while !reader.is_empty() {
        let before = reader.as_str();
        let word = reader.read_word();
        let after = reader.as_str();
        let skipped = &before[..before.len() - after.len() - word.len()];
        assert!(skipped.chars().all(char::is_whitespace));
        rebuilt.push_str(skipped);
        rebuilt.push_str(word);
    }
    assert_eq!(rebuilt, input);
}

#[test]
fn unicode_whitespace_separates_words() {
    let mut reader = StringReader::new("a\u{00A0}b\u{2028}c\u{85}d");
    assert_eq!(reader.read_word(), "a");
    assert_eq!(reader.read_word(), "b");
    assert_eq!(reader.read_word(), "c");
    assert_eq!(reader.read_word(), "d");
    assert_eq!(reader.read_word(), "");
}

#[test]
fn read_until_stops_before_match() {
    let mut reader = StringReader::new("key=value");
    assert_eq!(reader.read_until(|c| c == '='), "key");
    assert_eq!(reader.as_str(), "=value");
    assert_eq!(reader.read_until(|c| c == '='), "");
    assert_eq!(reader.match_char('='), Ok(()));
    assert_eq!(reader.read_until(|c| c == '='), "value");
    assert!(reader.is_empty());
}

#[test]
fn match_str_with_multibyte_prefix() {
    let mut reader = StringReader::new("ünïcode rest");
    assert_eq!(reader.match_str("ünï"), Ok(()));
    assert_eq!(reader.as_str(), "code rest");
    assert_eq!(reader.read_word(), "code");
}

#[test]
fn skip_char_steps_over_wide_characters() {
    let mut reader = StringReader::new("\u{1F600}x");
    reader.skip_char();
    assert_eq!(reader.current_char(), Some('x'));
    assert_eq!(reader.as_str(), "x");
}

#[test]
fn parse_word_with_custom_conversion() {
    let mut reader = StringReader::new(" yes no");
    let yes_no = |w: &str| match w {
        "yes" => Ok(true),
        "no" => Ok(false),
        _ => Err(()),
    };
    assert_eq!(reader.parse_word(yes_no), Ok(true));
    assert_eq!(reader.as_str(), " no");
    assert_eq!(reader.parse_word(|w: &str| if w == "maybe" { Ok(1) } else { Err(()) }), Err(()));
    assert_eq!(reader.as_str(), " no");
    assert_eq!(reader.parse_word(yes_no), Ok(false));
    assert!(reader.is_empty());
}

#[test]
fn integer_limits_and_signs() {
    let mut reader = StringReader::new("127 128 -128 +7 -0 255 256 -1");
    assert_eq!(reader.read_i8(), Ok(127));
    assert!(reader.read_i8().is_err());
    assert_eq!(reader.read_i16(), Ok(128));
    assert_eq!(reader.read_i8(), Ok(-128));
    assert_eq!(reader.read_u8(), Ok(7));
    assert_eq!(reader.read_i32(), Ok(0));
    assert_eq!(reader.read_u8(), Ok(255));
    assert!(reader.read_u8().is_err());
    assert_eq!(reader.read_u16(), Ok(256));
    assert!(reader.read_u64().is_err());
    assert_eq!(reader.as_str(), " -1");
    assert_eq!(reader.read_i64(), Ok(-1));
    assert!(reader.is_empty());
}

#[test]
fn integer_malformed_words() {
    let mut reader = StringReader::new("+ - 1a 0x10");
    assert!(reader.read_u32().is_err());
    assert_eq!(reader.read_word(), "+");
    assert!(reader.read_i32().is_err());
    assert_eq!(reader.read_word(), "-");
    assert!(reader.read_usize().is_err());
    assert_eq!(reader.read_word(), "1a");
    assert!(reader.read_isize().is_err());
    assert_eq!(reader.read_word(), "0x10");
    assert!(reader.read_u128().is_err());
    assert!(reader.read_i128().is_err());
}

#[test]
fn wide_integers() {
    let mut reader = StringReader::new(
        "340282366920938463463374607431768211455 -170141183460469231731687303715884105728 \
         18446744073709551615 -9223372036854775808 4294967295 65535 -32768",
    );
    assert_eq!(reader.read_u128(), Ok(u128::MAX));
    assert_eq!(reader.read_i128(), Ok(i128::MIN));
    assert_eq!(reader.read_u64(), Ok(u64::MAX));
    assert_eq!(reader.read_i64(), Ok(i64::MIN));
    assert_eq!(reader.read_usize(), Ok(4294967295));
    assert_eq!(reader.read_u16(), Ok(u16::MAX));
    assert_eq!(reader.read_isize(), Ok(-32768));
    assert!(reader.read_i8().is_err());
}

#[test]
fn error_messages() {
    assert_eq!(ParseError::EmptyInput.message(), "input is empty");
    assert_eq!(ParseError::NoMatch.message(), "the input does not match");
}
