use doom_launcher::ascii::{bytes_equal, copy_range, equals_ignore_case, to_upper, trimmed};
use doom_launcher::tokenizer::{
    next_token, read_string, read_word, skip_block_comment, skip_line, skip_trivia, tokenize,
    word_is_number, LexError, Token,
};

fn show(tokens: &[Token]) -> Vec<String> {
    tokens
        .iter()
        .map(|t| match t {
            Token::Ident(s) => format!("i:{}", String::from_utf8_lossy(s)),
            Token::Str(s) => format!("s:{}", String::from_utf8_lossy(s)),
            Token::Number(s) => format!("n:{}", String::from_utf8_lossy(s)),
            Token::BraceOpen => "{".to_string(),
            Token::BraceClose => "}".to_string(),
            Token::Equals => "=".to_string(),
            Token::Comma => ",".to_string(),
            Token::Semicolon => ";".to_string(),
        })
        .collect()
}

#[test]
fn upper_case_changes_only_ascii_letters() {
    assert_eq!(to_upper(b"map01 e1m1 {z}[`"), b"MAP01 E1M1 {Z}[`".to_vec());
    assert_eq!(to_upper(&[0xe9, b'a', 0xff]), vec![0xe9, b'A', 0xff]);
}

#[test]
fn comparison_ignores_ascii_case_only() {
    assert!(equals_ignore_case(b"LevelName", b"levelname"));
    assert!(!equals_ignore_case(b"levelname", b"levelnam"));
    assert!(!equals_ignore_case(b"map", b"nap"));
    assert!(equals_ignore_case(b"", b""));
    assert!(bytes_equal(b"abc", b"abc"));
    assert!(!bytes_equal(b"abc", b"abC"));
}

#[test]
fn trimming_strips_ascii_whitespace_at_both_ends() {
    assert_eq!(trimmed(b"  \t Entry way \r\n"), b"Entry way".to_vec());
    assert_eq!(trimmed(b"x"), b"x".to_vec());
    assert_eq!(trimmed(b" \x0b\x0c\r\n\t"), Vec::<u8>::new());
    assert_eq!(trimmed(b""), Vec::<u8>::new());
    assert_eq!(copy_range(b"abcdef", 2, 4), b"cd".to_vec());
}

#[test]
fn words_strings_and_punctuation_are_told_apart() {
    let tokens = tokenize(b"map MAP01 \"Entryway\" { next = 2, sky1 = \"SKY1\", 0.5; }").unwrap();
    assert_eq!(
        show(&tokens),
        vec![
            "i:map", "i:MAP01", "s:Entryway", "{", "i:next", "=", "n:2", ",", "i:sky1", "=",
            "s:SKY1", ",", "n:0.5", ";", "}"
        ]
    );
}

#[test]
fn punctuation_needs_no_space_around_it() {
    let tokens = tokenize(b"a{b}c=d,e;f\"g\"h").unwrap();
    assert_eq!(
        show(&tokens),
        vec!["i:a", "{", "i:b", "}", "i:c", "=", "i:d", ",", "i:e", ";", "i:f", "s:g", "i:h"]
    );
}

#[test]
fn comments_are_skipped() {
    let text = b"// first\nmap /* in\nbetween */ MAP01 // to the end\n{ } /**/ x//";
    let tokens = tokenize(text).unwrap();
    assert_eq!(show(&tokens), vec!["i:map", "i:MAP01", "{", "}", "i:x"]);
}

#[test]
fn comment_start_ends_a_word_but_a_single_slash_does_not() {
    let tokens = tokenize(b"sounds/door a//b\nc/*d*/e").unwrap();
    assert_eq!(show(&tokens), vec!["i:sounds/door", "i:a", "i:c", "i:e"]);
}

#[test]
fn escapes_are_decoded_and_case_is_kept() {
    let tokens = tokenize(b"\"a\\\"B\\\\c\\n\\t\\r\\x\" \"\" \"two\nlines\"").unwrap();
    assert_eq!(tokens.len(), 3);
    match &tokens[0] {
        Token::Str(s) => assert_eq!(s, &b"a\"B\\c\n\t\rx".to_vec()),
        _ => panic!("string expected"),
    }
    match &tokens[1] {
        Token::Str(s) => assert!(s.is_empty()),
        _ => panic!("string expected"),
    }
    match &tokens[2] {
        Token::Str(s) => assert_eq!(s, &b"two\nlines".to_vec()),
        _ => panic!("string expected"),
    }
}

#[test]
fn comment_markers_inside_a_string_are_text() {
    let tokens = tokenize(b"\"a // b /* c\" d").unwrap();
    assert_eq!(show(&tokens), vec!["s:a // b /* c", "i:d"]);
}

#[test]
fn numbers_start_with_a_digit_or_a_signed_digit() {
    assert!(word_is_number(b"0"));
    assert!(word_is_number(b"12abc"));
    assert!(word_is_number(b"-1"));
    assert!(word_is_number(b"+7"));
    assert!(word_is_number(b".5"));
    assert!(!word_is_number(b"-"));
    assert!(!word_is_number(b"-x"));
    assert!(!word_is_number(b"MAP01"));
    assert!(!word_is_number(b""));
    assert!(!word_is_number(b"$1"));
}

#[test]
fn unterminated_string_is_a_lexical_error() {
    assert_eq!(tokenize(b"map MAP01 \"Entry").err(), Some(LexError::UnterminatedString));
    assert_eq!(tokenize(b"\"").err(), Some(LexError::UnterminatedString));
    assert_eq!(tokenize(b"\"abc\\").err(), Some(LexError::UnterminatedString));
    assert_eq!(tokenize(b"\"abc\\\"").err(), Some(LexError::UnterminatedString));
}

#[test]
fn unterminated_block_comment_is_a_lexical_error() {
    assert_eq!(tokenize(b"map /* never closed").err(), Some(LexError::UnterminatedComment));
    assert_eq!(tokenize(b"/*/").err(), Some(LexError::UnterminatedComment));
    assert_eq!(tokenize(b"/*").err(), Some(LexError::UnterminatedComment));
    assert!(tokenize(b"/**/").unwrap().is_empty());
}

#[test]
fn empty_and_blank_texts_have_no_tokens() {
    assert!(tokenize(b"").unwrap().is_empty());
    assert!(tokenize(b" \t\r\n // only a comment").unwrap().is_empty());
}

#[test]
fn lexing_can_start_at_any_offset_and_be_repeated() {
    let text = b"map  MAP01 { }";
    let (t, next) = next_token(text, 0).unwrap().unwrap();
    assert_eq!(show(&[t]), vec!["i:map"]);
    assert_eq!(next, 3);
    let (t, next2) = next_token(text, next).unwrap().unwrap();
    assert_eq!(show(&[t]), vec!["i:MAP01"]);
    assert_eq!(next2, 10);
    // Starting again at the same offset gives the same token.
    let (t, again) = next_token(text, next).unwrap().unwrap();
    assert_eq!(show(&[t]), vec!["i:MAP01"]);
    assert_eq!(again, 10);
    // In the middle of a word, the rest of the word is the token.
    let (t, _) = next_token(text, 7).unwrap().unwrap();
    assert_eq!(show(&[t]), vec!["i:P01"]);
    assert!(next_token(text, 14).unwrap().is_none());
    assert!(next_token(text, 100).unwrap().is_none());
    assert_eq!(next_token(b"x /*", 1).err(), Some(LexError::UnterminatedComment));
}

#[test]
fn scanning_helpers_give_exact_offsets() {
    assert_eq!(skip_line(b"ab\ncd", 0), 2);
    assert_eq!(skip_line(b"ab\ncd", 2), 2);
    assert_eq!(skip_line(b"ab\ncd", 3), 5);
    assert_eq!(skip_block_comment(b"/* x */y", 2), Some(7));
    assert_eq!(skip_block_comment(b"/* x *", 2), None);
    assert_eq!(skip_trivia(b"  // c\n /* d */ x", 0), Ok(16));
    assert_eq!(skip_trivia(b"x", 0), Ok(0));
    assert_eq!(skip_trivia(b"   ", 1), Ok(3));
    assert_eq!(read_word(b"abc=def", 0), 3);
    assert_eq!(read_word(b"abc", 1), 3);
    assert_eq!(read_string(b"\"ab\\\"c\" x", 1), Some((b"ab\"c".to_vec(), 7)));
    assert_eq!(read_string(b"\"ab", 1), None);
}
