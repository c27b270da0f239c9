use mf1::lexer::{
    is_body_special, scan_apostrophe, scan_arg_lexeme, scan_body_lexeme, scan_content,
    scan_digits, scan_ident, scan_select_lexeme, scan_space, ArgLexeme, BodyLexeme, SelectLexeme,
};
use mf1::parser::{parse_arg, parse_body, parse_offset, parse_select, unexpected_lexeme, SelectKind};
use mf1::text::{
    byte_position, is_ident_continue, is_ident_start, is_pattern_white_space, substring, to_chars,
    width_of,
};
use mf1::{ErrorDetail, SelectCase, Token};

fn chars(src: &str) -> Vec<char> {
    src.chars().collect()
}

#[test]
fn characters_of_a_string() {
    assert_eq!(to_chars(""), Vec::<char>::new());
    assert_eq!(to_chars("aé中🦳"), vec!['a', 'é', '中', '🦳']);
}

#[test]
fn substring_of_characters() {
    let src = chars("aé中🦳b");
    assert_eq!(substring(&src, 0, 5), "aé中🦳b");
    assert_eq!(substring(&src, 1, 3), "é中");
    assert_eq!(substring(&src, 2, 2), "");
}

#[test]
fn widths_in_utf8() {
    assert_eq!(width_of('\0'), 1);
    assert_eq!(width_of('\u{7f}'), 1);
    assert_eq!(width_of('\u{80}'), 2);
    assert_eq!(width_of('\u{7ff}'), 2);
    assert_eq!(width_of('\u{800}'), 3);
    assert_eq!(width_of('\u{ffff}'), 3);
    assert_eq!(width_of('\u{10000}'), 4);
    assert_eq!(width_of('\u{10ffff}'), 4);
    for c in ['a', 'é', '中', '🦳'] {
        assert_eq!(width_of(c), c.len_utf8());
    }
}

#[test]
fn positions_in_bytes() {
    let text = "aé中🦳b";
    let src = chars(text);
    let expected = [0, 1, 3, 6, 10, 11];
    for (index, offset) in expected.iter().enumerate() {
        assert_eq!(byte_position(&src, index), *offset);
    }
    assert_eq!(byte_position(&src, src.len()), text.len());
}

#[test]
fn pattern_white_space() {
    for c in ['\t', '\n', '\u{b}', '\u{c}', '\r', ' ', '\u{85}', '\u{200e}', '\u{200f}', '\u{2028}', '\u{2029}'] {
        assert!(is_pattern_white_space(c), "{:?}", c);
    }
    for c in ['\u{8}', '\u{e}', '\u{a0}', '\u{2000}', '\u{3000}', 'a', '\u{200d}', '\u{202a}'] {
        assert!(!is_pattern_white_space(c), "{:?}", c);
    }
}

#[test]
fn identifier_characters() {
    for c in ['a', 'Z', '0', '9', 'é', '中', 'я', '٣'] {
        assert!(is_ident_start(c), "{:?}", c);
    }
    for c in ['_', '-', ' ', '{', '}', ',', ':', '#', '\'', '²', '🦳'] {
        assert!(!is_ident_start(c), "{:?}", c);
    }
    for c in ['a', 'Z', '0', '_', 'é', '٣', '\u{301}'] {
        assert!(is_ident_continue(c), "{:?}", c);
    }
    for c in ['-', ' ', '{', '}', ',', ':', '#', '\'', '²'] {
        assert!(!is_ident_continue(c), "{:?}", c);
    }
}

#[test]
fn scans() {
    let src = chars("ab{c 'd' 12x  }");
    assert_eq!(scan_content(&src, 0), 2);
    assert_eq!(scan_content(&src, 2), 2);
    assert_eq!(scan_content(&src, 3), 5);
    assert_eq!(scan_content(&src, 15), 15);
    assert_eq!(scan_apostrophe(&src, 0), 5);
    assert_eq!(scan_apostrophe(&src, 6), 7);
    assert_eq!(scan_apostrophe(&src, 8), 15);
    assert_eq!(scan_space(&src, 4), 5);
    assert_eq!(scan_space(&src, 12), 14);
    assert_eq!(scan_space(&src, 0), 0);
    assert_eq!(scan_ident(&src, 0), 2);
    assert_eq!(scan_ident(&src, 9), 12);
    assert_eq!(scan_digits(&src, 9), 11);
    assert_eq!(scan_digits(&src, 0), 0);
    for c in ['{', '}', '#', '\''] {
        assert!(is_body_special(c));
    }
    for c in ['a', ' ', ',', ':', '"'] {
        assert!(!is_body_special(c));
    }
}

#[test]
fn body_lexemes() {
    let at = |src: &str, pos: usize| scan_body_lexeme(&chars(src), pos);
    assert_eq!(at("text{", 0), (BodyLexeme::Content, 4));
    assert_eq!(at("text{", 4), (BodyLexeme::Argument, 5));
    assert_eq!(at("}", 0), (BodyLexeme::End, 1));
    assert_eq!(at("#", 0), (BodyLexeme::Octothorpe, 1));
    assert_eq!(at("''", 0), (BodyLexeme::DoubleApostrophe, 2));
    assert_eq!(at("'''", 0), (BodyLexeme::DoubleApostrophe, 2));
    assert_eq!(at("'{a b}' c", 0), (BodyLexeme::Quote, 7));
    assert_eq!(at("'}'", 0), (BodyLexeme::Quote, 3));
    assert_eq!(at("'#", 0), (BodyLexeme::Content, 1));
    assert_eq!(at("'a'", 0), (BodyLexeme::Content, 1));
    assert_eq!(at("'", 0), (BodyLexeme::Content, 1));
    assert_eq!(at("a'b", 0), (BodyLexeme::Content, 1));
}

#[test]
fn argument_lexemes() {
    let at = |src: &str, pos: usize| scan_arg_lexeme(&chars(src), pos);
    assert_eq!(at("  name }", 0), (ArgLexeme::Ident, 2, 6));
    assert_eq!(at("plural", 0), (ArgLexeme::Plural, 0, 6));
    assert_eq!(at("select,", 0), (ArgLexeme::Select, 0, 6));
    assert_eq!(at("selectordinal", 0), (ArgLexeme::SelectOrdinal, 0, 13));
    assert_eq!(at("selectordinals", 0), (ArgLexeme::Ident, 0, 14));
    assert_eq!(at("Select", 0), (ArgLexeme::Ident, 0, 6));
    assert_eq!(at("offset", 0), (ArgLexeme::Ident, 0, 6));
    assert_eq!(at(" ,", 0), (ArgLexeme::Comma, 1, 2));
    assert_eq!(at("}", 0), (ArgLexeme::End, 0, 1));
    assert_eq!(at("{", 0), (ArgLexeme::Invalid, 0, 1));
    assert_eq!(at(":", 0), (ArgLexeme::Invalid, 0, 1));
    assert_eq!(at("a  ", 1), (ArgLexeme::Eof, 3, 3));
    assert_eq!(at("", 0), (ArgLexeme::Eof, 0, 0));
}

#[test]
fn selector_lexemes() {
    let at = |src: &str, pos: usize| scan_select_lexeme(&chars(src), pos);
    assert_eq!(at(" offset:", 0), (SelectLexeme::Offset, 1, 7));
    assert_eq!(at("offsets", 0), (SelectLexeme::Ident, 0, 7));
    assert_eq!(at("select", 0), (SelectLexeme::Ident, 0, 6));
    assert_eq!(at(":", 0), (SelectLexeme::Colon, 0, 1));
    assert_eq!(at("123 ", 0), (SelectLexeme::Int, 0, 3));
    assert_eq!(at("٣٤", 0), (SelectLexeme::Int, 0, 2));
    assert_eq!(at("12a", 0), (SelectLexeme::Ident, 0, 3));
    assert_eq!(at("1_", 0), (SelectLexeme::Ident, 0, 2));
    assert_eq!(at(",", 0), (SelectLexeme::Comma, 0, 1));
    assert_eq!(at("{", 0), (SelectLexeme::Open, 0, 1));
    assert_eq!(at("}", 0), (SelectLexeme::End, 0, 1));
    assert_eq!(at("=1", 0), (SelectLexeme::Invalid, 0, 1));
    assert_eq!(at("#", 0), (SelectLexeme::Invalid, 0, 1));
    assert_eq!(at(" \n", 0), (SelectLexeme::Eof, 2, 2));
}

#[test]
fn offsets_are_decimal() {
    let value = |src: &str| parse_offset(&chars(src), 0, src.chars().count());
    assert_eq!(value("0"), Some(0));
    assert_eq!(value("42"), Some(42));
    assert_eq!(value("0042"), Some(42));
    assert_eq!(value("2147483647"), Some(i32::MAX));
    assert_eq!(value("2147483648"), None);
    assert_eq!(value("4294967296"), None);
    assert_eq!(value("٤٢"), None);
    assert_eq!(value("4a"), None);
    assert_eq!(value(""), Some(0));
    assert_eq!(parse_offset(&chars("a12b"), 1, 3), Some(12));
}

#[test]
fn unexpected_lexemes() {
    assert_eq!(unexpected_lexeme(SelectLexeme::Offset), ErrorDetail::Offset);
    assert_eq!(unexpected_lexeme(SelectLexeme::Colon), ErrorDetail::Colon);
    assert_eq!(unexpected_lexeme(SelectLexeme::Int), ErrorDetail::Integer);
    assert_eq!(unexpected_lexeme(SelectLexeme::Ident), ErrorDetail::Identifier);
    assert_eq!(unexpected_lexeme(SelectLexeme::Comma), ErrorDetail::Comma);
    assert_eq!(unexpected_lexeme(SelectLexeme::Open), ErrorDetail::CaseBody);
    assert_eq!(unexpected_lexeme(SelectLexeme::End), ErrorDetail::EndOfSelect);
    assert_eq!(unexpected_lexeme(SelectLexeme::Invalid), ErrorDetail::MalformedToken);
    assert_eq!(unexpected_lexeme(SelectLexeme::Eof), ErrorDetail::EndOfInput);
}

#[test]
fn parts_of_the_parser() {
    let src = chars("a{b}c}d");
    match parse_body(&src, 0, 4) {
        Ok((tokens, closed, next)) => {
            assert_eq!(
                tokens,
                vec![
                    Token::Content { value: "a".to_string() },
                    Token::PlainArg { arg: "b".to_string() },
                    Token::Content { value: "c".to_string() },
                ]
            );
            assert!(closed);
            assert_eq!(next, 6);
        }
        Err(fault) => panic!("{:?}", fault.detail),
    }
    match parse_body(&src, 6, 4) {
        Ok((tokens, closed, next)) => {
            assert_eq!(tokens, vec![Token::Content { value: "d".to_string() }]);
            assert!(!closed);
            assert_eq!(next, 7);
        }
        Err(fault) => panic!("{:?}", fault.detail),
    }
    match parse_arg(&src, 2, 4) {
        Ok((token, next)) => {
            assert_eq!(token, Some(Token::PlainArg { arg: "b".to_string() }));
            assert_eq!(next, 4);
        }
        Err(fault) => panic!("{:?}", fault.detail),
    }
    let src = chars(",k{v}}rest");
    match parse_select(&src, 0, 1, SelectKind::Select, "x".to_string()) {
        Ok((token, next)) => {
            assert_eq!(
                token,
                Token::Select {
                    arg: "x".to_string(),
                    cases: vec![SelectCase {
                        key: "k".to_string(),
                        tokens: vec![Token::Content { value: "v".to_string() }],
                    }],
                    plural_offset: None,
                }
            );
            assert_eq!(next, 6);
        }
        Err(fault) => panic!("{:?}", fault.detail),
    }
    match parse_select(&src, 0, 0, SelectKind::Select, "x".to_string()) {
        Ok(_) => panic!(),
        Err(fault) => {
            assert_eq!(fault.detail, ErrorDetail::NestingTooDeep);
            assert_eq!((fault.start, fault.end), (2, 3));
        }
    }
}
