use mf1::parser::MAX_NESTING;
use mf1::{
    parse, ErrorDetail, ErrorKind, ParseError, PluralCase, PluralCategory, SelectCase, Span, Token,
};

fn content(value: &str) -> Token {
    Token::Content { value: value.to_string() }
}

fn plain(arg: &str) -> Token {
    Token::PlainArg { arg: arg.to_string() }
}

fn failure(src: &str) -> ParseError {
    match parse(src) {
        Ok(tokens) => panic!("{:?} parsed as {:?}", src, tokens),
        Err(error) => error,
    }
}

fn fails(src: &str, detail: ErrorDetail, start: usize, end: usize) {
    assert_eq!(failure(src), ParseError { detail, span: Span { start, end } }, "{:?}", src);
}

fn nested(levels: usize) -> String {
    let mut src = String::new();
    for _ in 0..levels {
        src.push_str("{a,select,other{");
    }
    src.push('x');
    for _ in 0..levels {
        src.push_str("}}");
    }
    src
}

#[test]
fn empty_source_is_the_empty_message() {
    assert_eq!(parse(""), Ok(vec![]));
}

#[test]
fn plain_text_is_one_content_token() {
    for src in ["a", "plain text", " ", "select, plural: offset\n", "日本語 ☺", "a\"b=c"] {
        assert_eq!(parse(src), Ok(vec![content(src)]));
    }
}

#[test]
fn double_apostrophe_is_one_apostrophe() {
    assert_eq!(parse("''"), Ok(vec![content("'")]));
    assert_eq!(parse("I don''t know"), Ok(vec![content("I don"), content("'"), content("t know")]));
}

#[test]
fn quote_strips_its_markers() {
    assert_eq!(parse("'{literal}'"), Ok(vec![content("{literal}")]));
    assert_eq!(parse("'#'"), Ok(vec![content("#")]));
    assert_eq!(parse("'}{#'"), Ok(vec![content("}{#")]));
    assert_eq!(parse("'{'"), Ok(vec![content("{")]));
}

#[test]
fn apostrophe_without_escape_is_literal() {
    assert_eq!(parse("'"), Ok(vec![content("'")]));
    assert_eq!(parse("'a'"), Ok(vec![content("'"), content("a"), content("'")]));
    assert_eq!(parse("'#"), Ok(vec![content("'"), Token::Octothorpe {}]));
}

#[test]
fn unclosed_quote_opens_an_argument() {
    assert_eq!(parse("'{a}"), Ok(vec![content("'"), plain("a")]));
}

#[test]
fn plain_argument() {
    assert_eq!(parse("{name}"), Ok(vec![plain("name")]));
    assert_eq!(parse("{select}"), Ok(vec![plain("select")]));
    assert_eq!(parse("{plural}"), Ok(vec![plain("plural")]));
    assert_eq!(parse("{selectordinal}"), Ok(vec![plain("selectordinal")]));
    assert_eq!(parse("{offset}"), Ok(vec![plain("offset")]));
    assert_eq!(parse("{selected}"), Ok(vec![plain("selected")]));
}

#[test]
fn argument_names() {
    assert_eq!(parse("{имя}"), Ok(vec![plain("имя")]));
    assert_eq!(parse("{a_b1}"), Ok(vec![plain("a_b1")]));
    assert_eq!(parse("{1st}"), Ok(vec![plain("1st")]));
    assert_eq!(parse("{٣}"), Ok(vec![plain("٣")]));
    fails("{_a}", ErrorDetail::MalformedToken, 1, 2);
    fails("{a-b}", ErrorDetail::MalformedToken, 2, 3);
    fails("{²}", ErrorDetail::MalformedToken, 1, 3);
}

#[test]
fn empty_argument_is_dropped() {
    assert_eq!(parse("{}"), Ok(vec![]));
    assert_eq!(parse("a{ }b"), Ok(vec![content("a"), content("b")]));
}

#[test]
fn white_space_in_arguments() {
    assert_eq!(parse("{\u{2028}a\u{85}\u{200e}\u{200f}\u{2029}}"), Ok(vec![plain("a")]));
    fails("{\u{a0}a}", ErrorDetail::MalformedToken, 1, 3);
    assert_eq!(
        parse("{ x , select , k {a} other {b} }"),
        parse("{x,select,k{a}other{b}}")
    );
}

#[test]
fn select_with_two_cases() {
    assert_eq!(
        parse("{VAR,select,key{a}other{b}}"),
        Ok(vec![Token::Select {
            arg: "VAR".to_string(),
            cases: vec![
                SelectCase { key: "key".to_string(), tokens: vec![content("a")] },
                SelectCase { key: "other".to_string(), tokens: vec![content("b")] },
            ],
            plural_offset: None,
        }])
    );
}

#[test]
fn select_keys_are_kept_as_written() {
    assert_eq!(
        parse("{a,select,1{x}offset{y}Other{}}"),
        Ok(vec![Token::Select {
            arg: "a".to_string(),
            cases: vec![
                SelectCase { key: "1".to_string(), tokens: vec![content("x")] },
                SelectCase { key: "offset".to_string(), tokens: vec![content("y")] },
                SelectCase { key: "Other".to_string(), tokens: vec![] },
            ],
            plural_offset: None,
        }])
    );
    assert_eq!(
        parse("{a,select,offset{y}}"),
        Ok(vec![Token::Select {
            arg: "a".to_string(),
            cases: vec![SelectCase { key: "offset".to_string(), tokens: vec![content("y")] }],
            plural_offset: None,
        }])
    );
}

#[test]
fn select_with_offset() {
    assert_eq!(
        parse("{a,select,offset:2 x{y}}"),
        Ok(vec![Token::Select {
            arg: "a".to_string(),
            cases: vec![SelectCase { key: "x".to_string(), tokens: vec![content("y")] }],
            plural_offset: Some(2),
        }])
    );
}

#[test]
fn plural_with_offset() {
    assert_eq!(
        parse("{n, plural, offset:1 one{# item} other{# items}}"),
        Ok(vec![Token::Plural {
            arg: "n".to_string(),
            cases: vec![
                PluralCase {
                    key: PluralCategory::One,
                    tokens: vec![Token::Octothorpe {}, content(" item")],
                },
                PluralCase {
                    key: PluralCategory::Other,
                    tokens: vec![Token::Octothorpe {}, content(" items")],
                },
            ],
            plural_offset: Some(1),
        }])
    );
}

#[test]
fn plural_keys_are_categories() {
    assert_eq!(
        parse("{n,plural,zero{0}one{1}two{2}few{3}many{4}other{5}}"),
        Ok(vec![Token::Plural {
            arg: "n".to_string(),
            cases: vec![
                PluralCase { key: PluralCategory::Zero, tokens: vec![content("0")] },
                PluralCase { key: PluralCategory::One, tokens: vec![content("1")] },
                PluralCase { key: PluralCategory::Two, tokens: vec![content("2")] },
                PluralCase { key: PluralCategory::Few, tokens: vec![content("3")] },
                PluralCase { key: PluralCategory::Many, tokens: vec![content("4")] },
                PluralCase { key: PluralCategory::Other, tokens: vec![content("5")] },
            ],
            plural_offset: None,
        }])
    );
    fails("{n,plural,foo{x}}", ErrorDetail::PluralKey, 10, 13);
    fails("{n,plural,1{x}}", ErrorDetail::PluralKey, 10, 11);
    fails("{n,plural,One{x}}", ErrorDetail::PluralKey, 10, 13);
    fails("{n,plural,offset{x}}", ErrorDetail::PluralKey, 16, 17);
    fails("{n,selectordinal,other{x}offset{y}}", ErrorDetail::PluralKey, 25, 31);
}

#[test]
fn selectordinal() {
    assert_eq!(
        parse("{n,selectordinal,one{#st}other{#th}}"),
        Ok(vec![Token::SelectOrdinal {
            arg: "n".to_string(),
            cases: vec![
                PluralCase {
                    key: PluralCategory::One,
                    tokens: vec![Token::Octothorpe {}, content("st")],
                },
                PluralCase {
                    key: PluralCategory::Other,
                    tokens: vec![Token::Octothorpe {}, content("th")],
                },
            ],
            plural_offset: None,
        }])
    );
}

#[test]
fn offsets() {
    let with_offset = |text: &str| format!("{{n,plural,offset:{} other{{x}}}}", text);
    let offset_of = |text: &str| match parse(&with_offset(text)) {
        Ok(tokens) => match &tokens[0] {
            Token::Plural { plural_offset, .. } => *plural_offset,
            other => panic!("{:?}", other),
        },
        Err(error) => panic!("{:?}", error),
    };
    assert_eq!(offset_of("0"), Some(0));
    assert_eq!(offset_of("007"), Some(7));
    assert_eq!(offset_of("2147483647"), Some(2147483647));
    assert_eq!(offset_of("00000000002147483647"), Some(2147483647));
    fails(&with_offset("2147483648"), ErrorDetail::BadInteger, 17, 27);
    fails(&with_offset("99999999999999999999999"), ErrorDetail::BadInteger, 17, 40);
    fails(&with_offset("٣"), ErrorDetail::BadInteger, 17, 19);
    fails(&with_offset("1a"), ErrorDetail::Identifier, 17, 19);
    fails(&with_offset("-1"), ErrorDetail::MalformedToken, 17, 18);
}

#[test]
fn unterminated_input() {
    fails("unterminated {", ErrorDetail::EndedWithinArgument, 14, 14);
    fails("{  ", ErrorDetail::EndedWithinArgument, 3, 3);
    fails("{a", ErrorDetail::EndOfInput, 2, 2);
    fails("{a,", ErrorDetail::EndOfInput, 3, 3);
    fails("{a,select", ErrorDetail::EndOfInput, 9, 9);
    fails("{a,select,x", ErrorDetail::EndOfInput, 11, 11);
    fails("{a,select,x{y", ErrorDetail::EndOfInput, 13, 13);
    fails("{a,select,x{y}", ErrorDetail::EndOfInput, 14, 14);
    fails("{a,select,x{{b}", ErrorDetail::EndOfInput, 15, 15);
    fails("{a,plural,offset", ErrorDetail::EndOfInput, 16, 16);
    fails("{a,plural,offset:", ErrorDetail::EndOfInput, 17, 17);
    for src in ["unterminated {", "{a", "{a,", "{a,select,x{y"] {
        assert_eq!(failure(src).kind(), ErrorKind::UnexpectedEndOfInput);
    }
}

#[test]
fn stray_close() {
    fails("stray }", ErrorDetail::EndOfBody, 6, 7);
    fails("}", ErrorDetail::EndOfBody, 0, 1);
    fails("{a}}", ErrorDetail::EndOfBody, 3, 4);
    fails("{a,select,x{y}}}", ErrorDetail::EndOfBody, 15, 16);
    assert_eq!(failure("stray }").kind(), ErrorKind::UnexpectedEndOfBody);
}

#[test]
fn spans_are_in_bytes() {
    fails("中中}", ErrorDetail::EndOfBody, 6, 7);
    fails("é{ü,ß}", ErrorDetail::TokenInArgument, 6, 8);
    fails("☺{🦳}", ErrorDetail::MalformedToken, 4, 8);
}

#[test]
fn unexpected_tokens_in_argument() {
    fails("{,}", ErrorDetail::TokenInArgument, 1, 2);
    fails("{a,}", ErrorDetail::TokenInArgument, 3, 4);
    fails("{a,,}", ErrorDetail::TokenInArgument, 3, 4);
    fails("{a,number}", ErrorDetail::TokenInArgument, 3, 9);
    fails("{a b}", ErrorDetail::ExpectedCommaOrClose, 3, 4);
    fails("{a select}", ErrorDetail::ExpectedCommaOrClose, 3, 9);
    fails("{#}", ErrorDetail::MalformedToken, 1, 2);
    fails("{a{", ErrorDetail::MalformedToken, 2, 3);
    fails("{a,'}", ErrorDetail::MalformedToken, 3, 4);
    assert_eq!(failure("{,}").kind(), ErrorKind::UnexpectedToken);
    assert_eq!(failure("{a b}").kind(), ErrorKind::UnexpectedToken);
    assert_eq!(failure("{#}").kind(), ErrorKind::LexError);
}

#[test]
fn unexpected_tokens_in_select() {
    fails("{a,select}", ErrorDetail::EndOfSelect, 9, 10);
    fails("{a,select,}", ErrorDetail::EndOfSelect, 10, 11);
    fails("{a,select,offset:1}", ErrorDetail::EndOfSelect, 18, 19);
    fails("{a,select x{y}}", ErrorDetail::Identifier, 10, 11);
    fails("{a,select 1{y}}", ErrorDetail::Integer, 10, 11);
    fails("{a,select{y}}", ErrorDetail::CaseBody, 9, 10);
    fails("{a,select:}", ErrorDetail::Colon, 9, 10);
    fails("{a,select offset}", ErrorDetail::Offset, 10, 16);
    fails("{a,select,{y}}", ErrorDetail::CaseBody, 10, 11);
    fails("{a,select,,x{y}}", ErrorDetail::Comma, 10, 11);
    fails("{a,select,x y{z}}", ErrorDetail::Identifier, 12, 13);
    fails("{a,select,x}", ErrorDetail::EndOfSelect, 11, 12);
    fails("{a,select,x:{y}}", ErrorDetail::Colon, 11, 12);
    fails("{a,select,x{y},}", ErrorDetail::Comma, 14, 15);
    fails("{a,select,x{y}{z}}", ErrorDetail::CaseBody, 14, 15);
    fails("{a,select,x{y}:}", ErrorDetail::Colon, 14, 15);
    fails("{a,select,offset x{y}}", ErrorDetail::Identifier, 17, 18);
    fails("{a,select,offset,x{y}}", ErrorDetail::Comma, 16, 17);
    fails("{a,select,offset:x{y}}", ErrorDetail::Identifier, 17, 18);
    fails("{a,select,offset:offset{y}}", ErrorDetail::Offset, 17, 23);
    fails("{a,select,offset:1:x{y}}", ErrorDetail::Colon, 18, 19);
    fails("{a,select,=1{y}}", ErrorDetail::MalformedToken, 10, 11);
    fails("{a,select,x{y}#}", ErrorDetail::MalformedToken, 14, 15);
    assert_eq!(failure("{a,select}").kind(), ErrorKind::UnexpectedToken);
    assert_eq!(failure("{a,select,=1{y}}").kind(), ErrorKind::LexError);
    assert_eq!(failure("{n,plural,foo{x}}").kind(), ErrorKind::UnexpectedToken);
    assert_eq!(
        failure("{n,plural,offset:2147483648 other{x}}").kind(),
        ErrorKind::LexError
    );
}

#[test]
fn errors_inside_a_case_are_passed_on() {
    fails("{a,select,x{{,}}}", ErrorDetail::TokenInArgument, 13, 14);
    fails("{a,select,x{{b,plural,y{}}}}", ErrorDetail::PluralKey, 22, 23);
}

#[test]
fn nesting_is_bounded() {
    assert_eq!(MAX_NESTING, 64);
    assert!(parse(&nested(1)).is_ok());
    assert!(parse(&nested(MAX_NESTING)).is_ok());
    let too_deep = nested(MAX_NESTING + 1);
    let at = 16 * MAX_NESTING + 15;
    fails(&too_deep, ErrorDetail::NestingTooDeep, at, at + 1);
    assert_eq!(failure(&too_deep).kind(), ErrorKind::UnexpectedToken);
    assert!(parse(&nested(2000)).is_err());
}

#[test]
fn messages_of_errors() {
    assert_eq!(failure("}").message(), "Unexpected end of body");
    assert_eq!(failure("{").message(), "Message unexpectedly ended within argument");
    assert_eq!(failure("{a").message(), "Unexpected end of input");
    assert_eq!(failure("{,").message(), "Unexpected token in argument");
    assert_eq!(failure("{#").message(), "Unexpected token in argument");
    assert_eq!(
        failure("{a b").message(),
        "Unexpected token in argument (expected comma or closing bracket)"
    );
    assert_eq!(failure("{a,select offset").message(), "Unexpected offset keyword");
    assert_eq!(failure("{a,select:").message(), "Unexpected colon");
    assert_eq!(failure("{a,select 1").message(), "Unexpected integer");
    assert_eq!(failure("{a,select x").message(), "Unexpected identifier");
    assert_eq!(failure("{a,select,,").message(), "Unexpected comma");
    assert_eq!(failure("{a,select{").message(), "Unexpected case body");
    assert_eq!(failure("{a,select}").message(), "Unexpected end of select");
    assert_eq!(failure("{a,select,offset:٣").message(), "Bad integer");
    assert_eq!(failure("{a,plural,x{").message(), "Unknown plural category");
    assert_eq!(failure(&nested(65)).message(), "Message is nested too deeply");
    assert_eq!(ErrorDetail::EndOfBody.message(), "Unexpected end of body");
    assert_eq!(ErrorDetail::EndOfBody.kind(), ErrorKind::UnexpectedEndOfBody);
}
