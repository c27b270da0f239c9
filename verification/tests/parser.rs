use mf1::{parse, SelectCase, Token};

fn parse_ui(src: &str) -> Vec<Token> {
    match parse(src) {
        Ok(value) => value,
        Err(error) => {
            panic!(
                "Panicked at input {:?} ({:?}): {}\n\n{}",
                src.get(error.span.start..error.span.end),
                error.span,
                error.message(),
                src
            );
        }
    }
}

fn content(value: &str) -> Token {
    Token::Content { value: value.to_string() }
}

fn plain(arg: &str) -> Token {
    Token::PlainArg { arg: arg.to_string() }
}

fn concat(src: &str) -> String {
    let res = parse(src).unwrap();
    let mut text = String::new();
    for t in res.iter() {
        match t {
            Token::Content { value } => text.push_str(value),
            _ => panic!(),
        }
    }
    text
}

fn three_dots_case(key: &str) -> SelectCase {
    SelectCase { key: key.to_string(), tokens: vec![content("...")] }
}

fn var_select() -> Token {
    Token::Select {
        arg: "VAR".to_string(),
        plural_offset: None,
        cases: vec![
            SelectCase { key: "key".to_string(), tokens: vec![content("a")] },
            SelectCase { key: "other".to_string(), tokens: vec![content("b")] },
        ],
    }
}

#[test]
fn test_body_simple() {
    assert_eq!(parse_ui("This is a message"), vec![content("This is a message")]);
}

#[test]
fn test_body_octothorpe() {
    assert_eq!(
        parse_ui("This is # an octothorpe"),
        vec![content("This is "), Token::Octothorpe {}, content(" an octothorpe")]
    );
}

#[test]
fn test_body_doublequote() {
    assert_eq!(&concat("This is a doublequote: ''"), "This is a doublequote: '");
}

#[test]
fn test_body_quote_escape() {
    assert_eq!(
        &concat("This is an '{escaped}' string, with some more escapes: '{', '}'"),
        "This is an {escaped} string, with some more escapes: {, }"
    );
}

#[test]
fn test_body_quote_no_escape() {
    assert_eq!(&concat("This is a 'quoted' string"), "This is a 'quoted' string");
}

#[test]
#[should_panic]
fn test_body_unexpected_close() {
    let _ = parse("This is an unexpected close: }").unwrap();
}

#[test]
fn test_arg_simple() {
    assert_eq!(
        parse_ui("This is a {simple} replace."),
        vec![content("This is a "), plain("simple"), content(" replace.")]
    );
}

#[test]
fn test_arg_keyword() {
    assert_eq!(
        parse_ui("This has a keyword {select} replace."),
        vec![content("This has a keyword "), plain("select"), content(" replace.")]
    );
}

#[test]
fn test_arg_select() {
    assert_eq!(
        parse_ui("This is a {varname, select, this{...} that{...} other{...}}"),
        vec![
            content("This is a "),
            Token::Select {
                arg: "varname".to_string(),
                plural_offset: None,
                cases: vec![
                    three_dots_case("this"),
                    three_dots_case("that"),
                    three_dots_case("other"),
                ],
            },
        ]
    );
}

#[test]
fn string_only() {
    assert_eq!(parse_ui("This is a string"), vec![content("This is a string")]);
    assert_eq!(parse_ui("☺☺☺☺"), vec![content("☺☺☺☺")]);
    assert_eq!(parse_ui("This is \n a string"), vec![content("This is \n a string")]);
    assert_eq!(parse_ui("中国话不用彁字。"), vec![content("中国话不用彁字。")]);
    assert_eq!(parse_ui(" \t leading whitespace"), vec![content(" \t leading whitespace")]);
    assert_eq!(
        parse_ui("trailing whitespace   \n  "),
        vec![content("trailing whitespace   \n  ")]
    );
}

#[test]
fn escape_curly_brackets() {
    assert_eq!(parse_ui("'{'test"), vec![content("{"), content("test")]);
    assert_eq!(parse_ui("test'}'"), vec![content("test"), content("}")]);
    assert_eq!(parse_ui("'{test}'"), vec![content("{test}")]);
}

#[test]
fn handle_quotes() {
    assert_eq!(parse_ui("This is a dbl quote: \""), vec![content("This is a dbl quote: \"")]);
    assert_eq!(
        parse_ui("This is a single quote: '"),
        vec![content("This is a single quote: "), content("'")]
    );
}

#[test]
fn keywords_in_body() {
    assert_eq!(parse_ui("select select, "), vec![content("select select, ")]);
    assert_eq!(parse_ui("select offset, offset:1 "), vec![content("select offset, offset:1 ")]);
    assert_eq!(parse_ui("one other, =1 "), vec![content("one other, =1 ")]);
}

#[test]
fn keywords_in_arg() {
    assert_eq!(parse_ui("one {select} "), vec![content("one "), plain("select"), content(" ")]);
    assert_eq!(parse_ui("one {plural} "), vec![content("one "), plain("plural"), content(" ")]);
}

#[test]
fn apostrophes_in_body() {
    assert_eq!(&concat("I see '{many}'"), "I see {many}");
    assert_eq!(&concat("I said '{''Wow!'''}'"), "I said {'Wow!'}");
    assert_eq!(&concat("I don't know"), "I don't know");
    assert_eq!(&concat("I don''t know"), "I don't know");
    assert_eq!(&concat("A'a''a'A"), "A'a'a'A");
    assert_eq!(&concat("A '|' A"), "A '|' A");
}

#[test]
fn arg_single() {
    assert_eq!(parse_ui("{test}"), vec![plain("test")]);
    assert_eq!(parse_ui("{0}"), vec![plain("0")]);
}

#[test]
fn arg_whitespace() {
    let res = plain("test");
    assert_eq!(parse_ui("{test}"), vec![res.clone()]);
    assert_eq!(parse_ui("{test }"), vec![res.clone()]);
    assert_eq!(parse_ui("{test  }"), vec![res.clone()]);
    assert_eq!(parse_ui("{  \ttest}"), vec![res.clone()]);
    assert_eq!(parse_ui("{test \t\n}"), vec![res.clone()]);
    assert_eq!(parse_ui("{ \n  test  \n\n}"), vec![res.clone()]);
}

#[test]
fn arg_body_whitespace() {
    let res = plain("test");
    assert_eq!(parse_ui("x{test}"), vec![content("x"), res.clone()]);
    assert_eq!(parse_ui("\n{test }"), vec![content("\n"), res.clone()]);
    assert_eq!(parse_ui(" {test  }"), vec![content(" "), res.clone()]);
    assert_eq!(parse_ui("x {  \ttest}"), vec![content("x "), res.clone()]);
    assert_eq!(parse_ui("x{test \t\n} x  "), vec![content("x"), res.clone(), content(" x  ")]);
    assert_eq!(
        parse_ui("x\n{ \n  test  \n\n}\n"),
        vec![content("x\n"), res.clone(), content("\n")]
    );
}

#[test]
fn arg_body_unicode() {
    let res = plain("test");
    assert_eq!(parse_ui("☺{test}"), vec![content("☺"), res.clone()]);
    assert_eq!(
        parse_ui("中{test }中国话不用彁字。"),
        vec![content("中"), res.clone(), content("中国话不用彁字。")]
    );
}

#[test]
fn arg_body_html() {
    let res = plain("test");
    assert_eq!(
        parse_ui("<div class=\"test\">content: {test}</div>"),
        vec![content("<div class=\"test\">content: "), res.clone(), content("</div>")]
    );
}

#[test]
fn select_whitespace_agnostic() {
    let res = var_select();
    assert_eq!(parse_ui("{VAR,select,key{a}other{b}}"), vec![res.clone()]);
    assert_eq!(
        parse_ui("{    VAR   ,    select   ,    key      {a}   other    {b}    }"),
        vec![res.clone()]
    );
    assert_eq!(
        parse_ui(
            "{ \n   VAR  \n , \n   select  \n\n , \n \n  key \n    \n {a}  \n other \n   {b} \n  \n }"
        ),
        vec![res.clone()]
    );
    assert_eq!(
        parse_ui(
            "{ \t  VAR  \n , \n\t\r  select  \n\t , \t \n  key \n    \t {a}  \n other \t   {b} \t  \t }"
        ),
        vec![res.clone()]
    );
}
