use mf1::{parse, render, satisfies, try_render, Binding, PluralCase, PluralCategory, Token, Value};

fn text(name: &str, value: &str) -> Binding {
    Binding { name: name.to_string(), value: Value::Text(value.to_string()) }
}

fn number(name: &str, value: i32) -> Binding {
    Binding { name: name.to_string(), value: Value::Number(value) }
}

fn checked(src: &str, bindings: &Vec<Binding>, locale: &str) -> String {
    let message = parse(src).unwrap();
    assert!(satisfies(&message, bindings));
    render(&message, bindings, locale)
}

#[test]
fn render_plain_text() {
    assert_eq!(checked("Hello, world", &vec![], "en"), "Hello, world");
    assert_eq!(checked("", &vec![], "en"), "");
}

#[test]
fn render_escapes() {
    assert_eq!(checked("I don''t '{know}'", &vec![], "en"), "I don't {know}");
}

#[test]
fn render_plain_argument() {
    assert_eq!(checked("Hello, {name}!", &vec![text("name", "Ada")], "en"), "Hello, Ada!");
    assert_eq!(checked("{n} items", &vec![number("n", -42)], "en"), "-42 items");
    assert_eq!(checked("{n}", &vec![number("n", 0)], "en"), "0");
    assert_eq!(checked("{n}", &vec![number("n", i32::MIN)], "en"), "-2147483648");
    assert_eq!(checked("{n}", &vec![number("n", i32::MAX)], "en"), "2147483647");
}

#[test]
fn render_first_binding_counts() {
    assert_eq!(checked("{a}", &vec![text("a", "first"), text("a", "second")], "en"), "first");
}

#[test]
fn render_select_matches_exactly() {
    let src = "{n,select,one{one item}other{many items}}";
    assert_eq!(checked(src, &vec![text("n", "one")], "en"), "one item");
    assert_eq!(checked(src, &vec![text("n", "two")], "en"), "many items");
    assert_eq!(checked(src, &vec![text("n", "")], "en"), "many items");
    assert_eq!(checked(src, &vec![text("n", "One")], "en"), "many items");
    assert_eq!(checked(src, &vec![text("n", "other")], "en"), "many items");
}

#[test]
fn render_select_without_fallback_is_empty() {
    let src = "[{n,select,a{A}b{B}}]";
    assert_eq!(checked(src, &vec![text("n", "b")], "en"), "[B]");
    assert_eq!(checked(src, &vec![text("n", "c")], "en"), "[]");
}

#[test]
fn render_select_on_number_uses_its_text() {
    let src = "{n,select,1{single}other{several}}";
    assert_eq!(checked(src, &vec![number("n", 1)], "en"), "single");
    assert_eq!(checked(src, &vec![number("n", 2)], "en"), "several");
}

#[test]
fn render_octothorpe_outside_plural_is_literal() {
    assert_eq!(checked("Issue #{n}", &vec![number("n", 7)], "en"), "Issue #7");
    let src = "{k,select,a{# of a}other{#}}";
    assert_eq!(checked(src, &vec![text("k", "a")], "en"), "# of a");
}

#[test]
fn render_plural_english() {
    let src = "{n,plural,one{# item}other{# items}}";
    assert_eq!(checked(src, &vec![number("n", 1)], "en"), "1 item");
    assert_eq!(checked(src, &vec![number("n", 0)], "en"), "0 items");
    assert_eq!(checked(src, &vec![number("n", 5)], "en"), "5 items");
}

#[test]
fn render_plural_offset() {
    let src = "{n,plural,offset:1 one{you and # other}other{you and # others}}";
    assert_eq!(checked(src, &vec![number("n", 2)], "en"), "you and 1 other");
    assert_eq!(checked(src, &vec![number("n", 4)], "en"), "you and 3 others");
    assert_eq!(checked(src, &vec![number("n", 0)], "en"), "you and -1 other");
}

#[test]
fn render_plural_polish_has_few_and_many() {
    let src = "{n,plural,one{miesiąc}few{miesiące}many{miesięcy}other{miesiąca}}";
    assert_eq!(checked(src, &vec![number("n", 1)], "pl"), "miesiąc");
    assert_eq!(checked(src, &vec![number("n", 2)], "pl"), "miesiące");
    assert_eq!(checked(src, &vec![number("n", 5)], "pl"), "miesięcy");
}

#[test]
fn render_plural_falls_back_to_other() {
    let src = "{n,plural,few{few}other{other}}";
    assert_eq!(checked(src, &vec![number("n", 1)], "en"), "other");
    let src = "{n,plural,one{one}other{other}}";
    assert_eq!(checked(src, &vec![number("n", 1)], "not a locale"), "other");
}

#[test]
fn render_selectordinal_english() {
    let src = "{n,selectordinal,one{#st}two{#nd}few{#rd}other{#th}}";
    assert_eq!(checked(src, &vec![number("n", 1)], "en"), "1st");
    assert_eq!(checked(src, &vec![number("n", 2)], "en"), "2nd");
    assert_eq!(checked(src, &vec![number("n", 3)], "en"), "3rd");
    assert_eq!(checked(src, &vec![number("n", 4)], "en"), "4th");
    assert_eq!(checked(src, &vec![number("n", 11)], "en"), "11th");
    assert_eq!(checked(src, &vec![number("n", 21)], "en"), "21st");
}

#[test]
fn render_nested_octothorpe_keeps_the_plural_number() {
    let src = "{n,plural,other{{g,select,f{# women}other{# people}}}}";
    assert_eq!(checked(src, &vec![number("n", 3), text("g", "f")], "en"), "3 women");
    assert_eq!(checked(src, &vec![number("n", 3), text("g", "x")], "en"), "3 people");
}

#[test]
fn render_function_argument_is_the_bound_text() {
    let message = vec![
        Token::Content { value: "at ".to_string() },
        Token::FunctionArg { arg: "t".to_string(), key: "time".to_string(), param: None },
    ];
    let bindings = vec![text("t", "noon")];
    assert!(satisfies(&message, &bindings));
    assert_eq!(render(&message, &bindings, "en"), "at noon");
}

#[test]
fn render_plural_without_any_case_is_empty() {
    let message = vec![Token::Plural {
        arg: "n".to_string(),
        cases: vec![PluralCase { key: PluralCategory::Two, tokens: vec![] }],
        plural_offset: None,
    }];
    let bindings = vec![number("n", 1)];
    assert!(satisfies(&message, &bindings));
    assert_eq!(render(&message, &bindings, "en"), "");
}

#[test]
fn satisfies_asks_for_every_argument() {
    let message = parse("{a} {b,select,x{{c}}other{}}").unwrap();
    assert!(!satisfies(&message, &vec![]));
    assert!(!satisfies(&message, &vec![text("a", "1"), text("b", "y")]));
    assert!(satisfies(&message, &vec![text("a", "1"), text("b", "y"), text("c", "z")]));
    assert!(satisfies(&message, &vec![number("c", 1), number("b", 2), number("a", 3)]));
}

#[test]
fn satisfies_asks_for_a_number_where_a_plural_chooses() {
    let message = parse("{n,plural,other{#}}").unwrap();
    assert!(!satisfies(&message, &vec![text("n", "1")]));
    assert!(satisfies(&message, &vec![number("n", 1)]));
}

#[test]
fn try_render_refuses_what_is_not_covered() {
    let message = parse("Hello, {name}!").unwrap();
    assert_eq!(try_render(&message, &vec![], "en"), None);
    assert_eq!(
        try_render(&message, &vec![text("name", "Ada")], "en"),
        Some("Hello, Ada!".to_string())
    );
}
