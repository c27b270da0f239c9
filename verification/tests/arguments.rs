use mf1::args::{collect_message, has_role};
use mf1::{
    diagnose, parse, ArgType, ArgumentRequirements, Diagnostic, PluralCase, PluralCategory,
    Requirement, SelectCase, Token, TokenSlice,
};

fn requirement(name: &str, roles: Vec<ArgType>) -> Requirement {
    Requirement { name: name.to_string(), roles }
}

fn args_of(src: &str) -> ArgumentRequirements {
    parse(src).unwrap().get_args()
}

#[test]
fn literal_text_has_no_arguments() {
    assert_eq!(args_of("no # arguments '{here}'").entries, vec![]);
    assert_eq!(args_of("").entries, vec![]);
}

#[test]
fn each_token_gives_its_role() {
    assert_eq!(args_of("{a}").entries, vec![requirement("a", vec![ArgType::PlainArg])]);
    assert_eq!(
        args_of("{a,select,other{}}").entries,
        vec![requirement("a", vec![ArgType::SelectArg])]
    );
    assert_eq!(
        args_of("{a,plural,other{}}").entries,
        vec![requirement("a", vec![ArgType::OrdinalArg])]
    );
    assert_eq!(
        args_of("{a,selectordinal,other{}}").entries,
        vec![requirement("a", vec![ArgType::OrdinalArg])]
    );
    let function = vec![Token::FunctionArg {
        arg: "a".to_string(),
        key: "number".to_string(),
        param: None,
    }];
    assert_eq!(function.get_args().entries, vec![requirement("a", vec![ArgType::FunctionArg])]);
}

#[test]
fn arguments_are_listed_in_the_order_of_their_first_use() {
    assert_eq!(
        args_of("{b} {a} {b} {c}").entries,
        vec![
            requirement("b", vec![ArgType::PlainArg]),
            requirement("a", vec![ArgType::PlainArg]),
            requirement("c", vec![ArgType::PlainArg]),
        ]
    );
}

#[test]
fn cases_are_entered() {
    assert_eq!(
        args_of("{a,select,x{{b}}other{{c,plural,other{{d} {a}}}}} {e}").entries,
        vec![
            requirement("a", vec![ArgType::SelectArg, ArgType::PlainArg]),
            requirement("b", vec![ArgType::PlainArg]),
            requirement("c", vec![ArgType::OrdinalArg]),
            requirement("d", vec![ArgType::PlainArg]),
            requirement("e", vec![ArgType::PlainArg]),
        ]
    );
}

#[test]
fn function_parameters_are_entered() {
    let message = vec![Token::FunctionArg {
        arg: "a".to_string(),
        key: "date".to_string(),
        param: Some(vec![
            Token::Content { value: "x".to_string() },
            Token::PlainArg { arg: "b".to_string() },
            Token::Select {
                arg: "a".to_string(),
                cases: vec![SelectCase {
                    key: "k".to_string(),
                    tokens: vec![Token::PlainArg { arg: "c".to_string() }],
                }],
                plural_offset: None,
            },
            Token::SelectOrdinal {
                arg: "d".to_string(),
                cases: vec![PluralCase {
                    key: PluralCategory::Other,
                    tokens: vec![Token::Octothorpe {}],
                }],
                plural_offset: None,
            },
        ]),
    }];
    assert_eq!(
        message.get_args().entries,
        vec![
            requirement("a", vec![ArgType::FunctionArg, ArgType::SelectArg]),
            requirement("b", vec![ArgType::PlainArg]),
            requirement("c", vec![ArgType::PlainArg]),
            requirement("d", vec![ArgType::OrdinalArg]),
        ]
    );
}

#[test]
fn first_seen_role_is_kept() {
    let message = parse("{name,select,a{x}other{y}} and {name}").unwrap();
    let args = message.get_args();
    let name = "name".to_string();
    assert_eq!(
        args.entries,
        vec![requirement("name", vec![ArgType::SelectArg, ArgType::PlainArg])]
    );
    assert_eq!(args.role_of(&name), Some(ArgType::SelectArg));
    assert!(args.is_ambiguous(&name));
    assert_eq!(
        diagnose(&message),
        vec![Diagnostic::AmbiguousArgumentRole { arg: "name".to_string() }]
    );

    let message = parse("{name} and {name,select,a{x}other{y}}").unwrap();
    let args = message.get_args();
    assert_eq!(args.role_of(&name), Some(ArgType::PlainArg));
    assert!(args.is_ambiguous(&name));
}

#[test]
fn the_same_role_twice_is_no_conflict() {
    let message = parse("{a} {a} {b,plural,other{{b,selectordinal,other{}}}}").unwrap();
    let args = message.get_args();
    assert_eq!(
        args.entries,
        vec![
            requirement("a", vec![ArgType::PlainArg]),
            requirement("b", vec![ArgType::OrdinalArg]),
        ]
    );
    assert!(!args.is_ambiguous(&"a".to_string()));
    assert!(!args.is_ambiguous(&"b".to_string()));
    assert_eq!(diagnose(&message), vec![]);
}

#[test]
fn unknown_argument_has_no_role() {
    let args = args_of("{a}");
    assert_eq!(args.role_of(&"b".to_string()), None);
    assert!(!args.is_ambiguous(&"b".to_string()));
    assert_eq!(args.position(&"a".to_string()), 0);
    assert_eq!(args.position(&"b".to_string()), 1);
}

#[test]
fn get_args_into_adds_to_what_is_there() {
    let mut args = parse("{a} {b}").unwrap().get_args();
    parse("{b,select,other{}} {c}").unwrap().get_args_into(&mut args);
    assert_eq!(
        args.entries,
        vec![
            requirement("a", vec![ArgType::PlainArg]),
            requirement("b", vec![ArgType::PlainArg, ArgType::SelectArg]),
            requirement("c", vec![ArgType::PlainArg]),
        ]
    );
    let mut same = ArgumentRequirements::new();
    collect_message(&parse("{a} {b}").unwrap(), &mut same);
    collect_message(&parse("{b,select,other{}} {c}").unwrap(), &mut same);
    assert_eq!(same, args);
}

#[test]
fn record_adds_a_role_once() {
    let mut args = ArgumentRequirements::new();
    let a = "a".to_string();
    args.record(&a, ArgType::FunctionArg);
    args.record(&a, ArgType::OrdinalArg);
    args.record(&a, ArgType::FunctionArg);
    assert_eq!(
        args.entries,
        vec![requirement("a", vec![ArgType::FunctionArg, ArgType::OrdinalArg])]
    );
    assert!(has_role(&args.entries[0].roles, ArgType::OrdinalArg));
    assert!(!has_role(&args.entries[0].roles, ArgType::PlainArg));
}

#[test]
fn missing_fallback_is_reported() {
    assert_eq!(
        diagnose(&parse("{a,select,x{y}}").unwrap()),
        vec![Diagnostic::MissingFallbackCase { arg: "a".to_string() }]
    );
    assert_eq!(
        diagnose(&parse("{a,plural,one{y}}").unwrap()),
        vec![Diagnostic::MissingFallbackCase { arg: "a".to_string() }]
    );
    assert_eq!(diagnose(&parse("{a,select,x{y}other{z}}").unwrap()), vec![]);
    assert_eq!(diagnose(&parse("{a,selectordinal,other{z}}").unwrap()), vec![]);
    assert_eq!(diagnose(&parse("{a,select,Other{z}}").unwrap()).len(), 1);
}

#[test]
fn diagnostics_come_in_order() {
    let message =
        parse("{a,select,x{{b,plural,one{{a}}}}other{{c,select,y{}}}} {d,select,z{{d}}}").unwrap();
    assert_eq!(
        diagnose(&message),
        vec![
            Diagnostic::MissingFallbackCase { arg: "b".to_string() },
            Diagnostic::MissingFallbackCase { arg: "c".to_string() },
            Diagnostic::MissingFallbackCase { arg: "d".to_string() },
            Diagnostic::AmbiguousArgumentRole { arg: "a".to_string() },
            Diagnostic::AmbiguousArgumentRole { arg: "d".to_string() },
        ]
    );
}
