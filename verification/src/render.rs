//! Rendering: from a message and the values bound to its arguments to text.

use vstd::prelude::*;
use vstd::string::StringExecFns;
use crate::args::{
    has_role, index_of, lemma_index_of, lemma_index_of_found, lemma_requirements_well_formed,
    lemma_roles_are_uses, plural_uses, requirements, select_uses, token_uses, used, uses,
    RequirementModel, TokenSlice, Use,
};
use crate::ast::{
    message_view, plural_cases_view, select_cases_view, token_view, ArgType, PluralCase,
    PluralCaseModel, PluralCategory, SelectCase, SelectCaseModel, Token, TokenModel,
};
use crate::diagnostics::fallback_key;
use crate::plural::{cldr_category, plural_category};

verus! {

/// A value bound to an argument.
#[derive(Debug, PartialEq, Eq)]
pub enum Value {
    Text(String),
    Number(i32),
}

/// An argument and the value bound to it.
#[derive(Debug, PartialEq, Eq)]
pub struct Binding {
    pub name: String,
    pub value: Value,
}

/// The model of a [`Value`].
pub ghost enum ValueModel {
    Text(Seq<char>),
    Number(int),
}

/// The model of a [`Binding`].
pub ghost struct BindingModel {
    pub name: Seq<char>,
    pub value: ValueModel,
}

impl View for Value {
    type V = ValueModel;

    open spec fn view(&self) -> ValueModel {
        match self {
            Value::Text(text) => ValueModel::Text(text@),
            Value::Number(n) => ValueModel::Number(*n as int),
        }
    }
}

impl View for Binding {
    type V = BindingModel;

    open spec fn view(&self) -> BindingModel {
        BindingModel { name: self.name@, value: self.value@ }
    }
}

/// The models of a sequence of bindings.
pub open spec fn bindings_view(bindings: Seq<Binding>) -> Seq<BindingModel> {
    Seq::new(bindings.len(), |i: int| bindings[i]@)
}

/// The value bound to `name`: that of the first binding of that name.
pub open spec fn lookup(bindings: Seq<BindingModel>, name: Seq<char>) -> Option<ValueModel>
    decreases bindings.len(),
{
    if bindings.len() == 0 {
        None
    } else if bindings[0].name == name {
        Some(bindings[0].value)
    } else {
        lookup(bindings.drop_first(), name)
    }
}

/// The character of a digit.
pub open spec fn digit_char(d: int) -> char {
    if d == 0 {
        '0'
    } else if d == 1 {
        '1'
    } else if d == 2 {
        '2'
    } else if d == 3 {
        '3'
    } else if d == 4 {
        '4'
    } else if d == 5 {
        '5'
    } else if d == 6 {
        '6'
    } else if d == 7 {
        '7'
    } else if d == 8 {
        '8'
    } else {
        '9'
    }
}

/// The decimal digits of a natural number, without leading zeros.
pub open spec fn digits(n: nat) -> Seq<char>
    decreases n,
{
    if n < 10 {
        seq![digit_char(n as int)]
    } else {
        digits(n / 10).push(digit_char((n % 10) as int))
    }
}

/// The decimal text of an integer: a `-` before the digits of a negative one.
pub open spec fn decimal_text(n: int) -> Seq<char> {
    if n < 0 {
        seq!['-'] + digits((-n) as nat)
    } else {
        digits(n as nat)
    }
}

/// The text of a value: a text itself, a number in decimal.
pub open spec fn value_text(value: ValueModel) -> Seq<char> {
    match value {
        ValueModel::Text(text) => text,
        ValueModel::Number(n) => decimal_text(n),
    }
}

/// The text of the value bound to `name`.
pub open spec fn bound_text(bindings: Seq<BindingModel>, name: Seq<char>) -> Seq<char> {
    match lookup(bindings, name) {
        Some(value) => value_text(value),
        None => Seq::empty(),
    }
}

/// The number bound to `name`.
pub open spec fn bound_number(bindings: Seq<BindingModel>, name: Seq<char>) -> int {
    match lookup(bindings, name) {
        Some(ValueModel::Number(n)) => n,
        _ => 0,
    }
}

/// Appends the decimal digits of `n` to `out`.
pub fn push_digits(out: &mut String, n: u64)
    ensures
        final(out)@ == old(out)@ + digits(n as nat),
    decreases n,
{
    if n >= 10 {
        push_digits(out, n / 10);
    }
    let d = n % 10;
    let c = if d == 0 {
        '0'
    } else if d == 1 {
        '1'
    } else if d == 2 {
        '2'
    } else if d == 3 {
        '3'
    } else if d == 4 {
        '4'
    } else if d == 5 {
        '5'
    } else if d == 6 {
        '6'
    } else if d == 7 {
        '7'
    } else if d == 8 {
        '8'
    } else {
        '9'
    };
    out.push(c);
    proof {
        assert(final(out)@ =~= old(out)@ + digits(n as nat));
    }
}

/// Appends the decimal text of `n` to `out`.
pub fn push_decimal(out: &mut String, n: i64)
    ensures
        final(out)@ == old(out)@ + decimal_text(n as int),
{
    if n < 0 {
        out.push('-');
        let magnitude: u64 = (-(n + 1)) as u64 + 1;
        push_digits(out, magnitude);
        proof {
            assert(final(out)@ =~= old(out)@ + decimal_text(n as int));
        }
    } else {
        push_digits(out, n as u64);
    }
}

/// The value bound to `name`.
pub fn find_binding<'a>(bindings: &'a Vec<Binding>, name: &String) -> (r: Option<&'a Value>)
    ensures
        match r {
            Some(value) => lookup(bindings_view(bindings@), name@) == Some(value@),
            None => lookup(bindings_view(bindings@), name@) is None,
        },
{
    let ghost all = bindings_view(bindings@);
    let mut i: usize = 0;
    proof {
        assert(all.skip(0) =~= all);
    }
    while i < bindings.len()
        invariant
            i <= bindings@.len(),
            all == bindings_view(bindings@),
            lookup(all, name@) == lookup(all.skip(i as int), name@),
        decreases bindings@.len() - i,
    {
        if bindings[i].name == *name {
            return Some(&bindings[i].value);
        }
        proof {
            assert(all.skip(i as int).drop_first() =~= all.skip(i + 1));
        }
        i += 1;
    }
    None
}

/// The first position of `x` in `s`, or the length of `s` if it is not
/// there.
pub open spec fn position<A>(s: Seq<A>, x: A) -> int
    decreases s.len(),
{
    if s.len() == 0 {
        0
    } else if s[0] == x {
        0
    } else {
        1 + position(s.drop_first(), x)
    }
}

/// What the first position says: `x` stands there, and nowhere before.
pub proof fn lemma_position<A>(s: Seq<A>, x: A)
    ensures
        0 <= position(s, x) <= s.len(),
        position(s, x) < s.len() ==> s[position(s, x)] == x,
        forall|j: int| 0 <= j < position(s, x) ==> #[trigger] s[j] != x,
    decreases s.len(),
{
    if s.len() > 0 && s[0] != x {
        let rest = s.drop_first();
        lemma_position(rest, x);
        assert forall|j: int| 0 <= j < position(s, x) implies #[trigger] s[j] != x by {
            if j > 0 {
                assert(s[j] == rest[j - 1]);
            }
        }
    }
}

/// Where `x` stands at `i` and nowhere before, or `i` is the length and `x`
/// stands nowhere, `i` is its first position.
pub proof fn lemma_position_is<A>(s: Seq<A>, x: A, i: int)
    requires
        0 <= i <= s.len(),
        forall|j: int| 0 <= j < i ==> #[trigger] s[j] != x,
        i < s.len() ==> s[i] == x,
    ensures
        position(s, x) == i,
    decreases i,
{
    if i > 0 {
        let rest = s.drop_first();
        assert forall|j: int| 0 <= j < i - 1 implies #[trigger] rest[j] != x by {
            assert(rest[j] == s[j + 1]);
        }
        lemma_position_is(rest, x, i - 1);
    }
}

/// The keys of the cases of a `select`.
pub open spec fn select_keys(cases: Seq<SelectCaseModel>) -> Seq<Seq<char>> {
    Seq::new(cases.len(), |i: int| cases[i].key)
}

/// The keys of the cases of a `plural` or `selectordinal`.
pub open spec fn plural_keys(cases: Seq<PluralCaseModel>) -> Seq<PluralCategory> {
    Seq::new(cases.len(), |i: int| cases[i].key)
}

/// The case of a `select` that is chosen for `text`: the first whose key is
/// `text`; where there is none, the first case `other`; where there is none
/// either, the number of cases.
pub open spec fn chosen_select(cases: Seq<SelectCaseModel>, text: Seq<char>) -> int {
    if position(select_keys(cases), text) < cases.len() {
        position(select_keys(cases), text)
    } else {
        position(select_keys(cases), fallback_key())
    }
}

/// The case of a `plural` or `selectordinal` that is chosen for a category:
/// the first whose key is that category; where there is none, or no
/// category, the first case `other`; where there is none either, the number
/// of cases.
pub open spec fn chosen_plural(cases: Seq<PluralCaseModel>, category: Option<PluralCategory>) -> int {
    if category is Some && position(plural_keys(cases), category->Some_0) < cases.len() {
        position(plural_keys(cases), category->Some_0)
    } else {
        position(plural_keys(cases), PluralCategory::Other)
    }
}

/// The offset of a selector: zero where none is given.
pub open spec fn offset_or_zero(plural_offset: Option<i32>) -> int {
    match plural_offset {
        Some(offset) => offset as int,
        None => 0,
    }
}

/// The text of a message under `bindings` in the locale `locale`. Inside a
/// case of a `plural` or `selectordinal`, `scope` is the number that the case
/// was chosen for, which `#` stands for; elsewhere it is `None`, and `#`
/// stands for itself.
pub open spec fn rendered(
    message: Seq<TokenModel>,
    bindings: Seq<BindingModel>,
    locale: Seq<char>,
    scope: Option<int>,
) -> Seq<char>
    decreases message, 0int,
{
    if message.len() == 0 {
        Seq::empty()
    } else {
        rendered(message.drop_last(), bindings, locale, scope) + token_rendered(
            message.last(),
            bindings,
            locale,
            scope,
        )
    }
}

/// The text of one token.
pub open spec fn token_rendered(
    token: TokenModel,
    bindings: Seq<BindingModel>,
    locale: Seq<char>,
    scope: Option<int>,
) -> Seq<char>
    decreases token, 1int,
{
    match token {
        TokenModel::Content { value } => value,
        TokenModel::PlainArg { arg } => bound_text(bindings, arg),
        TokenModel::FunctionArg { arg, key, param } => bound_text(bindings, arg),
        TokenModel::Octothorpe => match scope {
            Some(n) => decimal_text(n),
            None => seq!['#'],
        },
        TokenModel::Select { arg, cases, plural_offset } => {
            let i = chosen_select(cases, bound_text(bindings, arg));
            if 0 <= i < cases.len() {
                rendered(cases[i].tokens, bindings, locale, scope)
            } else {
                Seq::empty()
            }
        },
        TokenModel::Plural { arg, cases, plural_offset } => {
            let n = bound_number(bindings, arg) - offset_or_zero(plural_offset);
            let i = chosen_plural(cases, cldr_category(locale, false, n));
            if 0 <= i < cases.len() {
                rendered(cases[i].tokens, bindings, locale, Some(n))
            } else {
                Seq::empty()
            }
        },
        TokenModel::SelectOrdinal { arg, cases, plural_offset } => {
            let n = bound_number(bindings, arg) - offset_or_zero(plural_offset);
            let i = chosen_plural(cases, cldr_category(locale, true, n));
            if 0 <= i < cases.len() {
                rendered(cases[i].tokens, bindings, locale, Some(n))
            } else {
                Seq::empty()
            }
        },
    }
}

/// Whether `bindings` serves the use `u`: the argument is bound, to a number
/// where it is used as one.
pub open spec fn serves(bindings: Seq<BindingModel>, u: Use) -> bool {
    match lookup(bindings, u.name) {
        None => false,
        Some(ValueModel::Number(_)) => true,
        Some(ValueModel::Text(_)) => u.role != ArgType::OrdinalArg,
    }
}

/// Whether `bindings` serves every one of the uses `us`.
pub open spec fn serves_all(bindings: Seq<BindingModel>, us: Seq<Use>) -> bool {
    forall|k: int| 0 <= k < us.len() ==> serves(bindings, #[trigger] us[k])
}

/// Whether `bindings` serves every use of an argument in `message`.
pub open spec fn covers(bindings: Seq<BindingModel>, message: Seq<TokenModel>) -> bool {
    serves_all(bindings, uses(message))
}

/// The case that is chosen for `text`.
pub fn choose_select_case(cases: &Vec<SelectCase>, text: &String) -> (i: usize)
    ensures
        i == chosen_select(select_cases_view(cases@), text@),
        i <= cases@.len(),
{
    let found = find_select_case(cases, text);
    if found < cases.len() {
        found
    } else {
        let other = "other".to_owned();
        proof {
            reveal_strlit("other");
            assert(other@ =~= fallback_key());
        }
        find_select_case(cases, &other)
    }
}

fn find_select_case(cases: &Vec<SelectCase>, key: &String) -> (i: usize)
    ensures
        i == position(select_keys(select_cases_view(cases@)), key@),
        i <= cases@.len(),
{
    let ghost keys = select_keys(select_cases_view(cases@));
    let mut i: usize = 0;
    while i < cases.len() && !(cases[i].key == *key)
        invariant
            i <= cases@.len(),
            keys == select_keys(select_cases_view(cases@)),
            forall|j: int| 0 <= j < i ==> #[trigger] keys[j] != key@,
        decreases cases@.len() - i,
    {
        i += 1;
    }
    proof {
        lemma_position_is(keys, key@, i as int);
    }
    i
}

/// The case that is chosen for `category`.
pub fn choose_plural_case(cases: &Vec<PluralCase>, category: Option<PluralCategory>) -> (i: usize)
    ensures
        i == chosen_plural(plural_cases_view(cases@), category),
        i <= cases@.len(),
{
    match category {
        Some(c) => {
            let found = find_plural_case(cases, c);
            if found < cases.len() {
                return found;
            }
        },
        None => {},
    }
    find_plural_case(cases, PluralCategory::Other)
}

fn same_category(a: PluralCategory, b: PluralCategory) -> (r: bool)
    ensures
        r == (a == b),
{
    match (a, b) {
        (PluralCategory::Zero, PluralCategory::Zero) => true,
        (PluralCategory::One, PluralCategory::One) => true,
        (PluralCategory::Two, PluralCategory::Two) => true,
        (PluralCategory::Few, PluralCategory::Few) => true,
        (PluralCategory::Many, PluralCategory::Many) => true,
        (PluralCategory::Other, PluralCategory::Other) => true,
        _ => false,
    }
}

fn find_plural_case(cases: &Vec<PluralCase>, key: PluralCategory) -> (i: usize)
    ensures
        i == position(plural_keys(plural_cases_view(cases@)), key),
        i <= cases@.len(),
{
    let ghost keys = plural_keys(plural_cases_view(cases@));
    let mut i: usize = 0;
    while i < cases.len() && !same_category(cases[i].key, key)
        invariant
            i <= cases@.len(),
            keys == plural_keys(plural_cases_view(cases@)),
            forall|j: int| 0 <= j < i ==> #[trigger] keys[j] != key,
        decreases cases@.len() - i,
    {
        i += 1;
    }
    proof {
        lemma_position_is(keys, key, i as int);
    }
    i
}

/// Bindings serve two sequences of uses exactly if they serve both.
pub proof fn lemma_serves_split(bindings: Seq<BindingModel>, a: Seq<Use>, b: Seq<Use>)
    ensures
        serves_all(bindings, a + b) <==> serves_all(bindings, a) && serves_all(bindings, b),
{
    if serves_all(bindings, a + b) {
        assert forall|k: int| 0 <= k < a.len() implies serves(bindings, #[trigger] a[k]) by {
            assert((a + b)[k] == a[k]);
        }
        assert forall|k: int| 0 <= k < b.len() implies serves(bindings, #[trigger] b[k]) by {
            assert((a + b)[a.len() + k] == b[k]);
        }
    }
    if serves_all(bindings, a) && serves_all(bindings, b) {
        assert forall|k: int| 0 <= k < (a + b).len() implies serves(
            bindings,
            #[trigger] (a + b)[k],
        ) by {
            if k < a.len() {
                assert((a + b)[k] == a[k]);
            } else {
                assert((a + b)[k] == b[k - a.len()]);
            }
        }
    }
}

/// Bindings that cover a message cover each of its tokens.
pub proof fn lemma_covers_token(bindings: Seq<BindingModel>, message: Seq<TokenModel>, i: int)
    requires
        covers(bindings, message),
        0 <= i < message.len(),
    ensures
        serves_all(bindings, token_uses(message[i])),
    decreases message.len(),
{
    lemma_serves_split(bindings, uses(message.drop_last()), token_uses(message.last()));
    if i < message.len() - 1 {
        lemma_covers_token(bindings, message.drop_last(), i);
    }
}

/// Bindings that serve the cases of a `select` cover the body of each.
pub proof fn lemma_covers_select_case(
    bindings: Seq<BindingModel>,
    cases: Seq<SelectCaseModel>,
    i: int,
)
    requires
        serves_all(bindings, select_uses(cases)),
        0 <= i < cases.len(),
    ensures
        covers(bindings, cases[i].tokens),
    decreases cases.len(),
{
    lemma_serves_split(bindings, select_uses(cases.drop_last()), uses(cases.last().tokens));
    if i < cases.len() - 1 {
        lemma_covers_select_case(bindings, cases.drop_last(), i);
    }
}

/// Bindings that serve the cases of a `plural` cover the body of each.
pub proof fn lemma_covers_plural_case(
    bindings: Seq<BindingModel>,
    cases: Seq<PluralCaseModel>,
    i: int,
)
    requires
        serves_all(bindings, plural_uses(cases)),
        0 <= i < cases.len(),
    ensures
        covers(bindings, cases[i].tokens),
    decreases cases.len(),
{
    lemma_serves_split(bindings, plural_uses(cases.drop_last()), uses(cases.last().tokens));
    if i < cases.len() - 1 {
        lemma_covers_plural_case(bindings, cases.drop_last(), i);
    }
}

/// The model of the number that `#` stands for.
pub open spec fn scope_view(scope: Option<i64>) -> Option<int> {
    match scope {
        Some(n) => Some(n as int),
        None => None,
    }
}

/// Appends the text of the value bound to `name` to `out`.
fn push_bound_text(bindings: &Vec<Binding>, name: &String, out: &mut String)
    ensures
        final(out)@ == old(out)@ + bound_text(bindings_view(bindings@), name@),
{
    match find_binding(bindings, name) {
        Some(Value::Text(text)) => {
            out.append(text.as_str());
        },
        Some(Value::Number(n)) => {
            push_decimal(out, *n as i64);
        },
        None => {
            assert(out@ =~= old(out)@ + Seq::<char>::empty());
        },
    }
}

/// Appends the text of `tokens` under `bindings` to `out`.
pub fn render_into(
    tokens: &Vec<Token>,
    bindings: &Vec<Binding>,
    locale: &str,
    scope: Option<i64>,
    out: &mut String,
)
    requires
        covers(bindings_view(bindings@), message_view(tokens@)),
    ensures
        final(out)@ == old(out)@ + rendered(
            message_view(tokens@),
            bindings_view(bindings@),
            locale@,
            scope_view(scope),
        ),
    decreases tokens,
{
    let ghost message = message_view(tokens@);
    let ghost bound = bindings_view(bindings@);
    let mut i: usize = 0;
    proof {
        assert(message_view(tokens@.take(0)) =~= Seq::<TokenModel>::empty());
        assert(out@ =~= old(out)@ + Seq::<char>::empty());
    }
    while i < tokens.len()
        invariant
            i <= tokens@.len(),
            message == message_view(tokens@),
            bound == bindings_view(bindings@),
            covers(bound, message),
            out@ == old(out)@ + rendered(
                message_view(tokens@.take(i as int)),
                bound,
                locale@,
                scope_view(scope),
            ),
        decreases tokens@.len() - i,
    {
        proof {
            lemma_covers_token(bound, message, i as int);
        }
        render_token_into(&tokens[i], bindings, locale, scope, out);
        proof {
            let done = message_view(tokens@.take(i as int));
            let more = message_view(tokens@.take(i + 1));
            assert(more.drop_last() =~= done);
            assert(more.last() == token_view(tokens@[i as int]));
            assert(out@ =~= old(out)@ + rendered(more, bound, locale@, scope_view(scope)));
        }
        i += 1;
    }
    proof {
        assert(tokens@.take(tokens@.len() as int) =~= tokens@);
    }
}

/// Appends the text of `token` under `bindings` to `out`.
pub fn render_token_into(
    token: &Token,
    bindings: &Vec<Binding>,
    locale: &str,
    scope: Option<i64>,
    out: &mut String,
)
    requires
        serves_all(bindings_view(bindings@), token_uses(token_view(*token))),
    ensures
        final(out)@ == old(out)@ + token_rendered(
            token_view(*token),
            bindings_view(bindings@),
            locale@,
            scope_view(scope),
        ),
    decreases token,
{
    let ghost bound = bindings_view(bindings@);
    match token {
        Token::Content { value } => {
            out.append(value.as_str());
        },
        Token::PlainArg { arg } => {
            push_bound_text(bindings, arg, out);
        },
        Token::FunctionArg { arg, key, param } => {
            push_bound_text(bindings, arg, out);
        },
        Token::Octothorpe {  } => {
            match scope {
                Some(n) => {
                    push_decimal(out, n);
                },
                None => {
                    out.push('#');
                    assert(out@ =~= old(out)@ + seq!['#']);
                },
            }
        },
        Token::Select { arg, cases, plural_offset } => {
            let mut text = String::new();
            push_bound_text(bindings, arg, &mut text);
            assert(text@ =~= bound_text(bound, arg@));
            let chosen = choose_select_case(cases, &text);
            if chosen < cases.len() {
                proof {
                    let first = Use { name: arg@, role: ArgType::SelectArg };
                    lemma_serves_split(bound, seq![first], select_uses(select_cases_view(cases@)));
                    lemma_covers_select_case(bound, select_cases_view(cases@), chosen as int);
                }
                render_into(&cases[chosen].tokens, bindings, locale, scope, out);
            } else {
                assert(out@ =~= old(out)@ + Seq::<char>::empty());
            }
        },
        Token::Plural { arg, cases, plural_offset } => {
            let n = bound_number_of(bindings, arg) - offset_of(plural_offset);
            let chosen = choose_plural_case(cases, plural_category(locale, false, n));
            if chosen < cases.len() {
                proof {
                    let first = Use { name: arg@, role: ArgType::OrdinalArg };
                    lemma_serves_split(bound, seq![first], plural_uses(plural_cases_view(cases@)));
                    lemma_covers_plural_case(bound, plural_cases_view(cases@), chosen as int);
                }
                render_into(&cases[chosen].tokens, bindings, locale, Some(n), out);
            } else {
                assert(out@ =~= old(out)@ + Seq::<char>::empty());
            }
        },
        Token::SelectOrdinal { arg, cases, plural_offset } => {
            let n = bound_number_of(bindings, arg) - offset_of(plural_offset);
            let chosen = choose_plural_case(cases, plural_category(locale, true, n));
            if chosen < cases.len() {
                proof {
                    let first = Use { name: arg@, role: ArgType::OrdinalArg };
                    lemma_serves_split(bound, seq![first], plural_uses(plural_cases_view(cases@)));
                    lemma_covers_plural_case(bound, plural_cases_view(cases@), chosen as int);
                }
                render_into(&cases[chosen].tokens, bindings, locale, Some(n), out);
            } else {
                assert(out@ =~= old(out)@ + Seq::<char>::empty());
            }
        },
    }
}

/// The number bound to `name`, or zero where none is.
fn bound_number_of(bindings: &Vec<Binding>, name: &String) -> (n: i64)
    ensures
        n == bound_number(bindings_view(bindings@), name@),
        i32::MIN <= n <= i32::MAX,
{
    match find_binding(bindings, name) {
        Some(Value::Number(n)) => *n as i64,
        _ => 0,
    }
}

/// The offset of a selector, or zero where none is given.
fn offset_of(plural_offset: &Option<i32>) -> (n: i64)
    ensures
        n == offset_or_zero(*plural_offset),
        i32::MIN <= n <= i32::MAX,
{
    match plural_offset {
        Some(offset) => *offset as i64,
        None => 0,
    }
}

/// Renders a message: the text of its tokens, one after the other, under
/// the values that `bindings` gives its arguments, in the locale `locale`.
///
/// The bindings must cover the message: see [`satisfies`], and
/// [`try_render`] for a function that asks for nothing.
pub fn render(tokens: &Vec<Token>, bindings: &Vec<Binding>, locale: &str) -> (text: String)
    requires
        covers(bindings_view(bindings@), message_view(tokens@)),
    ensures
        text@ == rendered(message_view(tokens@), bindings_view(bindings@), locale@, None),
{
    let mut text = String::new();
    render_into(tokens, bindings, locale, None, &mut text);
    proof {
        assert(text@ =~= rendered(message_view(tokens@), bindings_view(bindings@), locale@, None));
    }
    text
}

/// Whether `bindings` serves a requirement: the argument is bound, to a
/// number where one of its roles asks for one.
pub open spec fn serves_requirement(bindings: Seq<BindingModel>, req: RequirementModel) -> bool {
    match lookup(bindings, req.name) {
        None => false,
        Some(ValueModel::Number(_)) => true,
        Some(ValueModel::Text(_)) => !req.roles.contains(ArgType::OrdinalArg),
    }
}

/// Bindings cover a message exactly if they serve each of its requirements.
pub proof fn lemma_covers_by_requirements(bindings: Seq<BindingModel>, message: Seq<TokenModel>)
    ensures
        covers(bindings, message) <==> forall|i: int|
            0 <= i < requirements(message).len() ==> serves_requirement(
                bindings,
                #[trigger] requirements(message)[i],
            ),
{
    let us = uses(message);
    let reqs = requirements(message);
    lemma_requirements_well_formed(us);
    if covers(bindings, message) {
        assert forall|i: int| 0 <= i < reqs.len() implies serves_requirement(
            bindings,
            #[trigger] reqs[i],
        ) by {
            let name = reqs[i].name;
            lemma_index_of(reqs, name, i);
            let first = reqs[i].roles[0];
            assert(reqs[i].roles.contains(first));
            lemma_roles_are_uses(us, name, first);
            let k = choose|k: int| 0 <= k < us.len() && #[trigger] us[k] == (Use {
                name,
                role: first,
            });
            assert(serves(bindings, us[k]));
            if reqs[i].roles.contains(ArgType::OrdinalArg) {
                lemma_roles_are_uses(us, name, ArgType::OrdinalArg);
                let o = choose|o: int| 0 <= o < us.len() && #[trigger] us[o] == (Use {
                    name,
                    role: ArgType::OrdinalArg,
                });
                assert(serves(bindings, us[o]));
            }
        }
    }
    if forall|i: int| 0 <= i < reqs.len() ==> serves_requirement(bindings, #[trigger] reqs[i]) {
        assert forall|k: int| 0 <= k < us.len() implies serves(bindings, #[trigger] us[k]) by {
            let u = us[k];
            assert(used(us, u.name, u.role));
            lemma_roles_are_uses(us, u.name, u.role);
            lemma_index_of_found(reqs, u.name);
            let i = index_of(reqs, u.name);
            assert(serves_requirement(bindings, reqs[i]));
        }
    }
}

/// Whether `bindings` covers the message `tokens`: every argument is bound,
/// to a number where the message chooses a plural case by it.
pub fn satisfies(tokens: &Vec<Token>, bindings: &Vec<Binding>) -> (r: bool)
    ensures
        r == covers(bindings_view(bindings@), message_view(tokens@)),
{
    let ghost bound = bindings_view(bindings@);
    let ghost message = message_view(tokens@);
    let args = tokens.get_args();
    let mut i: usize = 0;
    while i < args.entries.len()
        invariant
            i <= args.entries@.len(),
            args@ == requirements(message),
            args@.len() == args.entries@.len(),
            message == message_view(tokens@),
            bound == bindings_view(bindings@),
            forall|j: int| 0 <= j < i ==> serves_requirement(bound, #[trigger] args@[j]),
        decreases args.entries@.len() - i,
    {
        let served = match find_binding(bindings, &args.entries[i].name) {
            None => false,
            Some(Value::Number(_)) => true,
            Some(Value::Text(_)) => !has_role(&args.entries[i].roles, ArgType::OrdinalArg),
        };
        assert(served == serves_requirement(bound, args@[i as int]));
        if !served {
            proof {
                lemma_covers_by_requirements(bound, message);
                assert(!serves_requirement(bound, requirements(message)[i as int]));
            }
            return false;
        }
        i += 1;
    }
    proof {
        lemma_covers_by_requirements(bound, message);
    }
    true
}

/// Renders a message if `bindings` covers it, and says so if not.
pub fn try_render(tokens: &Vec<Token>, bindings: &Vec<Binding>, locale: &str) -> (r: Option<
    String,
>)
    ensures
        match r {
            Some(text) => covers(bindings_view(bindings@), message_view(tokens@)) && text@
                == rendered(message_view(tokens@), bindings_view(bindings@), locale@, None),
            None => !covers(bindings_view(bindings@), message_view(tokens@)),
        },
{
    if satisfies(tokens, bindings) {
        Some(render(tokens, bindings, locale))
    } else {
        None
    }
}

/// A `select` is rendered as the body of its first case whose key is the
/// text of the bound value; where no key is that text, as the body of its
/// first case `other`; where there is no such case either, as nothing.
pub proof fn lemma_select_rendered(
    arg: Seq<char>,
    cases: Seq<SelectCaseModel>,
    plural_offset: Option<i32>,
    bindings: Seq<BindingModel>,
    locale: Seq<char>,
    scope: Option<int>,
)
    ensures
        ({
            let text = bound_text(bindings, arg);
            let token = TokenModel::Select { arg, cases, plural_offset };
            let out = token_rendered(token, bindings, locale, scope);
            &&& forall|i: int|
                0 <= i < cases.len() && (#[trigger] cases[i]).key == text && (forall|j: int|
                    0 <= j < i ==> (#[trigger] cases[j]).key != text) ==> out == rendered(
                    cases[i].tokens,
                    bindings,
                    locale,
                    scope,
                )
            &&& forall|i: int|
                0 <= i < cases.len() && (#[trigger] cases[i]).key == fallback_key() && (forall|
                    j: int,
                |
                    0 <= j < cases.len() ==> (#[trigger] cases[j]).key != text) && (forall|j: int|
                    0 <= j < i ==> (#[trigger] cases[j]).key != fallback_key()) ==> out
                    == rendered(cases[i].tokens, bindings, locale, scope)
            &&& (forall|j: int|
                0 <= j < cases.len() ==> (#[trigger] cases[j]).key != text && cases[j].key
                    != fallback_key()) ==> out == Seq::<char>::empty()
        }),
{
    let text = bound_text(bindings, arg);
    let keys = select_keys(cases);
    lemma_position(keys, text);
    lemma_position(keys, fallback_key());
    assert forall|i: int|
        0 <= i < cases.len() && (#[trigger] cases[i]).key == text && (forall|j: int|
            0 <= j < i ==> (#[trigger] cases[j]).key != text) implies chosen_select(cases, text)
        == i by {
        assert forall|j: int| 0 <= j < i implies #[trigger] keys[j] != text by {
            assert(keys[j] == cases[j].key);
        }
        lemma_position_is(keys, text, i);
    }
    assert forall|i: int|
        0 <= i < cases.len() && (#[trigger] cases[i]).key == fallback_key() && (forall|j: int|
            0 <= j < cases.len() ==> (#[trigger] cases[j]).key != text) && (forall|j: int|
            0 <= j < i ==> (#[trigger] cases[j]).key != fallback_key()) implies chosen_select(
        cases,
        text,
    ) == i by {
        assert forall|j: int| 0 <= j < keys.len() implies #[trigger] keys[j] != text by {
            assert(keys[j] == cases[j].key);
        }
        lemma_position_is(keys, text, keys.len() as int);
        assert forall|j: int| 0 <= j < i implies #[trigger] keys[j] != fallback_key() by {
            assert(keys[j] == cases[j].key);
        }
        lemma_position_is(keys, fallback_key(), i);
    }
    if forall|j: int|
        0 <= j < cases.len() ==> (#[trigger] cases[j]).key != text && cases[j].key
            != fallback_key() {
        assert forall|j: int| 0 <= j < keys.len() implies #[trigger] keys[j] != text by {
            assert(keys[j] == cases[j].key);
        }
        assert forall|j: int| 0 <= j < keys.len() implies #[trigger] keys[j]
            != fallback_key() by {
            assert(keys[j] == cases[j].key);
        }
        lemma_position_is(keys, text, keys.len() as int);
        lemma_position_is(keys, fallback_key(), keys.len() as int);
    }
}

} // verus!
