//! The syntax tree of a message, and its mathematical model.

use vstd::prelude::*;

verus! {

/// A CLDR plural category, the key of a `plural` or `selectordinal` case.
#[derive(Clone, Copy, Debug, PartialEq, Eq, Hash)]
pub enum PluralCategory {
    Zero,
    One,
    Two,
    Few,
    Many,
    Other,
}

/// One node of a parsed message.
#[derive(Debug, PartialEq, Eq, Hash)]
#[allow(inconsistent_fields)]
pub enum Token {
    /// Literal text.
    Content { value: String },
    /// An argument that is replaced by its bound value.
    PlainArg { arg: String },
    /// An argument that is passed through a formatting function.
    FunctionArg { arg: String, key: String, param: Option<Vec<Token>> },
    /// A sub-message chosen by the cardinal plural category of an argument.
    Plural { arg: String, cases: Vec<PluralCase>, plural_offset: Option<i32> },
    /// A sub-message chosen by exact match on an argument.
    Select { arg: String, cases: Vec<SelectCase>, plural_offset: Option<i32> },
    /// A sub-message chosen by the ordinal plural category of an argument.
    SelectOrdinal { arg: String, cases: Vec<PluralCase>, plural_offset: Option<i32> },
    /// A `#`: inside a plural case the number, elsewhere a literal `#`.
    Octothorpe {},
}

/// A case of a `plural` or `selectordinal`.
#[derive(Debug, PartialEq, Eq, Hash)]
pub struct PluralCase {
    pub key: PluralCategory,
    pub tokens: Vec<Token>,
}

/// A case of a `select`.
#[derive(Debug, PartialEq, Eq, Hash)]
pub struct SelectCase {
    pub key: String,
    pub tokens: Vec<Token>,
}

/// How an argument is used at one place of a message.
#[derive(Clone, Copy, Debug, PartialEq, Eq, Hash, Structural)]
pub enum ArgType {
    OrdinalArg,
    PlainArg,
    SelectArg,
    FunctionArg,
}

/// The model of a [`Token`]: the same tree over sequences of characters.
#[allow(inconsistent_fields)]
pub ghost enum TokenModel {
    Content { value: Seq<char> },
    PlainArg { arg: Seq<char> },
    FunctionArg { arg: Seq<char>, key: Seq<char>, param: Option<Seq<TokenModel>> },
    Plural { arg: Seq<char>, cases: Seq<PluralCaseModel>, plural_offset: Option<i32> },
    Select { arg: Seq<char>, cases: Seq<SelectCaseModel>, plural_offset: Option<i32> },
    SelectOrdinal { arg: Seq<char>, cases: Seq<PluralCaseModel>, plural_offset: Option<i32> },
    Octothorpe,
}

/// The model of a [`PluralCase`].
pub ghost struct PluralCaseModel {
    pub key: PluralCategory,
    pub tokens: Seq<TokenModel>,
}

/// The model of a [`SelectCase`].
pub ghost struct SelectCaseModel {
    pub key: Seq<char>,
    pub tokens: Seq<TokenModel>,
}

/// The model of a message: the models of its tokens, in order.
pub open spec fn message_view(tokens: Seq<Token>) -> Seq<TokenModel>
    decreases tokens,
{
    Seq::new(tokens.len(), |i: int| if 0 <= i < tokens.len() { token_view(tokens[i]) } else { TokenModel::Octothorpe })
}

/// The models of a sequence of `plural` cases.
pub open spec fn plural_cases_view(cases: Seq<PluralCase>) -> Seq<PluralCaseModel>
    decreases cases,
{
    Seq::new(cases.len(), |i: int| if 0 <= i < cases.len() { plural_case_view(cases[i]) } else { arbitrary() })
}

/// The models of a sequence of `select` cases.
pub open spec fn select_cases_view(cases: Seq<SelectCase>) -> Seq<SelectCaseModel>
    decreases cases,
{
    Seq::new(cases.len(), |i: int| if 0 <= i < cases.len() { select_case_view(cases[i]) } else { arbitrary() })
}

pub open spec fn plural_case_view(case: PluralCase) -> PluralCaseModel
    decreases case,
{
    PluralCaseModel { key: case.key, tokens: message_view(case.tokens@) }
}

pub open spec fn select_case_view(case: SelectCase) -> SelectCaseModel
    decreases case,
{
    SelectCaseModel { key: case.key@, tokens: message_view(case.tokens@) }
}

/// The model of one token.
pub open spec fn token_view(token: Token) -> TokenModel
    decreases token,
{
    match token {
        Token::Content { value } => TokenModel::Content { value: value@ },
        Token::PlainArg { arg } => TokenModel::PlainArg { arg: arg@ },
        Token::FunctionArg { arg, key, param } => TokenModel::FunctionArg {
            arg: arg@,
            key: key@,
            param: match param {
                Some(p) => Some(message_view(p@)),
                None => None,
            },
        },
        Token::Plural { arg, cases, plural_offset } => TokenModel::Plural {
            arg: arg@,
            cases: plural_cases_view(cases@),
            plural_offset,
        },
        Token::Select { arg, cases, plural_offset } => TokenModel::Select {
            arg: arg@,
            cases: select_cases_view(cases@),
            plural_offset,
        },
        Token::SelectOrdinal { arg, cases, plural_offset } => TokenModel::SelectOrdinal {
            arg: arg@,
            cases: plural_cases_view(cases@),
            plural_offset,
        },
        Token::Octothorpe {  } => TokenModel::Octothorpe,
    }
}

/// The model of a message with one more token is the model of the message
/// with the model of the token.
pub proof fn lemma_message_view_push(tokens: Seq<Token>, token: Token)
    ensures
        message_view(tokens.push(token)) == message_view(tokens).push(token_view(token)),
{
    assert(message_view(tokens.push(token)) =~= message_view(tokens).push(token_view(token)));
}

/// The models of cases with one more case.
pub proof fn lemma_select_cases_view_push(cases: Seq<SelectCase>, case: SelectCase)
    ensures
        select_cases_view(cases.push(case)) == select_cases_view(cases).push(
            select_case_view(case),
        ),
{
    assert(select_cases_view(cases.push(case)) =~= select_cases_view(cases).push(
        select_case_view(case),
    ));
}

/// The models of plural cases with one more case.
pub proof fn lemma_plural_cases_view_push(cases: Seq<PluralCase>, case: PluralCase)
    ensures
        plural_cases_view(cases.push(case)) == plural_cases_view(cases).push(
            plural_case_view(case),
        ),
{
    assert(plural_cases_view(cases.push(case)) =~= plural_cases_view(cases).push(
        plural_case_view(case),
    ));
}

/// A copy of a message.
pub fn clone_message(tokens: &Vec<Token>) -> (copy: Vec<Token>)
    ensures
        message_view(copy@) == message_view(tokens@),
    decreases tokens,
{
    let mut copy: Vec<Token> = Vec::new();
    let mut i: usize = 0;
    while i < tokens.len()
        invariant
            i <= tokens@.len(),
            copy@.len() == i,
            forall|j: int| 0 <= j < i ==> token_view(copy@[j]) == token_view(tokens@[j]),
        decreases tokens@.len() - i,
    {
        copy.push(clone_token(&tokens[i]));
        i += 1;
    }
    assert(message_view(copy@) =~= message_view(tokens@));
    copy
}

/// A copy of a token.
pub fn clone_token(token: &Token) -> (copy: Token)
    ensures
        token_view(copy) == token_view(*token),
    decreases token,
{
    match token {
        Token::Content { value } => Token::Content { value: value.clone() },
        Token::PlainArg { arg } => Token::PlainArg { arg: arg.clone() },
        Token::FunctionArg { arg, key, param } => Token::FunctionArg {
            arg: arg.clone(),
            key: key.clone(),
            param: match param {
                Some(tokens) => Some(clone_message(tokens)),
                None => None,
            },
        },
        Token::Plural { arg, cases, plural_offset } => Token::Plural {
            arg: arg.clone(),
            cases: clone_plural_cases(cases),
            plural_offset: *plural_offset,
        },
        Token::Select { arg, cases, plural_offset } => Token::Select {
            arg: arg.clone(),
            cases: clone_select_cases(cases),
            plural_offset: *plural_offset,
        },
        Token::SelectOrdinal { arg, cases, plural_offset } => Token::SelectOrdinal {
            arg: arg.clone(),
            cases: clone_plural_cases(cases),
            plural_offset: *plural_offset,
        },
        Token::Octothorpe {  } => Token::Octothorpe {  },
    }
}

/// A copy of the cases of a `plural` or `selectordinal`.
pub fn clone_plural_cases(cases: &Vec<PluralCase>) -> (copy: Vec<PluralCase>)
    ensures
        plural_cases_view(copy@) == plural_cases_view(cases@),
    decreases cases,
{
    let mut copy: Vec<PluralCase> = Vec::new();
    let mut i: usize = 0;
    while i < cases.len()
        invariant
            i <= cases@.len(),
            copy@.len() == i,
            forall|j: int| 0 <= j < i ==> plural_case_view(copy@[j]) == plural_case_view(cases@[j]),
        decreases cases@.len() - i,
    {
        copy.push(PluralCase { key: cases[i].key, tokens: clone_message(&cases[i].tokens) });
        i += 1;
    }
    assert(plural_cases_view(copy@) =~= plural_cases_view(cases@));
    copy
}

/// A copy of the cases of a `select`.
pub fn clone_select_cases(cases: &Vec<SelectCase>) -> (copy: Vec<SelectCase>)
    ensures
        select_cases_view(copy@) == select_cases_view(cases@),
    decreases cases,
{
    let mut copy: Vec<SelectCase> = Vec::new();
    let mut i: usize = 0;
    while i < cases.len()
        invariant
            i <= cases@.len(),
            copy@.len() == i,
            forall|j: int| 0 <= j < i ==> select_case_view(copy@[j]) == select_case_view(cases@[j]),
        decreases cases@.len() - i,
    {
        copy.push(
            SelectCase { key: cases[i].key.clone(), tokens: clone_message(&cases[i].tokens) },
        );
        i += 1;
    }
    assert(select_cases_view(copy@) =~= select_cases_view(cases@));
    copy
}

impl Clone for Token {
    fn clone(&self) -> (copy: Self)
        ensures
            token_view(copy) == token_view(*self),
    {
        clone_token(self)
    }
}

impl Clone for PluralCase {
    fn clone(&self) -> (copy: Self)
        ensures
            plural_case_view(copy) == plural_case_view(*self),
    {
        PluralCase { key: self.key, tokens: clone_message(&self.tokens) }
    }
}

impl Clone for SelectCase {
    fn clone(&self) -> (copy: Self)
        ensures
            select_case_view(copy) == select_case_view(*self),
    {
        SelectCase { key: self.key.clone(), tokens: clone_message(&self.tokens) }
    }
}

/// Whether a message is literal text only: each of its tokens is content.
pub open spec fn literal_only(message: Seq<TokenModel>) -> bool {
    forall|i: int| 0 <= i < message.len() ==> #[trigger] message[i] is Content
}

/// Whether `tokens` is literal text only.
pub fn is_literal(tokens: &Vec<Token>) -> (r: bool)
    ensures
        r == literal_only(message_view(tokens@)),
{
    let mut i: usize = 0;
    while i < tokens.len()
        invariant
            i <= tokens@.len(),
            forall|j: int| 0 <= j < i ==> #[trigger] message_view(tokens@)[j] is Content,
        decreases tokens@.len() - i,
    {
        match &tokens[i] {
            Token::Content { .. } => {},
            _ => {
                assert(!(message_view(tokens@)[i as int] is Content));
                return false;
            },
        }
        i += 1;
    }
    true
}

} // verus!
