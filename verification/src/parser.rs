//! The parser: from the characters of a source to the tree of a message.
//!
//! What the parser yields is fixed by three functions on sequences of
//! characters, one for each mode: [`body_from`] for literal text,
//! [`arg_at`] for what follows a `{`, and [`select_from`] for what follows a
//! selector keyword. The executable parser is proved to compute them.

use vstd::prelude::*;
use crate::ast::{
    lemma_message_view_push, lemma_plural_cases_view_push, lemma_select_cases_view_push,
    message_view, plural_cases_view, select_cases_view, token_view, PluralCase, PluralCaseModel,
    PluralCategory, SelectCase, SelectCaseModel, Token, TokenModel,
};
use crate::error::{ErrorDetail, ParseError, Span};
use crate::lexer::{
    apostrophe_from, arg_lexeme, body_lexeme, body_special, content_end, digits_end, ident_end,
    scan_arg_lexeme, scan_body_lexeme, scan_select_lexeme, select_lexeme, skip_space, ArgLexeme,
    BodyLexeme, SelectLexeme,
};
use crate::plural::{category_for_key, category_of};
use crate::text::{
    byte_length, byte_offset, byte_position, lemma_byte_length_is_encoded_length,
    pattern_white_space, substring, to_chars,
};

verus! {

/// How many cases may stand inside one another.
pub const MAX_NESTING: usize = 64;

/// The three selectors.
#[derive(Clone, Copy, Debug, PartialEq, Eq, Structural)]
pub enum SelectKind {
    Plural,
    Select,
    SelectOrdinal,
}

/// Where the parser stands inside a selector.
#[derive(Clone, Copy, Debug, PartialEq, Eq, Structural)]
pub enum Phase {
    /// Behind the selector keyword: a comma is due.
    AfterKeyword,
    /// Behind that comma: `offset` or the first key is due.
    BeforeOffset,
    /// Behind the word `offset`: a colon makes it the offset keyword, a `{`
    /// makes it a key.
    AfterOffsetWord,
    /// Behind `offset:`: the integer is due.
    BeforeInteger,
    /// Behind the offset or a case: a key or the closing `}` is due.
    BeforeKey,
    /// Behind a key: its case is due.
    AfterKey,
}

/// A failure of the parser: what went wrong, and the range of characters it
/// was found at.
pub ghost struct Failure {
    pub detail: ErrorDetail,
    pub start: int,
    pub end: int,
}

/// What the parser knows inside a selector.
pub ghost struct SelectState {
    pub phase: Phase,
    /// The key that was read last.
    pub key: Seq<char>,
    pub offset: Option<i32>,
    /// The cases read so far.
    pub cases: Seq<SelectCaseModel>,
}

/// What the parser does on one lexeme of a selector.
pub ghost enum Step {
    /// Go on in this state.
    Next(SelectState),
    /// A case opens: parse its body, then go on with the case added.
    Case,
    /// The selector is complete.
    Finish,
    /// The lexeme may not stand here.
    Fail(ErrorDetail),
}

/// The value of a digit.
pub open spec fn digit_value(c: char) -> int {
    c as int - '0' as int
}

pub open spec fn ascii_digit(c: char) -> bool {
    '0' <= c <= '9'
}

/// The number that a sequence of ASCII digits denotes.
pub open spec fn decimal_value(digits: Seq<char>) -> int
    decreases digits.len(),
{
    if digits.len() == 0 {
        0
    } else {
        decimal_value(digits.drop_last()) * 10 + digit_value(digits.last())
    }
}

/// The offset that a word denotes: its decimal value, if it is made of ASCII
/// digits and the value fits in 32 bits.
pub open spec fn offset_value(word: Seq<char>) -> Option<i32> {
    if (forall|k: int| 0 <= k < word.len() ==> ascii_digit(#[trigger] word[k])) && decimal_value(
        word,
    ) <= i32::MAX {
        Some(decimal_value(word) as i32)
    } else {
        None
    }
}

/// The error for a lexeme that may not stand where it does.
pub open spec fn unexpected(lexeme: SelectLexeme) -> ErrorDetail {
    match lexeme {
        SelectLexeme::Offset => ErrorDetail::Offset,
        SelectLexeme::Colon => ErrorDetail::Colon,
        SelectLexeme::Int => ErrorDetail::Integer,
        SelectLexeme::Ident => ErrorDetail::Identifier,
        SelectLexeme::Comma => ErrorDetail::Comma,
        SelectLexeme::Open => ErrorDetail::CaseBody,
        SelectLexeme::End => ErrorDetail::EndOfSelect,
        SelectLexeme::Invalid => ErrorDetail::MalformedToken,
        SelectLexeme::Eof => ErrorDetail::EndOfInput,
    }
}

/// Whether `word` may be the key of a case: any word in a `select`, the name
/// of a plural category otherwise.
pub open spec fn key_allowed(plural: bool, word: Seq<char>) -> bool {
    plural ==> category_of(word) is Some
}

/// What a key does: it is kept for the case that must follow, or refused.
pub open spec fn key_step(plural: bool, state: SelectState, word: Seq<char>) -> Step {
    if key_allowed(plural, word) {
        Step::Next(SelectState { phase: Phase::AfterKey, key: word, ..state })
    } else {
        Step::Fail(ErrorDetail::PluralKey)
    }
}

/// The grammar of a selector, lexeme by lexeme: a comma, then optionally
/// `offset`, `:` and an integer, then one or more cases, each a key and a
/// body in `{ }`, then `}`. The word `offset` is a key where a `{` follows it
/// or where the offset may no longer stand.
pub open spec fn select_step(
    plural: bool,
    state: SelectState,
    lexeme: SelectLexeme,
    word: Seq<char>,
) -> Step {
    if lexeme == SelectLexeme::Eof || lexeme == SelectLexeme::Invalid {
        Step::Fail(unexpected(lexeme))
    } else {
        match state.phase {
            Phase::AfterKeyword => if lexeme == SelectLexeme::Comma {
                Step::Next(SelectState { phase: Phase::BeforeOffset, ..state })
            } else {
                Step::Fail(unexpected(lexeme))
            },
            Phase::BeforeOffset => if lexeme == SelectLexeme::Offset {
                Step::Next(SelectState { phase: Phase::AfterOffsetWord, key: word, ..state })
            } else if lexeme == SelectLexeme::Ident || lexeme == SelectLexeme::Int {
                key_step(plural, state, word)
            } else {
                Step::Fail(unexpected(lexeme))
            },
            Phase::AfterOffsetWord => if lexeme == SelectLexeme::Colon {
                Step::Next(SelectState { phase: Phase::BeforeInteger, ..state })
            } else if lexeme == SelectLexeme::Open {
                if key_allowed(plural, state.key) {
                    Step::Case
                } else {
                    Step::Fail(ErrorDetail::PluralKey)
                }
            } else {
                Step::Fail(unexpected(lexeme))
            },
            Phase::BeforeInteger => if lexeme == SelectLexeme::Int {
                match offset_value(word) {
                    Some(n) => Step::Next(
                        SelectState { phase: Phase::BeforeKey, offset: Some(n), ..state },
                    ),
                    None => Step::Fail(ErrorDetail::BadInteger),
                }
            } else {
                Step::Fail(unexpected(lexeme))
            },
            Phase::BeforeKey => if lexeme == SelectLexeme::Ident || lexeme == SelectLexeme::Int
                || lexeme == SelectLexeme::Offset {
                key_step(plural, state, word)
            } else if lexeme == SelectLexeme::End && state.cases.len() > 0 {
                Step::Finish
            } else {
                Step::Fail(unexpected(lexeme))
            },
            Phase::AfterKey => if lexeme == SelectLexeme::Open {
                Step::Case
            } else {
                Step::Fail(unexpected(lexeme))
            },
        }
    }
}

/// The state in which a selector begins.
pub open spec fn initial_state() -> SelectState {
    SelectState {
        phase: Phase::AfterKeyword,
        key: Seq::empty(),
        offset: None,
        cases: Seq::empty(),
    }
}

/// The state behind a case with the body `tokens`.
pub open spec fn with_case(state: SelectState, tokens: Seq<TokenModel>) -> SelectState {
    SelectState {
        phase: Phase::BeforeKey,
        key: Seq::empty(),
        cases: state.cases.push(SelectCaseModel { key: state.key, tokens }),
        ..state
    }
}

/// The token for a literal lexeme that begins at `pos` and ends at `end`.
pub open spec fn literal(s: Seq<char>, lexeme: BodyLexeme, pos: int, end: int) -> TokenModel {
    match lexeme {
        BodyLexeme::DoubleApostrophe => TokenModel::Content { value: seq!['\''] },
        BodyLexeme::Quote => TokenModel::Content { value: s.subrange(pos + 1, end - 1) },
        BodyLexeme::Octothorpe => TokenModel::Octothorpe,
        _ => TokenModel::Content { value: s.subrange(pos, end) },
    }
}

/// The selector that a keyword names.
pub open spec fn selector(lexeme: ArgLexeme) -> Option<SelectKind> {
    match lexeme {
        ArgLexeme::Plural => Some(SelectKind::Plural),
        ArgLexeme::Select => Some(SelectKind::Select),
        ArgLexeme::SelectOrdinal => Some(SelectKind::SelectOrdinal),
        _ => None,
    }
}

/// The plural category of a key that names one.
pub open spec fn plural_key(key: Seq<char>) -> PluralCategory {
    match category_of(key) {
        Some(category) => category,
        None => PluralCategory::Other,
    }
}

/// The cases of a `plural` or `selectordinal`, from cases whose keys name
/// plural categories.
pub open spec fn plural_cases(cases: Seq<SelectCaseModel>) -> Seq<PluralCaseModel> {
    Seq::new(
        cases.len(),
        |i: int| PluralCaseModel { key: plural_key(cases[i].key), tokens: cases[i].tokens },
    )
}

/// The token of a selector.
pub open spec fn select_token(
    kind: SelectKind,
    arg: Seq<char>,
    cases: Seq<SelectCaseModel>,
    plural_offset: Option<i32>,
) -> TokenModel {
    match kind {
        SelectKind::Plural => TokenModel::Plural { arg, cases: plural_cases(cases), plural_offset },
        SelectKind::Select => TokenModel::Select { arg, cases, plural_offset },
        SelectKind::SelectOrdinal => TokenModel::SelectOrdinal {
            arg,
            cases: plural_cases(cases),
            plural_offset,
        },
    }
}

/// The position to go on at behind a part of `s` that began before `floor`
/// and ended at `next`. It is `next`: see [`lemma_progress`].
pub open spec fn resume(s: Seq<char>, floor: int, next: int) -> int {
    if floor <= next <= s.len() {
        next
    } else {
        s.len() as int
    }
}

/// A position and what it skips lie in this order.
pub proof fn lemma_scan_bounds(s: Seq<char>, i: int)
    ensures
        i <= skip_space(s, i),
        i <= ident_end(s, i),
        i <= digits_end(s, i),
        i <= content_end(s, i),
        i <= apostrophe_from(s, i),
        0 <= i <= s.len() ==> skip_space(s, i) <= s.len() && ident_end(s, i) <= s.len()
            && digits_end(s, i) <= s.len() && content_end(s, i) <= s.len() && apostrophe_from(
            s,
            i,
        ) <= s.len(),
    decreases s.len() - i,
{
    if 0 <= i < s.len() {
        lemma_scan_bounds(s, i + 1);
    }
}

/// A lexeme of an argument lies behind the position it was read at, and is
/// not empty unless the source has ended.
pub proof fn lemma_arg_lexeme_bounds(s: Seq<char>, pos: int)
    ensures
        pos <= arg_lexeme(s, pos).1 <= arg_lexeme(s, pos).2,
        arg_lexeme(s, pos).0 != ArgLexeme::Eof ==> arg_lexeme(s, pos).1 < arg_lexeme(s, pos).2,
        0 <= pos <= s.len() ==> arg_lexeme(s, pos).2 <= s.len(),
{
    lemma_scan_bounds(s, pos);
    lemma_scan_bounds(s, skip_space(s, pos) + 1);
}

/// A lexeme of a selector lies behind the position it was read at, and is
/// not empty unless the source has ended.
pub proof fn lemma_select_lexeme_bounds(s: Seq<char>, pos: int)
    ensures
        pos <= select_lexeme(s, pos).1 <= select_lexeme(s, pos).2,
        select_lexeme(s, pos).0 != SelectLexeme::Eof ==> select_lexeme(s, pos).1 < select_lexeme(
            s,
            pos,
        ).2,
        0 <= pos <= s.len() ==> select_lexeme(s, pos).2 <= s.len(),
{
    lemma_scan_bounds(s, pos);
    lemma_scan_bounds(s, skip_space(s, pos) + 1);
    lemma_scan_bounds(s, skip_space(s, pos));
}

/// A lexeme of literal text is not empty.
pub proof fn lemma_body_lexeme_bounds(s: Seq<char>, pos: int)
    requires
        0 <= pos < s.len(),
    ensures
        pos < body_lexeme(s, pos).1 <= s.len(),
{
    lemma_scan_bounds(s, pos + 1);
    lemma_scan_bounds(s, pos + 2);
}

/// The message that begins at `pos`, behind the tokens `acc` that were read
/// before: the tokens, whether a `}` closed the message, and the position
/// behind it. Inside, `depth` more cases may stand inside one another.
pub open spec fn body_from(s: Seq<char>, pos: int, depth: nat, acc: Seq<TokenModel>) -> Result<
    (Seq<TokenModel>, bool, int),
    Failure,
>
    decreases depth, s.len() - pos, 2int,
    when 0 <= pos <= s.len()
{
    if pos >= s.len() {
        Ok((acc, false, pos))
    } else {
        let (lexeme, end) = body_lexeme(s, pos);
        proof {
            lemma_body_lexeme_bounds(s, pos);
        }
        match lexeme {
            BodyLexeme::End => Ok((acc, true, end)),
            BodyLexeme::Argument => match arg_at(s, end, depth) {
                Err(failure) => Err(failure),
                Ok((Some(token), next)) => body_from(s, resume(s, end, next), depth, acc.push(token)),
                Ok((None, next)) => body_from(s, resume(s, end, next), depth, acc),
            },
            _ => body_from(s, end, depth, acc.push(literal(s, lexeme, pos, end))),
        }
    }
}

/// The argument whose `{` ends at `pos`: its token, if it has one, and the
/// position behind its `}`.
pub open spec fn arg_at(s: Seq<char>, pos: int, depth: nat) -> Result<
    (Option<TokenModel>, int),
    Failure,
>
    decreases depth, s.len() - pos, 1int,
    when 0 <= pos <= s.len()
{
    let (first, start, end) = arg_lexeme(s, pos);
    let name = s.subrange(start, end);
    let (second, start2, end2) = arg_lexeme(s, end);
    let (third, start3, end3) = arg_lexeme(s, end2);
    if first == ArgLexeme::Eof {
        Err(Failure { detail: ErrorDetail::EndedWithinArgument, start, end })
    } else if first == ArgLexeme::Invalid {
        Err(Failure { detail: ErrorDetail::MalformedToken, start, end })
    } else if first == ArgLexeme::Comma {
        Err(Failure { detail: ErrorDetail::TokenInArgument, start, end })
    } else if first == ArgLexeme::End {
        Ok((None, end))
    } else if second == ArgLexeme::End {
        Ok((Some(TokenModel::PlainArg { arg: name }), end2))
    } else if second == ArgLexeme::Eof {
        Err(Failure { detail: ErrorDetail::EndOfInput, start: start2, end: end2 })
    } else if second == ArgLexeme::Invalid {
        Err(Failure { detail: ErrorDetail::MalformedToken, start: start2, end: end2 })
    } else if second != ArgLexeme::Comma {
        Err(Failure { detail: ErrorDetail::ExpectedCommaOrClose, start: start2, end: end2 })
    } else if third == ArgLexeme::Eof {
        Err(Failure { detail: ErrorDetail::EndOfInput, start: start3, end: end3 })
    } else if third == ArgLexeme::Invalid {
        Err(Failure { detail: ErrorDetail::MalformedToken, start: start3, end: end3 })
    } else {
        match selector(third) {
            None => Err(Failure { detail: ErrorDetail::TokenInArgument, start: start3, end: end3 }),
            Some(kind) => {
                proof {
                    lemma_arg_lexeme_bounds(s, pos);
                    lemma_arg_lexeme_bounds(s, end);
                    lemma_arg_lexeme_bounds(s, end2);
                }
                match select_from(s, end3, depth, kind != SelectKind::Select, initial_state()) {
                    Err(failure) => Err(failure),
                    Ok((cases, offset, next)) => Ok(
                        (Some(select_token(kind, name, cases, offset)), next),
                    ),
                }
            },
        }
    }
}

/// The rest of a selector from `pos` on, in the state `state`: its cases, its
/// offset, and the position behind its `}`. The keys of a `plural` or
/// `selectordinal` (`plural` is set) must name plural categories.
pub open spec fn select_from(
    s: Seq<char>,
    pos: int,
    depth: nat,
    plural: bool,
    state: SelectState,
) -> Result<(Seq<SelectCaseModel>, Option<i32>, int), Failure>
    decreases depth, s.len() - pos, 0int,
    when 0 <= pos <= s.len()
{
    let (lexeme, start, end) = select_lexeme(s, pos);
    proof {
        lemma_select_lexeme_bounds(s, pos);
    }
    match select_step(plural, state, lexeme, s.subrange(start, end)) {
        Step::Fail(detail) => Err(Failure { detail, start, end }),
        Step::Finish => Ok((state.cases, state.offset, end)),
        Step::Next(next_state) => select_from(s, end, depth, plural, next_state),
        Step::Case => if depth == 0 {
            Err(Failure { detail: ErrorDetail::NestingTooDeep, start, end })
        } else {
            match body_from(s, end, (depth - 1) as nat, Seq::empty()) {
                Err(failure) => Err(failure),
                Ok((tokens, closed, next)) => if closed {
                    select_from(s, resume(s, end, next), depth, plural, with_case(state, tokens))
                } else {
                    Err(Failure { detail: ErrorDetail::EndOfInput, start: next, end: next })
                },
            }
        },
    }
}

/// Every part ends behind the position it began at, and inside the source:
/// an argument and a selector strictly behind it, a message at or behind it.
/// So [`resume`] changes no position.
pub proof fn lemma_progress(s: Seq<char>, pos: int, depth: nat)
    requires
        0 <= pos <= s.len(),
    ensures
        forall|acc: Seq<TokenModel>|
            (#[trigger] body_from(s, pos, depth, acc)) is Ok ==> pos <= body_from(
                s,
                pos,
                depth,
                acc,
            )->Ok_0.2 <= s.len(),
        arg_at(s, pos, depth) is Ok ==> pos < arg_at(s, pos, depth)->Ok_0.1 <= s.len(),
        forall|plural: bool, state: SelectState|
            (#[trigger] select_from(s, pos, depth, plural, state)) is Ok ==> pos < select_from(
                s,
                pos,
                depth,
                plural,
                state,
            )->Ok_0.2 <= s.len(),
    decreases depth, s.len() - pos, 3int,
{
    assert forall|acc: Seq<TokenModel>|
        (#[trigger] body_from(s, pos, depth, acc)) is Ok implies pos <= body_from(
        s,
        pos,
        depth,
        acc,
    )->Ok_0.2 <= s.len() by {
        lemma_body_progress(s, pos, depth, acc);
    }
    lemma_arg_progress(s, pos, depth);
    assert forall|plural: bool, state: SelectState|
        (#[trigger] select_from(s, pos, depth, plural, state)) is Ok implies pos < select_from(
        s,
        pos,
        depth,
        plural,
        state,
    )->Ok_0.2 <= s.len() by {
        lemma_select_progress(s, pos, depth, plural, state);
    }
}

proof fn lemma_body_progress(s: Seq<char>, pos: int, depth: nat, acc: Seq<TokenModel>)
    requires
        0 <= pos <= s.len(),
    ensures
        body_from(s, pos, depth, acc) is Ok ==> pos <= body_from(s, pos, depth, acc)->Ok_0.2
            <= s.len(),
        body_from(s, pos, depth, acc) is Ok && body_from(s, pos, depth, acc)->Ok_0.1 ==> pos
            < body_from(s, pos, depth, acc)->Ok_0.2,
    decreases depth, s.len() - pos, 2int,
{
    if pos < s.len() {
        let (lexeme, end) = body_lexeme(s, pos);
        lemma_body_lexeme_bounds(s, pos);
        match lexeme {
            BodyLexeme::End => {},
            BodyLexeme::Argument => {
                lemma_arg_progress(s, end, depth);
                match arg_at(s, end, depth) {
                    Err(_) => {},
                    Ok((Some(token), next)) => {
                        lemma_body_progress(s, resume(s, end, next), depth, acc.push(token));
                    },
                    Ok((None, next)) => {
                        lemma_body_progress(s, resume(s, end, next), depth, acc);
                    },
                }
            },
            _ => {
                lemma_body_progress(s, end, depth, acc.push(literal(s, lexeme, pos, end)));
            },
        }
    }
}

proof fn lemma_arg_progress(s: Seq<char>, pos: int, depth: nat)
    requires
        0 <= pos <= s.len(),
    ensures
        arg_at(s, pos, depth) is Ok ==> pos < arg_at(s, pos, depth)->Ok_0.1 <= s.len(),
    decreases depth, s.len() - pos, 1int,
{
    let (first, start, end) = arg_lexeme(s, pos);
    lemma_arg_lexeme_bounds(s, pos);
    let (second, start2, end2) = arg_lexeme(s, end);
    lemma_arg_lexeme_bounds(s, end);
    let (third, start3, end3) = arg_lexeme(s, end2);
    lemma_arg_lexeme_bounds(s, end2);
    if arg_at(s, pos, depth) is Ok && first != ArgLexeme::End && second != ArgLexeme::End {
        let kind = selector(third)->Some_0;
        lemma_select_progress(s, end3, depth, kind != SelectKind::Select, initial_state());
    }
}

proof fn lemma_select_progress(
    s: Seq<char>,
    pos: int,
    depth: nat,
    plural: bool,
    state: SelectState,
)
    requires
        0 <= pos <= s.len(),
    ensures
        select_from(s, pos, depth, plural, state) is Ok ==> pos < select_from(
            s,
            pos,
            depth,
            plural,
            state,
        )->Ok_0.2 <= s.len(),
    decreases depth, s.len() - pos, 0int,
{
    let (lexeme, start, end) = select_lexeme(s, pos);
    lemma_select_lexeme_bounds(s, pos);
    match select_step(plural, state, lexeme, s.subrange(start, end)) {
        Step::Fail(_) => {},
        Step::Finish => {},
        Step::Next(next_state) => {
            lemma_select_progress(s, end, depth, plural, next_state);
        },
        Step::Case => {
            if depth > 0 {
                lemma_body_progress(s, end, (depth - 1) as nat, Seq::empty());
                match body_from(s, end, (depth - 1) as nat, Seq::empty()) {
                    Err(_) => {},
                    Ok((tokens, closed, next)) => {
                        if closed {
                            lemma_select_progress(
                                s,
                                resume(s, end, next),
                                depth,
                                plural,
                                with_case(state, tokens),
                            );
                        }
                    },
                }
            }
        },
    }
}

/// White space before a lexeme of an argument or a selector changes nothing:
/// from any position inside it the same lexeme is read.
pub proof fn lemma_space_is_skipped(s: Seq<char>, pos: int, inside: int)
    requires
        0 <= pos <= inside <= skip_space(s, pos),
    ensures
        skip_space(s, inside) == skip_space(s, pos),
        arg_lexeme(s, inside) == arg_lexeme(s, pos),
        select_lexeme(s, inside) == select_lexeme(s, pos),
    decreases inside - pos,
{
    if pos < inside {
        lemma_space_is_skipped(s, pos + 1, inside);
    }
}

/// Whether the key of each of `cases` names a plural category.
pub open spec fn keys_are_categories(cases: Seq<SelectCaseModel>) -> bool {
    forall|i: int| 0 <= i < cases.len() ==> category_of((#[trigger] cases[i]).key) is Some
}

/// The cases of a `plural` or `selectordinal` that parses have keys that
/// name plural categories, so [`plural_key`] is the category of each.
pub proof fn lemma_plural_keys(s: Seq<char>, pos: int, depth: nat, state: SelectState)
    requires
        0 <= pos <= s.len(),
        keys_are_categories(state.cases),
        state.phase == Phase::AfterKey ==> category_of(state.key) is Some,
    ensures
        select_from(s, pos, depth, true, state) is Ok ==> keys_are_categories(
            select_from(s, pos, depth, true, state)->Ok_0.0,
        ),
    decreases s.len() - pos,
{
    let (lexeme, start, end) = select_lexeme(s, pos);
    lemma_select_lexeme_bounds(s, pos);
    match select_step(true, state, lexeme, s.subrange(start, end)) {
        Step::Fail(_) => {},
        Step::Finish => {},
        Step::Next(next_state) => {
            lemma_plural_keys(s, end, depth, next_state);
        },
        Step::Case => {
            if depth > 0 {
                match body_from(s, end, (depth - 1) as nat, Seq::empty()) {
                    Err(_) => {},
                    Ok((tokens, closed, next)) => {
                        if closed {
                            let after = with_case(state, tokens);
                            assert forall|i: int| 0 <= i < after.cases.len() implies category_of(
                                (#[trigger] after.cases[i]).key,
                            ) is Some by {
                                if i < state.cases.len() {
                                    assert(after.cases[i] == state.cases[i]);
                                }
                            }
                            lemma_body_progress(s, end, (depth - 1) as nat, Seq::empty());
                            lemma_plural_keys(s, resume(s, end, next), depth, after);
                        }
                    },
                }
            }
        },
    }
}

/// No special character stands in `s` from `i` on.
pub open spec fn plain_from(s: Seq<char>, i: int) -> bool {
    forall|k: int| i <= k < s.len() ==> !body_special(#[trigger] s[k])
}

/// A run without special characters reaches the end of the source.
pub proof fn lemma_content_end_plain(s: Seq<char>, i: int)
    requires
        0 <= i <= s.len(),
        plain_from(s, i),
    ensures
        content_end(s, i) == s.len(),
    decreases s.len() - i,
{
    if i < s.len() {
        lemma_content_end_plain(s, i + 1);
    }
}

/// A source that is not empty and holds none of `{ } # '` is a message of
/// one token: the source itself, as literal text.
pub proof fn lemma_plain_text(s: Seq<char>)
    requires
        s.len() > 0,
        plain_from(s, 0),
    ensures
        parse_model(s) == Ok::<Seq<TokenModel>, Failure>(seq![TokenModel::Content { value: s }]),
{
    lemma_content_end_plain(s, 1);
    let end = s.len() as int;
    let first = TokenModel::Content { value: s.subrange(0, end) };
    assert(s.subrange(0, end) =~= s);
    assert(body_lexeme(s, 0) == (BodyLexeme::Content, end));
    assert(Seq::<TokenModel>::empty().push(first) =~= seq![TokenModel::Content { value: s }]);
    assert(body_from(s, end, MAX_NESTING as nat, Seq::empty().push(first)) == Ok::<
        (Seq<TokenModel>, bool, int),
        Failure,
    >((Seq::empty().push(first), false, end)));
}

/// A run without special characters ends at the first special character.
pub proof fn lemma_content_end_at(s: Seq<char>, i: int, stop: int)
    requires
        0 <= i <= stop < s.len(),
        forall|k: int| i <= k < stop ==> !body_special(#[trigger] s[k]),
        body_special(s[stop]),
    ensures
        content_end(s, i) == stop,
    decreases stop - i,
{
    if i < stop {
        lemma_content_end_at(s, i + 1, stop);
    }
}

/// Where the first special character of a source is a `}`, the parse fails
/// at it: nothing is open that it could close.
pub proof fn lemma_stray_close(s: Seq<char>, at: int)
    requires
        0 <= at < s.len(),
        forall|k: int| 0 <= k < at ==> !body_special(#[trigger] s[k]),
        s[at] == '}',
    ensures
        parse_model(s) == Err::<Seq<TokenModel>, Failure>(
            Failure { detail: ErrorDetail::EndOfBody, start: at, end: at + 1 },
        ),
{
    let depth = MAX_NESTING as nat;
    if at > 0 {
        lemma_content_end_at(s, 1, at);
        let first = literal(s, BodyLexeme::Content, 0, at);
        assert(body_lexeme(s, 0) == (BodyLexeme::Content, at));
        assert(body_lexeme(s, at) == (BodyLexeme::End, at + 1));
        assert(body_from(s, at, depth, Seq::empty().push(first)) == Ok::<
            (Seq<TokenModel>, bool, int),
            Failure,
        >((Seq::empty().push(first), true, at + 1)));
    }
}

/// Where the first special character of a source is a `{` and nothing but
/// white space follows it, the parse fails at the end of the source: the
/// argument is never closed.
pub proof fn lemma_unterminated_argument(s: Seq<char>, at: int)
    requires
        0 <= at < s.len(),
        forall|k: int| 0 <= k < at ==> !body_special(#[trigger] s[k]),
        s[at] == '{',
        forall|k: int| at < k < s.len() ==> pattern_white_space(#[trigger] s[k]),
    ensures
        parse_model(s) == Err::<Seq<TokenModel>, Failure>(
            Failure {
                detail: ErrorDetail::EndedWithinArgument,
                start: s.len() as int,
                end: s.len() as int,
            },
        ),
{
    let depth = MAX_NESTING as nat;
    let failure = Failure {
        detail: ErrorDetail::EndedWithinArgument,
        start: s.len() as int,
        end: s.len() as int,
    };
    lemma_space_to_end(s, at + 1);
    assert(arg_lexeme(s, at + 1) == (ArgLexeme::Eof, s.len() as int, s.len() as int));
    assert(arg_at(s, at + 1, depth) == Err::<(Option<TokenModel>, int), Failure>(failure));
    assert(body_lexeme(s, at) == (BodyLexeme::Argument, at + 1));
    if at > 0 {
        lemma_content_end_at(s, 1, at);
        let first = literal(s, BodyLexeme::Content, 0, at);
        assert(body_lexeme(s, 0) == (BodyLexeme::Content, at));
        assert(body_from(s, at, depth, Seq::empty().push(first)) == Err::<
            (Seq<TokenModel>, bool, int),
            Failure,
        >(failure));
    }
}

/// Where nothing but white space stands from `i` on, it is skipped to the
/// end of the source.
pub proof fn lemma_space_to_end(s: Seq<char>, i: int)
    requires
        0 <= i <= s.len(),
        forall|k: int| i <= k < s.len() ==> pattern_white_space(#[trigger] s[k]),
    ensures
        skip_space(s, i) == s.len(),
    decreases s.len() - i,
{
    if i < s.len() {
        lemma_space_to_end(s, i + 1);
    }
}

/// The empty source is the empty message.
pub proof fn lemma_empty_source()
    ensures
        parse_model(Seq::empty()) == Ok::<Seq<TokenModel>, Failure>(Seq::empty()),
{
}

/// A failure of the executable parser, in positions of characters.
pub struct Fault {
    pub detail: ErrorDetail,
    pub start: usize,
    pub end: usize,
}

impl Fault {
    pub open spec fn model(self) -> Failure {
        Failure { detail: self.detail, start: self.start as int, end: self.end as int }
    }
}

/// The number of a prefix of ASCII digits is at most the number of the whole.
proof fn lemma_decimal_prefix(digits: Seq<char>, k: int)
    requires
        0 <= k <= digits.len(),
        forall|j: int| 0 <= j < digits.len() ==> ascii_digit(#[trigger] digits[j]),
    ensures
        0 <= decimal_value(digits.take(k)) <= decimal_value(digits),
    decreases digits.len(),
{
    if digits.len() == 0 {
        assert(digits.take(k) =~= digits);
    } else if k == digits.len() {
        assert(digits.take(k) =~= digits);
        lemma_decimal_prefix(digits.drop_last(), k - 1);
    } else {
        lemma_decimal_prefix(digits.drop_last(), k);
        assert(digits.drop_last().take(k) =~= digits.take(k));
    }
}

/// Reads the offset that the characters from `start` to `end` denote.
pub fn parse_offset(src: &Vec<char>, start: usize, end: usize) -> (r: Option<i32>)
    requires
        start <= end <= src.len(),
    ensures
        r == offset_value(src@.subrange(start as int, end as int)),
{
    let ghost word = src@.subrange(start as int, end as int);
    let mut value: i64 = 0;
    let mut i: usize = start;
    proof {
        assert(word.take(0) =~= Seq::<char>::empty());
    }
    while i < end
        invariant
            start <= i <= end <= src.len(),
            word == src@.subrange(start as int, end as int),
            forall|k: int| 0 <= k < i - start ==> ascii_digit(#[trigger] word[k]),
            value == decimal_value(word.take(i - start)),
            0 <= value <= i32::MAX,
        decreases end - i,
    {
        let c = src[i];
        if !('0' <= c && c <= '9') {
            proof {
                assert(!ascii_digit(word[i - start]));
            }
            return None;
        }
        let digit: i64 = (c as u32 - '0' as u32) as i64;
        let next: i64 = value * 10 + digit;
        proof {
            let prefix = word.take(i - start + 1);
            assert(prefix.drop_last() =~= word.take(i - start));
            assert(prefix.last() == c);
            assert(next == decimal_value(prefix));
        }
        if next > i32::MAX as i64 {
            proof {
                if forall|k: int| 0 <= k < word.len() ==> ascii_digit(#[trigger] word[k]) {
                    lemma_decimal_prefix(word, i - start + 1);
                }
            }
            return None;
        }
        value = next;
        i += 1;
    }
    proof {
        assert(word.take(word.len() as int) =~= word);
    }
    Some(value as i32)
}

/// The error for a lexeme that may not stand where it does.
pub fn unexpected_lexeme(lexeme: SelectLexeme) -> (detail: ErrorDetail)
    ensures
        detail == unexpected(lexeme),
{
    match lexeme {
        SelectLexeme::Offset => ErrorDetail::Offset,
        SelectLexeme::Colon => ErrorDetail::Colon,
        SelectLexeme::Int => ErrorDetail::Integer,
        SelectLexeme::Ident => ErrorDetail::Identifier,
        SelectLexeme::Comma => ErrorDetail::Comma,
        SelectLexeme::Open => ErrorDetail::CaseBody,
        SelectLexeme::End => ErrorDetail::EndOfSelect,
        SelectLexeme::Invalid => ErrorDetail::MalformedToken,
        SelectLexeme::Eof => ErrorDetail::EndOfInput,
    }
}

/// Whether the executable parser's result is the one the model gives for a
/// message.
pub open spec fn body_agrees(
    r: Result<(Vec<Token>, bool, usize), Fault>,
    model: Result<(Seq<TokenModel>, bool, int), Failure>,
) -> bool {
    match (r, model) {
        (Ok((tokens, closed, next)), Ok((m_tokens, m_closed, m_next))) => message_view(tokens@)
            == m_tokens && closed == m_closed && next == m_next,
        (Err(fault), Err(failure)) => fault.model() == failure,
        _ => false,
    }
}

/// Whether the executable parser's result is the one the model gives for an
/// argument.
pub open spec fn arg_agrees(
    r: Result<(Option<Token>, usize), Fault>,
    model: Result<(Option<TokenModel>, int), Failure>,
) -> bool {
    match (r, model) {
        (Ok((Some(token), next)), Ok((Some(m_token), m_next))) => token_view(token) == m_token
            && next == m_next,
        (Ok((None, next)), Ok((None, m_next))) => next == m_next,
        (Err(fault), Err(failure)) => fault.model() == failure,
        _ => false,
    }
}

/// Whether the executable parser's result is the one the model gives for a
/// selector of the kind `kind` on the argument `arg`.
pub open spec fn select_agrees(
    r: Result<(Token, usize), Fault>,
    kind: SelectKind,
    arg: Seq<char>,
    model: Result<(Seq<SelectCaseModel>, Option<i32>, int), Failure>,
) -> bool {
    match (r, model) {
        (Ok((token, next)), Ok((cases, offset, m_next))) => token_view(token) == select_token(
            kind,
            arg,
            cases,
            offset,
        ) && next == m_next,
        (Err(fault), Err(failure)) => fault.model() == failure,
        _ => false,
    }
}

/// Parses a message from `pos` on, up to the `}` that closes it or the end
/// of the source.
pub fn parse_body(src: &Vec<char>, pos: usize, depth: usize) -> (r: Result<
    (Vec<Token>, bool, usize),
    Fault,
>)
    requires
        pos <= src.len(),
    ensures
        body_agrees(r, body_from(src@, pos as int, depth as nat, Seq::empty())),
        r is Ok ==> pos <= r->Ok_0.2 <= src.len(),
        r is Ok && r->Ok_0.1 ==> pos < r->Ok_0.2,
        r is Err ==> r->Err_0.start <= r->Err_0.end <= src.len(),
    decreases depth, src.len() - pos, 2int,
{
    let mut tokens: Vec<Token> = Vec::new();
    let mut i: usize = pos;
    proof {
        assert(message_view(tokens@) =~= Seq::<TokenModel>::empty());
    }
    while i < src.len()
        invariant
            pos <= i <= src.len(),
            body_from(src@, pos as int, depth as nat, Seq::empty()) == body_from(
                src@,
                i as int,
                depth as nat,
                message_view(tokens@),
            ),
        decreases src.len() - i,
    {
        let (lexeme, end) = scan_body_lexeme(src, i);
        let ghost before = tokens@;
        match lexeme {
            BodyLexeme::End => {
                return Ok((tokens, true, end));
            },
            BodyLexeme::Argument => {
                match parse_arg(src, end, depth) {
                    Err(fault) => {
                        return Err(fault);
                    },
                    Ok((Some(token), next)) => {
                        tokens.push(token);
                        proof {
                            lemma_message_view_push(before, token);
                        }
                        i = next;
                    },
                    Ok((None, next)) => {
                        i = next;
                    },
                }
            },
            BodyLexeme::Octothorpe => {
                let token = Token::Octothorpe {  };
                tokens.push(token);
                proof {
                    lemma_message_view_push(before, token);
                }
                i = end;
            },
            BodyLexeme::DoubleApostrophe => {
                let token = Token::Content { value: substring(src, i, i + 1) };
                tokens.push(token);
                proof {
                    lemma_message_view_push(before, token);
                    assert(src@.subrange(i as int, i + 1) =~= seq!['\'']);
                }
                i = end;
            },
            BodyLexeme::Quote => {
                proof {
                    lemma_scan_bounds(src@, i + 2);
                }
                let token = Token::Content { value: substring(src, i + 1, end - 1) };
                tokens.push(token);
                proof {
                    lemma_message_view_push(before, token);
                }
                i = end;
            },
            BodyLexeme::Content => {
                let token = Token::Content { value: substring(src, i, end) };
                tokens.push(token);
                proof {
                    lemma_message_view_push(before, token);
                }
                i = end;
            },
        }
    }
    Ok((tokens, false, i))
}

/// Parses an argument from behind its `{` on.
pub fn parse_arg(src: &Vec<char>, pos: usize, depth: usize) -> (r: Result<
    (Option<Token>, usize),
    Fault,
>)
    requires
        pos <= src.len(),
    ensures
        arg_agrees(r, arg_at(src@, pos as int, depth as nat)),
        r is Ok ==> pos < r->Ok_0.1 <= src.len(),
        r is Err ==> r->Err_0.start <= r->Err_0.end <= src.len(),
    decreases depth, src.len() - pos, 1int,
{
    let (first, start, end) = scan_arg_lexeme(src, pos);
    match first {
        ArgLexeme::Eof => {
            return Err(Fault { detail: ErrorDetail::EndedWithinArgument, start, end });
        },
        ArgLexeme::Invalid => {
            return Err(Fault { detail: ErrorDetail::MalformedToken, start, end });
        },
        ArgLexeme::Comma => {
            return Err(Fault { detail: ErrorDetail::TokenInArgument, start, end });
        },
        ArgLexeme::End => {
            return Ok((None, end));
        },
        _ => {},
    }
    let (second, start2, end2) = scan_arg_lexeme(src, end);
    match second {
        ArgLexeme::End => {
            let token = Token::PlainArg { arg: substring(src, start, end) };
            return Ok((Some(token), end2));
        },
        ArgLexeme::Eof => {
            return Err(Fault { detail: ErrorDetail::EndOfInput, start: start2, end: end2 });
        },
        ArgLexeme::Invalid => {
            return Err(Fault { detail: ErrorDetail::MalformedToken, start: start2, end: end2 });
        },
        ArgLexeme::Comma => {},
        _ => {
            return Err(
                Fault { detail: ErrorDetail::ExpectedCommaOrClose, start: start2, end: end2 },
            );
        },
    }
    let (third, start3, end3) = scan_arg_lexeme(src, end2);
    let kind = match third {
        ArgLexeme::Plural => SelectKind::Plural,
        ArgLexeme::Select => SelectKind::Select,
        ArgLexeme::SelectOrdinal => SelectKind::SelectOrdinal,
        ArgLexeme::Eof => {
            return Err(Fault { detail: ErrorDetail::EndOfInput, start: start3, end: end3 });
        },
        ArgLexeme::Invalid => {
            return Err(Fault { detail: ErrorDetail::MalformedToken, start: start3, end: end3 });
        },
        _ => {
            return Err(Fault { detail: ErrorDetail::TokenInArgument, start: start3, end: end3 });
        },
    };
    match parse_select(src, end3, depth, kind, substring(src, start, end)) {
        Err(fault) => Err(fault),
        Ok((token, next)) => Ok((Some(token), next)),
    }
}

/// Parses a selector from behind its keyword on, and builds its token for
/// the argument `arg`.
pub fn parse_select(src: &Vec<char>, pos: usize, depth: usize, kind: SelectKind, arg: String) -> (r:
    Result<(Token, usize), Fault>)
    requires
        pos <= src.len(),
    ensures
        select_agrees(
            r,
            kind,
            arg@,
            select_from(
                src@,
                pos as int,
                depth as nat,
                kind != SelectKind::Select,
                initial_state(),
            ),
        ),
        r is Ok ==> pos < r->Ok_0.1 <= src.len(),
        r is Err ==> r->Err_0.start <= r->Err_0.end <= src.len(),
    decreases depth, src.len() - pos, 0int,
{
    let plural = match kind {
        SelectKind::Select => false,
        _ => true,
    };
    let mut phase = Phase::AfterKeyword;
    let mut key = String::new();
    let mut offset: Option<i32> = None;
    let mut cases: Vec<SelectCase> = Vec::new();
    let mut plural_cases_read: Vec<PluralCase> = Vec::new();
    let ghost mut model_cases: Seq<SelectCaseModel> = Seq::empty();
    let mut i: usize = pos;
    proof {
        assert(select_cases_view(cases@) =~= model_cases);
        assert(plural_cases_view(plural_cases_read@) =~= plural_cases(model_cases));
    }
    loop
        invariant
            pos <= i <= src.len(),
            plural == (kind != SelectKind::Select),
            !plural ==> select_cases_view(cases@) == model_cases,
            plural ==> plural_cases_view(plural_cases_read@) == plural_cases(model_cases),
            plural ==> cases@.len() == 0,
            !plural ==> plural_cases_read@.len() == 0,
            model_cases.len() == cases@.len() + plural_cases_read@.len(),
            select_from(src@, pos as int, depth as nat, plural, initial_state()) == select_from(
                src@,
                i as int,
                depth as nat,
                plural,
                SelectState { phase, key: key@, offset, cases: model_cases },
            ),
            i == pos ==> phase == Phase::AfterKeyword,
        decreases src.len() - i,
    {
        let (lexeme, start, end) = scan_select_lexeme(src, i);
        let ghost state = SelectState { phase, key: key@, offset, cases: model_cases };
        let ghost word = src@.subrange(start as int, end as int);
        let ghost step = select_step(plural, state, lexeme, word);
        let mut opens_case = false;
        match lexeme {
            SelectLexeme::Eof | SelectLexeme::Invalid => {
                return Err(Fault { detail: unexpected_lexeme(lexeme), start, end });
            },
            _ => {},
        }
        match phase {
            Phase::AfterKeyword => {
                match lexeme {
                    SelectLexeme::Comma => {
                        phase = Phase::BeforeOffset;
                    },
                    _ => {
                        return Err(Fault { detail: unexpected_lexeme(lexeme), start, end });
                    },
                }
            },
            Phase::BeforeOffset | Phase::BeforeKey => {
                let is_key = match lexeme {
                    SelectLexeme::Ident | SelectLexeme::Int => true,
                    SelectLexeme::Offset => match phase {
                        Phase::BeforeKey => true,
                        _ => false,
                    },
                    _ => false,
                };
                if is_key {
                    let candidate = substring(src, start, end);
                    if plural && category_for_key(candidate.as_str()).is_none() {
                        return Err(Fault { detail: ErrorDetail::PluralKey, start, end });
                    }
                    key = candidate;
                    phase = Phase::AfterKey;
                } else {
                    match lexeme {
                        SelectLexeme::Offset => {
                            key = substring(src, start, end);
                            phase = Phase::AfterOffsetWord;
                        },
                        SelectLexeme::End => {
                            let has_cases = cases.len() > 0 || plural_cases_read.len() > 0;
                            let closes = match phase {
                                Phase::BeforeKey => has_cases,
                                _ => false,
                            };
                            if closes {
                                let token = match kind {
                                    SelectKind::Plural => Token::Plural {
                                        arg,
                                        cases: plural_cases_read,
                                        plural_offset: offset,
                                    },
                                    SelectKind::Select => Token::Select {
                                        arg,
                                        cases,
                                        plural_offset: offset,
                                    },
                                    SelectKind::SelectOrdinal => Token::SelectOrdinal {
                                        arg,
                                        cases: plural_cases_read,
                                        plural_offset: offset,
                                    },
                                };
                                return Ok((token, end));
                            } else {
                                return Err(
                                    Fault { detail: unexpected_lexeme(lexeme), start, end },
                                );
                            }
                        },
                        _ => {
                            return Err(Fault { detail: unexpected_lexeme(lexeme), start, end });
                        },
                    }
                }
            },
            Phase::AfterOffsetWord => {
                match lexeme {
                    SelectLexeme::Colon => {
                        phase = Phase::BeforeInteger;
                    },
                    SelectLexeme::Open => {
                        if plural && category_for_key(key.as_str()).is_none() {
                            return Err(Fault { detail: ErrorDetail::PluralKey, start, end });
                        }
                        opens_case = true;
                    },
                    _ => {
                        return Err(Fault { detail: unexpected_lexeme(lexeme), start, end });
                    },
                }
            },
            Phase::BeforeInteger => {
                match lexeme {
                    SelectLexeme::Int => {
                        match parse_offset(src, start, end) {
                            Some(n) => {
                                offset = Some(n);
                                phase = Phase::BeforeKey;
                            },
                            None => {
                                return Err(Fault { detail: ErrorDetail::BadInteger, start, end });
                            },
                        }
                    },
                    _ => {
                        return Err(Fault { detail: unexpected_lexeme(lexeme), start, end });
                    },
                }
            },
            Phase::AfterKey => {
                match lexeme {
                    SelectLexeme::Open => {
                        opens_case = true;
                    },
                    _ => {
                        return Err(Fault { detail: unexpected_lexeme(lexeme), start, end });
                    },
                }
            },
        }
        if opens_case {
            assert(step == Step::Case);
            if depth == 0 {
                return Err(Fault { detail: ErrorDetail::NestingTooDeep, start, end });
            }
            match parse_body(src, end, depth - 1) {
                Err(fault) => {
                    return Err(fault);
                },
                Ok((tokens, closed, next)) => {
                    if !closed {
                        return Err(Fault { detail: ErrorDetail::EndOfInput, start: next, end: next });
                    }
                    let ghost case_model = SelectCaseModel {
                        key: key@,
                        tokens: message_view(tokens@),
                    };
                    if plural {
                        let category = match category_for_key(key.as_str()) {
                            Some(category) => category,
                            None => PluralCategory::Other,
                        };
                        let case = PluralCase { key: category, tokens };
                        proof {
                            lemma_plural_cases_view_push(plural_cases_read@, case);
                            assert(plural_cases(model_cases.push(case_model)) =~= plural_cases(
                                model_cases,
                            ).push(
                                PluralCaseModel {
                                    key: plural_key(case_model.key),
                                    tokens: case_model.tokens,
                                },
                            ));
                        }
                        plural_cases_read.push(case);
                    } else {
                        let case = SelectCase { key, tokens };
                        proof {
                            lemma_select_cases_view_push(cases@, case);
                        }
                        cases.push(case);
                    }
                    proof {
                        model_cases = model_cases.push(case_model);
                    }
                    key = String::new();
                    phase = Phase::BeforeKey;
                    i = next;
                },
            }
        } else {
            assert(step == Step::Next(
                SelectState { phase, key: key@, offset, cases: model_cases },
            ));
            i = end;
        }
    }
}

/// The message that a source denotes, or the failure of its parse. A `}`
/// that closes nothing is a failure.
pub open spec fn parse_model(s: Seq<char>) -> Result<Seq<TokenModel>, Failure> {
    match body_from(s, 0, MAX_NESTING as nat, Seq::empty()) {
        Err(failure) => Err(failure),
        Ok((tokens, closed, next)) => if closed {
            Err(Failure { detail: ErrorDetail::EndOfBody, start: next - 1, end: next })
        } else {
            Ok(tokens)
        },
    }
}

/// The error for a failure in the source `s`: the same detail, at the same
/// place in bytes.
pub open spec fn error_at(s: Seq<char>, failure: Failure) -> ParseError {
    ParseError {
        detail: failure.detail,
        span: Span {
            start: byte_offset(s, failure.start) as usize,
            end: byte_offset(s, failure.end) as usize,
        },
    }
}

/// Parses a message.
///
/// Succeeds exactly on the sources that denote a message, with the tokens
/// of that message, and fails on the others with the error of the model and
/// the place of the failure in bytes.
pub fn parse(src: &str) -> (r: Result<Vec<Token>, ParseError>)
    ensures
        match parse_model(src@) {
            Ok(tokens) => r is Ok && message_view(r->Ok_0@) == tokens,
            Err(failure) => r == Err::<Vec<Token>, ParseError>(error_at(src@, failure)),
        },
{
    let chars = to_chars(src);
    let byte_count = src.as_bytes().len();
    proof {
        lemma_byte_length_is_encoded_length(src@);
        assert(byte_length(chars@) == byte_count);
    }
    match parse_body(&chars, 0, MAX_NESTING) {
        Err(fault) => Err(spanned(&chars, fault)),
        Ok((tokens, closed, next)) => {
            if closed {
                Err(
                    spanned(
                        &chars,
                        Fault { detail: ErrorDetail::EndOfBody, start: next - 1, end: next },
                    ),
                )
            } else {
                Ok(tokens)
            }
        },
    }
}

/// Turns the positions of a failure into positions in bytes.
fn spanned(src: &Vec<char>, fault: Fault) -> (error: ParseError)
    requires
        fault.start <= src.len(),
        fault.end <= src.len(),
        byte_length(src@) <= usize::MAX,
    ensures
        error == error_at(src@, fault.model()),
{
    ParseError {
        detail: fault.detail,
        span: Span {
            start: byte_position(src, fault.start),
            end: byte_position(src, fault.end),
        },
    }
}

} // verus!
