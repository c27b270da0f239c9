//! What is wrong with a message that parses: a selector without the case
//! `other`, an argument used in more than one role. Neither stops anything.

use vstd::prelude::*;
use crate::args::{
    requirements, ArgumentRequirements, RequirementModel, TokenSlice,
};
use crate::ast::{
    message_view, plural_cases_view, select_cases_view, token_view, PluralCase, PluralCaseModel,
    PluralCategory, SelectCase, SelectCaseModel, Token, TokenModel,
};
use crate::plural::category_name;

verus! {

/// A defect of a message that does not keep it from being used.
#[derive(Debug, PartialEq, Eq)]
pub enum Diagnostic {
    /// The argument is used in more than one role; the first one counts.
    AmbiguousArgumentRole { arg: String },
    /// A selector on the argument has no case `other`.
    MissingFallbackCase { arg: String },
}

/// The model of a [`Diagnostic`].
pub ghost enum DiagnosticModel {
    AmbiguousArgumentRole { arg: Seq<char> },
    MissingFallbackCase { arg: Seq<char> },
}

pub open spec fn diagnostic_view(diagnostic: Diagnostic) -> DiagnosticModel {
    match diagnostic {
        Diagnostic::AmbiguousArgumentRole { arg } => DiagnosticModel::AmbiguousArgumentRole {
            arg: arg@,
        },
        Diagnostic::MissingFallbackCase { arg } => DiagnosticModel::MissingFallbackCase {
            arg: arg@,
        },
    }
}

pub open spec fn diagnostics_view(diagnostics: Seq<Diagnostic>) -> Seq<DiagnosticModel> {
    Seq::new(diagnostics.len(), |i: int| diagnostic_view(diagnostics[i]))
}

/// The key of the case that is chosen where no other case is.
pub open spec fn fallback_key() -> Seq<char> {
    category_name(PluralCategory::Other)
}

/// Whether one of the cases of a `select` is the case `other`.
pub open spec fn has_select_fallback(cases: Seq<SelectCaseModel>) -> bool {
    exists|i: int| 0 <= i < cases.len() && (#[trigger] cases[i]).key == fallback_key()
}

/// Whether one of the cases of a `plural` or `selectordinal` is the case
/// `other`.
pub open spec fn has_plural_fallback(cases: Seq<PluralCaseModel>) -> bool {
    exists|i: int| 0 <= i < cases.len() && (#[trigger] cases[i]).key == PluralCategory::Other
}

/// A diagnostic for each selector of the message without the case `other`,
/// in the order of a walk from left to right that enters each selector's
/// cases behind the selector itself.
pub open spec fn missing_fallbacks(message: Seq<TokenModel>) -> Seq<DiagnosticModel>
    decreases message, 0int,
{
    if message.len() == 0 {
        Seq::empty()
    } else {
        missing_fallbacks(message.drop_last()) + token_missing_fallbacks(message.last())
    }
}

/// The diagnostic for a selector without the case `other`, if it is one.
pub open spec fn unguarded(arg: Seq<char>, guarded: bool) -> Seq<DiagnosticModel> {
    if guarded {
        Seq::empty()
    } else {
        seq![DiagnosticModel::MissingFallbackCase { arg }]
    }
}

pub open spec fn token_missing_fallbacks(token: TokenModel) -> Seq<DiagnosticModel>
    decreases token, 1int,
{
    match token {
        TokenModel::Content { .. } => Seq::empty(),
        TokenModel::Octothorpe => Seq::empty(),
        TokenModel::PlainArg { .. } => Seq::empty(),
        TokenModel::FunctionArg { arg, key, param } => match param {
            Some(tokens) => missing_fallbacks(tokens),
            None => Seq::empty(),
        },
        TokenModel::Plural { arg, cases, plural_offset } => unguarded(
            arg,
            has_plural_fallback(cases),
        ) + plural_missing_fallbacks(cases),
        TokenModel::SelectOrdinal { arg, cases, plural_offset } => unguarded(
            arg,
            has_plural_fallback(cases),
        ) + plural_missing_fallbacks(cases),
        TokenModel::Select { arg, cases, plural_offset } => unguarded(
            arg,
            has_select_fallback(cases),
        ) + select_missing_fallbacks(cases),
    }
}

pub open spec fn plural_missing_fallbacks(cases: Seq<PluralCaseModel>) -> Seq<DiagnosticModel>
    decreases cases, 0int,
{
    if cases.len() == 0 {
        Seq::empty()
    } else {
        plural_missing_fallbacks(cases.drop_last()) + missing_fallbacks(cases.last().tokens)
    }
}

pub open spec fn select_missing_fallbacks(cases: Seq<SelectCaseModel>) -> Seq<DiagnosticModel>
    decreases cases, 0int,
{
    if cases.len() == 0 {
        Seq::empty()
    } else {
        select_missing_fallbacks(cases.drop_last()) + missing_fallbacks(cases.last().tokens)
    }
}

/// A diagnostic for each argument with more than one role, in the order in
/// which the arguments are listed.
pub open spec fn conflicts(reqs: Seq<RequirementModel>) -> Seq<DiagnosticModel>
    decreases reqs.len(),
{
    if reqs.len() == 0 {
        Seq::empty()
    } else if reqs.last().roles.len() > 1 {
        conflicts(reqs.drop_last()).push(
            DiagnosticModel::AmbiguousArgumentRole { arg: reqs.last().name },
        )
    } else {
        conflicts(reqs.drop_last())
    }
}

/// The diagnostics of a message: the selectors without the case `other`,
/// then the arguments with more than one role.
pub open spec fn diagnostics(message: Seq<TokenModel>) -> Seq<DiagnosticModel> {
    missing_fallbacks(message) + conflicts(requirements(message))
}

/// Whether one of `cases` is the case `other`.
pub fn select_has_fallback(cases: &Vec<SelectCase>) -> (r: bool)
    ensures
        r == has_select_fallback(select_cases_view(cases@)),
{
    let other = "other".to_owned();
    proof {
        reveal_strlit("other");
        assert(other@ =~= fallback_key());
    }
    let mut i: usize = 0;
    while i < cases.len()
        invariant
            i <= cases@.len(),
            other@ == fallback_key(),
            forall|j: int|
                0 <= j < i ==> (#[trigger] select_cases_view(cases@)[j]).key != fallback_key(),
        decreases cases@.len() - i,
    {
        if cases[i].key == other {
            assert(select_cases_view(cases@)[i as int].key == fallback_key());
            return true;
        }
        i += 1;
    }
    false
}

/// Whether one of `cases` is the case `other`.
pub fn plural_has_fallback(cases: &Vec<PluralCase>) -> (r: bool)
    ensures
        r == has_plural_fallback(plural_cases_view(cases@)),
{
    let mut i: usize = 0;
    while i < cases.len()
        invariant
            i <= cases@.len(),
            forall|j: int|
                0 <= j < i ==> (#[trigger] plural_cases_view(cases@)[j]).key
                    != PluralCategory::Other,
        decreases cases@.len() - i,
    {
        match cases[i].key {
            PluralCategory::Other => {
                assert(plural_cases_view(cases@)[i as int].key == PluralCategory::Other);
                return true;
            },
            _ => {},
        }
        i += 1;
    }
    false
}

proof fn lemma_view_push(diagnostics: Seq<Diagnostic>, diagnostic: Diagnostic)
    ensures
        diagnostics_view(diagnostics.push(diagnostic)) == diagnostics_view(diagnostics).push(
            diagnostic_view(diagnostic),
        ),
{
    assert(diagnostics_view(diagnostics.push(diagnostic)) =~= diagnostics_view(diagnostics).push(
        diagnostic_view(diagnostic),
    ));
}

/// Adds to `found` the diagnostic for a selector on `arg`, unless it is
/// guarded by a case `other`.
fn note_unguarded(arg: &String, guarded: bool, found: &mut Vec<Diagnostic>)
    ensures
        diagnostics_view(final(found)@) == diagnostics_view(old(found)@) + unguarded(
            arg@,
            guarded,
        ),
{
    if !guarded {
        let diagnostic = Diagnostic::MissingFallbackCase { arg: arg.clone() };
        proof {
            lemma_view_push(found@, diagnostic);
        }
        found.push(diagnostic);
        assert(diagnostics_view(found@) =~= diagnostics_view(old(found)@) + unguarded(
            arg@,
            guarded,
        ));
    } else {
        assert(diagnostics_view(found@) =~= diagnostics_view(old(found)@) + unguarded(
            arg@,
            guarded,
        ));
    }
}

/// Adds to `found` the selectors of `tokens` without the case `other`.
pub fn find_missing_fallbacks(tokens: &Vec<Token>, found: &mut Vec<Diagnostic>)
    ensures
        diagnostics_view(final(found)@) == diagnostics_view(old(found)@) + missing_fallbacks(
            message_view(tokens@),
        ),
    decreases tokens,
{
    let mut i: usize = 0;
    proof {
        assert(message_view(tokens@.take(0)) =~= Seq::<TokenModel>::empty());
        assert(diagnostics_view(found@) =~= diagnostics_view(old(found)@) + Seq::<
            DiagnosticModel,
        >::empty());
    }
    while i < tokens.len()
        invariant
            i <= tokens@.len(),
            diagnostics_view(found@) == diagnostics_view(old(found)@) + missing_fallbacks(
                message_view(tokens@.take(i as int)),
            ),
        decreases tokens@.len() - i,
    {
        let ghost before = diagnostics_view(found@);
        find_token_missing_fallbacks(&tokens[i], found);
        proof {
            let done = message_view(tokens@.take(i as int));
            let more = message_view(tokens@.take(i + 1));
            assert(more.drop_last() =~= done);
            assert(more.last() == token_view(tokens@[i as int]));
            assert(diagnostics_view(found@) =~= diagnostics_view(old(found)@)
                + missing_fallbacks(more));
        }
        i += 1;
    }
    proof {
        assert(tokens@.take(tokens@.len() as int) =~= tokens@);
    }
}

/// Adds to `found` the selectors in `token` without the case `other`.
pub fn find_token_missing_fallbacks(token: &Token, found: &mut Vec<Diagnostic>)
    ensures
        diagnostics_view(final(found)@) == diagnostics_view(old(found)@)
            + token_missing_fallbacks(token_view(*token)),
    decreases token,
{
    let ghost start = diagnostics_view(found@);
    match token {
        Token::FunctionArg { arg, key, param } => {
            match param {
                Some(tokens) => {
                    find_missing_fallbacks(tokens, found);
                },
                None => {
                    assert(start =~= start + Seq::<DiagnosticModel>::empty());
                },
            }
        },
        Token::Plural { arg, cases, plural_offset } => {
            note_unguarded(arg, plural_has_fallback(cases), found);
            find_plural_missing_fallbacks(cases, found);
            assert(diagnostics_view(found@) =~= start + token_missing_fallbacks(
                token_view(*token),
            ));
        },
        Token::SelectOrdinal { arg, cases, plural_offset } => {
            note_unguarded(arg, plural_has_fallback(cases), found);
            find_plural_missing_fallbacks(cases, found);
            assert(diagnostics_view(found@) =~= start + token_missing_fallbacks(
                token_view(*token),
            ));
        },
        Token::Select { arg, cases, plural_offset } => {
            note_unguarded(arg, select_has_fallback(cases), found);
            find_select_missing_fallbacks(cases, found);
            assert(diagnostics_view(found@) =~= start + token_missing_fallbacks(
                token_view(*token),
            ));
        },
        _ => {
            assert(start =~= start + Seq::<DiagnosticModel>::empty());
        },
    }
}

/// Adds to `found` the selectors in the bodies of `cases` without the case
/// `other`.
pub fn find_plural_missing_fallbacks(cases: &Vec<PluralCase>, found: &mut Vec<Diagnostic>)
    ensures
        diagnostics_view(final(found)@) == diagnostics_view(old(found)@)
            + plural_missing_fallbacks(plural_cases_view(cases@)),
    decreases cases,
{
    let mut i: usize = 0;
    proof {
        assert(plural_cases_view(cases@.take(0)) =~= Seq::<PluralCaseModel>::empty());
        assert(diagnostics_view(found@) =~= diagnostics_view(old(found)@) + Seq::<
            DiagnosticModel,
        >::empty());
    }
    while i < cases.len()
        invariant
            i <= cases@.len(),
            diagnostics_view(found@) == diagnostics_view(old(found)@)
                + plural_missing_fallbacks(plural_cases_view(cases@.take(i as int))),
        decreases cases@.len() - i,
    {
        find_missing_fallbacks(&cases[i].tokens, found);
        proof {
            let done = plural_cases_view(cases@.take(i as int));
            let more = plural_cases_view(cases@.take(i + 1));
            assert(more.drop_last() =~= done);
            assert(more.last().tokens == message_view(cases@[i as int].tokens@));
            assert(diagnostics_view(found@) =~= diagnostics_view(old(found)@)
                + plural_missing_fallbacks(more));
        }
        i += 1;
    }
    proof {
        assert(cases@.take(cases@.len() as int) =~= cases@);
    }
}

/// Adds to `found` the selectors in the bodies of `cases` without the case
/// `other`.
pub fn find_select_missing_fallbacks(cases: &Vec<SelectCase>, found: &mut Vec<Diagnostic>)
    ensures
        diagnostics_view(final(found)@) == diagnostics_view(old(found)@)
            + select_missing_fallbacks(select_cases_view(cases@)),
    decreases cases,
{
    let mut i: usize = 0;
    proof {
        assert(select_cases_view(cases@.take(0)) =~= Seq::<SelectCaseModel>::empty());
        assert(diagnostics_view(found@) =~= diagnostics_view(old(found)@) + Seq::<
            DiagnosticModel,
        >::empty());
    }
    while i < cases.len()
        invariant
            i <= cases@.len(),
            diagnostics_view(found@) == diagnostics_view(old(found)@)
                + select_missing_fallbacks(select_cases_view(cases@.take(i as int))),
        decreases cases@.len() - i,
    {
        find_missing_fallbacks(&cases[i].tokens, found);
        proof {
            let done = select_cases_view(cases@.take(i as int));
            let more = select_cases_view(cases@.take(i + 1));
            assert(more.drop_last() =~= done);
            assert(more.last().tokens == message_view(cases@[i as int].tokens@));
            assert(diagnostics_view(found@) =~= diagnostics_view(old(found)@)
                + select_missing_fallbacks(more));
        }
        i += 1;
    }
    proof {
        assert(cases@.take(cases@.len() as int) =~= cases@);
    }
}

/// Adds to `found` a diagnostic for each argument of `args` with more than
/// one role.
pub fn find_conflicts(args: &ArgumentRequirements, found: &mut Vec<Diagnostic>)
    ensures
        diagnostics_view(final(found)@) == diagnostics_view(old(found)@) + conflicts(args@),
{
    let mut i: usize = 0;
    proof {
        assert(args@.take(0) =~= Seq::<RequirementModel>::empty());
        assert(diagnostics_view(found@) =~= diagnostics_view(old(found)@) + Seq::<
            DiagnosticModel,
        >::empty());
    }
    while i < args.entries.len()
        invariant
            i <= args.entries@.len(),
            args@.len() == args.entries@.len(),
            diagnostics_view(found@) == diagnostics_view(old(found)@) + conflicts(
                args@.take(i as int),
            ),
        decreases args.entries@.len() - i,
    {
        proof {
            assert(args@.take(i + 1).drop_last() =~= args@.take(i as int));
            assert(args@.take(i + 1).last() == args.entries@[i as int]@);
        }
        if args.entries[i].roles.len() > 1 {
            let diagnostic = Diagnostic::AmbiguousArgumentRole {
                arg: args.entries[i].name.clone(),
            };
            proof {
                lemma_view_push(found@, diagnostic);
            }
            found.push(diagnostic);
        }
        proof {
            assert(diagnostics_view(found@) =~= diagnostics_view(old(found)@) + conflicts(
                args@.take(i + 1),
            ));
        }
        i += 1;
    }
    proof {
        assert(args@.take(args@.len() as int) =~= args@);
    }
}

/// The diagnostics of a message: its selectors without the case `other`,
/// then its arguments with more than one role. An empty result says that
/// the message has neither.
pub fn diagnose(tokens: &Vec<Token>) -> (found: Vec<Diagnostic>)
    ensures
        diagnostics_view(found@) == diagnostics(message_view(tokens@)),
{
    let mut found: Vec<Diagnostic> = Vec::new();
    proof {
        assert(diagnostics_view(found@) =~= Seq::<DiagnosticModel>::empty());
    }
    find_missing_fallbacks(tokens, &mut found);
    let args = tokens.get_args();
    find_conflicts(&args, &mut found);
    proof {
        assert(diagnostics_view(found@) =~= diagnostics(message_view(tokens@)));
    }
    found
}

} // verus!
