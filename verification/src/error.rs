//! What a parse can fail with, and where.

use vstd::prelude::*;

verus! {

/// A range of the source, in bytes: from `start` up to, not including, `end`.
#[derive(Clone, Copy, Debug, PartialEq, Eq, Hash, Structural)]
pub struct Span {
    pub start: usize,
    pub end: usize,
}

/// The classes of parse errors.
#[derive(Clone, Copy, Debug, PartialEq, Eq, Hash, Structural)]
pub enum ErrorKind {
    /// A token is malformed in the current mode.
    LexError,
    /// A token is valid elsewhere, but not where it stands.
    UnexpectedToken,
    /// The source ends inside an argument or a case.
    UnexpectedEndOfInput,
    /// A `}` closes what was never opened.
    UnexpectedEndOfBody,
}

/// What exactly went wrong.
#[derive(Clone, Copy, Debug, PartialEq, Eq, Hash, Structural)]
pub enum ErrorDetail {
    /// A `}` at the top level.
    EndOfBody,
    /// The source ends where the name of an argument, or what follows it, is
    /// due.
    EndedWithinArgument,
    /// The source ends inside a selector or a case.
    EndOfInput,
    /// A character that begins no token.
    MalformedToken,
    /// An argument begins with something else than a name, or a comma is
    /// followed by something else than a selector keyword.
    TokenInArgument,
    /// A name is followed by something else than `,` or `}`.
    ExpectedCommaOrClose,
    /// `offset` where neither an offset nor a key may stand.
    Offset,
    /// `:` anywhere but behind `offset`.
    Colon,
    /// An integer where neither an offset nor a key may stand.
    Integer,
    /// An identifier where no key may stand.
    Identifier,
    /// `,` anywhere but behind the selector keyword.
    Comma,
    /// `{` with no key before it.
    CaseBody,
    /// `}` before the first case, or where something else is due.
    EndOfSelect,
    /// An offset that is no decimal number or does not fit in 32 bits.
    BadInteger,
    /// A key of a `plural` or `selectordinal` that is no plural category.
    PluralKey,
    /// More cases inside cases than [`crate::parser::MAX_NESTING`].
    NestingTooDeep,
}

/// A parse error: what went wrong, and the part of the source it was found at.
#[derive(Clone, Copy, Debug, PartialEq, Eq, Hash, Structural)]
pub struct ParseError {
    pub detail: ErrorDetail,
    pub span: Span,
}

/// The class of each error.
pub open spec fn kind_of(detail: ErrorDetail) -> ErrorKind {
    match detail {
        ErrorDetail::EndOfBody => ErrorKind::UnexpectedEndOfBody,
        ErrorDetail::EndedWithinArgument | ErrorDetail::EndOfInput => ErrorKind::UnexpectedEndOfInput,
        ErrorDetail::MalformedToken | ErrorDetail::BadInteger => ErrorKind::LexError,
        _ => ErrorKind::UnexpectedToken,
    }
}

/// The text of each error.
pub open spec fn message_of(detail: ErrorDetail) -> &'static str {
    match detail {
        ErrorDetail::EndOfBody => "Unexpected end of body",
        ErrorDetail::EndedWithinArgument => "Message unexpectedly ended within argument",
        ErrorDetail::EndOfInput => "Unexpected end of input",
        ErrorDetail::MalformedToken => "Unexpected token in argument",
        ErrorDetail::TokenInArgument => "Unexpected token in argument",
        ErrorDetail::ExpectedCommaOrClose =>
            "Unexpected token in argument (expected comma or closing bracket)",
        ErrorDetail::Offset => "Unexpected offset keyword",
        ErrorDetail::Colon => "Unexpected colon",
        ErrorDetail::Integer => "Unexpected integer",
        ErrorDetail::Identifier => "Unexpected identifier",
        ErrorDetail::Comma => "Unexpected comma",
        ErrorDetail::CaseBody => "Unexpected case body",
        ErrorDetail::EndOfSelect => "Unexpected end of select",
        ErrorDetail::BadInteger => "Bad integer",
        ErrorDetail::PluralKey => "Unknown plural category",
        ErrorDetail::NestingTooDeep => "Message is nested too deeply",
    }
}

impl ErrorDetail {
    /// The class of this error.
    pub fn kind(&self) -> (k: ErrorKind)
        ensures
            k == kind_of(*self),
    {
        match self {
            ErrorDetail::EndOfBody => ErrorKind::UnexpectedEndOfBody,
            ErrorDetail::EndedWithinArgument | ErrorDetail::EndOfInput => ErrorKind::UnexpectedEndOfInput,
            ErrorDetail::MalformedToken | ErrorDetail::BadInteger => ErrorKind::LexError,
            _ => ErrorKind::UnexpectedToken,
        }
    }

    /// The text of this error.
    pub fn message(&self) -> (m: &'static str)
        ensures
            m == message_of(*self),
    {
        match self {
            ErrorDetail::EndOfBody => "Unexpected end of body",
            ErrorDetail::EndedWithinArgument => "Message unexpectedly ended within argument",
            ErrorDetail::EndOfInput => "Unexpected end of input",
            ErrorDetail::MalformedToken => "Unexpected token in argument",
            ErrorDetail::TokenInArgument => "Unexpected token in argument",
            ErrorDetail::ExpectedCommaOrClose =>
                "Unexpected token in argument (expected comma or closing bracket)",
            ErrorDetail::Offset => "Unexpected offset keyword",
            ErrorDetail::Colon => "Unexpected colon",
            ErrorDetail::Integer => "Unexpected integer",
            ErrorDetail::Identifier => "Unexpected identifier",
            ErrorDetail::Comma => "Unexpected comma",
            ErrorDetail::CaseBody => "Unexpected case body",
            ErrorDetail::EndOfSelect => "Unexpected end of select",
            ErrorDetail::BadInteger => "Bad integer",
            ErrorDetail::PluralKey => "Unknown plural category",
            ErrorDetail::NestingTooDeep => "Message is nested too deeply",
        }
    }
}

impl ParseError {
    /// The class of this error.
    pub fn kind(&self) -> (k: ErrorKind)
        ensures
            k == kind_of(self.detail),
    {
        self.detail.kind()
    }

    /// The text of this error.
    pub fn message(&self) -> (m: String)
        ensures
            m@ == message_of(self.detail)@,
    {
        self.detail.message().to_owned()
    }
}

} // verus!
