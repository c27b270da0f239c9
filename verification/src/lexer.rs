//! The three lexers. Each reads one lexeme at a position of the source: the
//! body lexer reads literal text, the argument lexer reads what stands inside
//! `{ }`, the selector lexer reads what follows `select`, `plural` or
//! `selectordinal`. The last two skip white space before a lexeme.

use vstd::prelude::*;
use crate::text::{
    ident_continue, ident_start, is_decimal_number, is_ident_continue, is_ident_start,
    is_pattern_white_space, pattern_white_space, decimal_number_property,
};

verus! {

/// A lexeme of literal text.
#[derive(Clone, Copy, Debug, PartialEq, Eq, Structural)]
pub enum BodyLexeme {
    /// `''`, which stands for one apostrophe.
    DoubleApostrophe,
    /// `'`, one of `{ } #`, any run without an apostrophe, `'`.
    Quote,
    /// `{`, which opens an argument.
    Argument,
    /// `#`.
    Octothorpe,
    /// A run without `{ } # '`, or one apostrophe that begins no escape.
    Content,
    /// `}`, which closes the enclosing case.
    End,
}

/// A lexeme inside an argument.
#[derive(Clone, Copy, Debug, PartialEq, Eq, Structural)]
pub enum ArgLexeme {
    Plural,
    Select,
    SelectOrdinal,
    Comma,
    Ident,
    /// `}`.
    End,
    /// A character that begins no lexeme.
    Invalid,
    /// Nothing but white space is left.
    Eof,
}

/// A lexeme inside a selector.
#[derive(Clone, Copy, Debug, PartialEq, Eq, Structural)]
pub enum SelectLexeme {
    Offset,
    Colon,
    Int,
    Ident,
    Comma,
    /// `{`.
    Open,
    /// `}`.
    End,
    /// A character that begins no lexeme.
    Invalid,
    /// Nothing but white space is left.
    Eof,
}

/// The characters with a meaning of their own in literal text.
pub open spec fn body_special(c: char) -> bool {
    c == '{' || c == '}' || c == '#' || c == '\''
}

/// The first position from `i` on at which a special character stands, or the
/// end of the source.
pub open spec fn content_end(s: Seq<char>, i: int) -> int
    decreases s.len() - i,
{
    if 0 <= i < s.len() && !body_special(s[i]) {
        content_end(s, i + 1)
    } else {
        i
    }
}

/// The first position from `i` on at which an apostrophe stands, or the end of
/// the source.
pub open spec fn apostrophe_from(s: Seq<char>, i: int) -> int
    decreases s.len() - i,
{
    if 0 <= i < s.len() && s[i] != '\'' {
        apostrophe_from(s, i + 1)
    } else {
        i
    }
}

/// The first position from `i` on at which no white space stands.
pub open spec fn skip_space(s: Seq<char>, i: int) -> int
    decreases s.len() - i,
{
    if 0 <= i < s.len() && pattern_white_space(s[i]) {
        skip_space(s, i + 1)
    } else {
        i
    }
}

/// The first position from `i` on at which no identifier character stands.
pub open spec fn ident_end(s: Seq<char>, i: int) -> int
    decreases s.len() - i,
{
    if 0 <= i < s.len() && ident_continue(s[i]) {
        ident_end(s, i + 1)
    } else {
        i
    }
}

/// The first position from `i` on at which no decimal digit stands.
pub open spec fn digits_end(s: Seq<char>, i: int) -> int
    decreases s.len() - i,
{
    if 0 <= i < s.len() && decimal_number_property(s[i]) {
        digits_end(s, i + 1)
    } else {
        i
    }
}

/// What the five scans say: every character that a scan passes is of the
/// kind it passes, and it stops at the first that is not, or at the end of
/// the source.
pub proof fn lemma_scans(s: Seq<char>, i: int)
    requires
        0 <= i <= s.len(),
    ensures
        forall|k: int| i <= k < content_end(s, i) ==> !body_special(#[trigger] s[k]),
        content_end(s, i) == s.len() || body_special(s[content_end(s, i)]),
        forall|k: int| i <= k < apostrophe_from(s, i) ==> #[trigger] s[k] != '\'',
        apostrophe_from(s, i) == s.len() || s[apostrophe_from(s, i)] == '\'',
        forall|k: int| i <= k < skip_space(s, i) ==> pattern_white_space(#[trigger] s[k]),
        skip_space(s, i) == s.len() || !pattern_white_space(s[skip_space(s, i)]),
        forall|k: int| i <= k < ident_end(s, i) ==> ident_continue(#[trigger] s[k]),
        ident_end(s, i) == s.len() || !ident_continue(s[ident_end(s, i)]),
        forall|k: int| i <= k < digits_end(s, i) ==> decimal_number_property(#[trigger] s[k]),
        digits_end(s, i) == s.len() || !decimal_number_property(s[digits_end(s, i)]),
    decreases s.len() - i,
{
    if i < s.len() {
        lemma_scans(s, i + 1);
    }
}

pub open spec fn word_plural() -> Seq<char> {
    seq!['p', 'l', 'u', 'r', 'a', 'l']
}

pub open spec fn word_select() -> Seq<char> {
    seq!['s', 'e', 'l', 'e', 'c', 't']
}

pub open spec fn word_selectordinal() -> Seq<char> {
    seq!['s', 'e', 'l', 'e', 'c', 't', 'o', 'r', 'd', 'i', 'n', 'a', 'l']
}

pub open spec fn word_offset() -> Seq<char> {
    seq!['o', 'f', 'f', 's', 'e', 't']
}

/// The body lexeme at `pos` and the position behind it.
pub open spec fn body_lexeme(s: Seq<char>, pos: int) -> (BodyLexeme, int)
    recommends
        0 <= pos < s.len(),
{
    let c = s[pos];
    if c == '{' {
        (BodyLexeme::Argument, pos + 1)
    } else if c == '}' {
        (BodyLexeme::End, pos + 1)
    } else if c == '#' {
        (BodyLexeme::Octothorpe, pos + 1)
    } else if c == '\'' {
        if pos + 1 < s.len() && s[pos + 1] == '\'' {
            (BodyLexeme::DoubleApostrophe, pos + 2)
        } else if pos + 1 < s.len() && (s[pos + 1] == '{' || s[pos + 1] == '}' || s[pos + 1]
            == '#') && apostrophe_from(s, pos + 2) < s.len() {
            (BodyLexeme::Quote, apostrophe_from(s, pos + 2) + 1)
        } else {
            (BodyLexeme::Content, pos + 1)
        }
    } else {
        (BodyLexeme::Content, content_end(s, pos + 1))
    }
}

/// The argument lexeme that follows the white space at `pos`: its kind, where
/// it begins and where it ends.
pub open spec fn arg_lexeme(s: Seq<char>, pos: int) -> (ArgLexeme, int, int) {
    let start = skip_space(s, pos);
    if start >= s.len() {
        (ArgLexeme::Eof, start, start)
    } else if s[start] == ',' {
        (ArgLexeme::Comma, start, start + 1)
    } else if s[start] == '}' {
        (ArgLexeme::End, start, start + 1)
    } else if ident_start(s[start]) {
        let end = ident_end(s, start + 1);
        let word = s.subrange(start, end);
        if word == word_plural() {
            (ArgLexeme::Plural, start, end)
        } else if word == word_select() {
            (ArgLexeme::Select, start, end)
        } else if word == word_selectordinal() {
            (ArgLexeme::SelectOrdinal, start, end)
        } else {
            (ArgLexeme::Ident, start, end)
        }
    } else {
        (ArgLexeme::Invalid, start, start + 1)
    }
}

/// The selector lexeme that follows the white space at `pos`: its kind, where
/// it begins and where it ends. The longest lexeme wins; of a run of digits
/// that is also the longest identifier, the integer wins.
pub open spec fn select_lexeme(s: Seq<char>, pos: int) -> (SelectLexeme, int, int) {
    let start = skip_space(s, pos);
    if start >= s.len() {
        (SelectLexeme::Eof, start, start)
    } else if s[start] == ':' {
        (SelectLexeme::Colon, start, start + 1)
    } else if s[start] == ',' {
        (SelectLexeme::Comma, start, start + 1)
    } else if s[start] == '{' {
        (SelectLexeme::Open, start, start + 1)
    } else if s[start] == '}' {
        (SelectLexeme::End, start, start + 1)
    } else if ident_start(s[start]) {
        let end = ident_end(s, start + 1);
        let digits = digits_end(s, start);
        if digits >= end {
            (SelectLexeme::Int, start, digits)
        } else if s.subrange(start, end) == word_offset() {
            (SelectLexeme::Offset, start, end)
        } else {
            (SelectLexeme::Ident, start, end)
        }
    } else {
        (SelectLexeme::Invalid, start, start + 1)
    }
}

/// Finds the end of a run of plain text.
pub fn scan_content(src: &Vec<char>, from: usize) -> (end: usize)
    requires
        from <= src.len(),
    ensures
        end == content_end(src@, from as int),
        from <= end <= src.len(),
{
    let mut i: usize = from;
    while i < src.len() && !is_body_special(src[i])
        invariant
            from <= i <= src.len(),
            content_end(src@, from as int) == content_end(src@, i as int),
        decreases src.len() - i,
    {
        i += 1;
    }
    i
}

/// Finds the next apostrophe.
pub fn scan_apostrophe(src: &Vec<char>, from: usize) -> (end: usize)
    requires
        from <= src.len(),
    ensures
        end == apostrophe_from(src@, from as int),
        from <= end <= src.len(),
{
    let mut i: usize = from;
    while i < src.len() && src[i] != '\''
        invariant
            from <= i <= src.len(),
            apostrophe_from(src@, from as int) == apostrophe_from(src@, i as int),
        decreases src.len() - i,
    {
        i += 1;
    }
    i
}

/// Skips white space.
pub fn scan_space(src: &Vec<char>, from: usize) -> (end: usize)
    requires
        from <= src.len(),
    ensures
        end == skip_space(src@, from as int),
        from <= end <= src.len(),
{
    let mut i: usize = from;
    while i < src.len() && is_pattern_white_space(src[i])
        invariant
            from <= i <= src.len(),
            skip_space(src@, from as int) == skip_space(src@, i as int),
        decreases src.len() - i,
    {
        i += 1;
    }
    i
}

/// Finds the end of a run of identifier characters.
pub fn scan_ident(src: &Vec<char>, from: usize) -> (end: usize)
    requires
        from <= src.len(),
    ensures
        end == ident_end(src@, from as int),
        from <= end <= src.len(),
{
    let mut i: usize = from;
    while i < src.len() && is_ident_continue(src[i])
        invariant
            from <= i <= src.len(),
            ident_end(src@, from as int) == ident_end(src@, i as int),
        decreases src.len() - i,
    {
        i += 1;
    }
    i
}

/// Finds the end of a run of decimal digits.
pub fn scan_digits(src: &Vec<char>, from: usize) -> (end: usize)
    requires
        from <= src.len(),
    ensures
        end == digits_end(src@, from as int),
        from <= end <= src.len(),
{
    let mut i: usize = from;
    while i < src.len() && is_decimal_number(src[i])
        invariant
            from <= i <= src.len(),
            digits_end(src@, from as int) == digits_end(src@, i as int),
        decreases src.len() - i,
    {
        i += 1;
    }
    i
}

pub fn is_body_special(c: char) -> (r: bool)
    ensures
        r == body_special(c),
{
    c == '{' || c == '}' || c == '#' || c == '\''
}

fn is_plural_word(src: &Vec<char>, start: usize, end: usize) -> (r: bool)
    requires
        start <= end <= src.len(),
    ensures
        r == (src@.subrange(start as int, end as int) == word_plural()),
{
    let ghost word = src@.subrange(start as int, end as int);
    proof {
        assert(word_plural().len() == 6);
        assert(word_plural()[0] == 'p');
        assert(word_plural()[1] == 'l');
        assert(word_plural()[2] == 'u');
        assert(word_plural()[3] == 'r');
        assert(word_plural()[4] == 'a');
        assert(word_plural()[5] == 'l');
    }
    if end - start != 6 {
        false
    } else {
        let r = src[start] == 'p' && src[start + 1] == 'l' && src[start + 2] == 'u' && src[start + 3] == 'r' && src[start + 4] == 'a' && src[start + 5] == 'l';
        proof {
            if r {
                assert(word =~= word_plural());
            } else {
                assert(forall|k: int| 0 <= k < 6 ==> word[k] == src@[start + k]);
            }
        }
        r
    }
}

fn is_select_word(src: &Vec<char>, start: usize, end: usize) -> (r: bool)
    requires
        start <= end <= src.len(),
    ensures
        r == (src@.subrange(start as int, end as int) == word_select()),
{
    let ghost word = src@.subrange(start as int, end as int);
    proof {
        assert(word_select().len() == 6);
        assert(word_select()[0] == 's');
        assert(word_select()[1] == 'e');
        assert(word_select()[2] == 'l');
        assert(word_select()[3] == 'e');
        assert(word_select()[4] == 'c');
        assert(word_select()[5] == 't');
    }
    if end - start != 6 {
        false
    } else {
        let r = src[start] == 's' && src[start + 1] == 'e' && src[start + 2] == 'l' && src[start + 3] == 'e' && src[start + 4] == 'c' && src[start + 5] == 't';
        proof {
            if r {
                assert(word =~= word_select());
            } else {
                assert(forall|k: int| 0 <= k < 6 ==> word[k] == src@[start + k]);
            }
        }
        r
    }
}

fn is_selectordinal_word(src: &Vec<char>, start: usize, end: usize) -> (r: bool)
    requires
        start <= end <= src.len(),
    ensures
        r == (src@.subrange(start as int, end as int) == word_selectordinal()),
{
    let ghost word = src@.subrange(start as int, end as int);
    proof {
        assert(word_selectordinal().len() == 13);
        assert(word_selectordinal()[0] == 's');
        assert(word_selectordinal()[1] == 'e');
        assert(word_selectordinal()[2] == 'l');
        assert(word_selectordinal()[3] == 'e');
        assert(word_selectordinal()[4] == 'c');
        assert(word_selectordinal()[5] == 't');
        assert(word_selectordinal()[6] == 'o');
        assert(word_selectordinal()[7] == 'r');
        assert(word_selectordinal()[8] == 'd');
        assert(word_selectordinal()[9] == 'i');
        assert(word_selectordinal()[10] == 'n');
        assert(word_selectordinal()[11] == 'a');
        assert(word_selectordinal()[12] == 'l');
    }
    if end - start != 13 {
        false
    } else {
        let r = src[start] == 's' && src[start + 1] == 'e' && src[start + 2] == 'l' && src[start + 3] == 'e' && src[start + 4] == 'c' && src[start + 5] == 't' && src[start + 6] == 'o' && src[start + 7] == 'r' && src[start + 8] == 'd' && src[start + 9] == 'i' && src[start + 10] == 'n' && src[start + 11] == 'a' && src[start + 12] == 'l';
        proof {
            if r {
                assert(word =~= word_selectordinal());
            } else {
                assert(forall|k: int| 0 <= k < 13 ==> word[k] == src@[start + k]);
            }
        }
        r
    }
}

fn is_offset_word(src: &Vec<char>, start: usize, end: usize) -> (r: bool)
    requires
        start <= end <= src.len(),
    ensures
        r == (src@.subrange(start as int, end as int) == word_offset()),
{
    let ghost word = src@.subrange(start as int, end as int);
    proof {
        assert(word_offset().len() == 6);
        assert(word_offset()[0] == 'o');
        assert(word_offset()[1] == 'f');
        assert(word_offset()[2] == 'f');
        assert(word_offset()[3] == 's');
        assert(word_offset()[4] == 'e');
        assert(word_offset()[5] == 't');
    }
    if end - start != 6 {
        false
    } else {
        let r = src[start] == 'o' && src[start + 1] == 'f' && src[start + 2] == 'f' && src[start + 3] == 's' && src[start + 4] == 'e' && src[start + 5] == 't';
        proof {
            if r {
                assert(word =~= word_offset());
            } else {
                assert(forall|k: int| 0 <= k < 6 ==> word[k] == src@[start + k]);
            }
        }
        r
    }
}

/// Reads the body lexeme at `pos`.
pub fn scan_body_lexeme(src: &Vec<char>, pos: usize) -> (r: (BodyLexeme, usize))
    requires
        pos < src.len(),
    ensures
        (r.0, r.1 as int) == body_lexeme(src@, pos as int),
        pos < r.1 <= src.len(),
{
    let c = src[pos];
    if c == '{' {
        (BodyLexeme::Argument, pos + 1)
    } else if c == '}' {
        (BodyLexeme::End, pos + 1)
    } else if c == '#' {
        (BodyLexeme::Octothorpe, pos + 1)
    } else if c == '\'' {
        if pos + 1 < src.len() && src[pos + 1] == '\'' {
            (BodyLexeme::DoubleApostrophe, pos + 2)
        } else if pos + 1 < src.len() && (src[pos + 1] == '{' || src[pos + 1] == '}' || src[pos
            + 1] == '#') {
            let close = scan_apostrophe(src, pos + 2);
            if close < src.len() {
                (BodyLexeme::Quote, close + 1)
            } else {
                (BodyLexeme::Content, pos + 1)
            }
        } else {
            (BodyLexeme::Content, pos + 1)
        }
    } else {
        (BodyLexeme::Content, scan_content(src, pos + 1))
    }
}

/// Reads the argument lexeme that follows the white space at `pos`.
pub fn scan_arg_lexeme(src: &Vec<char>, pos: usize) -> (r: (ArgLexeme, usize, usize))
    requires
        pos <= src.len(),
    ensures
        (r.0, r.1 as int, r.2 as int) == arg_lexeme(src@, pos as int),
        pos <= r.1 <= r.2 <= src.len(),
        r.0 != ArgLexeme::Eof ==> r.1 < r.2,
{
    let start = scan_space(src, pos);
    if start >= src.len() {
        (ArgLexeme::Eof, start, start)
    } else if src[start] == ',' {
        (ArgLexeme::Comma, start, start + 1)
    } else if src[start] == '}' {
        (ArgLexeme::End, start, start + 1)
    } else if is_ident_start(src[start]) {
        let end = scan_ident(src, start + 1);
        if is_plural_word(src, start, end) {
            (ArgLexeme::Plural, start, end)
        } else if is_select_word(src, start, end) {
            (ArgLexeme::Select, start, end)
        } else if is_selectordinal_word(src, start, end) {
            (ArgLexeme::SelectOrdinal, start, end)
        } else {
            (ArgLexeme::Ident, start, end)
        }
    } else {
        (ArgLexeme::Invalid, start, start + 1)
    }
}

/// Reads the selector lexeme that follows the white space at `pos`.
pub fn scan_select_lexeme(src: &Vec<char>, pos: usize) -> (r: (SelectLexeme, usize, usize))
    requires
        pos <= src.len(),
    ensures
        (r.0, r.1 as int, r.2 as int) == select_lexeme(src@, pos as int),
        pos <= r.1 <= r.2 <= src.len(),
        r.0 != SelectLexeme::Eof ==> r.1 < r.2,
{
    let start = scan_space(src, pos);
    if start >= src.len() {
        (SelectLexeme::Eof, start, start)
    } else if src[start] == ':' {
        (SelectLexeme::Colon, start, start + 1)
    } else if src[start] == ',' {
        (SelectLexeme::Comma, start, start + 1)
    } else if src[start] == '{' {
        (SelectLexeme::Open, start, start + 1)
    } else if src[start] == '}' {
        (SelectLexeme::End, start, start + 1)
    } else if is_ident_start(src[start]) {
        let end = scan_ident(src, start + 1);
        let digits = scan_digits(src, start);
        if digits >= end {
            (SelectLexeme::Int, start, digits)
        } else if is_offset_word(src, start, end) {
            (SelectLexeme::Offset, start, end)
        } else {
            (SelectLexeme::Ident, start, end)
        }
    } else {
        (SelectLexeme::Invalid, start, start + 1)
    }
}

} // verus!
