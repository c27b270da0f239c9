//! Characters: the classes that the lexers tell apart, and the width of a
//! character in UTF-8, by which a position in characters becomes one in bytes.

use vstd::prelude::*;
use vstd::std_specs::iter::IteratorSpec;

verus! {

/// Whether `c` has the Unicode property `ID_Start`, as the function
/// `unicode_id_start::is_id_start` reports it.
pub uninterp spec fn id_start_property(c: char) -> bool;

/// Whether `c` has the Unicode property `ID_Continue`, as the function
/// `unicode_id_start::is_id_continue` reports it.
pub uninterp spec fn id_continue_property(c: char) -> bool;

/// Whether the general category of `c` is `Nd` (decimal number), as the
/// function `unicode_general_category::get_general_category` reports it.
pub uninterp spec fn decimal_number_property(c: char) -> bool;

/// `unicode_id_start::is_id_start` looks the character up in the crate's
/// tables. Nothing is proved of the lookup: the contract only gives its
/// answer a name.
pub assume_specification[ unicode_id_start::is_id_start ](ch: char) -> (r: bool)
    ensures
        r == id_start_property(ch),
;

/// `unicode_id_start::is_id_continue` looks the character up in the crate's
/// tables. Nothing is proved of the lookup: the contract only gives its
/// answer a name.
pub assume_specification[ unicode_id_start::is_id_continue ](ch: char) -> (r: bool)
    ensures
        r == id_continue_property(ch),
;

/// Calls `unicode_general_category::get_general_category` and tells its
/// variant `DecimalNumber` from the others. Nothing is proved of the lookup:
/// the contract only gives its answer a name.
#[verifier::external_body]
pub(crate) fn is_decimal_number(c: char) -> (r: bool)
    ensures
        r == decimal_number_property(c),
{
    match unicode_general_category::get_general_category(c) {
        unicode_general_category::GeneralCategory::DecimalNumber => true,
        _ => false,
    }
}

/// The characters with the Unicode property `Pattern_White_Space`.
pub open spec fn pattern_white_space(c: char) -> bool {
    ||| '\u{9}' <= c <= '\u{d}'
    ||| c == ' '
    ||| c == '\u{85}'
    ||| c == '\u{200e}'
    ||| c == '\u{200f}'
    ||| c == '\u{2028}'
    ||| c == '\u{2029}'
}

/// A character that may begin an identifier: a decimal digit or `ID_Start`.
pub open spec fn ident_start(c: char) -> bool {
    decimal_number_property(c) || id_start_property(c)
}

/// A character that may continue an identifier: `ID_Continue`.
pub open spec fn ident_continue(c: char) -> bool {
    id_continue_property(c)
}

pub fn is_pattern_white_space(c: char) -> (r: bool)
    ensures
        r == pattern_white_space(c),
{
    ('\u{9}' <= c && c <= '\u{d}') || c == ' ' || c == '\u{85}' || c == '\u{200e}' || c
        == '\u{200f}' || c == '\u{2028}' || c == '\u{2029}'
}

pub fn is_ident_start(c: char) -> (r: bool)
    ensures
        r == ident_start(c),
{
    is_decimal_number(c) || unicode_id_start::is_id_start(c)
}

pub fn is_ident_continue(c: char) -> (r: bool)
    ensures
        r == ident_continue(c),
{
    unicode_id_start::is_id_continue(c)
}

/// `String::push` appends one character.
pub assume_specification[ std::string::String::push ](s: &mut std::string::String, ch: char)
    ensures
        final(s)@ == old(s)@.push(ch),
;

/// The characters of a string.
pub fn to_chars(src: &str) -> (chars: Vec<char>)
    ensures
        chars@ == src@,
{
    broadcast use vstd::string::group_string_axioms;

    let mut chars: Vec<char> = Vec::new();
    let mut rest = src.chars();
    loop
        invariant
            rest.obeys_prophetic_iter_laws(),
            rest.decrease() is Some,
            chars@ + rest.remaining() == src@,
        decreases rest.decrease()->0,
    {
        let ghost before = rest;
        match rest.next() {
            Some(c) => {
                chars.push(c);
                assert(chars@ + rest.remaining() =~= src@);
            },
            None => {
                assert(chars@ =~= src@);
                return chars;
            },
        }
    }
}

/// The characters of `src` from `from` up to `to`, as a string.
pub fn substring(src: &Vec<char>, from: usize, to: usize) -> (text: String)
    requires
        from <= to <= src.len(),
    ensures
        text@ == src@.subrange(from as int, to as int),
{
    let mut text = String::new();
    let mut i: usize = from;
    while i < to
        invariant
            from <= i <= to <= src.len(),
            text@ == src@.subrange(from as int, i as int),
        decreases to - i,
    {
        text.push(src[i]);
        i += 1;
        assert(text@ =~= src@.subrange(from as int, i as int));
    }
    text
}

/// The number of bytes that a character takes in UTF-8.
pub open spec fn utf8_width(c: char) -> nat {
    if (c as u32) < 0x80 {
        1
    } else if (c as u32) < 0x800 {
        2
    } else if (c as u32) < 0x10000 {
        3
    } else {
        4
    }
}

/// The number of bytes that a sequence of characters takes in UTF-8.
pub open spec fn byte_length(s: Seq<char>) -> nat
    decreases s.len(),
{
    if s.len() == 0 {
        0
    } else {
        utf8_width(s[0]) + byte_length(s.drop_first())
    }
}

/// The position in bytes of the character at `index`: the number of bytes
/// that the characters before it take.
pub open spec fn byte_offset(s: Seq<char>, index: int) -> nat {
    byte_length(s.take(index))
}

/// One more character adds its width.
pub proof fn lemma_byte_length_push(s: Seq<char>, c: char)
    ensures
        byte_length(s.push(c)) == byte_length(s) + utf8_width(c),
    decreases s.len(),
{
    if s.len() == 0 {
        assert(s.push(c).drop_first() =~= s);
    } else {
        assert(s.push(c).drop_first() =~= s.drop_first().push(c));
        lemma_byte_length_push(s.drop_first(), c);
    }
}

/// Positions in bytes grow with positions in characters, by the width of the
/// character passed, and end at the length in bytes.
pub proof fn lemma_byte_offset_step(s: Seq<char>, index: int)
    requires
        0 <= index < s.len(),
    ensures
        byte_offset(s, index + 1) == byte_offset(s, index) + utf8_width(s[index]),
{
    assert(s.take(index + 1) =~= s.take(index).push(s[index]));
    lemma_byte_length_push(s.take(index), s[index]);
}

/// No position in bytes lies behind the length in bytes.
pub proof fn lemma_byte_offset_bound(s: Seq<char>, index: int)
    requires
        0 <= index <= s.len(),
    ensures
        byte_offset(s, index) <= byte_length(s),
        byte_offset(s, s.len() as int) == byte_length(s),
    decreases s.len() - index,
{
    assert(s.take(s.len() as int) =~= s);
    if index < s.len() {
        lemma_byte_offset_step(s, index);
        lemma_byte_offset_bound(s, index + 1);
    }
}

/// The length in bytes is the length of the UTF-8 encoding.
pub proof fn lemma_byte_length_is_encoded_length(s: Seq<char>)
    ensures
        byte_length(s) == vstd::utf8::encode_utf8(s).len(),
    decreases s.len(),
{
    if s.len() > 0 {
        lemma_byte_length_is_encoded_length(s.drop_first());
        vstd::utf8::char_is_scalar(s[0]);
        assert(vstd::utf8::encode_scalar(s[0] as u32).len() == utf8_width(s[0]));
    }
}

/// The number of bytes that `c` takes in UTF-8.
pub fn width_of(c: char) -> (w: usize)
    ensures
        w == utf8_width(c),
{
    let v = c as u32;
    if v < 0x80 {
        1
    } else if v < 0x800 {
        2
    } else if v < 0x10000 {
        3
    } else {
        4
    }
}

/// The position in bytes of the character at `index`.
pub fn byte_position(src: &Vec<char>, index: usize) -> (offset: usize)
    requires
        index <= src.len(),
        byte_length(src@) <= usize::MAX,
    ensures
        offset == byte_offset(src@, index as int),
{
    let mut offset: usize = 0;
    let mut i: usize = 0;
    proof {
        assert(src@.take(0) =~= Seq::<char>::empty());
    }
    while i < index
        invariant
            i <= index <= src.len(),
            byte_length(src@) <= usize::MAX,
            offset == byte_offset(src@, i as int),
        decreases index - i,
    {
        proof {
            lemma_byte_offset_step(src@, i as int);
            lemma_byte_offset_bound(src@, i + 1);
        }
        offset += width_of(src[i]);
        i += 1;
    }
    offset
}

} // verus!
