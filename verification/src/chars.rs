//! Character classes, maximal runs of a class, and line numbers.
//!
//! Source text is a sequence of Unicode scalar values and every position is an
//! index into that sequence. Only ASCII characters belong to the classes that
//! start or continue a token; any other character is an opaque single
//! character, acceptable inside a string literal or a comment and nowhere else.

use vstd::prelude::*;

verus! {

/// The ASCII decimal digits.
pub open spec fn is_digit(c: char) -> bool {
    '0' <= c && c <= '9'
}

/// The characters that may start an identifier: ASCII letters and underscore.
pub open spec fn is_letter(c: char) -> bool {
    ('a' <= c && c <= 'z') || ('A' <= c && c <= 'Z') || c == '_'
}

/// The characters that may continue an identifier.
pub open spec fn is_word_char(c: char) -> bool {
    is_letter(c) || is_digit(c)
}

/// Space, tab and carriage return: separators that leave the line unchanged.
pub open spec fn is_blank(c: char) -> bool {
    c == ' ' || c == '\r' || c == '\t'
}

/// The classes of character of which the scanner consumes maximal runs.
#[derive(Clone, Copy, Debug, PartialEq, Eq, Structural)]
pub enum CharClass {
    /// ASCII decimal digits.
    Digit,
    /// ASCII letters, digits and underscore.
    Word,
    /// Everything but a line feed: the body of a line comment.
    CommentBody,
    /// Everything but a double quote: the body of a string literal.
    StringBody,
}

/// Whether `c` belongs to `class`.
pub open spec fn in_class(class: CharClass, c: char) -> bool {
    match class {
        CharClass::Digit => is_digit(c),
        CharClass::Word => is_word_char(c),
        CharClass::CommentBody => c != '\n',
        CharClass::StringBody => c != '"',
    }
}

/// The position just past the maximal run of `class` characters that starts at
/// `from`: the first position at or after `from` that holds a character outside
/// the class, or the length of `s` if there is none.
pub open spec fn run_end(s: Seq<char>, from: int, class: CharClass) -> int
    decreases s.len() - from,
{
    if 0 <= from < s.len() && in_class(class, s[from]) {
        run_end(s, from + 1, class)
    } else {
        from
    }
}

/// The 1-based line of position `pos`: one more than the number of line feeds
/// before it.
pub open spec fn line_at(s: Seq<char>, pos: int) -> nat
    decreases pos,
{
    if pos <= 0 {
        1
    } else if s[pos - 1] == '\n' {
        line_at(s, pos - 1) + 1
    } else {
        line_at(s, pos - 1)
    }
}

/// A run ends inside the text, holds only characters of its class, and cannot
/// be extended: it is maximal.
pub proof fn lemma_run_end_maximal(s: Seq<char>, from: int, class: CharClass)
    requires
        0 <= from <= s.len(),
    ensures
        from <= run_end(s, from, class) <= s.len(),
        forall|k: int| from <= k < run_end(s, from, class) ==> in_class(class, #[trigger] s[k]),
        run_end(s, from, class) < s.len() ==> !in_class(class, s[run_end(s, from, class)]),
    decreases s.len() - from,
{
    if from < s.len() && in_class(class, s[from]) {
        lemma_run_end_maximal(s, from + 1, class);
    }
}

/// A run inside a piece of the text is the run in the whole text, cut off
/// where the piece ends.
pub proof fn lemma_run_end_in_piece(s: Seq<char>, a: int, b: int, from: int, class: CharClass)
    requires
        0 <= a <= from <= b <= s.len(),
    ensures
        run_end(s.subrange(a, b), from - a, class) + a == if run_end(s, from, class) <= b {
            run_end(s, from, class)
        } else {
            b
        },
    decreases b - from,
{
    lemma_run_end_maximal(s, from, class);
    if from < b {
        assert(s.subrange(a, b)[from - a] == s[from]);
        if in_class(class, s[from]) {
            lemma_run_end_in_piece(s, a, b, from + 1, class);
        }
    }
}

/// Line numbers never decrease, and grow by at most one per character.
pub proof fn lemma_line_at_monotone(s: Seq<char>, from: int, to: int)
    requires
        0 <= from <= to,
    ensures
        line_at(s, from) <= line_at(s, to) <= line_at(s, from) + (to - from),
    decreases to,
{
    if from < to {
        lemma_line_at_monotone(s, from, to - 1);
    }
}

/// The line of a position is at least one and at most one more than the
/// position.
pub proof fn lemma_line_at_range(s: Seq<char>, pos: int)
    requires
        0 <= pos,
    ensures
        1 <= line_at(s, pos) <= pos + 1,
{
    lemma_line_at_monotone(s, 0, pos);
}

/// Across a stretch without line feeds the line stays the same.
pub proof fn lemma_line_at_unchanged(s: Seq<char>, from: int, to: int)
    requires
        0 <= from <= to,
        forall|k: int| from <= k < to ==> #[trigger] s[k] != '\n',
    ensures
        line_at(s, to) == line_at(s, from),
    decreases to - from,
{
    if from < to {
        lemma_line_at_unchanged(s, from, to - 1);
    }
}

/// Executable test for [`is_digit`].
pub fn char_is_digit(c: char) -> (b: bool)
    ensures
        b == is_digit(c),
{
    '0' <= c && c <= '9'
}

/// Executable test for [`is_letter`].
pub fn char_is_letter(c: char) -> (b: bool)
    ensures
        b == is_letter(c),
{
    ('a' <= c && c <= 'z') || ('A' <= c && c <= 'Z') || c == '_'
}

/// Executable test for [`is_word_char`].
pub fn char_is_word(c: char) -> (b: bool)
    ensures
        b == is_word_char(c),
{
    char_is_letter(c) || char_is_digit(c)
}

} // verus!
