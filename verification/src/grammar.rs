//! The lexical grammar, as a mathematical model of a scan.
//!
//! A text is cut, left to right, into consecutive segments. The first character
//! of a segment decides what it is and how far it reaches; a segment is a
//! token, a skipped separator (blank, line feed or comment), or a lexical
//! error. The tokens of a text are the tokens of its segments, in order,
//! followed by one end marker; its diagnostics are the errors of its segments,
//! in order.

use vstd::prelude::*;
use crate::chars::{
    in_class, is_blank, is_digit, is_letter, lemma_run_end_in_piece, lemma_run_end_maximal,
    line_at, run_end, CharClass,
};
use crate::diagnostic::{DiagnosticView, LexicalError};
use crate::keyword::{lemma_word_kind_is_keyword_or_identifier, word_kind};
use crate::number::{decimal_of, digit_values};
use crate::token::{LiteralView, TokenType, TokenView};

verus! {

/// What a segment of the text amounts to.
pub enum SegmentKind {
    /// A token of the given kind.
    Token(TokenType),
    /// A separator that yields nothing: a blank, a line feed or a comment.
    Skipped,
    /// A malformed construct, reported and left out of the tokens.
    Error(LexicalError),
}

/// A piece of the text, from `start` up to and not including `end`.
pub struct Segment {
    pub start: int,
    pub end: int,
    pub kind: SegmentKind,
}

impl Segment {
    /// Whether position `k` lies in the segment.
    pub open spec fn covers(self, k: int) -> bool {
        self.start <= k < self.end
    }
}

/// The kind of the one-character token that `c` is, for the characters that
/// are a token whatever follows them.
pub open spec fn punctuation_kind(c: char) -> Option<TokenType> {
    if c == '(' {
        Some(TokenType::LeftParen)
    } else if c == ')' {
        Some(TokenType::RightParen)
    } else if c == '{' {
        Some(TokenType::LeftBrace)
    } else if c == '}' {
        Some(TokenType::RightBrace)
    } else if c == ',' {
        Some(TokenType::Comma)
    } else if c == '.' {
        Some(TokenType::Dot)
    } else if c == '-' {
        Some(TokenType::Minus)
    } else if c == '+' {
        Some(TokenType::Plus)
    } else if c == ';' {
        Some(TokenType::Semicolon)
    } else if c == '*' {
        Some(TokenType::Star)
    } else {
        None
    }
}

/// The kind of the operator that starts with `c`, for the characters that an
/// equals sign may extend: the two-character kind if `extended`, the
/// one-character kind otherwise.
pub open spec fn operator_kind(c: char, extended: bool) -> Option<TokenType> {
    if c == '!' {
        Some(if extended { TokenType::BangEqual } else { TokenType::Bang })
    } else if c == '=' {
        Some(if extended { TokenType::EqualEqual } else { TokenType::Equal })
    } else if c == '<' {
        Some(if extended { TokenType::LessEqual } else { TokenType::Less })
    } else if c == '>' {
        Some(if extended { TokenType::GreaterEqual } else { TokenType::Greater })
    } else {
        None
    }
}

/// Whether the character after position `pos` exists and is `c`.
pub open spec fn followed_by(s: Seq<char>, pos: int, c: char) -> bool {
    pos + 1 < s.len() && s[pos + 1] == c
}

/// Where the number literal that starts at `pos` ends: after the maximal run of
/// digits, and, if a point and a digit follow it, after the point and the
/// maximal run of digits behind it. A point that no digit follows is not part
/// of the number.
pub open spec fn number_end(s: Seq<char>, pos: int) -> int {
    let point = run_end(s, pos, CharClass::Digit);
    if point + 1 < s.len() && s[point] == '.' && is_digit(s[point + 1]) {
        run_end(s, point + 1, CharClass::Digit)
    } else {
        point
    }
}

/// The segment that starts at position `pos` of `s`.
pub open spec fn segment_at(s: Seq<char>, pos: int) -> Segment
    recommends
        0 <= pos < s.len(),
{
    let c = s[pos];
    if punctuation_kind(c) is Some {
        Segment { start: pos, end: pos + 1, kind: SegmentKind::Token(punctuation_kind(c)->0) }
    } else if operator_kind(c, false) is Some {
        if followed_by(s, pos, '=') {
            Segment {
                start: pos,
                end: pos + 2,
                kind: SegmentKind::Token(operator_kind(c, true)->0),
            }
        } else {
            Segment {
                start: pos,
                end: pos + 1,
                kind: SegmentKind::Token(operator_kind(c, false)->0),
            }
        }
    } else if c == '/' {
        if followed_by(s, pos, '/') {
            Segment {
                start: pos,
                end: run_end(s, pos + 2, CharClass::CommentBody),
                kind: SegmentKind::Skipped,
            }
        } else {
            Segment { start: pos, end: pos + 1, kind: SegmentKind::Token(TokenType::Slash) }
        }
    } else if c == '"' {
        let close = run_end(s, pos + 1, CharClass::StringBody);
        if close < s.len() {
            Segment { start: pos, end: close + 1, kind: SegmentKind::Token(TokenType::String) }
        } else {
            Segment {
                start: pos,
                end: s.len() as int,
                kind: SegmentKind::Error(LexicalError::UnterminatedString),
            }
        }
    } else if is_digit(c) {
        Segment {
            start: pos,
            end: number_end(s, pos),
            kind: SegmentKind::Token(TokenType::Number),
        }
    } else if is_letter(c) {
        let end = run_end(s, pos, CharClass::Word);
        Segment { start: pos, end, kind: SegmentKind::Token(word_kind(s.subrange(pos, end))) }
    } else if c == '\n' || is_blank(c) {
        Segment { start: pos, end: pos + 1, kind: SegmentKind::Skipped }
    } else {
        Segment {
            start: pos,
            end: pos + 1,
            kind: SegmentKind::Error(LexicalError::UnexpectedCharacter(c)),
        }
    }
}

/// The decoded value that a token of kind `kind` with the lexeme `lexeme`
/// carries: the number for a `Number`, the characters between the quotes for a
/// `String`, nothing for any other kind.
pub open spec fn literal_of(lexeme: Seq<char>, kind: TokenType) -> Option<LiteralView> {
    match kind {
        TokenType::String => Some(
            LiteralView { number: None, string: Some(lexeme.subrange(1, lexeme.len() - 1)) },
        ),
        TokenType::Number => Some(LiteralView { number: Some(decimal_of(lexeme)), string: None }),
        _ => None,
    }
}

/// The token of kind `kind` that the piece of `s` from `start` to `end` becomes.
pub open spec fn token_of(s: Seq<char>, start: int, end: int, kind: TokenType) -> TokenView {
    TokenView {
        lexeme: s.subrange(start, end),
        literal: literal_of(s.subrange(start, end), kind),
        token_type: kind,
        line: line_at(s, start),
    }
}

/// The tokens that one segment yields: one if it is a token, none otherwise.
pub open spec fn segment_tokens(s: Seq<char>, segment: Segment) -> Seq<TokenView> {
    match segment.kind {
        SegmentKind::Token(kind) => seq![token_of(s, segment.start, segment.end, kind)],
        _ => Seq::empty(),
    }
}

/// The line at which an error in `segment` is reported: the line the scanner
/// is on when it finds the error. An unexpected character is found where it
/// stands, a missing closing quote at the end of the text.
pub open spec fn error_line(s: Seq<char>, segment: Segment, error: LexicalError) -> nat {
    match error {
        LexicalError::UnexpectedCharacter(_) => line_at(s, segment.start),
        LexicalError::UnterminatedString => line_at(s, segment.end),
    }
}

/// The diagnostics that one segment yields: one if it is an error, none
/// otherwise.
pub open spec fn segment_diagnostics(s: Seq<char>, segment: Segment) -> Seq<DiagnosticView> {
    match segment.kind {
        SegmentKind::Error(error) => seq![
            DiagnosticView { line: error_line(s, segment, error), error },
        ],
        _ => Seq::empty(),
    }
}

/// The segments of `s` from position `pos` on, where `pos` is the start of one.
pub open spec fn scan_from(s: Seq<char>, pos: int) -> Seq<Segment>
    decreases s.len() - pos,
    via scan_from_decreases
{
    if 0 <= pos < s.len() {
        seq![segment_at(s, pos)] + scan_from(s, segment_at(s, pos).end)
    } else {
        Seq::empty()
    }
}

#[via_fn]
proof fn scan_from_decreases(s: Seq<char>, pos: int) {
    if 0 <= pos < s.len() {
        lemma_segment_at_bounds(s, pos);
    }
}

/// The segments that `s` is cut into.
pub open spec fn segments(s: Seq<char>) -> Seq<Segment> {
    scan_from(s, 0)
}

/// The tokens that a sequence of segments yields, in order.
pub open spec fn tokens_of(s: Seq<char>, segments: Seq<Segment>) -> Seq<TokenView>
    decreases segments.len(),
{
    if segments.len() == 0 {
        Seq::empty()
    } else {
        tokens_of(s, segments.drop_last()) + segment_tokens(s, segments.last())
    }
}

/// The diagnostics that a sequence of segments yields, in order.
pub open spec fn diagnostics_of(s: Seq<char>, segments: Seq<Segment>) -> Seq<DiagnosticView>
    decreases segments.len(),
{
    if segments.len() == 0 {
        Seq::empty()
    } else {
        diagnostics_of(s, segments.drop_last()) + segment_diagnostics(s, segments.last())
    }
}

/// The token that closes every scan: it has no text and no value, and stands on
/// the line of the end of the text.
pub open spec fn end_marker(s: Seq<char>) -> TokenView {
    TokenView {
        lexeme: Seq::empty(),
        literal: None,
        token_type: TokenType::EndOfInput,
        line: line_at(s, s.len() as int),
    }
}

/// The tokens of the text `s`: those of its segments, then the end marker.
pub open spec fn tokens(s: Seq<char>) -> Seq<TokenView> {
    tokens_of(s, segments(s)).push(end_marker(s))
}

/// The diagnostics of the text `s`: the errors of its segments.
pub open spec fn diagnostics(s: Seq<char>) -> Seq<DiagnosticView> {
    diagnostics_of(s, segments(s))
}

/// A number literal starts with a digit, reaches at least one character and
/// ends inside the text.
pub proof fn lemma_number_end_bounds(s: Seq<char>, pos: int)
    requires
        0 <= pos < s.len(),
        is_digit(s[pos]),
    ensures
        pos < number_end(s, pos) <= s.len(),
{
    lemma_run_end_maximal(s, pos, CharClass::Digit);
    let point = run_end(s, pos, CharClass::Digit);
    if point + 1 < s.len() {
        lemma_run_end_maximal(s, point + 1, CharClass::Digit);
    }
}

/// Every segment starts where it is asked for, holds at least one character
/// and ends inside the text.
pub proof fn lemma_segment_at_bounds(s: Seq<char>, pos: int)
    requires
        0 <= pos < s.len(),
    ensures
        segment_at(s, pos).start == pos,
        pos < segment_at(s, pos).end <= s.len(),
{
    let c = s[pos];
    if punctuation_kind(c) is Some {
    } else if operator_kind(c, false) is Some {
    } else if c == '/' {
        if followed_by(s, pos, '/') {
            lemma_run_end_maximal(s, pos + 2, CharClass::CommentBody);
        }
    } else if c == '"' {
        lemma_run_end_maximal(s, pos + 1, CharClass::StringBody);
    } else if is_digit(c) {
        lemma_number_end_bounds(s, pos);
    } else if is_letter(c) {
        lemma_run_end_maximal(s, pos + 1, CharClass::Word);
    }
}

/// Every token is as long as it can be: a number ends where no digit
/// follows, a word where no letter, digit or underscore follows, and an
/// operator of one character is not followed by the equals sign that would
/// make it one of two.
pub proof fn lemma_segment_is_maximal(s: Seq<char>, pos: int)
    requires
        0 <= pos < s.len(),
    ensures
        ({
            let segment = segment_at(s, pos);
            &&& is_digit(s[pos]) && segment.end < s.len() ==> !is_digit(s[segment.end])
            &&& is_letter(s[pos]) && segment.end < s.len() ==> !in_class(
                CharClass::Word,
                s[segment.end],
            )
            &&& operator_kind(s[pos], false) is Some && segment.end == pos + 1 ==> !followed_by(
                s,
                pos,
                '=',
            )
        }),
{
    let point = run_end(s, pos, CharClass::Digit);
    lemma_run_end_maximal(s, pos, CharClass::Digit);
    lemma_run_end_maximal(s, pos, CharClass::Word);
    if point + 1 < s.len() {
        lemma_run_end_maximal(s, point + 1, CharClass::Digit);
    }
}

/// The lexeme of a number literal is digits, a point that stands between two
/// digits if there is one, and nothing else; the number it denotes has the
/// digits before the point for its whole part and those after it for its
/// fraction.
pub proof fn lemma_number_literal_decodes_its_digits(s: Seq<char>, pos: int)
    requires
        0 <= pos < s.len(),
        is_digit(s[pos]),
    ensures
        ({
            let point = run_end(s, pos, CharClass::Digit);
            let end = number_end(s, pos);
            let number = decimal_of(s.subrange(pos, end));
            &&& pos < point <= end <= s.len()
            &&& point < end ==> s[point] == '.' && point + 1 < end
            &&& forall|k: int| pos <= k < end && k != point ==> is_digit(#[trigger] s[k])
            &&& number.whole == digit_values(s.subrange(pos, point))
            &&& point < end ==> number.fraction == digit_values(s.subrange(point + 1, end))
            &&& point == end ==> number.fraction == Seq::<u8>::empty()
            &&& number.well_formed()
        }),
{
    let point = run_end(s, pos, CharClass::Digit);
    let end = number_end(s, pos);
    let lexeme = s.subrange(pos, end);
    lemma_run_end_maximal(s, pos, CharClass::Digit);
    lemma_number_end_bounds(s, pos);
    if point + 1 < s.len() {
        lemma_run_end_maximal(s, point + 1, CharClass::Digit);
    }
    assert forall|k: int| pos <= k < end && k != point implies is_digit(#[trigger] s[k]) by {
        assert(in_class(CharClass::Digit, s[k]));
    }
    lemma_run_end_in_piece(s, pos, end, pos, CharClass::Digit);
    assert(run_end(lexeme, 0, CharClass::Digit) == point - pos);
    assert(lexeme.subrange(0, point - pos) =~= s.subrange(pos, point));
    if point < end {
        assert(lexeme.subrange(point - pos + 1, lexeme.len() as int) =~= s.subrange(
            point + 1,
            end,
        ));
    }
    let number = decimal_of(lexeme);
    assert forall|i: int| 0 <= i < number.whole.len() implies #[trigger] number.whole[i] <= 9 by {
        assert(is_digit(s[pos + i]));
    }
    assert forall|i: int| 0 <= i < number.fraction.len() implies #[trigger] number.fraction[i]
        <= 9 by {
        assert(is_digit(s[point + 1 + i]));
    }
}

/// The lexeme of a string literal is an opening quote, the value of the
/// literal, and a closing quote, and the value holds no quote.
pub proof fn lemma_string_literal_is_between_quotes(s: Seq<char>, pos: int)
    requires
        0 <= pos < s.len(),
        s[pos] == '"',
        segment_at(s, pos).kind == SegmentKind::Token(TokenType::String),
    ensures
        ({
            let lexeme = s.subrange(pos, segment_at(s, pos).end);
            let value = literal_of(lexeme, TokenType::String)->0.string->0;
            &&& lexeme == seq!['"'] + value + seq!['"']
            &&& forall|k: int| 0 <= k < value.len() ==> #[trigger] value[k] != '"'
        }),
{
    let close = run_end(s, pos + 1, CharClass::StringBody);
    lemma_run_end_maximal(s, pos + 1, CharClass::StringBody);
    let lexeme = s.subrange(pos, close + 1);
    let value = lexeme.subrange(1, lexeme.len() - 1);
    assert(lexeme =~= seq!['"'] + value + seq!['"']);
    assert forall|k: int| 0 <= k < value.len() implies #[trigger] value[k] != '"' by {
        assert(in_class(CharClass::StringBody, s[pos + 1 + k]));
    }
}

/// Whether `segment` is the segment that starts at one of the positions of `s`.
pub open spec fn is_segment_of(s: Seq<char>, segment: Segment) -> bool {
    0 <= segment.start < s.len() && segment == segment_at(s, segment.start)
}

/// Whether some segment of `s` holds position `k`.
pub open spec fn is_covered(s: Seq<char>, k: int) -> bool {
    exists|i: int| 0 <= i < segments(s).len() && (#[trigger] segments(s)[i]).covers(k)
}

/// How many of `segments` are tokens.
pub open spec fn count_tokens(segments: Seq<Segment>) -> nat
    decreases segments.len(),
{
    if segments.len() == 0 {
        0
    } else if segments.last().kind is Token {
        count_tokens(segments.drop_last()) + 1
    } else {
        count_tokens(segments.drop_last())
    }
}

/// How many of `segments` are errors.
pub open spec fn count_errors(segments: Seq<Segment>) -> nat
    decreases segments.len(),
{
    if segments.len() == 0 {
        0
    } else if segments.last().kind is Error {
        count_errors(segments.drop_last()) + 1
    } else {
        count_errors(segments.drop_last())
    }
}

/// No segment is an end marker: a token segment is punctuation, an operator, a
/// literal, a keyword or an identifier.
pub proof fn lemma_segment_is_no_end_marker(s: Seq<char>, pos: int)
    requires
        0 <= pos < s.len(),
    ensures
        segment_at(s, pos).kind != SegmentKind::Token(TokenType::EndOfInput),
{
    let c = s[pos];
    if is_letter(c) {
        lemma_word_kind_is_keyword_or_identifier(
            s.subrange(pos, run_end(s, pos, CharClass::Word)),
        );
    }
}

/// The segments from a position on lie one after the other: the first starts
/// at that position, each starts where the one before it ends, none is empty,
/// and the last ends with the text.
pub proof fn lemma_scan_from_is_a_chain(s: Seq<char>, pos: int)
    requires
        0 <= pos <= s.len(),
    ensures
        scan_from(s, pos).len() == 0 <==> pos == s.len(),
        pos < s.len() ==> scan_from(s, pos)[0].start == pos && scan_from(s, pos).last().end
            == s.len(),
        forall|i: int|
            0 <= i < scan_from(s, pos).len() ==> is_segment_of(s, #[trigger] scan_from(s, pos)[i])
                && pos <= scan_from(s, pos)[i].start < scan_from(s, pos)[i].end <= s.len(),
        forall|i: int|
            0 <= i < scan_from(s, pos).len() - 1 ==> (#[trigger] scan_from(s, pos)[i]).end
                == scan_from(s, pos)[i + 1].start,
    decreases s.len() - pos,
{
    if pos < s.len() {
        let first = segment_at(s, pos);
        lemma_segment_at_bounds(s, pos);
        lemma_scan_from_is_a_chain(s, first.end);
        let rest = scan_from(s, first.end);
        let all = scan_from(s, pos);
        assert(all =~= seq![first] + rest);
        assert(all[0] == first);
        assert forall|i: int| 0 < i < all.len() implies all[i] == rest[i - 1] by {}
        assert forall|i: int| 0 <= i < all.len() implies is_segment_of(s, #[trigger] all[i])
            && pos <= all[i].start < all[i].end <= s.len() by {
            if i > 0 {
                assert(all[i] == rest[i - 1]);
            }
        }
        assert forall|i: int| 0 <= i < all.len() - 1 implies (#[trigger] all[i]).end == all[i
            + 1].start by {
            assert(all[i + 1] == rest[i]);
            if i > 0 {
                assert(all[i] == rest[i - 1]);
            }
        }
    }
}

/// In a chain of segments a later one starts at or after the end of an
/// earlier one.
proof fn lemma_chain_is_ordered(s: Seq<char>, i: int, j: int)
    requires
        0 <= i < j < segments(s).len(),
    ensures
        segments(s)[i].end <= segments(s)[j].start,
    decreases j - i,
{
    lemma_scan_from_is_a_chain(s, 0);
    if i + 1 < j {
        lemma_chain_is_ordered(s, i + 1, j);
    }
}

/// In a chain of segments every position of the text from the start of a
/// segment on lies in that segment or in a later one.
proof fn lemma_chain_reaches(s: Seq<char>, i: int, k: int) -> (j: int)
    requires
        0 <= i < segments(s).len(),
        segments(s)[i].start <= k < s.len(),
    ensures
        i <= j < segments(s).len(),
        segments(s)[j].covers(k),
    decreases segments(s).len() - i,
{
    lemma_scan_from_is_a_chain(s, 0);
    if k < segments(s)[i].end {
        i
    } else {
        lemma_chain_reaches(s, i + 1, k)
    }
}

/// Every character of a text is accounted for exactly once: the segments of
/// the text are non-empty pieces of it, they lie one after the other from its
/// first character to its last, so that every position lies in one segment and
/// in no other, and each segment is what the rules make of the character it
/// starts with: a token, a skipped separator or an error.
pub proof fn lemma_segments_partition_text(s: Seq<char>)
    ensures
        segments(s).len() == 0 <==> s.len() == 0,
        s.len() > 0 ==> segments(s)[0].start == 0 && segments(s).last().end == s.len(),
        forall|i: int|
            0 <= i < segments(s).len() ==> is_segment_of(s, #[trigger] segments(s)[i])
                && segments(s)[i].start < segments(s)[i].end <= s.len(),
        forall|i: int|
            0 <= i < segments(s).len() - 1 ==> (#[trigger] segments(s)[i]).end == segments(s)[i
                + 1].start,
        forall|k: int| 0 <= k < s.len() ==> #[trigger] is_covered(s, k),
        forall|i: int, j: int, k: int|
            0 <= i < segments(s).len() && 0 <= j < segments(s).len()
                && #[trigger] segments(s)[i].covers(k) && #[trigger] segments(s)[j].covers(k)
                ==> i == j,
{
    lemma_scan_from_is_a_chain(s, 0);
    assert forall|k: int| 0 <= k < s.len() implies #[trigger] is_covered(s, k) by {
        let j = lemma_chain_reaches(s, 0, k);
        assert(segments(s)[j].covers(k));
    }
    assert forall|i: int, j: int, k: int|
        0 <= i < segments(s).len() && 0 <= j < segments(s).len()
            && #[trigger] segments(s)[i].covers(k) && #[trigger] segments(s)[j].covers(
            k,
        ) implies i == j by {
        if i < j {
            lemma_chain_is_ordered(s, i, j);
        } else if j < i {
            lemma_chain_is_ordered(s, j, i);
        }
    }
}

/// A sequence of segments yields one token for each of its token segments and
/// one diagnostic for each of its error segments, and no end marker.
pub proof fn lemma_yield_of_segments(s: Seq<char>, segments: Seq<Segment>)
    requires
        forall|i: int| 0 <= i < segments.len() ==> is_segment_of(s, #[trigger] segments[i]),
    ensures
        tokens_of(s, segments).len() == count_tokens(segments),
        diagnostics_of(s, segments).len() == count_errors(segments),
        forall|i: int|
            0 <= i < tokens_of(s, segments).len() ==> (#[trigger] tokens_of(
                s,
                segments,
            )[i]).token_type != TokenType::EndOfInput,
    decreases segments.len(),
{
    if segments.len() > 0 {
        let last = segments.last();
        assert(is_segment_of(s, segments[segments.len() - 1]));
        lemma_segment_is_no_end_marker(s, last.start);
        lemma_yield_of_segments(s, segments.drop_last());
    }
}

/// The number of tokens of a text, the end marker left out, is the number of
/// its token segments, and the number of its diagnostics is the number of its
/// error segments.
pub proof fn lemma_one_token_per_token_segment(s: Seq<char>)
    ensures
        tokens(s).len() == count_tokens(segments(s)) + 1,
        diagnostics(s).len() == count_errors(segments(s)),
{
    lemma_scan_from_is_a_chain(s, 0);
    lemma_yield_of_segments(s, segments(s));
}

/// The tokens of a text end with the end marker, and no token before it is
/// one.
pub proof fn lemma_end_marker_is_last_and_only(s: Seq<char>)
    ensures
        tokens(s).len() >= 1,
        tokens(s).last() == end_marker(s),
        tokens(s).last().token_type == TokenType::EndOfInput,
        forall|i: int|
            0 <= i < tokens(s).len() - 1 ==> (#[trigger] tokens(s)[i]).token_type
                != TokenType::EndOfInput,
{
    lemma_scan_from_is_a_chain(s, 0);
    lemma_yield_of_segments(s, segments(s));
    assert forall|i: int| 0 <= i < tokens(s).len() - 1 implies (#[trigger] tokens(
        s,
    )[i]).token_type != TokenType::EndOfInput by {
        assert(tokens(s)[i] == tokens_of(s, segments(s))[i]);
    }
}

/// An empty text has the end marker for its only token, and any other text has
/// a segment, so that it yields a token, a diagnostic, or was skipped.
pub proof fn lemma_only_empty_text_has_no_segment(s: Seq<char>)
    ensures
        s.len() == 0 ==> tokens(s) == seq![end_marker(s)] && diagnostics(s).len() == 0,
        s.len() > 0 ==> segments(s).len() > 0,
{
    lemma_scan_from_is_a_chain(s, 0);
    if s.len() == 0 {
        assert(tokens(s) =~= seq![end_marker(s)]);
    }
}

} // verus!
