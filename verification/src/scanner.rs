//! The scanner: one pass over the source text, left to right, with at most two
//! characters of look-ahead and no backtracking.

use vstd::prelude::*;
use crate::chars::{
    char_is_digit, char_is_word, in_class, is_blank, is_digit, is_letter, lemma_line_at_range,
    lemma_line_at_unchanged, lemma_run_end_maximal, line_at, run_end, CharClass,
};
use crate::diagnostic::{diagnostic_views, Diagnostic, LexicalError};
use crate::grammar::{
    diagnostics, diagnostics_of, followed_by, lemma_end_marker_is_last_and_only,
    lemma_segment_at_bounds, lemma_segment_is_no_end_marker, operator_kind, punctuation_kind,
    scan_from, segment_at, segment_diagnostics, segment_tokens, segments, tokens, tokens_of,
    Segment,
};
use crate::keyword::lookup_keyword;
use crate::number::decimal_from;
use crate::text::{chars_of, text_of};
use crate::token::{token_views, Literal, Token, TokenType, TokenView};

verus! {

/// The character at position `index` of `s`, or NUL where `s` has none.
pub open spec fn char_at(s: Seq<char>, index: int) -> char {
    if 0 <= index < s.len() {
        s[index]
    } else {
        '\0'
    }
}

/// The last of `tokens` is an end marker and none before it is one.
pub open spec fn ends_with_only_end_marker(tokens: Seq<Token>) -> bool {
    &&& tokens.len() >= 1
    &&& tokens.last().token_type == TokenType::EndOfInput
    &&& forall|i: int|
        0 <= i < tokens.len() - 1 ==> (#[trigger] tokens[i]).token_type != TokenType::EndOfInput
}

/// None of `tokens` from index `from` on is an end marker.
pub open spec fn no_end_marker_from(tokens: Seq<Token>, from: int) -> bool {
    forall|i: int|
        from <= i < tokens.len() ==> (#[trigger] tokens[i]).token_type != TokenType::EndOfInput
}

/// A token without a decoded value.
pub open spec fn plain_token(lexeme: Seq<char>, kind: TokenType, line: nat) -> TokenView {
    TokenView { lexeme, literal: None, token_type: kind, line }
}

/// The state of one scan of one source text.
pub struct Scanner {
    /// Index of the next character to consume.
    current: usize,
    /// The 1-based line of `current`.
    line: usize,
    /// The characters of the source text, followed by one NUL, so that a
    /// look-ahead at the end of the text reads NUL.
    source: Vec<char>,
    /// Index at which the token being scanned starts.
    start: usize,
    /// The tokens scanned so far.
    tokens: Vec<Token>,
    /// The lexical errors found so far.
    diagnostics: Vec<Diagnostic>,
}

/// What a scan hands back: the tokens, and the lexical errors it came across.
#[derive(Clone, Debug, PartialEq, Eq)]
pub struct Scanned {
    /// The tokens of the text, the end marker last.
    pub tokens: Vec<Token>,
    /// The lexical errors of the text, in the order in which they occur.
    pub diagnostics: Vec<Diagnostic>,
}

impl Scanner {
    /// The source text that this scanner scans.
    pub closed spec fn source_text(&self) -> Seq<char> {
        self.source@.drop_last()
    }

    /// The index of the next character to consume.
    pub closed spec fn position(&self) -> nat {
        self.current as nat
    }

    /// The index at which the token being scanned starts.
    pub closed spec fn token_start(&self) -> nat {
        self.start as nat
    }

    /// The 1-based line the scanner is on.
    pub closed spec fn line_number(&self) -> nat {
        self.line as nat
    }

    /// The tokens collected so far.
    pub closed spec fn collected(&self) -> Seq<Token> {
        self.tokens@
    }

    /// The lexical errors recorded so far.
    pub closed spec fn reported(&self) -> Seq<Diagnostic> {
        self.diagnostics@
    }

    /// The buffer ends with its NUL and the positions lie inside the text, in
    /// order.
    spec fn intact(&self) -> bool {
        &&& 1 <= self.source@.len() <= usize::MAX
        &&& self.source@.last() == '\0'
        &&& self.start <= self.current <= self.source_text().len()
    }

    /// The line counter is the line of the current position.
    spec fn on_line(&self) -> bool {
        self.line == line_at(self.source_text(), self.current as int)
    }

    /// The scanner stands at the start of a segment, with the segments `done`
    /// behind it and their tokens and diagnostics collected.
    spec fn accounts_for(&self, done: Seq<Segment>) -> bool {
        &&& segments(self.source_text()) =~= done + scan_from(
            self.source_text(),
            self.current as int,
        )
        &&& token_views(self.tokens@) =~= tokens_of(self.source_text(), done)
        &&& diagnostic_views(self.diagnostics@) =~= diagnostics_of(self.source_text(), done)
    }

    /// The invariant of a scanner between two segments: what it has collected
    /// is what the segments behind it yield, and the segments ahead of it are
    /// those that remain of the text.
    pub closed spec fn well_formed(&self) -> bool {
        &&& self.intact()
        &&& self.on_line()
        &&& exists|done: Seq<Segment>| self.accounts_for(done)
    }

    /// The scanner stands on the first character of a segment.
    spec fn ready(&self) -> bool {
        &&& self.intact()
        &&& self.on_line()
        &&& self.start == self.current
        &&& self.current < self.source_text().len()
    }

    /// This scanner is `before` after one more segment: it has consumed the
    /// segment that starts at the current position of `before`, and collected
    /// the token or the diagnostic that the segment yields.
    spec fn scanned_segment(&self, before: Scanner) -> bool {
        let s = before.source_text();
        let segment = segment_at(s, before.current as int);
        &&& self.source == before.source
        &&& self.start == before.start
        &&& self.current == segment.end
        &&& self.line == line_at(s, segment.end)
        &&& token_views(self.tokens@) =~= token_views(before.tokens@) + segment_tokens(s, segment)
        &&& diagnostic_views(self.diagnostics@) =~= diagnostic_views(before.diagnostics@)
            + segment_diagnostics(s, segment)
    }

    /// Creates a scanner that stands at the start of `source`, on line 1, with
    /// nothing collected and nothing recorded.
    pub fn new(source: std::string::String) -> (scanner: Scanner)
        ensures
            scanner.well_formed(),
            scanner.source_text() == source@,
            scanner.position() == 0,
            scanner.token_start() == 0,
            scanner.line_number() == 1,
            scanner.collected().len() == 0,
            scanner.reported().len() == 0,
    {
        let mut chars = chars_of(source.as_str());
        chars.push('\0');
        let scanner = Scanner {
            current: 0,
            line: 1,
            source: chars,
            start: 0,
            tokens: Vec::new(),
            diagnostics: Vec::new(),
        };
        proof {
            assert(scanner.source_text() =~= source@);
            assert(scanner.source@.len() == scanner.source.len());
            assert(scanner.accounts_for(Seq::empty()));
        }
        scanner
    }

    /// Whether the whole text has been consumed.
    fn is_eof(&self) -> (eof: bool)
        requires
            self.intact(),
        ensures
            eof == (self.current == self.source_text().len()),
    {
        self.current >= self.source.len() - 1
    }

    /// Consumes one character.
    fn advance(&mut self)
        requires
            old(self).intact(),
            old(self).current < old(self).source_text().len(),
        ensures
            *final(self) == (Scanner { current: (old(self).current + 1) as usize, ..*old(self) }),
            final(self).intact(),
    {
        self.current += 1;
    }

    /// The character at position `index`, or NUL past the end of the text.
    fn get_char_on_position(&self, index: usize) -> (c: char)
        requires
            self.intact(),
        ensures
            c == char_at(self.source_text(), index as int),
    {
        if index < self.source.len() {
            self.source[index]
        } else {
            '\0'
        }
    }

    /// The next character to consume, or NUL at the end of the text.
    fn get_current_char(&self) -> (c: char)
        requires
            self.intact(),
        ensures
            c == char_at(self.source_text(), self.current as int),
    {
        self.get_char_on_position(self.current)
    }

    /// The character after the next one to consume, or NUL where the text has
    /// none.
    fn get_next_char(&self) -> (c: char)
        requires
            self.intact(),
        ensures
            c == char_at(self.source_text(), self.current + 1),
    {
        self.get_char_on_position(self.current + 1)
    }

    /// Whether `expected` follows the next character to consume. Nothing is
    /// consumed.
    fn match_next_char(&self, expected: char) -> (matched: bool)
        requires
            self.intact(),
        ensures
            matched == followed_by(self.source_text(), self.current as int, expected),
    {
        if self.current + 1 >= self.source.len() - 1 {
            return false;
        }
        self.get_next_char() == expected
    }

    /// The text of the token being scanned: the characters from `start` up to
    /// the current position.
    fn create_lexeme(&self) -> (lexeme: std::string::String)
        requires
            self.intact(),
        ensures
            lexeme@ == self.source_text().subrange(self.start as int, self.current as int),
    {
        let lexeme = text_of(&self.source, self.start, self.current);
        assert(self.source@.subrange(self.start as int, self.current as int)
            =~= self.source_text().subrange(self.start as int, self.current as int));
        lexeme
    }

    /// This scanner is `before` with its position at `end` and one token more:
    /// the tokens of `before`, then a token of kind `kind` without a decoded
    /// value, whose lexeme is the text from the start of the token up to `end`
    /// and whose line is the line of `before`. Nothing else has changed.
    spec fn emitted_token(&self, before: Scanner, end: int, kind: TokenType) -> bool {
        let token = plain_token(
            before.source_text().subrange(before.start as int, end),
            kind,
            before.line as nat,
        );
        &&& self.source == before.source
        &&& self.start == before.start
        &&& self.diagnostics == before.diagnostics
        &&& self.current == end
        &&& self.line == before.line
        &&& self.tokens@.len() == before.tokens@.len() + 1
        &&& self.tokens@.drop_last() =~= before.tokens@
        &&& self.tokens@.last()@ == token
        &&& token_views(self.tokens@) =~= token_views(before.tokens@).push(token)
    }

    /// Adds the token of kind `token_type` for the text from `start` up to the
    /// current position, on the current line and without a decoded value.
    fn create_token(&mut self, token_type: TokenType)
        requires
            old(self).intact(),
        ensures
            final(self).emitted_token(*old(self), old(self).current as int, token_type),
            final(self).intact(),
    {
        let lexeme = self.create_lexeme();
        let token = Token { lexeme, literal: None, token_type, line: self.line };
        self.tokens.push(token);
    }

    /// Records `error` at the current line.
    fn report(&mut self, error: LexicalError)
        ensures
            final(self).source == old(self).source,
            final(self).start == old(self).start,
            final(self).current == old(self).current,
            final(self).line == old(self).line,
            final(self).tokens == old(self).tokens,
            final(self).diagnostics@ == old(self).diagnostics@.push(
                Diagnostic { line: old(self).line, error },
            ),
    {
        self.diagnostics.push(Diagnostic { line: self.line, error });
    }

    /// Skips a blank.
    fn handle_whitespace(&mut self)
        requires
            old(self).ready(),
            is_blank(old(self).source_text()[old(self).current as int]),
        ensures
            final(self).scanned_segment(*old(self)),
    {
        self.advance();
    }

    /// Consumes a line feed and moves to the next line.
    fn handle_line_break(&mut self)
        requires
            old(self).intact(),
            old(self).on_line(),
            old(self).current < old(self).source_text().len(),
            old(self).source_text()[old(self).current as int] == '\n',
        ensures
            *final(self) == (Scanner {
                current: (old(self).current + 1) as usize,
                line: (old(self).line + 1) as usize,
                ..*old(self)
            }),
            final(self).intact(),
            final(self).on_line(),
    {
        proof {
            lemma_line_at_range(self.source_text(), self.current as int);
        }
        self.line += 1;
        self.advance();
    }

    /// Consumes a character that is a token by itself.
    fn handle_single_token(&mut self, token_type: TokenType)
        requires
            old(self).ready(),
            punctuation_kind(old(self).source_text()[old(self).current as int]) == Some(
                token_type,
            ),
        ensures
            final(self).scanned_segment(*old(self)),
    {
        self.advance();
        self.create_token(token_type);
    }

    /// Consumes an operator of one or two characters. Where `expected_char`
    /// follows the first character, both are consumed and the token is
    /// `token_if_match`: the longer form always wins. Where it does not, one
    /// character is consumed and the token is `default_token`.
    fn handle_multiple_token(
        &mut self,
        expected_char: char,
        token_if_match: TokenType,
        default_token: TokenType,
    )
        requires
            old(self).intact(),
            old(self).current < old(self).source_text().len(),
        ensures
            followed_by(old(self).source_text(), old(self).current as int, expected_char)
                ==> final(self).emitted_token(*old(self), old(self).current + 2, token_if_match),
            !followed_by(old(self).source_text(), old(self).current as int, expected_char)
                ==> final(self).emitted_token(*old(self), old(self).current + 1, default_token),
            final(self).intact(),
    {
        let mut token = default_token;
        if self.match_next_char(expected_char) {
            token = token_if_match;
            self.advance();
        }
        self.advance();
        self.create_token(token);
    }

    /// Reports `character` as one that starts no token and is no separator,
    /// at the current line, and consumes one character.
    fn handle_error(&mut self, character: char)
        requires
            old(self).intact(),
            old(self).current < old(self).source_text().len(),
        ensures
            final(self).source == old(self).source,
            final(self).start == old(self).start,
            final(self).tokens == old(self).tokens,
            final(self).current == old(self).current + 1,
            final(self).line == old(self).line,
            final(self).diagnostics@ == old(self).diagnostics@.push(
                Diagnostic {
                    line: old(self).line,
                    error: LexicalError::UnexpectedCharacter(character),
                },
            ),
    {
        self.report(LexicalError::UnexpectedCharacter(character));
        self.advance();
    }

    /// Consumes a slash: a `Slash` token, or, where a second slash follows, a
    /// comment, which reaches up to the line feed that ends the line and
    /// yields nothing.
    fn handle_slash_token_or_comment(&mut self)
        requires
            old(self).ready(),
            old(self).source_text()[old(self).current as int] == '/',
        ensures
            final(self).scanned_segment(*old(self)),
    {
        let ghost before = *self;
        let ghost s = self.source_text();
        if self.match_next_char('/') {
            self.advance();
            self.advance();
            while !self.is_eof() && self.get_current_char() != '\n'
                invariant
                    self.intact(),
                    *self == (Scanner { current: self.current, ..before }),
                    s == before.source_text(),
                    before.current + 2 <= self.current,
                    run_end(s, self.current as int, CharClass::CommentBody) == run_end(
                        s,
                        before.current + 2,
                        CharClass::CommentBody,
                    ),
                decreases s.len() - self.current,
            {
                self.advance();
            }
            proof {
                lemma_run_end_maximal(s, before.current + 2, CharClass::CommentBody);
                assert forall|k: int| before.current <= k < self.current implies #[trigger] s[k]
                    != '\n' by {
                    if k >= before.current + 2 {
                        assert(in_class(CharClass::CommentBody, s[k]));
                    }
                }
                lemma_line_at_unchanged(s, before.current as int, self.current as int);
            }
        } else {
            self.advance();
            self.create_token(TokenType::Slash);
        }
    }

    /// Consumes a word, a maximal run of letters, digits and underscores, and
    /// adds its token: the keyword it spells, or an identifier.
    fn handle_keyword(&mut self)
        requires
            old(self).ready(),
            is_letter(old(self).source_text()[old(self).current as int]),
        ensures
            final(self).scanned_segment(*old(self)),
    {
        let ghost before = *self;
        let ghost s = self.source_text();
        while char_is_word(self.get_current_char())
            invariant
                self.intact(),
                *self == (Scanner { current: self.current, ..before }),
                s == before.source_text(),
                before.current <= self.current,
                run_end(s, self.current as int, CharClass::Word) == run_end(
                    s,
                    before.current as int,
                    CharClass::Word,
                ),
            decreases s.len() - self.current,
        {
            self.advance();
        }
        proof {
            lemma_run_end_maximal(s, before.current as int, CharClass::Word);
            assert forall|k: int| before.current <= k < self.current implies #[trigger] s[k]
                != '\n' by {
                assert(in_class(CharClass::Word, s[k]));
            }
            lemma_line_at_unchanged(s, before.current as int, self.current as int);
            assert(self.source@.subrange(self.start as int, self.current as int) =~= s.subrange(
                self.start as int,
                self.current as int,
            ));
        }
        match lookup_keyword(&self.source, self.start, self.current) {
            Some(token) => self.create_token(token),
            None => self.create_token(TokenType::Identifier),
        }
    }

    /// Consumes a number literal and adds its token, with the number decoded
    /// from the lexeme.
    fn handle_number_literal(&mut self)
        requires
            old(self).ready(),
            is_digit(old(self).source_text()[old(self).current as int]),
        ensures
            final(self).scanned_segment(*old(self)),
    {
        let ghost before = *self;
        let ghost s = self.source_text();
        while char_is_digit(self.get_current_char())
            invariant
                self.intact(),
                *self == (Scanner { current: self.current, ..before }),
                s == before.source_text(),
                before.current <= self.current,
                run_end(s, self.current as int, CharClass::Digit) == run_end(
                    s,
                    before.current as int,
                    CharClass::Digit,
                ),
            decreases s.len() - self.current,
        {
            self.advance();
        }
        let ghost point = self.current as int;
        if self.get_current_char() == '.' && char_is_digit(self.get_next_char()) {
            self.advance();
            while char_is_digit(self.get_current_char())
                invariant
                    self.intact(),
                    *self == (Scanner { current: self.current, ..before }),
                    s == before.source_text(),
                    point + 1 <= self.current,
                    run_end(s, self.current as int, CharClass::Digit) == run_end(
                        s,
                        point + 1,
                        CharClass::Digit,
                    ),
                decreases s.len() - self.current,
            {
                self.advance();
            }
        }
        proof {
            lemma_run_end_maximal(s, before.current as int, CharClass::Digit);
            if point < s.len() {
                lemma_run_end_maximal(s, point + 1, CharClass::Digit);
            }
            assert forall|k: int| before.current <= k < self.current implies #[trigger] s[k]
                != '\n' by {
                if k != point {
                    assert(in_class(CharClass::Digit, s[k]));
                }
            }
            lemma_line_at_unchanged(s, before.current as int, self.current as int);
            assert(self.source@.subrange(self.start as int, self.current as int) =~= s.subrange(
                self.start as int,
                self.current as int,
            ));
        }
        let lexeme = self.create_lexeme();
        let number = decimal_from(&self.source, self.start, self.current);
        self.tokens.push(
            Token {
                lexeme,
                literal: Some(Literal { number: Some(number), string: None }),
                token_type: TokenType::Number,
                line: self.line,
            },
        );
    }

    /// Consumes a string literal, which may run over several lines. With its
    /// closing quote it becomes a token whose value is the text between the
    /// quotes; without one it reaches the end of the text and is reported.
    fn handle_string_literal(&mut self)
        requires
            old(self).ready(),
            old(self).source_text()[old(self).current as int] == '"',
        ensures
            final(self).scanned_segment(*old(self)),
    {
        let ghost before = *self;
        let ghost s = self.source_text();
        let line = self.line;
        self.advance();
        while !self.is_eof() && self.get_current_char() != '"'
            invariant
                self.intact(),
                self.on_line(),
                *self == (Scanner { current: self.current, line: self.line, ..before }),
                s == before.source_text(),
                before.current + 1 <= self.current,
                run_end(s, self.current as int, CharClass::StringBody) == run_end(
                    s,
                    before.current + 1,
                    CharClass::StringBody,
                ),
            decreases s.len() - self.current,
        {
            if self.get_current_char() == '\n' {
                self.handle_line_break();
            } else {
                self.advance();
            }
        }
        if self.is_eof() {
            self.report(LexicalError::UnterminatedString);
            return ;
        }
        self.advance();
        let lexeme = self.create_lexeme();
        let literal = text_of(&self.source, self.start + 1, self.current - 1);
        proof {
            assert(self.source@.subrange(self.start + 1, self.current - 1) =~= s.subrange(
                self.start as int,
                self.current as int,
            ).subrange(1, self.current - self.start - 1));
        }
        self.tokens.push(
            Token {
                lexeme,
                literal: Some(Literal { number: None, string: Some(literal) }),
                token_type: TokenType::String,
                line,
            },
        );
    }

    /// Scans the segment that starts with `current_char`, the next character
    /// to consume: the character decides which rule applies. At most one token
    /// is added, and never an end marker.
    fn scan_token(&mut self, current_char: char)
        requires
            old(self).ready(),
            current_char == old(self).source_text()[old(self).current as int],
        ensures
            final(self).scanned_segment(*old(self)),
            old(self).tokens@.len() <= final(self).tokens@.len() <= old(self).tokens@.len() + 1,
            no_end_marker_from(final(self).tokens@, old(self).tokens@.len() as int),
    {
        let ghost before = *self;
        proof {
            let s = self.source_text();
            let segment = segment_at(s, self.current as int);
            if operator_kind(current_char, false) is Some {
                lemma_line_at_unchanged(s, self.current as int, segment.end);
            }
        }
        match current_char {
            '(' => self.handle_single_token(TokenType::LeftParen),
            ')' => self.handle_single_token(TokenType::RightParen),
            '{' => self.handle_single_token(TokenType::LeftBrace),
            '}' => self.handle_single_token(TokenType::RightBrace),
            ',' => self.handle_single_token(TokenType::Comma),
            '.' => self.handle_single_token(TokenType::Dot),
            '-' => self.handle_single_token(TokenType::Minus),
            '+' => self.handle_single_token(TokenType::Plus),
            ';' => self.handle_single_token(TokenType::Semicolon),
            '*' => self.handle_single_token(TokenType::Star),
            '!' => self.handle_multiple_token('=', TokenType::BangEqual, TokenType::Bang),
            '=' => self.handle_multiple_token('=', TokenType::EqualEqual, TokenType::Equal),
            '<' => self.handle_multiple_token('=', TokenType::LessEqual, TokenType::Less),
            '>' => self.handle_multiple_token('=', TokenType::GreaterEqual, TokenType::Greater),
            '"' => self.handle_string_literal(),
            '0'..='9' => self.handle_number_literal(),
            'a'..='z' | 'A'..='Z' | '_' => self.handle_keyword(),
            '/' => self.handle_slash_token_or_comment(),
            ' ' | '\r' | '\t' => self.handle_whitespace(),
            '\n' => self.handle_line_break(),
            _ => self.handle_error(current_char),
        }
        proof {
            let s = before.source_text();
            let segment = segment_at(s, before.current as int);
            lemma_segment_is_no_end_marker(s, before.current as int);
            assert(token_views(self.tokens@).len() == self.tokens@.len());
            assert(token_views(before.tokens@).len() == before.tokens@.len());
            assert forall|i: int|
                before.tokens@.len() <= i < self.tokens@.len() implies (#[trigger] self.tokens@[i])
                .token_type != TokenType::EndOfInput by {
                assert(token_views(self.tokens@)[i] == self.tokens@[i]@);
                assert(token_views(self.tokens@)[i] == segment_tokens(s, segment)[i
                    - before.tokens@.len()]);
            }
        }
    }

    /// Scans the rest of the text and hands back its tokens together with the
    /// lexical errors found on the way. No error stops the scan.
    pub fn scan(self) -> (scanned: Scanned)
        requires
            self.well_formed(),
        ensures
            token_views(scanned.tokens@) == tokens(self.source_text()),
            diagnostic_views(scanned.diagnostics@) == diagnostics(self.source_text()),
            ends_with_only_end_marker(scanned.tokens@),
    {
        let ghost s = self.source_text();
        let ghost mut done: Seq<Segment> = choose|done: Seq<Segment>| self.accounts_for(done);
        let mut scanner = self;
        while !scanner.is_eof()
            invariant
                scanner.intact(),
                scanner.on_line(),
                scanner.source_text() == s,
                scanner.accounts_for(done),
            decreases s.len() - scanner.current,
        {
            let ghost before = scanner;
            scanner.start = scanner.current;
            let current_char = scanner.get_current_char();
            scanner.scan_token(current_char);
            proof {
                let segment = segment_at(s, before.current as int);
                lemma_segment_at_bounds(s, before.current as int);
                assert(done.push(segment).drop_last() =~= done);
                done = done.push(segment);
            }
        }
        scanner.start = scanner.current;
        scanner.create_token(TokenType::EndOfInput);
        proof {
            assert(done + scan_from(s, s.len() as int) =~= done);
            assert(s.subrange(s.len() as int, s.len() as int) =~= Seq::empty());
            assert(token_views(scanner.tokens@) =~= tokens(s));
            lemma_end_marker_is_last_and_only(s);
            assert forall|i: int|
                0 <= i < scanner.tokens@.len() implies (#[trigger] scanner.tokens@[i]).token_type
                == tokens(s)[i].token_type by {
                assert(token_views(scanner.tokens@)[i] == scanner.tokens@[i]@);
            }
        }
        Scanned { tokens: scanner.tokens, diagnostics: scanner.diagnostics }
    }

    /// Scans the rest of the text and hands back its tokens, the end marker
    /// last.
    pub fn scan_tokens(self) -> (scanned: Vec<Token>)
        requires
            self.well_formed(),
        ensures
            token_views(scanned@) == tokens(self.source_text()),
            ends_with_only_end_marker(scanned@),
    {
        self.scan().tokens
    }
}

/// Scanning is a function of the source text alone: two scans of the same
/// text hand back the same number of tokens, equal one by one in kind, lexeme,
/// value and line, and the same diagnostics.
pub proof fn lemma_scans_of_one_text_agree(source: Seq<char>, first: Scanned, second: Scanned)
    requires
        token_views(first.tokens@) == tokens(source),
        token_views(second.tokens@) == tokens(source),
        diagnostic_views(first.diagnostics@) == diagnostics(source),
        diagnostic_views(second.diagnostics@) == diagnostics(source),
    ensures
        first.tokens@.len() == second.tokens@.len(),
        forall|i: int|
            0 <= i < first.tokens@.len() ==> (#[trigger] first.tokens@[i])@ == second.tokens@[i]@,
        first.diagnostics@ == second.diagnostics@,
{
    assert(token_views(first.tokens@).len() == first.tokens@.len());
    assert(token_views(second.tokens@).len() == second.tokens@.len());
    assert forall|i: int| 0 <= i < first.tokens@.len() implies (#[trigger] first.tokens@[i])@
        == second.tokens@[i]@ by {
        assert(token_views(first.tokens@)[i] == first.tokens@[i]@);
        assert(token_views(second.tokens@)[i] == second.tokens@[i]@);
    }
    assert(diagnostic_views(first.diagnostics@).len() == first.diagnostics@.len());
    assert(diagnostic_views(second.diagnostics@).len() == second.diagnostics@.len());
    assert forall|i: int| 0 <= i < first.diagnostics@.len() implies first.diagnostics@[i]
        == second.diagnostics@[i] by {
        assert(diagnostic_views(first.diagnostics@)[i] == first.diagnostics@[i]@);
        assert(diagnostic_views(second.diagnostics@)[i] == second.diagnostics@[i]@);
    }
    assert(first.diagnostics@ =~= second.diagnostics@);
}

} // verus!
