//! Tokens: what a lexeme of the source text becomes.

use vstd::prelude::*;

verus! {

/// The closed set of token kinds the scanner can emit.
#[derive(Clone, Copy, Debug, PartialEq, Eq, Structural)]
pub enum TokenType {
    Comma,
    Dot,
    LeftBrace,
    LeftParen,
    Minus,
    Plus,
    RightBrace,
    RightParen,
    Semicolon,
    Slash,
    Star,
    Bang,
    BangEqual,
    Equal,
    EqualEqual,
    Greater,
    GreaterEqual,
    Less,
    LessEqual,
    Identifier,
    Number,
    String,
    And,
    Class,
    Else,
    False,
    For,
    Fun,
    If,
    Nil,
    Or,
    Print,
    Return,
    Super,
    This,
    True,
    Var,
    While,
    EndOfInput,
}

impl TokenType {
    /// Whether this kind is one of the sixteen reserved words.
    pub open spec fn is_keyword(self) -> bool {
        self is And || self is Class || self is Else || self is False || self is For
            || self is Fun || self is If || self is Nil || self is Or || self is Print
            || self is Return || self is Super || self is This || self is True || self is Var
            || self is While
    }
}

/// The value of a number literal, digit by digit: `whole` holds the digits
/// before the decimal point, most significant first, and `fraction` those after
/// it. Both hold digit values, from 0 to 9. The literal `12.50` has the whole
/// digits 1, 2 and the fraction digits 5, 0.
#[derive(Clone, Debug, PartialEq, Eq)]
pub struct Decimal {
    pub whole: Vec<u8>,
    pub fraction: Vec<u8>,
}

/// A [`Decimal`] as the model states it.
pub struct DecimalView {
    pub whole: Seq<u8>,
    pub fraction: Seq<u8>,
}

impl View for Decimal {
    type V = DecimalView;

    open spec fn view(&self) -> DecimalView {
        DecimalView { whole: self.whole@, fraction: self.fraction@ }
    }
}

impl DecimalView {
    /// Every entry is a digit value and there is at least one whole digit.
    pub open spec fn well_formed(self) -> bool {
        &&& self.whole.len() >= 1
        &&& forall|i: int| 0 <= i < self.whole.len() ==> #[trigger] self.whole[i] <= 9
        &&& forall|i: int| 0 <= i < self.fraction.len() ==> #[trigger] self.fraction[i] <= 9
    }
}

/// The decoded value of a literal token: a number for a `Number` token, the
/// characters between the quotes for a `String` token.
#[derive(Clone, Debug, PartialEq, Eq)]
pub struct Literal {
    pub number: Option<Decimal>,
    pub string: Option<std::string::String>,
}

/// A [`Literal`] as the model states it.
pub struct LiteralView {
    pub number: Option<DecimalView>,
    pub string: Option<Seq<char>>,
}

impl View for Literal {
    type V = LiteralView;

    open spec fn view(&self) -> LiteralView {
        LiteralView {
            number: match self.number {
                Some(number) => Some(number@),
                None => None,
            },
            string: match self.string {
                Some(string) => Some(string@),
                None => None,
            },
        }
    }
}

/// One token of the source text.
#[derive(Clone, Debug, PartialEq, Eq)]
pub struct Token {
    /// The exact piece of source text that produced the token; empty for the
    /// end marker.
    pub lexeme: std::string::String,
    /// The decoded value, present for `String` and `Number` tokens only.
    pub literal: Option<Literal>,
    /// The kind of the token.
    pub token_type: TokenType,
    /// The 1-based line on which the token begins.
    pub line: usize,
}

/// A [`Token`] as the model states it: text as sequences of characters and an
/// unbounded line number.
pub struct TokenView {
    pub lexeme: Seq<char>,
    pub literal: Option<LiteralView>,
    pub token_type: TokenType,
    pub line: nat,
}

impl View for Token {
    type V = TokenView;

    open spec fn view(&self) -> TokenView {
        TokenView {
            lexeme: self.lexeme@,
            literal: match self.literal {
                Some(literal) => Some(literal@),
                None => None,
            },
            token_type: self.token_type,
            line: self.line as nat,
        }
    }
}

/// The views of a sequence of tokens, in order.
pub open spec fn token_views(tokens: Seq<Token>) -> Seq<TokenView> {
    Seq::new(tokens.len(), |i: int| tokens[i]@)
}

} // verus!
