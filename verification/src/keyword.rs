//! The table of reserved words.

use vstd::prelude::*;
use crate::text::spells;
use crate::token::TokenType;

verus! {

/// The kind of the reserved word that `text` spells, if it spells one. The
/// match is exact and case-sensitive.
pub open spec fn keyword_kind(text: Seq<char>) -> Option<TokenType> {
    if text == "and"@ {
        Some(TokenType::And)
    } else if text == "class"@ {
        Some(TokenType::Class)
    } else if text == "else"@ {
        Some(TokenType::Else)
    } else if text == "false"@ {
        Some(TokenType::False)
    } else if text == "for"@ {
        Some(TokenType::For)
    } else if text == "fun"@ {
        Some(TokenType::Fun)
    } else if text == "if"@ {
        Some(TokenType::If)
    } else if text == "nil"@ {
        Some(TokenType::Nil)
    } else if text == "or"@ {
        Some(TokenType::Or)
    } else if text == "print"@ {
        Some(TokenType::Print)
    } else if text == "return"@ {
        Some(TokenType::Return)
    } else if text == "super"@ {
        Some(TokenType::Super)
    } else if text == "this"@ {
        Some(TokenType::This)
    } else if text == "true"@ {
        Some(TokenType::True)
    } else if text == "var"@ {
        Some(TokenType::Var)
    } else if text == "while"@ {
        Some(TokenType::While)
    } else {
        None
    }
}

/// The kind of token that a word becomes: its keyword kind if it is reserved,
/// `Identifier` otherwise.
pub open spec fn word_kind(text: Seq<char>) -> TokenType {
    match keyword_kind(text) {
        Some(kind) => kind,
        None => TokenType::Identifier,
    }
}

/// A word never becomes anything but a keyword or an identifier.
pub proof fn lemma_word_kind_is_keyword_or_identifier(text: Seq<char>)
    ensures
        word_kind(text).is_keyword() || word_kind(text) is Identifier,
        keyword_kind(text) is Some ==> keyword_kind(text)->0.is_keyword(),
{
}

/// Looks up the word that `chars` holds from `from` up to `to` in the table of
/// reserved words.
pub fn lookup_keyword(chars: &Vec<char>, from: usize, to: usize) -> (kind: Option<TokenType>)
    requires
        from <= to <= chars.len(),
    ensures
        kind == keyword_kind(chars@.subrange(from as int, to as int)),
{
    if spells(chars, from, to, "and") {
        Some(TokenType::And)
    } else if spells(chars, from, to, "class") {
        Some(TokenType::Class)
    } else if spells(chars, from, to, "else") {
        Some(TokenType::Else)
    } else if spells(chars, from, to, "false") {
        Some(TokenType::False)
    } else if spells(chars, from, to, "for") {
        Some(TokenType::For)
    } else if spells(chars, from, to, "fun") {
        Some(TokenType::Fun)
    } else if spells(chars, from, to, "if") {
        Some(TokenType::If)
    } else if spells(chars, from, to, "nil") {
        Some(TokenType::Nil)
    } else if spells(chars, from, to, "or") {
        Some(TokenType::Or)
    } else if spells(chars, from, to, "print") {
        Some(TokenType::Print)
    } else if spells(chars, from, to, "return") {
        Some(TokenType::Return)
    } else if spells(chars, from, to, "super") {
        Some(TokenType::Super)
    } else if spells(chars, from, to, "this") {
        Some(TokenType::This)
    } else if spells(chars, from, to, "true") {
        Some(TokenType::True)
    } else if spells(chars, from, to, "var") {
        Some(TokenType::Var)
    } else if spells(chars, from, to, "while") {
        Some(TokenType::While)
    } else {
        None
    }
}

} // verus!
