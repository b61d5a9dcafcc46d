use rlox::diagnostic::{Diagnostic, LexicalError};
use rlox::scanner::{Scanned, Scanner};
use rlox::token::{Decimal, Literal, Token, TokenType};

fn scan(source: &str) -> Scanned {
    Scanner::new(source.to_string()).scan()
}

fn kinds(source: &str) -> Vec<TokenType> {
    Scanner::new(source.to_string())
        .scan_tokens()
        .iter()
        .map(|token| token.token_type)
        .collect()
}

fn lexemes(source: &str) -> Vec<String> {
    Scanner::new(source.to_string())
        .scan_tokens()
        .iter()
        .map(|token| token.lexeme.clone())
        .collect()
}

fn number_value(token: &Token) -> f64 {
    let decimal = token.literal.as_ref().unwrap().number.as_ref().unwrap();
    let mut text = String::new();
    for digit in &decimal.whole {
        text.push((b'0' + digit) as char);
    }
    if !decimal.fraction.is_empty() {
        text.push('.');
        for digit in &decimal.fraction {
            text.push((b'0' + digit) as char);
        }
    }
    text.parse::<f64>().unwrap()
}

#[test]
fn empty_source_yields_only_the_end_marker() {
    let scanned = scan("");
    assert_eq!(
        scanned.tokens,
        vec![Token {
            lexeme: String::new(),
            literal: None,
            token_type: TokenType::EndOfInput,
            line: 1,
        }]
    );
    assert!(scanned.diagnostics.is_empty());
}

#[test]
fn less_equal_is_one_token() {
    let tokens = Scanner::new("<=".to_string()).scan_tokens();
    assert_eq!(tokens.len(), 2);
    assert_eq!(
        tokens[0],
        Token {
            lexeme: "<=".to_string(),
            literal: None,
            token_type: TokenType::LessEqual,
            line: 1,
        }
    );
    assert_eq!(tokens[1].token_type, TokenType::EndOfInput);
}

#[test]
fn two_character_operators_win_over_one_character_ones() {
    assert_eq!(
        kinds("! != = == < <= > >="),
        vec![
            TokenType::Bang,
            TokenType::BangEqual,
            TokenType::Equal,
            TokenType::EqualEqual,
            TokenType::Less,
            TokenType::LessEqual,
            TokenType::Greater,
            TokenType::GreaterEqual,
            TokenType::EndOfInput,
        ]
    );
}

#[test]
fn operator_at_end_of_input_is_the_short_form() {
    assert_eq!(kinds("<"), vec![TokenType::Less, TokenType::EndOfInput]);
    assert_eq!(kinds("!"), vec![TokenType::Bang, TokenType::EndOfInput]);
}

#[test]
fn three_equals_are_a_long_and_a_short_operator() {
    assert_eq!(
        kinds("==="),
        vec![TokenType::EqualEqual, TokenType::Equal, TokenType::EndOfInput]
    );
    assert_eq!(lexemes("==="), vec!["==", "=", ""]);
}

#[test]
fn punctuation_is_one_token_each() {
    assert_eq!(
        kinds("(){},.-+;*"),
        vec![
            TokenType::LeftParen,
            TokenType::RightParen,
            TokenType::LeftBrace,
            TokenType::RightBrace,
            TokenType::Comma,
            TokenType::Dot,
            TokenType::Minus,
            TokenType::Plus,
            TokenType::Semicolon,
            TokenType::Star,
            TokenType::EndOfInput,
        ]
    );
    assert_eq!(
        lexemes("(){},.-+;*"),
        vec!["(", ")", "{", "}", ",", ".", "-", "+", ";", "*", ""]
    );
}

#[test]
fn numbers_carry_their_line() {
    let tokens = Scanner::new("1\n2".to_string()).scan_tokens();
    assert_eq!(tokens.len(), 3);
    assert_eq!(tokens[0].token_type, TokenType::Number);
    assert_eq!(tokens[0].lexeme, "1");
    assert_eq!(tokens[0].line, 1);
    assert_eq!(tokens[1].token_type, TokenType::Number);
    assert_eq!(tokens[1].lexeme, "2");
    assert_eq!(tokens[1].line, 2);
    assert_eq!(tokens[2].token_type, TokenType::EndOfInput);
    assert_eq!(tokens[2].line, 2);
}

#[test]
fn end_marker_stands_on_the_line_after_a_final_line_feed() {
    let tokens = Scanner::new("a\n\n".to_string()).scan_tokens();
    assert_eq!(tokens.len(), 2);
    assert_eq!(tokens[1].line, 3);
}

#[test]
fn string_literal_holds_the_text_between_the_quotes() {
    let scanned = scan("\"hi\"");
    assert_eq!(
        scanned.tokens,
        vec![
            Token {
                lexeme: "\"hi\"".to_string(),
                literal: Some(Literal { number: None, string: Some("hi".to_string()) }),
                token_type: TokenType::String,
                line: 1,
            },
            Token {
                lexeme: String::new(),
                literal: None,
                token_type: TokenType::EndOfInput,
                line: 1,
            },
        ]
    );
    assert!(scanned.diagnostics.is_empty());
}

#[test]
fn empty_string_literal_has_an_empty_value() {
    let tokens = Scanner::new("\"\"".to_string()).scan_tokens();
    assert_eq!(tokens.len(), 2);
    assert_eq!(tokens[0].token_type, TokenType::String);
    assert_eq!(tokens[0].lexeme, "\"\"");
    assert_eq!(
        tokens[0].literal,
        Some(Literal { number: None, string: Some(String::new()) })
    );
}

#[test]
fn string_literal_may_run_over_lines() {
    let scanned = scan("\"a\nb\" x");
    assert_eq!(scanned.tokens.len(), 3);
    assert_eq!(scanned.tokens[0].token_type, TokenType::String);
    assert_eq!(scanned.tokens[0].line, 1);
    assert_eq!(
        scanned.tokens[0].literal,
        Some(Literal { number: None, string: Some("a\nb".to_string()) })
    );
    assert_eq!(scanned.tokens[1].token_type, TokenType::Identifier);
    assert_eq!(scanned.tokens[1].line, 2);
    assert_eq!(scanned.tokens[2].line, 2);
    assert!(scanned.diagnostics.is_empty());
}

#[test]
fn string_literal_may_hold_characters_beyond_ascii() {
    let tokens = Scanner::new("\"h\u{e9}llo \u{1F600}\"+".to_string()).scan_tokens();
    assert_eq!(tokens.len(), 3);
    assert_eq!(
        tokens[0].literal,
        Some(Literal { number: None, string: Some("h\u{e9}llo \u{1F600}".to_string()) })
    );
    assert_eq!(tokens[1].token_type, TokenType::Plus);
    assert_eq!(tokens[1].lexeme, "+");
}

#[test]
fn unterminated_string_is_reported_and_yields_no_token() {
    let scanned = scan("\"abc");
    assert_eq!(
        scanned.tokens.iter().filter(|token| token.token_type == TokenType::String).count(),
        0
    );
    assert_eq!(scanned.tokens.len(), 1);
    assert_eq!(scanned.tokens[0].token_type, TokenType::EndOfInput);
    assert_eq!(
        scanned.diagnostics,
        vec![Diagnostic { line: 1, error: LexicalError::UnterminatedString }]
    );
}

#[test]
fn unterminated_string_is_reported_at_the_line_of_the_end() {
    let scanned = scan("+ \"abc\ndef\n");
    assert_eq!(
        scanned.tokens.iter().map(|token| token.token_type).collect::<Vec<_>>(),
        vec![TokenType::Plus, TokenType::EndOfInput]
    );
    assert_eq!(
        scanned.diagnostics,
        vec![Diagnostic { line: 3, error: LexicalError::UnterminatedString }]
    );
    assert_eq!(scanned.tokens[1].line, 3);
}

#[test]
fn keyword_and_identifier_are_told_apart() {
    let tokens = Scanner::new("for".to_string()).scan_tokens();
    assert_eq!(tokens.len(), 2);
    assert_eq!(tokens[0].token_type, TokenType::For);
    assert_eq!(tokens[0].lexeme, "for");
    assert_eq!(tokens[0].literal, None);

    let tokens = Scanner::new("forest".to_string()).scan_tokens();
    assert_eq!(tokens.len(), 2);
    assert_eq!(tokens[0].token_type, TokenType::Identifier);
    assert_eq!(tokens[0].lexeme, "forest");
    assert_eq!(tokens[0].literal, None);
}

#[test]
fn every_reserved_word_has_its_kind() {
    assert_eq!(
        kinds("and class else false for fun if nil or print return super this true var while"),
        vec![
            TokenType::And,
            TokenType::Class,
            TokenType::Else,
            TokenType::False,
            TokenType::For,
            TokenType::Fun,
            TokenType::If,
            TokenType::Nil,
            TokenType::Or,
            TokenType::Print,
            TokenType::Return,
            TokenType::Super,
            TokenType::This,
            TokenType::True,
            TokenType::Var,
            TokenType::While,
            TokenType::EndOfInput,
        ]
    );
}

#[test]
fn reserved_words_are_case_sensitive_and_exact() {
    assert_eq!(
        kinds("For WHILE nil_ _if an andy"),
        vec![
            TokenType::Identifier,
            TokenType::Identifier,
            TokenType::Identifier,
            TokenType::Identifier,
            TokenType::Identifier,
            TokenType::Identifier,
            TokenType::EndOfInput,
        ]
    );
}

#[test]
fn identifiers_take_letters_digits_and_underscores() {
    assert_eq!(lexemes("_a1_b2 x9"), vec!["_a1_b2", "x9", ""]);
    assert_eq!(
        kinds("_a1_b2 x9"),
        vec![TokenType::Identifier, TokenType::Identifier, TokenType::EndOfInput]
    );
}

#[test]
fn comment_yields_no_token() {
    let scanned = scan("// comment\n+");
    assert_eq!(scanned.tokens.len(), 2);
    assert_eq!(
        scanned.tokens[0],
        Token { lexeme: "+".to_string(), literal: None, token_type: TokenType::Plus, line: 2 }
    );
    assert_eq!(scanned.tokens[1].token_type, TokenType::EndOfInput);
    assert!(scanned.diagnostics.is_empty());
}

#[test]
fn comment_may_end_with_the_text() {
    assert_eq!(kinds("1 // one"), vec![TokenType::Number, TokenType::EndOfInput]);
    assert_eq!(kinds("//"), vec![TokenType::EndOfInput]);
}

#[test]
fn comment_may_hold_anything_but_a_line_feed() {
    let scanned = scan("// \"open @ \u{e9}\n;");
    assert_eq!(lexemes("// \"open @ \u{e9}\n;"), vec![";", ""]);
    assert!(scanned.diagnostics.is_empty());
}

#[test]
fn single_slash_is_a_token() {
    assert_eq!(
        kinds("a / b"),
        vec![
            TokenType::Identifier,
            TokenType::Slash,
            TokenType::Identifier,
            TokenType::EndOfInput
        ]
    );
    assert_eq!(kinds("/"), vec![TokenType::Slash, TokenType::EndOfInput]);
}

#[test]
fn number_with_fraction_is_one_token() {
    let tokens = Scanner::new("12.50".to_string()).scan_tokens();
    assert_eq!(tokens.len(), 2);
    assert_eq!(
        tokens[0],
        Token {
            lexeme: "12.50".to_string(),
            literal: Some(Literal {
                number: Some(Decimal { whole: vec![1, 2], fraction: vec![5, 0] }),
                string: None,
            }),
            token_type: TokenType::Number,
            line: 1,
        }
    );
    assert_eq!(number_value(&tokens[0]), 12.5);
}

#[test]
fn whole_number_has_no_fraction_digits() {
    let tokens = Scanner::new("007".to_string()).scan_tokens();
    assert_eq!(
        tokens[0].literal,
        Some(Literal {
            number: Some(Decimal { whole: vec![0, 0, 7], fraction: vec![] }),
            string: None,
        })
    );
    assert_eq!(number_value(&tokens[0]), 7.0);
    assert_eq!(number_value(&tokens[0]), "007".parse::<f64>().unwrap());
}

#[test]
fn trailing_point_is_not_part_of_the_number() {
    assert_eq!(
        kinds("1."),
        vec![TokenType::Number, TokenType::Dot, TokenType::EndOfInput]
    );
    assert_eq!(lexemes("1."), vec!["1", ".", ""]);
    assert_eq!(
        kinds("1.foo"),
        vec![
            TokenType::Number,
            TokenType::Dot,
            TokenType::Identifier,
            TokenType::EndOfInput
        ]
    );
}

#[test]
fn number_takes_one_point_only() {
    assert_eq!(lexemes("1.2.3"), vec!["1.2", ".", "3", ""]);
    assert_eq!(
        kinds("1.2.3"),
        vec![
            TokenType::Number,
            TokenType::Dot,
            TokenType::Number,
            TokenType::EndOfInput
        ]
    );
}

#[test]
fn leading_point_is_a_dot() {
    assert_eq!(
        kinds(".5"),
        vec![TokenType::Dot, TokenType::Number, TokenType::EndOfInput]
    );
}

#[test]
fn digits_end_a_number_where_letters_start() {
    assert_eq!(lexemes("12ab"), vec!["12", "ab", ""]);
    assert_eq!(
        kinds("12ab"),
        vec![TokenType::Number, TokenType::Identifier, TokenType::EndOfInput]
    );
}

#[test]
fn unexpected_character_is_reported_and_skipped() {
    let scanned = scan("a @ b");
    assert_eq!(
        scanned.tokens.iter().map(|token| token.lexeme.as_str()).collect::<Vec<_>>(),
        vec!["a", "b", ""]
    );
    assert_eq!(
        scanned.diagnostics,
        vec![Diagnostic { line: 1, error: LexicalError::UnexpectedCharacter('@') }]
    );
}

#[test]
fn each_unexpected_character_is_reported_once_with_its_line() {
    let scanned = scan("#\n\n$ ^");
    assert_eq!(scanned.tokens.len(), 1);
    assert_eq!(
        scanned.diagnostics,
        vec![
            Diagnostic { line: 1, error: LexicalError::UnexpectedCharacter('#') },
            Diagnostic { line: 3, error: LexicalError::UnexpectedCharacter('$') },
            Diagnostic { line: 3, error: LexicalError::UnexpectedCharacter('^') },
        ]
    );
}

#[test]
fn character_beyond_ascii_outside_a_string_is_unexpected() {
    let scanned = scan("\u{e9}x");
    assert_eq!(
        scanned.diagnostics,
        vec![Diagnostic { line: 1, error: LexicalError::UnexpectedCharacter('\u{e9}') }]
    );
    assert_eq!(
        scanned.tokens.iter().map(|token| token.lexeme.as_str()).collect::<Vec<_>>(),
        vec!["x", ""]
    );
}

#[test]
fn nul_in_the_text_is_an_unexpected_character() {
    let scanned = scan("<\0=");
    assert_eq!(
        scanned.tokens.iter().map(|token| token.token_type).collect::<Vec<_>>(),
        vec![TokenType::Less, TokenType::Equal, TokenType::EndOfInput]
    );
    assert_eq!(
        scanned.diagnostics,
        vec![Diagnostic { line: 1, error: LexicalError::UnexpectedCharacter('\0') }]
    );
}

#[test]
fn blanks_and_line_feeds_yield_nothing() {
    let scanned = scan(" \t\r\n \n");
    assert_eq!(scanned.tokens.len(), 1);
    assert_eq!(scanned.tokens[0].token_type, TokenType::EndOfInput);
    assert_eq!(scanned.tokens[0].line, 3);
    assert!(scanned.diagnostics.is_empty());
}

#[test]
fn scan_tokens_hands_back_the_tokens_of_scan() {
    let source = "var x = 1.5; // set\nprint \"x\" @";
    assert_eq!(
        Scanner::new(source.to_string()).scan_tokens(),
        Scanner::new(source.to_string()).scan().tokens
    );
}

#[test]
fn small_program_scans_in_order() {
    let scanned = scan("var answer = 42;\nif (answer >= 4.2) { print \"yes\"; }");
    assert_eq!(
        scanned.tokens.iter().map(|token| token.token_type).collect::<Vec<_>>(),
        vec![
            TokenType::Var,
            TokenType::Identifier,
            TokenType::Equal,
            TokenType::Number,
            TokenType::Semicolon,
            TokenType::If,
            TokenType::LeftParen,
            TokenType::Identifier,
            TokenType::GreaterEqual,
            TokenType::Number,
            TokenType::RightParen,
            TokenType::LeftBrace,
            TokenType::Print,
            TokenType::String,
            TokenType::Semicolon,
            TokenType::RightBrace,
            TokenType::EndOfInput,
        ]
    );
    assert_eq!(
        scanned.tokens.iter().map(|token| token.line).collect::<Vec<_>>(),
        vec![1, 1, 1, 1, 1, 2, 2, 2, 2, 2, 2, 2, 2, 2, 2, 2, 2]
    );
    assert_eq!(number_value(&scanned.tokens[3]), 42.0);
    assert_eq!(number_value(&scanned.tokens[9]), 4.2);
    assert!(scanned.diagnostics.is_empty());
}
