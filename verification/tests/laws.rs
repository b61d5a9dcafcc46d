use rlox::scanner::Scanner;
use rlox::token::TokenType;

const SAMPLES: [&str; 12] = [
    "",
    "<=",
    "1\n2",
    "\"hi\"",
    "\"abc",
    "for forest",
    "// comment\n+",
    "var x = 1.5; // set\nprint \"x\" @",
    "1.2.3.",
    "a\n\"b\nc\" d # \"e",
    "\u{e9}\"\u{e9}\"//\u{e9}",
    "!===<>=/ /",
];

#[test]
fn scanning_twice_gives_the_same_result() {
    for source in SAMPLES {
        let first = Scanner::new(source.to_string()).scan();
        let second = Scanner::new(source.to_string()).scan();
        assert_eq!(first.tokens, second.tokens);
        assert_eq!(first.diagnostics, second.diagnostics);
    }
}

#[test]
fn end_marker_is_last_and_occurs_once() {
    for source in SAMPLES {
        let tokens = Scanner::new(source.to_string()).scan_tokens();
        let last = tokens.last().unwrap();
        assert_eq!(last.token_type, TokenType::EndOfInput);
        assert_eq!(last.lexeme, "");
        assert_eq!(last.literal, None);
        assert_eq!(
            tokens.iter().filter(|token| token.token_type == TokenType::EndOfInput).count(),
            1
        );
    }
}

#[test]
fn lexemes_occur_in_the_text_in_order_without_overlap() {
    for source in SAMPLES {
        let text: Vec<char> = source.chars().collect();
        let tokens = Scanner::new(source.to_string()).scan_tokens();
        let mut position = 0;
        for token in &tokens[..tokens.len() - 1] {
            let lexeme: Vec<char> = token.lexeme.chars().collect();
            assert!(!lexeme.is_empty());
            let found = (position..=text.len() - lexeme.len())
                .find(|&at| text[at..at + lexeme.len()] == lexeme[..]);
            assert!(found.is_some());
            position = found.unwrap() + lexeme.len();
        }
    }
}

#[test]
fn every_character_is_in_a_token_a_separator_or_an_error() {
    let source = "var x = 1.5; // set\nprint \"x\" @";
    let scanned = Scanner::new(source.to_string()).scan();
    let in_tokens: usize = scanned.tokens.iter().map(|token| token.lexeme.chars().count()).sum();
    let in_errors = scanned.diagnostics.len();
    let blanks = 6;
    let line_feeds = 1;
    let comment = "// set".chars().count();
    assert_eq!(in_tokens, 3 + 1 + 1 + 3 + 1 + 5 + 3);
    assert_eq!(in_errors, 1);
    assert_eq!(in_tokens + in_errors + blanks + line_feeds + comment, source.chars().count());
    assert_eq!(scanned.tokens.len() - 1, 7);
}

#[test]
fn lines_never_decrease_along_the_tokens() {
    for source in SAMPLES {
        let tokens = Scanner::new(source.to_string()).scan_tokens();
        let line_feeds = source.chars().filter(|c| *c == '\n').count();
        let mut line = 1;
        for token in &tokens {
            assert!(token.line >= line);
            line = token.line;
        }
        assert_eq!(tokens.last().unwrap().line, line_feeds + 1);
    }
}
