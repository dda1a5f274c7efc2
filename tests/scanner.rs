use loxrs::lexer_spec::{LexError, LexErrorKind};
use loxrs::payload::ScanResult;
use loxrs::scanner::Scanner;
use loxrs::token::{Token, TokenType};

fn scan(src: &str) -> (Vec<Token>, Vec<LexError>) {
    Scanner::new(String::from(src)).scan_tokens()
}

fn kinds(src: &str) -> Vec<TokenType> {
    scan(src).0.into_iter().map(|t| t.tt).collect()
}

fn num(text: &str) -> TokenType {
    TokenType::Number(String::from(text))
}

#[test]
fn one_plus_two() {
    let (tokens, errors) = scan("1 + 2");
    assert!(errors.is_empty());
    assert_eq!(
        tokens.iter().map(|t| t.tt.clone()).collect::<Vec<_>>(),
        vec![num("1"), TokenType::Plus, num("2"), TokenType::End]
    );
    assert!(tokens.iter().all(|t| t.line == 1));
    assert_eq!(tokens[3].lexeme, "");
}

#[test]
fn empty_input_is_only_end() {
    let (tokens, errors) = scan("");
    assert!(errors.is_empty());
    assert_eq!(tokens, vec![Token::new(TokenType::End, String::new(), 1)]);
}

#[test]
fn maximal_munch_identifier() {
    assert_eq!(kinds("classroom"), vec![TokenType::Identifier, TokenType::End]);
    assert_eq!(kinds("class"), vec![TokenType::Class, TokenType::End]);
    assert_eq!(scan("classroom").0[0].lexeme, "classroom");
}

#[test]
fn all_keywords() {
    let src = "and class else false for fun if nil or print return super this true var while";
    assert_eq!(
        kinds(src),
        vec![
            TokenType::And,
            TokenType::Class,
            TokenType::Else,
            TokenType::False,
            TokenType::For,
            TokenType::Fun,
            TokenType::If,
            TokenType::Nil,
            TokenType::Or,
            TokenType::Print,
            TokenType::Return,
            TokenType::Super,
            TokenType::This,
            TokenType::True,
            TokenType::Var,
            TokenType::While,
            TokenType::End,
        ]
    );
    assert_eq!(kinds("_snake_case9 an"), vec![TokenType::Identifier, TokenType::Identifier, TokenType::End]);
}

#[test]
fn two_character_operators() {
    assert_eq!(kinds("!="), vec![TokenType::BangEqual, TokenType::End]);
    assert_eq!(kinds("!a"), vec![TokenType::Bang, TokenType::Identifier, TokenType::End]);
    assert_eq!(kinds("!("), vec![TokenType::Bang, TokenType::LeftParen, TokenType::End]);
    assert_eq!(
        kinds("= == > >= < <= !"),
        vec![
            TokenType::Equal,
            TokenType::EqualEqual,
            TokenType::Greater,
            TokenType::GreaterEqual,
            TokenType::Less,
            TokenType::LessEqual,
            TokenType::Bang,
            TokenType::End,
        ]
    );
    assert_eq!(scan("a>=b").0[1].lexeme, ">=");
}

#[test]
fn single_character_punctuation() {
    assert_eq!(
        kinds("(){},.-+;*/"),
        vec![
            TokenType::LeftParen,
            TokenType::RightParen,
            TokenType::LeftBrace,
            TokenType::RightBrace,
            TokenType::Comma,
            TokenType::Dot,
            TokenType::Minus,
            TokenType::Plus,
            TokenType::Semicolon,
            TokenType::Star,
            TokenType::Slash,
            TokenType::End,
        ]
    );
}

#[test]
fn number_boundaries() {
    assert_eq!(kinds("123."), vec![num("123"), TokenType::Dot, TokenType::End]);
    assert_eq!(kinds("123.45"), vec![num("123.45"), TokenType::End]);
    assert_eq!(kinds("1.2.3"), vec![num("1.2"), TokenType::Dot, num("3"), TokenType::End]);
    assert_eq!(kinds("7.x"), vec![num("7"), TokenType::Dot, TokenType::Identifier, TokenType::End]);
    assert_eq!(scan("123.45").0[0].lexeme, "123.45");
}

#[test]
fn string_literal_payload_and_lexeme() {
    let (tokens, errors) = scan("\"hi there\" x");
    assert!(errors.is_empty());
    assert_eq!(tokens[0].tt, TokenType::String(String::from("hi there")));
    assert_eq!(tokens[0].lexeme, "\"hi there\"");
    assert_eq!(tokens[1].tt, TokenType::Identifier);
    assert_eq!(tokens[2].tt, TokenType::End);
}

#[test]
fn unterminated_string() {
    let (tokens, errors) = scan("\"abc");
    assert_eq!(tokens, vec![Token::new(TokenType::End, String::new(), 1)]);
    assert_eq!(errors, vec![LexError { kind: LexErrorKind::UnterminatedString, line: 1 }]);
}

#[test]
fn unterminated_string_reports_last_line() {
    let (tokens, errors) = scan("+ \"a\nb\nc");
    assert_eq!(errors, vec![LexError { kind: LexErrorKind::UnterminatedString, line: 3 }]);
    assert_eq!(tokens.len(), 2);
    assert_eq!(tokens[1], Token::new(TokenType::End, String::new(), 3));
}

#[test]
fn unrecognized_characters_do_not_stop_the_scan() {
    let (tokens, errors) = scan("@1\n#");
    assert_eq!(
        errors,
        vec![
            LexError { kind: LexErrorKind::UnrecognizedCharacter('@'), line: 1 },
            LexError { kind: LexErrorKind::UnrecognizedCharacter('#'), line: 2 },
        ]
    );
    assert_eq!(tokens, vec![Token::new(num("1"), String::from("1"), 1), Token::new(TokenType::End, String::new(), 2)]);
}

#[test]
fn end_marker_appears_once_and_last() {
    for src in ["", "@@@", "\"", "// only a comment", "a b c", "1..2", "\n\n\n"] {
        let (tokens, _) = scan(src);
        assert_eq!(tokens.last().map(|t| t.tt.clone()), Some(TokenType::End));
        assert_eq!(tokens.iter().filter(|t| t.tt == TokenType::End).count(), 1);
    }
}

#[test]
fn lexemes_are_source_slices() {
    let src = "var x = \"s\" >= 10.5; // note\nprint x;";
    let (tokens, _) = scan(src);
    let mut from = 0;
    for t in &tokens[..tokens.len() - 1] {
        let at = src[from..].find(t.lexeme.as_str()).map(|k| k + from);
        assert!(at.is_some(), "lexeme {:?} not found in order", t.lexeme);
        from = at.unwrap() + t.lexeme.len();
    }
    let lexemes: Vec<&str> = tokens.iter().map(|t| t.lexeme.as_str()).collect();
    assert_eq!(lexemes, vec!["var", "x", "=", "\"s\"", ">=", "10.5", ";", "print", "x", ";", ""]);
}

#[test]
fn lines_count_every_newline() {
    let (tokens, _) = scan("a\n\"x\ny\"\n\nb");
    let lines: Vec<usize> = tokens.iter().map(|t| t.line).collect();
    assert_eq!(lines, vec![1, 2, 5, 5]);
    assert_eq!(tokens[1].tt, TokenType::String(String::from("x\ny")));
}

#[test]
fn comments_and_whitespace_are_skipped() {
    let (tokens, errors) = scan("// c @ #\n \t\r/ +");
    assert!(errors.is_empty());
    assert_eq!(
        tokens,
        vec![
            Token::new(TokenType::Slash, String::from("/"), 2),
            Token::new(TokenType::Plus, String::from("+"), 2),
            Token::new(TokenType::End, String::new(), 2),
        ]
    );
}

#[test]
fn scan_result_counts() {
    let mut r = ScanResult::new();
    assert_eq!((r.read(), r.lines(), r.token_to_add()), (0, 0, None));
    r.inc_read();
    r.inc_read_by_x(4);
    r.inc_lines();
    r.inc_lines_by_x(2);
    r.set_token(TokenType::Number(String::from("9")));
    assert_eq!(r.read(), 5);
    assert_eq!(r.lines(), 3);
    assert_eq!(r.token_to_add(), Some(TokenType::Number(String::from("9"))));
}

#[test]
fn token_new_keeps_fields() {
    let t = Token::new(TokenType::String(String::from("a")), String::from("\"a\""), 4);
    assert_eq!(t.tt, TokenType::String(String::from("a")));
    assert_eq!(t.lexeme, "\"a\"");
    assert_eq!(t.line, 4);
    assert_eq!(t.tt.duplicate(), t.tt);
}
