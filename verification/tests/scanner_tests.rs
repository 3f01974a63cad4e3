use lox_rs::scanner::Scanner;
use lox_rs::token::{Token, TokenType};

fn scan_all(source: &str) -> Vec<Token> {
    let mut scanner = Scanner::new(source);
    let mut tokens = Vec::new();
    loop {
        let t = scanner.scan_token();
        let done = t.token_type == TokenType::Eof;
        tokens.push(t);
        if done {
            break;
        }
    }
    tokens
}

fn kinds(tokens: &[Token]) -> Vec<TokenType> {
    tokens.iter().map(|t| t.token_type).collect()
}

#[test]
fn scans_arithmetic_expression() {
    let tokens = scan_all("1 + 2.5 * (3)");
    assert_eq!(
        kinds(&tokens),
        vec![
            TokenType::Number,
            TokenType::Plus,
            TokenType::Number,
            TokenType::Star,
            TokenType::LeftParen,
            TokenType::Number,
            TokenType::RightParen,
            TokenType::Eof
        ]
    );
    assert_eq!(tokens[0].lexeme, b"1".to_vec());
    assert_eq!(tokens[2].lexeme, b"2.5".to_vec());
    assert_eq!(tokens[7].lexeme, Vec::<u8>::new());
}

#[test]
fn scans_one_and_two_character_operators() {
    let tokens = scan_all("== != <= >= = ! < > / - ; , . { }");
    assert_eq!(
        kinds(&tokens),
        vec![
            TokenType::Equals,
            TokenType::BangEqual,
            TokenType::LessEqual,
            TokenType::GreaterEqual,
            TokenType::Assign,
            TokenType::Bang,
            TokenType::Less,
            TokenType::Greater,
            TokenType::Slash,
            TokenType::Minus,
            TokenType::Semicolon,
            TokenType::Comma,
            TokenType::Dot,
            TokenType::LeftBrace,
            TokenType::RightBrace,
            TokenType::Eof
        ]
    );
    assert_eq!(tokens[0].lexeme, b"==".to_vec());
    assert_eq!(tokens[4].lexeme, b"=".to_vec());
}

#[test]
fn scans_keywords_and_identifiers() {
    let tokens = scan_all("and class else false for fun if nil or print return super this true var while andy _x9 While");
    assert_eq!(
        kinds(&tokens),
        vec![
            TokenType::And,
            TokenType::Class,
            TokenType::Else,
            TokenType::False,
            TokenType::For,
            TokenType::Fun,
            TokenType::If,
            TokenType::Nil,
            TokenType::Or,
            TokenType::Print,
            TokenType::Return,
            TokenType::Super,
            TokenType::This,
            TokenType::True,
            TokenType::Var,
            TokenType::While,
            TokenType::Identifier,
            TokenType::Identifier,
            TokenType::Identifier,
            TokenType::Eof
        ]
    );
    assert_eq!(tokens[17].lexeme, b"_x9".to_vec());
}

#[test]
fn keyword_parse_of_words() {
    assert_eq!(TokenType::parse(b"return"), TokenType::Return);
    assert_eq!(TokenType::parse(b"returns"), TokenType::Identifier);
    assert_eq!(TokenType::parse(b""), TokenType::Identifier);
}

#[test]
fn string_literal_lexeme_and_line() {
    let tokens = scan_all("\"hi\nthere\" 1");
    assert_eq!(tokens[0].token_type, TokenType::String);
    assert_eq!(tokens[0].lexeme, b"hi\nthere".to_vec());
    assert_eq!(tokens[0].line, 2);
    assert_eq!(tokens[1].line, 2);
}

#[test]
fn unterminated_string_is_an_error_token() {
    let tokens = scan_all("\"abc\n");
    assert_eq!(tokens[0].token_type, TokenType::Error);
    assert_eq!(tokens[0].lexeme, b"Unterminated string.".to_vec());
    assert_eq!(tokens[0].line, 2);
    assert_eq!(tokens[1].token_type, TokenType::Eof);
}

#[test]
fn unexpected_character_is_an_error_token() {
    let tokens = scan_all("1 @ 2");
    assert_eq!(tokens[1].token_type, TokenType::Error);
    assert_eq!(tokens[1].lexeme, b"Unexpected character.".to_vec());
    assert_eq!(tokens[2].token_type, TokenType::Number);
}

#[test]
fn comments_and_newlines_are_skipped_and_counted() {
    let tokens = scan_all("// a comment\n\n   42 // tail\n");
    assert_eq!(kinds(&tokens), vec![TokenType::Number, TokenType::Eof]);
    assert_eq!(tokens[0].line, 3);
    assert_eq!(tokens[1].line, 4);
}

#[test]
fn number_without_fraction_digits_stops_before_dot() {
    let tokens = scan_all("1.");
    assert_eq!(kinds(&tokens), vec![TokenType::Number, TokenType::Dot, TokenType::Eof]);
    assert_eq!(tokens[0].lexeme, b"1".to_vec());
}

#[test]
fn eof_repeats_at_the_end() {
    let mut scanner = Scanner::new("x");
    assert_eq!(scanner.scan_token().token_type, TokenType::Identifier);
    for _ in 0..3 {
        let t = scanner.scan_token();
        assert_eq!(t.token_type, TokenType::Eof);
        assert_eq!(t.line, 1);
    }
}

#[test]
fn empty_source_gives_eof_on_line_one() {
    let tokens = scan_all("");
    assert_eq!(kinds(&tokens), vec![TokenType::Eof]);
    assert_eq!(tokens[0].line, 1);
}
