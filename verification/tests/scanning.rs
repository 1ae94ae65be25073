use rlox::scanner::Scanner;
use rlox::scanner::TokenType;

fn kinds(source: &str) -> Vec<TokenType> {
    let mut scanner = Scanner::new(source);
    let mut out = Vec::new();
    loop {
        let tok = scanner.scan_token();
        let done = tok.t == TokenType::Eof;
        out.push(tok.t);
        if done {
            return out;
        }
    }
}

#[test]
fn punctuation_tokens() {
    assert_eq!(
        kinds("(){};,.-+/*"),
        vec![
            TokenType::LeftParen,
            TokenType::RightParen,
            TokenType::LeftBrace,
            TokenType::RightBrace,
            TokenType::SemiColon,
            TokenType::Comma,
            TokenType::Dot,
            TokenType::Minus,
            TokenType::Plus,
            TokenType::Slash,
            TokenType::Star,
            TokenType::Eof,
        ]
    );
}

#[test]
fn one_and_two_character_operators() {
    assert_eq!(
        kinds("! != = == < <= > >="),
        vec![
            TokenType::Bang,
            TokenType::BangEqual,
            TokenType::Assign,
            TokenType::Equal,
            TokenType::Less,
            TokenType::LessEqual,
            TokenType::Greater,
            TokenType::GreaterEqual,
            TokenType::Eof,
        ]
    );
}

#[test]
fn number_with_trailing_dot_excludes_the_dot() {
    let mut scanner = Scanner::new("123.");
    let tok = scanner.scan_token();
    assert_eq!(tok.t, TokenType::Number);
    assert_eq!(tok.lexme, "123");
    let dot = scanner.scan_token();
    assert_eq!(dot.t, TokenType::Dot);
    assert_eq!(scanner.scan_token().t, TokenType::Eof);
}

#[test]
fn fractional_number_is_one_token() {
    let mut scanner = Scanner::new("3.25");
    let tok = scanner.scan_token();
    assert_eq!(tok.t, TokenType::Number);
    assert_eq!(tok.lexme, "3.25");
    assert_eq!(scanner.scan_token().t, TokenType::Eof);
}

#[test]
fn unterminated_string_is_one_error_then_eof() {
    let mut scanner = Scanner::new("\"abc");
    let tok = scanner.scan_token();
    assert_eq!(tok.t, TokenType::Error);
    assert_eq!(tok.lexme, "Unterminated string.");
    assert_eq!(scanner.scan_token().t, TokenType::Eof);
    assert_eq!(scanner.scan_token().t, TokenType::Eof);
}

#[test]
fn string_lexeme_keeps_its_quotes() {
    let mut scanner = Scanner::new("\"hi\"");
    let tok = scanner.scan_token();
    assert_eq!(tok.t, TokenType::String);
    assert_eq!(tok.lexme, "\"hi\"");
}

#[test]
fn comment_at_end_of_file_is_fine() {
    assert_eq!(kinds("1 //"), vec![TokenType::Number, TokenType::Eof]);
    assert_eq!(kinds("// all comment"), vec![TokenType::Eof]);
    assert_eq!(
        kinds("1 // skip\n2"),
        vec![TokenType::Number, TokenType::Number, TokenType::Eof]
    );
}

#[test]
fn slash_alone_is_a_token() {
    assert_eq!(kinds("/"), vec![TokenType::Slash, TokenType::Eof]);
}

#[test]
fn keywords_and_identifiers() {
    assert_eq!(
        kinds("and class else false for fun if nil or print return super this true var while"),
        vec![
            TokenType::And,
            TokenType::Class,
            TokenType::Else,
            TokenType::False,
            TokenType::For,
            TokenType::Fun,
            TokenType::If,
            TokenType::Nil,
            TokenType::Or,
            TokenType::Print,
            TokenType::Return,
            TokenType::Super,
            TokenType::This,
            TokenType::True,
            TokenType::Var,
            TokenType::While,
            TokenType::Eof,
        ]
    );
    assert_eq!(
        kinds("andy _for x1"),
        vec![
            TokenType::Identifier,
            TokenType::Identifier,
            TokenType::Identifier,
            TokenType::Eof,
        ]
    );
}

#[test]
fn unexpected_character_is_an_error_token() {
    let mut scanner = Scanner::new("@1");
    let tok = scanner.scan_token();
    assert_eq!(tok.t, TokenType::Error);
    assert_eq!(tok.lexme, "Unexpected character.");
    assert_eq!(scanner.scan_token().t, TokenType::Number);
}

#[test]
fn newlines_count_lines() {
    let mut scanner = Scanner::new("1\n+\n\n2");
    assert_eq!(scanner.scan_token().line, 1);
    assert_eq!(scanner.scan_token().line, 2);
    let two = scanner.scan_token();
    assert_eq!(two.t, TokenType::Number);
    assert_eq!(two.line, 4);
}

#[test]
fn multiline_string_counts_its_newlines() {
    let mut scanner = Scanner::new("\"a\nb\" +");
    let s = scanner.scan_token();
    assert_eq!(s.t, TokenType::String);
    assert_eq!(s.line, 2);
    assert_eq!(scanner.scan_token().line, 2);
}

#[test]
fn lexemes_recompose_the_meaningful_source() {
    let source = " (1.5+ x) // trailing\n* done ";
    let mut scanner = Scanner::new(source);
    let mut recomposed = String::new();
    loop {
        let tok = scanner.scan_token();
        if tok.t == TokenType::Eof {
            break;
        }
        recomposed.push_str(&tok.lexme);
    }
    let meaningful: String = source
        .replace(" ", "")
        .replace("//trailing\n", "");
    assert_eq!(recomposed, meaningful);
}
