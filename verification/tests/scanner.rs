use lox::scanner::Scanner;
use lox::token::{Token, TokenType};

fn kinds(source: &str) -> Vec<TokenType> {
    let mut scanner = Scanner::new(source);
    scanner.scan_tokens().iter().map(|t| t.tpe).collect()
}

fn lexemes(source: &str) -> Vec<String> {
    let mut scanner = Scanner::new(source);
    scanner.scan_tokens().iter().map(|t| t.lexeme.clone()).collect()
}

#[test]
fn scan_token_type() {
    let mut scanner = Scanner::new(
        "and class else false\r fun \nfor if nil or print return super this true var while\0",
    );

    assert_eq!(scanner.scan_token().tpe, TokenType::And);
    assert_eq!(scanner.scan_token().tpe, TokenType::Class);
    assert_eq!(scanner.scan_token().tpe, TokenType::Else);
    assert_eq!(scanner.scan_token().tpe, TokenType::False);
    assert_eq!(scanner.scan_token().tpe, TokenType::Fun);
    assert_eq!(scanner.scan_token().tpe, TokenType::For);
    assert_eq!(scanner.scan_token().tpe, TokenType::If);
    assert_eq!(scanner.scan_token().tpe, TokenType::Nil);
    assert_eq!(scanner.scan_token().tpe, TokenType::Or);
    assert_eq!(scanner.scan_token().tpe, TokenType::Print);
    assert_eq!(scanner.scan_token().tpe, TokenType::Return);
    assert_eq!(scanner.scan_token().tpe, TokenType::Super);
    assert_eq!(scanner.scan_token().tpe, TokenType::This);
    assert_eq!(scanner.scan_token().tpe, TokenType::True);
    assert_eq!(scanner.scan_token().tpe, TokenType::Var);
    assert_eq!(scanner.scan_token().tpe, TokenType::While);
}

#[test]
fn keywords_need_the_whole_word() {
    assert_eq!(
        kinds("an andy classes f fa fals t th tru i o orr nil_ _if While"),
        vec![TokenType::Identifier; 15]
            .into_iter()
            .chain(vec![TokenType::EOF])
            .collect::<Vec<_>>()
    );
}

#[test]
fn punctuation_and_operators() {
    assert_eq!(
        kinds("(){},.-+;/* ! != = == > >= < <="),
        vec![
            TokenType::LeftParen,
            TokenType::RightParen,
            TokenType::LeftBrace,
            TokenType::RightBrace,
            TokenType::Comma,
            TokenType::Dot,
            TokenType::Minus,
            TokenType::Plus,
            TokenType::Semicolon,
            TokenType::Slash,
            TokenType::Star,
            TokenType::Bang,
            TokenType::BangEqual,
            TokenType::Equal,
            TokenType::EqualEqual,
            TokenType::Greater,
            TokenType::GreaterEqual,
            TokenType::Less,
            TokenType::LessEqual,
            TokenType::EOF,
        ]
    );
}

#[test]
fn two_character_operators_are_greedy() {
    assert_eq!(
        kinds("===!=="),
        vec![TokenType::EqualEqual, TokenType::Equal, TokenType::BangEqual, TokenType::Equal, TokenType::EOF]
    );
}

#[test]
fn comments_and_blanks_are_skipped() {
    assert_eq!(
        kinds("// nothing here\n  1 // one\n\t/ 2 //"),
        vec![TokenType::Number, TokenType::Slash, TokenType::Number, TokenType::EOF]
    );
}

#[test]
fn lines_count_from_one() {
    let mut scanner = Scanner::new("a\nb // c\n\n\"x\ny\" d");
    let tokens: Vec<Token> = scanner.scan_tokens();
    let lines: Vec<usize> = tokens.iter().map(|t| t.line).collect();
    assert_eq!(lines, vec![1, 2, 5, 5, 5]);
    assert_eq!(tokens[2].tpe, TokenType::String);
    assert_eq!(tokens[2].lexeme, "x\ny");
}

#[test]
fn string_lexeme_excludes_the_quotes() {
    assert_eq!(lexemes("\"hi there\""), vec!["hi there".to_string(), "".to_string()]);
    assert_eq!(lexemes("\"\""), vec!["".to_string(), "".to_string()]);
}

#[test]
fn unterminated_string_is_an_error_token() {
    let mut scanner = Scanner::new("1 \"abc");
    let tokens = scanner.scan_tokens();
    assert_eq!(tokens.len(), 3);
    assert_eq!(tokens[1].tpe, TokenType::Error);
    assert_eq!(tokens[1].lexeme, "Unterminated string.");
    assert_eq!(tokens[2].tpe, TokenType::EOF);
}

#[test]
fn unexpected_character_is_an_error_token_and_lexing_goes_on() {
    let mut scanner = Scanner::new("a @ b");
    let tokens = scanner.scan_tokens();
    let kinds: Vec<TokenType> = tokens.iter().map(|t| t.tpe).collect();
    assert_eq!(
        kinds,
        vec![TokenType::Identifier, TokenType::Error, TokenType::Identifier, TokenType::EOF]
    );
    assert_eq!(tokens[1].lexeme, "Unexpected character.");
}

#[test]
fn numbers_take_a_dot_only_before_a_digit() {
    assert_eq!(
        lexemes("12 3.5 7. .5 1.2.3"),
        vec!["12", "3.5", "7", ".", ".", "5", "1.2", ".", "3", ""]
            .into_iter()
            .map(String::from)
            .collect::<Vec<_>>()
    );
    assert_eq!(
        kinds("7."),
        vec![TokenType::Number, TokenType::Dot, TokenType::EOF]
    );
}

#[test]
fn identifiers_are_ascii() {
    assert_eq!(lexemes("_a1 B_2"), vec!["_a1".to_string(), "B_2".to_string(), "".to_string()]);
    assert_eq!(kinds("é"), vec![TokenType::Error, TokenType::EOF]);
}

#[test]
fn end_of_input_repeats() {
    let mut scanner = Scanner::new("  ");
    assert_eq!(scanner.scan_token().tpe, TokenType::EOF);
    assert_eq!(scanner.scan_token().tpe, TokenType::EOF);
}

#[test]
fn lexemes_with_blanks_between_give_the_same_tokens() {
    let source = "var a = (1 + 2) * 3; // sum\nprint a >= 9 and !false;";
    let first = kinds(source);
    let joined = lexemes(source).join(" ");
    assert_eq!(kinds(&joined), first);
    assert_eq!(lexemes(&joined), lexemes(source));
}

#[test]
fn token_new_keeps_its_parts() {
    let token = Token::new(TokenType::Minus, "-", 3);
    assert_eq!(token.tpe, TokenType::Minus);
    assert_eq!(token.lexeme, "-");
    assert_eq!(token.line, 3);
}
