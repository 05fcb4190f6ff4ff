use pratt_parser::lexer::is_letter;
use pratt_parser::lexer::Lexer;
use pratt_parser::token::lookup_identifier;
use pratt_parser::token::Token;

#[test]
fn token_default_test() {
    let token: Token = Default::default();
    assert_eq!(token, Token::Illegal);
}

#[test]
fn lookup_identifier_test() {
    assert_eq!(lookup_identifier("fn"), Token::Function);
}

#[test]
fn next_token_test() {
    let input = "let five = 5;
                 let ten = 10;
                 let add = fn(x, y) {
                    x + y;
                 };

                 let result = add(five, ten);
                 !-/*5;
                 5 < 10 > 5;

                 if (5 < 10) {
                    return true;
                 } else {
                    return false;
                 }

                 10 == 10;
                 10 != 9;
                ";
    let mut lexer = Lexer::new(input);
    assert_eq!(Token::Let, lexer.next_token());
    assert_eq!(Token::Identifier("five".to_string()), lexer.next_token());
    assert_eq!(Token::Assign, lexer.next_token());
    assert_eq!(Token::Integer(5), lexer.next_token());
    assert_eq!(Token::Semicolon, lexer.next_token());
    assert_eq!(Token::Let, lexer.next_token());
    assert_eq!(Token::Identifier("ten".to_string()), lexer.next_token());
    assert_eq!(Token::Assign, lexer.next_token());
    assert_eq!(Token::Integer(10), lexer.next_token());
    assert_eq!(Token::Semicolon, lexer.next_token());
    assert_eq!(Token::Let, lexer.next_token());
    assert_eq!(Token::Identifier("add".to_string()), lexer.next_token());
    assert_eq!(Token::Assign, lexer.next_token());
    assert_eq!(Token::Function, lexer.next_token());
    assert_eq!(Token::LeftParenthesis, lexer.next_token());
    assert_eq!(Token::Identifier("x".to_string()), lexer.next_token());
    assert_eq!(Token::Comma, lexer.next_token());
    assert_eq!(Token::Identifier("y".to_string()), lexer.next_token());
    assert_eq!(Token::RightParenthesis, lexer.next_token());
    assert_eq!(Token::LeftBrace, lexer.next_token());
    assert_eq!(Token::Identifier("x".to_string()), lexer.next_token());
    assert_eq!(Token::Plus, lexer.next_token());
    assert_eq!(Token::Identifier("y".to_string()), lexer.next_token());
    assert_eq!(Token::Semicolon, lexer.next_token());
    assert_eq!(Token::RightBrace, lexer.next_token());
    assert_eq!(Token::Semicolon, lexer.next_token());
    assert_eq!(Token::Let, lexer.next_token());
    assert_eq!(Token::Identifier("result".to_string()), lexer.next_token());
    assert_eq!(Token::Assign, lexer.next_token());
    assert_eq!(Token::Identifier("add".to_string()), lexer.next_token());
    assert_eq!(Token::LeftParenthesis, lexer.next_token());
    assert_eq!(Token::Identifier("five".to_string()), lexer.next_token());
    assert_eq!(Token::Comma, lexer.next_token());
    assert_eq!(Token::Identifier("ten".to_string()), lexer.next_token());
    assert_eq!(Token::RightParenthesis, lexer.next_token());
    assert_eq!(Token::Semicolon, lexer.next_token());
    assert_eq!(Token::Bang, lexer.next_token());
    assert_eq!(Token::Minus, lexer.next_token());
    assert_eq!(Token::Slash, lexer.next_token());
    assert_eq!(Token::Asterisk, lexer.next_token());
    assert_eq!(Token::Integer(5), lexer.next_token());
    assert_eq!(Token::Semicolon, lexer.next_token());
    assert_eq!(Token::Integer(5), lexer.next_token());
    assert_eq!(Token::LowerThan, lexer.next_token());
    assert_eq!(Token::Integer(10), lexer.next_token());
    assert_eq!(Token::GreaterThan, lexer.next_token());
    assert_eq!(Token::Integer(5), lexer.next_token());
    assert_eq!(Token::Semicolon, lexer.next_token());

    assert_eq!(Token::If, lexer.next_token());
    assert_eq!(Token::LeftParenthesis, lexer.next_token());
    assert_eq!(Token::Integer(5), lexer.next_token());
    assert_eq!(Token::LowerThan, lexer.next_token());
    assert_eq!(Token::Integer(10), lexer.next_token());
    assert_eq!(Token::RightParenthesis, lexer.next_token());
    assert_eq!(Token::LeftBrace, lexer.next_token());
    assert_eq!(Token::Return, lexer.next_token());
    assert_eq!(Token::True, lexer.next_token());
    assert_eq!(Token::Semicolon, lexer.next_token());
    assert_eq!(Token::RightBrace, lexer.next_token());
    assert_eq!(Token::Else, lexer.next_token());
    assert_eq!(Token::LeftBrace, lexer.next_token());
    assert_eq!(Token::Return, lexer.next_token());
    assert_eq!(Token::False, lexer.next_token());
    assert_eq!(Token::Semicolon, lexer.next_token());
    assert_eq!(Token::RightBrace, lexer.next_token());

    assert_eq!(Token::Integer(10), lexer.next_token());
    assert_eq!(Token::Equal, lexer.next_token());
    assert_eq!(Token::Integer(10), lexer.next_token());
    assert_eq!(Token::Semicolon, lexer.next_token());

    assert_eq!(Token::Integer(10), lexer.next_token());
    assert_eq!(Token::NotEqual, lexer.next_token());
    assert_eq!(Token::Integer(9), lexer.next_token());
    assert_eq!(Token::Semicolon, lexer.next_token());
}

#[test]
fn keyword_is_not_a_prefix_of_an_identifier() {
    let mut lexer = Lexer::new("let");
    assert_eq!(Token::Let, lexer.next_token());
    assert_eq!(Token::EndOfFile, lexer.next_token());
    let mut lexer = Lexer::new("letx");
    assert_eq!(Token::Identifier("letx".to_string()), lexer.next_token());
    assert_eq!(Token::EndOfFile, lexer.next_token());
}

#[test]
fn every_keyword_is_resolved() {
    assert_eq!(lookup_identifier("fn"), Token::Function);
    assert_eq!(lookup_identifier("let"), Token::Let);
    assert_eq!(lookup_identifier("true"), Token::True);
    assert_eq!(lookup_identifier("false"), Token::False);
    assert_eq!(lookup_identifier("if"), Token::If);
    assert_eq!(lookup_identifier("else"), Token::Else);
    assert_eq!(lookup_identifier("return"), Token::Return);
    assert_eq!(lookup_identifier("returns"), Token::Identifier("returns".to_string()));
    assert_eq!(lookup_identifier(""), Token::Identifier("".to_string()));
}

#[test]
fn end_of_input_repeats() {
    let mut lexer = Lexer::new("  \t\n ");
    assert_eq!(Token::EndOfFile, lexer.next_token());
    assert_eq!(Token::EndOfFile, lexer.next_token());
    assert_eq!(Token::EndOfFile, lexer.next_token());
    let mut lexer = Lexer::new("");
    assert_eq!(Token::EndOfFile, lexer.next_token());
}

#[test]
fn identifiers_hold_letters_only() {
    let mut lexer = Lexer::new("foo_bar x1");
    assert_eq!(Token::Identifier("foo".to_string()), lexer.next_token());
    assert_eq!(Token::Illegal, lexer.next_token());
    assert_eq!(Token::Identifier("bar".to_string()), lexer.next_token());
    assert_eq!(Token::Identifier("x".to_string()), lexer.next_token());
    assert_eq!(Token::Integer(1), lexer.next_token());
    assert_eq!(Token::EndOfFile, lexer.next_token());
}

#[test]
fn letters_beyond_ascii_are_letters() {
    assert!(is_letter('a'));
    assert!(is_letter('Z'));
    assert!(is_letter('é'));
    assert!(!is_letter('_'));
    assert!(!is_letter('7'));
    let mut lexer = Lexer::new("été");
    assert_eq!(Token::Identifier("été".to_string()), lexer.next_token());
}

#[test]
fn two_character_operators() {
    let mut lexer = Lexer::new("= == ! != =!= ===");
    assert_eq!(Token::Assign, lexer.next_token());
    assert_eq!(Token::Equal, lexer.next_token());
    assert_eq!(Token::Bang, lexer.next_token());
    assert_eq!(Token::NotEqual, lexer.next_token());
    assert_eq!(Token::Assign, lexer.next_token());
    assert_eq!(Token::NotEqual, lexer.next_token());
    assert_eq!(Token::Equal, lexer.next_token());
    assert_eq!(Token::Assign, lexer.next_token());
    assert_eq!(Token::EndOfFile, lexer.next_token());
}

#[test]
fn integer_limits() {
    let mut lexer = Lexer::new("0 007 4294967295 4294967296 99999999999999999999 12");
    assert_eq!(Token::Integer(0), lexer.next_token());
    assert_eq!(Token::Integer(7), lexer.next_token());
    assert_eq!(Token::Integer(4294967295), lexer.next_token());
    assert_eq!(Token::Illegal, lexer.next_token());
    assert_eq!(Token::Illegal, lexer.next_token());
    assert_eq!(Token::Integer(12), lexer.next_token());
    assert_eq!(Token::EndOfFile, lexer.next_token());
}

#[test]
fn numeric_characters_that_are_no_digits() {
    let mut lexer = Lexer::new("1² 5");
    assert_eq!(Token::Illegal, lexer.next_token());
    assert_eq!(Token::Integer(5), lexer.next_token());
    assert_eq!(Token::EndOfFile, lexer.next_token());
}

#[test]
fn unknown_characters_are_illegal() {
    let mut lexer = Lexer::new("@ # a");
    assert_eq!(Token::Illegal, lexer.next_token());
    assert_eq!(Token::Illegal, lexer.next_token());
    assert_eq!(Token::Identifier("a".to_string()), lexer.next_token());
}

#[test]
fn cursor_helpers() {
    let mut lexer = Lexer::new(" ab 12");
    assert_eq!(Some(' '), lexer.peek_char());
    lexer.skip_whitespace();
    assert!(lexer.peek_is_letter());
    assert!(lexer.peek_char_eq('a'));
    assert!(!lexer.peek_char_eq('b'));
    assert_eq!(Some('a'), lexer.read_char());
    assert_eq!("ab".to_string(), lexer.read_identifier('a'));
    lexer.skip_whitespace();
    assert_eq!(Some('1'), lexer.read_char());
    assert_eq!(Some(12), lexer.read_number('1'));
    assert_eq!(None, lexer.read_char());
    assert_eq!(None, lexer.peek_char());
    assert!(!lexer.peek_is_letter());
    assert!(!lexer.peek_char_eq('a'));
    let mut lexer = Lexer::new("9999999999");
    assert_eq!(None, lexer.read_number('9'));
}
