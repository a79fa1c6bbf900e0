use monkey::lexer;
use monkey::token;
use monkey::token::Token;

#[test]
fn test_next_token() {
    let input = String::from(
        "
        let five = 5;
        let ten = 10;
        let add = fn(x, y) {
            x + y;
        };
        let result = add(five, ten);
        !-/*5;
        5 < 10 > 5;

        if (5 < 10) {
            return true;
        } else {
            return false;
        }

        10 == 10;
        10 != 9;
        ",
    );

    let tests = [
        Token::Let,
        Token::Ident {
            literal: String::from("five"),
        },
        Token::Assign,
        Token::Int {
            literal: String::from("5"),
        },
        Token::Semicolon,
        Token::Let,
        Token::Ident {
            literal: String::from("ten"),
        },
        Token::Assign,
        Token::Int {
            literal: String::from("10"),
        },
        Token::Semicolon,
        Token::Let,
        Token::Ident {
            literal: String::from("add"),
        },
        Token::Assign,
        Token::Function,
        Token::LParen,
        Token::Ident {
            literal: String::from("x"),
        },
        Token::Comma,
        Token::Ident {
            literal: String::from("y"),
        },
        Token::RParen,
        Token::LBrace,
        Token::Ident {
            literal: String::from("x"),
        },
        Token::Plus,
        Token::Ident {
            literal: String::from("y"),
        },
        Token::Semicolon,
        Token::RBrace,
        Token::Semicolon,
        Token::Let,
        Token::Ident {
            literal: String::from("result"),
        },
        Token::Assign,
        Token::Ident {
            literal: String::from("add"),
        },
        Token::LParen,
        Token::Ident {
            literal: String::from("five"),
        },
        Token::Comma,
        Token::Ident {
            literal: String::from("ten"),
        },
        Token::RParen,
        Token::Semicolon,
        Token::Bang,
        Token::Minus,
        Token::Slash,
        Token::Asterisk,
        Token::Int {
            literal: String::from("5"),
        },
        Token::Semicolon,
        Token::Int {
            literal: String::from("5"),
        },
        Token::Lt,
        Token::Int {
            literal: String::from("10"),
        },
        Token::Gt,
        Token::Int {
            literal: String::from("5"),
        },
        Token::Semicolon,
        Token::If,
        Token::LParen,
        Token::Int {
            literal: String::from("5"),
        },
        Token::Lt,
        Token::Int {
            literal: String::from("10"),
        },
        Token::RParen,
        Token::LBrace,
        Token::Return,
        Token::True,
        Token::Semicolon,
        Token::RBrace,
        Token::Else,
        Token::LBrace,
        Token::Return,
        Token::False,
        Token::Semicolon,
        Token::RBrace,
        Token::Int {
            literal: String::from("10"),
        },
        Token::Eq,
        Token::Int {
            literal: String::from("10"),
        },
        Token::Semicolon,
        Token::Int {
            literal: String::from("10"),
        },
        Token::NotEq,
        Token::Int {
            literal: String::from("9"),
        },
        Token::Semicolon,
        Token::Eof,
    ];
    let mut lexer = lexer::new(&input);
    for test in tests.iter() {
        let tok = lexer.next_token();
        assert_eq!(&tok, test);
    }
}

fn lex_all(input: &str) -> Vec<Token> {
    let mut lexer = lexer::new(input);
    let mut tokens = vec![];
    loop {
        let token = lexer.next_token();
        let done = token == Token::Eof;
        tokens.push(token);
        if done {
            return tokens;
        }
    }
}

fn ident(name: &str) -> Token {
    Token::Ident { literal: String::from(name) }
}

fn number(digits: &str) -> Token {
    Token::Int { literal: String::from(digits) }
}

#[test]
fn test_lexing_is_deterministic() {
    let input = "let add = fn(x, y) { x + y; }; add(1, \"two\") != 3 @ == !";
    assert_eq!(lex_all(input), lex_all(input));
    let mut first = lexer::new(input);
    let mut second = lexer::new(input);
    for _ in 0..40 {
        assert_eq!(first.next_token(), second.next_token());
    }
}

#[test]
fn test_eof_is_permanent() {
    let mut lexer = lexer::new("a  ");
    assert_eq!(lexer.next_token(), ident("a"));
    for _ in 0..5 {
        assert_eq!(lexer.next_token(), Token::Eof);
    }
    let mut empty = lexer::new("");
    assert_eq!(empty.next_token(), Token::Eof);
    assert_eq!(empty.next_token(), Token::Eof);
}

#[test]
fn test_string_tokens() {
    assert_eq!(
        lex_all("\"hello world\" \"\" \"a+b\""),
        vec![
            Token::String { literal: String::from("hello world") },
            Token::String { literal: String::from("") },
            Token::String { literal: String::from("a+b") },
            Token::Eof,
        ]
    );
}

#[test]
fn test_unterminated_string_is_illegal() {
    assert_eq!(
        lex_all("5 \"abc"),
        vec![number("5"), Token::Illegal { literal: String::from("\"") }, ident("abc"), Token::Eof]
    );
    assert_eq!(lex_all("\""), vec![Token::Illegal { literal: String::from("\"") }, Token::Eof]);
}

#[test]
fn test_illegal_character_does_not_stop_the_lexer() {
    assert_eq!(
        lex_all("a @ b # 1"),
        vec![
            ident("a"),
            Token::Illegal { literal: String::from("@") },
            ident("b"),
            Token::Illegal { literal: String::from("#") },
            number("1"),
            Token::Eof,
        ]
    );
    assert_eq!(
        lex_all("\u{e9}x"),
        vec![Token::Illegal { literal: String::from("\u{e9}") }, ident("x"), Token::Eof]
    );
}

#[test]
fn test_two_character_operators() {
    assert_eq!(
        lex_all("= == ! != === !== =!"),
        vec![
            Token::Assign,
            Token::Eq,
            Token::Bang,
            Token::NotEq,
            Token::Eq,
            Token::Assign,
            Token::NotEq,
            Token::Assign,
            Token::Assign,
            Token::Bang,
            Token::Eof,
        ]
    );
}

#[test]
fn test_keywords_and_identifiers() {
    assert_eq!(
        lex_all("fn let if else return true false fnx _a lets If"),
        vec![
            Token::Function,
            Token::Let,
            Token::If,
            Token::Else,
            Token::Return,
            Token::True,
            Token::False,
            ident("fnx"),
            ident("_a"),
            ident("lets"),
            ident("If"),
            Token::Eof,
        ]
    );
    assert_eq!(lex_all("ab12cd"), vec![ident("ab"), number("12"), ident("cd"), Token::Eof]);
    assert_eq!(lex_all("\t1\r\n2 "), vec![number("1"), number("2"), Token::Eof]);
}

#[test]
fn test_token_from_word() {
    assert_eq!(token::token_from_word("fn"), Some(Token::Function));
    assert_eq!(token::token_from_word("let"), Some(Token::Let));
    assert_eq!(token::token_from_word("if"), Some(Token::If));
    assert_eq!(token::token_from_word("else"), Some(Token::Else));
    assert_eq!(token::token_from_word("return"), Some(Token::Return));
    assert_eq!(token::token_from_word("true"), Some(Token::True));
    assert_eq!(token::token_from_word("false"), Some(Token::False));
    assert_eq!(token::token_from_word("function"), None);
    assert_eq!(token::token_from_word(""), None);
}

#[test]
fn test_token_types() {
    assert_eq!(ident("a").token_type(), token::TokenType::Ident);
    assert_eq!(number("1").token_type(), token::TokenType::Int);
    assert_eq!(Token::Eof.token_type(), token::TokenType::Eof);
    assert_eq!(Token::NotEq.token_type(), token::TokenType::NotEq);
    assert_eq!(
        Token::String { literal: String::from("s") }.token_type(),
        token::TokenType::String
    );
    assert_eq!(token::TokenType::LParen.to_string(), "LParen");
    assert_eq!(token::TokenType::NotEq.to_string(), "NotEq");
    assert_eq!(token::TokenType::Illegal.to_string(), "Illegal");
    assert_eq!(ident("abc").duplicate(), ident("abc"));
}

#[test]
fn test_character_classes() {
    assert!(lexer::is_letter('a') && lexer::is_letter('Z') && lexer::is_letter('_'));
    assert!(!lexer::is_letter('1') && !lexer::is_letter(' ') && !lexer::is_letter('\u{e9}'));
    assert!(lexer::is_digit('0') && lexer::is_digit('9'));
    assert!(!lexer::is_digit('a') && !lexer::is_digit('/') && !lexer::is_digit(':'));
}
