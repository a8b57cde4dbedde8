use autopilot::interpreter::lexer::Lexer;
use autopilot::interpreter::token::Token;

#[test]
fn test_next_token() {
    let input = "
    
    
    let five = 5
    let ten = 10

    let add = func(x, y) {
        x + y
    }

    let result = add(five, ten)
    !-/*5
    5 < 10 > 5

    if (5 < 10) {
        return true
    } else {
        return false
    }

    10 == 10
    10 != 9

    1.00
    1000.200

    ";

    let expected_tokens = vec![
        Token::Let,
        Token::Identifier(String::from("five")),
        Token::Assign,
        Token::Int(String::from("5")),
        Token::Let,
        Token::Identifier(String::from("ten")),
        Token::Assign,
        Token::Int(String::from("10")),
        Token::Let,
        Token::Identifier(String::from("add")),
        Token::Assign,
        Token::Function,
        Token::LeftParen,
        Token::Identifier(String::from("x")),
        Token::Comma,
        Token::Identifier(String::from("y")),
        Token::RightParen,
        Token::LeftBrackets,
        Token::Identifier(String::from("x")),
        Token::Plus,
        Token::Identifier(String::from("y")),
        Token::RightBrackets,
        Token::Let,
        Token::Identifier(String::from("result")),
        Token::Assign,
        Token::Identifier(String::from("add")),
        Token::LeftParen,
        Token::Identifier(String::from("five")),
        Token::Comma,
        Token::Identifier(String::from("ten")),
        Token::RightParen,
        Token::Bang,
        Token::Minus,
        Token::Slash,
        Token::Asterisk,
        Token::Int(String::from("5")),
        Token::Int(String::from("5")),
        Token::LessThan,
        Token::Int(String::from("10")),
        Token::GreaterThan,
        Token::Int(String::from("5")),
        Token::If,
        Token::LeftParen,
        Token::Int(String::from("5")),
        Token::LessThan,
        Token::Int(String::from("10")),
        Token::RightParen,
        Token::LeftBrackets,
        Token::Return,
        Token::True,
        Token::RightBrackets,
        Token::Else,
        Token::LeftBrackets,
        Token::Return,
        Token::False,
        Token::RightBrackets,
        Token::Int(String::from("10")),
        Token::Equal,
        Token::Int(String::from("10")),
        Token::Int(String::from("10")),
        Token::NotEqual,
        Token::Int(String::from("9")),
        Token::Float(String::from("1.00")),
        Token::Float(String::from("1000.200")),
        Token::Eof,
    ];

    let mut lexer = Lexer::new(input);

    for expected_token in expected_tokens {
        let token = lexer.next_token();
        assert_eq!(token, expected_token);
    }
}

#[test]
fn eof_repeats_after_the_end() {
    let mut lexer = Lexer::new("a  ");
    assert_eq!(lexer.next_token(), Token::Identifier(String::from("a")));
    assert_eq!(lexer.next_token(), Token::Eof);
    assert_eq!(lexer.next_token(), Token::Eof);
    assert_eq!(lexer.next_token(), Token::Eof);
}

#[test]
fn empty_input_is_eof() {
    let mut lexer = Lexer::new("");
    assert_eq!(lexer.next_token(), Token::Eof);
}

#[test]
fn semicolons_and_two_character_operators() {
    let mut lexer = Lexer::new("a = b; c == d; e != f; !g =");
    let expected = vec![
        Token::Identifier(String::from("a")),
        Token::Assign,
        Token::Identifier(String::from("b")),
        Token::Semicolon,
        Token::Identifier(String::from("c")),
        Token::Equal,
        Token::Identifier(String::from("d")),
        Token::Semicolon,
        Token::Identifier(String::from("e")),
        Token::NotEqual,
        Token::Identifier(String::from("f")),
        Token::Semicolon,
        Token::Bang,
        Token::Identifier(String::from("g")),
        Token::Assign,
        Token::Eof,
    ];
    for token in expected {
        assert_eq!(lexer.next_token(), token);
    }
}

#[test]
fn unknown_characters_are_illegal() {
    let mut lexer = Lexer::new("a # b ? [");
    let expected = vec![
        Token::Identifier(String::from("a")),
        Token::Illegal,
        Token::Identifier(String::from("b")),
        Token::Illegal,
        Token::Illegal,
        Token::Eof,
    ];
    for token in expected {
        assert_eq!(lexer.next_token(), token);
    }
}

#[test]
fn identifiers_hold_letters_and_underscores_only() {
    let mut lexer = Lexer::new("SET_THRUST _x a1 lettuce iffy");
    let expected = vec![
        Token::Identifier(String::from("SET_THRUST")),
        Token::Identifier(String::from("_x")),
        Token::Identifier(String::from("a")),
        Token::Int(String::from("1")),
        Token::Identifier(String::from("lettuce")),
        Token::Identifier(String::from("iffy")),
        Token::Eof,
    ];
    for token in expected {
        assert_eq!(lexer.next_token(), token);
    }
}

#[test]
fn numerals_are_delimited_not_read() {
    let mut lexer = Lexer::new("12 3.5 1.2.3 7. 99999999999999999999999999");
    let expected = vec![
        Token::Int(String::from("12")),
        Token::Float(String::from("3.5")),
        Token::Float(String::from("1.2.3")),
        Token::Float(String::from("7.")),
        Token::Int(String::from("99999999999999999999999999")),
        Token::Eof,
    ];
    for token in expected {
        assert_eq!(lexer.next_token(), token);
    }
}

#[test]
fn remaining_tokens_end_in_one_eof() {
    let mut lexer = Lexer::new("let a = 1;");
    let tokens = lexer.remaining_tokens();
    assert_eq!(
        tokens,
        vec![
            Token::Let,
            Token::Identifier(String::from("a")),
            Token::Assign,
            Token::Int(String::from("1")),
            Token::Semicolon,
            Token::Eof,
        ]
    );
    assert_eq!(lexer.remaining_tokens(), vec![Token::Eof]);
}

#[test]
fn token_equality_and_names() {
    let a = Token::Identifier(String::from("abc"));
    assert!(a.same(&a.clone()));
    assert!(!a.same(&Token::Int(String::from("abc"))));
    assert!(!a.same(&Token::Identifier(String::from("abd"))));
    assert!(Token::Semicolon.same(&Token::Semicolon));
    assert!(!Token::Semicolon.same(&Token::Comma));
    assert_eq!(a.name(), "Identifier(\"abc\")");
    assert_eq!(Token::Int(String::from("5")).name(), "Int(\"5\")");
    assert_eq!(Token::Float(String::from("5.0")).name(), "Float(\"5.0\")");
    assert_eq!(Token::RightParen.name(), "RightParen");
    assert_eq!(Token::Eof.name(), "Eof");
}
