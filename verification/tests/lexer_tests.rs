use monkey_interpreter::lexer::Lexer;
use monkey_interpreter::token::{Keyword, Operation, Token, TokenError};

#[test]
fn lexer_test_lexer() {
    let input = r#"let five = 5;
let ten = 10;
let add = fn(x, y) {
  x + y;
};

let result = add(five, ten);
!-/*5;
5 < 10 > 5;

if (5 < 10) {
    return true;
} else {
    return false;
}

10 == 10;
10 != 9;
"#;

    let expected_tokens: Vec<Token> = vec![
        Token::Kw(Keyword::Let),
        Token::Ident("five".to_string()),
        Token::Assign,
        Token::Int("5".to_string()),
        Token::Semicolon,
        Token::Kw(Keyword::Let),
        Token::Ident("ten".to_string()),
        Token::Assign,
        Token::Int("10".to_string()),
        Token::Semicolon,
        Token::Kw(Keyword::Let),
        Token::Ident("add".to_string()),
        Token::Assign,
        Token::Kw(Keyword::Function),
        Token::Lparen,
        Token::Ident("x".to_string()),
        Token::Comma,
        Token::Ident("y".to_string()),
        Token::Rparen,
        Token::Lbrace,
        Token::Ident("x".to_string()),
        Token::Op(Operation::Plus),
        Token::Ident("y".to_string()),
        Token::Semicolon,
        Token::Rbrace,
        Token::Semicolon,
        Token::Kw(Keyword::Let),
        Token::Ident("result".to_string()),
        Token::Assign,
        Token::Ident("add".to_string()),
        Token::Lparen,
        Token::Ident("five".to_string()),
        Token::Comma,
        Token::Ident("ten".to_string()),
        Token::Rparen,
        Token::Semicolon,
        Token::Bang,
        Token::Op(Operation::Minus),
        Token::Op(Operation::Slash),
        Token::Op(Operation::Asterisk),
        Token::Int("5".to_string()),
        Token::Semicolon,
        Token::Int("5".to_string()),
        Token::Lt,
        Token::Int("10".to_string()),
        Token::Gt,
        Token::Int("5".to_string()),
        Token::Semicolon,
        Token::Kw(Keyword::If),
        Token::Lparen,
        Token::Int("5".to_string()),
        Token::Lt,
        Token::Int("10".to_string()),
        Token::Rparen,
        Token::Lbrace,
        Token::Kw(Keyword::Return),
        Token::Kw(Keyword::True),
        Token::Semicolon,
        Token::Rbrace,
        Token::Kw(Keyword::Else),
        Token::Lbrace,
        Token::Kw(Keyword::Return),
        Token::Kw(Keyword::False),
        Token::Semicolon,
        Token::Rbrace,
        Token::Int("10".to_string()),
        Token::Eq,
        Token::Int("10".to_string()),
        Token::Semicolon,
        Token::Int("10".to_string()),
        Token::Neq,
        Token::Int("9".to_string()),
        Token::Semicolon,
        Token::Eof,
    ];

    let mut l = Lexer::new(input.to_string());

    for exp_tok in expected_tokens {
        assert_eq!(l.next_token().unwrap(), exp_tok);
    }
}

#[test]
fn lexer_test_test_lexer() {
    let input = r#"let five = 5;
let ten = 10;
let add = fn(x, y) {
  x + y;
};

let result = add(five, ten);
"#;

    let expected_tokens: Vec<(Token, &str)> = vec![
        (Token::Kw(Keyword::Let), "let"),
        (Token::Ident("five".to_string()), "five"),
        (Token::Assign, "="),
        (Token::Int("5".to_string()), "5"),
        (Token::Semicolon, ";"),
        (Token::Kw(Keyword::Let), "let"),
        (Token::Ident("ten".to_string()), "ten"),
        (Token::Assign, "="),
        (Token::Int("10".to_string()), "10"),
        (Token::Semicolon, ";"),
        (Token::Kw(Keyword::Let), "let"),
        (Token::Ident("add".to_string()), "add"),
        (Token::Assign, "="),
        (Token::Kw(Keyword::Function), "fn"),
        (Token::Lparen, "("),
        (Token::Ident("x".to_string()), "x"),
        (Token::Comma, ","),
        (Token::Ident("y".to_string()), "y"),
        (Token::Rparen, ")"),
        (Token::Lbrace, "{"),
        (Token::Ident("x".to_string()), "x"),
        (Token::Op(Operation::Plus), "+"),
        (Token::Ident("y".to_string()), "y"),
        (Token::Semicolon, ";"),
        (Token::Rbrace, "}"),
        (Token::Semicolon, ";"),
        (Token::Kw(Keyword::Let), "let"),
        (Token::Ident("result".to_string()), "result"),
        (Token::Assign, "="),
        (Token::Ident("add".to_string()), "add"),
        (Token::Lparen, "("),
        (Token::Ident("five".to_string()), "five"),
        (Token::Comma, ","),
        (Token::Ident("ten".to_string()), "ten"),
        (Token::Rparen, ")"),
        (Token::Semicolon, ";"),
        (Token::Eof, "EOF"),
    ];

    let mut lexer = Lexer::new(input.to_string());

    for (expected_token, expected_literal) in expected_tokens {
        let token = lexer.next_token().unwrap();

        assert_eq!(token, expected_token);
        assert_eq!(token.literal(), expected_literal);
    }
}

#[test]
fn relexing_yields_identical_sequence() {
    let input = "let add = fn(x, y) { x + y; }; add(1, 2 * 3) == 7;";

    let mut first: Vec<Token> = Vec::new();
    let mut it = Lexer::new(input.to_string()).into_iter();
    while let Some(t) = it.next() {
        first.push(t);
    }

    let mut second: Vec<Token> = Vec::new();
    let mut it2 = Lexer::new(input.to_string()).into_iter();
    while let Some(t) = it2.next() {
        second.push(t);
    }

    assert!(!first.is_empty());
    assert_eq!(first.last(), Some(&Token::Eof));
    assert_eq!(first, second);
}

#[test]
fn two_char_operators_need_second_equals() {
    let mut l = Lexer::new("== = != ! =! ==(".to_string());
    assert_eq!(l.next_token().unwrap(), Token::Eq);
    assert_eq!(l.next_token().unwrap(), Token::Assign);
    assert_eq!(l.next_token().unwrap(), Token::Neq);
    assert_eq!(l.next_token().unwrap(), Token::Bang);
    assert_eq!(l.next_token().unwrap(), Token::Assign);
    assert_eq!(l.next_token().unwrap(), Token::Bang);
    assert_eq!(l.next_token().unwrap(), Token::Eq);
    assert_eq!(l.next_token().unwrap(), Token::Lparen);
    assert_eq!(l.next_token().unwrap(), Token::Eof);
}

#[test]
fn bare_assign_at_end_of_input() {
    let mut l = Lexer::new("=".to_string());
    assert_eq!(l.next_token().unwrap(), Token::Assign);
    assert_eq!(l.next_token().unwrap(), Token::Eof);

    let mut l2 = Lexer::new("!".to_string());
    assert_eq!(l2.next_token().unwrap(), Token::Bang);
    assert_eq!(l2.next_token().unwrap(), Token::Eof);
}

#[test]
fn keywords_are_exact_matches() {
    let mut l = Lexer::new("let fn return if else true false lets fnx iff _if True".to_string());
    assert_eq!(l.next_token().unwrap(), Token::Kw(Keyword::Let));
    assert_eq!(l.next_token().unwrap(), Token::Kw(Keyword::Function));
    assert_eq!(l.next_token().unwrap(), Token::Kw(Keyword::Return));
    assert_eq!(l.next_token().unwrap(), Token::Kw(Keyword::If));
    assert_eq!(l.next_token().unwrap(), Token::Kw(Keyword::Else));
    assert_eq!(l.next_token().unwrap(), Token::Kw(Keyword::True));
    assert_eq!(l.next_token().unwrap(), Token::Kw(Keyword::False));
    assert_eq!(l.next_token().unwrap(), Token::Ident("lets".to_string()));
    assert_eq!(l.next_token().unwrap(), Token::Ident("fnx".to_string()));
    assert_eq!(l.next_token().unwrap(), Token::Ident("iff".to_string()));
    assert_eq!(l.next_token().unwrap(), Token::Ident("_if".to_string()));
    assert_eq!(l.next_token().unwrap(), Token::Ident("True".to_string()));
    assert_eq!(l.next_token().unwrap(), Token::Eof);
}

#[test]
fn illegal_byte_yields_illegal_error() {
    let mut l = Lexer::new("5 @ 6".to_string());
    assert_eq!(l.next_token().unwrap(), Token::Int("5".to_string()));
    assert_eq!(l.next_token(), Err(TokenError::Illegal(b'@')));
    assert_eq!(l.next_token().unwrap(), Token::Int("6".to_string()));
    assert_eq!(l.next_token().unwrap(), Token::Eof);
}

#[test]
fn end_of_input_token_is_idempotent() {
    let mut l = Lexer::new("x".to_string());
    assert_eq!(l.next_token().unwrap(), Token::Ident("x".to_string()));
    assert_eq!(l.next_token().unwrap(), Token::Eof);
    assert_eq!(l.next_token().unwrap(), Token::Eof);
    assert_eq!(l.next_token().unwrap(), Token::Eof);
}

#[test]
fn token_literal_spellings() {
    assert_eq!(Token::Ident("abc".to_string()).literal(), "abc");
    assert_eq!(Token::Int("42".to_string()).literal(), "42");
    assert_eq!(Token::Bang.literal(), "!");
    assert_eq!(Token::Lt.literal(), "<");
    assert_eq!(Token::Gt.literal(), ">");
    assert_eq!(Token::Eq.literal(), "==");
    assert_eq!(Token::Neq.literal(), "!=");
    assert_eq!(Token::Assign.literal(), "=");
    assert_eq!(Token::Comma.literal(), ",");
    assert_eq!(Token::Semicolon.literal(), ";");
    assert_eq!(Token::Lparen.literal(), "(");
    assert_eq!(Token::Rparen.literal(), ")");
    assert_eq!(Token::Lbrace.literal(), "{");
    assert_eq!(Token::Rbrace.literal(), "}");
    assert_eq!(Token::Op(Operation::Plus).literal(), "+");
    assert_eq!(Token::Op(Operation::Minus).literal(), "-");
    assert_eq!(Token::Op(Operation::Asterisk).literal(), "*");
    assert_eq!(Token::Op(Operation::Slash).literal(), "/");
    assert_eq!(Token::Kw(Keyword::Function).literal(), "fn");
    assert_eq!(Token::Kw(Keyword::Let).literal(), "let");
    assert_eq!(Token::Eof.literal(), "EOF");
}

#[test]
fn token_iterator_stops_after_eof() {
    let mut it = Lexer::new("a b".to_string()).into_iter();
    assert_eq!(it.next(), Some(Token::Ident("a".to_string())));
    assert_eq!(it.next(), Some(Token::Ident("b".to_string())));
    assert_eq!(it.next(), Some(Token::Eof));
    assert_eq!(it.next(), None);
    assert_eq!(it.next(), None);
}

#[test]
fn identifiers_may_contain_digits_and_underscores() {
    let mut l = Lexer::new("x1 foo_bar _tmp9".to_string());
    assert_eq!(l.next_token().unwrap(), Token::Ident("x1".to_string()));
    assert_eq!(l.next_token().unwrap(), Token::Ident("foo_bar".to_string()));
    assert_eq!(l.next_token().unwrap(), Token::Ident("_tmp9".to_string()));
    assert_eq!(l.next_token().unwrap(), Token::Eof);
}

#[test]
fn empty_and_blank_inputs_yield_only_eof() {
    let mut l = Lexer::new(String::new());
    assert_eq!(l.next_token().unwrap(), Token::Eof);

    let mut l2 = Lexer::new("  \t\r\n  ".to_string());
    assert_eq!(l2.next_token().unwrap(), Token::Eof);
}

#[test]
fn nul_byte_inside_input_is_illegal() {
    let mut l = Lexer::new("a\0b".to_string());
    assert_eq!(l.next_token().unwrap(), Token::Ident("a".to_string()));
    assert_eq!(l.next_token(), Err(TokenError::Illegal(0)));
    assert_eq!(l.next_token().unwrap(), Token::Ident("b".to_string()));
    assert_eq!(l.next_token().unwrap(), Token::Eof);
}

#[test]
fn token_iterator_ends_at_lexing_error() {
    let mut it = Lexer::new("a @ b".to_string()).into_iter();
    assert_eq!(it.next(), Some(Token::Ident("a".to_string())));
    assert_eq!(it.next(), None);
    assert_eq!(it.next(), None);
}
