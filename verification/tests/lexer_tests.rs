use monkey_front::lexer::{ch_to_utf8, generate_new_token, is_digit, is_letter, Lexer};
use monkey_front::token::{lookup_ident, TokenType};

#[test]
fn test_next_token() {
    let input = r#"
        let five = 5;
        let ten = 10;

        let add = fn(x,y) {
            x+y;
        };

        let result = add(five, ten);
        !-/*5;
        5 < 10 > 5;

        if (5 < 10) {
            return true;
        } else {
            return false;
        }

        10 == 10;
        10 != 9;
        "#;

    let mut lexer = Lexer::new(String::from(input));
    let expected_tokens = vec![
        (TokenType::Let, "let"),
        (TokenType::Ident, "five"),
        (TokenType::Assign, "="),
        (TokenType::Int, "5"),
        (TokenType::Semicolon, ";"),
        (TokenType::Let, "let"),
        (TokenType::Ident, "ten"),
        (TokenType::Assign, "="),
        (TokenType::Int, "10"),
        (TokenType::Semicolon, ";"),
        (TokenType::Let, "let"),
        (TokenType::Ident, "add"),
        (TokenType::Assign, "="),
        (TokenType::Function, "fn"),
        (TokenType::Lparen, "("),
        (TokenType::Ident, "x"),
        (TokenType::Comma, ","),
        (TokenType::Ident, "y"),
        (TokenType::Rparen, ")"),
        (TokenType::Lbrace, "{"),
        (TokenType::Ident, "x"),
        (TokenType::Plus, "+"),
        (TokenType::Ident, "y"),
        (TokenType::Semicolon, ";"),
        (TokenType::Rbrace, "}"),
        (TokenType::Semicolon, ";"),
        (TokenType::Let, "let"),
        (TokenType::Ident, "result"),
        (TokenType::Assign, "="),
        (TokenType::Ident, "add"),
        (TokenType::Lparen, "("),
        (TokenType::Ident, "five"),
        (TokenType::Comma, ","),
        (TokenType::Ident, "ten"),
        (TokenType::Rparen, ")"),
        (TokenType::Semicolon, ";"),
        // !-/*5;
        (TokenType::Bang, "!"),
        (TokenType::Minus, "-"),
        (TokenType::Slash, "/"),
        (TokenType::Asterisk, "*"),
        (TokenType::Int, "5"),
        (TokenType::Semicolon, ";"),
        // 5 < 10 > 5;
        (TokenType::Int, "5"),
        (TokenType::Lt, "<"),
        (TokenType::Int, "10"),
        (TokenType::Gt, ">"),
        (TokenType::Int, "5"),
        (TokenType::Semicolon, ";"),
        // New tokens for if/else statement:
        (TokenType::If, "if"),
        (TokenType::Lparen, "("),
        (TokenType::Int, "5"),
        (TokenType::Lt, "<"),
        (TokenType::Int, "10"),
        (TokenType::Rparen, ")"),
        (TokenType::Lbrace, "{"),
        (TokenType::Return, "return"),
        (TokenType::True, "true"),
        (TokenType::Semicolon, ";"),
        (TokenType::Rbrace, "}"),
        (TokenType::Else, "else"),
        (TokenType::Lbrace, "{"),
        (TokenType::Return, "return"),
        (TokenType::False, "false"),
        (TokenType::Semicolon, ";"),
        (TokenType::Rbrace, "}"),
        // New tokens for equality operators:
        (TokenType::Int, "10"),
        (TokenType::Eq, "=="),
        (TokenType::Int, "10"),
        (TokenType::Semicolon, ";"),
        (TokenType::Int, "10"),
        (TokenType::NotEq, "!="),
        (TokenType::Int, "9"),
        (TokenType::Semicolon, ";"),
        (TokenType::Eof, "\0"),
    ];

    for (expected_type, expected_literal) in &expected_tokens {
        let actual_token = lexer.next_token();
        println!("{:#?}", actual_token);
        assert_eq!(actual_token.token_type, *expected_type);
        assert_eq!(actual_token.literal, *expected_literal);
    }
}

#[test]
fn test_eof_idempotent() {
    let mut lexer = Lexer::new(String::from("x"));
    let first = lexer.next_token();
    assert_eq!(first.token_type, TokenType::Ident);
    for _ in 0..4 {
        let token = lexer.next_token();
        assert_eq!(token.token_type, TokenType::Eof);
        assert_eq!(token.literal, "\0");
    }
}

#[test]
fn test_empty_input_is_eof_at_once() {
    let mut lexer = Lexer::new(String::new());
    let token = lexer.next_token();
    assert_eq!(token.token_type, TokenType::Eof);
    assert_eq!(token.literal, "\0");
    let again = lexer.next_token();
    assert_eq!(again.token_type, TokenType::Eof);
}

#[test]
fn test_whitespace_between_tokens_is_invisible() {
    let tight = "let x=5;";
    let spread = " let \t x\n =\r\n  5 \t;\n";
    let mut a = Lexer::new(String::from(tight));
    let mut b = Lexer::new(String::from(spread));
    loop {
        let ta = a.next_token();
        let tb = b.next_token();
        assert_eq!(ta.token_type, tb.token_type);
        assert_eq!(ta.literal, tb.literal);
        if ta.token_type == TokenType::Eof {
            break;
        }
    }
}

#[test]
fn test_two_char_operator_disambiguation() {
    let mut lexer = Lexer::new(String::from("= == != ! = ="));
    let expected = vec![
        (TokenType::Assign, "="),
        (TokenType::Eq, "=="),
        (TokenType::NotEq, "!="),
        (TokenType::Bang, "!"),
        (TokenType::Assign, "="),
        (TokenType::Assign, "="),
        (TokenType::Eof, "\0"),
    ];
    for (expected_type, expected_literal) in &expected {
        let token = lexer.next_token();
        assert_eq!(token.token_type, *expected_type);
        assert_eq!(token.literal, *expected_literal);
    }
}

#[test]
fn test_illegal_byte_becomes_token() {
    let mut lexer = Lexer::new(String::from("@"));
    let token = lexer.next_token();
    assert_eq!(token.token_type, TokenType::Illegal);
    assert_eq!(token.literal, "@");
    assert_eq!(lexer.next_token().token_type, TokenType::Eof);
}

#[test]
fn test_maximal_runs() {
    let mut lexer = Lexer::new(String::from("foo_bar838383"));
    let ident = lexer.next_token();
    assert_eq!(ident.token_type, TokenType::Ident);
    assert_eq!(ident.literal, "foo_bar");
    let number = lexer.next_token();
    assert_eq!(number.token_type, TokenType::Int);
    assert_eq!(number.literal, "838383");
    assert_eq!(lexer.next_token().token_type, TokenType::Eof);
}

#[test]
fn test_lookup_ident_keywords() {
    assert_eq!(lookup_ident("fn"), TokenType::Function);
    assert_eq!(lookup_ident("let"), TokenType::Let);
    assert_eq!(lookup_ident("return"), TokenType::Return);
    assert_eq!(lookup_ident("if"), TokenType::If);
    assert_eq!(lookup_ident("else"), TokenType::Else);
    assert_eq!(lookup_ident("true"), TokenType::True);
    assert_eq!(lookup_ident("false"), TokenType::False);
    assert_eq!(lookup_ident("foobar"), TokenType::Ident);
    assert_eq!(lookup_ident("lets"), TokenType::Ident);
    assert_eq!(lookup_ident(""), TokenType::Ident);
}

#[test]
fn test_is_letter_and_is_digit() {
    assert!(is_letter(b'a'));
    assert!(is_letter(b'z'));
    assert!(is_letter(b'A'));
    assert!(is_letter(b'Z'));
    assert!(is_letter(b'_'));
    assert!(!is_letter(b'0'));
    assert!(!is_letter(b' '));
    assert!(is_digit(b'0'));
    assert!(is_digit(b'9'));
    assert!(!is_digit(b'a'));
    assert!(!is_digit(b';'));
}

#[test]
fn test_ch_to_utf8_and_generate_new_token() {
    assert_eq!(ch_to_utf8(b'+'), "+");
    assert_eq!(ch_to_utf8(0), "\0");
    let token = generate_new_token(TokenType::Plus, b'+');
    assert_eq!(token.token_type, TokenType::Plus);
    assert_eq!(token.literal, "+");
}
