use monkey_rs::Token::{
    self, Assign, Asterisk, Bang, Comma, Else, False, Function, Ident, If, Illegal, Int,
    LBrace, LParen, Let, Minus, NotEq, Plus, RBrace, RParen, Return, Semicolon, Slash, True, GT,
    LT,
};
use monkey_rs::{look_up_ident, Lex, Lexer};

fn test_tokens(input: &str, expected_tokens: &[Token]) {
    let tokens: Vec<_> = input.tokens().collect();
    assert_eq!(tokens, expected_tokens);
}

fn ident(s: &str) -> Token {
    Ident(s.to_string())
}

#[test]
fn basic_tokens() {
    let input = "=+(){},;";
    let expected_tokens = &[Assign, Plus, LParen, RParen, LBrace, RBrace, Comma, Semicolon];
    test_tokens(input, expected_tokens);
}

#[test]
fn actual_source_code() {
    let input = "let five = 5;
let ten = 10;

let add = fn(x, y) {
    x + y;
};

let result = add(five, ten);";
    let expected_tokens = &[
        Let,
        ident("five"),
        Assign,
        Int(5),
        Semicolon,
        Let,
        ident("ten"),
        Assign,
        Int(10),
        Semicolon,
        Let,
        ident("add"),
        Assign,
        Function,
        LParen,
        ident("x"),
        Comma,
        ident("y"),
        RParen,
        LBrace,
        ident("x"),
        Plus,
        ident("y"),
        Semicolon,
        RBrace,
        Semicolon,
        Let,
        ident("result"),
        Assign,
        ident("add"),
        LParen,
        ident("five"),
        Comma,
        ident("ten"),
        RParen,
        Semicolon,
    ];
    test_tokens(input, expected_tokens);
}

#[test]
fn additionnal_tokens() {
    let input = "
!-/*5;
5 < 10 > 5;
        ";
    let expected_tokens = &[
        Bang, Minus, Slash, Asterisk, Int(5), Semicolon, Int(5), LT, Int(10), GT, Int(5),
        Semicolon,
    ];
    test_tokens(input, expected_tokens);
}

#[test]
fn if_statement_and_return() {
    let input = "
if (5 < 10) {
    return true;
} else {
    return false;
}
";
    let expected_tokens = &[
        If, LParen, Int(5), LT, Int(10), RParen, LBrace, Return, True, Semicolon, RBrace, Else,
        LBrace, Return, False, Semicolon, RBrace,
    ];
    test_tokens(input, expected_tokens);
}

#[test]
fn two_character_tokens() {
    let input = "
10 == 10;
10 != 9;
";
    let expected_tokens = &[
        Int(10), Token::Eq, Int(10), Semicolon, Int(10), NotEq, Int(9), Semicolon,
    ];
    test_tokens(input, expected_tokens);
}

#[test]
fn fixed_tokens_then_end() {
    let mut lexer = Lexer::new("=+(){},;");
    for expected in [Assign, Plus, LParen, RParen, LBrace, RBrace, Comma, Semicolon] {
        assert_eq!(lexer.next_token(), Some(expected));
    }
    assert_eq!(lexer.next_token(), None);
    assert_eq!(lexer.next_token(), None);
}

#[test]
fn keyword_and_identifier() {
    test_tokens("let five = 5;", &[Let, ident("five"), Assign, Int(5), Semicolon]);
}

#[test]
fn two_character_lookahead_one_line() {
    test_tokens(
        "10 == 10; 10 != 9;",
        &[Int(10), Token::Eq, Int(10), Semicolon, Int(10), NotEq, Int(9), Semicolon],
    );
}

#[test]
fn assign_and_bang_at_end() {
    test_tokens("=", &[Assign]);
    test_tokens("!", &[Bang]);
    test_tokens("= =", &[Assign, Assign]);
    test_tokens("!==", &[NotEq, Assign]);
}

#[test]
fn digit_run_is_one_token() {
    test_tokens("0", &[Int(0)]);
    test_tokens("007", &[Int(7)]);
    test_tokens("1234567890", &[Int(1234567890)]);
    test_tokens("18446744073709551615", &[Int(18446744073709551615)]);
}

#[test]
fn digit_run_too_large_is_illegal() {
    test_tokens("18446744073709551616", &[Illegal]);
    test_tokens("99999999999999999999999 1", &[Illegal, Int(1)]);
}

#[test]
fn digits_end_a_word() {
    test_tokens("abc123", &[ident("abc"), Int(123)]);
    test_tokens("1abc", &[Int(1), ident("abc")]);
    test_tokens("foo_bar", &[ident("foo"), Illegal, ident("bar")]);
}

#[test]
fn illegal_characters_do_not_stop_scanning() {
    test_tokens("@ x # 1 $", &[Illegal, ident("x"), Illegal, Int(1), Illegal]);
}

#[test]
fn unicode_letters_and_whitespace() {
    test_tokens("été\u{a0}京\u{3000}x", &[ident("été"), ident("京"), ident("x")]);
    test_tokens("💝", &[Illegal]);
}

#[test]
fn empty_and_blank_input() {
    test_tokens("", &[]);
    test_tokens(" \t\r\n  ", &[]);
}

#[test]
fn every_keyword() {
    assert_eq!(look_up_ident("fn"), Function);
    assert_eq!(look_up_ident("let"), Let);
    assert_eq!(look_up_ident("true"), True);
    assert_eq!(look_up_ident("false"), False);
    assert_eq!(look_up_ident("if"), If);
    assert_eq!(look_up_ident("else"), Else);
    assert_eq!(look_up_ident("return"), Return);
    assert_eq!(look_up_ident("lets"), ident("lets"));
    assert_eq!(look_up_ident("Let"), ident("Let"));
    assert_eq!(look_up_ident(""), ident(""));
}

#[test]
fn tokens_of_a_string() {
    let source = String::from("fn(a)");
    let tokens = source.tokens().collect();
    assert_eq!(tokens, vec![Function, LParen, ident("a"), RParen]);
}

#[test]
fn token_descriptions() {
    assert_eq!(Assign.describe(), "Assign");
    assert_eq!(ident("x").describe(), "Ident(\"x\")");
    assert_eq!(Int(0).describe(), "Int(0)");
    assert_eq!(Int(838383).describe(), "Int(838383)");
    assert_eq!(Int(18446744073709551615).describe(), "Int(18446744073709551615)");
}

#[test]
fn token_kinds() {
    assert!(ident("a").same_kind(&ident("")));
    assert!(Int(1).same_kind(&Int(2)));
    assert!(!Assign.same_kind(&Token::Eq));
    assert!(!ident("a").same_kind(&Let));
}
