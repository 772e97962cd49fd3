use kl_rs::lexer::{tokenize, Lexer};
use kl_rs::token::{Token, TokenType};

fn ident(name: &str) -> Token {
    Token::Identifier(name.to_string())
}

fn number(digits: &str) -> Token {
    Token::Int(digits.to_string())
}

#[test]
fn tokenize_ends_with_exactly_one_end_of_input() {
    assert_eq!(tokenize("".to_string()), vec![Token::Eof]);
    assert_eq!(tokenize("   \n\t ".to_string()), vec![Token::Eof]);
    assert_eq!(
        tokenize("let x = 5;".to_string()),
        vec![
            Token::Let,
            ident("x"),
            Token::Assign,
            number("5"),
            Token::Semicolon,
            Token::Eof
        ]
    );
}

#[test]
fn next_token_keeps_returning_end_of_input() {
    let mut lexer = Lexer::new("a".to_string());
    assert_eq!(lexer.next_token(), ident("a"));
    assert_eq!(lexer.next_token(), Token::Eof);
    assert_eq!(lexer.next_token(), Token::Eof);
    assert_eq!(lexer.next_token(), Token::Eof);
}

#[test]
fn two_character_operators_need_one_character_of_lookahead() {
    assert_eq!(
        tokenize("== != = ! =! !== ===".to_string()),
        vec![
            Token::Equals,
            Token::NotEquals,
            Token::Assign,
            Token::Bang,
            Token::Assign,
            Token::Bang,
            Token::NotEquals,
            Token::Assign,
            Token::Equals,
            Token::Assign,
            Token::Eof
        ]
    );
}

#[test]
fn brackets_are_tokens() {
    assert_eq!(
        tokenize("[1,2]".to_string()),
        vec![
            Token::LeftBracket,
            number("1"),
            Token::Comma,
            number("2"),
            Token::RightBracket,
            Token::Eof
        ]
    );
}

#[test]
fn identifiers_hold_letters_only() {
    assert_eq!(
        tokenize("foo1bar".to_string()),
        vec![ident("foo"), number("1"), ident("bar"), Token::Eof]
    );
    assert_eq!(
        tokenize("a_b".to_string()),
        vec![ident("a"), Token::Illegal, ident("b"), Token::Eof]
    );
    assert_eq!(
        tokenize("lettuce iffy FN".to_string()),
        vec![ident("lettuce"), ident("iffy"), ident("FN"), Token::Eof]
    );
}

#[test]
fn integers_are_kept_as_text() {
    assert_eq!(
        tokenize("007 99999999999999999999".to_string()),
        vec![number("007"), number("99999999999999999999"), Token::Eof]
    );
}

#[test]
fn strings_are_taken_verbatim() {
    assert_eq!(
        tokenize("\"a\\n b\" x".to_string()),
        vec![Token::String("a\\n b".to_string()), ident("x"), Token::Eof]
    );
    assert_eq!(
        tokenize("\"\"".to_string()),
        vec![Token::String("".to_string()), Token::Eof]
    );
}

#[test]
fn an_unterminated_string_runs_to_the_end_of_the_input() {
    assert_eq!(
        tokenize("\"abc 1 +".to_string()),
        vec![Token::String("abc 1 +".to_string()), Token::Eof]
    );
    assert_eq!(
        tokenize("\"".to_string()),
        vec![Token::String("".to_string()), Token::Eof]
    );
}

#[test]
fn comments_are_skipped() {
    assert_eq!(
        tokenize("1 /* two */ 3 /**/ 4".to_string()),
        vec![number("1"), number("3"), number("4"), Token::Eof]
    );
    assert_eq!(
        tokenize("/* a */ /* b */x".to_string()),
        vec![ident("x"), Token::Eof]
    );
    assert_eq!(
        tokenize("a /* * / ** */ b".to_string()),
        vec![ident("a"), ident("b"), Token::Eof]
    );
}

#[test]
fn an_unterminated_comment_runs_to_the_end_of_the_input() {
    assert_eq!(
        tokenize("1 /* never closed".to_string()),
        vec![number("1"), Token::Eof]
    );
    assert_eq!(tokenize("/*".to_string()), vec![Token::Eof]);
    assert_eq!(tokenize("/*/".to_string()), vec![Token::Eof]);
    assert_eq!(tokenize("/**".to_string()), vec![Token::Eof]);
}

#[test]
fn a_slash_is_a_slash_unless_a_star_follows() {
    assert_eq!(
        tokenize("4 / 2 /".to_string()),
        vec![number("4"), Token::Slash, number("2"), Token::Slash, Token::Eof]
    );
}

#[test]
fn unknown_characters_are_illegal_tokens() {
    assert_eq!(
        tokenize("@ # é 1".to_string()),
        vec![
            Token::Illegal,
            Token::Illegal,
            Token::Illegal,
            number("1"),
            Token::Eof
        ]
    );
}

#[test]
fn whitespace_of_every_kind_is_skipped() {
    assert_eq!(
        tokenize("\u{a0}1\u{2003}+\u{3000}2\r\n".to_string()),
        vec![number("1"), Token::Plus, number("2"), Token::Eof]
    );
}

#[test]
fn positions_count_characters_not_bytes() {
    assert_eq!(
        tokenize("\"héllo\" é\"ü\" x".to_string()),
        vec![
            Token::String("héllo".to_string()),
            Token::Illegal,
            Token::String("ü".to_string()),
            ident("x"),
            Token::Eof
        ]
    );
}

#[test]
fn token_type_names_the_kind() {
    assert_eq!(ident("x").token_type(), TokenType::Identifier);
    assert_eq!(number("1").token_type(), TokenType::Int);
    assert_eq!(Token::String("s".to_string()).token_type(), TokenType::String);
    assert_eq!(Token::Eof.token_type(), TokenType::Eof);
    assert_eq!(Token::LeftParentesis.token_type(), TokenType::LeftParentesis);
    assert_eq!(Token::Return.token_type(), TokenType::Return);
}

#[test]
fn a_copy_of_a_token_equals_it() {
    let tokens = tokenize("let x = \"s\" + 12;".to_string());
    for token in tokens.iter() {
        assert_eq!(token.duplicate(), *token);
        assert_eq!(token.clone(), *token);
    }
}
