use interpreter::lexer::Lexer;
use interpreter::token::{lookup_ident, Token};

fn lex_all(input: &str) -> Vec<Token> {
    let mut l = Lexer::new(input);
    let mut tokens = Vec::new();
    while let Some(tok) = l.next() {
        tokens.push(tok);
    }
    assert_eq!(l.next(), None);
    tokens
}

fn ident(text: &str) -> Token {
    Token::Ident(text.to_owned())
}

fn number(text: &str) -> Token {
    Token::Int(text.to_owned())
}

#[test]
fn symbols_map_one_for_one() {
    assert_eq!(
        lex_all(";,}{)(+="),
        vec![
            Token::Semicolon,
            Token::Comma,
            Token::RightBrace,
            Token::LeftBrace,
            Token::RightParen,
            Token::LeftParen,
            Token::Plus,
            Token::Assign,
        ]
    );
    assert_eq!(
        lex_all("=+=-*/<>!"),
        vec![
            Token::Assign,
            Token::Plus,
            Token::Assign,
            Token::Minus,
            Token::Asterisk,
            Token::Slash,
            Token::Less,
            Token::Greater,
            Token::Bang,
        ]
    );
}

#[test]
fn adjacent_equals_signs_pair_up() {
    assert_eq!(lex_all("=="), vec![Token::Equal]);
    assert_eq!(lex_all("==="), vec![Token::Equal, Token::Assign]);
    assert_eq!(lex_all("===="), vec![Token::Equal, Token::Equal]);
    assert_eq!(lex_all("!=="), vec![Token::NotEqual, Token::Assign]);
    assert_eq!(lex_all("=!="), vec![Token::Assign, Token::NotEqual]);
}

#[test]
fn blank_text_has_no_tokens() {
    assert_eq!(lex_all(""), vec![]);
    assert_eq!(lex_all(" "), vec![]);
    assert_eq!(lex_all("\t"), vec![]);
    assert_eq!(lex_all("\n"), vec![]);
    assert_eq!(lex_all("\r"), vec![]);
    assert_eq!(lex_all(" \t\r\n \n\n\t  \r"), vec![]);
}

#[test]
fn exhaustion_is_final() {
    let mut l = Lexer::new("x ");
    assert_eq!(l.next(), Some(ident("x")));
    for _ in 0..10 {
        assert_eq!(l.next(), None);
    }
    let mut empty = Lexer::new("");
    for _ in 0..10 {
        assert_eq!(empty.next(), None);
    }
}

#[test]
fn digits_are_one_literal() {
    assert_eq!(lex_all("0"), vec![number("0")]);
    assert_eq!(lex_all("5"), vec![number("5")]);
    assert_eq!(lex_all("007"), vec![number("007")]);
    assert_eq!(lex_all("1234567890"), vec![number("1234567890")]);
    assert_eq!(
        lex_all("340282366920938463463374607431768211456000"),
        vec![number("340282366920938463463374607431768211456000")]
    );
}

#[test]
fn keywords_take_precedence() {
    assert_eq!(lex_all("fn"), vec![Token::Function]);
    assert_eq!(lex_all("let"), vec![Token::Let]);
    assert_eq!(lex_all("true"), vec![Token::True]);
    assert_eq!(lex_all("false"), vec![Token::False]);
    assert_eq!(lex_all("if"), vec![Token::If]);
    assert_eq!(lex_all("else"), vec![Token::Else]);
    assert_eq!(lex_all("return"), vec![Token::Return]);
}

#[test]
fn keywords_match_the_whole_run() {
    assert_eq!(lex_all("fnx"), vec![ident("fnx")]);
    assert_eq!(lex_all("letter"), vec![ident("letter")]);
    assert_eq!(lex_all("iffy"), vec![ident("iffy")]);
    assert_eq!(lex_all("_return"), vec![ident("_return")]);
    assert_eq!(lex_all("Let"), vec![ident("Let")]);
    assert_eq!(lex_all("TRUE"), vec![ident("TRUE")]);
    assert_eq!(lex_all("elsefalse"), vec![ident("elsefalse")]);
    assert_eq!(lex_all("if(else)"), vec![
        Token::If,
        Token::LeftParen,
        Token::Else,
        Token::RightParen,
    ]);
}

#[test]
fn lookup_ident_is_the_keyword_table() {
    assert_eq!(lookup_ident("fn"), Token::Function);
    assert_eq!(lookup_ident("let"), Token::Let);
    assert_eq!(lookup_ident("true"), Token::True);
    assert_eq!(lookup_ident("false"), Token::False);
    assert_eq!(lookup_ident("if"), Token::If);
    assert_eq!(lookup_ident("else"), Token::Else);
    assert_eq!(lookup_ident("return"), Token::Return);
    assert_eq!(lookup_ident("foobar"), ident("foobar"));
    assert_eq!(lookup_ident("f"), ident("f"));
    assert_eq!(lookup_ident("fn "), ident("fn "));
    assert_eq!(lookup_ident(""), ident(""));
    assert_eq!(lookup_ident("retur"), ident("retur"));
    assert_eq!(lookup_ident("returns"), ident("returns"));
}

#[test]
fn two_character_operators_are_greedy() {
    assert_eq!(lex_all("=="), vec![Token::Equal]);
    assert_eq!(lex_all("!="), vec![Token::NotEqual]);
    assert_eq!(lex_all("="), vec![Token::Assign]);
    assert_eq!(lex_all("!"), vec![Token::Bang]);
    assert_eq!(lex_all("= ="), vec![Token::Assign, Token::Assign]);
    assert_eq!(lex_all("! ="), vec![Token::Bang, Token::Assign]);
    assert_eq!(lex_all("=!"), vec![Token::Assign, Token::Bang]);
    assert_eq!(lex_all("!!"), vec![Token::Bang, Token::Bang]);
    assert_eq!(lex_all("a==b"), vec![ident("a"), Token::Equal, ident("b")]);
    assert_eq!(lex_all("a!=b"), vec![ident("a"), Token::NotEqual, ident("b")]);
    assert_eq!(lex_all("a=b"), vec![ident("a"), Token::Assign, ident("b")]);
    assert_eq!(lex_all("!a"), vec![Token::Bang, ident("a")]);
}

#[test]
fn let_statement() {
    assert_eq!(
        lex_all("let five = 5;"),
        vec![Token::Let, ident("five"), Token::Assign, number("5"), Token::Semicolon]
    );
}

#[test]
fn comparisons_on_two_lines() {
    assert_eq!(
        lex_all("10 == 10;\n10 != 9;"),
        vec![
            number("10"),
            Token::Equal,
            number("10"),
            Token::Semicolon,
            number("10"),
            Token::NotEqual,
            number("9"),
            Token::Semicolon,
        ]
    );
}

#[test]
fn operators_without_spaces() {
    assert_eq!(
        lex_all("!-/*5;"),
        vec![
            Token::Bang,
            Token::Minus,
            Token::Slash,
            Token::Asterisk,
            number("5"),
            Token::Semicolon,
        ]
    );
}

#[test]
fn illegal_character_is_marked() {
    let mut l = Lexer::new("@");
    assert_eq!(l.next(), Some(Token::Illegal));
    assert_eq!(l.next(), None);
    assert_eq!(l.next(), None);
}

#[test]
fn lexing_goes_on_behind_an_illegal_character() {
    assert_eq!(
        lex_all("a @ b#1"),
        vec![ident("a"), Token::Illegal, ident("b"), Token::Illegal, number("1")]
    );
    assert_eq!(lex_all("$$"), vec![Token::Illegal, Token::Illegal]);
}

#[test]
fn digits_do_not_continue_an_identifier() {
    assert_eq!(lex_all("x1"), vec![ident("x"), number("1")]);
    assert_eq!(lex_all("1x"), vec![number("1"), ident("x")]);
    assert_eq!(lex_all("foo_bar9baz"), vec![ident("foo_bar"), number("9"), ident("baz")]);
}

#[test]
fn underscore_counts_as_a_letter() {
    assert_eq!(lex_all("_"), vec![ident("_")]);
    assert_eq!(lex_all("__a__"), vec![ident("__a__")]);
    assert_eq!(lex_all("a_b c"), vec![ident("a_b"), ident("c")]);
}

#[test]
fn other_control_characters_are_no_spaces() {
    assert_eq!(lex_all("\u{b}"), vec![Token::Illegal]);
    assert_eq!(lex_all("a\u{c}b"), vec![ident("a"), Token::Illegal, ident("b")]);
}

#[test]
fn each_byte_of_a_wide_character_is_illegal() {
    assert_eq!(lex_all("\u{e9}"), vec![Token::Illegal, Token::Illegal]);
    assert_eq!(
        lex_all("a\u{20ac}1"),
        vec![ident("a"), Token::Illegal, Token::Illegal, Token::Illegal, number("1")]
    );
}

#[test]
fn nul_ends_the_stream() {
    assert_eq!(lex_all("\0"), vec![]);
    assert_eq!(lex_all("ab\0cd"), vec![ident("ab")]);
    assert_eq!(lex_all("1 = \0 2"), vec![number("1"), Token::Assign]);
    assert_eq!(lex_all("=\0="), vec![Token::Assign]);
}

#[test]
fn trailing_token_without_terminator() {
    assert_eq!(lex_all("return x"), vec![Token::Return, ident("x")]);
    assert_eq!(lex_all("x ="), vec![ident("x"), Token::Assign]);
    assert_eq!(lex_all("  42"), vec![number("42")]);
    assert_eq!(lex_all("42  "), vec![number("42")]);
}

#[test]
fn next_token_and_next_take_the_same_steps() {
    let mut a = Lexer::new("if (x != 10) { return !y; }");
    let mut b = Lexer::new("if (x != 10) { return !y; }");
    let expected = vec![
        Token::If,
        Token::LeftParen,
        ident("x"),
        Token::NotEqual,
        number("10"),
        Token::RightParen,
        Token::LeftBrace,
        Token::Return,
        Token::Bang,
        ident("y"),
        Token::Semicolon,
        Token::RightBrace,
    ];
    for tok in expected {
        let by_next_token = a.next_token();
        assert_eq!(by_next_token, b.next());
        assert_eq!(by_next_token, Some(tok));
    }
    assert_eq!(a.next_token(), None);
    assert_eq!(b.next(), None);
    assert_eq!(a.next(), None);
    assert_eq!(b.next_token(), None);
}

#[test]
fn equality_operators_lead_the_rest_of_the_text() {
    for rest in ["", " ", "x", "== 1", "!x", "\u{e9}", "=", "5;"] {
        let behind = lex_all(rest);
        let mut equal = vec![Token::Equal];
        equal.extend(lex_all(rest));
        assert_eq!(lex_all(&format!("=={rest}")), equal);
        let mut not_equal = vec![Token::NotEqual];
        not_equal.extend(lex_all(rest));
        assert_eq!(lex_all(&format!("!={rest}")), not_equal);
        if !rest.starts_with('=') {
            let mut assign = vec![Token::Assign];
            assign.extend(lex_all(rest));
            assert_eq!(lex_all(&format!("={rest}")), assign);
            let mut bang = vec![Token::Bang];
            bang.extend(lex_all(rest));
            assert_eq!(lex_all(&format!("!{rest}")), bang);
        }
        assert_eq!(behind, lex_all(rest));
    }
}

#[test]
fn tokens_behind_a_prefix_are_those_of_the_rest() {
    let mut l = Lexer::new("let x = 5; return x");
    for _ in 0..5 {
        assert!(l.next_token().is_some());
    }
    assert_eq!(l.next_token(), Some(Token::Return));
    assert_eq!(l.next_token(), Some(ident("x")));
    assert_eq!(l.next_token(), None);
    assert_eq!(lex_all(" return x"), vec![Token::Return, ident("x")]);
}

#[test]
fn never_more_tokens_than_bytes() {
    for text in ["", "a", "=+(){},;", "== != = !", "@#$", "let five = 5;", "\u{20ac}\u{e9}", "1 2 3"] {
        assert!(lex_all(text).len() <= text.len());
    }
    assert_eq!(lex_all("@#$").len(), 3);
    assert_eq!(lex_all("\u{20ac}").len(), 3);
}
