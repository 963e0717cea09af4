//! Tokens and the keyword table.

use crate::grammar::keyword_or_ident;
use vstd::prelude::*;
use vstd::string::StringSliceAdditionalSpecFns;
use vstd::utf8::encode_utf8_decode_utf8;

verus! {

/// A classified, indivisible unit of source text.
#[derive(PartialEq, Debug)]
pub enum Token {
    Illegal,
    /// An identifier: a run of ASCII letters and underscores that is no keyword.
    Ident(String),
    /// An integer literal, kept as the digits that were written.
    Int(String),
    Assign,
    Bang,
    Plus,
    Minus,
    Asterisk,
    Slash,
    Less,
    Greater,
    Equal,
    NotEqual,
    Comma,
    Semicolon,
    LeftParen,
    RightParen,
    LeftBrace,
    RightBrace,
    Function,
    Let,
    True,
    False,
    If,
    Else,
    Return,
}

/// The mathematical value of a `Token`: the same variants, with the carried
/// text as a sequence of characters.
pub ghost enum TokenView {
    Illegal,
    Ident(Seq<char>),
    Int(Seq<char>),
    Assign,
    Bang,
    Plus,
    Minus,
    Asterisk,
    Slash,
    Less,
    Greater,
    Equal,
    NotEqual,
    Comma,
    Semicolon,
    LeftParen,
    RightParen,
    LeftBrace,
    RightBrace,
    Function,
    Let,
    True,
    False,
    If,
    Else,
    Return,
}

impl View for Token {
    type V = TokenView;

    open spec fn view(&self) -> TokenView {
        match self {
            Token::Illegal => TokenView::Illegal,
            Token::Ident(s) => TokenView::Ident(s@),
            Token::Int(s) => TokenView::Int(s@),
            Token::Assign => TokenView::Assign,
            Token::Bang => TokenView::Bang,
            Token::Plus => TokenView::Plus,
            Token::Minus => TokenView::Minus,
            Token::Asterisk => TokenView::Asterisk,
            Token::Slash => TokenView::Slash,
            Token::Less => TokenView::Less,
            Token::Greater => TokenView::Greater,
            Token::Equal => TokenView::Equal,
            Token::NotEqual => TokenView::NotEqual,
            Token::Comma => TokenView::Comma,
            Token::Semicolon => TokenView::Semicolon,
            Token::LeftParen => TokenView::LeftParen,
            Token::RightParen => TokenView::RightParen,
            Token::LeftBrace => TokenView::LeftBrace,
            Token::RightBrace => TokenView::RightBrace,
            Token::Function => TokenView::Function,
            Token::Let => TokenView::Let,
            Token::True => TokenView::True,
            Token::False => TokenView::False,
            Token::If => TokenView::If,
            Token::Else => TokenView::Else,
            Token::Return => TokenView::Return,
        }
    }
}

/// Whether two byte strings are the same.
fn same_bytes(a: &[u8], b: &[u8]) -> (same: bool)
    ensures
        same == (a@ == b@),
{
    if a.len() != b.len() {
        return false;
    }
    let mut i: usize = 0;
    while i < a.len()
        invariant
            a@.len() == b@.len(),
            i <= a@.len(),
            forall|k: int| 0 <= k < i ==> a@[k] == b@[k],
        decreases a@.len() - i,
    {
        if a[i] != b[i] {
            return false;
        }
        i += 1;
    }
    assert(a@ =~= b@);
    true
}

/// Whether `text` is spelled exactly as `word`.
fn spelled(text: &str, word: &str) -> (same: bool)
    ensures
        same == (text@ == word@),
{
    let same = same_bytes(text.as_bytes(), word.as_bytes());
    proof {
        // Two texts with the same encoding are the same text.
        encode_utf8_decode_utf8(text@);
        encode_utf8_decode_utf8(word@);
    }
    same
}

/// The keyword table: the keyword that `ident` spells, or else an identifier
/// that carries `ident`.
pub fn lookup_ident(ident: &str) -> (tok: Token)
    ensures
        tok@ == keyword_or_ident(ident@),
{
    proof {
        reveal_strlit("fn");
        reveal_strlit("let");
        reveal_strlit("true");
        reveal_strlit("false");
        reveal_strlit("if");
        reveal_strlit("else");
        reveal_strlit("return");
        assert("fn"@ =~= seq!['f', 'n']);
        assert("let"@ =~= seq!['l', 'e', 't']);
        assert("true"@ =~= seq!['t', 'r', 'u', 'e']);
        assert("false"@ =~= seq!['f', 'a', 'l', 's', 'e']);
        assert("if"@ =~= seq!['i', 'f']);
        assert("else"@ =~= seq!['e', 'l', 's', 'e']);
        assert("return"@ =~= seq!['r', 'e', 't', 'u', 'r', 'n']);
    }
    if spelled(ident, "fn") {
        Token::Function
    } else if spelled(ident, "let") {
        Token::Let
    } else if spelled(ident, "true") {
        Token::True
    } else if spelled(ident, "false") {
        Token::False
    } else if spelled(ident, "if") {
        Token::If
    } else if spelled(ident, "else") {
        Token::Else
    } else if spelled(ident, "return") {
        Token::Return
    } else {
        Token::Ident(ident.to_owned())
    }
}

} // verus!
