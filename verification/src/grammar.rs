//! The token grammar, as mathematics on byte sequences.
//!
//! Nothing here is executable: `lex` says which tokens a source text holds,
//! and the tokenizer is proved against it.

use crate::token::TokenView;
use vstd::prelude::*;
use vstd::utf8::encode_utf8;

verus! {

/// The three kinds of character that form runs.
pub enum CharClass {
    /// Space, tab, line feed and carriage return.
    Space,
    /// The ASCII digits.
    Digit,
    /// The ASCII letters and the underscore.
    Letter,
}

pub open spec fn is_space(c: char) -> bool {
    c == ' ' || c == '\t' || c == '\n' || c == '\r'
}

pub open spec fn is_digit(c: char) -> bool {
    '0' <= c <= '9'
}

pub open spec fn is_letter(c: char) -> bool {
    'a' <= c <= 'z' || 'A' <= c <= 'Z' || c == '_'
}

pub open spec fn in_class(class: CharClass, c: char) -> bool {
    match class {
        CharClass::Space => is_space(c),
        CharClass::Digit => is_digit(c),
        CharClass::Letter => is_letter(c),
    }
}

/// The character under a cursor at index `i`: the byte there, read as a
/// character of the same number, and NUL outside the text.
pub open spec fn char_at(s: Seq<u8>, i: int) -> char {
    if 0 <= i < s.len() {
        s[i] as char
    } else {
        '\0'
    }
}

/// Whether the stream ends at `i`: the text is used up, or a NUL byte stands there.
pub open spec fn at_end(s: Seq<u8>, i: int) -> bool {
    char_at(s, i) == '\0'
}

/// The length of the longest run of `class` characters that starts at `i`.
pub open spec fn run_len(s: Seq<u8>, i: int, class: CharClass) -> nat
    decreases s.len() - i,
{
    if 0 <= i < s.len() && in_class(class, s[i] as char) {
        1 + run_len(s, i + 1, class)
    } else {
        0
    }
}

/// The bytes of `s` from `from` up to `to`, read as characters one for one.
pub open spec fn span_text(s: Seq<u8>, from: int, to: int) -> Seq<char> {
    Seq::new((to - from) as nat, |k: int| s[from + k] as char)
}

/// The keyword table: the token that a reserved spelling stands for.
pub open spec fn keyword(text: Seq<char>) -> Option<TokenView> {
    if text =~= seq!['f', 'n'] {
        Some(TokenView::Function)
    } else if text =~= seq!['l', 'e', 't'] {
        Some(TokenView::Let)
    } else if text =~= seq!['t', 'r', 'u', 'e'] {
        Some(TokenView::True)
    } else if text =~= seq!['f', 'a', 'l', 's', 'e'] {
        Some(TokenView::False)
    } else if text =~= seq!['i', 'f'] {
        Some(TokenView::If)
    } else if text =~= seq!['e', 'l', 's', 'e'] {
        Some(TokenView::Else)
    } else if text =~= seq!['r', 'e', 't', 'u', 'r', 'n'] {
        Some(TokenView::Return)
    } else {
        None
    }
}

/// The token of a run of letters: its keyword where the run spells one,
/// and else an identifier that carries the run.
pub open spec fn keyword_or_ident(text: Seq<char>) -> TokenView {
    match keyword(text) {
        Some(reserved) => reserved,
        None => TokenView::Ident(text),
    }
}

/// The token of a symbol that always stands alone.
pub open spec fn single_symbol(c: char) -> Option<TokenView> {
    if c == '+' {
        Some(TokenView::Plus)
    } else if c == '-' {
        Some(TokenView::Minus)
    } else if c == '*' {
        Some(TokenView::Asterisk)
    } else if c == '/' {
        Some(TokenView::Slash)
    } else if c == '<' {
        Some(TokenView::Less)
    } else if c == '>' {
        Some(TokenView::Greater)
    } else if c == ',' {
        Some(TokenView::Comma)
    } else if c == ';' {
        Some(TokenView::Semicolon)
    } else if c == '(' {
        Some(TokenView::LeftParen)
    } else if c == ')' {
        Some(TokenView::RightParen)
    } else if c == '{' {
        Some(TokenView::LeftBrace)
    } else if c == '}' {
        Some(TokenView::RightBrace)
    } else {
        None
    }
}

/// How many bytes the token that starts at `i` takes: two for `==` and `!=`,
/// the whole run for digits and for letters, one for anything else.
pub open spec fn token_len(s: Seq<u8>, i: int) -> nat {
    let c = char_at(s, i);
    if (c == '=' || c == '!') && char_at(s, i + 1) == '=' {
        2
    } else if is_digit(c) {
        1 + run_len(s, i + 1, CharClass::Digit)
    } else if is_letter(c) {
        1 + run_len(s, i + 1, CharClass::Letter)
    } else {
        1
    }
}

/// The token that starts at `i`, where `i` is neither at a space nor at the end.
pub open spec fn token_at(s: Seq<u8>, i: int) -> TokenView {
    let c = char_at(s, i);
    let two = char_at(s, i + 1) == '=';
    if c == '=' {
        if two {
            TokenView::Equal
        } else {
            TokenView::Assign
        }
    } else if c == '!' {
        if two {
            TokenView::NotEqual
        } else {
            TokenView::Bang
        }
    } else if is_digit(c) {
        TokenView::Int(span_text(s, i, i + token_len(s, i)))
    } else if is_letter(c) {
        keyword_or_ident(span_text(s, i, i + token_len(s, i)))
    } else {
        match single_symbol(c) {
            Some(t) => t,
            None => TokenView::Illegal,
        }
    }
}

/// Where the next token starts when the cursor is at `i`: behind the spaces.
pub open spec fn token_start(s: Seq<u8>, i: int) -> int {
    i + run_len(s, i, CharClass::Space)
}

/// The tokens of `s` from index `i` on.
pub open spec fn tokens_from(s: Seq<u8>, i: int) -> Seq<TokenView>
    decreases
        if i <= s.len() {
            s.len() - i
        } else {
            0
        },
{
    let start = token_start(s, i);
    if i < 0 || at_end(s, start) {
        Seq::empty()
    } else {
        seq![token_at(s, start)] + tokens_from(s, start + token_len(s, start))
    }
}

/// The token stream of a source text given as bytes.
pub open spec fn lex(s: Seq<u8>) -> Seq<TokenView> {
    tokens_from(s, 0)
}

/// The token stream of a source text: that of its UTF-8 encoding.
pub open spec fn lex_text(text: Seq<char>) -> Seq<TokenView> {
    lex(encode_utf8(text))
}

} // verus!
