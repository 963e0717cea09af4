//! The streaming tokenizer.

use crate::grammar::{
    at_end, char_at, is_digit, is_letter, lex_text, run_len, span_text, token_at, token_len,
    token_start, tokens_from, CharClass,
};
use crate::laws::{
    is_blank, is_digits, is_separate_symbols, lemma_blank_text_has_no_tokens,
    lemma_digit_text_is_one_literal, lemma_exhaustion_is_final, lemma_pending_unfolds,
    lemma_symbol_text_maps_one_for_one, symbol_token,
};
use crate::token::{lookup_ident, Token, TokenView};
use vstd::prelude::*;
use vstd::slice::{slice_subrange, slice_to_vec};
use vstd::string::StrSliceExecFns;
use vstd::utf8::{
    decode_utf8, encode_utf8, encode_utf8_decode_utf8, encode_utf8_valid_utf8, is_ascii_chars,
    is_ascii_chars_encode_utf8, valid_utf8,
};

verus! {

/// `String::from_utf8` of std: the text that `bytes` encode in UTF-8, and
/// `None` exactly where they encode none.
#[verifier::external_body]
fn string_from_utf8(bytes: Vec<u8>) -> (text: Option<String>)
    ensures
        text is Some <==> valid_utf8(bytes@),
        text matches Some(t) ==> t@ == decode_utf8(bytes@),
{
    match String::from_utf8(bytes) {
        Ok(text) => Some(text),
        Err(_) => None,
    }
}

/// Bytes below 128 encode, one for one, the characters of the same numbers.
proof fn lemma_ascii_bytes_decode(bytes: Seq<u8>)
    requires
        forall|k: int| 0 <= k < bytes.len() ==> bytes[k] < 128,
    ensures
        valid_utf8(bytes),
        decode_utf8(bytes) == span_text(bytes, 0, bytes.len() as int),
{
    let chars = span_text(bytes, 0, bytes.len() as int);
    assert(is_ascii_chars(chars));
    is_ascii_chars_encode_utf8(chars);
    assert(encode_utf8(chars) =~= bytes);
    encode_utf8_valid_utf8(chars);
    encode_utf8_decode_utf8(chars);
}

fn is_digit_char(c: char) -> (r: bool)
    ensures
        r == is_digit(c),
{
    '0' <= c && c <= '9'
}

fn is_letter_char(c: char) -> (r: bool)
    ensures
        r == is_letter(c),
{
    ('a' <= c && c <= 'z') || ('A' <= c && c <= 'Z') || c == '_'
}

/// A single-pass tokenizer over one source text.
///
/// It owns the text as bytes, with a cursor on the character under
/// examination; each call of `next` moves the cursor forward past one token.
pub struct Lexer {
    input: Vec<u8>,
    /// Index of the character under examination.
    position: usize,
    /// Index of the character behind it.
    read_position: usize,
    /// The character under examination, NUL once the text is used up.
    ch: char,
}

/// What a `Lexer` stands for: the text it reads and how far it has read.
pub ghost struct LexerView {
    pub source: Seq<u8>,
    pub offset: nat,
}

impl LexerView {
    /// Where the next token starts: behind the spaces under the cursor.
    pub open spec fn start(self) -> int {
        token_start(self.source, self.offset as int)
    }

    /// Whether no token is left: behind the spaces the text ends, or a NUL stands.
    pub open spec fn exhausted(self) -> bool {
        at_end(self.source, self.start())
    }

    /// The token that the next call yields, `None` where none is left.
    pub open spec fn first(self) -> Option<TokenView> {
        if self.exhausted() {
            None
        } else {
            Some(token_at(self.source, self.start()))
        }
    }

    /// The state after the next call: the cursor stands behind the token
    /// that was yielded, or, where none was left, behind the spaces.
    pub open spec fn advance(self) -> LexerView {
        let end = if self.exhausted() {
            self.start()
        } else {
            self.start() + token_len(self.source, self.start())
        };
        LexerView { source: self.source, offset: end as nat }
    }

    /// The tokens that are still to come.
    pub open spec fn pending(self) -> Seq<TokenView> {
        tokens_from(self.source, self.offset as int)
    }
}

impl View for Lexer {
    type V = LexerView;

    closed spec fn view(&self) -> LexerView {
        LexerView { source: self.input@, offset: self.position as nat }
    }
}

impl Lexer {
    /// Every byte of the text has an index, the look-ahead index is one
    /// behind the cursor, and `ch` is the character under the cursor: NUL
    /// where the cursor has left the text.
    pub closed spec fn wf(&self) -> bool {
        &&& self.input@.len() <= usize::MAX
        &&& self.read_position == if self.position < usize::MAX {
            self.position + 1
        } else {
            self.position as int
        }
        &&& self.ch == char_at(self.input@, self.position as int)
    }

    /// A tokenizer at the start of `input`: the tokens to come are those of
    /// the whole text.
    ///
    /// A blank text holds none, a text of digits is one integer literal
    /// that carries it as written, and a text of operators and delimiters,
    /// none of them `==` or `!=`, holds one token for each character.
    pub fn new(input: &str) -> (l: Lexer)
        ensures
            l.wf(),
            l@ == (LexerView { source: encode_utf8(input@), offset: 0 }),
            l@.pending() == lex_text(input@),
            is_blank(input@) ==> l@.pending() == Seq::<TokenView>::empty(),
            is_digits(input@) ==> l@.pending() == seq![TokenView::Int(input@)],
            is_separate_symbols(input@) ==> l@.pending() == input@.map_values(
                |c: char| symbol_token(c),
            ),
    {
        proof {
            if is_blank(input@) {
                lemma_blank_text_has_no_tokens(input@);
            }
            if is_digits(input@) {
                lemma_digit_text_is_one_literal(input@);
            }
            if is_separate_symbols(input@) {
                lemma_symbol_text_maps_one_for_one(input@);
            }
        }
        let mut l = Lexer { input: input.as_bytes_vec(), position: 0, read_position: 0, ch: '\0' };
        l.read_char();
        l
    }

    /// Skips spaces, tabs, line feeds and carriage returns, then yields the
    /// token under the cursor and moves behind it.
    ///
    /// The token is the first of those still to come. Where none is to
    /// come the result is `None`, and from then on every call yields `None`
    /// and leaves the state as it is.
    pub fn next_token(&mut self) -> (tok: Option<Token>)
        requires
            old(self).wf(),
        ensures
            final(self).wf(),
            final(self)@ == old(self)@.advance(),
            tok is Some <==> old(self)@.first() is Some,
            tok matches Some(t) ==> ({
                &&& old(self)@.first() == Some(t@)
                &&& old(self)@.pending().len() > 0
                &&& old(self)@.pending()[0] == t@
                &&& final(self)@.pending() == old(self)@.pending().skip(1)
            }),
            tok is None ==> ({
                &&& old(self)@.pending().len() == 0
                &&& final(self)@.pending().len() == 0
                &&& final(self)@.first() is None
                &&& final(self)@.advance() == final(self)@
            }),
    {
        proof {
            lemma_pending_unfolds(old(self)@);
            if old(self)@.first() is None {
                lemma_exhaustion_is_final(old(self)@);
            } else {
                assert(old(self)@.advance().pending() =~= old(self)@.pending().skip(1));
            }
        }
        self.skip_whitespace();
        let tok = match (self.ch, self.peek_char()) {
            ('=', '=') => {
                self.read_char();
                Token::Equal
            },
            ('=', _) => Token::Assign,
            ('!', '=') => {
                self.read_char();
                Token::NotEqual
            },
            ('!', _) => Token::Bang,
            ('+', _) => Token::Plus,
            ('-', _) => Token::Minus,
            ('*', _) => Token::Asterisk,
            ('/', _) => Token::Slash,
            ('<', _) => Token::Less,
            ('>', _) => Token::Greater,
            (',', _) => Token::Comma,
            (';', _) => Token::Semicolon,
            ('(', _) => Token::LeftParen,
            (')', _) => Token::RightParen,
            ('{', _) => Token::LeftBrace,
            ('}', _) => Token::RightBrace,
            ('0'..='9', _) => {
                return Some(
                    match self.read_number() {
                        Some(num) => Token::Int(num),
                        None => Token::Illegal,
                    },
                );
            },
            ('a'..='z', _) | ('A'..='Z', _) | ('_', _) => {
                return Some(
                    match self.read_identifier() {
                        Some(ident) => lookup_ident(ident.as_str()),
                        None => Token::Illegal,
                    },
                );
            },
            ('\0', _) => return None,
            _ => Token::Illegal,
        };
        self.read_char();
        Some(tok)
    }

    /// The next token of the text, and `None` once no token is left: one
    /// step of the stream, as `next_token` takes it.
    pub fn next(&mut self) -> (tok: Option<Token>)
        requires
            old(self).wf(),
        ensures
            final(self).wf(),
            final(self)@ == old(self)@.advance(),
            tok is Some <==> old(self)@.first() is Some,
            tok matches Some(t) ==> ({
                &&& old(self)@.first() == Some(t@)
                &&& old(self)@.pending().len() > 0
                &&& old(self)@.pending()[0] == t@
                &&& final(self)@.pending() == old(self)@.pending().skip(1)
            }),
            tok is None ==> ({
                &&& old(self)@.pending().len() == 0
                &&& final(self)@.pending().len() == 0
                &&& final(self)@.first() is None
                &&& final(self)@.advance() == final(self)@
            }),
    {
        self.next_token()
    }

    /// The character at `index`, NUL outside the text.
    fn char_or_nul(&self, index: usize) -> (c: char)
        ensures
            c == char_at(self.input@, index as int),
    {
        if index < self.input.len() {
            self.input[index] as char
        } else {
            '\0'
        }
    }

    /// Moves the cursor to the look-ahead index and loads the character
    /// there: NUL at the end of the text and anywhere behind it.
    fn read_char(&mut self)
        ensures
            final(self).wf(),
            final(self).input@ == old(self).input@,
            final(self).position == old(self).read_position,
            final(self).ch == char_at(old(self).input@, old(self).read_position as int),
            final(self).read_position == if old(self).read_position < usize::MAX {
                old(self).read_position + 1
            } else {
                old(self).read_position as int
            },
    {
        self.ch = self.char_or_nul(self.read_position);
        self.position = self.read_position;
        self.read_position = self.read_position.saturating_add(1);
        assert(self.input@.len() == self.input.len());
    }

    /// The character at the look-ahead index, NUL where the text ends
    /// before it: the character behind the one under the cursor.
    fn peek_char(&self) -> (c: char)
        ensures
            c == char_at(self.input@, self.read_position as int),
            self.wf() ==> c == char_at(self.input@, self.position + 1),
    {
        self.char_or_nul(self.read_position)
    }

    /// Moves the cursor past the spaces that it stands on.
    fn skip_whitespace(&mut self)
        requires
            old(self).wf(),
        ensures
            final(self).wf(),
            final(self).input@ == old(self).input@,
            final(self).position == token_start(old(self).input@, old(self).position as int),
    {
        while self.ch == ' ' || self.ch == '\t' || self.ch == '\n' || self.ch == '\r'
            invariant
                self.wf(),
                self.input@ == old(self).input@,
                old(self).position <= self.position,
                run_len(self.input@, old(self).position as int, CharClass::Space) == (self.position
                    - old(self).position) + run_len(
                    self.input@,
                    self.position as int,
                    CharClass::Space,
                ),
            decreases self.input@.len() - self.position,
        {
            self.read_char();
        }
    }

    /// The text between `from` and the cursor, where both lie in the text
    /// and the bytes between them are ASCII.
    fn span_from(&self, from: usize) -> (text: Option<String>)
        requires
            from <= self.position <= self.input@.len(),
            forall|k: int| from <= k < self.position ==> self.input@[k] < 128,
        ensures
            text matches Some(t) && t@ == span_text(
                self.input@,
                from as int,
                self.position as int,
            ),
    {
        let bytes = slice_to_vec(slice_subrange(self.input.as_slice(), from, self.position));
        proof {
            lemma_ascii_bytes_decode(bytes@);
            assert(span_text(bytes@, 0, bytes@.len() as int) =~= span_text(
                self.input@,
                from as int,
                self.position as int,
            ));
        }
        string_from_utf8(bytes)
    }

    /// Moves the cursor past the run of letters and underscores that it
    /// stands on, and returns the run as text. The cursor must not have
    /// left the text: no text can be cut from behind its end.
    fn read_identifier(&mut self) -> (text: Option<String>)
        requires
            old(self).wf(),
            old(self).position <= old(self).input@.len(),
        ensures
            final(self).wf(),
            final(self).input@ == old(self).input@,
            final(self).position == old(self).position + run_len(
                old(self).input@,
                old(self).position as int,
                CharClass::Letter,
            ),
            text matches Some(t) && t@ == span_text(
                old(self).input@,
                old(self).position as int,
                final(self).position as int,
            ),
    {
        let position = self.position;
        while is_letter_char(self.ch)
            invariant
                self.wf(),
                self.input@ == old(self).input@,
                position == old(self).position,
                position <= self.position <= self.input@.len(),
                forall|k: int| position <= k < self.position ==> self.input@[k] < 128,
                run_len(self.input@, position as int, CharClass::Letter) == (self.position
                    - position) + run_len(self.input@, self.position as int, CharClass::Letter),
            decreases self.input@.len() - self.position,
        {
            self.read_char();
        }
        self.span_from(position)
    }

    /// Moves the cursor past the run of digits that it stands on, and
    /// returns the run as text. The cursor must not have left the text: no
    /// text can be cut from behind its end.
    fn read_number(&mut self) -> (text: Option<String>)
        requires
            old(self).wf(),
            old(self).position <= old(self).input@.len(),
        ensures
            final(self).wf(),
            final(self).input@ == old(self).input@,
            final(self).position == old(self).position + run_len(
                old(self).input@,
                old(self).position as int,
                CharClass::Digit,
            ),
            text matches Some(t) && t@ == span_text(
                old(self).input@,
                old(self).position as int,
                final(self).position as int,
            ),
    {
        let position = self.position;
        while is_digit_char(self.ch)
            invariant
                self.wf(),
                self.input@ == old(self).input@,
                position == old(self).position,
                position <= self.position <= self.input@.len(),
                forall|k: int| position <= k < self.position ==> self.input@[k] < 128,
                run_len(self.input@, position as int, CharClass::Digit) == (self.position
                    - position) + run_len(self.input@, self.position as int, CharClass::Digit),
            decreases self.input@.len() - self.position,
        {
            self.read_char();
        }
        self.span_from(position)
    }
}

} // verus!
