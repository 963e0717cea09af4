//! Laws of the token grammar, proved from its definition.

use crate::grammar::{
    char_at, in_class, is_digit, is_letter, is_space, keyword, lex, lex_text, run_len,
    single_symbol, span_text, token_at, token_len, token_start, tokens_from, CharClass,
};
use crate::lexer::LexerView;
use crate::token::TokenView;
use vstd::prelude::*;
use vstd::utf8::{
    char_u32_cast, decode_first_scalar, encode_scalar, encode_utf8, encode_utf8_first_scalar, is_ascii_chars,
    is_ascii_chars_encode_utf8, leading_bits_width_1,
};

verus! {

/// A run stays inside the text, holds only characters of its class, and is
/// maximal: the character behind it is of another class, or the text ends.
pub proof fn lemma_run_is_maximal(s: Seq<u8>, i: int, class: CharClass)
    requires
        0 <= i <= s.len(),
    ensures
        i + run_len(s, i, class) <= s.len(),
        forall|k: int| i <= k < i + run_len(s, i, class) ==> in_class(class, char_at(s, k)),
        !in_class(class, char_at(s, i + run_len(s, i, class))),
    decreases s.len() - i,
{
    if i < s.len() && in_class(class, s[i] as char) {
        lemma_run_is_maximal(s, i + 1, class);
    }
}

/// A stretch of characters of one class is the start of the run at its
/// first index.
pub proof fn lemma_run_extends(s: Seq<u8>, i: int, j: int, class: CharClass)
    requires
        0 <= i <= j <= s.len(),
        forall|k: int| i <= k < j ==> in_class(class, char_at(s, k)),
    ensures
        run_len(s, i, class) == (j - i) + run_len(s, j, class),
    decreases j - i,
{
    if i < j {
        assert(in_class(class, char_at(s, i)));
        lemma_run_extends(s, i + 1, j, class);
    }
}

/// No token is empty, and none reaches beyond the text.
pub proof fn lemma_token_span(s: Seq<u8>, i: int)
    requires
        0 <= i < s.len(),
    ensures
        1 <= token_len(s, i),
        i + token_len(s, i) <= s.len(),
{
    lemma_run_is_maximal(s, i + 1, CharClass::Digit);
    lemma_run_is_maximal(s, i + 1, CharClass::Letter);
}

/// A number takes all the digits that stand together, and an identifier or
/// keyword all the letters: the span holds nothing else, and the character
/// behind it is no further digit (no further letter).
pub proof fn lemma_maximal_munch(s: Seq<u8>, i: int)
    requires
        0 <= i < s.len(),
    ensures
        is_digit(char_at(s, i)) ==> {
            &&& forall|k: int| i <= k < i + token_len(s, i) ==> is_digit(char_at(s, k))
            &&& !is_digit(char_at(s, i + token_len(s, i)))
        },
        is_letter(char_at(s, i)) ==> {
            &&& forall|k: int| i <= k < i + token_len(s, i) ==> is_letter(char_at(s, k))
            &&& !is_letter(char_at(s, i + token_len(s, i)))
        },
{
    lemma_run_is_maximal(s, i + 1, CharClass::Digit);
    lemma_run_is_maximal(s, i + 1, CharClass::Letter);
}

/// The tokens still to come are the token that the next call yields,
/// followed by the tokens to come after it; none are to come exactly when
/// the next call yields none.
pub proof fn lemma_pending_unfolds(v: LexerView)
    ensures
        v.first() is None <==> v.pending().len() == 0,
        v.first() matches Some(t) ==> v.pending() == seq![t] + v.advance().pending(),
        v.first() is None ==> v.advance().pending().len() == 0,
{
    let start = v.start();
    if v.exhausted() {
        lemma_at_start(v.source, v.offset as int);
    } else {
        assert(v.pending() =~= seq![token_at(v.source, start)] + v.advance().pending());
    }
}

/// The text is never left behind: the cursor stays inside it or at its end.
pub proof fn lemma_advance_in_bounds(v: LexerView)
    requires
        v.offset <= v.source.len(),
    ensures
        v.offset <= v.advance().offset <= v.source.len(),
{
    lemma_run_is_maximal(v.source, v.offset as int, CharClass::Space);
    if !v.exhausted() {
        lemma_token_span(v.source, v.start());
    }
}

/// Behind the spaces under the cursor no space stands: skipping again
/// moves nothing.
proof fn lemma_at_start(s: Seq<u8>, i: int)
    requires
        0 <= i,
    ensures
        token_start(s, token_start(s, i)) == token_start(s, i),
{
    if i <= s.len() {
        lemma_run_is_maximal(s, i, CharClass::Space);
    }
}

/// Once a call has yielded no token, every later call yields none, and the
/// state no longer changes.
pub proof fn lemma_exhaustion_is_final(v: LexerView)
    requires
        v.first() is None,
    ensures
        v.advance().first() is None,
        v.advance().advance() == v.advance(),
{
    lemma_at_start(v.source, v.offset as int);
}

/// Bytes that are all spaces, tabs, line feeds and carriage returns hold no
/// token.
pub proof fn lemma_blank_source_has_no_tokens(s: Seq<u8>)
    requires
        forall|k: int| 0 <= k < s.len() ==> is_space(#[trigger] s[k] as char),
    ensures
        lex(s) == Seq::<TokenView>::empty(),
{
    assert forall|k: int| 0 <= k < s.len() implies in_class(CharClass::Space, char_at(s, k)) by {
        assert(is_space(s[k] as char));
    }
    lemma_run_extends(s, 0, s.len() as int, CharClass::Space);
}

/// Bytes that are all digits, at least one, are one integer literal that
/// carries the digits as they were written.
pub proof fn lemma_digits_are_one_literal(s: Seq<u8>)
    requires
        s.len() > 0,
        forall|k: int| 0 <= k < s.len() ==> is_digit(#[trigger] s[k] as char),
    ensures
        lex(s) == seq![TokenView::Int(span_text(s, 0, s.len() as int))],
{
    let n = s.len() as int;
    assert(is_digit(s[0] as char));
    assert forall|k: int| 1 <= k < n implies in_class(CharClass::Digit, char_at(s, k)) by {
        assert(is_digit(s[k] as char));
    }
    lemma_run_extends(s, 1, n, CharClass::Digit);
    assert(token_len(s, 0) == n);
    assert(tokens_from(s, n) =~= Seq::<TokenView>::empty());
    assert(lex(s) =~= seq![token_at(s, 0)] + tokens_from(s, n));
}

/// Letters that stand together and spell a keyword are that keyword, never
/// an identifier; all others are an identifier that carries them. What
/// counts is the whole run, not a part of it.
pub proof fn lemma_keywords_take_precedence(s: Seq<u8>, i: int)
    requires
        0 <= i < s.len(),
        is_letter(char_at(s, i)),
    ensures
        ({
            let text = span_text(s, i, i + run_len(s, i, CharClass::Letter));
            match keyword(text) {
                Some(reserved) => token_at(s, i) == reserved && !(token_at(s, i) is Ident),
                None => token_at(s, i) == TokenView::Ident(text),
            }
        }),
{
}

/// `==` and `!=` are one token each wherever they stand, and a `=` or `!`
/// with no `=` behind it is the operator of one character.
pub proof fn lemma_two_character_operators(s: Seq<u8>, i: int)
    requires
        0 <= i < s.len(),
        char_at(s, i) == '=' || char_at(s, i) == '!',
    ensures
        tokens_from(s, i) == seq![token_at(s, i)] + tokens_from(s, i + token_len(s, i)),
        char_at(s, i + 1) == '=' ==> token_len(s, i) == 2 && token_at(s, i) == (if char_at(s, i)
            == '=' {
            TokenView::Equal
        } else {
            TokenView::NotEqual
        }),
        char_at(s, i + 1) != '=' ==> token_len(s, i) == 1 && token_at(s, i) == (if char_at(s, i)
            == '=' {
            TokenView::Assign
        } else {
            TokenView::Bang
        }),
{
    assert(run_len(s, i, CharClass::Space) == 0);
}

/// Whether `c` is an operator or a delimiter.
pub open spec fn is_symbol(c: char) -> bool {
    c == '=' || c == '!' || single_symbol(c) is Some
}

/// The token of an operator or delimiter that stands alone.
pub open spec fn symbol_token(c: char) -> TokenView {
    if c == '=' {
        TokenView::Assign
    } else if c == '!' {
        TokenView::Bang
    } else {
        single_symbol(c)->0
    }
}

/// Whether a `=` stands directly behind a `=` or a `!` somewhere in `s`.
pub open spec fn has_two_character_operator(s: Seq<u8>) -> bool {
    exists|k: int|
        0 <= k && k + 1 < s.len() && (#[trigger] char_at(s, k) == '=' || char_at(s, k) == '!')
            && char_at(s, k + 1) == '='
}

/// Bytes that are all operators and delimiters, among which no `=` stands
/// directly behind a `=` or a `!`, hold one token for each byte, in order.
pub proof fn lemma_symbols_map_one_for_one(s: Seq<u8>)
    requires
        forall|k: int| 0 <= k < s.len() ==> is_symbol(#[trigger] s[k] as char),
        !has_two_character_operator(s),
    ensures
        lex(s) == Seq::new(s.len(), |k: int| symbol_token(s[k] as char)),
{
    lemma_symbols_from(s, 0);
    assert(lex(s) =~= Seq::new(s.len(), |k: int| symbol_token(s[k] as char)));
}

proof fn lemma_symbols_from(s: Seq<u8>, i: int)
    requires
        0 <= i <= s.len(),
        forall|k: int| 0 <= k < s.len() ==> is_symbol(#[trigger] s[k] as char),
        !has_two_character_operator(s),
    ensures
        tokens_from(s, i) == Seq::new((s.len() - i) as nat, |k: int| symbol_token(s[i + k] as char)),
    decreases s.len() - i,
{
    let rest = Seq::new((s.len() - i) as nat, |k: int| symbol_token(s[i + k] as char));
    if i == s.len() {
        assert(tokens_from(s, i) =~= rest);
    } else {
        let c = s[i] as char;
        assert(is_symbol(c));
        assert(run_len(s, i, CharClass::Space) == 0);
        if c == '=' || c == '!' {
            if i + 1 < s.len() && char_at(s, i + 1) == '=' {
                assert(char_at(s, i) == '=' || char_at(s, i) == '!');
                assert(has_two_character_operator(s));
            }
        }
        assert(token_len(s, i) == 1);
        assert(token_at(s, i) == symbol_token(c));
        lemma_symbols_from(s, i + 1);
        assert(tokens_from(s, i) =~= rest);
    }
}

/// Whether `text` holds nothing but spaces, tabs, line feeds and carriage
/// returns; the empty text does.
pub open spec fn is_blank(text: Seq<char>) -> bool {
    forall|k: int| 0 <= k < text.len() ==> is_space(#[trigger] text[k])
}

/// Whether `text` holds nothing but digits, and at least one.
pub open spec fn is_digits(text: Seq<char>) -> bool {
    text.len() > 0 && forall|k: int| 0 <= k < text.len() ==> is_digit(#[trigger] text[k])
}

/// Whether `text` holds nothing but operators and delimiters, and no `=`
/// directly behind a `=` or a `!`.
pub open spec fn is_separate_symbols(text: Seq<char>) -> bool {
    &&& forall|k: int| 0 <= k < text.len() ==> is_symbol(#[trigger] text[k])
    &&& forall|k: int|
        0 <= k && k + 1 < text.len() && (#[trigger] text[k] == '=' || text[k] == '!') ==> text[k
            + 1] != '='
}

/// The encoding of a text of ASCII characters holds one byte for each
/// character, with the number of that character.
pub proof fn lemma_ascii_text_encodes_one_for_one(text: Seq<char>)
    requires
        is_ascii_chars(text),
    ensures
        encode_utf8(text).len() == text.len(),
        forall|k: int| 0 <= k < text.len() ==> #[trigger] encode_utf8(text)[k] as char == text[k],
        span_text(encode_utf8(text), 0, text.len() as int) == text,
{
    is_ascii_chars_encode_utf8(text);
    assert(span_text(encode_utf8(text), 0, text.len() as int) =~= text);
}

/// A text of nothing but spaces, tabs, line feeds and carriage returns, and
/// so the empty text, holds no token.
pub proof fn lemma_blank_text_has_no_tokens(text: Seq<char>)
    requires
        is_blank(text),
    ensures
        lex_text(text) == Seq::<TokenView>::empty(),
{
    assert(is_ascii_chars(text)) by {
        assert forall|k: int| 0 <= k < text.len() implies '\0' <= #[trigger] text[k]
            <= '\u{7f}' by {
            assert(is_space(text[k]));
        }
    }
    lemma_ascii_text_encodes_one_for_one(text);
    lemma_blank_source_has_no_tokens(encode_utf8(text));
}

/// A text of nothing but digits, at least one, is one integer literal that
/// carries the text as it was written.
pub proof fn lemma_digit_text_is_one_literal(text: Seq<char>)
    requires
        is_digits(text),
    ensures
        lex_text(text) == seq![TokenView::Int(text)],
{
    assert(is_ascii_chars(text)) by {
        assert forall|k: int| 0 <= k < text.len() implies '\0' <= #[trigger] text[k]
            <= '\u{7f}' by {
            assert(is_digit(text[k]));
        }
    }
    lemma_ascii_text_encodes_one_for_one(text);
    lemma_digits_are_one_literal(encode_utf8(text));
}

/// A text of nothing but operators and delimiters, in which no `=` stands
/// directly behind a `=` or a `!`, holds one token for each character, in
/// the order of the text.
pub proof fn lemma_symbol_text_maps_one_for_one(text: Seq<char>)
    requires
        is_separate_symbols(text),
    ensures
        lex_text(text) == text.map_values(|c: char| symbol_token(c)),
{
    assert(is_ascii_chars(text)) by {
        assert forall|k: int| 0 <= k < text.len() implies '\0' <= #[trigger] text[k]
            <= '\u{7f}' by {
            assert(is_symbol(text[k]));
        }
    }
    lemma_ascii_text_encodes_one_for_one(text);
    let s = encode_utf8(text);
    assert forall|k: int| 0 <= k < s.len() implies is_symbol(#[trigger] s[k] as char) by {
        assert(is_symbol(text[k]));
    }
    if has_two_character_operator(s) {
        let k = choose|k: int|
            0 <= k && k + 1 < s.len() && (#[trigger] char_at(s, k) == '=' || char_at(s, k) == '!')
                && char_at(s, k + 1) == '=';
        assert(text[k] == '=' || text[k] == '!');
        assert(text[k + 1] == s[k + 1] as char);
    }
    lemma_symbols_map_one_for_one(s);
    assert(lex_text(text) =~= text.map_values(|c: char| symbol_token(c)));
}

/// A character that is no space, no end marker and starts no token of the
/// grammar costs one `Illegal` token, and the stream goes on behind it.
pub proof fn lemma_illegal_character_costs_one_token(s: Seq<u8>, i: int)
    requires
        0 <= i < s.len(),
        s[i] != 0,
        !is_space(char_at(s, i)),
        !is_digit(char_at(s, i)),
        !is_letter(char_at(s, i)),
        !is_symbol(char_at(s, i)),
    ensures
        tokens_from(s, i) == seq![TokenView::Illegal] + tokens_from(s, i + 1),
{
    assert(run_len(s, i, CharClass::Space) == 0);
}

/// A text never holds more tokens than bytes.
pub proof fn lemma_no_more_tokens_than_bytes(s: Seq<u8>)
    ensures
        lex(s).len() <= s.len(),
{
    lemma_token_count_from(s, 0);
}

proof fn lemma_token_count_from(s: Seq<u8>, i: int)
    requires
        0 <= i <= s.len(),
    ensures
        tokens_from(s, i).len() <= s.len() - i,
    decreases s.len() - i,
{
    let start = token_start(s, i);
    lemma_run_is_maximal(s, i, CharClass::Space);
    if start < s.len() && char_at(s, start) != '\0' {
        lemma_token_span(s, start);
        lemma_token_count_from(s, start + token_len(s, start));
    }
}

/// Runs behind a prefix are the runs of the rest alone.
proof fn lemma_run_behind_prefix(a: Seq<u8>, b: Seq<u8>, j: int, class: CharClass)
    requires
        0 <= j,
    ensures
        run_len(a + b, a.len() + j, class) == run_len(b, j, class),
    decreases b.len() - j,
{
    if j < b.len() {
        assert((a + b)[a.len() + j] == b[j]);
        if in_class(class, b[j] as char) {
            lemma_run_behind_prefix(a, b, j + 1, class);
        }
    }
}

/// What comes before the cursor does not matter: behind any prefix, the
/// tokens are those of the rest alone.
pub proof fn lemma_tokens_behind_prefix(a: Seq<u8>, b: Seq<u8>, j: int)
    requires
        0 <= j <= b.len(),
    ensures
        tokens_from(a + b, a.len() + j) == tokens_from(b, j),
    decreases b.len() - j,
{
    let s = a + b;
    let n = a.len() as int;
    assert forall|k: int| 0 <= k implies char_at(s, n + k) == #[trigger] char_at(b, k) by {
        if k < b.len() {
            assert(s[n + k] == b[k]);
        }
    }
    lemma_run_behind_prefix(a, b, j, CharClass::Space);
    lemma_run_is_maximal(b, j, CharClass::Space);
    let start = token_start(b, j);
    assert(token_start(s, n + j) == n + start);
    assert(char_at(s, n + start) == char_at(b, start));
    if !(start < b.len() && char_at(b, start) != '\0') {
    } else {
        assert(char_at(s, n + start + 1) == char_at(b, start + 1));
        lemma_run_behind_prefix(a, b, start + 1, CharClass::Digit);
        lemma_run_behind_prefix(a, b, start + 1, CharClass::Letter);
        lemma_token_span(b, start);
        let len = token_len(b, start) as int;
        assert(token_len(s, n + start) == len);
        assert(span_text(s, n + start, n + start + len) =~= span_text(b, start, start + len));
        assert(token_at(s, n + start) == token_at(b, start));
        lemma_tokens_behind_prefix(a, b, start + len);
    }
}

/// The encoding of two texts joined is their encodings joined.
pub proof fn lemma_encoding_of_joined_texts(x: Seq<char>, y: Seq<char>)
    ensures
        encode_utf8(x + y) == encode_utf8(x) + encode_utf8(y),
    decreases x.len(),
{
    if x.len() == 0 {
        assert(x + y =~= y);
        assert(encode_utf8(x) + encode_utf8(y) =~= encode_utf8(y));
    } else {
        assert((x + y).drop_first() =~= x.drop_first() + y);
        lemma_encoding_of_joined_texts(x.drop_first(), y);
        assert(encode_utf8(x + y) =~= encode_utf8(x) + encode_utf8(y));
    }
}

/// Only the text that starts with `=` has an encoding that starts with the
/// byte of `=`.
proof fn lemma_first_byte_of_equals_sign(text: Seq<char>)
    ensures
        char_at(encode_utf8(text), 0) == '=' <==> text.len() > 0 && text[0] == '=',
{
    let s = encode_utf8(text);
    if text.len() == 0 {
        assert(s.len() == 0);
    } else {
        let scalar = text[0] as u32;
        encode_utf8_first_scalar(text);
        assert(s =~= encode_scalar(scalar) + encode_utf8(text.drop_first()));
        assert(encode_scalar(scalar).len() > 0);
        assert(s[0] == encode_scalar(scalar)[0]);
        if text[0] == '=' {
            assert(scalar == 0x3d);
            assert((0x3du32 & 0x7F) as u8 == 0x3d) by (bit_vector);
        }
        if char_at(s, 0) == '=' {
            assert(decode_first_scalar(s) == scalar);
            assert(leading_bits_width_1(0x3d) == 0x3d) by {
                assert((0x3du8 & 0x7F) as u32 == 0x3d) by (bit_vector);
            }
            assert(scalar == 0x3d);
            char_u32_cast(text[0], scalar);
        }
    }
}

/// `==` and `!=` at the start of a text are one token, and the stream goes
/// on with the text behind both characters; a `=` or `!` with no `=` behind
/// it is the operator of one character, and the stream goes on behind it.
pub proof fn lemma_equality_operators_are_greedy(first: char, rest: Seq<char>)
    requires
        first == '=' || first == '!',
    ensures
        lex_text(seq![first, '='] + rest) == seq![
            if first == '=' {
                TokenView::Equal
            } else {
                TokenView::NotEqual
            },
        ] + lex_text(rest),
        rest.len() == 0 || rest[0] != '=' ==> lex_text(seq![first] + rest) == seq![
            if first == '=' {
                TokenView::Assign
            } else {
                TokenView::Bang
            },
        ] + lex_text(rest),
{
    let tail = encode_utf8(rest);
    {
        let head = seq![first, '='];
        assert(is_ascii_chars(head));
        lemma_ascii_text_encodes_one_for_one(head);
        lemma_encoding_of_joined_texts(head, rest);
        let s = encode_utf8(head) + tail;
        assert(s[0] == encode_utf8(head)[0] && s[1] == encode_utf8(head)[1]);
        assert(char_at(s, 0) == first && char_at(s, 1) == '=');
        lemma_two_character_operators(s, 0);
        lemma_tokens_behind_prefix(encode_utf8(head), tail, 0);
    }
    if rest.len() == 0 || rest[0] != '=' {
        let head = seq![first];
        assert(is_ascii_chars(head));
        lemma_ascii_text_encodes_one_for_one(head);
        lemma_encoding_of_joined_texts(head, rest);
        let s = encode_utf8(head) + tail;
        assert(s[0] == encode_utf8(head)[0]);
        assert(char_at(s, 0) == first);
        lemma_first_byte_of_equals_sign(rest);
        assert(char_at(s, 1) == char_at(tail, 0)) by {
            if tail.len() > 0 {
                assert(s[1] == tail[0]);
            }
        }
        lemma_two_character_operators(s, 0);
        lemma_tokens_behind_prefix(encode_utf8(head), tail, 0);
    }
}

} // verus!
