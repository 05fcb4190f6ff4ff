//! Lexing a text that was put together from the texts of tokens: what the
//! lexer makes of a symbol, a word or a number that stands at the front of
//! a text.

use vstd::prelude::*;
use crate::chars::alphabetic;
use crate::chars::numeric;
use crate::chars::whitespace;
use crate::lexer::blanks;
use crate::lexer::is_decimal;
use crate::lexer::leading;
use crate::lexer::lemma_tokens_unfold;
use crate::lexer::letters;
use crate::lexer::next_token_spec;
use crate::lexer::number_token;
use crate::lexer::numerics;
use crate::lexer::scan;
use crate::lexer::tokens;
use crate::token::TokenView;
use crate::token::word_token;

verus! {

/// A run that fills the first `k` places of `s` and ends there has length
/// `k`.
pub proof fn lemma_leading_run(s: Seq<char>, k: nat, class: spec_fn(char) -> bool)
    requires
        k <= s.len(),
        forall|i: int| 0 <= i < k ==> class(#[trigger] s[i]),
        k < s.len() ==> !class(s[k as int]),
    ensures
        leading(s, class) == k,
    decreases k,
{
    if k > 0 {
        let tail = s.skip(1);
        assert forall|i: int| 0 <= i < k - 1 implies class(#[trigger] tail[i]) by {
            assert(tail[i] == s[i + 1]);
        }
        if k < s.len() {
            assert(tail[k - 1] == s[k as int]);
        }
        lemma_leading_run(tail, (k - 1) as nat, class);
    }
}

/// The token of a one-character symbol.
pub open spec fn symbol_token(c: char) -> TokenView {
    if c == '+' {
        TokenView::Plus
    } else if c == '-' {
        TokenView::Minus
    } else if c == '/' {
        TokenView::Slash
    } else if c == '*' {
        TokenView::Asterisk
    } else if c == '<' {
        TokenView::LowerThan
    } else if c == '>' {
        TokenView::GreaterThan
    } else if c == '(' {
        TokenView::LeftParenthesis
    } else {
        TokenView::RightParenthesis
    }
}

/// Whether `c` is one of the symbols that are a token by themselves,
/// whatever follows.
pub open spec fn is_symbol(c: char) -> bool {
    c == '+' || c == '-' || c == '/' || c == '*' || c == '<' || c == '>' || c == '(' || c == ')'
}

/// Where the first token of `s` is `token`, takes `n` characters, and is
/// followed by `rest`, the tokens of `s` are `token` and the tokens of
/// `rest`.
pub proof fn lemma_tokens_front(s: Seq<char>, token: TokenView, n: nat, rest: Seq<char>)
    requires
        next_token_spec(s) == (token, n),
        !(token is EndOfFile),
        n <= s.len(),
        s.skip(n as int) == rest,
    ensures
        tokens(s) == seq![token] + tokens(rest),
{
    lemma_tokens_unfold(s);
}

/// A symbol at the front of a text is a token by itself.
pub proof fn lemma_symbol_tokens(c: char, rest: Seq<char>)
    requires
        is_symbol(c),
    ensures
        tokens(seq![c] + rest) == seq![symbol_token(c)] + tokens(rest),
{
    let s = seq![c] + rest;
    assert(s[0] == c);
    assert(!blanks()(s[0]));
    assert(s.skip(0) =~= s);
    assert(s.skip(1) =~= rest);
    lemma_tokens_front(s, symbol_token(c), 1, rest);
}

/// `!` at the front of a text is a token by itself unless `=` follows.
pub proof fn lemma_bang_tokens(rest: Seq<char>)
    requires
        rest.len() > 0 ==> rest[0] != '=',
    ensures
        tokens(seq!['!'] + rest) == seq![TokenView::Bang] + tokens(rest),
{
    let s = seq!['!'] + rest;
    assert(s[0] == '!');
    assert(!blanks()(s[0]));
    assert(s.skip(0) =~= s);
    assert(s.skip(1) =~= rest);
    if rest.len() > 0 {
        assert(s[1] == rest[0]);
    }
    lemma_tokens_front(s, TokenView::Bang, 1, rest);
}

/// `==` at the front of a text is one token.
pub proof fn lemma_equal_tokens(rest: Seq<char>)
    ensures
        tokens(seq!['=', '='] + rest) == seq![TokenView::Equal] + tokens(rest),
{
    let s = seq!['=', '='] + rest;
    assert(s[0] == '=' && s[1] == '=');
    assert(!blanks()(s[0]));
    assert(s.skip(0) =~= s);
    assert(s.skip(2) =~= rest);
    lemma_tokens_front(s, TokenView::Equal, 2, rest);
}

/// `!=` at the front of a text is one token.
pub proof fn lemma_not_equal_tokens(rest: Seq<char>)
    ensures
        tokens(seq!['!', '='] + rest) == seq![TokenView::NotEqual] + tokens(rest),
{
    let s = seq!['!', '='] + rest;
    assert(s[0] == '!' && s[1] == '=');
    assert(!blanks()(s[0]));
    assert(s.skip(0) =~= s);
    assert(s.skip(2) =~= rest);
    lemma_tokens_front(s, TokenView::NotEqual, 2, rest);
}

/// A space at the front of a text adds no token.
pub proof fn lemma_blank_tokens(rest: Seq<char>)
    ensures
        tokens(seq![' '] + rest) == tokens(rest),
{
    let s = seq![' '] + rest;
    assert(s[0] == ' ');
    assert(blanks()(s[0]));
    assert(s.skip(1) =~= rest);
    let blank = leading(rest, blanks()) as int;
    crate::lexer::lemma_leading_bound(rest, blanks());
    assert(s.skip(1 + blank) =~= rest.skip(blank));
    assert(leading(s, blanks()) == 1 + blank);
    let n = scan(rest.skip(blank)).1 as int;
    lemma_tokens_unfold(s);
    lemma_tokens_unfold(rest);
    crate::lexer::lemma_next_token_bound(rest);
    crate::lexer::lemma_next_token_bound(s);
    if !(next_token_spec(rest).0 is EndOfFile) {
        assert(s.skip(1 + blank + n) =~= rest.skip(blank + n));
    }
}

/// A run of letters at the front of a text, followed by no letter, is one
/// token: the keyword it spells, or an identifier.
pub proof fn lemma_word_tokens(word: Seq<char>, rest: Seq<char>)
    requires
        word.len() >= 1,
        forall|i: int| 0 <= i < word.len() ==> alphabetic(#[trigger] word[i]),
        !whitespace(word[0]),
        rest.len() > 0 ==> !alphabetic(rest[0]),
    ensures
        tokens(word + rest) == seq![word_token(word)] + tokens(rest),
{
    let s = word + rest;
    assert(s[0] == word[0]);
    assert(!blanks()(s[0]));
    assert(s.skip(0) =~= s);
    assert forall|i: int| 0 <= i < word.len() implies letters()(#[trigger] s[i]) by {
        assert(s[i] == word[i]);
    }
    if rest.len() > 0 {
        assert(s[word.len() as int] == rest[0]);
    }
    lemma_leading_run(s, word.len(), letters());
    assert(s.take(word.len() as int) =~= word);
    assert(s.skip(word.len() as int) =~= rest);
    lemma_tokens_front(s, word_token(word), word.len(), rest);
}

/// A run of ASCII digits at the front of a text, followed by no numeric
/// character, is one token: the number it writes, or the illegal token
/// where that number does not fit.
pub proof fn lemma_number_tokens(digits: Seq<char>, rest: Seq<char>)
    requires
        digits.len() >= 1,
        is_decimal(digits),
        rest.len() > 0 ==> !numeric(rest[0]),
    ensures
        tokens(digits + rest) == seq![number_token(digits)] + tokens(rest),
{
    let s = digits + rest;
    assert(s[0] == digits[0]);
    assert('0' <= digits[0] && digits[0] <= '9');
    assert(!blanks()(s[0]));
    assert(s.skip(0) =~= s);
    assert forall|i: int| 0 <= i < digits.len() implies numerics()(#[trigger] s[i]) by {
        assert(s[i] == digits[i]);
        assert('0' <= digits[i] && digits[i] <= '9');
    }
    if rest.len() > 0 {
        assert(s[digits.len() as int] == rest[0]);
    }
    lemma_leading_run(s, digits.len(), numerics());
    assert(s.take(digits.len() as int) =~= digits);
    assert(s.skip(digits.len() as int) =~= rest);
    lemma_tokens_front(s, number_token(digits), digits.len(), rest);
}

} // verus!
