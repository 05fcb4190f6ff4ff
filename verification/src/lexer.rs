//! The lexer: turns text into tokens, one at a time, with one character of
//! lookahead.

use vstd::prelude::*;
use crate::chars::alphabetic;
use crate::chars::characters;
use crate::chars::numeric;
use crate::chars::whitespace;
use crate::token::lookup_identifier;
use crate::token::Token;
use crate::token::TokenView;
use crate::token::word_token;

verus! {

/// How many characters at the front of `s` belong to `class`, up to the
/// first one that does not.
pub open spec fn leading(s: Seq<char>, class: spec_fn(char) -> bool) -> nat
    decreases s.len(),
{
    if s.len() > 0 && class(s[0]) {
        1 + leading(s.skip(1), class)
    } else {
        0
    }
}

/// The class of letters.
pub open spec fn letters() -> spec_fn(char) -> bool {
    |c: char| alphabetic(c)
}

/// The class of numeric characters.
pub open spec fn numerics() -> spec_fn(char) -> bool {
    |c: char| numeric(c)
}

/// The class of white space.
pub open spec fn blanks() -> spec_fn(char) -> bool {
    |c: char| whitespace(c)
}

/// Whether every character is one of the ten ASCII digits.
pub open spec fn is_decimal(digits: Seq<char>) -> bool {
    forall|i: int| 0 <= i < digits.len() ==> '0' <= #[trigger] digits[i] && digits[i] <= '9'
}

/// The number that a run of ASCII digits writes in base ten.
pub open spec fn decimal_value(digits: Seq<char>) -> nat
    decreases digits.len(),
{
    if digits.len() == 0 {
        0
    } else {
        (10 * decimal_value(digits.drop_last()) + (digits.last() as nat - '0' as nat)) as nat
    }
}

/// The token for a run of numeric characters: the integer it writes, where
/// it is made of ASCII digits and fits in 32 bits; the illegal token
/// otherwise.
pub open spec fn number_token(digits: Seq<char>) -> TokenView {
    if is_decimal(digits) && decimal_value(digits) <= u32::MAX {
        TokenView::Integer(decimal_value(digits) as u32)
    } else {
        TokenView::Illegal
    }
}

/// The token at the very front of `s`, and how many characters it takes.
pub open spec fn scan(s: Seq<char>) -> (TokenView, nat) {
    if s.len() == 0 {
        (TokenView::EndOfFile, 0)
    } else if s[0] == '=' {
        if s.len() > 1 && s[1] == '=' {
            (TokenView::Equal, 2)
        } else {
            (TokenView::Assign, 1)
        }
    } else if s[0] == '!' {
        if s.len() > 1 && s[1] == '=' {
            (TokenView::NotEqual, 2)
        } else {
            (TokenView::Bang, 1)
        }
    } else if s[0] == '+' {
        (TokenView::Plus, 1)
    } else if s[0] == '-' {
        (TokenView::Minus, 1)
    } else if s[0] == '/' {
        (TokenView::Slash, 1)
    } else if s[0] == '*' {
        (TokenView::Asterisk, 1)
    } else if s[0] == '<' {
        (TokenView::LowerThan, 1)
    } else if s[0] == '>' {
        (TokenView::GreaterThan, 1)
    } else if s[0] == '(' {
        (TokenView::LeftParenthesis, 1)
    } else if s[0] == ')' {
        (TokenView::RightParenthesis, 1)
    } else if s[0] == '{' {
        (TokenView::LeftBrace, 1)
    } else if s[0] == '}' {
        (TokenView::RightBrace, 1)
    } else if s[0] == ',' {
        (TokenView::Comma, 1)
    } else if s[0] == ';' {
        (TokenView::Semicolon, 1)
    } else if alphabetic(s[0]) {
        let n = leading(s, letters());
        (word_token(s.take(n as int)), n)
    } else if numeric(s[0]) {
        let n = leading(s, numerics());
        (number_token(s.take(n as int)), n)
    } else {
        (TokenView::Illegal, 1)
    }
}

/// The next token of `s` after its leading white space, and how many
/// characters are consumed for it, white space included.
pub open spec fn next_token_spec(s: Seq<char>) -> (TokenView, nat) {
    let blank = leading(s, blanks());
    let (token, length) = scan(s.skip(blank as int));
    (token, blank + length)
}

/// A run never reaches past the end of the text.
pub proof fn lemma_leading_bound(s: Seq<char>, class: spec_fn(char) -> bool)
    ensures
        leading(s, class) <= s.len(),
    decreases s.len(),
{
    if s.len() > 0 && class(s[0]) {
        lemma_leading_bound(s.skip(1), class);
    }
}

/// A token never reaches past the end of the text, and only the end-of-input
/// token takes no character.
pub proof fn lemma_next_token_bound(s: Seq<char>)
    ensures
        next_token_spec(s).1 <= s.len(),
        !(next_token_spec(s).0 is EndOfFile) ==> next_token_spec(s).1 >= 1,
        next_token_spec(s).0 is EndOfFile ==> next_token_spec(s).1 == s.len(),
{
    let blank = leading(s, blanks());
    lemma_leading_bound(s, blanks());
    let rest = s.skip(blank as int);
    lemma_leading_bound(rest, letters());
    lemma_leading_bound(rest, numerics());
    if rest.len() > 0 {
        if alphabetic(rest[0]) {
            assert(letters()(rest[0]));
        }
        if numeric(rest[0]) {
            assert(numerics()(rest[0]));
        }
    }
    lemma_word_token_not_end(rest.take(leading(rest, letters()) as int));
}

/// Every token of `s` in order, up to the end of the text.
pub open spec fn tokens(s: Seq<char>) -> Seq<TokenView>
    decreases s.len(),
{
    let (token, length) = next_token_spec(s);
    if token is EndOfFile {
        Seq::empty()
    } else {
        proof {
            lemma_next_token_bound(s);
        }
        seq![token] + tokens(s.skip(length as int))
    }
}

/// The tokens of a text are its first token and the tokens of what follows
/// it.
pub proof fn lemma_tokens_unfold(s: Seq<char>)
    ensures
        tokens(s) == if next_token_spec(s).0 is EndOfFile {
            Seq::<TokenView>::empty()
        } else {
            seq![next_token_spec(s).0] + tokens(s.skip(next_token_spec(s).1 as int))
        },
{
}

/// The end-of-input token is none of the tokens of a text, and at the end
/// of a text the lexer gives the end-of-input token and stays where it is.
pub proof fn lemma_tokens_end(s: Seq<char>)
    ensures
        forall|i: int| 0 <= i < tokens(s).len() ==> !((#[trigger] tokens(s)[i]) is EndOfFile),
        next_token_spec(Seq::empty()) == (TokenView::EndOfFile, 0nat),
        tokens(Seq::empty()) == Seq::<TokenView>::empty(),
    decreases s.len(),
{
    let (token, length) = next_token_spec(s);
    lemma_next_token_bound(s);
    assert(Seq::<char>::empty().skip(0) =~= Seq::<char>::empty());
    if !(token is EndOfFile) {
        let rest = tokens(s.skip(length as int));
        lemma_tokens_end(s.skip(length as int));
        assert forall|i: int| 0 <= i < tokens(s).len() implies !((#[trigger] tokens(s)[i])
            is EndOfFile) by {
            if i > 0 {
                assert(tokens(s)[i] == rest[i - 1]);
            }
        }
    }
}

/// What one more character does to a run of digits and to the number it
/// writes.
pub proof fn lemma_decimal_push(digits: Seq<char>, c: char)
    ensures
        is_decimal(digits.push(c)) == (is_decimal(digits) && '0' <= c && c <= '9'),
        '0' <= c && c <= '9' ==> decimal_value(digits.push(c)) == 10 * decimal_value(digits) + (
        c as nat - '0' as nat),
{
    let longer = digits.push(c);
    assert(longer.drop_last() =~= digits);
    assert(longer.last() == c);
    if is_decimal(longer) {
        assert(longer[digits.len() as int] == c);
        assert forall|i: int| 0 <= i < digits.len() implies '0' <= #[trigger] digits[i]
            && digits[i] <= '9' by {
            assert(longer[i] == digits[i]);
        }
    }
    if is_decimal(digits) && '0' <= c && c <= '9' {
        assert forall|i: int| 0 <= i < longer.len() implies '0' <= #[trigger] longer[i]
            && longer[i] <= '9' by {
            if i < digits.len() {
                assert(longer[i] == digits[i]);
            }
        }
    }
}

/// A word never resolves to the end-of-input token.
pub proof fn lemma_word_token_not_end(word: Seq<char>)
    ensures
        !(word_token(word) is EndOfFile),
{
}

/// A lexer: the text, and how far it has been read. Its value is the text
/// that is still to be read.
#[derive(Debug)]
pub struct Lexer {
    input: Vec<char>,
    position: usize,
}

impl View for Lexer {
    type V = Seq<char>;

    closed spec fn view(&self) -> Seq<char> {
        self.input@.skip(self.position as int)
    }
}

impl Lexer {
    #[verifier::type_invariant]
    spec fn within(&self) -> bool {
        self.position <= self.input.len()
    }

    /// A lexer at the start of `input`.
    pub fn new(input: &str) -> (lexer: Lexer)
        ensures
            lexer@ == input@,
    {
        let list = characters(input);
        assert(list@.skip(0) =~= list@);
        Lexer { input: list, position: 0 }
    }

    /// Takes the next character, if there is one.
    pub fn read_char(&mut self) -> (c: Option<char>)
        ensures
            old(self)@.len() == 0 ==> c is None && final(self)@ == old(self)@,
            old(self)@.len() > 0 ==> c == Some(old(self)@[0]) && final(self)@ == old(self)@.skip(1),
    {
        proof {
            use_type_invariant(&*self);
        }
        if self.position < self.input.len() {
            let c = self.input[self.position];
            assert(self.input@.skip(self.position as int).skip(1) =~= self.input@.skip(
                self.position + 1,
            ));
            self.position += 1;
            Some(c)
        } else {
            None
        }
    }

    /// The next character, left in place.
    pub fn peek_char(&self) -> (c: Option<char>)
        ensures
            self@.len() == 0 ==> c is None,
            self@.len() > 0 ==> c == Some(self@[0]),
    {
        proof {
            use_type_invariant(self);
        }
        if self.position < self.input.len() {
            Some(self.input[self.position])
        } else {
            None
        }
    }

    /// Whether the next character is `ch`.
    pub fn peek_char_eq(&self, ch: char) -> (same: bool)
        ensures
            same == (self@.len() > 0 && self@[0] == ch),
    {
        match self.peek_char() {
            Some(c) => c == ch,
            None => false,
        }
    }

    /// Whether the next character is a letter.
    pub fn peek_is_letter(&self) -> (letter: bool)
        ensures
            letter == (self@.len() > 0 && alphabetic(self@[0])),
    {
        match self.peek_char() {
            Some(ch) => is_letter(ch),
            None => false,
        }
    }

    /// Moves past the white space at the front of the text.
    pub fn skip_whitespace(&mut self)
        ensures
            final(self)@ == old(self)@.skip(leading(old(self)@, blanks()) as int),
    {
        let ghost start = self@;
        let ghost mut taken: int = 0;
        assert(start.skip(0) =~= start);
        loop
            invariant
                0 <= taken <= start.len(),
                self@ == start.skip(taken as int),
                leading(start, blanks()) == taken + leading(self@, blanks()),
            ensures
                self@ == start.skip(leading(start, blanks()) as int),
            decreases self@.len(),
        {
            match self.peek_char() {
                Some(c) => {
                    if c.is_whitespace() {
                        assert(blanks()(c));
                        assert(start.skip(taken as int).skip(1) =~= start.skip(taken + 1));
                        self.read_char();
                        proof {
                            taken = taken + 1;
                        }
                    } else {
                        assert(!blanks()(c));
                        break ;
                    }
                },
                None => {
                    break ;
                },
            }
        }
    }

    /// Reads the rest of a word whose first letter, `first`, was taken
    /// already: every letter that follows, up to the first character that is
    /// none.
    pub fn read_identifier(&mut self, first: char) -> (identifier: String)
        ensures
            identifier@ == seq![first] + old(self)@.take(leading(old(self)@, letters()) as int),
            final(self)@ == old(self)@.skip(leading(old(self)@, letters()) as int),
    {
        let ghost start = self@;
        let ghost mut taken: int = 0;
        let mut identifier = String::new();
        identifier.push(first);
        assert(start.skip(0) =~= start);
        assert(identifier@ =~= seq![first] + start.take(0));
        while self.peek_is_letter()
            invariant
                0 <= taken <= start.len(),
                self@ == start.skip(taken as int),
                leading(start, letters()) == taken + leading(self@, letters()),
                identifier@ == seq![first] + start.take(taken as int),
            ensures
                self@ == start.skip(leading(start, letters()) as int),
                identifier@ == seq![first] + start.take(leading(start, letters()) as int),
            decreases self@.len(),
        {
            assert(letters()(self@[0]));
            assert(start.skip(taken as int).skip(1) =~= start.skip(taken + 1));
            assert(start.take(taken + 1) =~= start.take(taken as int).push(start[taken as int]));
            match self.read_char() {
                Some(ch) => {
                    identifier.push(ch);
                },
                None => {},
            }
            proof {
                taken = taken + 1;
                assert(identifier@ =~= seq![first] + start.take(taken as int));
            }
        }
        identifier
    }

    /// Reads the rest of a number whose first character, `first`, was taken
    /// already: every numeric character that follows. The result is the
    /// number written, or nothing where the run is not made of ASCII digits
    /// or does not fit in 32 bits.
    pub fn read_number(&mut self, first: char) -> (number: Option<u32>)
        ensures
            final(self)@ == old(self)@.skip(leading(old(self)@, numerics()) as int),
            number_token(seq![first] + old(self)@.take(leading(old(self)@, numerics()) as int))
                == match number {
                Some(value) => TokenView::Integer(value),
                None => TokenView::Illegal,
            },
    {
        let ghost start = self@;
        let ghost mut taken: int = 0;
        let ghost mut digits: Seq<char> = Seq::empty();
        let mut number = append_digit(Some(0), first, Ghost(digits));
        proof {
            digits = digits.push(first);
            assert(start.skip(0) =~= start);
            assert(digits =~= seq![first] + start.take(0));
        }
        loop
            invariant
                0 <= taken <= start.len(),
                self@ == start.skip(taken),
                leading(start, numerics()) == taken + leading(self@, numerics()),
                digits == seq![first] + start.take(taken),
                number_token(digits) == match number {
                    Some(value) => TokenView::Integer(value),
                    None => TokenView::Illegal,
                },
            ensures
                self@ == start.skip(leading(start, numerics()) as int),
                digits == seq![first] + start.take(leading(start, numerics()) as int),
                number_token(digits) == match number {
                    Some(value) => TokenView::Integer(value),
                    None => TokenView::Illegal,
                },
            decreases self@.len(),
        {
            match self.peek_char() {
                Some(c) => {
                    if c.is_numeric() {
                        assert(numerics()(c));
                        assert(start.skip(taken).skip(1) =~= start.skip(taken + 1));
                        assert(start.take(taken + 1) =~= start.take(taken).push(start[taken]));
                        self.read_char();
                        number = append_digit(number, c, Ghost(digits));
                        proof {
                            taken = taken + 1;
                            digits = digits.push(c);
                            assert(digits =~= seq![first] + start.take(taken));
                        }
                    } else {
                        assert(!numerics()(c));
                        break ;
                    }
                },
                None => {
                    break ;
                },
            }
        }
        number
    }

    /// The next token of the text, which is consumed together with the white
    /// space before it. At the end of the text the token is the end-of-input
    /// token, again and again.
    pub fn next_token(&mut self) -> (token: Token)
        ensures
            token@ == next_token_spec(old(self)@).0,
            final(self)@ == old(self)@.skip(next_token_spec(old(self)@).1 as int),
    {
        let ghost start = self@;
        let ghost blank = leading(start, blanks()) as int;
        proof {
            lemma_leading_bound(start, blanks());
        }
        self.skip_whitespace();
        let ghost rest = self@;
        proof {
            lemma_leading_bound(rest, letters());
            lemma_leading_bound(rest, numerics());
            assert(start.skip(blank).skip(0) =~= start.skip(blank));
            if rest.len() >= 1 {
                assert(start.skip(blank).skip(1) =~= start.skip(blank + 1));
            }
            if rest.len() >= 2 {
                assert(start.skip(blank).skip(2) =~= start.skip(blank + 2));
                assert(rest.skip(1).skip(1) =~= rest.skip(2));
                assert(rest.skip(1)[0] == rest[1]);
            }
        }
        match self.read_char() {
            Some('=') => {
                if self.peek_char_eq('=') {
                    self.read_char();
                    Token::Equal
                } else {
                    Token::Assign
                }
            },
            Some('+') => Token::Plus,
            Some('-') => Token::Minus,
            Some('!') => {
                if self.peek_char_eq('=') {
                    self.read_char();
                    Token::NotEqual
                } else {
                    Token::Bang
                }
            },
            Some('/') => Token::Slash,
            Some('*') => Token::Asterisk,
            Some('<') => Token::LowerThan,
            Some('>') => Token::GreaterThan,
            Some('(') => Token::LeftParenthesis,
            Some(')') => Token::RightParenthesis,
            Some('{') => Token::LeftBrace,
            Some('}') => Token::RightBrace,
            Some(',') => Token::Comma,
            Some(';') => Token::Semicolon,
            Some(ch) => {
                if is_letter(ch) {
                    let ghost tail = self@;
                    let literal = self.read_identifier(ch);
                    proof {
                        let n = leading(tail, letters()) as int;
                        lemma_leading_bound(tail, letters());
                        assert(letters()(rest[0]));
                        assert(rest.take(n + 1) =~= seq![ch] + tail.take(n));
                        assert(rest.skip(1).skip(n) =~= rest.skip(n + 1));
                        assert(start.skip(blank).skip(n + 1) =~= start.skip(blank + n + 1));
                    }
                    lookup_identifier(literal.as_str())
                } else if ch.is_numeric() {
                    let ghost tail = self@;
                    let number = self.read_number(ch);
                    proof {
                        let n = leading(tail, numerics()) as int;
                        lemma_leading_bound(tail, numerics());
                        assert(numerics()(rest[0]));
                        assert(rest.take(n + 1) =~= seq![ch] + tail.take(n));
                        assert(rest.skip(1).skip(n) =~= rest.skip(n + 1));
                        assert(start.skip(blank).skip(n + 1) =~= start.skip(blank + n + 1));
                    }
                    match number {
                        Some(value) => Token::Integer(value),
                        None => Token::Illegal,
                    }
                } else {
                    Token::Illegal
                }
            },
            None => Token::EndOfFile,
        }
    }
}

/// The number written by a run of digits with one more character, `c`,
/// behind it, given the number written so far; nothing where the longer run
/// is not made of ASCII digits or its number does not fit in 32 bits.
fn append_digit(
    so_far: Option<u32>,
    c: char,
    Ghost(digits): Ghost<Seq<char>>,
) -> (number: Option<u32>)
    requires
        number_token(digits) == match so_far {
            Some(value) => TokenView::Integer(value),
            None => TokenView::Illegal,
        },
    ensures
        number_token(digits.push(c)) == match number {
            Some(value) => TokenView::Integer(value),
            None => TokenView::Illegal,
        },
{
    proof {
        lemma_decimal_push(digits, c);
    }
    match so_far {
        Some(value) => {
            if '0' <= c && c <= '9' {
                let digit: u32 = (c as u32) - ('0' as u32);
                if value <= (u32::MAX - digit) / 10 {
                    Some(10 * value + digit)
                } else {
                    None
                }
            } else {
                None
            }
        },
        None => None,
    }
}

/// Whether `ch` may stand in an identifier.
pub fn is_letter(ch: char) -> (letter: bool)
    ensures
        letter == alphabetic(ch),
{
    ch.is_alphabetic()
}

} // verus!
