//! Character classes and plain text helpers that the lexer and the renderer
//! rely on.

use vstd::prelude::*;
use vstd::std_specs::iter::IteratorSpec;

verus! {

/// Whether a character beyond ASCII has the Unicode `Alphabetic` property.
pub uninterp spec fn unicode_alphabetic(c: char) -> bool;

/// Whether a character beyond ASCII belongs to one of the Unicode number
/// categories.
pub uninterp spec fn unicode_numeric(c: char) -> bool;

/// Whether a character beyond ASCII has the Unicode `White_Space` property.
pub uninterp spec fn unicode_whitespace(c: char) -> bool;

/// A letter: within ASCII exactly `a` to `z` and `A` to `Z`.
pub open spec fn alphabetic(c: char) -> bool {
    if c <= '\x7f' {
        ('a' <= c && c <= 'z') || ('A' <= c && c <= 'Z')
    } else {
        unicode_alphabetic(c)
    }
}

/// A numeric character: within ASCII exactly the ten decimal digits.
pub open spec fn numeric(c: char) -> bool {
    if c <= '\x7f' {
        '0' <= c && c <= '9'
    } else {
        unicode_numeric(c)
    }
}

/// White space: within ASCII exactly the space and U+0009 to U+000D.
pub open spec fn whitespace(c: char) -> bool {
    if c <= '\x7f' {
        c == ' ' || ('\x09' <= c && c <= '\x0d')
    } else {
        unicode_whitespace(c)
    }
}

/// `char::is_alphabetic` of the standard library. Trusted: within ASCII it
/// accepts exactly the Latin letters; beyond ASCII it answers by the Unicode
/// `Alphabetic` property, which is left unnamed here.
pub assume_specification[ char::is_alphabetic ](c: char) -> (b: bool)
    ensures
        c <= '\x7f' ==> b == (('a' <= c && c <= 'z') || ('A' <= c && c <= 'Z')),
        c > '\x7f' ==> b == unicode_alphabetic(c),
;

/// `char::is_numeric` of the standard library. Trusted: within ASCII it
/// accepts exactly `0` to `9`; beyond ASCII it answers by the Unicode number
/// categories.
pub assume_specification[ char::is_numeric ](c: char) -> (b: bool)
    ensures
        c <= '\x7f' ==> b == ('0' <= c && c <= '9'),
        c > '\x7f' ==> b == unicode_numeric(c),
;

/// `char::is_whitespace` of the standard library. Trusted: within ASCII it
/// accepts exactly the space and the controls U+0009 to U+000D; beyond ASCII
/// it answers by the Unicode `White_Space` property.
pub assume_specification[ char::is_whitespace ](c: char) -> (b: bool)
    ensures
        c <= '\x7f' ==> b == (c == ' ' || ('\x09' <= c && c <= '\x0d')),
        c > '\x7f' ==> b == unicode_whitespace(c),
;

/// `String::push` of the standard library. Trusted: it appends the one
/// character to the text and changes nothing else.
pub assume_specification[ String::push ](text: &mut String, c: char)
    ensures
        final(text)@ == old(text)@.push(c),
;

/// `str` equality of the standard library. Trusted: two string slices are
/// equal exactly when they hold the same characters.
pub assume_specification[ <str as PartialEq>::eq ](a: &str, b: &str) -> (same: bool)
    ensures
        same == (a@ == b@),
;

/// The characters of a text, in order.
pub fn characters(text: &str) -> (list: Vec<char>)
    ensures
        list@ == text@,
{
    broadcast use vstd::string::group_string_axioms;
    let mut rest = text.chars();
    let mut list: Vec<char> = Vec::new();
    loop
        invariant
            rest.obeys_prophetic_iter_laws(),
            rest.decrease() is Some,
            list@ + rest.remaining() == text@,
        ensures
            list@ == text@,
        decreases rest.decrease()->0,
    {
        let ghost before = rest.remaining();
        match rest.next() {
            Some(c) => {
                list.push(c);
                assert(list@ + rest.remaining() =~= (list@.drop_last() + before));
            },
            None => {
                assert(list@ + before =~= list@);
                break;
            },
        }
    }
    list
}

} // verus!
