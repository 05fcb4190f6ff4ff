//! Numerals: how the digits that the lexer reads and the digits that the
//! renderer writes answer each other.

use vstd::prelude::*;
use crate::lexer::decimal_value;
use crate::lexer::is_decimal;
use crate::render::decimal_text;
use crate::render::digit_char;

verus! {

/// A numeral as the renderer writes it: one or more ASCII digits, the first
/// of which is no zero unless it stands alone.
pub open spec fn is_numeral(digits: Seq<char>) -> bool {
    &&& digits.len() >= 1
    &&& is_decimal(digits)
    &&& digits.len() > 1 ==> digits[0] != '0'
}

/// The digit character of `d` is an ASCII digit that stands for `d`.
pub proof fn lemma_digit_char(d: nat)
    requires
        d < 10,
    ensures
        '0' <= digit_char(d) && digit_char(d) <= '9',
        digit_char(d) as nat - '0' as nat == d,
{
}

/// An ASCII digit is the digit character of what it stands for.
pub proof fn lemma_char_digit(c: char)
    requires
        '0' <= c && c <= '9',
    ensures
        digit_char((c as nat - '0' as nat) as nat) == c,
{
}

/// What the renderer writes is a numeral, and reading it gives the number
/// back.
pub proof fn lemma_text_then_value(n: nat)
    ensures
        is_numeral(decimal_text(n)),
        decimal_value(decimal_text(n)) == n,
    decreases n,
{
    let text = decimal_text(n);
    if n < 10 {
        lemma_digit_char(n);
        assert(text.drop_last() =~= Seq::<char>::empty());
        assert(decimal_value(text.drop_last()) == 0);
    } else {
        let shorter = decimal_text(n / 10);
        lemma_text_then_value(n / 10);
        lemma_digit_char(n % 10);
        assert(text.drop_last() =~= shorter);
        assert(text.last() == digit_char(n % 10));
        assert(text[0] == shorter[0]);
        assert forall|i: int| 0 <= i < text.len() implies '0' <= #[trigger] text[i] && text[i]
            <= '9' by {
            if i < shorter.len() {
                assert(text[i] == shorter[i]);
            }
        }
        if shorter.len() == 1 {
            assert(shorter.drop_last() =~= Seq::<char>::empty());
            assert(decimal_value(shorter.drop_last()) == 0);
            assert(shorter[0] != '0');
        }
    }
}

/// A numeral whose first digit is no zero writes a number that is no zero.
pub proof fn lemma_numeral_positive(digits: Seq<char>)
    requires
        digits.len() >= 1,
        is_decimal(digits),
        digits[0] != '0',
    ensures
        decimal_value(digits) >= 1,
    decreases digits.len(),
{
    let shorter = digits.drop_last();
    if digits.len() == 1 {
        assert(shorter =~= Seq::<char>::empty());
        assert(decimal_value(shorter) == 0);
        assert(digits.last() == digits[0]);
    } else {
        assert(shorter[0] == digits[0]);
        assert forall|i: int| 0 <= i < shorter.len() implies '0' <= #[trigger] shorter[i]
            && shorter[i] <= '9' by {
            assert(shorter[i] == digits[i]);
        }
        lemma_numeral_positive(shorter);
    }
}

/// Reading a numeral and writing the number gives the numeral back.
pub proof fn lemma_value_then_text(digits: Seq<char>)
    requires
        is_numeral(digits),
    ensures
        decimal_text(decimal_value(digits)) == digits,
    decreases digits.len(),
{
    let shorter = digits.drop_last();
    let last = digits.last();
    let d = (last as nat - '0' as nat) as nat;
    assert('0' <= last && last <= '9');
    lemma_char_digit(last);
    if digits.len() == 1 {
        assert(shorter =~= Seq::<char>::empty());
        assert(decimal_value(shorter) == 0);
        assert(decimal_value(digits) == d);
        assert(decimal_text(d) =~= digits);
    } else {
        assert(shorter[0] == digits[0]);
        assert forall|i: int| 0 <= i < shorter.len() implies '0' <= #[trigger] shorter[i]
            && shorter[i] <= '9' by {
            assert(shorter[i] == digits[i]);
        }
        lemma_numeral_positive(shorter);
        lemma_value_then_text(shorter);
        let v = decimal_value(shorter);
        assert(decimal_value(digits) == 10 * v + d);
        assert((10 * v + d) / 10 == v);
        assert((10 * v + d) % 10 == d);
        assert(decimal_text(10 * v + d) =~= digits);
    }
}

} // verus!
