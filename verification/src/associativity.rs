//! How two binary operators in a row are grouped: the tighter one takes the
//! operand between them, and of two that bind alike the left one does.

use vstd::prelude::*;
use crate::ast::ExpressionView;
use crate::cursor::advance_by;
use crate::cursor::current;
use crate::cursor::peek;
use crate::grammar::binding_power;
use crate::grammar::expression;
use crate::grammar::operand;
use crate::grammar::operators;
use crate::grammar::success;
use crate::parser::Diagnostic;
use crate::parser::Precedence;
use crate::token::TokenView;

verus! {

/// The expression that a token is by itself, if it is a name or a literal.
pub open spec fn atom(token: TokenView) -> Option<ExpressionView> {
    match token {
        TokenView::Identifier(name) => Some(ExpressionView::Identifier { value: name }),
        TokenView::Integer(value) => Some(ExpressionView::Integer { value }),
        TokenView::True => Some(ExpressionView::Boolean { value: true }),
        TokenView::False => Some(ExpressionView::Boolean { value: false }),
        _ => None,
    }
}

/// The infix expression of two operands and their operator.
pub open spec fn infix(
    left: ExpressionView,
    operator: TokenView,
    right: ExpressionView,
) -> ExpressionView {
    ExpressionView::Infix { left: Box::new(left), operator, right: Box::new(right) }
}

/// A name or a literal, followed by nothing that binds more tightly than
/// the threshold, is an expression by itself.
pub proof fn lemma_atom_alone(token: TokenView, rest: Seq<TokenView>, threshold: Precedence)
    requires
        atom(token) is Some,
        binding_power(current(rest)).level() <= threshold.level(),
    ensures
        expression(seq![token] + rest, threshold) == success(atom(token)->0, 0, Seq::empty()),
{
    let ts = seq![token] + rest;
    let none = Seq::<Diagnostic>::empty();
    assert(ts[0] == token);
    if rest.len() > 0 {
        assert(ts[1] == rest[0]);
    }
    assert(peek(ts) == current(rest));
    assert(operand(ts) == success(atom(token)->0, 0, none));
    crate::cursor::lemma_advance_by_none(ts);
    assert(none + none =~= none);
}

/// An operand, an operator and a name or literal, followed by nothing that
/// binds more tightly than the threshold, fold into one infix expression.
pub proof fn lemma_fold_once(
    last: TokenView,
    left: ExpressionView,
    operator: TokenView,
    right: TokenView,
    rest: Seq<TokenView>,
    threshold: Precedence,
)
    requires
        !(last is Semicolon),
        atom(right) is Some,
        threshold.level() < binding_power(operator).level(),
        binding_power(current(rest)).level() <= threshold.level(),
    ensures
        operators(seq![last, operator, right] + rest, left, threshold) == success(
            infix(left, operator, atom(right)->0),
            2,
            Seq::empty(),
        ),
{
    let ts = seq![last, operator, right] + rest;
    let none = Seq::<Diagnostic>::empty();
    assert(ts[0] == last && ts[1] == operator);
    assert(ts =~= seq![last, operator] + (seq![right] + rest));
    crate::reparsing::lemma_advance_over(seq![last, operator], seq![right] + rest);
    lemma_atom_alone(right, rest, binding_power(operator));
    let at_right = seq![right] + rest;
    if rest.len() > 0 {
        assert(at_right[1] == rest[0]);
    }
    assert(peek(at_right) == current(rest));
    assert(!(current(at_right) is Semicolon));
    assert(operators(at_right, infix(left, operator, atom(right)->0), threshold) == success(
        infix(left, operator, atom(right)->0),
        0,
        none,
    ));
    assert(none + none =~= none);
}

/// Two binary operators between three names or literals: the operand in the
/// middle goes to the right operator where that one binds more tightly, and
/// to the left operator otherwise, so that operators that bind alike group
/// to the left.
pub proof fn lemma_two_operators(
    a: TokenView,
    first: TokenView,
    b: TokenView,
    second: TokenView,
    c: TokenView,
)
    requires
        atom(a) is Some,
        atom(b) is Some,
        atom(c) is Some,
        binding_power(first).level() > 0,
        binding_power(second).level() > 0,
    ensures
        expression(seq![a, first, b, second, c], Precedence::Lowest) == success(
            if binding_power(first).level() < binding_power(second).level() {
                infix(atom(a)->0, first, infix(atom(b)->0, second, atom(c)->0))
            } else {
                infix(infix(atom(a)->0, first, atom(b)->0), second, atom(c)->0)
            },
            4,
            Seq::empty(),
        ),
{
    let ts = seq![a, first, b, second, c];
    let none = Seq::<Diagnostic>::empty();
    let nothing = Seq::<TokenView>::empty();
    let (left, middle, right) = (atom(a)->0, atom(b)->0, atom(c)->0);
    assert(none + none =~= none);
    assert(ts[0] == a && ts[1] == first);
    assert(operand(ts) == success(left, 0, none));
    crate::cursor::lemma_advance_by_none(ts);
    let behind_first = seq![b, second, c];
    assert(ts =~= seq![a, first] + behind_first);
    crate::reparsing::lemma_advance_over(seq![a, first], behind_first);
    assert(behind_first[0] == b && behind_first[1] == second);
    assert(operand(behind_first) == success(middle, 0, none));
    crate::cursor::lemma_advance_by_none(behind_first);
    assert(behind_first =~= seq![b, second, c] + nothing);
    let last = seq![c];
    if binding_power(first).level() < binding_power(second).level() {
        // the right operator takes the middle operand
        lemma_fold_once(b, middle, second, c, nothing, binding_power(first));
        assert(expression(behind_first, binding_power(first)) == success(
            infix(middle, second, right),
            2,
            none,
        ));
        crate::reparsing::lemma_advance_to_last(ts, nothing);
        assert(seq![c] + nothing =~= last);
        assert(operators(last, infix(left, first, infix(middle, second, right)), Precedence::Lowest)
            == success(infix(left, first, infix(middle, second, right)), 0, none));
    } else {
        // the left operator takes the middle operand
        assert(operators(behind_first, middle, binding_power(first)) == success(middle, 0, none));
        assert(expression(behind_first, binding_power(first)) == success(middle, 0, none));
        lemma_fold_once(b, infix(left, first, middle), second, c, nothing, Precedence::Lowest);
    }
}

} // verus!
