//! No production fails in silence: whenever one builds nothing, it has
//! reported a problem.

use vstd::prelude::*;
use crate::ast::ExpressionView;
use crate::cursor::advance_by;
use crate::cursor::current;
use crate::cursor::peek;
use crate::grammar::alternative;
use crate::grammar::binding_power;
use crate::grammar::block;
use crate::grammar::block_items;
use crate::grammar::conditional;
use crate::grammar::expression;
use crate::grammar::expression_statement;
use crate::grammar::let_statement;
use crate::grammar::operand;
use crate::grammar::operators;
use crate::grammar::recovered;
use crate::grammar::return_statement;
use crate::grammar::statement;
use crate::parser::Precedence;
use crate::token::TokenView;

verus! {

broadcast use crate::cursor::lemma_advance_by_len;

/// An expression that fails reports a problem.
pub proof fn lemma_expression_reports(ts: Seq<TokenView>, threshold: Precedence)
    ensures
        expression(ts, threshold).value is None ==> expression(ts, threshold).errors.len() > 0,
    decreases ts.len(), 3nat,
{
    let head = operand(ts);
    lemma_operand_reports(ts);
    if head.value is Some {
        lemma_operators_reports(advance_by(ts, head.consumed), head.value->0, threshold);
    }
}

/// An operand that fails reports a problem.
pub proof fn lemma_operand_reports(ts: Seq<TokenView>)
    ensures
        operand(ts).value is None ==> operand(ts).errors.len() > 0,
    decreases ts.len(), 2nat,
{
    match current(ts) {
        TokenView::Bang | TokenView::Minus => {
            lemma_expression_reports(advance_by(ts, 1), Precedence::Prefix);
        },
        TokenView::LeftParenthesis => {
            lemma_expression_reports(advance_by(ts, 1), Precedence::Lowest);
        },
        TokenView::If => {
            lemma_conditional_reports(ts);
        },
        _ => {},
    }
}

/// A chain of operators that fails reports a problem.
pub proof fn lemma_operators_reports(
    ts: Seq<TokenView>,
    left: ExpressionView,
    threshold: Precedence,
)
    ensures
        operators(ts, left, threshold).value is None ==> operators(ts, left, threshold).errors.len()
            > 0,
    decreases ts.len(), 0nat,
{
    if !(current(ts) is Semicolon) && threshold.level() < binding_power(peek(ts)).level() {
        let right = expression(advance_by(ts, 2), binding_power(peek(ts)));
        lemma_expression_reports(advance_by(ts, 2), binding_power(peek(ts)));
        if right.value is Some {
            let folded = ExpressionView::Infix {
                left: Box::new(left),
                operator: peek(ts),
                right: Box::new(right.value->0),
            };
            lemma_operators_reports(advance_by(ts, 2 + right.consumed), folded, threshold);
        }
    }
}

/// A conditional that fails reports a problem.
pub proof fn lemma_conditional_reports(ts: Seq<TokenView>)
    ensures
        conditional(ts).value is None ==> conditional(ts).errors.len() > 0,
    decreases ts.len(), 1nat,
{
    if peek(ts) is LeftParenthesis {
        let condition = expression(advance_by(ts, 2), Precedence::Lowest);
        lemma_expression_reports(advance_by(ts, 2), Precedence::Lowest);
        let n = 2 + condition.consumed;
        if condition.value is Some && peek(advance_by(ts, n)) is RightParenthesis && peek(
            advance_by(ts, n + 1),
        ) is LeftBrace {
            let consequence = block(advance_by(ts, n + 2));
            lemma_block_reports(advance_by(ts, n + 2));
            let m = n + 2 + consequence.consumed;
            if consequence.value is Some {
                lemma_alternative_reports(advance_by(ts, m));
            }
        }
    }
}

/// An alternative that fails reports a problem.
pub proof fn lemma_alternative_reports(ts: Seq<TokenView>)
    ensures
        alternative(ts).value is None ==> alternative(ts).errors.len() > 0,
    decreases ts.len(), 9nat,
{
    if peek(ts) is Else && peek(advance_by(ts, 1)) is LeftBrace {
        lemma_block_reports(advance_by(ts, 2));
    }
}

/// A block that fails reports a problem.
pub proof fn lemma_block_reports(ts: Seq<TokenView>)
    ensures
        block(ts).value is None ==> block(ts).errors.len() > 0,
    decreases ts.len(), 8nat,
{
    lemma_block_items_reports(advance_by(ts, 1));
}

/// The statements of a block, where they fail, report a problem.
pub proof fn lemma_block_items_reports(ts: Seq<TokenView>)
    ensures
        block_items(ts).value is None ==> block_items(ts).errors.len() > 0,
    decreases ts.len(), 7nat,
{
    if !(current(ts) is RightBrace) && !(current(ts) is EndOfFile) {
        let first = recovered(ts);
        lemma_block_items_reports(advance_by(ts, first.consumed + 1));
    }
}

/// A statement that fails reports a problem, and so does one that fails
/// and is recovered from.
pub proof fn lemma_statement_reports(ts: Seq<TokenView>)
    ensures
        statement(ts).value is None ==> statement(ts).errors.len() > 0,
        recovered(ts).value is None ==> recovered(ts).errors.len() > 0,
        let_statement(ts).value is None ==> let_statement(ts).errors.len() > 0,
        return_statement(ts).value is None ==> return_statement(ts).errors.len() > 0,
        expression_statement(ts).value is None ==> expression_statement(ts).errors.len() > 0,
{
    lemma_expression_reports(ts, Precedence::Lowest);
    lemma_expression_reports(advance_by(ts, 1), Precedence::Lowest);
    lemma_expression_reports(advance_by(ts, 3), Precedence::Lowest);
}

} // verus!
