//! Parsing the tokens of a plain expression gives the expression back.

use vstd::prelude::*;
use crate::ast::ExpressionView;
use crate::ast::StatementView;
use crate::cursor::advance_by;
use crate::cursor::current;
use crate::cursor::peek;
use crate::grammar::binding_power;
use crate::grammar::expression;
use crate::grammar::expression_statement;
use crate::grammar::listed;
use crate::grammar::operand;
use crate::grammar::operators;
use crate::grammar::program;
use crate::grammar::recovered;
use crate::grammar::statement;
use crate::grammar::success;
use crate::grammar::terminator;
use crate::parser::Diagnostic;
use crate::parser::Precedence;
use crate::plain::plain;
use crate::plain::plain_tokens;
use crate::token::TokenView;

verus! {

/// Advancing over all of `front` leaves what follows it.
pub proof fn lemma_advance_over(front: Seq<TokenView>, rest: Seq<TokenView>)
    ensures
        advance_by(front + rest, front.len()) == rest,
{
    reveal(advance_by);
    assert((front + rest).skip(front.len() as int) =~= rest);
}

/// Advancing to the last token of `front` leaves that token and what
/// follows it.
pub proof fn lemma_advance_to_last(front: Seq<TokenView>, rest: Seq<TokenView>)
    requires
        front.len() >= 1,
    ensures
        advance_by(front + rest, (front.len() - 1) as nat) == seq![front.last()] + rest,
{
    reveal(advance_by);
    assert((front + rest).skip(front.len() - 1) =~= seq![front.last()] + rest);
}

/// The tokens of a plain expression are at least one, the first of them
/// starts an operand and no statement of its own kind, and the last of them
/// is no semicolon.
pub proof fn lemma_plain_tokens_ends(e: ExpressionView)
    requires
        plain(e),
    ensures
        plain_tokens(e).len() >= 1,
        !(plain_tokens(e).last() is Semicolon),
        !(plain_tokens(e).last() is EndOfFile),
        !(plain_tokens(e)[0] is Let),
        !(plain_tokens(e)[0] is Return),
        !(plain_tokens(e)[0] is EndOfFile),
        !(plain_tokens(e)[0] is Semicolon),
        binding_power(plain_tokens(e)[0]).level() == 0,
{
}

/// An expression ends once the token behind its operand binds no more
/// tightly than the threshold.
pub proof fn lemma_operators_stop(
    last: TokenView,
    rest: Seq<TokenView>,
    left: ExpressionView,
    threshold: Precedence,
)
    requires
        binding_power(current(rest)).level() <= threshold.level(),
    ensures
        operators(seq![last] + rest, left, threshold) == success(left, 0, Seq::empty()),
{
    let ts = seq![last] + rest;
    if rest.len() > 0 {
        assert(ts[1] == rest[0]);
    }
    assert(peek(ts) == current(rest));
}

/// Parentheses round an expression leave the expression: where `inner`
/// parses to `e` in front of a closing parenthesis, the same tokens between
/// parentheses are an operand that is `e`.
pub proof fn lemma_group_parses(inner: Seq<TokenView>, e: ExpressionView, rest: Seq<TokenView>)
    requires
        inner.len() >= 1,
        expression(inner + (seq![TokenView::RightParenthesis] + rest), Precedence::Lowest)
            == success(e, (inner.len() - 1) as nat, Seq::empty()),
    ensures
        operand(seq![TokenView::LeftParenthesis] + inner + seq![TokenView::RightParenthesis] + rest)
            == success(e, inner.len() + 1, Seq::empty()),
{
    let closing = seq![TokenView::RightParenthesis] + rest;
    let ts = seq![TokenView::LeftParenthesis] + inner + seq![TokenView::RightParenthesis] + rest;
    let behind_open = inner + closing;
    assert(ts =~= seq![TokenView::LeftParenthesis] + behind_open);
    assert(ts[0] == TokenView::LeftParenthesis);
    lemma_advance_over(seq![TokenView::LeftParenthesis], behind_open);
    assert(ts =~= (seq![TokenView::LeftParenthesis] + inner) + closing);
    lemma_advance_to_last(seq![TokenView::LeftParenthesis] + inner, closing);
    let at = seq![inner.last()] + closing;
    assert((seq![TokenView::LeftParenthesis] + inner).last() == inner.last());
    assert(at[1] == TokenView::RightParenthesis);
    assert(peek(advance_by(ts, inner.len())) == TokenView::RightParenthesis);
}

/// A prefix operator in front of tokens that parse to `right` makes the
/// prefix expression.
pub proof fn lemma_prefix_parses(
    prefix: TokenView,
    inner: Seq<TokenView>,
    right: ExpressionView,
    closing: Seq<TokenView>,
)
    requires
        prefix is Bang || prefix is Minus,
        inner.len() >= 1,
        !(inner.last() is Semicolon),
        expression(inner + closing, Precedence::Prefix) == success(
            right,
            (inner.len() - 1) as nat,
            Seq::empty(),
        ),
        binding_power(current(closing)).level() == 0,
    ensures
        expression(seq![prefix] + inner + closing, Precedence::Lowest) == success(
            ExpressionView::Prefix { prefix, right: Box::new(right) },
            inner.len(),
            Seq::empty(),
        ),
{
    let none = Seq::<Diagnostic>::empty();
    let e = ExpressionView::Prefix { prefix, right: Box::new(right) };
    let ts = seq![prefix] + inner + closing;
    assert(ts =~= seq![prefix] + (inner + closing));
    assert(ts[0] == prefix);
    lemma_advance_over(seq![prefix], inner + closing);
    assert(operand(ts) == success(e, inner.len(), none));
    lemma_advance_to_last(seq![prefix] + inner, closing);
    assert((seq![prefix] + inner).last() == inner.last());
    lemma_operators_stop(inner.last(), closing, e, Precedence::Lowest);
    assert(none + none =~= none);
}

/// A binary operator between tokens that parse to `left` and tokens that
/// parse to `right` makes the infix expression.
pub proof fn lemma_infix_parses(
    left_tokens: Seq<TokenView>,
    left: ExpressionView,
    operator: TokenView,
    right_tokens: Seq<TokenView>,
    right: ExpressionView,
    closing: Seq<TokenView>,
)
    requires
        binding_power(operator).level() > 0,
        left_tokens.len() >= 1,
        right_tokens.len() >= 1,
        !(left_tokens.last() is Semicolon),
        !(right_tokens.last() is Semicolon),
        operand(left_tokens + (seq![operator] + (right_tokens + closing))) == success(
            left,
            (left_tokens.len() - 1) as nat,
            Seq::empty(),
        ),
        expression(right_tokens + closing, binding_power(operator)) == success(
            right,
            (right_tokens.len() - 1) as nat,
            Seq::empty(),
        ),
        binding_power(current(closing)).level() == 0,
    ensures
        expression(left_tokens + seq![operator] + right_tokens + closing, Precedence::Lowest)
            == success(
            ExpressionView::Infix { left: Box::new(left), operator, right: Box::new(right) },
            left_tokens.len() + right_tokens.len(),
            Seq::empty(),
        ),
{
    let none = Seq::<Diagnostic>::empty();
    let e = ExpressionView::Infix { left: Box::new(left), operator, right: Box::new(right) };
    let behind_operator = right_tokens + closing;
    let behind_left = seq![operator] + behind_operator;
    let ts = left_tokens + seq![operator] + right_tokens + closing;
    assert(ts =~= left_tokens + behind_left);
    assert(none + none =~= none);
    lemma_advance_to_last(left_tokens, behind_left);
    let at_left = seq![left_tokens.last()] + behind_left;
    assert(at_left[1] == operator);
    assert(at_left =~= seq![left_tokens.last(), operator] + behind_operator);
    lemma_advance_over(seq![left_tokens.last(), operator], behind_operator);
    lemma_advance_to_last(right_tokens, closing);
    crate::cursor::lemma_advance_by_sum(at_left, 2, (right_tokens.len() - 1) as nat);
    lemma_operators_stop(right_tokens.last(), closing, e, Precedence::Lowest);
    assert(operators(at_left, left, Precedence::Lowest) == success(e, right_tokens.len() + 1, none));
}

/// The tokens of a plain expression parse to the expression, as an operand
/// and as an expression, whatever follows them, so long as it binds no more
/// tightly than the threshold. The cursor stops on the last of the tokens.
pub proof fn lemma_plain_parses(e: ExpressionView, rest: Seq<TokenView>, threshold: Precedence)
    requires
        plain(e),
        binding_power(current(rest)).level() <= threshold.level(),
    ensures
        operand(plain_tokens(e) + rest) == success(
            e,
            (plain_tokens(e).len() - 1) as nat,
            Seq::empty(),
        ),
        expression(plain_tokens(e) + rest, threshold) == success(
            e,
            (plain_tokens(e).len() - 1) as nat,
            Seq::empty(),
        ),
    decreases e,
{
    let own = plain_tokens(e);
    let ts = own + rest;
    let none = Seq::<Diagnostic>::empty();
    let closing = seq![TokenView::RightParenthesis] + rest;
    lemma_plain_tokens_ends(e);
    assert(ts[0] == own[0]);
    assert(none + none =~= none);
    assert(current(closing) == TokenView::RightParenthesis);
    match e {
        ExpressionView::Prefix { prefix, right } => {
            let inner = plain_tokens(*right);
            lemma_plain_tokens_ends(*right);
            lemma_plain_parses(*right, closing, Precedence::Prefix);
            lemma_prefix_parses(prefix, inner, *right, closing);
            assert(seq![prefix] + inner + closing =~= (seq![prefix] + inner) + closing);
            lemma_group_parses(seq![prefix] + inner, e, rest);
            assert(ts =~= seq![TokenView::LeftParenthesis] + (seq![prefix] + inner) + seq![
                TokenView::RightParenthesis,
            ] + rest);
        },
        ExpressionView::Infix { left, operator, right } => {
            let left_tokens = plain_tokens(*left);
            let right_tokens = plain_tokens(*right);
            lemma_plain_tokens_ends(*left);
            lemma_plain_tokens_ends(*right);
            lemma_plain_parses(
                *left,
                seq![operator] + (right_tokens + closing),
                binding_power(operator),
            );
            lemma_plain_parses(*right, closing, binding_power(operator));
            lemma_infix_parses(left_tokens, *left, operator, right_tokens, *right, closing);
            let bare = left_tokens + seq![operator] + right_tokens;
            assert(bare + closing =~= left_tokens + seq![operator] + right_tokens + closing);
            lemma_group_parses(bare, e, rest);
            assert(ts =~= seq![TokenView::LeftParenthesis] + bare + seq![
                TokenView::RightParenthesis,
            ] + rest);
        },
        _ => {
            assert(own.len() == 1);
        },
    }
    lemma_advance_to_last(own, rest);
    lemma_operators_stop(own.last(), rest, e, threshold);
}

/// A statement that is a plain expression.
pub open spec fn plain_statement(s: StatementView) -> bool {
    s is Expression && plain(s->expression)
}

/// A program whose statements are plain expressions.
pub open spec fn plain_program(list: Seq<StatementView>) -> bool {
    forall|i: int| 0 <= i < list.len() ==> plain_statement(#[trigger] list[i])
}

/// The tokens of the text of a plain program: those of its statements, one
/// after the other.
pub open spec fn program_tokens(list: Seq<StatementView>) -> Seq<TokenView>
    decreases list.len(),
{
    if list.len() == 0 {
        Seq::empty()
    } else {
        plain_tokens(list[0]->expression) + program_tokens(list.skip(1))
    }
}

/// The tokens of a plain program start with no operator and no semicolon.
pub proof fn lemma_program_tokens_front(list: Seq<StatementView>)
    requires
        plain_program(list),
    ensures
        binding_power(current(program_tokens(list))).level() == 0,
        !(current(program_tokens(list)) is Semicolon),
        list.len() == 0 ==> program_tokens(list).len() == 0,
{
    if list.len() > 0 {
        assert(plain_statement(list[0]));
        lemma_plain_tokens_ends(list[0]->expression);
        let own = plain_tokens(list[0]->expression);
        assert((own + program_tokens(list.skip(1)))[0] == own[0]);
    }
}

/// The tokens of a plain program parse to that program, statement by
/// statement, and no problem is reported.
pub proof fn lemma_plain_program(list: Seq<StatementView>)
    requires
        plain_program(list),
    ensures
        program(program_tokens(list)) == success(list, program_tokens(list).len(), Seq::empty()),
    decreases list.len(),
{
    let none = Seq::<Diagnostic>::empty();
    let ts = program_tokens(list);
    if list.len() == 0 {
        assert(list =~= Seq::<StatementView>::empty());
    } else {
        let one = list[0];
        let e = one->expression;
        let own = plain_tokens(e);
        let others = list.skip(1);
        let rest = program_tokens(others);
        assert(plain_statement(one));
        assert forall|i: int| 0 <= i < others.len() implies plain_statement(
            #[trigger] others[i],
        ) by {
            assert(others[i] == list[i + 1]);
        }
        lemma_plain_tokens_ends(e);
        lemma_program_tokens_front(others);
        lemma_plain_parses(e, rest, Precedence::Lowest);
        lemma_advance_to_last(own, rest);
        lemma_advance_over(own, rest);
        let at_last = seq![own.last()] + rest;
        if rest.len() > 0 {
            assert(at_last[1] == rest[0]);
        }
        assert(peek(at_last) == current(rest));
        assert(terminator(at_last) == 0);
        assert(ts[0] == own[0]);
        assert(expression_statement(ts) == success(one, (own.len() - 1) as nat, none));
        assert(statement(ts) == expression_statement(ts));
        assert(recovered(ts) == statement(ts));
        lemma_plain_program(others);
        assert(listed(Some(one)) + others =~= list);
        assert(none + none =~= none);
    }
}

} // verus!
