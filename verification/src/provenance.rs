//! Where the parts of a parsed expression come from: every name in it is a
//! word that the lexer read, and every operator in it is one that the
//! grammar puts in that place.

use vstd::prelude::*;
use crate::ast::ExpressionView;
use crate::ast::StatementView;
use crate::chars::alphabetic;
use crate::cursor::advance_by;
use crate::cursor::current;
use crate::cursor::peek;
use crate::grammar::binding_power;
use crate::grammar::conditional;
use crate::grammar::expression;
use crate::grammar::listed;
use crate::grammar::operand;
use crate::grammar::operators;
use crate::grammar::program;
use crate::grammar::recovered;
use crate::grammar::statement;
use crate::lexer::blanks;
use crate::lexer::leading;
use crate::lexer::lemma_leading_bound;
use crate::lexer::lemma_next_token_bound;
use crate::lexer::lemma_tokens_unfold;
use crate::lexer::letters;
use crate::lexer::next_token_spec;
use crate::lexer::tokens;
use crate::parser::Precedence;
use crate::plain::is_binary_operator;
use crate::plain::is_prefix_operator;
use crate::plain::is_word;
use crate::plain::plain;
use crate::token::TokenView;

verus! {

/// Whether an identifier token carries a word.
pub open spec fn worded(token: TokenView) -> bool {
    match token {
        TokenView::Identifier(name) => is_word(name),
        _ => true,
    }
}

/// Whether every identifier token of a sequence carries a word.
pub open spec fn all_worded(ts: Seq<TokenView>) -> bool {
    forall|i: int| 0 <= i < ts.len() ==> worded(#[trigger] ts[i])
}

/// Whether the names and operators of an expression, as far as it is made
/// of names, literals and operators, are words and operators of the right
/// kind. Nothing is asked of a conditional, a function literal or a call.
pub open spec fn well_named(e: ExpressionView) -> bool
    decreases e,
{
    match e {
        ExpressionView::Identifier { value } => is_word(value),
        ExpressionView::Prefix { prefix, right } => is_prefix_operator(prefix) && well_named(
            *right,
        ),
        ExpressionView::Infix { left, operator, right } => is_binary_operator(operator)
            && well_named(*left) && well_named(*right),
        _ => true,
    }
}

/// Whether an expression is made of names, literals, prefix operators and
/// binary operators only.
pub open spec fn operators_only(e: ExpressionView) -> bool
    decreases e,
{
    match e {
        ExpressionView::Identifier { value } => true,
        ExpressionView::Integer { value } => true,
        ExpressionView::Boolean { value } => true,
        ExpressionView::Prefix { prefix, right } => operators_only(*right),
        ExpressionView::Infix { left, operator, right } => operators_only(*left) && operators_only(
            *right,
        ),
        _ => false,
    }
}

/// A well-named expression of operators only is plain.
pub proof fn lemma_plain_by_parts(e: ExpressionView)
    requires
        well_named(e),
        operators_only(e),
    ensures
        plain(e),
    decreases e,
{
    match e {
        ExpressionView::Prefix { prefix, right } => {
            lemma_plain_by_parts(*right);
        },
        ExpressionView::Infix { left, operator, right } => {
            lemma_plain_by_parts(*left);
            lemma_plain_by_parts(*right);
        },
        _ => {},
    }
}

/// Every character of a run belongs to the class, and the character behind
/// the run does not.
pub proof fn lemma_leading_members(s: Seq<char>, class: spec_fn(char) -> bool)
    ensures
        leading(s, class) <= s.len(),
        forall|i: int| 0 <= i < leading(s, class) ==> class(#[trigger] s[i]),
        leading(s, class) < s.len() ==> !class(s[leading(s, class) as int]),
    decreases s.len(),
{
    lemma_leading_bound(s, class);
    if s.len() > 0 && class(s[0]) {
        let tail = s.skip(1);
        lemma_leading_members(tail, class);
        assert forall|i: int| 0 <= i < leading(s, class) implies class(#[trigger] s[i]) by {
            if i > 0 {
                assert(s[i] == tail[i - 1]);
            }
        }
        if leading(s, class) < s.len() {
            assert(s[leading(s, class) as int] == tail[leading(tail, class) as int]);
        }
    }
}

/// An identifier token that the lexer gives carries a word.
pub proof fn lemma_next_token_worded(s: Seq<char>)
    ensures
        worded(next_token_spec(s).0),
{
    let blank = leading(s, blanks());
    lemma_leading_bound(s, blanks());
    lemma_leading_members(s, blanks());
    let rest = s.skip(blank as int);
    if rest.len() > 0 {
        assert(rest[0] == s[blank as int]);
        assert(!blanks()(rest[0]));
        let n = leading(rest, letters());
        lemma_leading_bound(rest, letters());
        lemma_leading_members(rest, letters());
        let word = rest.take(n as int);
        if alphabetic(rest[0]) {
            assert(letters()(rest[0]));
            assert forall|i: int| 0 <= i < word.len() implies alphabetic(#[trigger] word[i]) by {
                assert(word[i] == rest[i]);
                assert(letters()(rest[i]));
            }
            assert(word[0] == rest[0]);
        }
    }
}

/// Every identifier token of a text carries a word.
pub proof fn lemma_tokens_worded(s: Seq<char>)
    ensures
        all_worded(tokens(s)),
    decreases s.len(),
{
    lemma_tokens_unfold(s);
    lemma_next_token_bound(s);
    lemma_next_token_worded(s);
    let (token, length) = next_token_spec(s);
    if !(token is EndOfFile) {
        let rest = tokens(s.skip(length as int));
        lemma_tokens_worded(s.skip(length as int));
        assert forall|i: int| 0 <= i < tokens(s).len() implies worded(#[trigger] tokens(s)[i]) by {
            if i > 0 {
                assert(tokens(s)[i] == rest[i - 1]);
            }
        }
    }
}

/// What remains after advancing holds only tokens that were there before.
pub proof fn lemma_advance_worded(ts: Seq<TokenView>, n: nat)
    requires
        all_worded(ts),
    ensures
        all_worded(advance_by(ts, n)),
        worded(current(advance_by(ts, n))),
        worded(peek(advance_by(ts, n))),
        worded(current(ts)),
        worded(peek(ts)),
{
    reveal(advance_by);
    let after = advance_by(ts, n);
    assert forall|i: int| 0 <= i < after.len() implies worded(#[trigger] after[i]) by {
        assert(after[i] == ts[i + n]);
    }
}

/// A conditional that parses is a conditional node.
pub proof fn lemma_conditional_shape(ts: Seq<TokenView>)
    ensures
        conditional(ts).value is Some ==> conditional(ts).value->0 is If,
{
}

/// What the expression productions build from worded tokens is well named.
pub proof fn lemma_expression_named(ts: Seq<TokenView>, threshold: Precedence)
    requires
        all_worded(ts),
    ensures
        expression(ts, threshold).value is Some ==> well_named(expression(ts, threshold).value->0),
    decreases ts.len(), 3nat,
{
    broadcast use crate::cursor::lemma_advance_by_len;

    let head = operand(ts);
    lemma_operand_named(ts);
    if head.value is Some {
        lemma_advance_worded(ts, head.consumed);
        lemma_operators_named(advance_by(ts, head.consumed), head.value->0, threshold);
    }
}

/// What stands in operand position, built from worded tokens, is well
/// named.
pub proof fn lemma_operand_named(ts: Seq<TokenView>)
    requires
        all_worded(ts),
    ensures
        operand(ts).value is Some ==> well_named(operand(ts).value->0),
    decreases ts.len(), 2nat,
{
    broadcast use crate::cursor::lemma_advance_by_len;

    lemma_advance_worded(ts, 1);
    match current(ts) {
        TokenView::Bang | TokenView::Minus => {
            lemma_expression_named(advance_by(ts, 1), Precedence::Prefix);
        },
        TokenView::LeftParenthesis => {
            lemma_expression_named(advance_by(ts, 1), Precedence::Lowest);
        },
        TokenView::If => {
            lemma_conditional_shape(ts);
        },
        _ => {},
    }
}

/// Folding operators over a well-named operand, from worded tokens, keeps
/// the result well named.
pub proof fn lemma_operators_named(ts: Seq<TokenView>, left: ExpressionView, threshold: Precedence)
    requires
        all_worded(ts),
        well_named(left),
    ensures
        operators(ts, left, threshold).value is Some ==> well_named(
            operators(ts, left, threshold).value->0,
        ),
    decreases ts.len(), 0nat,
{
    broadcast use crate::cursor::lemma_advance_by_len;

    if !(current(ts) is Semicolon) && threshold.level() < binding_power(peek(ts)).level() {
        let right = expression(advance_by(ts, 2), binding_power(peek(ts)));
        lemma_advance_worded(ts, 2);
        lemma_expression_named(advance_by(ts, 2), binding_power(peek(ts)));
        if right.value is Some {
            let folded = ExpressionView::Infix {
                left: Box::new(left),
                operator: peek(ts),
                right: Box::new(right.value->0),
            };
            lemma_advance_worded(ts, 2 + right.consumed);
            lemma_operators_named(advance_by(ts, 2 + right.consumed), folded, threshold);
        }
    }
}

/// Whether every expression statement of a list holds a well-named
/// expression.
pub open spec fn statements_named(list: Seq<StatementView>) -> bool {
    forall|i: int|
        0 <= i < list.len() && (#[trigger] list[i]) is Expression ==> well_named(
            list[i]->expression,
        )
}

/// An expression that stands as a statement of a program parsed from worded
/// tokens is well named.
pub proof fn lemma_program_named(ts: Seq<TokenView>)
    requires
        all_worded(ts),
    ensures
        program(ts).value is Some,
        statements_named(program(ts).value->0),
    decreases ts.len(),
{
    broadcast use crate::cursor::lemma_advance_by_len;

    if !(current(ts) is EndOfFile) {
        let first = recovered(ts);
        let after = advance_by(ts, first.consumed + 1);
        lemma_advance_worded(ts, first.consumed + 1);
        lemma_program_named(after);
        lemma_expression_named(ts, Precedence::Lowest);
        let rest = program(after).value->0;
        let all = program(ts).value->0;
        assert(all == listed(first.value) + rest);
        assert forall|i: int| 0 <= i < all.len() && (#[trigger] all[i]) is Expression implies well_named(
            all[i]->expression,
        ) by {
            if first.value is Some {
                if i == 0 {
                    assert(all[0] == first.value->0);
                    assert(statement(ts).value == first.value);
                } else {
                    assert(all[i] == rest[i - 1]);
                }
            } else {
                assert(all[i] == rest[i]);
            }
        }
    }
}

} // verus!
