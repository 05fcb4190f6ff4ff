//! Plain expressions: those made of names, literals and operators only,
//! and what the lexer makes of their text.

use vstd::prelude::*;
use crate::ast::ExpressionView;
use crate::chars::alphabetic;
use crate::chars::numeric;
use crate::chars::whitespace;
use crate::grammar::binding_power;
use crate::lexer::tokens;
use crate::numerals::lemma_text_then_value;
use crate::relexing::lemma_bang_tokens;
use crate::relexing::lemma_blank_tokens;
use crate::relexing::lemma_equal_tokens;
use crate::relexing::lemma_not_equal_tokens;
use crate::relexing::lemma_number_tokens;
use crate::relexing::lemma_symbol_tokens;
use crate::relexing::lemma_word_tokens;
use crate::render::boolean_text;
use crate::render::decimal_text;
use crate::render::expression_text;
use crate::render::token_text;
use crate::token::keyword;
use crate::token::TokenView;

verus! {

/// A word that the lexer reads as an identifier: letters only, at least
/// one, the first of them no white space, and no keyword.
pub open spec fn is_word(name: Seq<char>) -> bool {
    &&& name.len() >= 1
    &&& forall|i: int| 0 <= i < name.len() ==> alphabetic(#[trigger] name[i])
    &&& !whitespace(name[0])
    &&& keyword(name) is None
}

/// Whether a token is one of the two prefix operators.
pub open spec fn is_prefix_operator(token: TokenView) -> bool {
    token is Bang || token is Minus
}

/// Whether a token is one of the eight binary operators.
pub open spec fn is_binary_operator(token: TokenView) -> bool {
    binding_power(token).level() > 0
}

/// An expression made of names, literals, prefix operators and binary
/// operators only, each name a word.
pub open spec fn plain(e: ExpressionView) -> bool
    decreases e,
{
    match e {
        ExpressionView::Identifier { value } => is_word(value),
        ExpressionView::Integer { value } => true,
        ExpressionView::Boolean { value } => true,
        ExpressionView::Prefix { prefix, right } => is_prefix_operator(prefix) && plain(*right),
        ExpressionView::Infix { left, operator, right } => is_binary_operator(operator) && plain(
            *left,
        ) && plain(*right),
        _ => false,
    }
}

/// The tokens of the text of a plain expression: every operator between
/// parentheses with its operands.
pub open spec fn plain_tokens(e: ExpressionView) -> Seq<TokenView>
    decreases e,
{
    match e {
        ExpressionView::Identifier { value } => seq![TokenView::Identifier(value)],
        ExpressionView::Integer { value } => seq![TokenView::Integer(value)],
        ExpressionView::Boolean { value } => if value {
            seq![TokenView::True]
        } else {
            seq![TokenView::False]
        },
        ExpressionView::Prefix { prefix, right } => seq![TokenView::LeftParenthesis, prefix]
            + plain_tokens(*right) + seq![TokenView::RightParenthesis],
        ExpressionView::Infix { left, operator, right } => seq![TokenView::LeftParenthesis]
            + plain_tokens(*left) + seq![operator] + plain_tokens(*right) + seq![
            TokenView::RightParenthesis,
        ],
        _ => Seq::empty(),
    }
}

/// Whether `rest` can follow the text of `e` without running into it: a
/// name or a truth value is followed by no letter, a number by no numeric
/// character. Behind a closing parenthesis anything can follow.
pub open spec fn separate(e: ExpressionView, rest: Seq<char>) -> bool {
    rest.len() > 0 ==> match e {
        ExpressionView::Identifier { value } => !alphabetic(rest[0]),
        ExpressionView::Boolean { value } => !alphabetic(rest[0]),
        ExpressionView::Integer { value } => !numeric(rest[0]),
        _ => true,
    }
}

/// The text of an operator at the front of a text is one token, unless `=`
/// follows it.
pub proof fn lemma_operator_tokens(operator: TokenView, rest: Seq<char>)
    requires
        is_prefix_operator(operator) || is_binary_operator(operator),
        rest.len() > 0 ==> rest[0] != '=',
    ensures
        tokens(token_text(operator) + rest) == seq![operator] + tokens(rest),
{
    reveal_strlit("-");
    reveal_strlit("!");
    reveal_strlit("+");
    reveal_strlit("*");
    reveal_strlit("/");
    reveal_strlit("<");
    reveal_strlit(">");
    reveal_strlit("==");
    reveal_strlit("!=");
    let text = token_text(operator);
    match operator {
        TokenView::Bang => {
            assert(text =~= seq!['!']);
            lemma_bang_tokens(rest);
        },
        TokenView::Equal => {
            assert(text =~= seq!['=', '=']);
            lemma_equal_tokens(rest);
        },
        TokenView::NotEqual => {
            assert(text =~= seq!['!', '=']);
            lemma_not_equal_tokens(rest);
        },
        _ => {
            assert(text =~= seq![text[0]]);
            lemma_symbol_tokens(text[0], rest);
        },
    }
}

/// The text of a plain expression is not empty, and its first character is
/// neither `=` nor a space nor a closing parenthesis.
pub proof fn lemma_text_front(e: ExpressionView)
    requires
        plain(e),
    ensures
        expression_text(e).len() > 0,
        expression_text(e)[0] != '=',
{
    reveal_strlit("(");
    reveal_strlit("true");
    reveal_strlit("false");
    match e {
        ExpressionView::Integer { value } => {
            lemma_text_then_value(value as nat);
            let text = decimal_text(value as nat);
            assert('0' <= text[0] && text[0] <= '9');
        },
        _ => {},
    }
}

/// The text that stands behind the right operand of an operator: the
/// closing parenthesis and what follows it.
pub open spec fn behind_right(rest: Seq<char>) -> Seq<char> {
    seq![')'] + rest
}

/// The text that stands behind the left operand of a binary operator: the
/// operator between two spaces, the right operand, the closing parenthesis
/// and what follows it.
pub open spec fn behind_left(
    operator: TokenView,
    right: ExpressionView,
    rest: Seq<char>,
) -> Seq<char> {
    seq![' '] + (token_text(operator) + (seq![' '] + (expression_text(right) + behind_right(rest))))
}

/// The tokens of a prefix expression, given those of its operand.
pub proof fn lemma_prefix_tokens(prefix: TokenView, right: ExpressionView, rest: Seq<char>)
    requires
        is_prefix_operator(prefix),
        plain(right),
        tokens(expression_text(right) + behind_right(rest)) == plain_tokens(right) + tokens(
            behind_right(rest),
        ),
    ensures
        tokens(expression_text(ExpressionView::Prefix { prefix, right: Box::new(right) }) + rest)
            == plain_tokens(ExpressionView::Prefix { prefix, right: Box::new(right) }) + tokens(
            rest,
        ),
{
    reveal_strlit("(");
    reveal_strlit(")");
    let e = ExpressionView::Prefix { prefix, right: Box::new(right) };
    let open = seq!['('];
    assert("("@ =~= open);
    assert(")"@ =~= seq![')']);
    let r = expression_text(right);
    let after_operator = r + behind_right(rest);
    let after_open = token_text(prefix) + after_operator;
    assert(expression_text(e) + rest =~= open + after_open);
    lemma_symbol_tokens('(', after_open);
    lemma_text_front(right);
    assert(after_operator[0] == r[0]);
    lemma_operator_tokens(prefix, after_operator);
    lemma_symbol_tokens(')', rest);
    assert(plain_tokens(e) + tokens(rest) =~= seq![TokenView::LeftParenthesis] + (seq![prefix] + (
    plain_tokens(right) + (seq![TokenView::RightParenthesis] + tokens(rest)))));
}

/// The tokens of an infix expression, given those of its operands.
pub proof fn lemma_infix_tokens(
    left: ExpressionView,
    operator: TokenView,
    right: ExpressionView,
    rest: Seq<char>,
)
    requires
        is_binary_operator(operator),
        tokens(expression_text(left) + behind_left(operator, right, rest)) == plain_tokens(left)
            + tokens(behind_left(operator, right, rest)),
        tokens(expression_text(right) + behind_right(rest)) == plain_tokens(right) + tokens(
            behind_right(rest),
        ),
    ensures
        tokens(
            expression_text(
                ExpressionView::Infix { left: Box::new(left), operator, right: Box::new(right) },
            ) + rest,
        ) == plain_tokens(
            ExpressionView::Infix { left: Box::new(left), operator, right: Box::new(right) },
        ) + tokens(rest),
{
    reveal_strlit("(");
    reveal_strlit(")");
    reveal_strlit(" ");
    let e = ExpressionView::Infix { left: Box::new(left), operator, right: Box::new(right) };
    let open = seq!['('];
    let space = seq![' '];
    assert("("@ =~= open);
    assert(")"@ =~= seq![')']);
    assert(" "@ =~= space);
    let l = expression_text(left);
    let r = expression_text(right);
    let after_gap = r + behind_right(rest);
    let after_operator = space + after_gap;
    let after_space = token_text(operator) + after_operator;
    let after_open = l + behind_left(operator, right, rest);
    assert(expression_text(e) + rest =~= open + after_open);
    lemma_symbol_tokens('(', after_open);
    lemma_blank_tokens(after_space);
    lemma_operator_tokens(operator, after_operator);
    lemma_blank_tokens(after_gap);
    lemma_symbol_tokens(')', rest);
    assert(plain_tokens(e) + tokens(rest) =~= seq![TokenView::LeftParenthesis] + (plain_tokens(left)
        + (seq![operator] + (plain_tokens(right) + (seq![TokenView::RightParenthesis] + tokens(
        rest,
    ))))));
}

/// The lexer reads the text of a plain expression as the tokens of that
/// expression, whatever follows it separately.
pub proof fn lemma_expression_tokens(e: ExpressionView, rest: Seq<char>)
    requires
        plain(e),
        separate(e, rest),
    ensures
        tokens(expression_text(e) + rest) == plain_tokens(e) + tokens(rest),
    decreases e,
{
    match e {
        ExpressionView::Identifier { value } => {
            lemma_word_tokens(value, rest);
        },
        ExpressionView::Integer { value } => {
            lemma_text_then_value(value as nat);
            lemma_number_tokens(decimal_text(value as nat), rest);
        },
        ExpressionView::Boolean { value } => {
            reveal_strlit("true");
            reveal_strlit("false");
            reveal_strlit("fn");
            reveal_strlit("let");
            lemma_word_tokens(boolean_text(value), rest);
        },
        ExpressionView::Prefix { prefix, right } => {
            lemma_expression_tokens(*right, behind_right(rest));
            lemma_prefix_tokens(prefix, *right, rest);
        },
        ExpressionView::Infix { left, operator, right } => {
            lemma_expression_tokens(*left, behind_left(operator, *right, rest));
            lemma_expression_tokens(*right, behind_right(rest));
            lemma_infix_tokens(*left, operator, *right, rest);
        },
        _ => {},
    }
}

} // verus!
