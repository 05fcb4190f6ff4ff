//! The grammar as a mathematical function: what each production makes of a
//! sequence of tokens, how many tokens it moves over, and which problems it
//! reports.
//!
//! A token sequence `ts` stands for the state of a cursor: `ts[0]` is the
//! token under examination, `ts[1]` the one ahead, and beyond its end every
//! token is the end-of-input token. A production starts on the first token
//! of its construct and stops on the last one.

use vstd::prelude::*;
use crate::ast::ExpressionView;
use crate::ast::StatementView;
use crate::cursor::advance_by;
use crate::cursor::current;
use crate::cursor::peek;
use crate::parser::Diagnostic;
use crate::parser::Precedence;
use crate::token::TokenView;

verus! {

broadcast use crate::cursor::lemma_advance_by_len;

/// The outcome of a production: the node it built, if it succeeded, the
/// number of times it advanced the cursor, and the problems it met, in the
/// order in which it met them.
pub ghost struct Parsed<T> {
    pub value: Option<T>,
    pub consumed: nat,
    pub errors: Seq<Diagnostic>,
}

/// The binding power of a token in operator position. Tokens that are no
/// binary operator bind with the lowest power.
pub open spec fn binding_power(token: TokenView) -> Precedence {
    match token {
        TokenView::Equal | TokenView::NotEqual => Precedence::Equals,
        TokenView::LowerThan | TokenView::GreaterThan => Precedence::LessGreater,
        TokenView::Plus | TokenView::Minus => Precedence::Sum,
        TokenView::Slash | TokenView::Asterisk => Precedence::Product,
        _ => Precedence::Lowest,
    }
}

/// A failed production.
pub open spec fn failure<T>(consumed: nat, errors: Seq<Diagnostic>) -> Parsed<T> {
    Parsed { value: None, consumed, errors }
}

/// A production that built `value`.
pub open spec fn success<T>(value: T, consumed: nat, errors: Seq<Diagnostic>) -> Parsed<T> {
    Parsed { value: Some(value), consumed, errors }
}

/// How many advances are due for an optional semicolon: one if it is ahead.
pub open spec fn terminator(ts: Seq<TokenView>) -> nat {
    if peek(ts) is Semicolon {
        1
    } else {
        0
    }
}

/// An expression whose operators all bind more tightly than `threshold`.
pub open spec fn expression(ts: Seq<TokenView>, threshold: Precedence) -> Parsed<ExpressionView>
    decreases ts.len(), 3nat,
{
    let head = operand(ts);
    match head.value {
        None => head,
        Some(left) => {
            let tail = operators(advance_by(ts, head.consumed), left, threshold);
            Parsed {
                value: tail.value,
                consumed: head.consumed + tail.consumed,
                errors: head.errors + tail.errors,
            }
        },
    }
}

/// What stands in operand position: a name, a literal, a prefix operator
/// with its operand, a parenthesised expression or a conditional.
pub open spec fn operand(ts: Seq<TokenView>) -> Parsed<ExpressionView>
    decreases ts.len(), 2nat,
{
    match current(ts) {
        TokenView::Identifier(name) => success(
            ExpressionView::Identifier { value: name },
            0,
            Seq::empty(),
        ),
        TokenView::Integer(value) => success(ExpressionView::Integer { value }, 0, Seq::empty()),
        TokenView::True => success(ExpressionView::Boolean { value: true }, 0, Seq::empty()),
        TokenView::False => success(ExpressionView::Boolean { value: false }, 0, Seq::empty()),
        TokenView::Bang | TokenView::Minus => {
            let right = expression(advance_by(ts, 1), Precedence::Prefix);
            Parsed {
                value: match right.value {
                    Some(e) => Some(
                        ExpressionView::Prefix { prefix: current(ts), right: Box::new(e) },
                    ),
                    None => None,
                },
                consumed: 1 + right.consumed,
                errors: right.errors,
            }
        },
        TokenView::LeftParenthesis => {
            let inner = expression(advance_by(ts, 1), Precedence::Lowest);
            let n = 1 + inner.consumed;
            if inner.value is None {
                failure(n, inner.errors)
            } else if !(peek(advance_by(ts, n)) is RightParenthesis) {
                failure(n, inner.errors.push(Diagnostic::MissingExpectedToken))
            } else {
                Parsed { value: inner.value, consumed: n + 1, errors: inner.errors }
            }
        },
        TokenView::If => conditional(ts),
        TokenView::Illegal => failure(0, seq![Diagnostic::LexicalError]),
        _ => failure(0, seq![Diagnostic::UnexpectedToken]),
    }
}

/// The binary operators that follow the operand `left`, folded to the left
/// for as long as the operator ahead binds more tightly than `threshold`.
pub open spec fn operators(
    ts: Seq<TokenView>,
    left: ExpressionView,
    threshold: Precedence,
) -> Parsed<ExpressionView>
    decreases ts.len(), 0nat,
{
    if !(current(ts) is Semicolon) && threshold.level() < binding_power(peek(ts)).level() {
        let right = expression(advance_by(ts, 2), binding_power(peek(ts)));
        match right.value {
            None => failure(2 + right.consumed, right.errors),
            Some(e) => {
                let folded = ExpressionView::Infix {
                    left: Box::new(left),
                    operator: peek(ts),
                    right: Box::new(e),
                };
                let tail = operators(advance_by(ts, 2 + right.consumed), folded, threshold);
                Parsed {
                    value: tail.value,
                    consumed: 2 + right.consumed + tail.consumed,
                    errors: right.errors + tail.errors,
                }
            },
        }
    } else {
        success(left, 0, Seq::empty())
    }
}

/// A conditional, from `if` to the closing brace of its last block: a
/// condition between parentheses, a block, and an alternative.
pub open spec fn conditional(ts: Seq<TokenView>) -> Parsed<ExpressionView>
    decreases ts.len(), 1nat,
{
    let missing = Diagnostic::MissingExpectedToken;
    if !(peek(ts) is LeftParenthesis) {
        failure(0, seq![missing])
    } else {
        let condition = expression(advance_by(ts, 2), Precedence::Lowest);
        let n = 2 + condition.consumed;
        if condition.value is None {
            failure(n, condition.errors)
        } else if !(peek(advance_by(ts, n)) is RightParenthesis) {
            failure(n, condition.errors.push(missing))
        } else if !(peek(advance_by(ts, n + 1)) is LeftBrace) {
            failure(n + 1, condition.errors.push(missing))
        } else {
            let consequence = block(advance_by(ts, n + 2));
            let m = n + 2 + consequence.consumed;
            if consequence.value is None {
                failure(m, condition.errors + consequence.errors)
            } else {
                let other = alternative(advance_by(ts, m));
                Parsed {
                    value: match other.value {
                        Some(block) => Some(
                            ExpressionView::If {
                                condition: Box::new(condition.value->0),
                                consequence: Box::new(consequence.value->0),
                                alternative: match block {
                                    Some(s) => Some(Box::new(s)),
                                    None => None,
                                },
                            },
                        ),
                        None => None,
                    },
                    consumed: m + other.consumed,
                    errors: condition.errors + consequence.errors + other.errors,
                }
            }
        }
    }
}

/// The alternative of a conditional, the cursor standing on the closing
/// brace of the consequence: none where no `else` is ahead, the block
/// behind `else` otherwise.
pub open spec fn alternative(ts: Seq<TokenView>) -> Parsed<Option<StatementView>>
    decreases ts.len(), 9nat,
{
    if !(peek(ts) is Else) {
        success(None, 0, Seq::empty())
    } else if !(peek(advance_by(ts, 1)) is LeftBrace) {
        failure(1, seq![Diagnostic::MissingExpectedToken])
    } else {
        let other = block(advance_by(ts, 2));
        Parsed {
            value: match other.value {
                Some(s) => Some(Some(s)),
                None => None,
            },
            consumed: 2 + other.consumed,
            errors: other.errors,
        }
    }
}

/// A block, from its opening brace to its closing brace. A block that the
/// end of the input cuts short fails.
pub open spec fn block(ts: Seq<TokenView>) -> Parsed<StatementView>
    decreases ts.len(), 8nat,
{
    let body = block_items(advance_by(ts, 1));
    Parsed {
        value: match body.value {
            Some(statements) => Some(StatementView::Block { statements }),
            None => None,
        },
        consumed: 1 + body.consumed,
        errors: body.errors,
    }
}

/// The statements of a block up to its closing brace, the cursor standing on
/// the first of them.
pub open spec fn block_items(ts: Seq<TokenView>) -> Parsed<Seq<StatementView>>
    decreases ts.len(), 7nat,
{
    if current(ts) is RightBrace {
        success(Seq::empty(), 0, Seq::empty())
    } else if current(ts) is EndOfFile {
        failure(0, seq![Diagnostic::UnterminatedBlock])
    } else {
        let first = recovered(ts);
        let rest = block_items(advance_by(ts, first.consumed + 1));
        Parsed {
            value: match rest.value {
                Some(others) => Some(listed(first.value) + others),
                None => None,
            },
            consumed: first.consumed + 1 + rest.consumed,
            errors: first.errors + rest.errors,
        }
    }
}

/// No statement, or the one.
pub open spec fn listed(statement: Option<StatementView>) -> Seq<StatementView> {
    match statement {
        Some(s) => seq![s],
        None => Seq::empty(),
    }
}

/// Whether the cursor stands at a statement boundary: on a semicolon or at
/// the end of the input, or just before `let`, `return` or a closing brace.
pub open spec fn at_boundary(ts: Seq<TokenView>) -> bool {
    ||| current(ts) is Semicolon
    ||| current(ts) is EndOfFile
    ||| peek(ts) is Let
    ||| peek(ts) is Return
    ||| peek(ts) is RightBrace
}

/// How many tokens are discarded to reach the next statement boundary.
pub open spec fn discarded(ts: Seq<TokenView>) -> nat
    decreases ts.len(),
{
    if at_boundary(ts) {
        0
    } else {
        1 + discarded(advance_by(ts, 1))
    }
}

/// One statement; where it fails, the cursor moves on to the next statement
/// boundary.
pub open spec fn recovered(ts: Seq<TokenView>) -> Parsed<StatementView>
    decreases ts.len(), 6nat,
{
    let s = statement(ts);
    if s.value is None {
        failure(s.consumed + discarded(advance_by(ts, s.consumed)), s.errors)
    } else {
        s
    }
}

/// One statement, chosen by its first token.
pub open spec fn statement(ts: Seq<TokenView>) -> Parsed<StatementView>
    decreases ts.len(), 5nat,
{
    match current(ts) {
        TokenView::Let => let_statement(ts),
        TokenView::Return => return_statement(ts),
        _ => expression_statement(ts),
    }
}

/// `let`, a name, `=`, a value, and a semicolon if one follows.
pub open spec fn let_statement(ts: Seq<TokenView>) -> Parsed<StatementView>
    decreases ts.len(), 4nat,
{
    match peek(ts) {
        TokenView::Identifier(name) => {
            if !(peek(advance_by(ts, 1)) is Assign) {
                failure(1, seq![Diagnostic::MissingExpectedToken])
            } else {
                let value = expression(advance_by(ts, 3), Precedence::Lowest);
                let n = 3 + value.consumed;
                match value.value {
                    Some(e) => success(
                        StatementView::Let { name, value: e },
                        n + terminator(advance_by(ts, n)),
                        value.errors,
                    ),
                    None => failure(n, value.errors),
                }
            }
        },
        _ => failure(0, seq![Diagnostic::MissingExpectedToken]),
    }
}

/// `return`, a value, and a semicolon if one follows.
pub open spec fn return_statement(ts: Seq<TokenView>) -> Parsed<StatementView>
    decreases ts.len(), 4nat,
{
    if ts.len() == 0 {
        failure(0, seq![Diagnostic::UnexpectedToken])
    } else {
        let value = expression(advance_by(ts, 1), Precedence::Lowest);
        let n = 1 + value.consumed;
        match value.value {
            Some(e) => success(
                StatementView::Return { value: e },
                n + terminator(advance_by(ts, n)),
                value.errors,
            ),
            None => failure(n, value.errors),
        }
    }
}

/// An expression standing as a statement, and a semicolon if one follows.
pub open spec fn expression_statement(ts: Seq<TokenView>) -> Parsed<StatementView>
    decreases ts.len(), 4nat,
{
    let value = expression(ts, Precedence::Lowest);
    match value.value {
        Some(e) => success(
            StatementView::Expression { expression: e },
            value.consumed + terminator(advance_by(ts, value.consumed)),
            value.errors,
        ),
        None => failure(value.consumed, value.errors),
    }
}

/// A whole program: statement after statement until the end of the input.
/// A statement that fails is left out and reported.
pub open spec fn program(ts: Seq<TokenView>) -> Parsed<Seq<StatementView>>
    decreases ts.len(),
{
    if current(ts) is EndOfFile {
        success(Seq::empty(), 0, Seq::empty())
    } else {
        let first = recovered(ts);
        let rest = program(advance_by(ts, first.consumed + 1));
        Parsed {
            value: Some(listed(first.value) + rest.value.unwrap_or(Seq::empty())),
            consumed: first.consumed + 1 + rest.consumed,
            errors: first.errors + rest.errors,
        }
    }
}

} // verus!
