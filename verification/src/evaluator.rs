//! Evaluation of literal expressions.

use vstd::prelude::*;
use crate::ast::Expression;
use crate::ast::ExpressionView;
use crate::object::Object;
use crate::object::ObjectView;

verus! {

/// The value of an expression: a number for an integer literal, the name
/// for an identifier, a truth value for a boolean literal, and null for
/// everything else.
pub open spec fn eval_spec(node: ExpressionView) -> ObjectView {
    match node {
        ExpressionView::Integer { value } => ObjectView::Int(value as i64),
        ExpressionView::Identifier { value } => ObjectView::Str(value),
        ExpressionView::Boolean { value } => ObjectView::Bool(value),
        _ => ObjectView::Null,
    }
}

/// Evaluates an expression.
pub fn eval(node: Expression) -> (value: Object)
    ensures
        value@ == eval_spec(node@),
{
    match node {
        Expression::IntegerExpression { value } => Object::Int(value as i64),
        Expression::IdentifierExpression { value } => Object::Str(value),
        Expression::BooleanExpression { value } => Object::Bool(value),
        _ => Object::Null,
    }
}

} // verus!
