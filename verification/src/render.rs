//! Rendering: the text of tokens, expressions, statements and programs.
//!
//! An expression renders fully parenthesised, so that the shape of the tree
//! can be read off the text. The alternative of a conditional, and a token
//! that is no operator, render in the structural form that `{:?}` gives.

use vstd::prelude::*;
use crate::ast::Expression;
use crate::ast::expressions_view;
use crate::ast::ExpressionView;
use crate::ast::lemma_block_view;
use crate::ast::lemma_call_view;
use crate::ast::lemma_function_view;
use crate::ast::names_view;
use crate::ast::Statement;
use crate::ast::statements_view;
use crate::ast::StatementView;
use crate::token::Token;
use crate::token::TokenView;

verus! {

/// The structural form of a text: the text between double quotes, with the
/// characters that need it escaped.
pub uninterp spec fn quoted_text(text: Seq<char>) -> Seq<char>;

/// The `{:?}` form of a string slice, from the standard library. Trusted:
/// the result is a function of the characters alone, named `quoted_text`.
#[verifier::external_body]
fn quote(text: &str) -> (quoted: String)
    ensures
        quoted@ == quoted_text(text@),
{
    format!("{:?}", text)
}

/// The character that writes the digit `d`.
pub open spec fn digit_char(d: nat) -> char {
    if d == 0 {
        '0'
    } else if d == 1 {
        '1'
    } else if d == 2 {
        '2'
    } else if d == 3 {
        '3'
    } else if d == 4 {
        '4'
    } else if d == 5 {
        '5'
    } else if d == 6 {
        '6'
    } else if d == 7 {
        '7'
    } else if d == 8 {
        '8'
    } else {
        '9'
    }
}

/// A number in base ten, without leading zeros.
pub open spec fn decimal_text(n: nat) -> Seq<char>
    decreases n,
{
    if n < 10 {
        seq![digit_char(n)]
    } else {
        decimal_text(n / 10).push(digit_char(n % 10))
    }
}

/// The texts joined, with `separator` between each two.
pub open spec fn joined(texts: Seq<Seq<char>>, separator: Seq<char>) -> Seq<char>
    decreases texts.len(),
{
    if texts.len() == 0 {
        Seq::empty()
    } else if texts.len() == 1 {
        texts[0]
    } else {
        joined(texts.drop_last(), separator) + separator + texts.last()
    }
}

/// The texts one after the other, each followed by `end`.
pub open spec fn each_ended(texts: Seq<Seq<char>>, end: Seq<char>) -> Seq<char>
    decreases texts.len(),
{
    if texts.len() == 0 {
        Seq::empty()
    } else {
        each_ended(texts.drop_last(), end) + texts.last() + end
    }
}

/// The structural form of a token: the name of its kind, with what it
/// carries in parentheses.
pub open spec fn token_debug(token: TokenView) -> Seq<char> {
    match token {
        TokenView::Illegal => "Illegal"@,
        TokenView::EndOfFile => "EndOfFile"@,
        TokenView::Identifier(name) => "Identifier("@ + quoted_text(name) + ")"@,
        TokenView::Integer(value) => "Integer("@ + decimal_text(value as nat) + ")"@,
        TokenView::Assign => "Assign"@,
        TokenView::Plus => "Plus"@,
        TokenView::Minus => "Minus"@,
        TokenView::Bang => "Bang"@,
        TokenView::Asterisk => "Asterisk"@,
        TokenView::Slash => "Slash"@,
        TokenView::LowerThan => "LowerThan"@,
        TokenView::GreaterThan => "GreaterThan"@,
        TokenView::Equal => "Equal"@,
        TokenView::NotEqual => "NotEqual"@,
        TokenView::Comma => "Comma"@,
        TokenView::Semicolon => "Semicolon"@,
        TokenView::LeftParenthesis => "LeftParenthesis"@,
        TokenView::RightParenthesis => "RightParenthesis"@,
        TokenView::LeftBrace => "LeftBrace"@,
        TokenView::RightBrace => "RightBrace"@,
        TokenView::Function => "Function"@,
        TokenView::Let => "Let"@,
        TokenView::True => "True"@,
        TokenView::False => "False"@,
        TokenView::If => "If"@,
        TokenView::Else => "Else"@,
        TokenView::Return => "Return"@,
    }
}

/// The text of a token: an operator as it is written, any other token in
/// its structural form.
pub open spec fn token_text(token: TokenView) -> Seq<char> {
    match token {
        TokenView::Minus => "-"@,
        TokenView::Bang => "!"@,
        TokenView::Plus => "+"@,
        TokenView::Asterisk => "*"@,
        TokenView::Slash => "/"@,
        TokenView::LowerThan => "<"@,
        TokenView::GreaterThan => ">"@,
        TokenView::Equal => "=="@,
        TokenView::NotEqual => "!="@,
        other => token_debug(other),
    }
}

/// The text of a truth value.
pub open spec fn boolean_text(value: bool) -> Seq<char> {
    if value {
        "true"@
    } else {
        "false"@
    }
}

/// The texts of a list of expressions, in order.
pub open spec fn expression_texts(list: Seq<ExpressionView>) -> Seq<Seq<char>>
    decreases list,
{
    Seq::new(
        list.len(),
        |i: int|
            if 0 <= i < list.len() {
                expression_text(list[i])
            } else {
                arbitrary()
            },
    )
}

/// The texts of a list of statements, in order.
pub open spec fn statement_texts(list: Seq<StatementView>) -> Seq<Seq<char>>
    decreases list,
{
    Seq::new(
        list.len(),
        |i: int|
            if 0 <= i < list.len() {
                statement_text(list[i])
            } else {
                arbitrary()
            },
    )
}

/// The structural forms of a list of expressions, in order.
pub open spec fn expression_debugs(list: Seq<ExpressionView>) -> Seq<Seq<char>>
    decreases list,
{
    Seq::new(
        list.len(),
        |i: int|
            if 0 <= i < list.len() {
                expression_debug(list[i])
            } else {
                arbitrary()
            },
    )
}

/// The structural forms of a list of statements, in order.
pub open spec fn statement_debugs(list: Seq<StatementView>) -> Seq<Seq<char>>
    decreases list,
{
    Seq::new(
        list.len(),
        |i: int|
            if 0 <= i < list.len() {
                statement_debug(list[i])
            } else {
                arbitrary()
            },
    )
}

/// The structural forms of a list of names, in order.
pub open spec fn quoted_texts(names: Seq<Seq<char>>) -> Seq<Seq<char>> {
    Seq::new(names.len(), |i: int| quoted_text(names[i]))
}

/// The text of an expression, fully parenthesised.
pub open spec fn expression_text(e: ExpressionView) -> Seq<char>
    decreases e,
{
    match e {
        ExpressionView::Identifier { value } => value,
        ExpressionView::Integer { value } => decimal_text(value as nat),
        ExpressionView::Boolean { value } => boolean_text(value),
        ExpressionView::Prefix { prefix, right } => "("@ + token_text(prefix) + expression_text(
            *right,
        ) + ")"@,
        ExpressionView::Infix { left, operator, right } => "("@ + expression_text(*left) + " "@
            + token_text(operator) + " "@ + expression_text(*right) + ")"@,
        ExpressionView::If { condition, consequence, alternative } => "(if "@ + expression_text(
            *condition,
        ) + " { "@ + statement_text(*consequence) + " } else { "@ + (match alternative {
            Some(block) => "Some("@ + statement_debug(*block) + ")"@,
            None => "None"@,
        }) + " })"@,
        ExpressionView::Function { parameters, body } => "fn("@ + joined(parameters, ", "@) + ") "@
            + statement_text(*body),
        ExpressionView::Call { name, arguments } => name + "("@ + joined(
            expression_texts(arguments),
            ", "@,
        ) + ")"@,
    }
}

/// The text of a statement. A block lists its statements between braces,
/// each followed by a semicolon.
pub open spec fn statement_text(s: StatementView) -> Seq<char>
    decreases s,
{
    match s {
        StatementView::Let { name, value } => "let "@ + name + " = "@ + expression_text(value),
        StatementView::Return { value } => "return "@ + expression_text(value),
        StatementView::Expression { expression } => expression_text(expression),
        StatementView::Block { statements } => "{ "@ + each_ended(
            statement_texts(statements),
            "; "@,
        ) + " }"@,
    }
}

/// The structural form of an expression: the name of its kind and its
/// fields by name, between braces.
pub open spec fn expression_debug(e: ExpressionView) -> Seq<char>
    decreases e,
{
    match e {
        ExpressionView::Identifier { value } => "IdentifierExpression { value: "@ + quoted_text(
            value,
        ) + " }"@,
        ExpressionView::Integer { value } => "IntegerExpression { value: "@ + decimal_text(
            value as nat,
        ) + " }"@,
        ExpressionView::Boolean { value } => "BooleanExpression { value: "@ + boolean_text(value)
            + " }"@,
        ExpressionView::Prefix { prefix, right } => "PrefixExpression { prefix: "@ + token_debug(
            prefix,
        ) + ", right: "@ + expression_debug(*right) + " }"@,
        ExpressionView::Infix { left, operator, right } => "InfixExpression { left: "@
            + expression_debug(*left) + ", operator: "@ + token_debug(operator) + ", right: "@
            + expression_debug(*right) + " }"@,
        ExpressionView::If { condition, consequence, alternative } => "IfExpression { condition: "@
            + expression_debug(*condition) + ", consequence: "@ + statement_debug(*consequence)
            + ", alternative: "@ + (match alternative {
            Some(block) => "Some("@ + statement_debug(*block) + ")"@,
            None => "None"@,
        }) + " }"@,
        ExpressionView::Function { parameters, body } => "FunctionExpression { parameters: ["@
            + joined(quoted_texts(parameters), ", "@)
            + "], body: "@ + statement_debug(*body) + " }"@,
        ExpressionView::Call { name, arguments } => "CallExpression { name: "@ + quoted_text(name)
            + ", arguments: ["@ + joined(
            expression_debugs(arguments),
            ", "@,
        ) + "] }"@,
    }
}

/// The structural form of a statement.
pub open spec fn statement_debug(s: StatementView) -> Seq<char>
    decreases s,
{
    match s {
        StatementView::Let { name, value } => "LetStatement { name: "@ + quoted_text(name)
            + ", value: "@ + expression_debug(value) + " }"@,
        StatementView::Return { value } => "ReturnStatement { value: "@ + expression_debug(value)
            + " }"@,
        StatementView::Expression { expression } => "ExpressionStatement { expression: "@
            + expression_debug(expression) + " }"@,
        StatementView::Block { statements } => "BlockStatement { statements: ["@ + joined(
            statement_debugs(statements),
            ", "@,
        ) + "] }"@,
    }
}

/// The text of a program: the texts of its statements, one after the other.
pub open spec fn program_text(statements: Seq<StatementView>) -> Seq<char> {
    each_ended(statement_texts(statements), Seq::empty())
}

/// Writes a natural number in base ten.
pub fn render_natural(value: u64) -> (text: String)
    ensures
        text@ == decimal_text(value as nat),
    decreases value,
{
    let digit = match value % 10 {
        0 => '0',
        1 => '1',
        2 => '2',
        3 => '3',
        4 => '4',
        5 => '5',
        6 => '6',
        7 => '7',
        8 => '8',
        _ => '9',
    };
    if value < 10 {
        let mut text = String::new();
        text.push(digit);
        assert(text@ =~= seq![digit]);
        text
    } else {
        let mut text = render_natural(value / 10);
        text.push(digit);
        text
    }
}

/// Writes a number in base ten.
pub fn render_number(value: u32) -> (text: String)
    ensures
        text@ == decimal_text(value as nat),
{
    render_natural(value as u64)
}

/// The text of a whole number: its magnitude in base ten, behind a minus
/// sign where it is negative.
pub open spec fn integer_text(value: int) -> Seq<char> {
    if value < 0 {
        "-"@ + decimal_text((-value) as nat)
    } else {
        decimal_text(value as nat)
    }
}

/// Writes a whole number in base ten.
pub fn render_integer(value: i64) -> (text: String)
    ensures
        text@ == integer_text(value as int),
{
    if value < 0 {
        let magnitude: u64 = ((-(value + 1)) as u64) + 1;
        let mut text = String::from_str("-");
        text.append(render_natural(magnitude).as_str());
        text
    } else {
        render_natural(value as u64)
    }
}

/// Writes a truth value.
pub fn render_boolean(value: bool) -> (text: String)
    ensures
        text@ == boolean_text(value),
{
    if value {
        String::from_str("true")
    } else {
        String::from_str("false")
    }
}

/// Writes a token in its structural form.
pub fn debug_token(token: &Token) -> (text: String)
    ensures
        text@ == token_debug(token@),
{
    match token {
        Token::Illegal => String::from_str("Illegal"),
        Token::EndOfFile => String::from_str("EndOfFile"),
        Token::Identifier(name) => {
            let mut text = String::from_str("Identifier(");
            text.append(quote(name.as_str()).as_str());
            text.append(")");
            text
        },
        Token::Integer(value) => {
            let mut text = String::from_str("Integer(");
            text.append(render_number(*value).as_str());
            text.append(")");
            text
        },
        Token::Assign => String::from_str("Assign"),
        Token::Plus => String::from_str("Plus"),
        Token::Minus => String::from_str("Minus"),
        Token::Bang => String::from_str("Bang"),
        Token::Asterisk => String::from_str("Asterisk"),
        Token::Slash => String::from_str("Slash"),
        Token::LowerThan => String::from_str("LowerThan"),
        Token::GreaterThan => String::from_str("GreaterThan"),
        Token::Equal => String::from_str("Equal"),
        Token::NotEqual => String::from_str("NotEqual"),
        Token::Comma => String::from_str("Comma"),
        Token::Semicolon => String::from_str("Semicolon"),
        Token::LeftParenthesis => String::from_str("LeftParenthesis"),
        Token::RightParenthesis => String::from_str("RightParenthesis"),
        Token::LeftBrace => String::from_str("LeftBrace"),
        Token::RightBrace => String::from_str("RightBrace"),
        Token::Function => String::from_str("Function"),
        Token::Let => String::from_str("Let"),
        Token::True => String::from_str("True"),
        Token::False => String::from_str("False"),
        Token::If => String::from_str("If"),
        Token::Else => String::from_str("Else"),
        Token::Return => String::from_str("Return"),
    }
}

/// Joins texts, with `separator` between each two.
pub fn join_texts(texts: &Vec<String>, separator: &str) -> (text: String)
    ensures
        text@ == joined(names_view(texts@), separator@),
{
    let ghost all = names_view(texts@);
    let mut text = String::new();
    let mut i: usize = 0;
    while i < texts.len()
        invariant
            i <= texts.len(),
            all == names_view(texts@),
            text@ == joined(all.take(i as int), separator@),
        decreases texts.len() - i,
    {
        if i > 0 {
            text.append(separator);
        }
        text.append(texts[i].as_str());
        i += 1;
        proof {
            let shorter = all.take(i - 1);
            let longer = all.take(i as int);
            assert(longer.drop_last() =~= shorter);
            assert(longer.last() == texts[i - 1]@);
            if i == 1 {
                assert(text@ =~= texts[0]@);
                assert(longer[0] == texts[0]@);
            }
        }
    }
    assert(all.take(i as int) =~= all);
    text
}

/// Writes texts one after the other, each followed by `end`.
pub fn end_each(texts: &Vec<String>, end: &str) -> (text: String)
    ensures
        text@ == each_ended(names_view(texts@), end@),
{
    let ghost all = names_view(texts@);
    let mut text = String::new();
    let mut i: usize = 0;
    while i < texts.len()
        invariant
            i <= texts.len(),
            all == names_view(texts@),
            text@ == each_ended(all.take(i as int), end@),
        decreases texts.len() - i,
    {
        text.append(texts[i].as_str());
        text.append(end);
        i += 1;
        proof {
            let longer = all.take(i as int);
            assert(longer.drop_last() =~= all.take(i - 1));
            assert(longer.last() == texts[i - 1]@);
        }
    }
    assert(all.take(i as int) =~= all);
    text
}

/// Writes each name in its structural form.
fn quote_each(names: &Vec<String>) -> (texts: Vec<String>)
    ensures
        names_view(texts@) == quoted_texts(names_view(names@)),
{
    let mut texts: Vec<String> = Vec::new();
    let mut i: usize = 0;
    while i < names.len()
        invariant
            i <= names.len(),
            texts.len() == i,
            forall|j: int| 0 <= j < i ==> texts[j]@ == quoted_text(names[j]@),
        decreases names.len() - i,
    {
        texts.push(quote(names[i].as_str()));
        i += 1;
    }
    assert(names_view(texts@) =~= quoted_texts(names_view(names@)));
    texts
}

/// Writes each expression of a list.
fn render_expressions(list: &Vec<Expression>) -> (texts: Vec<String>)
    ensures
        names_view(texts@) == expression_texts(expressions_view(list@)),
    decreases list, 1nat,
{
    let mut texts: Vec<String> = Vec::new();
    let mut i: usize = 0;
    while i < list.len()
        invariant
            i <= list.len(),
            texts.len() == i,
            forall|j: int| 0 <= j < i ==> texts[j]@ == expression_text(list[j]@),
        decreases list.len() - i,
    {
        texts.push(render_expression(&list[i]));
        i += 1;
    }
    assert(names_view(texts@) =~= expression_texts(expressions_view(list@)));
    texts
}

/// Writes each statement of a list.
pub fn render_statements(list: &Vec<Statement>) -> (texts: Vec<String>)
    ensures
        names_view(texts@) == statement_texts(statements_view(list@)),
    decreases list, 1nat,
{
    let mut texts: Vec<String> = Vec::new();
    let mut i: usize = 0;
    while i < list.len()
        invariant
            i <= list.len(),
            texts.len() == i,
            forall|j: int| 0 <= j < i ==> texts[j]@ == statement_text(list[j]@),
        decreases list.len() - i,
    {
        texts.push(render_statement(&list[i]));
        i += 1;
    }
    assert(names_view(texts@) =~= statement_texts(statements_view(list@)));
    texts
}

/// Writes each expression of a list in its structural form.
fn debug_expressions(list: &Vec<Expression>) -> (texts: Vec<String>)
    ensures
        names_view(texts@) == expression_debugs(expressions_view(list@)),
    decreases list, 1nat,
{
    let mut texts: Vec<String> = Vec::new();
    let mut i: usize = 0;
    while i < list.len()
        invariant
            i <= list.len(),
            texts.len() == i,
            forall|j: int| 0 <= j < i ==> texts[j]@ == expression_debug(list[j]@),
        decreases list.len() - i,
    {
        texts.push(debug_expression(&list[i]));
        i += 1;
    }
    assert(names_view(texts@) =~= expression_debugs(expressions_view(list@)));
    texts
}

/// Writes each statement of a list in its structural form.
fn debug_statements(list: &Vec<Statement>) -> (texts: Vec<String>)
    ensures
        names_view(texts@) == statement_debugs(statements_view(list@)),
    decreases list, 1nat,
{
    let mut texts: Vec<String> = Vec::new();
    let mut i: usize = 0;
    while i < list.len()
        invariant
            i <= list.len(),
            texts.len() == i,
            forall|j: int| 0 <= j < i ==> texts[j]@ == statement_debug(list[j]@),
        decreases list.len() - i,
    {
        texts.push(debug_statement(&list[i]));
        i += 1;
    }
    assert(names_view(texts@) =~= statement_debugs(statements_view(list@)));
    texts
}

/// Writes the alternative of a conditional in its structural form.
fn debug_alternative(alternative: &Option<Box<Statement>>) -> (text: String)
    ensures
        text@ == match alternative {
            Some(block) => "Some("@ + statement_debug((**block)@) + ")"@,
            None => "None"@,
        },
    decreases alternative, 1nat,
{
    match alternative {
        Some(block) => {
            let mut text = String::from_str("Some(");
            text.append(debug_statement(block).as_str());
            text.append(")");
            text
        },
        None => String::from_str("None"),
    }
}

/// Writes an expression, fully parenthesised.
pub fn render_expression(e: &Expression) -> (text: String)
    ensures
        text@ == expression_text(e@),
    decreases e, 0nat,
{
    match e {
        Expression::IdentifierExpression { value } => value.clone(),
        Expression::IntegerExpression { value } => render_number(*value),
        Expression::BooleanExpression { value } => render_boolean(*value),
        Expression::PrefixExpression { prefix, right } => {
            let mut text = String::from_str("(");
            text.append(prefix.to_string().as_str());
            text.append(render_expression(right).as_str());
            text.append(")");
            text
        },
        Expression::InfixExpression { left, operator, right } => {
            let mut text = String::from_str("(");
            text.append(render_expression(left).as_str());
            text.append(" ");
            text.append(operator.to_string().as_str());
            text.append(" ");
            text.append(render_expression(right).as_str());
            text.append(")");
            text
        },
        Expression::IfExpression { condition, consequence, alternative } => {
            let mut text = String::from_str("(if ");
            text.append(render_expression(condition).as_str());
            text.append(" { ");
            text.append(render_statement(consequence).as_str());
            text.append(" } else { ");
            text.append(debug_alternative(alternative).as_str());
            text.append(" })");
            text
        },
        Expression::FunctionExpression { parameters, body } => {
            proof {
                lemma_function_view(*parameters, *body);
            }
            let mut text = String::from_str("fn(");
            text.append(join_texts(parameters, ", ").as_str());
            text.append(") ");
            text.append(render_statement(body).as_str());
            text
        },
        Expression::CallExpression { name, arguments } => {
            proof {
                lemma_call_view(*name, *arguments);
            }
            let texts = render_expressions(arguments);
            let mut text = name.clone();
            text.append("(");
            text.append(join_texts(&texts, ", ").as_str());
            text.append(")");
            text
        },
    }
}

/// Writes a statement.
pub fn render_statement(s: &Statement) -> (text: String)
    ensures
        text@ == statement_text(s@),
    decreases s, 0nat,
{
    match s {
        Statement::LetStatement { name, value } => {
            let mut text = String::from_str("let ");
            text.append(name.as_str());
            text.append(" = ");
            text.append(render_expression(value).as_str());
            text
        },
        Statement::ReturnStatement { value } => {
            let mut text = String::from_str("return ");
            text.append(render_expression(value).as_str());
            text
        },
        Statement::ExpressionStatement { expression } => render_expression(expression),
        Statement::BlockStatement { statements } => {
            proof {
                lemma_block_view(*statements);
            }
            let texts = render_statements(statements);
            let mut text = String::from_str("{ ");
            text.append(end_each(&texts, "; ").as_str());
            text.append(" }");
            text
        },
    }
}

/// Writes an expression in its structural form.
pub fn debug_expression(e: &Expression) -> (text: String)
    ensures
        text@ == expression_debug(e@),
    decreases e, 0nat,
{
    match e {
        Expression::IdentifierExpression { value } => {
            let mut text = String::from_str("IdentifierExpression { value: ");
            text.append(quote(value.as_str()).as_str());
            text.append(" }");
            text
        },
        Expression::IntegerExpression { value } => {
            let mut text = String::from_str("IntegerExpression { value: ");
            text.append(render_number(*value).as_str());
            text.append(" }");
            text
        },
        Expression::BooleanExpression { value } => {
            let mut text = String::from_str("BooleanExpression { value: ");
            text.append(render_boolean(*value).as_str());
            text.append(" }");
            text
        },
        Expression::PrefixExpression { prefix, right } => {
            let mut text = String::from_str("PrefixExpression { prefix: ");
            text.append(debug_token(prefix).as_str());
            text.append(", right: ");
            text.append(debug_expression(right).as_str());
            text.append(" }");
            text
        },
        Expression::InfixExpression { left, operator, right } => {
            let mut text = String::from_str("InfixExpression { left: ");
            text.append(debug_expression(left).as_str());
            text.append(", operator: ");
            text.append(debug_token(operator).as_str());
            text.append(", right: ");
            text.append(debug_expression(right).as_str());
            text.append(" }");
            text
        },
        Expression::IfExpression { condition, consequence, alternative } => {
            let mut text = String::from_str("IfExpression { condition: ");
            text.append(debug_expression(condition).as_str());
            text.append(", consequence: ");
            text.append(debug_statement(consequence).as_str());
            text.append(", alternative: ");
            text.append(debug_alternative(alternative).as_str());
            text.append(" }");
            text
        },
        Expression::FunctionExpression { parameters, body } => {
            proof {
                lemma_function_view(*parameters, *body);
            }
            let texts = quote_each(parameters);
            let mut text = String::from_str("FunctionExpression { parameters: [");
            text.append(join_texts(&texts, ", ").as_str());
            text.append("], body: ");
            text.append(debug_statement(body).as_str());
            text.append(" }");
            text
        },
        Expression::CallExpression { name, arguments } => {
            proof {
                lemma_call_view(*name, *arguments);
            }
            let texts = debug_expressions(arguments);
            let mut text = String::from_str("CallExpression { name: ");
            text.append(quote(name.as_str()).as_str());
            text.append(", arguments: [");
            text.append(join_texts(&texts, ", ").as_str());
            text.append("] }");
            text
        },
    }
}

/// Writes a statement in its structural form.
pub fn debug_statement(s: &Statement) -> (text: String)
    ensures
        text@ == statement_debug(s@),
    decreases s, 0nat,
{
    match s {
        Statement::LetStatement { name, value } => {
            let mut text = String::from_str("LetStatement { name: ");
            text.append(quote(name.as_str()).as_str());
            text.append(", value: ");
            text.append(debug_expression(value).as_str());
            text.append(" }");
            text
        },
        Statement::ReturnStatement { value } => {
            let mut text = String::from_str("ReturnStatement { value: ");
            text.append(debug_expression(value).as_str());
            text.append(" }");
            text
        },
        Statement::ExpressionStatement { expression } => {
            let mut text = String::from_str("ExpressionStatement { expression: ");
            text.append(debug_expression(expression).as_str());
            text.append(" }");
            text
        },
        Statement::BlockStatement { statements } => {
            proof {
                lemma_block_view(*statements);
            }
            let texts = debug_statements(statements);
            let mut text = String::from_str("BlockStatement { statements: [");
            text.append(join_texts(&texts, ", ").as_str());
            text.append("] }");
            text
        },
    }
}

impl Expression {
    /// The text of the expression, fully parenthesised.
    pub fn to_string(&self) -> (text: String)
        ensures
            text@ == expression_text(self@),
    {
        render_expression(self)
    }
}

impl Statement {
    /// The text of the statement.
    pub fn to_string(&self) -> (text: String)
        ensures
            text@ == statement_text(self@),
    {
        render_statement(self)
    }
}

impl Token {
    /// The text of the token: an operator as it is written, any other token
    /// in its structural form.
    pub fn to_string(&self) -> (text: String)
        ensures
            text@ == token_text(self@),
    {
        match self {
            Token::Minus => String::from_str("-"),
            Token::Bang => String::from_str("!"),
            Token::Plus => String::from_str("+"),
            Token::Asterisk => String::from_str("*"),
            Token::Slash => String::from_str("/"),
            Token::LowerThan => String::from_str("<"),
            Token::GreaterThan => String::from_str(">"),
            Token::Equal => String::from_str("=="),
            Token::NotEqual => String::from_str("!="),
            _ => debug_token(self),
        }
    }
}

} // verus!
