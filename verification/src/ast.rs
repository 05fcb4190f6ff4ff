//! The syntax tree: expressions, statements and whole programs, with their
//! mathematical views.

use vstd::prelude::*;
use crate::render::end_each;
use crate::render::program_text;
use crate::render::render_statements;
use crate::token::Token;
use crate::token::TokenView;

verus! {

/// One statement.
#[derive(Debug, PartialEq)]
pub enum Statement {
    LetStatement { name: String, value: Expression },
    ReturnStatement { value: Expression },
    ExpressionStatement { expression: Expression },
    BlockStatement { statements: Vec<Statement> },
}

/// A value-producing node of the tree.
#[allow(inconsistent_fields)]
#[derive(Debug, PartialEq)]
pub enum Expression {
    IdentifierExpression { value: String },
    IntegerExpression { value: u32 },
    BooleanExpression { value: bool },
    PrefixExpression { prefix: Token, right: Box<Expression> },
    InfixExpression { left: Box<Expression>, operator: Token, right: Box<Expression> },
    IfExpression {
        condition: Box<Expression>,
        consequence: Box<Statement>,
        alternative: Option<Box<Statement>>,
    },
    FunctionExpression { parameters: Vec<String>, body: Box<Statement> },
    CallExpression { name: String, arguments: Vec<Expression> },
}

/// The mathematical value of a statement.
pub ghost enum StatementView {
    Let { name: Seq<char>, value: ExpressionView },
    Return { value: ExpressionView },
    Expression { expression: ExpressionView },
    Block { statements: Seq<StatementView> },
}

/// The mathematical value of an expression.
#[allow(inconsistent_fields)]
pub ghost enum ExpressionView {
    Identifier { value: Seq<char> },
    Integer { value: u32 },
    Boolean { value: bool },
    Prefix { prefix: TokenView, right: Box<ExpressionView> },
    Infix { left: Box<ExpressionView>, operator: TokenView, right: Box<ExpressionView> },
    If {
        condition: Box<ExpressionView>,
        consequence: Box<StatementView>,
        alternative: Option<Box<StatementView>>,
    },
    Function { parameters: Seq<Seq<char>>, body: Box<StatementView> },
    Call { name: Seq<char>, arguments: Seq<ExpressionView> },
}

/// The value of a statement, node by node.
pub open spec fn statement_view(s: Statement) -> StatementView
    decreases s,
{
    match s {
        Statement::LetStatement { name, value } => StatementView::Let {
            name: name@,
            value: expression_view(value),
        },
        Statement::ReturnStatement { value } => StatementView::Return {
            value: expression_view(value),
        },
        Statement::ExpressionStatement { expression } => StatementView::Expression {
            expression: expression_view(expression),
        },
        Statement::BlockStatement { statements } => StatementView::Block {
            statements: Seq::new(
                statements.len() as nat,
                |i: int|
                    if 0 <= i < statements.len() {
                        statement_view(statements[i])
                    } else {
                        arbitrary()
                    },
            ),
        },
    }
}

/// The value of an expression, node by node.
pub open spec fn expression_view(e: Expression) -> ExpressionView
    decreases e,
{
    match e {
        Expression::IdentifierExpression { value } => ExpressionView::Identifier { value: value@ },
        Expression::IntegerExpression { value } => ExpressionView::Integer { value },
        Expression::BooleanExpression { value } => ExpressionView::Boolean { value },
        Expression::PrefixExpression { prefix, right } => ExpressionView::Prefix {
            prefix: prefix@,
            right: Box::new(expression_view(*right)),
        },
        Expression::InfixExpression { left, operator, right } => ExpressionView::Infix {
            left: Box::new(expression_view(*left)),
            operator: operator@,
            right: Box::new(expression_view(*right)),
        },
        Expression::IfExpression { condition, consequence, alternative } => ExpressionView::If {
            condition: Box::new(expression_view(*condition)),
            consequence: Box::new(statement_view(*consequence)),
            alternative: match alternative {
                Some(block) => Some(Box::new(statement_view(*block))),
                None => None,
            },
        },
        Expression::FunctionExpression { parameters, body } => ExpressionView::Function {
            parameters: Seq::new(parameters.len() as nat, |i: int| parameters[i]@),
            body: Box::new(statement_view(*body)),
        },
        Expression::CallExpression { name, arguments } => ExpressionView::Call {
            name: name@,
            arguments: Seq::new(
                arguments.len() as nat,
                |i: int|
                    if 0 <= i < arguments.len() {
                        expression_view(arguments[i])
                    } else {
                        arbitrary()
                    },
            ),
        },
    }
}

impl View for Statement {
    type V = StatementView;

    open spec fn view(&self) -> StatementView {
        statement_view(*self)
    }
}

impl View for Expression {
    type V = ExpressionView;

    open spec fn view(&self) -> ExpressionView {
        expression_view(*self)
    }
}

/// The views of a list of statements, in order.
pub open spec fn statements_view(statements: Seq<Statement>) -> Seq<StatementView> {
    Seq::new(statements.len(), |i: int| statements[i]@)
}

/// The views of a list of expressions, in order.
pub open spec fn expressions_view(expressions: Seq<Expression>) -> Seq<ExpressionView> {
    Seq::new(expressions.len(), |i: int| expressions[i]@)
}

/// The views of a list of names, in order.
pub open spec fn names_view(names: Seq<String>) -> Seq<Seq<char>> {
    Seq::new(names.len(), |i: int| names[i]@)
}

/// A block's view holds the views of its statements.
pub proof fn lemma_block_view(statements: Vec<Statement>)
    ensures
        (Statement::BlockStatement { statements })@ == (StatementView::Block {
            statements: statements_view(statements@),
        }),
{
    assert(statement_view(Statement::BlockStatement { statements })->Block_statements
        =~= statements_view(statements@));
}

/// A call's view holds the views of its arguments.
pub proof fn lemma_call_view(name: String, arguments: Vec<Expression>)
    ensures
        (Expression::CallExpression { name, arguments })@ == (ExpressionView::Call {
            name: name@,
            arguments: expressions_view(arguments@),
        }),
{
    assert(expression_view(Expression::CallExpression { name, arguments })->Call_arguments
        =~= expressions_view(arguments@));
}

/// A function literal's view holds its parameter names.
pub proof fn lemma_function_view(parameters: Vec<String>, body: Box<Statement>)
    ensures
        (Expression::FunctionExpression { parameters, body })@ == (ExpressionView::Function {
            parameters: names_view(parameters@),
            body: Box::new((*body)@),
        }),
{
    assert(expression_view(
        Expression::FunctionExpression { parameters, body },
    )->Function_parameters =~= names_view(parameters@));
}

fn clone_names(names: &Vec<String>) -> (copy: Vec<String>)
    ensures
        names_view(copy@) == names_view(names@),
{
    let mut copy: Vec<String> = Vec::new();
    let mut i: usize = 0;
    while i < names.len()
        invariant
            i <= names.len(),
            copy.len() == i,
            forall|j: int| 0 <= j < i ==> copy[j]@ == names[j]@,
        decreases names.len() - i,
    {
        copy.push(names[i].clone());
        i += 1;
    }
    assert(names_view(copy@) =~= names_view(names@));
    copy
}

fn clone_statements(statements: &Vec<Statement>) -> (copy: Vec<Statement>)
    ensures
        statements_view(copy@) == statements_view(statements@),
    decreases statements, 1nat,
{
    let mut copy: Vec<Statement> = Vec::new();
    let mut i: usize = 0;
    while i < statements.len()
        invariant
            i <= statements.len(),
            copy.len() == i,
            forall|j: int| 0 <= j < i ==> copy[j]@ == statements[j]@,
        decreases statements.len() - i,
    {
        copy.push(clone_statement(&statements[i]));
        i += 1;
    }
    assert(statements_view(copy@) =~= statements_view(statements@));
    copy
}

fn clone_expressions(expressions: &Vec<Expression>) -> (copy: Vec<Expression>)
    ensures
        expressions_view(copy@) == expressions_view(expressions@),
    decreases expressions, 1nat,
{
    let mut copy: Vec<Expression> = Vec::new();
    let mut i: usize = 0;
    while i < expressions.len()
        invariant
            i <= expressions.len(),
            copy.len() == i,
            forall|j: int| 0 <= j < i ==> copy[j]@ == expressions[j]@,
        decreases expressions.len() - i,
    {
        copy.push(clone_expression(&expressions[i]));
        i += 1;
    }
    assert(expressions_view(copy@) =~= expressions_view(expressions@));
    copy
}

fn clone_statement(s: &Statement) -> (copy: Statement)
    ensures
        copy@ == s@,
    decreases s, 0nat,
{
    match s {
        Statement::LetStatement { name, value } => Statement::LetStatement {
            name: name.clone(),
            value: clone_expression(value),
        },
        Statement::ReturnStatement { value } => Statement::ReturnStatement {
            value: clone_expression(value),
        },
        Statement::ExpressionStatement { expression } => Statement::ExpressionStatement {
            expression: clone_expression(expression),
        },
        Statement::BlockStatement { statements } => {
            let copy = clone_statements(statements);
            proof {
                lemma_block_view(copy);
                lemma_block_view(*statements);
            }
            Statement::BlockStatement { statements: copy }
        },
    }
}

fn clone_expression(e: &Expression) -> (copy: Expression)
    ensures
        copy@ == e@,
    decreases e, 0nat,
{
    match e {
        Expression::IdentifierExpression { value } => Expression::IdentifierExpression {
            value: value.clone(),
        },
        Expression::IntegerExpression { value } => Expression::IntegerExpression { value: *value },
        Expression::BooleanExpression { value } => Expression::BooleanExpression { value: *value },
        Expression::PrefixExpression { prefix, right } => Expression::PrefixExpression {
            prefix: prefix.clone(),
            right: Box::new(clone_expression(right)),
        },
        Expression::InfixExpression { left, operator, right } => Expression::InfixExpression {
            left: Box::new(clone_expression(left)),
            operator: operator.clone(),
            right: Box::new(clone_expression(right)),
        },
        Expression::IfExpression { condition, consequence, alternative } => {
            let other = match alternative {
                Some(block) => Some(Box::new(clone_statement(block))),
                None => None,
            };
            Expression::IfExpression {
                condition: Box::new(clone_expression(condition)),
                consequence: Box::new(clone_statement(consequence)),
                alternative: other,
            }
        },
        Expression::FunctionExpression { parameters, body } => {
            let names = clone_names(parameters);
            let inner = Box::new(clone_statement(body));
            proof {
                lemma_function_view(names, inner);
                lemma_function_view(*parameters, *body);
            }
            Expression::FunctionExpression { parameters: names, body: inner }
        },
        Expression::CallExpression { name, arguments } => {
            let copy = clone_expressions(arguments);
            let callee = name.clone();
            proof {
                lemma_call_view(callee, copy);
                lemma_call_view(*name, *arguments);
            }
            Expression::CallExpression { name: callee, arguments: copy }
        },
    }
}

impl Clone for Program {
    fn clone(&self) -> (copy: Program)
        ensures
            copy@ == self@,
    {
        Program { statements: clone_statements(&self.statements) }
    }
}

impl Clone for Statement {
    fn clone(&self) -> (copy: Statement)
        ensures
            copy@ == self@,
    {
        clone_statement(self)
    }
}

impl Clone for Expression {
    fn clone(&self) -> (copy: Expression)
        ensures
            copy@ == self@,
    {
        clone_expression(self)
    }
}

/// A whole program: its top-level statements in source order.
#[derive(Debug)]
pub struct Program {
    statements: Vec<Statement>,
}

impl View for Program {
    type V = Seq<StatementView>;

    closed spec fn view(&self) -> Seq<StatementView> {
        statements_view(self.statements@)
    }
}

impl Program {
    /// A program made of the given statements.
    pub fn new(stmts: Vec<Statement>) -> (program: Program)
        ensures
            program@ == statements_view(stmts@),
    {
        Program { statements: stmts }
    }

    /// The text of the program: the texts of its statements, one after the
    /// other, with nothing between them.
    pub fn to_string(&self) -> (text: String)
        ensures
            text@ == program_text(self@),
    {
        proof {
            reveal_strlit("");
            assert(""@ =~= Seq::<char>::empty());
        }
        let texts = render_statements(&self.statements);
        end_each(&texts, "")
    }

    /// A copy of the statements, in source order.
    pub fn statements(&self) -> (stmts: Vec<Statement>)
        ensures
            statements_view(stmts@) == self@,
    {
        clone_statements(&self.statements)
    }
}

} // verus!
