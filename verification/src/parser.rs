//! The parser: a cursor of two tokens over a lexer, and one function for
//! each production of the grammar.
//!
//! Every production is proved to build what the grammar of
//! [`crate::grammar`] says, to advance the cursor as far as it says, and to
//! report the problems it says. Parsing never fails as a whole: a statement
//! that cannot be parsed is reported and left out, and parsing resumes at
//! the next statement boundary.
//!
//! The productions call each other once for each level of nesting in the
//! source (parentheses, prefix operators, operands, blocks), so the call
//! stack grows with the deepest nesting of the input; the time taken grows
//! with the number of tokens.

use vstd::prelude::*;
use crate::ast::Expression;
use crate::ast::ExpressionView;
use crate::ast::lemma_block_view;
use crate::ast::Program;
use crate::ast::Statement;
use crate::ast::statements_view;
use crate::ast::StatementView;
use crate::cursor::advance_by;
use crate::cursor::current;
use crate::cursor::lemma_advance_by_len;
use crate::cursor::lemma_advance_by_none;
use crate::cursor::lemma_advance_by_sum;
use crate::cursor::lemma_join_empty;
use crate::cursor::lemma_join_grouping;
use crate::cursor::lemma_peek_is_next;
use crate::cursor::lemma_push_is_join;
use crate::cursor::peek;
use crate::grammar::alternative;
use crate::grammar::at_boundary;
use crate::grammar::binding_power;
use crate::grammar::block;
use crate::grammar::block_items;
use crate::grammar::conditional;
use crate::grammar::discarded;
use crate::grammar::expression;
use crate::grammar::expression_statement;
use crate::grammar::let_statement;
use crate::grammar::listed;
use crate::grammar::operand;
use crate::grammar::operators;
use crate::grammar::Parsed;
use crate::grammar::program;
use crate::grammar::recovered;
use crate::grammar::return_statement;
use crate::grammar::statement;
use crate::grammar::terminator;
use crate::lexer::lemma_next_token_bound;
use crate::lexer::lemma_tokens_unfold;
use crate::lexer::Lexer;
use crate::lexer::tokens;
use crate::token::Token;
use crate::token::TokenView;

verus! {

broadcast use {
    lemma_advance_by_none,
    lemma_advance_by_len,
    lemma_join_empty,
    lemma_push_is_join,
};

/// The binding powers, from the loosest to the tightest.
#[derive(Debug, Clone, Copy, PartialEq, Eq, Structural)]
pub enum Precedence {
    Lowest,
    Equals,
    LessGreater,
    Sum,
    Product,
    Prefix,
}

impl Precedence {
    /// The rank of a binding power: 0 for the loosest, 5 for the tightest.
    pub fn rank(self) -> (r: u8)
        ensures
            r == self.level(),
    {
        match self {
            Precedence::Lowest => 0,
            Precedence::Equals => 1,
            Precedence::LessGreater => 2,
            Precedence::Sum => 3,
            Precedence::Product => 4,
            Precedence::Prefix => 5,
        }
    }

    /// The rank of a binding power, as a number.
    pub open spec fn level(self) -> nat {
        match self {
            Precedence::Lowest => 0,
            Precedence::Equals => 1,
            Precedence::LessGreater => 2,
            Precedence::Sum => 3,
            Precedence::Product => 4,
            Precedence::Prefix => 5,
        }
    }
}

/// A syntax problem met while parsing. None of them stops the parse.
#[derive(Debug, Clone, Copy, PartialEq, Eq, Structural)]
pub enum Diagnostic {
    /// The text holds a character that starts no token, or a number that
    /// cannot be read.
    LexicalError,
    /// A token stands where no production can begin with it.
    UnexpectedToken,
    /// A production did not find the token it requires next.
    MissingExpectedToken,
    /// The input ended inside a block.
    UnterminatedBlock,
}

/// Whether `result` is the node that a production built, or nothing where
/// it built none.
pub open spec fn expression_is(result: Option<Expression>, value: Option<ExpressionView>) -> bool {
    match result {
        Some(e) => value == Some(e@),
        None => value is None,
    }
}

/// Whether `result` is the alternative that the production built: a block,
/// none where the conditional has none, or nothing where it failed.
pub open spec fn alternative_is(
    result: Option<Option<Box<Statement>>>,
    value: Option<Option<StatementView>>,
) -> bool {
    match result {
        Some(Some(block)) => value == Some(Some((*block)@)),
        Some(None) => value == Some(None::<StatementView>),
        None => value is None,
    }
}

/// Whether `result` is the statement that a production built, or nothing
/// where it built none.
pub open spec fn statement_is(result: Option<Statement>, value: Option<StatementView>) -> bool {
    match result {
        Some(s) => value == Some(s@),
        None => value is None,
    }
}

/// A cursor over the tokens of a lexer: the token under examination, the
/// one ahead, and the problems met so far.
#[derive(Debug)]
pub struct Parser {
    lexer: Lexer,
    current_token: Token,
    peek_token: Token,
    errors: Vec<Diagnostic>,
}

impl Parser {
    /// Whether the cursor is consistent: once the end of the input has been
    /// reached, every later token is the end-of-input token too.
    pub closed spec fn wf(&self) -> bool {
        &&& self.current_token@ is EndOfFile ==> self.peek_token@ is EndOfFile
        &&& self.peek_token@ is EndOfFile ==> self.lexer@.len() == 0
    }

    /// The tokens still to be parsed, the one under examination first. The
    /// end-of-input token is none of them.
    #[verifier::opaque]
    pub closed spec fn remaining(&self) -> Seq<TokenView> {
        if self.current_token@ is EndOfFile {
            Seq::empty()
        } else if self.peek_token@ is EndOfFile {
            seq![self.current_token@]
        } else {
            seq![self.current_token@, self.peek_token@] + tokens(self.lexer@)
        }
    }

    /// The problems met so far, oldest first.
    pub closed spec fn diagnostics(&self) -> Seq<Diagnostic> {
        self.errors@
    }

    /// Whether this parser stands `n` advances after `before`, with
    /// `errors` added to the problems met.
    pub open spec fn follows(&self, before: &Parser, n: nat, errors: Seq<Diagnostic>) -> bool {
        &&& self.wf()
        &&& self.remaining() == advance_by(before.remaining(), n)
        &&& self.diagnostics() == before.diagnostics() + errors
    }

    /// Two stretches of parsing, one after the other, make one stretch.
    pub proof fn lemma_chain(
        &self,
        start: &Parser,
        middle: &Parser,
        n: nat,
        errors: Seq<Diagnostic>,
        m: nat,
        more: Seq<Diagnostic>,
    )
        requires
            middle.follows(start, n, errors),
            self.follows(middle, m, more),
        ensures
            self.follows(start, n + m, errors + more),
    {
        lemma_advance_by_sum(start.remaining(), n, m);
        lemma_join_grouping(start.diagnostics(), errors, more);
    }

    /// The first two of the remaining tokens are the token under examination
    /// and the one ahead; none remains once the end of the input is under
    /// examination.
    proof fn lemma_cursor(&self)
        requires
            self.wf(),
        ensures
            current(self.remaining()) == self.current_token@,
            peek(self.remaining()) == self.peek_token@,
            self.remaining().len() == 0 <==> self.current_token@ is EndOfFile,
    {
        reveal(Parser::remaining);
    }

    /// A parser at the first token that `lexer` has still to give.
    pub fn new(lexer: Lexer) -> (parser: Parser)
        ensures
            parser.wf(),
            parser.remaining() == tokens(lexer@),
            parser.diagnostics() == Seq::<Diagnostic>::empty(),
    {
        let mut lexer = lexer;
        let ghost text = lexer@;
        let current_token = lexer.next_token();
        let ghost rest = lexer@;
        let peek_token = lexer.next_token();
        proof {
            reveal(Parser::remaining);
            lemma_next_token_bound(text);
            lemma_next_token_bound(rest);
            lemma_tokens_unfold(text);
            lemma_tokens_unfold(rest);
            if current_token@ is EndOfFile {
                assert(rest.len() == 0);
            } else if peek_token@ is EndOfFile {
                assert(tokens(text) =~= seq![current_token@]);
            } else {
                assert(tokens(text) =~= seq![current_token@, peek_token@] + tokens(lexer@));
            }
        }
        Parser { lexer, current_token, peek_token, errors: Vec::new() }
    }

    /// The problems met so far, oldest first.
    pub fn errors(&self) -> (list: Vec<Diagnostic>)
        ensures
            list@ == self.diagnostics(),
    {
        let mut list: Vec<Diagnostic> = Vec::new();
        let mut i: usize = 0;
        while i < self.errors.len()
            invariant
                i <= self.errors.len(),
                list@ == self.errors@.take(i as int),
            decreases self.errors.len() - i,
        {
            list.push(self.errors[i]);
            i += 1;
            assert(self.errors@.take(i as int) =~= self.errors@.take(i - 1).push(
                self.errors@[i - 1],
            ));
        }
        assert(self.errors@.take(i as int) =~= self.errors@);
        list
    }

    /// Shifts the token ahead into the place under examination and asks the
    /// lexer for a new one.
    fn next_token(&mut self)
        requires
            old(self).wf(),
        ensures
            final(self).follows(old(self), 1, Seq::empty()),
    {
        proof {
            reveal(Parser::remaining);
            lemma_next_token_bound(self.lexer@);
        }
        let ghost before = self.remaining();
        self.current_token = self.peek_token.clone();
        self.peek_token = self.lexer.next_token();
        proof {
            reveal(advance_by);
            assert(self.remaining() =~= advance_by(before, 1));
        }
    }

    /// Whether the token under examination is `t`.
    fn current_token_is(&self, t: Token) -> (same: bool)
        requires
            self.wf(),
        ensures
            same == (current(self.remaining()) == t@),
    {
        proof {
            self.lemma_cursor();
        }
        self.current_token == t
    }

    /// Whether the token ahead is `t`.
    fn peek_token_is(&self, t: Token) -> (same: bool)
        requires
            self.wf(),
        ensures
            same == (peek(self.remaining()) == t@),
    {
        proof {
            self.lemma_cursor();
        }
        self.peek_token == t
    }

    /// Advances if the token ahead is `t`; reports a missing token and stays
    /// in place otherwise.
    fn expect_peek(&mut self, t: Token) -> (found: bool)
        requires
            old(self).wf(),
        ensures
            found == (peek(old(self).remaining()) == t@),
            found ==> final(self).follows(old(self), 1, Seq::empty()),
            !found ==> final(self).follows(old(self), 0, seq![Diagnostic::MissingExpectedToken]),
    {
        if self.peek_token_is(t) {
            self.next_token();
            true
        } else {
            self.report(Diagnostic::MissingExpectedToken);
            false
        }
    }

    /// Records a problem.
    fn report(&mut self, problem: Diagnostic)
        requires
            old(self).wf(),
        ensures
            final(self).follows(old(self), 0, seq![problem]),
    {
        proof {
            reveal(Parser::remaining);
        }
        self.errors.push(problem);
        assert(self.errors@ =~= old(self).errors@ + seq![problem]);
    }

    /// The binding power of the token ahead.
    fn peek_precedence(&self) -> (power: Precedence)
        requires
            self.wf(),
        ensures
            power == binding_power(peek(self.remaining())),
    {
        proof {
            self.lemma_cursor();
        }
        power_of(&self.peek_token)
    }

    /// The binding power of the token under examination.
    fn current_precedence(&self) -> (power: Precedence)
        requires
            self.wf(),
        ensures
            power == binding_power(current(self.remaining())),
    {
        proof {
            self.lemma_cursor();
        }
        power_of(&self.current_token)
    }
}

impl Parser {
    /// Whether this parser stands where `outcome` says, `before` being
    /// where the production began.
    pub open spec fn after<T>(&self, before: &Parser, outcome: Parsed<T>) -> bool {
        self.follows(before, outcome.consumed, outcome.errors)
    }

    /// Parses statement after statement until the end of the input. A
    /// statement that fails is reported and left out, and parsing resumes
    /// at the next statement boundary.
    pub fn parse_program(&mut self) -> (parsed: Program)
        requires
            old(self).wf(),
        ensures
            final(self).after(old(self), program(old(self).remaining())),
            final(self).remaining().len() == 0,
            Some(parsed@) == program(old(self).remaining()).value,
    {
        let ghost start = *self;
        let ghost mut n: nat = 0;
        let ghost mut errs: Seq<Diagnostic> = Seq::empty();
        let mut statements: Vec<Statement> = Vec::new();
        assert(statements_view(statements@) =~= Seq::<StatementView>::empty());
        while !self.current_token_is(Token::EndOfFile)
            invariant
                self.follows(&start, n, errs),
                program(start.remaining()) == ({
                    let rest = program(self.remaining());
                    Parsed {
                        value: Some(
                            statements_view(statements@) + rest.value.unwrap_or(Seq::empty()),
                        ),
                        consumed: n + rest.consumed,
                        errors: errs + rest.errors,
                    }
                }),
            decreases self.remaining().len(),
        {
            let ghost here = *self;
            let ghost listed_before = statements_view(statements@);
            let ghost first = recovered(here.remaining());
            let ghost rest = program(advance_by(here.remaining(), first.consumed + 1));
            let parsed = self.parse_recovered();
            let ghost middle = *self;
            match parsed {
                Some(s) => {
                    statements.push(s);
                    assert(statements_view(statements@) =~= listed_before + seq![s@]);
                },
                None => {},
            }
            self.next_token();
            proof {
                self.lemma_chain(&here, &middle, first.consumed, first.errors, 1, Seq::empty());
                self.lemma_chain(&start, &here, n, errs, first.consumed + 1, first.errors);
                lemma_join_grouping(errs, first.errors, rest.errors);
                lemma_join_grouping(
                    listed_before,
                    listed(first.value),
                    rest.value.unwrap_or(Seq::empty()),
                );
                n = n + first.consumed + 1;
                errs = errs + first.errors;
            }
        }
        proof {
            self.lemma_cursor();
        }
        Program::new(statements)
    }

    /// Parses one statement; where that fails, discards tokens up to the
    /// next statement boundary.
    fn parse_recovered(&mut self) -> (result: Option<Statement>)
        requires
            old(self).wf(),
        ensures
            final(self).after(old(self), recovered(old(self).remaining())),
            statement_is(result, recovered(old(self).remaining()).value),
        decreases old(self).remaining().len(), 6nat,
    {
        let ghost start = *self;
        let ghost s = statement(start.remaining());
        let parsed = self.parse_statement();
        if parsed.is_none() {
            let ghost middle = *self;
            self.synchronize();
            proof {
                self.lemma_chain(
                    &start,
                    &middle,
                    s.consumed,
                    s.errors,
                    discarded(middle.remaining()),
                    Seq::empty(),
                );
            }
        }
        parsed
    }

    /// Discards tokens up to the next statement boundary.
    fn synchronize(&mut self)
        requires
            old(self).wf(),
        ensures
            final(self).follows(old(self), discarded(old(self).remaining()), Seq::empty()),
    {
        let ghost start = *self;
        let ghost mut n: nat = 0;
        while !self.at_statement_boundary()
            invariant
                self.follows(&start, n, Seq::empty()),
                discarded(start.remaining()) == n + discarded(self.remaining()),
            decreases self.remaining().len(),
        {
            let ghost here = *self;
            self.next_token();
            proof {
                self.lemma_chain(&start, &here, n, Seq::empty(), 1, Seq::empty());
                n = n + 1;
            }
        }
    }

    /// Whether the cursor stands at a statement boundary.
    fn at_statement_boundary(&self) -> (there: bool)
        requires
            self.wf(),
        ensures
            there == at_boundary(self.remaining()),
    {
        proof {
            self.lemma_cursor();
        }
        let here = match self.current_token {
            Token::Semicolon | Token::EndOfFile => true,
            _ => false,
        };
        let ahead = match self.peek_token {
            Token::Let | Token::Return | Token::RightBrace => true,
            _ => false,
        };
        here || ahead
    }

    /// Parses one statement, chosen by the token under examination.
    fn parse_statement(&mut self) -> (result: Option<Statement>)
        requires
            old(self).wf(),
        ensures
            final(self).after(old(self), statement(old(self).remaining())),
            statement_is(result, statement(old(self).remaining()).value),
        decreases old(self).remaining().len(), 5nat,
    {
        proof {
            self.lemma_cursor();
        }
        match self.current_token {
            Token::Let => self.parse_let_statement(),
            Token::Return => self.parse_return_statement(),
            _ => self.parse_expression_statement(),
        }
    }

    /// Takes a semicolon if one is ahead.
    fn skip_terminator(&mut self)
        requires
            old(self).wf(),
        ensures
            final(self).follows(old(self), terminator(old(self).remaining()), Seq::empty()),
    {
        if self.peek_token_is(Token::Semicolon) {
            self.next_token();
        }
    }

    /// Parses `let`, a name, `=`, a value, and a semicolon if one follows.
    fn parse_let_statement(&mut self) -> (result: Option<Statement>)
        requires
            old(self).wf(),
            current(old(self).remaining()) is Let,
        ensures
            final(self).after(old(self), let_statement(old(self).remaining())),
            statement_is(result, let_statement(old(self).remaining()).value),
        decreases old(self).remaining().len(), 4nat,
    {
        let ghost start = *self;
        let ghost outcome = expression(advance_by(start.remaining(), 3), Precedence::Lowest);
        proof {
            self.lemma_cursor();
        }
        let name = match &self.peek_token {
            Token::Identifier(name) => name.clone(),
            _ => {
                self.report(Diagnostic::MissingExpectedToken);
                return None;
            },
        };
        self.next_token();
        let ghost first = *self;
        if !self.expect_peek(Token::Assign) {
            proof {
                self.lemma_chain(
                    &start,
                    &first,
                    1,
                    Seq::empty(),
                    0,
                    seq![Diagnostic::MissingExpectedToken],
                );
            }
            return None;
        }
        let ghost second = *self;
        self.next_token();
        let ghost third = *self;
        proof {
            second.lemma_chain(&start, &first, 1, Seq::empty(), 1, Seq::empty());
            third.lemma_chain(&start, &second, 2, Seq::empty(), 1, Seq::empty());
        }
        let parsed = self.parse_expression(Precedence::Lowest);
        let ghost fourth = *self;
        proof {
            fourth.lemma_chain(&start, &third, 3, Seq::empty(), outcome.consumed, outcome.errors);
        }
        match parsed {
            Some(value) => {
                let stmt = Statement::LetStatement { name, value };
                self.skip_terminator();
                proof {
                    self.lemma_chain(
                        &start,
                        &fourth,
                        3 + outcome.consumed,
                        outcome.errors,
                        terminator(fourth.remaining()),
                        Seq::empty(),
                    );
                }
                Some(stmt)
            },
            None => None,
        }
    }

    /// Parses `return`, a value, and a semicolon if one follows.
    fn parse_return_statement(&mut self) -> (result: Option<Statement>)
        requires
            old(self).wf(),
            current(old(self).remaining()) is Return,
        ensures
            final(self).after(old(self), return_statement(old(self).remaining())),
            statement_is(result, return_statement(old(self).remaining()).value),
        decreases old(self).remaining().len(), 4nat,
    {
        let ghost start = *self;
        let ghost outcome = expression(advance_by(start.remaining(), 1), Precedence::Lowest);
        self.next_token();
        let ghost first = *self;
        let parsed = self.parse_expression(Precedence::Lowest);
        let ghost second = *self;
        proof {
            second.lemma_chain(&start, &first, 1, Seq::empty(), outcome.consumed, outcome.errors);
        }
        match parsed {
            Some(value) => {
                let stmt = Statement::ReturnStatement { value };
                self.skip_terminator();
                proof {
                    self.lemma_chain(
                        &start,
                        &second,
                        1 + outcome.consumed,
                        outcome.errors,
                        terminator(second.remaining()),
                        Seq::empty(),
                    );
                }
                Some(stmt)
            },
            None => None,
        }
    }

    /// Parses an expression that stands as a statement, and a semicolon if
    /// one follows.
    fn parse_expression_statement(&mut self) -> (result: Option<Statement>)
        requires
            old(self).wf(),
        ensures
            final(self).after(old(self), expression_statement(old(self).remaining())),
            statement_is(result, expression_statement(old(self).remaining()).value),
        decreases old(self).remaining().len(), 4nat,
    {
        let ghost start = *self;
        let ghost outcome = expression(start.remaining(), Precedence::Lowest);
        let parsed = self.parse_expression(Precedence::Lowest);
        let ghost first = *self;
        match parsed {
            Some(expression) => {
                let stmt = Statement::ExpressionStatement { expression };
                self.skip_terminator();
                proof {
                    self.lemma_chain(
                        &start,
                        &first,
                        outcome.consumed,
                        outcome.errors,
                        terminator(first.remaining()),
                        Seq::empty(),
                    );
                }
                Some(stmt)
            },
            None => None,
        }
    }

    /// Parses an expression whose operators all bind more tightly than
    /// `precedence`: an operand, then every such operator with its right
    /// operand, folded to the left.
    fn parse_expression(&mut self, precedence: Precedence) -> (result: Option<Expression>)
        requires
            old(self).wf(),
        ensures
            final(self).after(old(self), expression(old(self).remaining(), precedence)),
            expression_is(result, expression(old(self).remaining(), precedence).value),
        decreases old(self).remaining().len(), 3nat,
    {
        let ghost start = *self;
        let ghost head = operand(start.remaining());
        let mut left = match self.parse_operand() {
            Some(e) => e,
            None => {
                return None;
            },
        };
        let ghost mut n: nat = head.consumed;
        let ghost mut errs: Seq<Diagnostic> = head.errors;
        while !self.current_token_is(Token::Semicolon) && precedence.rank()
            < self.peek_precedence().rank()
            invariant
                start == *old(self),
                self.follows(&start, n, errs),
                expression(start.remaining(), precedence) == ({
                    let tail = operators(self.remaining(), left@, precedence);
                    Parsed {
                        value: tail.value,
                        consumed: n + tail.consumed,
                        errors: errs + tail.errors,
                    }
                }),
            decreases self.remaining().len(),
        {
            let ghost here = *self;
            let ghost right = expression(
                advance_by(here.remaining(), 2),
                binding_power(peek(here.remaining())),
            );
            let ghost tail = operators(
                advance_by(here.remaining(), 2 + right.consumed),
                ExpressionView::Infix {
                    left: Box::new(left@),
                    operator: peek(here.remaining()),
                    right: Box::new(right.value->0),
                },
                precedence,
            );
            let folded = self.parse_infix(left);
            proof {
                self.lemma_chain(&start, &here, n, errs, 2 + right.consumed, right.errors);
                lemma_join_grouping(errs, right.errors, tail.errors);
                n = n + 2 + right.consumed;
                errs = errs + right.errors;
            }
            match folded {
                Some(e) => {
                    left = e;
                },
                None => {
                    return None;
                },
            }
        }
        Some(left)
    }

    /// Parses what stands in operand position, chosen by the token under
    /// examination.
    fn parse_operand(&mut self) -> (result: Option<Expression>)
        requires
            old(self).wf(),
        ensures
            final(self).after(old(self), operand(old(self).remaining())),
            expression_is(result, operand(old(self).remaining()).value),
        decreases old(self).remaining().len(), 2nat,
    {
        proof {
            self.lemma_cursor();
        }
        match self.current_token {
            Token::Identifier(_) => self.parse_identifier(),
            Token::Integer(_) => self.parse_integer(),
            Token::True => self.parse_true(),
            Token::False => self.parse_false(),
            Token::Bang => self.parse_prefix(),
            Token::Minus => self.parse_prefix(),
            Token::LeftParenthesis => self.parse_group(),
            Token::If => self.parse_if(),
            Token::Illegal => {
                self.report(Diagnostic::LexicalError);
                None
            },
            _ => {
                self.report(Diagnostic::UnexpectedToken);
                None
            },
        }
    }

    /// The name under examination, as an expression.
    fn parse_identifier(&self) -> (result: Option<Expression>)
        requires
            self.wf(),
        ensures
            expression_is(
                result,
                match current(self.remaining()) {
                    TokenView::Identifier(name) => Some(ExpressionView::Identifier { value: name }),
                    _ => None,
                },
            ),
    {
        proof {
            self.lemma_cursor();
        }
        match &self.current_token {
            Token::Identifier(value) => Some(
                Expression::IdentifierExpression { value: value.clone() },
            ),
            _ => None,
        }
    }

    /// The integer literal under examination, as an expression.
    fn parse_integer(&self) -> (result: Option<Expression>)
        requires
            self.wf(),
        ensures
            expression_is(
                result,
                match current(self.remaining()) {
                    TokenView::Integer(value) => Some(ExpressionView::Integer { value }),
                    _ => None,
                },
            ),
    {
        proof {
            self.lemma_cursor();
        }
        match self.current_token {
            Token::Integer(value) => Some(Expression::IntegerExpression { value }),
            _ => None,
        }
    }

    /// The literal `true`.
    fn parse_true(&self) -> (result: Option<Expression>)
        ensures
            expression_is(result, Some(ExpressionView::Boolean { value: true })),
    {
        Some(Expression::BooleanExpression { value: true })
    }

    /// The literal `false`.
    fn parse_false(&self) -> (result: Option<Expression>)
        ensures
            expression_is(result, Some(ExpressionView::Boolean { value: false })),
    {
        Some(Expression::BooleanExpression { value: false })
    }

    /// Parses a prefix operator and its operand, which binds as tightly as
    /// can be.
    fn parse_prefix(&mut self) -> (result: Option<Expression>)
        requires
            old(self).wf(),
            current(old(self).remaining()) is Bang || current(old(self).remaining()) is Minus,
        ensures
            final(self).after(old(self), operand(old(self).remaining())),
            expression_is(result, operand(old(self).remaining()).value),
        decreases old(self).remaining().len(), 1nat,
    {
        let ghost start = *self;
        let ghost right = expression(advance_by(start.remaining(), 1), Precedence::Prefix);
        proof {
            self.lemma_cursor();
        }
        let prefix = self.current_token.clone();
        self.next_token();
        let ghost first = *self;
        let parsed = self.parse_expression(Precedence::Prefix);
        proof {
            self.lemma_chain(&start, &first, 1, Seq::empty(), right.consumed, right.errors);
        }
        match parsed {
            Some(right) => {
                let expression = Expression::PrefixExpression { prefix, right: Box::new(right) };
                Some(expression)
            },
            None => None,
        }
    }

    /// Parses the operator ahead and its right operand, and joins them to
    /// `left`.
    fn parse_infix(&mut self, left: Expression) -> (result: Option<Expression>)
        requires
            old(self).wf(),
            binding_power(peek(old(self).remaining())).level() > 0,
        ensures
            ({
                let ts = old(self).remaining();
                let right = expression(advance_by(ts, 2), binding_power(peek(ts)));
                &&& final(self).follows(old(self), 2 + right.consumed, right.errors)
                &&& expression_is(
                    result,
                    match right.value {
                        Some(e) => Some(
                            ExpressionView::Infix {
                                left: Box::new(left@),
                                operator: peek(ts),
                                right: Box::new(e),
                            },
                        ),
                        None => None,
                    },
                )
            }),
        decreases old(self).remaining().len(), 0nat,
    {
        let ghost start = *self;
        let ghost ts = start.remaining();
        let ghost right = expression(advance_by(ts, 2), binding_power(peek(ts)));
        self.next_token();
        let ghost first = *self;
        proof {
            self.lemma_cursor();
            lemma_peek_is_next(ts);
        }
        let operator = self.current_token.clone();
        let precedence = self.current_precedence();
        self.next_token();
        let ghost second = *self;
        proof {
            second.lemma_chain(&start, &first, 1, Seq::empty(), 1, Seq::empty());
        }
        let parsed = self.parse_expression(precedence);
        proof {
            self.lemma_chain(&start, &second, 2, Seq::empty(), right.consumed, right.errors);
        }
        match parsed {
            Some(right) => Some(
                Expression::InfixExpression {
                    left: Box::new(left),
                    operator,
                    right: Box::new(right),
                },
            ),
            None => None,
        }
    }

    /// Parses a parenthesised expression. The parentheses leave no node
    /// behind.
    fn parse_group(&mut self) -> (result: Option<Expression>)
        requires
            old(self).wf(),
            current(old(self).remaining()) is LeftParenthesis,
        ensures
            final(self).after(old(self), operand(old(self).remaining())),
            expression_is(result, operand(old(self).remaining()).value),
        decreases old(self).remaining().len(), 1nat,
    {
        let ghost start = *self;
        let ghost inner = expression(advance_by(start.remaining(), 1), Precedence::Lowest);
        self.next_token();
        let ghost first = *self;
        let parsed = self.parse_expression(Precedence::Lowest);
        let ghost second = *self;
        proof {
            second.lemma_chain(&start, &first, 1, Seq::empty(), inner.consumed, inner.errors);
        }
        match parsed {
            Some(expression) => {
                let found = self.expect_peek(Token::RightParenthesis);
                proof {
                    self.lemma_chain(
                        &start,
                        &second,
                        1 + inner.consumed,
                        inner.errors,
                        if found {
                            1nat
                        } else {
                            0nat
                        },
                        if found {
                            Seq::empty()
                        } else {
                            seq![Diagnostic::MissingExpectedToken]
                        },
                    );
                }
                if found {
                    Some(expression)
                } else {
                    None
                }
            },
            None => None,
        }
    }

    /// Advances over the token ahead if it is `t`; reports a missing token
    /// and stays in place otherwise. `start` is where the production began,
    /// `n` advances and `errors` ago.
    fn expect_next(
        &mut self,
        t: Token,
        Ghost(start): Ghost<Parser>,
        Ghost(n): Ghost<nat>,
        Ghost(errors): Ghost<Seq<Diagnostic>>,
    ) -> (found: bool)
        requires
            old(self).follows(&start, n, errors),
        ensures
            found == (peek(advance_by(start.remaining(), n)) == t@),
            found ==> final(self).follows(&start, n + 1, errors),
            !found ==> final(self).follows(
                &start,
                n,
                errors.push(Diagnostic::MissingExpectedToken),
            ),
    {
        let ghost here = *self;
        let found = self.expect_peek(t);
        proof {
            if found {
                self.lemma_chain(&start, &here, n, errors, 1, Seq::empty());
            } else {
                self.lemma_chain(
                    &start,
                    &here,
                    n,
                    errors,
                    0,
                    seq![Diagnostic::MissingExpectedToken],
                );
            }
        }
        found
    }

    /// Parses a conditional: `if`, a condition in parentheses, a block, and
    /// `else` with a second block if `else` follows.
    fn parse_if(&mut self) -> (result: Option<Expression>)
        requires
            old(self).wf(),
            current(old(self).remaining()) is If,
        ensures
            final(self).after(old(self), conditional(old(self).remaining())),
            expression_is(result, conditional(old(self).remaining()).value),
        decreases old(self).remaining().len(), 1nat,
    {
        let ghost start = *self;
        let ghost ts = start.remaining();
        let ghost c = expression(advance_by(ts, 2), Precedence::Lowest);
        let ghost n = 2 + c.consumed;
        let ghost b = block(advance_by(ts, n + 2));
        let ghost m = n + 2 + b.consumed;
        if !self.expect_next(Token::LeftParenthesis, Ghost(start), Ghost(0), Ghost(Seq::empty())) {
            return None;
        }
        let ghost first = *self;
        self.next_token();
        let ghost second = *self;
        proof {
            second.lemma_chain(&start, &first, 1, Seq::empty(), 1, Seq::empty());
        }
        let parsed = self.parse_expression(Precedence::Lowest);
        proof {
            self.lemma_chain(&start, &second, 2, Seq::empty(), c.consumed, c.errors);
        }
        let condition = match parsed {
            Some(e) => e,
            None => {
                return None;
            },
        };
        if !self.expect_next(Token::RightParenthesis, Ghost(start), Ghost(n), Ghost(c.errors)) {
            return None;
        }
        if !self.expect_next(Token::LeftBrace, Ghost(start), Ghost(n + 1), Ghost(c.errors)) {
            return None;
        }
        let ghost third = *self;
        proof {
            self.lemma_cursor();
            lemma_advance_by_sum(ts, n + 1, 1);
            lemma_peek_is_next(advance_by(ts, n + 1));
        }
        let parsed = self.parse_block_statement();
        let ghost errors = c.errors + b.errors;
        proof {
            self.lemma_chain(&start, &third, n + 2, c.errors, b.consumed, b.errors);
        }
        let consequence = match parsed {
            Some(s) => s,
            None => {
                return None;
            },
        };
        let ghost fourth = *self;
        let ghost other = alternative(fourth.remaining());
        let parsed = self.parse_alternative();
        proof {
            self.lemma_chain(&start, &fourth, m, errors, other.consumed, other.errors);
        }
        match parsed {
            Some(alternative) => Some(
                Expression::IfExpression {
                    condition: Box::new(condition),
                    consequence: Box::new(consequence),
                    alternative,
                },
            ),
            None => None,
        }
    }

    /// Parses the alternative of a conditional, the cursor standing on the
    /// closing brace of the consequence: `else` and a block, or nothing
    /// where no `else` is ahead.
    fn parse_alternative(&mut self) -> (result: Option<Option<Box<Statement>>>)
        requires
            old(self).wf(),
        ensures
            final(self).after(old(self), alternative(old(self).remaining())),
            alternative_is(result, alternative(old(self).remaining()).value),
        decreases old(self).remaining().len(), 9nat,
    {
        let ghost start = *self;
        let ghost ts = start.remaining();
        let ghost other = block(advance_by(ts, 2));
        if !self.peek_token_is(Token::Else) {
            return Some(None);
        }
        self.next_token();
        if !self.expect_next(Token::LeftBrace, Ghost(start), Ghost(1), Ghost(Seq::empty())) {
            return None;
        }
        let ghost first = *self;
        proof {
            self.lemma_cursor();
            lemma_advance_by_sum(ts, 1, 1);
            lemma_peek_is_next(advance_by(ts, 1));
        }
        let parsed = self.parse_block_statement();
        proof {
            self.lemma_chain(&start, &first, 2, Seq::empty(), other.consumed, other.errors);
        }
        match parsed {
            Some(block) => Some(Some(Box::new(block))),
            None => None,
        }
    }

    /// Parses a block, the cursor standing on its opening brace. A block
    /// that the end of the input cuts short is reported and fails.
    fn parse_block_statement(&mut self) -> (result: Option<Statement>)
        requires
            old(self).wf(),
            current(old(self).remaining()) is LeftBrace,
        ensures
            final(self).after(old(self), block(old(self).remaining())),
            statement_is(result, block(old(self).remaining()).value),
        decreases old(self).remaining().len(), 8nat,
    {
        let ghost start = *self;
        self.next_token();
        let ghost inside = *self;
        let ghost mut n: nat = 0;
        let ghost mut errs: Seq<Diagnostic> = Seq::empty();
        let mut stmts: Vec<Statement> = Vec::new();
        assert(statements_view(stmts@) =~= Seq::<StatementView>::empty());
        while !self.current_token_is(Token::RightBrace) && !self.current_token_is(
            Token::EndOfFile,
        )
            invariant
                start == *old(self),
                self.follows(&inside, n, errs),
                inside.follows(&start, 1, Seq::empty()),
                start.remaining().len() > 0,
                block_items(inside.remaining()) == ({
                    let rest = block_items(self.remaining());
                    Parsed {
                        value: match rest.value {
                            Some(others) => Some(statements_view(stmts@) + others),
                            None => None,
                        },
                        consumed: n + rest.consumed,
                        errors: errs + rest.errors,
                    }
                }),
            decreases self.remaining().len(),
        {
            let ghost here = *self;
            let ghost listed_before = statements_view(stmts@);
            let ghost first = recovered(here.remaining());
            let ghost rest = block_items(advance_by(here.remaining(), first.consumed + 1));
            let parsed = self.parse_recovered();
            let ghost middle = *self;
            match parsed {
                Some(s) => {
                    stmts.push(s);
                    assert(statements_view(stmts@) =~= listed_before + seq![s@]);
                },
                None => {},
            }
            self.next_token();
            proof {
                self.lemma_chain(&here, &middle, first.consumed, first.errors, 1, Seq::empty());
                self.lemma_chain(&inside, &here, n, errs, first.consumed + 1, first.errors);
                lemma_join_grouping(errs, first.errors, rest.errors);
                if rest.value is Some {
                    lemma_join_grouping(listed_before, listed(first.value), rest.value->0);
                }
                n = n + first.consumed + 1;
                errs = errs + first.errors;
            }
        }
        let ghost body = *self;
        if self.current_token_is(Token::EndOfFile) {
            self.report(Diagnostic::UnterminatedBlock);
            proof {
                self.lemma_chain(
                    &inside,
                    &body,
                    n,
                    errs,
                    0,
                    seq![Diagnostic::UnterminatedBlock],
                );
                self.lemma_chain(
                    &start,
                    &inside,
                    1,
                    Seq::empty(),
                    n,
                    errs + seq![Diagnostic::UnterminatedBlock],
                );
            }
            None
        } else {
            proof {
                lemma_block_view(stmts);
                self.lemma_chain(&start, &inside, 1, Seq::empty(), n, errs);
            }
            Some(Statement::BlockStatement { statements: stmts })
        }
    }
}

/// What parsing a whole text yields: its statements, and the problems met.
pub open spec fn parse_spec(source: Seq<char>) -> (Seq<StatementView>, Seq<Diagnostic>) {
    let outcome = program(tokens(source));
    (outcome.value.unwrap_or(Seq::empty()), outcome.errors)
}

/// Parses a whole text. The program holds every statement that could be
/// parsed, in source order; the list holds every problem met, oldest first.
/// Malformed input is reported, never fatal.
pub fn parse(source: &str) -> (result: (Program, Vec<Diagnostic>))
    ensures
        result.0@ == parse_spec(source@).0,
        result.1@ == parse_spec(source@).1,
{
    let mut parser = Parser::new(Lexer::new(source));
    let parsed = parser.parse_program();
    (parsed, parser.errors)
}

/// The binding power of a token in operator position.
fn power_of(token: &Token) -> (power: Precedence)
    ensures
        power == binding_power(token@),
{
    match token {
        Token::Equal | Token::NotEqual => Precedence::Equals,
        Token::LowerThan | Token::GreaterThan => Precedence::LessGreater,
        Token::Plus | Token::Minus => Precedence::Sum,
        Token::Slash | Token::Asterisk => Precedence::Product,
        _ => Precedence::Lowest,
    }
}

} // verus!
