use pratt_parser::ast::Expression::BooleanExpression;
use pratt_parser::ast::Expression::IdentifierExpression;
use pratt_parser::ast::Expression::IfExpression;
use pratt_parser::ast::Expression::InfixExpression;
use pratt_parser::ast::Expression::IntegerExpression;
use pratt_parser::ast::Expression::PrefixExpression;
use pratt_parser::ast::Program;
use pratt_parser::ast::Statement;
use pratt_parser::ast::Statement::BlockStatement;
use pratt_parser::ast::Statement::ExpressionStatement;
use pratt_parser::ast::Statement::LetStatement;
use pratt_parser::ast::Statement::ReturnStatement;
use pratt_parser::lexer::Lexer;
use pratt_parser::parser::parse;
use pratt_parser::parser::Diagnostic;
use pratt_parser::parser::Parser;
use pratt_parser::parser::Precedence;
use pratt_parser::token::Token::Asterisk;
use pratt_parser::token::Token::Bang;
use pratt_parser::token::Token::Equal;
use pratt_parser::token::Token::GreaterThan;
use pratt_parser::token::Token::LowerThan;
use pratt_parser::token::Token::Minus;
use pratt_parser::token::Token::NotEqual;
use pratt_parser::token::Token::Plus;
use pratt_parser::token::Token::Slash;

#[test]
fn let_statement_test() {
    let lexer = Lexer::new("
        let x = 5;
        let y = 10;
        let foobar = 838383;
    ");
    let mut parser = Parser::new(lexer);
    let program = parser.parse_program();
    println!("{:?}", program);
    assert_eq!(LetStatement{ name: "x".to_string(), value: IntegerExpression{ value: 5 } }, program.statements()[0]);
    assert_eq!(LetStatement{ name: "y".to_string(), value: IntegerExpression{ value: 10 } }, program.statements()[1]);
    assert_eq!(LetStatement{ name: "foobar".to_string(), value: IntegerExpression{ value: 838383 } }, program.statements()[2]);
}

#[test]
fn return_statement_test() {
    let lexer = Lexer::new("
        return 5;
        return 10;
        return 993322;
    ");
    let mut parser = Parser::new(lexer);
    let program = parser.parse_program();
    println!("{:?}", program);
    assert_eq!(ReturnStatement{ value: IntegerExpression{ value: 5 } }, program.statements()[0]);
    assert_eq!(ReturnStatement{ value: IntegerExpression{ value: 10 } }, program.statements()[1]);
    assert_eq!(ReturnStatement{ value: IntegerExpression{ value: 993322 } }, program.statements()[2]);
}

#[test]
fn expression_statement_test() {
    let lexer = Lexer::new("
        foobar;
        5;
        !5;
        -15;
        5 + 6;
        5 - 6;
        5 * 6;
        5 / 6;
        5 < 6;
        5 > 6;
        5 == 6;
        5 != 6;
    ");

    let mut parser = Parser::new(lexer);
    let program = parser.parse_program();
    println!("{:?}", program);
    assert_eq!(ExpressionStatement{ expression: IdentifierExpression{ value: "foobar".to_string() } }, program.statements()[0]);
    assert_eq!(ExpressionStatement{ expression: IntegerExpression{ value: 5 } }, program.statements()[1]);
    assert_eq!(ExpressionStatement{ expression: PrefixExpression{ prefix: Bang, right: Box::new(IntegerExpression{ value: 5 }) } }, program.statements()[2]);
    assert_eq!(ExpressionStatement{ expression: PrefixExpression{ prefix: Minus, right: Box::new(IntegerExpression{ value: 15 }) } }, program.statements()[3]);
    assert_eq!(ExpressionStatement{ expression: InfixExpression{ left: Box::new(IntegerExpression{ value: 5 }), operator: Plus, right: Box::new(IntegerExpression{ value: 6 }) } }, program.statements()[4]);
    assert_eq!(ExpressionStatement{ expression: InfixExpression{ left: Box::new(IntegerExpression{ value: 5 }), operator: Minus, right: Box::new(IntegerExpression{ value: 6 }) } }, program.statements()[5]);
    assert_eq!(ExpressionStatement{ expression: InfixExpression{ left: Box::new(IntegerExpression{ value: 5 }), operator: Asterisk, right: Box::new(IntegerExpression{ value: 6 }) } }, program.statements()[6]);
    assert_eq!(ExpressionStatement{ expression: InfixExpression{ left: Box::new(IntegerExpression{ value: 5 }), operator: Slash, right: Box::new(IntegerExpression{ value: 6 }) } }, program.statements()[7]);
    assert_eq!(ExpressionStatement{ expression: InfixExpression{ left: Box::new(IntegerExpression{ value: 5 }), operator: LowerThan, right: Box::new(IntegerExpression{ value: 6 }) } }, program.statements()[8]);
    assert_eq!(ExpressionStatement{ expression: InfixExpression{ left: Box::new(IntegerExpression{ value: 5 }), operator: GreaterThan, right: Box::new(IntegerExpression{ value: 6 }) } }, program.statements()[9]);
    assert_eq!(ExpressionStatement{ expression: InfixExpression{ left: Box::new(IntegerExpression{ value: 5 }), operator: Equal, right: Box::new(IntegerExpression{ value: 6 }) } }, program.statements()[10]);
    assert_eq!(ExpressionStatement{ expression: InfixExpression{ left: Box::new(IntegerExpression{ value: 5 }), operator: NotEqual, right: Box::new(IntegerExpression{ value: 6 }) } }, program.statements()[11]);
}

#[test]
fn parse_operator_precedence_test() {
    let lexer = Lexer::new("
        -a * b;
        !-a;
        a + b + c;
        a + b - c;
        a * b * c;
        a * b / c;
        a + b / c;
        a + b * c + d / e - f;
        5 > 4 == 3 < 4;
        5 < 4 != 3 > 4;
        3 + 4 * 5 == 3 * 1 + 4 * 5;
        3 + 4 * 5 == 3 * 1 + 4 * 5;
        3 + 4; -5 * 5;
    ");
    let mut parser = Parser::new(lexer);
    let program = parser.parse_program();
    assert_eq!("((-a) * b)", program.statements()[0].to_string());
    assert_eq!("(!(-a))", program.statements()[1].to_string());
    assert_eq!("((a + b) + c)", program.statements()[2].to_string());
    assert_eq!("((a + b) - c)", program.statements()[3].to_string());
    assert_eq!("((a * b) * c)", program.statements()[4].to_string());
    assert_eq!("((a * b) / c)", program.statements()[5].to_string());
    assert_eq!("(a + (b / c))", program.statements()[6].to_string());

    assert_eq!("(((a + (b * c)) + (d / e)) - f)", program.statements()[7].to_string());
    assert_eq!("((5 > 4) == (3 < 4))", program.statements()[8].to_string());
    assert_eq!("((5 < 4) != (3 > 4))", program.statements()[9].to_string());
    assert_eq!("((3 + (4 * 5)) == ((3 * 1) + (4 * 5)))", program.statements()[10].to_string());
    assert_eq!("((3 + (4 * 5)) == ((3 * 1) + (4 * 5)))", program.statements()[11].to_string());
    assert_eq!("(3 + 4)", program.statements()[12].to_string());
    assert_eq!("((-5) * 5)", program.statements()[13].to_string());
}

#[test]
fn parse_operator_boolean_test() {
    let lexer = Lexer::new("
        true;
        false;
        3 > 5 == false;
        3 < 5 == true;
    ");
    let mut parser = Parser::new(lexer);
    let program = parser.parse_program();
    assert_eq!("true", program.statements()[0].to_string());
    assert_eq!("false", program.statements()[1].to_string());
    assert_eq!("((3 > 5) == false)", program.statements()[2].to_string());
    assert_eq!("((3 < 5) == true)", program.statements()[3].to_string());
}

#[test]
fn parse_grouped_expressions_test() {
    let lexer = Lexer::new("
        1 + (2 + 3) + 4;
        (5 + 5) * 2;
        2 / (5 + 5);
        -(5 + 5);
        !(true == true);
    ");
    let mut parser = Parser::new(lexer);
    let program = parser.parse_program();
    assert_eq!("((1 + (2 + 3)) + 4)", program.statements()[0].to_string());
    assert_eq!("((5 + 5) * 2)", program.statements()[1].to_string());
    assert_eq!("(2 / (5 + 5))", program.statements()[2].to_string());
    assert_eq!("(-(5 + 5))", program.statements()[3].to_string());
    assert_eq!("(!(true == true))", program.statements()[4].to_string());
}

#[test]
fn parse_if_test() {
    let lexer = Lexer::new("
        if (x < y) { x } else { y }
    ");
    let mut parser = Parser::new(lexer);
    let program = parser.parse_program();

    if let ExpressionStatement {ref expression} = program.statements()[0] {
        match *expression {
            IfExpression{ ref condition, ref consequence, ref alternative } => {
                assert_eq!(Box::new(InfixExpression{ left: Box::new(IdentifierExpression{value: "x".to_string()}), operator: LowerThan, right: Box::new(IdentifierExpression{value: "y".to_string()})}), *condition);
                match *consequence {
                    _ => {},
                }
                assert_eq!( Box::new(BlockStatement{ statements: vec![ExpressionStatement{ expression: IdentifierExpression{ value: "x".to_string() }}] }), *consequence);
                match *alternative {
                    Some(ref alt) => {
                        assert_eq!( Box::new(BlockStatement{ statements: vec![ExpressionStatement{ expression: IdentifierExpression{ value: "y".to_string() }}] }), *alt);
                    },
                    None => assert!(false),
                }
            },
            _ => assert!(false),
        }
    } else {
        assert!(false);
    }
}

fn rendered(source: &str) -> String {
    let (program, problems) = parse(source);
    assert_eq!(Vec::<Diagnostic>::new(), problems);
    program.to_string()
}

fn problems(source: &str) -> Vec<Diagnostic> {
    parse(source).1
}

fn statements(source: &str) -> Vec<Statement> {
    parse(source).0.statements()
}

#[test]
fn precedence_and_associativity() {
    assert_eq!("((-a) * b)", rendered("-a * b"));
    assert_eq!("(a + (b * c))", rendered("a + b * c"));
    assert_eq!("((a + b) + c)", rendered("a + b + c"));
    assert_eq!("((a == b) != c)", rendered("a == b != c"));
    assert_eq!("((a < b) == (c > d))", rendered("a < b == c > d"));
    assert_eq!("(a - (b / c))", rendered("a - b / c"));
    assert_eq!("(!(!true))", rendered("!!true"));
}

#[test]
fn grouping_overrides_precedence() {
    assert_eq!("((a + b) * c)", rendered("(a + b) * c"));
    assert_eq!("(a * (b + c))", rendered("a * (b + c)"));
    assert_eq!("a", rendered("((a))"));
}

#[test]
fn integer_literals_render_as_written() {
    assert_eq!("0", rendered("0"));
    assert_eq!("5", rendered("5"));
    assert_eq!("10", rendered("10"));
    assert_eq!("838383", rendered("838383"));
    assert_eq!("4294967295", rendered("4294967295"));
    assert_eq!("7", rendered("007"));
}

#[test]
fn let_statement_with_one_binding() {
    let (program, problems) = parse("let x = 5;");
    assert_eq!(Vec::<Diagnostic>::new(), problems);
    assert_eq!(
        vec![LetStatement { name: "x".to_string(), value: IntegerExpression { value: 5 } }],
        program.statements()
    );
    assert_eq!("let x = 5", program.to_string());
}

#[test]
fn conditional_with_both_blocks() {
    let (program, problems) = parse("if (x < y) { x } else { y }");
    assert_eq!(Vec::<Diagnostic>::new(), problems);
    let list = program.statements();
    assert_eq!(1, list.len());
    match &list[0] {
        ExpressionStatement { expression: IfExpression { condition, consequence, alternative } } => {
            assert_eq!("(x < y)", condition.to_string());
            assert_eq!(
                BlockStatement {
                    statements: vec![ExpressionStatement {
                        expression: IdentifierExpression { value: "x".to_string() }
                    }]
                },
                **consequence
            );
            assert_eq!(
                Some(Box::new(BlockStatement {
                    statements: vec![ExpressionStatement {
                        expression: IdentifierExpression { value: "y".to_string() }
                    }]
                })),
                *alternative
            );
        }
        other => panic!("{:?}", other),
    }
}

#[test]
fn conditional_without_else() {
    let list = statements("if (a) { return 1; let b = 2; } c");
    assert_eq!(2, list.len());
    match &list[0] {
        ExpressionStatement { expression: IfExpression { condition, consequence, alternative } } => {
            assert_eq!(IdentifierExpression { value: "a".to_string() }, **condition);
            assert_eq!(
                BlockStatement {
                    statements: vec![
                        ReturnStatement { value: IntegerExpression { value: 1 } },
                        LetStatement { name: "b".to_string(), value: IntegerExpression { value: 2 } },
                    ]
                },
                **consequence
            );
            assert_eq!(None, *alternative);
        }
        other => panic!("{:?}", other),
    }
    assert_eq!(ExpressionStatement { expression: IdentifierExpression { value: "c".to_string() } }, list[1]);
}

#[test]
fn nested_conditionals() {
    let (program, problems) = parse("if (a) { if (b) { c } else { d } }");
    assert_eq!(Vec::<Diagnostic>::new(), problems);
    assert_eq!(1, program.statements().len());
}

#[test]
fn unterminated_let_is_reported() {
    let found = problems("let x = ");
    assert!(!found.is_empty());
    assert!(found.iter().all(|p| *p == Diagnostic::MissingExpectedToken || *p == Diagnostic::UnexpectedToken));
    assert_eq!(vec![Diagnostic::UnexpectedToken], found);
    assert_eq!(0, statements("let x = ").len());
}

#[test]
fn each_kind_of_problem() {
    assert_eq!(vec![Diagnostic::LexicalError], problems("@"));
    assert_eq!(vec![Diagnostic::LexicalError], problems("let x = 4294967296;"));
    assert_eq!(vec![Diagnostic::UnexpectedToken], problems(")"));
    assert_eq!(vec![Diagnostic::UnexpectedToken], problems("a + ;"));
    assert_eq!(vec![Diagnostic::MissingExpectedToken], problems("let 5;"));
    assert_eq!(vec![Diagnostic::MissingExpectedToken], problems("let x 5;"));
    assert_eq!(vec![Diagnostic::MissingExpectedToken], problems("(a + b"));
    assert_eq!(vec![Diagnostic::MissingExpectedToken], problems("if x"));
    assert_eq!(vec![Diagnostic::MissingExpectedToken], problems("if (x { y"));
    assert_eq!(
        vec![Diagnostic::MissingExpectedToken, Diagnostic::UnexpectedToken],
        problems("if (x { y }")
    );
    assert_eq!(vec![Diagnostic::MissingExpectedToken], problems("if (x) y"));
    assert_eq!(vec![Diagnostic::MissingExpectedToken], problems("if (x) { y } else z"));
    assert_eq!(vec![Diagnostic::UnterminatedBlock], problems("if (x) { y"));
    assert_eq!(vec![Diagnostic::UnterminatedBlock], problems("if (x) { y } else { z"));
    assert_eq!(Vec::<Diagnostic>::new(), problems(""));
}

#[test]
fn parsing_resumes_after_a_problem() {
    let (program, found) = parse("let x 5; let y = 1; @ 7; return 2");
    assert_eq!(vec![Diagnostic::MissingExpectedToken, Diagnostic::LexicalError], found);
    assert_eq!(
        vec![
            LetStatement { name: "y".to_string(), value: IntegerExpression { value: 1 } },
            ReturnStatement { value: IntegerExpression { value: 2 } },
        ],
        program.statements()
    );
}

#[test]
fn recovery_stops_before_a_new_statement() {
    let (program, found) = parse("let let x = 5; (1 return 3");
    assert_eq!(vec![Diagnostic::MissingExpectedToken, Diagnostic::MissingExpectedToken], found);
    assert_eq!(
        vec![
            LetStatement { name: "x".to_string(), value: IntegerExpression { value: 5 } },
            ReturnStatement { value: IntegerExpression { value: 3 } },
        ],
        program.statements()
    );
}

#[test]
fn a_problem_inside_a_block_stays_inside() {
    let (program, found) = parse("if (a) { let 1; b } c");
    assert_eq!(vec![Diagnostic::MissingExpectedToken], found);
    let list = program.statements();
    assert_eq!(2, list.len());
    assert_eq!("(if a { { b;  } } else { None })", list[0].to_string());
    assert_eq!("c", list[1].to_string());
}

#[test]
fn semicolons_are_optional_at_the_end() {
    assert_eq!(statements("a; b;"), statements("a; b"));
    assert_eq!(2, statements("a; b").len());
    assert_eq!(1, statements("return 1").len());
}

#[test]
fn parser_reports_its_problems() {
    let mut parser = Parser::new(Lexer::new("1 + ; 2"));
    assert_eq!(Vec::<Diagnostic>::new(), parser.errors());
    let program = parser.parse_program();
    assert_eq!(vec![Diagnostic::UnexpectedToken], parser.errors());
    assert_eq!(vec![ExpressionStatement { expression: IntegerExpression { value: 2 } }], program.statements());
}

#[test]
fn a_parser_starts_where_the_lexer_stands() {
    let mut lexer = Lexer::new("let x = 1; 2");
    lexer.next_token();
    lexer.next_token();
    lexer.next_token();
    let mut parser = Parser::new(lexer);
    let program = parser.parse_program();
    assert_eq!("12", program.to_string());
}

#[test]
fn binding_powers_are_ranked() {
    assert_eq!(0, Precedence::Lowest.rank());
    assert_eq!(1, Precedence::Equals.rank());
    assert_eq!(2, Precedence::LessGreater.rank());
    assert_eq!(3, Precedence::Sum.rank());
    assert_eq!(4, Precedence::Product.rank());
    assert_eq!(5, Precedence::Prefix.rank());
}

#[test]
fn rendering_is_stable() {
    for source in ["-a * b", "a + b * c", "!(a == b) != (c < 5)", "1 + (2 + 3) + 4", "true", "x", "42"] {
        let once = rendered(source);
        let twice = rendered(&once);
        assert_eq!(once, twice);
        assert_eq!(statements(source), statements(&once));
    }
}

#[test]
fn program_text_has_no_separators() {
    let program = Program::new(vec![
        ExpressionStatement { expression: IdentifierExpression { value: "a".to_string() } },
        ReturnStatement { value: BooleanExpression { value: false } },
    ]);
    assert_eq!("areturn false", program.to_string());
    assert_eq!(2, program.clone().statements().len());
    assert_eq!("", Program::new(Vec::new()).to_string());
}

#[test]
fn rendering_is_stable_over_several_statements() {
    for source in ["a; (b + c); 1", "1; a; 2; b", "-a; !b", "(a + b)(c + d)", "true; 1; false"] {
        let once = rendered(source);
        let twice = rendered(&once);
        assert_eq!(once, twice);
        assert_eq!(statements(source), statements(&once));
    }
    assert_eq!("a(b + c)1", rendered("a; (b + c); 1"));
}

#[test]
fn statements_that_run_into_each_other() {
    assert_eq!("ab", rendered("a; b"));
    assert_eq!(1, statements("ab").len());
    assert_eq!("01", rendered("0; 1"));
    assert_eq!("1", rendered("01"));
}

#[test]
fn no_statement_is_dropped_in_silence() {
    for source in ["let", "let x", "let x =", "return", "(", "(1", "1 +", "!", "if", "if (", "if (1", "if (1)", "if (1) {", "if (1) { 2 } else", "if (1) { 2 } else {", "}", ";", "@", "= 1", "fn", "1 + * 2"] {
        let (program, found) = parse(source);
        assert!(!found.is_empty(), "{:?}", source);
        println!("{:?} gives {:?}", source, program.statements());
    }
    for source in ["", "  ", "1", "a;", "let x = 1; return x;", "if (1) { }", "if (a) { b } else { c }; d"] {
        let (_, found) = parse(source);
        assert_eq!(Vec::<Diagnostic>::new(), found, "{:?}", source);
    }
}

#[test]
fn deep_nesting_is_parsed() {
    let mut source = String::new();
    for _ in 0..200 {
        source.push_str("(-");
    }
    source.push('x');
    for _ in 0..200 {
        source.push(')');
    }
    let (program, found) = parse(&source);
    assert_eq!(Vec::<Diagnostic>::new(), found);
    assert_eq!(1, program.statements().len());
    let text = program.to_string();
    assert_eq!(text, rendered(&text));
}
