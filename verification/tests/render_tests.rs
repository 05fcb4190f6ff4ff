use pratt_parser::ast::Expression;
use pratt_parser::ast::Statement;
use pratt_parser::evaluator::eval;
use pratt_parser::object::Object;
use pratt_parser::object::Object::Bool;
use pratt_parser::object::Object::Int;
use pratt_parser::object::Object::Null;
use pratt_parser::object::Object::Str;
use pratt_parser::render::debug_expression;
use pratt_parser::render::debug_statement;
use pratt_parser::render::debug_token;
use pratt_parser::render::end_each;
use pratt_parser::render::join_texts;
use pratt_parser::render::render_integer;
use pratt_parser::render::render_natural;
use pratt_parser::render::render_number;
use pratt_parser::token::Token;

#[test]
fn eval_test() {
    assert_eq!(Int(32), eval(Expression::IntegerExpression{ value: 32 }));
    assert_eq!(Str("foo".to_string()), eval(Expression::IdentifierExpression{ value: "foo".to_string() }));
    assert_eq!(Bool(true), eval(Expression::BooleanExpression{ value: true }));
}

#[test]
fn object_to_string_test() {
    assert_eq!("12".to_string(), Int(12).to_string());
    assert_eq!("foo".to_string(), Str("foo".to_string()).to_string());
    assert_eq!("true".to_string(), Bool(true).to_string());
    assert_eq!("false".to_string(), Bool(false).to_string());
    assert_eq!("null".to_string(), Null.to_string());
}

#[test]
fn other_expressions_evaluate_to_null() {
    let negated = Expression::PrefixExpression {
        prefix: Token::Minus,
        right: Box::new(Expression::IntegerExpression { value: 1 }),
    };
    assert_eq!(Null, eval(negated));
    assert_eq!(Int(4294967295), eval(Expression::IntegerExpression { value: u32::MAX }));
    assert_eq!(Object::Bool(false), eval(Expression::BooleanExpression { value: false }));
}

#[test]
fn numbers_in_base_ten() {
    assert_eq!("0", render_number(0));
    assert_eq!("9", render_number(9));
    assert_eq!("10", render_number(10));
    assert_eq!("4294967295", render_number(u32::MAX));
    assert_eq!("18446744073709551615", render_natural(u64::MAX));
    assert_eq!("-1", render_integer(-1));
    assert_eq!("0", render_integer(0));
    assert_eq!("-9223372036854775808", render_integer(i64::MIN));
    assert_eq!("9223372036854775807", render_integer(i64::MAX));
    assert_eq!("-42", Int(-42).to_string());
}

#[test]
fn operators_render_as_written() {
    assert_eq!("-", Token::Minus.to_string());
    assert_eq!("!", Token::Bang.to_string());
    assert_eq!("+", Token::Plus.to_string());
    assert_eq!("*", Token::Asterisk.to_string());
    assert_eq!("/", Token::Slash.to_string());
    assert_eq!("<", Token::LowerThan.to_string());
    assert_eq!(">", Token::GreaterThan.to_string());
    assert_eq!("==", Token::Equal.to_string());
    assert_eq!("!=", Token::NotEqual.to_string());
}

fn every_token() -> Vec<Token> {
    vec![
        Token::Illegal,
        Token::EndOfFile,
        Token::Identifier("name".to_string()),
        Token::Identifier("a \"b\"\n\t\\ é".to_string()),
        Token::Integer(0),
        Token::Integer(4294967295),
        Token::Assign,
        Token::Plus,
        Token::Minus,
        Token::Bang,
        Token::Asterisk,
        Token::Slash,
        Token::LowerThan,
        Token::GreaterThan,
        Token::Equal,
        Token::NotEqual,
        Token::Comma,
        Token::Semicolon,
        Token::LeftParenthesis,
        Token::RightParenthesis,
        Token::LeftBrace,
        Token::RightBrace,
        Token::Function,
        Token::Let,
        Token::True,
        Token::False,
        Token::If,
        Token::Else,
        Token::Return,
    ]
}

#[test]
fn tokens_in_structural_form() {
    for token in every_token() {
        assert_eq!(format!("{:?}", token), debug_token(&token));
    }
    assert_eq!("Identifier(\"x\")", Token::Identifier("x".to_string()).to_string());
    assert_eq!("Integer(5)", Token::Integer(5).to_string());
    assert_eq!("Let", Token::Let.to_string());
    assert_eq!("Assign", Token::Assign.to_string());
}

#[test]
fn tokens_copy_and_compare() {
    for (i, a) in every_token().iter().enumerate() {
        assert_eq!(*a, a.clone());
        for (j, b) in every_token().iter().enumerate() {
            assert_eq!(i == j, a == b);
        }
    }
}

fn name(text: &str) -> Expression {
    Expression::IdentifierExpression { value: text.to_string() }
}

fn block(statements: Vec<Statement>) -> Statement {
    Statement::BlockStatement { statements }
}

fn sample_expressions() -> Vec<Expression> {
    let sum = Expression::InfixExpression {
        left: Box::new(name("a")),
        operator: Token::Plus,
        right: Box::new(Expression::IntegerExpression { value: 2 }),
    };
    let negation = Expression::PrefixExpression {
        prefix: Token::Bang,
        right: Box::new(Expression::BooleanExpression { value: true }),
    };
    let body = block(vec![
        Statement::LetStatement { name: "x".to_string(), value: sum.clone() },
        Statement::ReturnStatement { value: name("x") },
    ]);
    let short = Expression::IfExpression {
        condition: Box::new(negation.clone()),
        consequence: Box::new(block(vec![])),
        alternative: None,
    };
    let long = Expression::IfExpression {
        condition: Box::new(name("c")),
        consequence: Box::new(body.clone()),
        alternative: Some(Box::new(block(vec![Statement::ExpressionStatement { expression: short.clone() }]))),
    };
    let function = Expression::FunctionExpression {
        parameters: vec!["x".to_string(), "y".to_string()],
        body: Box::new(body.clone()),
    };
    let thunk = Expression::FunctionExpression { parameters: vec![], body: Box::new(block(vec![])) };
    let call = Expression::CallExpression {
        name: "add".to_string(),
        arguments: vec![sum.clone(), negation.clone(), long.clone()],
    };
    let bare = Expression::CallExpression { name: "now".to_string(), arguments: vec![] };
    let odd = Expression::PrefixExpression { prefix: Token::Identifier("q\"".to_string()), right: Box::new(name("\\")) };
    vec![name("a"), sum, negation, short, long, function, thunk, call, bare, odd]
}

#[test]
fn expressions_in_structural_form() {
    for e in sample_expressions() {
        assert_eq!(format!("{:?}", e), debug_expression(&e));
        let s = Statement::ExpressionStatement { expression: e.clone() };
        assert_eq!(format!("{:?}", s), debug_statement(&s));
        let l = Statement::LetStatement { name: "it".to_string(), value: e.clone() };
        assert_eq!(format!("{:?}", l), debug_statement(&l));
        let r = Statement::ReturnStatement { value: e.clone() };
        assert_eq!(format!("{:?}", r), debug_statement(&r));
        let b = block(vec![s, l, r]);
        assert_eq!(format!("{:?}", b), debug_statement(&b));
        assert_eq!(e, e.clone());
    }
}

#[test]
fn expressions_as_text() {
    let list = sample_expressions();
    assert_eq!("a", list[0].to_string());
    assert_eq!("(a + 2)", list[1].to_string());
    assert_eq!("(!true)", list[2].to_string());
    assert_eq!("(if (!true) { {  } } else { None })", list[3].to_string());
    assert_eq!(
        format!(
            "(if c {{ {{ let x = (a + 2); return x;  }} }} else {{ {:?} }})",
            Some(Box::new(block(vec![Statement::ExpressionStatement { expression: list[3].clone() }])))
        ),
        list[4].to_string()
    );
    assert_eq!("fn(x, y) { let x = (a + 2); return x;  }", list[5].to_string());
    assert_eq!("fn() {  }", list[6].to_string());
    assert_eq!(
        format!("add((a + 2), (!true), {})", list[4].to_string()),
        list[7].to_string()
    );
    assert_eq!("now()", list[8].to_string());
    assert_eq!("(Identifier(\"q\\\"\")\\)", list[9].to_string());
}

#[test]
fn statements_as_text() {
    let e = name("v");
    assert_eq!("let x = v", Statement::LetStatement { name: "x".to_string(), value: e.clone() }.to_string());
    assert_eq!("return v", Statement::ReturnStatement { value: e.clone() }.to_string());
    assert_eq!("v", Statement::ExpressionStatement { expression: e.clone() }.to_string());
    assert_eq!("{  }", block(vec![]).to_string());
    assert_eq!(
        "{ v; return v;  }",
        block(vec![
            Statement::ExpressionStatement { expression: e.clone() },
            Statement::ReturnStatement { value: e.clone() }
        ])
        .to_string()
    );
}

#[test]
fn joining_texts() {
    let texts = vec!["a".to_string(), "".to_string(), "bc".to_string()];
    assert_eq!("a, , bc", join_texts(&texts, ", "));
    assert_eq!("abc", join_texts(&texts, ""));
    assert_eq!("", join_texts(&Vec::new(), ", "));
    assert_eq!("x", join_texts(&vec!["x".to_string()], ", "));
    assert_eq!("a; ; bc; ", end_each(&texts, "; "));
    assert_eq!("", end_each(&Vec::new(), "; "));
}
