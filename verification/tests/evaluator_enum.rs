use monkey::ast;
use monkey::ast_enum;
use monkey::evaluator::Fault;
use monkey::evaluator_enum::eval;
use monkey::lexer;
use monkey::object_enum as object;
use monkey::parser;

fn enum_ident(i: &ast::Identifier) -> ast_enum::Identifier {
    ast_enum::Identifier {
        token: i.token.clone(),
        value: i.value.clone(),
    }
}

fn enum_block(b: &ast::BlockStatement) -> ast_enum::BlockStatement {
    ast_enum::BlockStatement {
        token: b.token.clone(),
        statements: b.statements.iter().map(enum_statement).collect(),
    }
}

fn enum_statement(s: &ast::Statement) -> ast_enum::Statement {
    match s {
        ast::Statement::Let(l) => ast_enum::Statement::Let(ast_enum::LetStatement {
            token: l.token.clone(),
            name: enum_ident(&l.name),
            value: Box::new(enum_expression(&l.value)),
        }),
        ast::Statement::Return(r) => ast_enum::Statement::Return(ast_enum::ReturnStatement {
            token: r.token.clone(),
            return_value: r.return_value.as_ref().map(|e| Box::new(enum_expression(e))),
        }),
        ast::Statement::Expression(e) => {
            ast_enum::Statement::Expression(ast_enum::ExpressionStatement {
                token: e.token.clone(),
                expression: Box::new(enum_expression(&e.expression)),
            })
        }
        ast::Statement::Block(b) => ast_enum::Statement::Block(enum_block(b)),
    }
}

fn enum_expression(e: &ast::Expression) -> ast_enum::Expression {
    match e {
        ast::Expression::Identifier(i) => ast_enum::Expression::Identifier(enum_ident(i)),
        ast::Expression::IntegerLiteral(i) => {
            ast_enum::Expression::IntegerLiteral(ast_enum::IntegerLiteral {
                token: i.token.clone(),
                value: i.value,
            })
        }
        ast::Expression::Prefix(p) => ast_enum::Expression::Prefix(ast_enum::PrefixExpression {
            token: p.token.clone(),
            operator: p.operator.clone(),
            right: Box::new(enum_expression(&p.right)),
        }),
        ast::Expression::Infix(i) => ast_enum::Expression::Infix(ast_enum::InfixExpression {
            token: i.token.clone(),
            left: Box::new(enum_expression(&i.left)),
            operator: i.operator.clone(),
            right: Box::new(enum_expression(&i.right)),
        }),
        ast::Expression::Boolean(b) => ast_enum::Expression::Boolean(ast_enum::Boolean {
            token: b.token.clone(),
            value: b.value,
        }),
        ast::Expression::If(i) => ast_enum::Expression::If(ast_enum::IfExpression {
            token: i.token.clone(),
            condition: Box::new(enum_expression(&i.condition)),
            consequence: enum_block(&i.consequence),
            alternative: i.alternative.as_ref().map(enum_block),
        }),
        ast::Expression::FunctionLiteral(f) => {
            ast_enum::Expression::FunctionLiteral(ast_enum::FunctionLiteral {
                token: f.token.clone(),
                parameters: f.parameters.iter().map(enum_ident).collect(),
                body: enum_block(&f.body),
            })
        }
        ast::Expression::Call(c) => ast_enum::Expression::Call(ast_enum::CallExpression {
            token: c.token.clone(),
            function: Box::new(enum_expression(&c.function)),
            arguments: c.arguments.iter().map(enum_expression).collect(),
        }),
        ast::Expression::StringLiteral(_) => panic!("no string literals in this tree"),
    }
}

fn test_eval(input: &str) -> Option<object::Object> {
    let l = lexer::Lexer::new(input);
    let mut p = parser::Parser::new(l);
    let program = p.parse_program().unwrap();
    let program = ast_enum::Program {
        statements: program.statements.iter().map(enum_statement).collect(),
    };
    eval(ast_enum::Node::Program(program))
}

fn test_integer_object(obj: object::Object, expected: i64) {
    match obj {
        object::Object::Integer(int_obj) => {
            assert_eq!(
                int_obj.value, expected,
                "object has wrong value, expected {}, got {}",
                expected, int_obj.value
            );
        }
        _ => panic!("object is not Integer"),
    }
}

fn test_boolean_object(obj: object::Object, expected: bool) {
    match obj {
        object::Object::Boolean(bool_obj) => {
            assert_eq!(
                bool_obj.value, expected,
                "object has wrong value, expected {}, got {}",
                expected, bool_obj.value
            );
        }
        _ => panic!("object is not Boolean"),
    }
}

fn test_null_object(obj: object::Object) {
    match obj {
        object::Object::Null(_) => (),
        _ => panic!("object is not NULL"),
    }
}

#[test]
fn evaluator_enum_test_eval_integer_expression() {
    let tests: [(&'static str, i64); 2] = [("5", 5), ("10", 10)];

    for (input, expected) in tests.iter() {
        let evaluated: object::Object = test_eval(input).unwrap();
        test_integer_object(evaluated, *expected);
    }
}

#[test]
fn evaluator_enum_test_eval_boolean_expression() {
    let tests: [(&'static str, bool); 19] = [
        ("true", true),
        ("false", false),
        ("1 < 2", true),
        ("1 > 2", false),
        ("1 < 1", false),
        ("1 > 1", false),
        ("1 == 1", true),
        ("1 != 1", false),
        ("1 == 2", false),
        ("1 != 2", true),
        ("true == true", true),
        ("false == false", true),
        ("true == false", false),
        ("true != false", true),
        ("false != true", true),
        ("(1 < 2) == true", true),
        ("(1 < 2) == false", false),
        ("(1 > 2) == true", false),
        ("(1 > 2) == false", true),
    ];

    for (input, expected) in tests.iter() {
        let evaluated = test_eval(input).unwrap();
        test_boolean_object(evaluated, *expected);
    }
}

#[test]
fn evaluator_enum_test_bang_operator() {
    let tests: [(&'static str, bool); 9] = [
        ("!true", false),
        ("!false", true),
        ("!!true", true),
        ("!!false", false),
        ("!null", true),
        ("!!null", false),
        ("!5", false),
        ("!!5", true),
        ("!0", true),
    ];

    for (input, expected) in tests.iter() {
        let evaluated = test_eval(input).unwrap();
        test_boolean_object(evaluated, *expected);
    }
}

#[test]
fn test_integer_expression() {
    let tests: [(&'static str, i64); 16] = [
        ("5", 5),
        ("10", 10),
        ("0", 0),
        ("-5", -5),
        ("-10", -10),
        ("5 + 5 + 5 + 5 - 10", 10),
        ("2 * 2 * 2 * 2 * 2", 32),
        ("-50 + 100 + -50", 0),
        ("5 * 2 + 10", 20),
        ("5 + 2 * 10", 25),
        ("20 + 2 * -10", 0),
        ("50 / 2 * 2 + 10", 60),
        ("2 * (5 + 10)", 30),
        ("3 * 3 * 3 + 10", 37),
        ("3 * (3 * 3) + 10", 37),
        ("(5 + 10 * 2 + 15 / 3) * 2 + -10", 50),
    ];

    for (input, expected) in tests.iter() {
        let evaluated = test_eval(input).unwrap();
        test_integer_object(evaluated, *expected);
    }
}

#[test]
fn evaluator_enum_test_if_else_expressions() {
    let return_int_tests: [(&'static str, i64); 5] = [
        ("if (true) { 10 }", 10),
        ("if (1) { 10 }", 10),
        ("if (1 < 2) { 10 }", 10),
        ("if (1 > 2) { 10 } else { 20 }", 20),
        ("if (1 < 2) { 10 } else { 20 }", 10),
    ];

    let return_null_tests: [&'static str; 4] = [
        "if (false) { 10 }",
        "if (1 > 2) { 10 }",
        "if (1 > 2) { 10 } else { null }",
        "if (1 < 2) { null } else { 20 }",
    ];

    for (input, expected) in return_int_tests.iter() {
        let evaluated: object::Object = test_eval(input).unwrap();
        test_integer_object(evaluated, *expected);
    }

    for input in return_null_tests.iter() {
        let evaluated: object::Object = test_eval(input).unwrap();
        test_null_object(evaluated);
    }
}

fn plain_run(input: &str) -> Result<Option<object::Object>, Fault> {
    let l = lexer::Lexer::new(input);
    let mut p = parser::Parser::new(l);
    let program = p.parse_program().unwrap();
    let program = ast_enum::Program {
        statements: program.statements.iter().map(enum_statement).collect(),
    };
    monkey::evaluator_enum::try_eval(&ast_enum::Node::Program(program))
}

#[test]
fn plain_evaluator_faults_and_nulls() {
    assert_eq!(plain_run("1 / 0").unwrap_err(), Fault::DivisionByZero);
    assert_eq!(plain_run("9223372036854775807 * 2").unwrap_err(), Fault::Overflow);
    assert_eq!(plain_run("-foo").unwrap_err(), Fault::NoValue);
    assert_eq!(plain_run("1 + foo").unwrap_err(), Fault::NoValue);
    assert!(plain_run("foo").unwrap().is_none());
    assert!(plain_run("let x = 5;").unwrap().is_none());
    test_null_object(plain_run("-true").unwrap().unwrap());
    test_null_object(plain_run("5 + true").unwrap().unwrap());
    test_null_object(plain_run("true + true").unwrap().unwrap());
    test_integer_object(plain_run("7 / -2").unwrap().unwrap(), -3);
}
