use monkey::ast;
use monkey::lexer;
use monkey::parser::Parser;


fn check_parser_errors(parser: &Parser) {
    let errors = parser.get_errors();
    if errors.is_empty() {
        return;
    }
    let mut msg = format!("parser has {} errors\n", errors.len());
    for err in errors.iter() {
        msg.push_str(&format!("parser error: {}\n", err));
    }
    panic!("{}", msg);
}

#[derive(Clone, Debug)]
enum PrimitiveValue<'a> {
    Int64(i64),
    Str(&'a str),
    Bool(bool),
}

fn test_integer_literal(expr: &ast::Expression, expected_value: i64) {
    if let ast::Expression::IntegerLiteral(int_lit) = expr {
        assert_eq!(int_lit.value, expected_value);
        assert_eq!(int_lit.token.literal, expected_value.to_string());
    } else {
        panic!("Expression is not an IntegerLiteral. Got: {:?}", expr);
    }
}

fn test_identifier(expr: &ast::Expression, expected_value: &str) {
    if let ast::Expression::Identifier(ident) = expr {
        assert_eq!(ident.value, expected_value);
        assert_eq!(ident.token.literal, expected_value);
    } else {
        panic!("Expression is not an Identifier. Got: {:?}", expr);
    }
}

fn test_boolean_literal(expr: &ast::Expression, expected_value: bool) {
    if let ast::Expression::Boolean(b) = expr {
        assert_eq!(b.value, expected_value);
        assert_eq!(b.token.literal, expected_value.to_string());
    } else {
        panic!("Expression is not a Boolean. Got: {:?}", expr);
    }
}

fn test_literal_expression(expr: &ast::Expression, expected: PrimitiveValue) {
    match expected {
        PrimitiveValue::Int64(v) => test_integer_literal(expr, v),
        PrimitiveValue::Str(v) => test_identifier(expr, v),
        PrimitiveValue::Bool(v) => test_boolean_literal(expr, v),
    }
}

fn test_infix_expression(
    expr: &ast::Expression,
    expected_left: PrimitiveValue,
    expected_op: &str,
    expected_right: PrimitiveValue,
) {
    if let ast::Expression::Infix(infix_expr) = expr {
        test_literal_expression(&infix_expr.left, expected_left);
        assert_eq!(infix_expr.operator, expected_op);
        test_literal_expression(&infix_expr.right, expected_right);
    } else {
        panic!("Expression is not an InfixExpression. Got: {:?}", expr);
    }
}

#[test]
fn parser_test_let_statements() {
    let input = "
        let x = 5;
        let y = 10;
        let foobar = 838383;
    ";
    let lexer = lexer::Lexer::new(input);
    let mut parser = Parser::new(lexer);
    let program = parser
        .parse_program()
        .expect("parse_program() returned None");
    check_parser_errors(&parser);

    assert_eq!(program.statements.len(), 3);

    let expected_identifiers = ["x", "y", "foobar"];
    for (i, stmt) in program.statements.iter().enumerate() {
        if let ast::Statement::Let(let_stmt) = stmt {
            assert_eq!(let_stmt.name.value, expected_identifiers[i]);
        } else {
            panic!("Statement is not a LetStatement. Got: {:?}", stmt);
        }
    }
}

#[test]
fn parser_test_return_statements() {
    let input = "
        return 5;
        return 10;
        return 993322;
    ";
    let lexer = lexer::Lexer::new(input);
    let mut parser = Parser::new(lexer);
    let program = parser.parse_program().unwrap();

    check_parser_errors(&parser);

    assert_eq!(program.statements.len(), 3);

    for stmt in program.statements.iter() {
        assert!(matches!(stmt, ast::Statement::Return(_)));
    }
}

#[test]
fn test_identifier_expression() {
    let input = "foobar;";
    let lexer = lexer::Lexer::new(input);
    let mut parser = Parser::new(lexer);
    let program = parser.parse_program().unwrap();
    check_parser_errors(&parser);

    assert_eq!(program.statements.len(), 1);
    let stmt = &program.statements[0];

    if let ast::Statement::Expression(expr_stmt) = stmt {
        test_identifier(&expr_stmt.expression, "foobar");
    } else {
        panic!("Statement is not an ExpressionStatement. Got: {:?}", stmt);
    }
}

#[test]
fn test_integer_literal_expression() {
    let input = "5;";
    let lexer = lexer::Lexer::new(input);
    let mut parser = Parser::new(lexer);
    let program = parser.parse_program().unwrap();
    check_parser_errors(&parser);

    assert_eq!(program.statements.len(), 1);
    let stmt = &program.statements[0];

    if let ast::Statement::Expression(expr_stmt) = stmt {
        test_integer_literal(&expr_stmt.expression, 5);
    } else {
        panic!("Statement is not an ExpressionStatement. Got: {:?}", stmt);
    }
}

#[test]
fn test_parsing_prefix_expressions() {
    let prefix_tests = [
        ("!5;", "!", PrimitiveValue::Int64(5)),
        ("-15;", "-", PrimitiveValue::Int64(15)),
        ("!true;", "!", PrimitiveValue::Bool(true)),
        ("!false;", "!", PrimitiveValue::Bool(false)),
    ];

    for (input, operator, value) in prefix_tests.iter() {
        let lexer = lexer::Lexer::new(input);
        let mut parser = Parser::new(lexer);
        let program = parser.parse_program().unwrap();
        check_parser_errors(&parser);

        assert_eq!(program.statements.len(), 1);
        let stmt = &program.statements[0];

        if let ast::Statement::Expression(expr_stmt) = stmt {
            if let ast::Expression::Prefix(prefix_expr) = &*expr_stmt.expression {
                assert_eq!(prefix_expr.operator, *operator);
                test_literal_expression(&prefix_expr.right, value.clone());
            } else {
                panic!(
                    "Expression is not a PrefixExpression. Got: {:?}",
                    expr_stmt.expression
                );
            }
        } else {
            panic!("Statement is not an ExpressionStatement. Got: {:?}", stmt);
        }
    }
}

#[test]
fn test_parsing_infix_expressions() {
    let infix_tests = [
        (
            "5 + 5;",
            PrimitiveValue::Int64(5),
            "+",
            PrimitiveValue::Int64(5),
        ),
        (
            "5 - 5;",
            PrimitiveValue::Int64(5),
            "-",
            PrimitiveValue::Int64(5),
        ),
        (
            "5 * 5;",
            PrimitiveValue::Int64(5),
            "*",
            PrimitiveValue::Int64(5),
        ),
        (
            "5 / 5;",
            PrimitiveValue::Int64(5),
            "/",
            PrimitiveValue::Int64(5),
        ),
        (
            "5 > 5;",
            PrimitiveValue::Int64(5),
            ">",
            PrimitiveValue::Int64(5),
        ),
        (
            "5 < 5;",
            PrimitiveValue::Int64(5),
            "<",
            PrimitiveValue::Int64(5),
        ),
        (
            "5 == 5;",
            PrimitiveValue::Int64(5),
            "==",
            PrimitiveValue::Int64(5),
        ),
        (
            "5 != 5;",
            PrimitiveValue::Int64(5),
            "!=",
            PrimitiveValue::Int64(5),
        ),
        (
            "true == true",
            PrimitiveValue::Bool(true),
            "==",
            PrimitiveValue::Bool(true),
        ),
        (
            "true != false",
            PrimitiveValue::Bool(true),
            "!=",
            PrimitiveValue::Bool(false),
        ),
        (
            "false == false",
            PrimitiveValue::Bool(false),
            "==",
            PrimitiveValue::Bool(false),
        ),
    ];

    for (input, left_val, op, right_val) in infix_tests.iter() {
        let lexer = lexer::Lexer::new(input);
        let mut parser = Parser::new(lexer);
        let program = parser.parse_program().unwrap();
        check_parser_errors(&parser);

        assert_eq!(program.statements.len(), 1);
        let stmt = &program.statements[0];

        if let ast::Statement::Expression(expr_stmt) = stmt {
            test_infix_expression(
                &expr_stmt.expression,
                left_val.clone(),
                op,
                right_val.clone(),
            );
        } else {
            panic!("Statement is not an ExpressionStatement. Got: {:?}", stmt);
        }
    }
}

#[test]
fn test_operator_precedence_parsing() {
    let tests = [
        ("-a * b", "((-a) * b)"),
        ("!-a", "(!(-a))"),
        ("a + b + c", "((a + b) + c)"),
        ("a + b - c", "((a + b) - c)"),
        ("a * b * c", "((a * b) * c)"),
        ("a * b / c", "((a * b) / c)"),
        ("a + b / c", "(a + (b / c))"),
        ("a + b * c + d / e - f", "(((a + (b * c)) + (d / e)) - f)"),
        ("3 + 4; -5 * 5", "(3 + 4)((-5) * 5)"),
        ("5 > 4 == 3 < 4", "((5 > 4) == (3 < 4))"),
        ("5 < 4 != 3 > 4", "((5 < 4) != (3 > 4))"),
        (
            "3 + 4 * 5 == 3 * 1 + 4 * 5",
            "((3 + (4 * 5)) == ((3 * 1) + (4 * 5)))",
        ),
        ("true", "true"),
        ("false", "false"),
        ("3 > 5 == false", "((3 > 5) == false)"),
        ("3 < 5 == true", "((3 < 5) == true)"),
        ("1 + (2 + 3) + 4", "((1 + (2 + 3)) + 4)"),
        ("(5 + 5) * 2", "((5 + 5) * 2)"),
        ("2 / (5 + 5)", "(2 / (5 + 5))"),
        ("-(5 + 5)", "(-(5 + 5))"),
        ("!(true == true)", "(!(true == true))"),
        ("a + add(b * c) + d", "((a + add((b * c))) + d)"),
        (
            "add(a, b, 1, (2 * 3), (4 + 5), add(6, (7 * 8)))",
            "add(a, b, 1, (2 * 3), (4 + 5), add(6, (7 * 8)))",
        ),
        (
            "add(a + b + c * d / f + g)",
            "add((((a + b) + ((c * d) / f)) + g))",
        ),
    ];

    for (input, expected) in tests.iter() {
        let lexer = lexer::Lexer::new(input);
        let mut parser = Parser::new(lexer);
        let program = parser.parse_program().unwrap();
        check_parser_errors(&parser);
        assert_eq!(program.string(), *expected);
    }
}

#[test]
fn test_if_expression() {
    let input = "if (x < y) { x }";
    let lexer = lexer::Lexer::new(input);
    let mut parser = Parser::new(lexer);
    let program = parser.parse_program().unwrap();
    check_parser_errors(&parser);

    assert_eq!(program.statements.len(), 1);
    let stmt = &program.statements[0];

    if let ast::Statement::Expression(expr_stmt) = stmt {
        if let ast::Expression::If(if_expr) = &*expr_stmt.expression {
            test_infix_expression(
                &if_expr.condition,
                PrimitiveValue::Str("x"),
                "<",
                PrimitiveValue::Str("y"),
            );
            assert_eq!(if_expr.consequence.statements.len(), 1);
            if let ast::Statement::Expression(cons_expr_stmt) =
                &if_expr.consequence.statements[0]
            {
                test_identifier(&cons_expr_stmt.expression, "x");
            } else {
                panic!("Consequence statement is not an ExpressionStatement.");
            }
            assert!(if_expr.alternative.is_none());
        } else {
            panic!("Expression is not an IfExpression.");
        }
    } else {
        panic!("Statement is not an ExpressionStatement.");
    }
}

#[test]
fn test_if_else_expression() {
    let input = "if (x < y) { x } else { y }";
    let lexer = lexer::Lexer::new(input);
    let mut parser = Parser::new(lexer);
    let program = parser.parse_program().unwrap();
    check_parser_errors(&parser);

    assert_eq!(program.statements.len(), 1);
    let stmt = &program.statements[0];

    if let ast::Statement::Expression(expr_stmt) = stmt {
        if let ast::Expression::If(if_expr) = &*expr_stmt.expression {
            test_infix_expression(
                &if_expr.condition,
                PrimitiveValue::Str("x"),
                "<",
                PrimitiveValue::Str("y"),
            );

            assert_eq!(if_expr.consequence.statements.len(), 1);
            if let ast::Statement::Expression(cons_expr_stmt) =
                &if_expr.consequence.statements[0]
            {
                test_identifier(&cons_expr_stmt.expression, "x");
            } else {
                panic!("Consequence statement is not an ExpressionStatement.");
            }

            assert!(if_expr.alternative.is_some());
            let alt_block = if_expr.alternative.as_ref().unwrap();
            assert_eq!(alt_block.statements.len(), 1);
            if let ast::Statement::Expression(alt_expr_stmt) = &alt_block.statements[0] {
                test_identifier(&alt_expr_stmt.expression, "y");
            } else {
                panic!("Alternative statement is not an ExpressionStatement.");
            }
        } else {
            panic!("Expression is not an IfExpression.");
        }
    } else {
        panic!("Statement is not an ExpressionStatement.");
    }
}

#[test]
fn test_function_literal_parsing() {
    let input = "fn(x, y) { x + y; }";
    let lexer = lexer::Lexer::new(input);
    let mut parser = Parser::new(lexer);
    let program = parser.parse_program().unwrap();
    check_parser_errors(&parser);

    assert_eq!(program.statements.len(), 1);
    let stmt = &program.statements[0];

    if let ast::Statement::Expression(expr_stmt) = stmt {
        if let ast::Expression::FunctionLiteral(func_lit) = &*expr_stmt.expression {
            assert_eq!(func_lit.parameters.len(), 2);
            assert_eq!(func_lit.parameters[0].value, "x");
            assert_eq!(func_lit.parameters[1].value, "y");

            assert_eq!(func_lit.body.statements.len(), 1);
            if let ast::Statement::Expression(body_expr_stmt) = &func_lit.body.statements[0] {
                test_infix_expression(
                    &body_expr_stmt.expression,
                    PrimitiveValue::Str("x"),
                    "+",
                    PrimitiveValue::Str("y"),
                );
            } else {
                panic!("Function body statement is not an ExpressionStatement.");
            }
        } else {
            panic!("Expression is not a FunctionLiteral.");
        }
    } else {
        panic!("Statement is not an ExpressionStatement.");
    }
}

#[test]
fn test_call_expression_parsing() {
    let input = "add(1, 2 * 3, 4 + 5);";
    let lexer = lexer::Lexer::new(input);
    let mut parser = Parser::new(lexer);
    let program = parser.parse_program().unwrap();
    check_parser_errors(&parser);

    assert_eq!(program.statements.len(), 1);
    let stmt = &program.statements[0];

    if let ast::Statement::Expression(expr_stmt) = stmt {
        if let ast::Expression::Call(call_expr) = &*expr_stmt.expression {
            test_identifier(&call_expr.function, "add");
            assert_eq!(call_expr.arguments.len(), 3);
            test_literal_expression(&call_expr.arguments[0], PrimitiveValue::Int64(1));
            test_infix_expression(
                &call_expr.arguments[1],
                PrimitiveValue::Int64(2),
                "*",
                PrimitiveValue::Int64(3),
            );
            test_infix_expression(
                &call_expr.arguments[2],
                PrimitiveValue::Int64(4),
                "+",
                PrimitiveValue::Int64(5),
            );
        } else {
            panic!("Expression is not a CallExpression.");
        }
    } else {
        panic!("Statement is not an ExpressionStatement.");
    }
}

#[test]
fn test_string_literal_expression() {
    let input = r#""hello world""#;
    let lexer = lexer::Lexer::new(input);
    let mut parser = Parser::new(lexer);
    let program = parser.parse_program().unwrap();
    check_parser_errors(&parser);

    if let ast::Statement::Expression(expr) = &program.statements[0]{
        if let ast::Expression::StringLiteral(str_lit)  = &*expr.expression {
            assert_eq!("hello world", str_lit.value, "str_lit.value is not \"hello world\", got\"str_lit.value\"");
        }else{
            panic!("expr.expression is not Expression::StringLiteral")
        }
    }
}
