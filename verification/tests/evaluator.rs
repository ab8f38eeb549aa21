use monkey::ast;
use monkey::environment::Environment;
use monkey::evaluator::eval;
use monkey::lexer;
use monkey::object::Object;
use monkey::parser;

fn test_eval(input: &str) -> Option<Object> {
    let l = lexer::Lexer::new(input);
    let mut p = parser::Parser::new(l);
    let program = p.parse_program().unwrap();
    let (mut envs, env) = Environment::new();
    eval(ast::Node::Program(program), &mut envs, env)
}

fn test_integer_object(obj: Object, expected: i64, case: &str) {
    match obj {
        Object::Integer(int_obj) => {
            assert_eq!(
                int_obj.value, expected,
                "object has wrong value, expected {}, got {}",
                expected, int_obj.value
            );
        }
        _ => panic!(
            "object is not Integer\nfound\n{}\nfor case:\n{}",
            obj.inspect(),
            case
        ),
    }
}

fn test_boolean_object(obj: Object, expected: bool, case: &str) {
    match obj {
        Object::Boolean(bool_obj) => {
            assert_eq!(
                bool_obj.value, expected,
                "object has wrong value, expected {}, got {}",
                expected, bool_obj.value
            );
        }
        _ => panic!(
            "object is not Boolean\nfound\n{}\nfor case: \n{}",
            obj.inspect(),
            case
        ),
    }
}

fn test_null_object(obj: Object, case: &str) {
    match obj {
        Object::Null(_) => (),
        _ => panic!(
            "object is not NULL\nfound:\n{}\nfor case:\n{}",
            obj.inspect(),
            case
        ),
    }
}

#[test]
fn evaluator_test_eval_integer_expression() {
    let tests = [
        ("5", 5),
        ("10", 10),
        ("-5", -5),
        ("-10", -10),
        ("5 + 5 + 5 + 5 - 10", 10),
        ("2 * 2 * 2 * 2 * 2", 32),
        ("-50 + 100 + -50", 0),
        ("5 * 2 + 10", 20),
        ("5 + 2 * 10", 25),
        ("20 + 2 * -10", 0),
        ("50 / 2 * 2 + 10", 60),
        ("2 * (5 + 10)", 30),
        ("3 * 3 * 3 + 10", 37),
        ("3 * (3 * 3) + 10", 37),
        ("(5 + 10 * 2 + 15 / 3) * 2 + -10", 50),
    ];

    for (input, expected) in tests.iter() {
        let evaluated = test_eval(input).unwrap();
        test_integer_object(evaluated, *expected, input);
    }
}

#[test]
fn evaluator_test_eval_boolean_expression() {
    let tests = [
        ("true", true),
        ("false", false),
        ("1 < 2", true),
        ("1 > 2", false),
        ("1 < 1", false),
        ("1 > 1", false),
        ("1 == 1", true),
        ("1 != 1", false),
        ("1 == 2", false),
        ("1 != 2", true),
        ("true == true", true),
        ("false == false", true),
        ("true == false", false),
        ("true != false", true),
        ("false != true", true),
        ("(1 < 2) == true", true),
        ("(1 < 2) == false", false),
        ("(1 > 2) == true", false),
        ("(1 > 2) == false", true),
    ];

    for (input, expected) in tests.iter() {
        let evaluated = test_eval(input).unwrap();
        test_boolean_object(evaluated, *expected, input);
    }
}

#[test]
fn evaluator_test_bang_operator() {
    let tests = [
        ("!true", false),
        ("!false", true),
        ("!!true", true),
        ("!!false", false),
        ("!5", false),
        ("!!5", true),
        ("!0", true),
    ];

    for (input, expected) in tests.iter() {
        let evaluated = test_eval(input).unwrap();
        test_boolean_object(evaluated, *expected, input);
    }
}

#[test]
fn evaluator_test_if_else_expressions() {
    let return_int_tests = [
        ("if (true) { 10 }", 10),
        ("if (1) { 10 }", 10),
        ("if (1 < 2) { 10 }", 10),
        ("if (1 > 2) { 10 } else { 20 }", 20),
        ("if (1 < 2) { 10 } else { 20 }", 10),
    ];

    let return_null_tests = ["if (false) { 10 }", "if (1 > 2) { 10 }"];

    for (input, expected) in return_int_tests.iter() {
        let evaluated = test_eval(input).unwrap();
        test_integer_object(evaluated, *expected, input);
    }

    for input in return_null_tests.iter() {
        let evaluated = test_eval(input).unwrap();
        test_null_object(evaluated, input);
    }
}

#[test]
fn evaluator_test_return_statements() {
    let tests = [
        ("return 10;", 10),
        ("return 10; 9;", 10),
        ("return 2 * 5; 9;", 10),
        ("9; return 2 * 5; 9;", 10),
        ("if (10 > 1) { if (10 > 1) { return 10; } return 1; }", 10),
    ];

    for (input, expected) in tests.iter() {
        let evaluated = test_eval(input).unwrap();
        test_integer_object(evaluated, *expected, input);
    }
}

#[test]
fn evaluator_test_let_statements() {
    let tests = [
        ("let a = 5; a;", 5),
        ("let a = 5 * 5; a;", 25),
        ("let a = 5; let b = a; b;", 5),
        ("let a = 5; let b = a; let c = a + b + 5; c;", 15),
    ];

    for (input, expected) in tests.iter() {
        let res = test_eval(input).expect("error evaluating input");
        test_integer_object(res, *expected, input);
    }
}

#[test]
fn test_function_object() {
    let input = "fn(x){x + 2;};";
    let evaluated = test_eval(input).expect("Error evaluating input");
    match evaluated {
        Object::Function(func) => {
            assert_eq!(1, func.parameters.len());
            assert_eq!("x", func.parameters[0].string());
            assert_eq!("(x + 2)", func.body.string());
        }
        _ => panic!("object is not a Function"),
    }
}

#[test]
fn test_function_application() {
    let test = [
        ("let identity = fn(x) { x; }; identity(5);", 5),
        ("let identity = fn(x) { return x; }; identity(5);", 5),
        ("let double = fn(x) { x * 2; }; double(5);", 10),
        ("let add = fn(x, y) { x + y; }; add(5, 5);", 10),
        ("let add = fn(x, y) { x + y; }; add(5 + 5, add(5, 5));", 20),
        ("fn(x) { x; }(5)", 5),
    ];

    for (input, expected) in test.iter() {
        let res = test_eval(input).expect("error evaluating input");
        test_integer_object(res, *expected, input);
    }
}
