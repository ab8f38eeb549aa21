use monkey::ast;
use monkey::builtins::{builtins, len};
use monkey::environment::Environment;
use monkey::evaluator::{eval, try_eval, Fault};
use monkey::lexer::{lexes_to_eof, Lexer};
use monkey::object::{BuiltinFunction, Error, Integer, Object, Return, String_};
use monkey::parser::Parser;
use monkey::token::{Token, TokenType};
use monkey::utils::{bool_to_string, int_to_string};

fn parse(input: &str) -> (ast::Program, Vec<String>) {
    let mut p = Parser::new(Lexer::new(input));
    let program = p.parse_program().unwrap();
    (program, p.get_errors())
}

fn run(input: &str) -> Result<Option<Object>, Fault> {
    let (program, errors) = parse(input);
    assert!(errors.is_empty(), "parser errors: {:?}", errors);
    let (mut envs, env) = Environment::new();
    try_eval(&ast::Node::Program(program), &mut envs, env)
}

fn run_value(input: &str) -> Object {
    run(input).expect("no fault").expect("a value")
}

fn int_of(o: Object) -> i64 {
    match o {
        Object::Integer(i) => i.value,
        other => panic!("not an integer: {}", other.inspect()),
    }
}

fn error_of(o: Object) -> String {
    match o {
        Object::Error(e) => e.message,
        other => panic!("not an error: {}", other.inspect()),
    }
}

#[test]
fn define_then_get_gives_the_value() {
    let (mut envs, env) = Environment::new();
    envs.define(env, "x", Object::Integer(Integer { value: 5 }));
    envs.define(env, "y", Object::Integer(Integer { value: 6 }));
    let x = Environment::get(&envs, env, "x").unwrap();
    assert_eq!(int_of(x), 5);
    let y = Environment::get(&envs, env, "y").unwrap();
    assert_eq!(int_of(y), 6);
    assert!(Environment::get(&envs, env, "z").is_none());
}

#[test]
fn redefining_replaces_the_value() {
    let (mut envs, env) = Environment::new();
    envs.define(env, "x", Object::Integer(Integer { value: 5 }));
    envs.define(env, "x", Object::Integer(Integer { value: 7 }));
    assert_eq!(int_of(Environment::get(&envs, env, "x").unwrap()), 7);
}

#[test]
fn enclosed_environment_sees_outer_and_shadows() {
    let (mut envs, outer) = Environment::new();
    envs.define(outer, "x", Object::Integer(Integer { value: 1 }));
    let inner = Environment::new_enclosed(&mut envs, outer);
    assert_eq!(envs.len(), 2);
    assert_eq!(int_of(Environment::get(&envs, inner, "x").unwrap()), 1);
    envs.define(inner, "x", Object::Integer(Integer { value: 2 }));
    assert_eq!(int_of(Environment::get(&envs, inner, "x").unwrap()), 2);
    assert_eq!(int_of(Environment::get(&envs, outer, "x").unwrap()), 1);
}

#[test]
fn return_ends_the_program() {
    assert_eq!(int_of(run_value("return 1; 2;")), 1);
    assert_eq!(int_of(run_value("1; return 2; 3;")), 2);
}

#[test]
fn error_ends_the_program() {
    let v = run_value("5 + true; 10;");
    assert_eq!(error_of(v), "Bad operator: + between INTEGER and BOOLEAN");
}

#[test]
fn let_then_read() {
    assert_eq!(int_of(run_value("let x = 3 * 4; x;")), 12);
    assert!(run("let x = 1;").unwrap().is_none());
}

#[test]
fn call_binds_parameters_to_arguments() {
    assert_eq!(int_of(run_value("let f = fn(a, b) { a - b }; f(10, 3);")), 7);
    assert_eq!(int_of(run_value("fn(a, a) { a }(1, 2);")), 2);
    assert_eq!(int_of(run_value("fn(a) { a }(1, 2);")), 1);
}

#[test]
fn deep_recursion_runs() {
    let input = "let f = fn(n) { if (n == 0) { 0 } else { 1 + f(n - 1) } }; f(300);";
    assert_eq!(int_of(run_value(input)), 300);
}

#[test]
fn closures_keep_their_environment() {
    let input = "let adder = fn(a) { fn(b) { a + b } }; let addTwo = adder(2); addTwo(3);";
    assert_eq!(int_of(run_value(input)), 5);
    let input = "let x = 1; let f = fn() { x }; let x = 2; f();";
    assert_eq!(int_of(run_value(input)), 2);
}

#[test]
fn division_rounds_toward_zero() {
    assert_eq!(int_of(run_value("7 / 2")), 3);
    assert_eq!(int_of(run_value("-7 / 2")), -3);
    assert_eq!(int_of(run_value("7 / -2")), -3);
    assert_eq!(int_of(run_value("-7 / -2")), 3);
}

#[test]
fn faults_stop_the_run() {
    assert_eq!(run("9223372036854775807 + 1").unwrap_err(), Fault::Overflow);
    assert_eq!(run("-9223372036854775807 - 2").unwrap_err(), Fault::Overflow);
    assert_eq!(run("1 / 0").unwrap_err(), Fault::DivisionByZero);
    assert_eq!(run("fn(x) { x }()").unwrap_err(), Fault::MissingArgument);
    assert_eq!(run("fn() { }()").unwrap_err(), Fault::NoValue);
    assert_eq!(Fault::DivisionByZero.message(), "attempt to divide by zero");
}

#[test]
fn error_objects_name_the_problem() {
    assert_eq!(error_of(run_value("-true")), "Bad operator: - for BOOLEAN");
    assert_eq!(
        error_of(run_value("true + false")),
        "Bad operator: + between BOOLEAN and BOOLEAN"
    );
    assert_eq!(error_of(run_value("foobar")), "Undefined variable: foobar");
    assert_eq!(error_of(run_value("5(1)")), "not a function: INTEGER");
    assert_eq!(error_of(run_value("if (foo) { 1 }")), "Undefined variable: foo");
    assert_eq!(error_of(run_value("fn(x) { x }(bar)")), "Undefined variable: bar");
}

#[test]
fn strings_evaluate_to_themselves() {
    let v = run_value("\"hello world\"");
    assert_eq!(v.object_type(), "STRING");
    assert_eq!(v.inspect(), "hello world");
}

#[test]
fn eval_of_a_single_expression() {
    let (program, _) = parse("1 + 2");
    let stmt = program.statements.into_iter().next().unwrap();
    let (mut envs, env) = Environment::new();
    let v = eval(ast::Node::Statement(stmt), &mut envs, env).unwrap();
    assert_eq!(int_of(v), 3);
}

#[test]
fn inspect_and_kinds_of_objects() {
    assert_eq!(Object::Integer(Integer { value: -42 }).inspect(), "-42");
    assert_eq!(Object::Integer(Integer { value: i64::MIN }).inspect(), "-9223372036854775808");
    assert_eq!(run_value("true").inspect(), "true");
    assert_eq!(run_value("if (false) { 1 }").inspect(), "null");
    assert_eq!(run_value("if (false) { 1 }").object_type(), "NULL");
    assert_eq!(run_value("fn(x, y) { x + y; }").inspect(), "fn(x, y) {\n(x + y)\n}");
    assert_eq!(run_value("fn(x) { x }").object_type(), "FUNCTION");
    let r = Object::Return(Return { value: Box::new(Object::Integer(Integer { value: 3 })) });
    assert_eq!(r.inspect(), "return 3");
    assert_eq!(r.object_type(), "RETURN");
    assert_eq!(int_of(run_value("if (true) { return 3; }")), 3);
    assert_eq!(run_value("foo").inspect(), "Error: Undefined variable: foo");
    assert_eq!(run_value("foo").object_type(), "ERROR");
}

#[test]
fn error_constructors() {
    assert_eq!(
        Error::type_mismatch("INTEGER", "BOOLEAN").message,
        "Type mismatch: expected INTEGER, got BOOLEAN"
    );
    assert_eq!(
        Error::unknown_operator("%", "INTEGER", Some("INTEGER")).message,
        "Unknown operator: % for INTEGER and INTEGER"
    );
    assert_eq!(
        Error::unknown_operator("%", "BOOLEAN", None).message,
        "Unknown operator: % for BOOLEAN"
    );
    assert_eq!(
        Error::wrong_number_of_parms(2, 1).message,
        "Wrong number of parameters: expected 1, got 2"
    );
    assert_eq!(
        Error::type_has_no_method("INTEGER", "len()").message,
        "Type INTEGER has no method len()"
    );
    assert_eq!(Error::custom("x".to_string()).message, "x");
}

#[test]
fn len_builtin() {
    let s = Object::String_(String_ { value: "hello".to_string() });
    assert_eq!(int_of(len(vec![s])), 5);
    let s = Object::String_(String_ { value: "".to_string() });
    assert_eq!(int_of(len(vec![s])), 0);
    let a = Object::String_(String_ { value: "a".to_string() });
    let b = Object::String_(String_ { value: "b".to_string() });
    assert_eq!(
        error_of(len(vec![a, b])),
        "Wrong number of parameters: expected 1, got 2"
    );
    assert_eq!(
        error_of(len(vec![])),
        "Wrong number of parameters: expected 1, got 0"
    );
    assert_eq!(
        error_of(len(vec![Object::Integer(Integer { value: 1 })])),
        "Type INTEGER has no method len()"
    );
    assert_eq!(builtins("len"), Some(BuiltinFunction::Len));
    assert_eq!(builtins("first"), None);
    let s = Object::String_(String_ { value: "four".to_string() });
    assert_eq!(int_of(BuiltinFunction::Len.call(vec![s])), 4);
}

#[test]
fn lexer_stops_at_illegal_characters() {
    assert!(lexes_to_eof("let x = 5;"));
    assert!(lexes_to_eof(""));
    assert!(!lexes_to_eof("let x = @;"));
    let mut l = Lexer::new("5 @");
    assert_eq!(l.next_token().toke_type, TokenType::Int);
    let t = l.next_token();
    assert_eq!(t.toke_type, TokenType::Illegal);
    assert_eq!(t.literal, "@");
    assert_eq!(l.next_token().toke_type, TokenType::Illegal);
    let mut l = Lexer::new("x");
    l.next_token();
    assert_eq!(l.next_token().toke_type, TokenType::Eof);
    assert_eq!(l.next_token().toke_type, TokenType::Eof);
}

#[test]
fn parser_reports_errors() {
    let (_, errors) = parse("let = 5;");
    assert_eq!(errors[0], "expected next token to be \"IDENT\", got \"=\" instead");
    let (_, errors) = parse("let x 5;");
    assert_eq!(errors[0], "expected next token to be \"=\", got \"INT\" instead");
    let (_, errors) = parse("+5;");
    assert_eq!(errors[0], "no prefix parse function for + found");
    let (_, errors) = parse("92233720368547758070;");
    assert_eq!(
        errors[0],
        "could not parse 92233720368547758070 as integer, number too large to fit in target type"
    );
}

#[test]
fn printed_numbers_read_back() {
    for n in [0i64, 7, 10, 123456, i64::MAX] {
        let text = int_to_string(n);
        let (program, errors) = parse(&text);
        assert!(errors.is_empty());
        match &program.statements[0] {
            ast::Statement::Expression(e) => match &*e.expression {
                ast::Expression::IntegerLiteral(i) => assert_eq!(i.value, n),
                _ => panic!("not an integer literal"),
            },
            _ => panic!("not an expression statement"),
        }
    }
    assert_eq!(bool_to_string(false), "false");
}

#[test]
fn program_text() {
    let cases = [
        ("let x = 5;", "let x = 5;"),
        ("return 5;", "return 5;"),
        ("fn(x, y) { x + y; }", "fn(x, y) (x + y)"),
        ("if (x < y) { x } else { y }", "if (x < y) x else y"),
        ("\"hi\"", "\"hi\""),
        ("add(1, 2 * 3)", "add(1, (2 * 3))"),
    ];
    for (input, text) in cases.iter() {
        let (program, errors) = parse(input);
        assert!(errors.is_empty());
        assert_eq!(program.string(), *text);
        let node = ast::Node::Program(program);
        assert_eq!(node.string(), *text);
    }
}

#[test]
fn tokens() {
    let t = Token::new(TokenType::Plus, "+");
    assert_eq!(t.toke_type, TokenType::Plus);
    assert_eq!(t.literal, "+");
    let e = Token::new_empty();
    assert_eq!(e.toke_type, TokenType::Illegal);
    assert_eq!(e.literal, "");
    assert_eq!(TokenType::NotEq.name(), "!=");
    assert_eq!(TokenType::Ident.name(), "IDENT");
}

#[test]
fn plain_text_lexes_to_its_characters() {
    let input = "let add = fn(x, y) { x + y; };\n\tif (a != b) { return !c == d; } 10 <= 3";
    let mut l = Lexer::new(input);
    let mut text = String::new();
    loop {
        let t = l.next_token();
        assert_ne!(t.toke_type, TokenType::Illegal);
        if t.toke_type == TokenType::Eof {
            break;
        }
        text.push_str(&t.literal);
    }
    let stripped: String = input.chars().filter(|c| !" \t\n\r".contains(*c)).collect();
    assert_eq!(text, stripped);
}

#[test]
fn read_char_moves_past_the_end() {
    let mut l = Lexer::new("ab");
    assert_eq!(l.peek_char(), "b");
    l.read_char();
    assert_eq!(l.peek_char(), "");
    l.read_char();
    l.read_char();
    assert_eq!(l.peek_char(), "");
    assert_eq!(l.next_token().toke_type, TokenType::Eof);
    assert_eq!(l.next_token().toke_type, TokenType::Eof);
}

#[test]
fn parsing_keeps_every_error_in_order() {
    let (program, errors) = parse("let = 1; let x 2; 5;");
    assert_eq!(errors.len(), 3);
    assert_eq!(errors[0], "expected next token to be \"IDENT\", got \"=\" instead");
    assert_eq!(errors[1], "no prefix parse function for = found");
    assert_eq!(errors[2], "expected next token to be \"=\", got \"INT\" instead");
    assert!(!program.statements.is_empty());
}
