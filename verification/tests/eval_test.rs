use monkey::errors;
use monkey::eval;
use monkey::lexer;
use monkey::object::environment::Environment;
use monkey::object::Object;
use monkey::parser;
use std::rc::Rc;

#[test]
fn test_eval_integer_expression() {
    let tests: Vec<TestCase> = vec![
        TestCase::integer("5", 5),
        TestCase::integer("10", 10),
        TestCase::integer("10 + 15", 25),
        TestCase::integer("2 - 12", -10),
        TestCase::integer("5 + 10 / 2 ", 10),
        TestCase::integer("-5", -5),
    ];
    for test in tests {
        run_test_case(test);
    }
}

struct TestCase<'a> {
    code: &'a str,
    value: TestCaseValue,
}
impl<'a> TestCase<'a> {
    fn integer(code: &'a str, i: i64) -> TestCase<'a> {
        TestCase {
            code,
            value: TestCaseValue::Int(i),
        }
    }
    fn bool(code: &'a str, i: bool) -> TestCase<'a> {
        TestCase {
            code,
            value: TestCaseValue::Bool(i),
        }
    }
    fn null(code: &'a str) -> TestCase<'a> {
        TestCase {
            code,
            value: TestCaseValue::Null,
        }
    }
    fn string(code: &'a str, string: String) -> TestCase<'a> {
        TestCase {
            code,
            value: TestCaseValue::Str(string),
        }
    }
}

fn run_test_case(case: TestCase) {
    let mut lexer = lexer::new(case.code);
    let mut parser = parser::Parser::new(&mut lexer);
    let program = parser.parse_program().unwrap();
    let mut env = Environment::new();
    let result = eval::eval_program(&program, &mut env)
        .unwrap()
        .unwrap();
    let expected = match case.value {
        TestCaseValue::Bool(b) => Object::Boolean(b),
        TestCaseValue::Int(i) => Object::Integer(i),
        TestCaseValue::Null => Object::Null,
        TestCaseValue::Str(st) => Object::String(st),
    };
    assert_eq!(*result, expected);
    println!("{}", program.to_string());
}

enum TestCaseValue {
    Int(i64),
    Bool(bool),
    Null,
    Str(String),
}

#[test]
fn test_eval_boolean_expression() {
    let tests: Vec<TestCase> = vec![
        TestCase::bool("true", true),
        TestCase::bool("false", false),
        TestCase::bool("2 < 3", true),
        TestCase::bool("2 < 1", false),
        TestCase::bool("2 > 3", false),
        TestCase::bool("2 > 1", true),
        TestCase::bool("!true", false),
        TestCase::bool("!false", true),
        TestCase::bool("!!true", true),
        TestCase::bool("!!false", false),
        TestCase::bool("true == true", true),
        TestCase::bool("3 == 3", true),
    ];
    for test in tests {
        run_test_case(test);
    }
}

#[test]
fn test_if_expression() {
    let tests: Vec<TestCase> = vec![
        TestCase::integer("if (true) { 5 }", 5),
        TestCase::integer("if (3 > 2) { 65 }", 65),
        TestCase::null("if (true) {}"),
        TestCase::null("if (false) {}"),
        TestCase::null("if (false) { 5 } else {}"),
        TestCase::integer("if (false) { 2 } else { 3 }", 3),
        TestCase::integer(
            "
                let a = 3;
                if (true) { 
                    let a = 5;
                }
                a
                ",
            3,
        ),
        TestCase::integer(
            "
                let a = 3;
                if (false) {} else { 
                    let a = 5;
                }
                a
                ",
            3,
        ),
    ];
    for test in tests {
        run_test_case(test);
    }
}

#[test]
fn test_return_statement() {
    let tests: Vec<TestCase> = vec![
        TestCase::integer("return 3;", 3),
        TestCase::integer("return 10; 9;", 10),
        TestCase::integer("return 2*5; 9;", 10),
        TestCase::integer("9; return 2+5; 9;", 7),
        TestCase::integer(
            "
                if (10 > 1) {
                    if (10 > 1) {
                        return 10; 
                    }
                    return 1;
                }
                ",
            10,
        ),
    ];
    for test in tests {
        run_test_case(test);
    }
}

struct TestErrorCase {
    input: &'static str,
    error_message: &'static str,
}
#[test]
fn test_errors() {
    let tests: Vec<TestErrorCase> = vec![
        TestErrorCase {
            input: "5 + true;",
            error_message: "Eval error: Cannot evaluate infix expression 5 + true",
        },
        TestErrorCase {
            input: "5 + true; 5;",
            error_message: "Eval error: Cannot evaluate infix expression 5 + true",
        },
        TestErrorCase {
            input: "-true",
            error_message: "Eval error: The prefix - cannot appear before type Boolean",
        },
        TestErrorCase {
            input: "true + false;",
            error_message: "Eval error: Cannot evaluate infix expression true + false",
        },
        TestErrorCase {
            input: "5; true + false; 5;",
            error_message: "Eval error: Cannot evaluate infix expression true + false",
        },
        TestErrorCase {
            input: "if (10 > 1) { true + false; }",
            error_message: "Eval error: Cannot evaluate infix expression true + false",
        },
        TestErrorCase {
            input: "!5;",
            error_message: "Eval error: The prefix ! cannot appear before type Integer",
        },
        TestErrorCase {
            input: "foobar;",
            error_message: "Eval error: The identifier 'foobar' has not been bound",
        },
    ];
    for test in tests {
        let mut lexer = lexer::new(test.input);
        let mut parser = parser::Parser::new(&mut lexer);
        let program = parser.parse_program().unwrap();
        let mut env = Environment::new();
        let evaluation_result = eval::eval_program(&program, &mut env)
            .map_err(errors::MonkeyError::Eval)
            .unwrap_err();
        assert_eq!(
            evaluation_result.to_string(),
            String::from(test.error_message)
        );
    }
}

#[test]
fn test_let_statements() {
    let tests: Vec<TestCase> = vec![
        TestCase::integer("let a = 5; a;", 5),
        TestCase::integer("let a = 5 * 5; a;", 25),
        TestCase::integer("let a = 5; let b = a; b;", 5),
        TestCase::integer("let a = 5; let b = a; let c = a + b + 5; c;", 15),
    ];
    for test in tests {
        run_test_case(test);
    }
}

#[test]
fn test_fn_application() {
    let tests: Vec<TestCase> = vec![
        TestCase::integer("let identity = fn(x) { x; }; identity(5);", 5),
        TestCase::integer("let identity = fn(x) { return x; }; identity(5);", 5),
        TestCase::integer("let double = fn(x) { x * 2; }; double(5);", 10),
        TestCase::integer("let add = fn(x, y) { x + y; }; add(5, 5);", 10),
        TestCase::integer("let add = fn(x, y) { x + y; }; add(5 + 5, add(5, 5));", 20),
        TestCase::integer("fn(x) { x; }(5)", 5),
        // Check closure can capture its env
        TestCase::integer("let a = 3; let b = fn() { a; }; b();", 3),
        // Check closure doesn't overwrite parent env
        TestCase::integer("let a = 3; fn() { let a = 5; }(); a;", 3),
        TestCase::integer(
            "
                let times_by_five = fn() { 
                    let a = 5;
                    fn(x) {
                        x * a
                    };
                }();
                times_by_five(3);
                ", // this works even though the env the inner fn was defined in no longer exists!
            15,
        ),
        TestCase::integer(
            "let multiply = fn(x) { fn(y) { x * y }; }; multiply(3)(5);",
            15,
        ),
    ];
    for test in tests {
        run_test_case(test);
    }
}

#[test]
fn test_string_literals() {
    let tests: Vec<TestCase> = vec![
        TestCase::string("\"ahoy shipmates\";", String::from("ahoy shipmates")),
        TestCase::string(
            r#""hello" + " " + "everyone!""#,
            String::from("hello everyone!"),
        ),
    ];
    for test in tests {
        run_test_case(test);
    }
}

#[test]
fn test_block_expressions() {
    let tests: Vec<TestCase> = vec![
        TestCase::integer("let a = { 2; 3; }; a", 3),
        TestCase::integer(
            "
            let a = 3;
            { 
                let a = 5;
            }
            a
            ",
            3,
        ),
    ];
    for test in tests {
        run_test_case(test);
    }
}

#[test]
fn test_builtins() {
    let tests: Vec<TestCase> = vec![TestCase::integer("len(\"ahoy\")", 4)];
    for test in tests {
        run_test_case(test);
    }
}

fn run(input: &str) -> Result<Option<Object<'static>>, String> {
    let mut lexer = lexer::new(input);
    let mut parser = parser::Parser::new(&mut lexer);
    let program = parser.parse_program().unwrap();
    let mut env = Environment::new();
    match eval::eval_program(&program, &mut env) {
        Ok(Some(object)) => Ok(Some(plain(&object))),
        Ok(None) => Ok(None),
        Err(error) => Err(errors::MonkeyError::Eval(error).to_string()),
    }
}

fn plain(object: &Object) -> Object<'static> {
    match object {
        Object::Integer(value) => Object::Integer(*value),
        Object::Boolean(value) => Object::Boolean(*value),
        Object::String(value) => Object::String(value.clone()),
        Object::Null => Object::Null,
        Object::ReturnValue(inner) => Object::ReturnValue(Rc::new(plain(inner))),
        Object::BuiltinFunction(builtin) => Object::BuiltinFunction(*builtin),
        Object::Function { .. } => panic!("a function is no plain value"),
    }
}

fn output(input: &str) -> Vec<String> {
    let mut lexer = lexer::new(input);
    let mut parser = parser::Parser::new(&mut lexer);
    let program = parser.parse_program().unwrap();
    let mut env = Environment::new();
    eval::eval_program(&program, &mut env).unwrap();
    env.take_output()
}

#[test]
fn test_scenarios() {
    assert_eq!(run("5"), Ok(Some(Object::Integer(5))));
    assert_eq!(run("-5"), Ok(Some(Object::Integer(-5))));
    assert_eq!(run("5 + 10 / 2"), Ok(Some(Object::Integer(10))));
    assert_eq!(run("2 < 3"), Ok(Some(Object::Boolean(true))));
    assert_eq!(run("!!false"), Ok(Some(Object::Boolean(false))));
    assert_eq!(
        run("if (10 > 1) { if (10 > 1) { return 10; } return 1; }"),
        Ok(Some(Object::Integer(10)))
    );
    assert_eq!(
        run("let a = 5; let b = a; let c = a + b + 5; c;"),
        Ok(Some(Object::Integer(15)))
    );
    assert_eq!(
        run("let add = fn(x, y) { x + y; }; add(5 + 5, add(5, 5));"),
        Ok(Some(Object::Integer(20)))
    );
    assert_eq!(
        run("let multiply = fn(x) { fn(y) { x * y }; }; multiply(3)(5);"),
        Ok(Some(Object::Integer(15)))
    );
    assert_eq!(
        run("\"hello\" + \" \" + \"everyone!\""),
        Ok(Some(Object::String(String::from("hello everyone!"))))
    );
    assert_eq!(run("len(\"ahoy\")"), Ok(Some(Object::Integer(4))));
    assert_eq!(
        run("foobar;"),
        Err(String::from("Eval error: The identifier 'foobar' has not been bound"))
    );
}

#[test]
fn test_let_yields_no_value() {
    assert_eq!(run("let a = 5;"), Ok(None));
    assert_eq!(run("5; let a = 5;"), Ok(None));
    assert_eq!(run(""), Ok(None));
}

#[test]
fn test_integer_arithmetic_rules() {
    assert_eq!(run("7 / 2"), Ok(Some(Object::Integer(3))));
    assert_eq!(run("-7 / 2"), Ok(Some(Object::Integer(-3))));
    assert_eq!(run("7 / -2"), Ok(Some(Object::Integer(-3))));
    assert_eq!(run("-7 / -2"), Ok(Some(Object::Integer(3))));
    assert_eq!(run("0 / 5"), Ok(Some(Object::Integer(0))));
    assert_eq!(run("2 * 3 + 4"), Ok(Some(Object::Integer(10))));
    assert_eq!(
        run("9223372036854775807 + 1"),
        Ok(Some(Object::Integer(-9223372036854775807 - 1)))
    );
    assert_eq!(
        run("-9223372036854775807 - 2"),
        Ok(Some(Object::Integer(9223372036854775807)))
    );
    assert_eq!(run("4611686018427387904 * 2"), Ok(Some(Object::Integer(i64::MIN))));
    assert_eq!(run("4611686018427387904 * 4"), Ok(Some(Object::Integer(0))));
    assert_eq!(run("-(-9223372036854775807 - 1)"), Ok(Some(Object::Integer(i64::MIN))));
    assert_eq!(run("(-9223372036854775807 - 1) / -1"), Ok(Some(Object::Integer(i64::MIN))));
}

#[test]
fn test_division_by_zero_is_an_error() {
    assert_eq!(
        run("1 / 0"),
        Err(String::from("Eval error: Cannot evaluate infix expression 1 / 0"))
    );
    assert_eq!(
        run("let a = 0; -12 / a"),
        Err(String::from("Eval error: Cannot evaluate infix expression -12 / 0"))
    );
}

#[test]
fn test_equality_of_values() {
    assert_eq!(run("1 == 1"), Ok(Some(Object::Boolean(true))));
    assert_eq!(run("1 != 1"), Ok(Some(Object::Boolean(false))));
    assert_eq!(run("true == false"), Ok(Some(Object::Boolean(false))));
    assert_eq!(run("true != false"), Ok(Some(Object::Boolean(true))));
    assert_eq!(run("\"a\" == \"a\""), Ok(Some(Object::Boolean(true))));
    assert_eq!(run("\"a\" == \"b\""), Ok(Some(Object::Boolean(false))));
    assert_eq!(run("\"a\" != \"b\""), Ok(Some(Object::Boolean(true))));
    assert_eq!(run("1 == true"), Ok(Some(Object::Boolean(false))));
    assert_eq!(run("1 != true"), Ok(Some(Object::Boolean(true))));
    assert_eq!(run("\"1\" == 1"), Ok(Some(Object::Boolean(false))));
    assert_eq!(run("if (false) {} == if (false) {}"), Ok(Some(Object::Boolean(true))));
    assert_eq!(run("let f = fn() { 1 }; f == f"), Ok(Some(Object::Boolean(true))));
    assert_eq!(run("let f = fn() { 1 }; f != f"), Ok(Some(Object::Boolean(false))));
    assert_eq!(run("let f = fn() { 1 }; let g = f; f == g"), Ok(Some(Object::Boolean(true))));
    assert_eq!(run("fn() { 1 } == fn() { 1 }"), Ok(Some(Object::Boolean(false))));
    assert_eq!(
        run("let f = fn() { 1 }; let g = fn() { 1 }; f == g"),
        Ok(Some(Object::Boolean(false)))
    );
    assert_eq!(
        run("let make = fn() { fn() { 1 } }; make() == make()"),
        Ok(Some(Object::Boolean(false)))
    );
    assert_eq!(run("let f = fn() { 1 }; f == 1"), Ok(Some(Object::Boolean(false))));
    assert_eq!(run("len == len"), Ok(Some(Object::Boolean(false))));
}

#[test]
fn test_error_messages() {
    assert_eq!(
        run("\"a\" - \"b\""),
        Err(String::from("Eval error: Cannot evaluate infix expression a - b"))
    );
    assert_eq!(
        run("1 < true"),
        Err(String::from("Eval error: Cannot evaluate infix expression 1 < true"))
    );
    assert_eq!(
        run("if (false) {} + 1"),
        Err(String::from("Eval error: Cannot evaluate infix expression null + 1"))
    );
    assert_eq!(
        run("fn() { 1 } + 1"),
        Err(String::from("Eval error: Cannot evaluate infix expression Function + 1"))
    );
    assert_eq!(
        run("len + 1"),
        Err(String::from("Eval error: Cannot evaluate infix expression Builtin Function + 1"))
    );
    assert_eq!(
        run("1 + { return 2; }"),
        Err(String::from("Eval error: Cannot evaluate infix expression 1 + Return value: 2"))
    );
    assert_eq!(
        run("-\"a\""),
        Err(String::from("Eval error: The prefix - cannot appear before type String"))
    );
    assert_eq!(
        run("!if (false) {}"),
        Err(String::from("Eval error: The prefix ! cannot appear before type Null"))
    );
    assert_eq!(
        run("-fn() { 1 }"),
        Err(String::from("Eval error: The prefix - cannot appear before type Function"))
    );
    assert_eq!(
        run("!len"),
        Err(String::from("Eval error: The prefix ! cannot appear before type BuiltinFunction"))
    );
    assert_eq!(
        run("!{ return 1; }"),
        Err(String::from("Eval error: The prefix ! cannot appear before type Return value"))
    );
    assert_eq!(
        run("if (1) { 2 }"),
        Err(String::from(
            "Eval error: The condition in an if statement must be a bool. Got Integer"
        ))
    );
    assert_eq!(run("5(1)"), Err(String::from("Eval error: Cannot call 5")));
    assert_eq!(run("\"f\"()"), Err(String::from("Eval error: Cannot call f")));
    assert_eq!(
        run("let f = fn(a, b) { a }; f(1)"),
        Err(String::from("Eval error: Expected 2 args, got 1"))
    );
    assert_eq!(
        run("fn() { 1 }(1, 2, 3, 4, 5, 6, 7, 8, 9, 10, 11, 12)"),
        Err(String::from("Eval error: Expected 0 args, got 12"))
    );
}

#[test]
fn test_builtin_functions() {
    assert_eq!(run("len(\"\")"), Ok(Some(Object::Integer(0))));
    assert_eq!(run("len(\"h\u{e9}\")"), Ok(Some(Object::Integer(3))));
    assert_eq!(run("len()"), Err(String::from("Eval error: len takes exactly 1 argument")));
    assert_eq!(
        run("len(\"a\", \"b\")"),
        Err(String::from("Eval error: len takes exactly 1 argument"))
    );
    assert_eq!(
        run("len(1)"),
        Err(String::from("Eval error: Only strings can be passed to len"))
    );
    assert_eq!(run("print(1)"), Ok(Some(Object::Null)));
    assert_eq!(
        run("print()"),
        Err(String::from("Eval error: print takes exactly 1 argument"))
    );
    assert_eq!(
        run("print(1, 2)"),
        Err(String::from("Eval error: print takes exactly 1 argument"))
    );
    assert_eq!(run("let len = 5; len"), Ok(Some(Object::Integer(5))));
    assert_eq!(run("let print = fn(x) { x * 2 }; print(4)"), Ok(Some(Object::Integer(8))));
    assert_eq!(eval::get_builtin_fn("len"), Some(monkey::object::BuiltinFunction::Len));
    assert_eq!(eval::get_builtin_fn("print"), Some(monkey::object::BuiltinFunction::Print));
    assert_eq!(eval::get_builtin_fn("puts"), None);
}

#[test]
fn test_print_records_lines() {
    assert_eq!(
        output("print(1 + 2); print(\"hi\"); print(true); print(if (false) {}); print(len);"),
        vec!["3", "hi", "true", "null", "Builtin Function"]
    );
    assert_eq!(output("print(fn(x) { x })"), vec!["Function"]);
    assert_eq!(output("print(-9223372036854775807 - 1)"), vec!["-9223372036854775808"]);
    assert_eq!(output("1 + 2"), Vec::<String>::new());
    let mut lexer = lexer::new("print(1); print(2); 1 / 0");
    let mut parser = parser::Parser::new(&mut lexer);
    let program = parser.parse_program().unwrap();
    let mut env = Environment::new();
    assert!(eval::eval_program(&program, &mut env).is_err());
    assert_eq!(env.take_output(), vec!["1", "2"]);
    assert_eq!(env.take_output(), Vec::<String>::new());
}

#[test]
fn test_inner_scope_does_not_change_outer_binding() {
    assert_eq!(run("let a = 1; { let a = 2; }; a"), Ok(Some(Object::Integer(1))));
    assert_eq!(run("let a = 1; if (true) { let a = 2; a } "), Ok(Some(Object::Integer(2))));
    assert_eq!(run("let a = 1; fn() { let a = 2; a }() + a"), Ok(Some(Object::Integer(3))));
    assert_eq!(run("let a = 1; fn(a) { a }(5); a"), Ok(Some(Object::Integer(1))));
    assert_eq!(run("let a = 1; let a = 2; a"), Ok(Some(Object::Integer(2))));
    assert_eq!(
        run("let a = 1; let f = fn() { a }; let a = 2; f()"),
        Ok(Some(Object::Integer(2)))
    );
    assert_eq!(
        run("let make = fn() { let n = 10; fn() { n } }; let n = 1; make()()"),
        Ok(Some(Object::Integer(10)))
    );
}

#[test]
fn test_return_surfaces_through_nested_blocks() {
    assert_eq!(
        run("let f = fn() { { { { return 7; } } } 8 }; f()"),
        Ok(Some(Object::Integer(7)))
    );
    assert_eq!(
        run("let f = fn(x) { if (x) { if (x) { if (x) { return 1; } } } return 2; }; f(true)"),
        Ok(Some(Object::Integer(1)))
    );
    assert_eq!(
        run("let f = fn(x) { if (x) { if (x) { if (x) { return 1; } } } return 2; }; f(false)"),
        Ok(Some(Object::Integer(2)))
    );
    assert_eq!(
        run("let f = fn() { return 1; 2 }; f() + 10"),
        Ok(Some(Object::Integer(11)))
    );
    assert_eq!(
        run("let f = fn() { return 1; }; let g = fn() { f(); 2 }; g()"),
        Ok(Some(Object::Integer(2)))
    );
    assert_eq!(run("{ { return 3; } 4 }; 5"), Ok(Some(Object::Integer(3))));
}

#[test]
fn test_recursion() {
    assert_eq!(
        run("let fact = fn(n) { if (n < 2) { 1 } else { n * fact(n - 1) } }; fact(10)"),
        Ok(Some(Object::Integer(3628800)))
    );
    assert_eq!(
        run("let fib = fn(n) { if (n < 2) { n } else { fib(n - 1) + fib(n - 2) } }; fib(15)"),
        Ok(Some(Object::Integer(610)))
    );
    assert_eq!(
        run(
            "let even = fn(n) { if (n == 0) { true } else { odd(n - 1) } };
             let odd = fn(n) { if (n == 0) { false } else { even(n - 1) } };
             even(10)"
        ),
        Ok(Some(Object::Boolean(true)))
    );
}

fn run_within(input: &str, depth: usize) -> Result<Option<Object<'static>>, String> {
    let mut lexer = lexer::new(input);
    let mut parser = parser::Parser::new(&mut lexer);
    let program = parser.parse_program().unwrap();
    let mut env = Environment::new();
    match eval::eval_statements(&program.statements, Environment::ROOT, &mut env, depth) {
        Ok(Some(object)) => Ok(Some(plain(&object))),
        Ok(None) => Ok(None),
        Err(message) => Err(message),
    }
}

#[test]
fn test_caller_chooses_the_call_depth() {
    assert_eq!(
        run_within("let f = fn(n) { f(n + 1) }; f(0)", 50),
        Err(String::from("Maximum call depth exceeded"))
    );
    let down = "let down = fn(n) { if (n == 0) { 0 } else { down(n - 1) } };";
    assert_eq!(run_within(&format!("{} down(9)", down), 10), Ok(Some(Object::Integer(0))));
    assert_eq!(
        run_within(&format!("{} down(10)", down), 10),
        Err(String::from("Maximum call depth exceeded"))
    );
    assert_eq!(run_within("fn() { 1 }()", 1), Ok(Some(Object::Integer(1))));
    assert_eq!(
        run_within("fn() { 1 }()", 0),
        Err(String::from("Maximum call depth exceeded"))
    );
    assert_eq!(run_within("1 + 2", 0), Ok(Some(Object::Integer(3))));
    assert_eq!(run_within("len(\"abc\")", 0), Ok(Some(Object::Integer(3))));
}

#[test]
fn test_programs_recurse_as_deep_as_the_machine_allows() {
    assert_eq!(eval::MAX_CALL_DEPTH, usize::MAX);
    assert_eq!(
        run("let down = fn(n) { if (n == 0) { 0 } else { down(n - 1) } }; down(400)"),
        Ok(Some(Object::Integer(0)))
    );
    assert_eq!(
        run("let sum = fn(n) { if (n == 0) { 0 } else { n + sum(n - 1) } }; sum(300)"),
        Ok(Some(Object::Integer(45150)))
    );
}

#[test]
fn test_environment_operations() {
    let mut env = Environment::new();
    assert_eq!(env.scope_count(), 1);
    assert_eq!(env.get(Environment::ROOT, "a"), None);
    env.set(Environment::ROOT, "a", Rc::new(Object::Integer(1)));
    env.set(Environment::ROOT, "b", Rc::new(Object::Integer(2)));
    let inner = env.new_enclosed(Environment::ROOT);
    let innermost = env.new_enclosed(inner);
    assert_eq!(env.scope_count(), 3);
    assert_eq!(env.get(innermost, "a").as_deref(), Some(&Object::Integer(1)));
    env.set(inner, "a", Rc::new(Object::String(String::from("inner"))));
    assert_eq!(env.get(innermost, "a").as_deref(), Some(&Object::String(String::from("inner"))));
    assert_eq!(env.get(inner, "a").as_deref(), Some(&Object::String(String::from("inner"))));
    assert_eq!(env.get(Environment::ROOT, "a").as_deref(), Some(&Object::Integer(1)));
    assert_eq!(env.get(innermost, "b").as_deref(), Some(&Object::Integer(2)));
    env.set(Environment::ROOT, "a", Rc::new(Object::Integer(3)));
    assert_eq!(env.get(Environment::ROOT, "a").as_deref(), Some(&Object::Integer(3)));
    assert_eq!(env.get(inner, "a").as_deref(), Some(&Object::String(String::from("inner"))));
    env.set(innermost, "c", Rc::new(Object::Boolean(true)));
    assert_eq!(env.get(inner, "c"), None);
    assert_eq!(env.get(Environment::ROOT, "c"), None);
    assert_eq!(env.get(innermost, "c").as_deref(), Some(&Object::Boolean(true)));
    let sibling = env.new_enclosed(Environment::ROOT);
    assert_eq!(env.get(sibling, "a").as_deref(), Some(&Object::Integer(3)));
    assert_eq!(env.get(sibling, "c"), None);
}

#[test]
fn test_environment_lives_across_programs() {
    let mut first_lexer = lexer::new("let counter = fn(n) { n + step }; let step = 2;");
    let mut first_parser = parser::Parser::new(&mut first_lexer);
    let first = first_parser.parse_program().unwrap();
    let mut second_lexer = lexer::new("counter(40)");
    let mut second_parser = parser::Parser::new(&mut second_lexer);
    let second = second_parser.parse_program().unwrap();
    let mut env = Environment::new();
    assert_eq!(eval::eval_program(&first, &mut env).unwrap(), None);
    assert_eq!(
        eval::eval_program(&second, &mut env).unwrap().as_deref(),
        Some(&Object::Integer(42))
    );
}

#[test]
fn test_object_display_and_names() {
    assert_eq!(Object::Integer(-12).to_string(), "-12");
    assert_eq!(Object::Integer(0).to_string(), "0");
    assert_eq!(Object::Integer(i64::MAX).to_string(), "9223372036854775807");
    assert_eq!(Object::Integer(i64::MIN).to_string(), "-9223372036854775808");
    assert_eq!(Object::Boolean(true).to_string(), "true");
    assert_eq!(Object::Boolean(false).to_string(), "false");
    assert_eq!(Object::Null.to_string(), "null");
    assert_eq!(Object::String(String::from("text")).to_string(), "text");
    assert_eq!(
        Object::ReturnValue(Rc::new(Object::Integer(3))).to_string(),
        "Return value: 3"
    );
    assert_eq!(Object::Integer(1).kind_name(), "Integer");
    assert_eq!(Object::Boolean(true).kind_name(), "Boolean");
    assert_eq!(Object::Null.kind_name(), "Null");
    assert_eq!(Object::String(String::new()).kind_name(), "String");
    assert_eq!(Object::ReturnValue(Rc::new(Object::Null)).kind_name(), "Return value");
    assert_eq!(
        Object::BuiltinFunction(monkey::object::BuiltinFunction::Len).kind_name(),
        "BuiltinFunction"
    );
    assert_eq!(
        Object::ReturnValue(Rc::new(Object::Integer(3))),
        Object::ReturnValue(Rc::new(Object::Integer(3)))
    );
    assert_ne!(
        Object::ReturnValue(Rc::new(Object::Integer(3))),
        Object::ReturnValue(Rc::new(Object::Integer(4)))
    );
    assert_ne!(Object::Integer(1), Object::Boolean(true));
    assert_eq!(Object::Null, Object::Null);
}

fn scopes_after(input: &str) -> usize {
    let mut lexer = lexer::new(input);
    let mut parser = parser::Parser::new(&mut lexer);
    let program = parser.parse_program().unwrap();
    let mut env = Environment::new();
    eval::eval_program(&program, &mut env).unwrap();
    env.scope_count()
}

#[test]
fn test_scopes_of_calls_and_blocks_are_given_up() {
    assert_eq!(scopes_after("1 + 2"), 1);
    assert_eq!(scopes_after("{ 1; { 2 } }"), 1);
    assert_eq!(scopes_after("if (true) { 1 } else { 2 }; if (false) { 3 }"), 1);
    // The closure has a scope of its own, and keeps it.
    assert_eq!(scopes_after("let f = fn(x) { x }; f(1)"), 2);
    assert_eq!(
        scopes_after(
            "let fib = fn(n) { if (n < 2) { n } else { fib(n - 1) + fib(n - 2) } }; fib(15)"
        ),
        2
    );
    // A call that makes a closure keeps its scopes, for the closure to see.
    assert_eq!(scopes_after("let make = fn(n) { fn() { n } }; let g = make(7); g()"), 4);
    assert_eq!(
        run("let make = fn(n) { fn() { n } }; let g = make(7); let h = make(8); g() + h() * 10"),
        Ok(Some(Object::Integer(87)))
    );
    assert_eq!(
        run("let make = fn(n) { let k = n * 2; fn(m) { { k + m } } }; make(1)(2) + make(3)(4)"),
        Ok(Some(Object::Integer(14)))
    );
    let mut env = Environment::new();
    let mark = env.scope_count();
    let since = env.closure_count();
    let inner = env.new_enclosed(Environment::ROOT);
    env.set(inner, "a", Rc::new(Object::Integer(1)));
    env.release(mark, since);
    assert_eq!(env.scope_count(), 1);
    let own = env.new_closure_scope(Environment::ROOT);
    let call = env.new_enclosed(own);
    assert_eq!(env.closure_count(), 1);
    env.release(mark, since);
    assert_eq!(env.scope_count(), 3);
    env.release(call, 1);
    assert_eq!(env.scope_count(), 2);
}
