use monkey::code::Instruction;
use monkey::compiler;
use monkey::errors::MonkeyError;
use monkey::lexer;
use monkey::object;
use monkey::object::Object;
use monkey::parser;
use monkey::vm;
use std::rc::Rc;

struct VmTestCase<'a> {
    input: &'static str,
    expected: Object<'a>,
}

fn run_vm_test(case: VmTestCase) {
    let mut lexer = lexer::new(case.input);
    let mut parser = parser::Parser::new(&mut lexer);
    let program = parser.parse_program().unwrap();
    let bytecode = compiler::compile_program(&program);
    let mut vm = vm::Vm::new(&bytecode);
    let object = vm.run().unwrap();
    assert_eq!(object.as_deref(), Some(&case.expected));
}

#[test]
fn vm_tests() {
    let tests = vec![
        VmTestCase {
            input: "3 + 4",
            expected: Object::Integer(7),
        },
        VmTestCase {
            input: "5 - 3",
            expected: Object::Integer(2),
        },
        VmTestCase {
            input: "5 * 3",
            expected: Object::Integer(15),
        },
        VmTestCase {
            input: "20 / 2",
            expected: Object::Integer(10),
        },
        VmTestCase {
            input: "true",
            expected: Object::Boolean(true),
        },
        VmTestCase {
            input: "false",
            expected: Object::Boolean(false),
        },
        // Comparison ops
        VmTestCase {
            input: "1==1",
            expected: Object::Boolean(true),
        },
        VmTestCase {
            input: "1==2",
            expected: Object::Boolean(false),
        },
        VmTestCase {
            input: "1!=2",
            expected: Object::Boolean(true),
        },
        VmTestCase {
            input: "1!=1",
            expected: Object::Boolean(false),
        },
        VmTestCase {
            input: "2>1",
            expected: Object::Boolean(true),
        },
        VmTestCase {
            input: "2>5",
            expected: Object::Boolean(false),
        },
        VmTestCase {
            input: "2<5",
            expected: Object::Boolean(true),
        },
        VmTestCase {
            input: "2<1",
            expected: Object::Boolean(false),
        },
        // Prefix operators
        VmTestCase {
            input: "!true",
            expected: Object::Boolean(false),
        },
        VmTestCase {
            input: "!false",
            expected: Object::Boolean(true),
        },
        VmTestCase {
            input: "-3",
            expected: Object::Integer(-3),
        },
    ];
    for test in tests {
        run_vm_test(test);
    }
}

fn bytecode_of(
    instructions: Vec<Instruction>,
    constants: Vec<Object<'static>>,
) -> compiler::Bytecode<'static> {
    compiler::Bytecode {
        instructions: instructions.iter().flat_map(|i| i.to_bytes()).collect(),
        constants: constants.into_iter().map(Rc::new).collect(),
    }
}

fn run_instructions(
    instructions: Vec<Instruction>,
    constants: Vec<Object<'static>>,
) -> Result<Option<Object<'static>>, String> {
    let bytecode = bytecode_of(instructions, constants);
    let mut machine = vm::Vm::new(&bytecode);
    match machine.run() {
        Ok(Some(object)) => Ok(Some(match &*object {
            Object::Integer(value) => Object::Integer(*value),
            Object::Boolean(value) => Object::Boolean(*value),
            Object::String(value) => Object::String(value.clone()),
            _ => Object::Null,
        })),
        Ok(None) => Ok(None),
        Err(error) => Err(MonkeyError::VmError(error).to_string()),
    }
}

#[test]
fn test_nothing_popped() {
    assert_eq!(run_instructions(vec![], vec![]), Ok(None));
    assert_eq!(run_instructions(vec![Instruction::True], vec![]), Ok(None));
    assert_eq!(run_instructions(vec![Instruction::Pop], vec![]), Ok(None));
    assert_eq!(
        run_instructions(vec![Instruction::True, Instruction::Pop, Instruction::Pop], vec![]),
        Ok(None)
    );
}

#[test]
fn test_last_popped_is_reported() {
    assert_eq!(
        run_instructions(
            vec![
                Instruction::Constant(0),
                Instruction::Pop,
                Instruction::Constant(1),
                Instruction::Pop,
                Instruction::Constant(0),
            ],
            vec![Object::Integer(10), Object::Integer(20)]
        ),
        Ok(Some(Object::Integer(20)))
    );
}

#[test]
fn test_operand_order() {
    assert_eq!(
        run_instructions(
            vec![
                Instruction::Constant(0),
                Instruction::Constant(1),
                Instruction::Sub,
                Instruction::Pop
            ],
            vec![Object::Integer(10), Object::Integer(3)]
        ),
        Ok(Some(Object::Integer(7)))
    );
    assert_eq!(
        run_instructions(
            vec![
                Instruction::Constant(0),
                Instruction::Constant(1),
                Instruction::GreaterThan,
                Instruction::Pop
            ],
            vec![Object::Integer(10), Object::Integer(3)]
        ),
        Ok(Some(Object::Boolean(true)))
    );
    assert_eq!(
        run_instructions(
            vec![
                Instruction::Constant(0),
                Instruction::Constant(1),
                Instruction::Add,
                Instruction::Pop
            ],
            vec![Object::String(String::from("ab")), Object::String(String::from("cd"))]
        ),
        Ok(Some(Object::String(String::from("abcd"))))
    );
}

#[test]
fn test_vm_errors() {
    assert_eq!(
        run_instructions(vec![Instruction::Add], vec![]),
        Err(String::from("VM Error: Cannot pop from an empty stack"))
    );
    assert_eq!(
        run_instructions(vec![Instruction::True, Instruction::Add], vec![]),
        Err(String::from("VM Error: Cannot pop from an empty stack"))
    );
    assert_eq!(
        run_instructions(vec![Instruction::Bang], vec![]),
        Err(String::from("VM Error: Cannot pop from an empty stack"))
    );
    assert_eq!(
        run_instructions(vec![Instruction::JumpFalse(0)], vec![]),
        Err(String::from("VM Error: Cannot pop from an empty stack"))
    );
    assert_eq!(
        run_instructions(
            vec![Instruction::Constant(0), Instruction::True, Instruction::Add],
            vec![Object::Integer(5)]
        ),
        Err(String::from("VM Error: Cannot evaluate infix expression 5 + true"))
    );
    assert_eq!(
        run_instructions(vec![Instruction::True, Instruction::Minus], vec![]),
        Err(String::from("VM Error: The prefix - cannot appear before type Boolean"))
    );
    assert_eq!(
        run_instructions(
            vec![Instruction::Constant(0), Instruction::Constant(1), Instruction::Div],
            vec![Object::Integer(5), Object::Integer(0)]
        ),
        Err(String::from("VM Error: Cannot evaluate infix expression 5 / 0"))
    );
    assert_eq!(
        run_instructions(vec![Instruction::Constant(1)], vec![Object::Integer(5)]),
        Err(String::from("VM Error: Constant index out of range"))
    );
    assert_eq!(
        run_instructions(vec![Instruction::Constant(0), Instruction::JumpFalse(0)], vec![
            Object::Integer(5)
        ]),
        Err(String::from(
            "VM Error: The condition in an if statement must be a bool. Got Integer"
        ))
    );
}

#[test]
fn test_unknown_opcode() {
    let bytecode = compiler::Bytecode { instructions: vec![6, 3, 200], constants: vec![] };
    let mut machine = vm::Vm::new(&bytecode);
    let error = machine.run().unwrap_err();
    assert_eq!(MonkeyError::VmError(error).to_string(), "VM Error: Unknown op byte");
    let cut_short = compiler::Bytecode {
        instructions: vec![0, 0],
        constants: vec![Rc::new(Object::Integer(1))],
    };
    let mut machine = vm::Vm::new(&cut_short);
    let error = machine.run().unwrap_err();
    assert_eq!(MonkeyError::VmError(error).to_string(), "VM Error: Unknown op byte");
}

#[test]
fn test_stack_is_bounded() {
    let mut instructions = vec![Instruction::True; vm::STACK_SIZE];
    assert_eq!(run_instructions(instructions.clone(), vec![]), Ok(None));
    instructions.push(Instruction::True);
    assert_eq!(
        run_instructions(instructions, vec![]),
        Err(String::from("VM Error: Stack overflow"))
    );
    assert_eq!(vm::STACK_SIZE, 2048);
}

#[test]
fn test_jumps() {
    // 0: True, 1: JumpFalse 8, 4: Constant 0, 7: Pop, 8: Constant 1, 11: Pop
    let program = vec![
        Instruction::True,
        Instruction::JumpFalse(8),
        Instruction::Constant(0),
        Instruction::Pop,
        Instruction::Constant(1),
        Instruction::Pop,
    ];
    let constants = || vec![Object::Integer(10), Object::Integer(20)];
    assert_eq!(run_instructions(program, constants()), Ok(Some(Object::Integer(20))));
    // 0: True, 1: JumpFalse 11, 4: Constant 0, 7: Pop, 8: Jump 15, 11: Constant 1, 14: Pop
    let program = vec![
        Instruction::True,
        Instruction::JumpFalse(11),
        Instruction::Constant(0),
        Instruction::Pop,
        Instruction::Jump(15),
        Instruction::Constant(1),
        Instruction::Pop,
    ];
    assert_eq!(run_instructions(program, constants()), Ok(Some(Object::Integer(10))));
    let program = vec![
        Instruction::False,
        Instruction::JumpFalse(11),
        Instruction::Constant(0),
        Instruction::Pop,
        Instruction::Jump(15),
        Instruction::Constant(1),
        Instruction::Pop,
    ];
    assert_eq!(run_instructions(program, constants()), Ok(Some(Object::Integer(20))));
    // A jump past the end of the stream halts the machine.
    assert_eq!(
        run_instructions(
            vec![Instruction::True, Instruction::Pop, Instruction::Jump(60000)],
            vec![]
        ),
        Ok(Some(Object::Boolean(true)))
    );
}

#[test]
fn test_stack_stays_between_runs() {
    let bytecode = bytecode_of(vec![Instruction::Constant(0)], vec![Object::Integer(4)]);
    let mut machine = vm::Vm::new(&bytecode);
    assert_eq!(machine.run().unwrap(), None);
    assert_eq!(machine.run().unwrap(), None);
    let adding = bytecode_of(vec![Instruction::Add], vec![]);
    let mut machine = vm::Vm::new(&adding);
    assert!(machine.run().is_err());
}

fn evaluate(input: &str) -> Option<Rc<object::Object<'static>>> {
    let mut lexer = lexer::new(input);
    let mut parser = parser::Parser::new(&mut lexer);
    let program = parser.parse_program().unwrap();
    let mut env = object::environment::Environment::new();
    let value = monkey::eval::eval_program(&program, &mut env).unwrap();
    value.map(|object| {
        Rc::new(match &*object {
            Object::Integer(value) => Object::Integer(*value),
            Object::Boolean(value) => Object::Boolean(*value),
            _ => Object::Null,
        })
    })
}

fn execute(input: &str) -> Option<Rc<object::Object<'static>>> {
    let mut lexer = lexer::new(input);
    let mut parser = parser::Parser::new(&mut lexer);
    let program = parser.parse_program().unwrap();
    assert!(compiler::can_compile(&program));
    let bytecode = compiler::compile_program(&program);
    let mut machine = vm::Vm::new(&bytecode);
    let value = machine.run().unwrap();
    value.map(|object| {
        Rc::new(match &*object {
            Object::Integer(value) => Object::Integer(*value),
            Object::Boolean(value) => Object::Boolean(*value),
            _ => Object::Null,
        })
    })
}

#[test]
fn test_evaluator_and_vm_agree() {
    let inputs = [
        "5",
        "-5",
        "5 + 10 / 2",
        "2 < 3",
        "3 < 2",
        "!!false",
        "1 + 2 * 3 - 4 / 2",
        "(1 + 2) * (3 - 4) / 5",
        "-(7 - 10) * 3",
        "1 < 2 == 2 > 1",
        "1 - 2 < 3 - 4",
        "(5 > 3) != (3 > 5)",
        "!(1 == 1)",
        "true == !false",
        "9223372036854775807 + 1",
        "7 / -2",
        "10 - 2 - 3",
        "100 / 5 / 2",
        "1; 2; 3 + 4",
    ];
    for input in inputs.iter() {
        assert_eq!(evaluate(input), execute(input), "{}", input);
        assert!(evaluate(input).is_some());
    }
}
