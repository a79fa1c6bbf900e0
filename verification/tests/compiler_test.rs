use monkey::ast;
use monkey::code;
use monkey::compiler;
use monkey::lexer;
use monkey::object;
use monkey::parser;

struct CompilerTestCase<'a> {
    input: &'static str,
    expected_constants: Vec<object::Object<'a>>,
    expected_instructions: Vec<Vec<u8>>,
}

#[test]
fn test_integer_arithmetic() {
    let tests: Vec<CompilerTestCase> = vec![CompilerTestCase {
        input: "1 + 2",
        expected_instructions: vec![
            code::Instruction::Constant(0).to_bytes(),
            code::Instruction::Constant(1).to_bytes(),
            code::Instruction::Add.to_bytes(),
            code::Instruction::Pop.to_bytes(),
        ],
        expected_constants: vec![object::Object::Integer(1), object::Object::Integer(2)],
    }];
    for test in tests {
        run_compiler_test(test);
    }
}

fn parse(input: &'static str) -> ast::Program {
    let mut lexer = lexer::new(input);
    let mut parser = parser::Parser::new(&mut lexer);
    parser.parse_program().unwrap()
}

fn run_compiler_test(test: CompilerTestCase) {
    let program = parse(test.input);
    let bytecode = compiler::compile_program(&program);
    let expected_instructions_bytecode = test
        .expected_instructions
        .into_iter()
        .flatten()
        .collect::<Vec<u8>>();
    assert_eq!(expected_instructions_bytecode, bytecode.instructions);
    assert_eq!(
        test.expected_constants,
        vec![object::Object::Integer(1), object::Object::Integer(2)]
    )
}

fn compiled(input: &'static str) -> (String, Vec<i64>) {
    let program = parse(input);
    assert!(compiler::can_compile(&program));
    let bytecode = compiler::compile_program(&program);
    let mut listing: Vec<String> = vec![];
    let mut cursor = 0;
    while let Some(instruction) = code::Instruction::from_bytes(&bytecode.instructions, &mut cursor)
    {
        listing.push(format!("{:?}", instruction));
    }
    let constants = bytecode
        .constants
        .iter()
        .map(|object| match &**object {
            object::Object::Integer(value) => *value,
            other => panic!("the pool holds {:?}", other),
        })
        .collect();
    (listing.join(" "), constants)
}

fn expect(input: &'static str, listing: &str, constants: Vec<i64>) {
    assert_eq!(compiled(input), (String::from(listing), constants));
}

#[test]
fn test_constants_in_encounter_order() {
    expect("1 + 2", "Constant(0) Constant(1) Add Pop", vec![1, 2]);
    expect("7; 8; 7", "Constant(0) Pop Constant(1) Pop Constant(2) Pop", vec![7, 8, 7]);
    expect("", "", vec![]);
}

#[test]
fn test_operators_are_lowered() {
    expect("1 - 2", "Constant(0) Constant(1) Sub Pop", vec![1, 2]);
    expect("1 * 2", "Constant(0) Constant(1) Mul Pop", vec![1, 2]);
    expect("1 / 2", "Constant(0) Constant(1) Div Pop", vec![1, 2]);
    expect("1 == 2", "Constant(0) Constant(1) Equal Pop", vec![1, 2]);
    expect("1 != 2", "Constant(0) Constant(1) NotEqual Pop", vec![1, 2]);
    expect("1 > 2", "Constant(0) Constant(1) GreaterThan Pop", vec![1, 2]);
    expect("true", "True Pop", vec![]);
    expect("false", "False Pop", vec![]);
    expect("-1", "Constant(0) Minus Pop", vec![1]);
    expect("!true", "True Bang Pop", vec![]);
    expect("1 + 2 * 3", "Constant(0) Constant(1) Constant(2) Mul Add Pop", vec![1, 2, 3]);
    expect("(1 + 2) * 3", "Constant(0) Constant(1) Add Constant(2) Mul Pop", vec![1, 2, 3]);
    expect("-(1 + 2)", "Constant(0) Constant(1) Add Minus Pop", vec![1, 2]);
}

#[test]
fn test_less_than_swaps_its_operands() {
    expect("1 < 2", "Constant(0) Constant(1) GreaterThan Pop", vec![2, 1]);
    expect(
        "1 + 2 < 3",
        "Constant(0) Constant(1) Constant(2) Add GreaterThan Pop",
        vec![3, 1, 2],
    );
    expect(
        "1 < 2 == true",
        "Constant(0) Constant(1) GreaterThan True Equal Pop",
        vec![2, 1],
    );
}

#[test]
fn test_block_statements_in_order() {
    expect("{ 1; true; }", "Constant(0) Pop True Pop Pop", vec![1]);
}

#[test]
fn test_unsupported_programs() {
    assert!(!compiler::can_compile(&parse("let a = 1;")));
    assert!(!compiler::can_compile(&parse("return 1;")));
    assert!(!compiler::can_compile(&parse("a")));
    assert!(!compiler::can_compile(&parse("f(1)")));
    assert!(!compiler::can_compile(&parse("fn(x) { x }")));
    assert!(!compiler::can_compile(&parse("if (true) { 1 }")));
    assert!(!compiler::can_compile(&parse("\"text\"")));
    assert!(!compiler::can_compile(&parse("1 + a")));
    assert!(!compiler::can_compile(&parse("1; { 2; let a = 3; }")));
    assert!(!compiler::can_compile(&parse("-(1 + f(2))")));
    assert!(compiler::can_compile(&parse("1; { 2; !true }; 3 < 4")));
}

#[test]
fn test_compiling_in_steps() {
    let program = parse("1; 2 + 3");
    let mut stepwise = compiler::Compiler::new();
    for statement in program.statements.iter() {
        stepwise.compile(compiler::AstNode::Statement(statement));
    }
    let whole = compiler::compile_program(&program);
    let parts = stepwise.bytecode();
    assert_eq!(parts.instructions, whole.instructions);
    assert_eq!(parts.constants, whole.constants);
    let mut single = compiler::Compiler::new();
    single.compile(compiler::AstNode::Expression(&ast::Expression::Boolean { value: true }));
    single.push_instruction(code::Instruction::Pop);
    single.add_constant(object::Object::Integer(9));
    let bytecode = single.bytecode();
    assert_eq!(bytecode.instructions, vec![6, 3, 0, 0, 0]);
    assert_eq!(bytecode.constants.len(), 1);
}
