use crate::ast::ExpressionView;
use crate::ast::InfixOperator;
use crate::ast::StatementView;
use crate::code::Decoded;
use crate::code::Instruction;
use crate::compiler::compiled_expression;
use crate::compiler::compiled_statement;
use crate::compiler::compiled_statements;
use crate::compiler::encode_all;
use crate::compiler::infix_instruction;
use crate::compiler::integer_objects;
use crate::compiler::lemma_encode_all_concat;
use crate::compiler::lemma_encode_all_push;
use crate::compiler::literals_expression;
use crate::compiler::literals_statement;
use crate::compiler::literals_statements;
use crate::compiler::prefix_instruction;
use crate::compiler::POOL_LIMIT;
use crate::eval::eval_expression_spec;
use crate::eval::eval_program_spec;
use crate::eval::eval_statement_spec;
use crate::eval::eval_statements_spec;
use crate::logic::infix_result;
use crate::logic::prefix_result;
use crate::object::environment::EnvironmentView;
use crate::object::ObjectView;
use crate::vm::execute;
use crate::vm::halted;
use crate::vm::machine;
use crate::vm::run_from;
use crate::vm::start_state;
use crate::vm::step;
use crate::vm::MachineState;
use crate::vm::Transition;
use crate::vm::MAX_STEPS;
use crate::vm::STACK_SIZE;
use vstd::prelude::*;

verus! {

/// Whether an expression is made of integer literals, boolean literals,
/// prefix operators and infix operators alone.
pub open spec fn scalar_expression(e: ExpressionView) -> bool
    decreases e,
{
    match e {
        ExpressionView::IntegerLiteral { .. } => true,
        ExpressionView::Boolean { .. } => true,
        ExpressionView::Prefix { right, .. } => scalar_expression(*right),
        ExpressionView::Infix { left, right, .. } => scalar_expression(*left)
            && scalar_expression(*right),
        _ => false,
    }
}

/// The value of a scalar expression: that of its operator on the values of
/// its operands, the left one first.
pub open spec fn scalar_value(e: ExpressionView) -> Result<ObjectView, Seq<char>>
    decreases e,
{
    match e {
        ExpressionView::IntegerLiteral { value } => Ok(ObjectView::Integer(value)),
        ExpressionView::Boolean { value } => Ok(ObjectView::Boolean(value)),
        ExpressionView::Prefix { operator, right } => match scalar_value(*right) {
            Ok(operand) => prefix_result(operand, operator),
            Err(message) => Err(message),
        },
        ExpressionView::Infix { left, operator, right } => match scalar_value(*left) {
            Ok(left_value) => match scalar_value(*right) {
                Ok(right_value) => infix_result(left_value, operator, right_value),
                Err(message) => Err(message),
            },
            Err(message) => Err(message),
        },
        _ => Err(Seq::empty()),
    }
}

/// The number of stack slots that the compiled form of a scalar expression
/// takes at most, above the stack it starts on.
pub open spec fn stack_need(e: ExpressionView) -> nat
    decreases e,
{
    match e {
        ExpressionView::Prefix { right, .. } => stack_need(*right),
        ExpressionView::Infix { left, operator, right } => {
            let first = if operator == InfixOperator::Lt {
                *right
            } else {
                *left
            };
            let second = if operator == InfixOperator::Lt {
                *left
            } else {
                *right
            };
            if stack_need(first) > 1 + stack_need(second) {
                stack_need(first)
            } else {
                1 + stack_need(second)
            }
        },
        _ => 1,
    }
}

/// The evaluator finds the value of a scalar expression without a look at
/// the environment, and leaves the environment as it is.
pub proof fn lemma_scalar_evaluation(
    e: ExpressionView,
    scope: nat,
    env: EnvironmentView,
    depth: nat,
)
    requires
        scalar_expression(e),
    ensures
        eval_expression_spec(e, scope, env, depth) == (scalar_value(e), env),
    decreases e,
{
    match e {
        ExpressionView::Prefix { operator, right } => {
            lemma_scalar_evaluation(*right, scope, env, depth);
        },
        ExpressionView::Infix { left, operator, right } => {
            lemma_scalar_evaluation(*left, scope, env, depth);
            lemma_scalar_evaluation(*right, scope, env, depth);
        },
        _ => {},
    }
}

/// The value of a scalar expression is an integer or a boolean.
pub proof fn lemma_scalar_value_is_scalar(e: ExpressionView)
    requires
        scalar_expression(e),
        scalar_value(e) is Ok,
    ensures
        scalar_value(e)->Ok_0 is Integer || scalar_value(e)->Ok_0 is Boolean,
    decreases e,
{
    match e {
        ExpressionView::Prefix { operator, right } => {
            lemma_scalar_value_is_scalar(*right);
        },
        ExpressionView::Infix { left, operator, right } => {
            lemma_scalar_value_is_scalar(*left);
            lemma_scalar_value_is_scalar(*right);
        },
        _ => {},
    }
}

/// The number of bytes of a sequence of instructions is no less than the
/// number of instructions.
pub proof fn lemma_encoding_length(instructions: Seq<Instruction>)
    ensures
        encode_all(instructions).len() >= instructions.len(),
    decreases instructions.len(),
{
    if instructions.len() > 0 {
        lemma_encoding_length(instructions.drop_last());
        instructions.last().lemma_round_trip();
    }
}

/// Whether the machine runs the compiled form of the expression `e` to its
/// end and leaves the value of `e` on top of the stack it started on, where
/// the code of `e` stands between `before` and `after` in the stream.
pub open spec fn leaves_value(
    e: ExpressionView,
    pool: nat,
    before: Seq<u8>,
    after: Seq<u8>,
    constants: Seq<ObjectView>,
    stack: Seq<ObjectView>,
    last_popped: Option<ObjectView>,
    fuel: nat,
) -> bool {
    run_from(
        before + encode_all(compiled_expression(e, pool)) + after,
        constants,
        machine(before.len() as int, stack, last_popped),
        fuel,
    ) == run_from(
        before + encode_all(compiled_expression(e, pool)) + after,
        constants,
        machine(
            (before.len() + encode_all(compiled_expression(e, pool)).len()) as int,
            stack.push(scalar_value(e)->Ok_0),
            last_popped,
        ),
        (fuel - compiled_expression(e, pool).len()) as nat,
    )
}

/// Whether the pool holds the literals of `e` from position `pool` on.
pub open spec fn pool_holds(e: ExpressionView, pool: nat, constants: Seq<ObjectView>) -> bool {
    &&& pool + literals_expression(e).len() <= constants.len()
    &&& constants.len() <= POOL_LIMIT
    &&& forall|j: int|
        0 <= j < literals_expression(e).len() ==> #[trigger] constants[pool + j]
            == ObjectView::Integer(literals_expression(e)[j])
}

/// Where an instruction stands in the stream and the machine can go on
/// behind it, a run from the instruction is a run from the state that the
/// instruction leaves.
pub proof fn lemma_run_instruction(
    instruction: Instruction,
    before: Seq<u8>,
    after: Seq<u8>,
    constants: Seq<ObjectView>,
    state: MachineState,
    next: MachineState,
    fuel: nat,
)
    requires
        state.cursor == before.len(),
        execute(
            instruction,
            (before.len() + instruction.encoding().len()) as int,
            constants,
            state,
        ) == Transition::Next(next),
        fuel >= 1,
    ensures
        run_from(before + instruction.encoding() + after, constants, state, fuel) == run_from(
            before + instruction.encoding() + after,
            constants,
            next,
            (fuel - 1) as nat,
        ),
{
    instruction.lemma_decode_encoding(before, after);
}

/// The bytes of one instruction.
pub proof fn lemma_encode_single(instruction: Instruction)
    ensures
        encode_all(seq![instruction]) == instruction.encoding(),
{
    lemma_encode_all_push(Seq::empty(), instruction);
    assert(Seq::<Instruction>::empty().push(instruction) =~= seq![instruction]);
    assert(encode_all(Seq::<Instruction>::empty()) + instruction.encoding()
        =~= instruction.encoding());
}

/// The machine runs a literal: it pushes the literal's value.
pub proof fn lemma_machine_runs_literal(
    e: ExpressionView,
    pool: nat,
    before: Seq<u8>,
    after: Seq<u8>,
    constants: Seq<ObjectView>,
    stack: Seq<ObjectView>,
    last_popped: Option<ObjectView>,
    fuel: nat,
)
    requires
        e is IntegerLiteral || e is Boolean,
        pool_holds(e, pool, constants),
        stack.len() + 1 <= STACK_SIZE,
        fuel >= 1,
    ensures
        leaves_value(e, pool, before, after, constants, stack, last_popped, fuel),
{
    let start = machine(before.len() as int, stack, last_popped);
    match e {
        ExpressionView::IntegerLiteral { value } => {
            let instruction = Instruction::Constant(pool as u16);
            lemma_encode_single(instruction);
            assert(literals_expression(e)[0] == value);
            assert(constants[pool + 0int] == ObjectView::Integer(value));
            let next = machine(
                (before.len() + instruction.encoding().len()) as int,
                stack.push(ObjectView::Integer(value)),
                last_popped,
            );
            lemma_run_instruction(instruction, before, after, constants, start, next, fuel);
        },
        ExpressionView::Boolean { value } => {
            let instruction = if value {
                Instruction::True
            } else {
                Instruction::False
            };
            lemma_encode_single(instruction);
            let next = machine(
                (before.len() + instruction.encoding().len()) as int,
                stack.push(ObjectView::Boolean(value)),
                last_popped,
            );
            lemma_run_instruction(instruction, before, after, constants, start, next, fuel);
        },
        _ => {},
    }
}

/// The machine runs a prefix expression, where it runs the operand: it
/// applies the operator to the operand's value on top of the stack.
pub proof fn lemma_machine_runs_prefix(
    e: ExpressionView,
    pool: nat,
    before: Seq<u8>,
    after: Seq<u8>,
    constants: Seq<ObjectView>,
    stack: Seq<ObjectView>,
    last_popped: Option<ObjectView>,
    fuel: nat,
)
    requires
        e is Prefix,
        scalar_expression(e),
        scalar_value(e) is Ok,
        fuel >= compiled_expression(e, pool).len(),
        leaves_value(
            *e->Prefix_right,
            pool,
            before,
            prefix_instruction(e->Prefix_operator).encoding() + after,
            constants,
            stack,
            last_popped,
            fuel,
        ),
    ensures
        leaves_value(e, pool, before, after, constants, stack, last_popped, fuel),
{
    let operator = e->Prefix_operator;
    let right = *e->Prefix_right;
    let inner = compiled_expression(right, pool);
    let instruction = prefix_instruction(operator);
    lemma_encode_all_push(inner, instruction);
    let rest = instruction.encoding() + after;
    let code = before + encode_all(compiled_expression(e, pool)) + after;
    assert(code =~= before + encode_all(inner) + rest);
    let operand = scalar_value(right)->Ok_0;
    let middle = machine(
        (before.len() + encode_all(inner).len()) as int,
        stack.push(operand),
        last_popped,
    );
    assert(code =~= (before + encode_all(inner)) + instruction.encoding() + after);
    assert(stack.push(operand).drop_last() =~= stack);
    let next = machine(
        (before.len() + encode_all(compiled_expression(e, pool)).len()) as int,
        stack.push(scalar_value(e)->Ok_0),
        last_popped,
    );
    lemma_run_instruction(
        instruction,
        before + encode_all(inner),
        after,
        constants,
        middle,
        next,
        (fuel - inner.len()) as nat,
    );
}

/// The operand of an infix expression that is compiled first.
pub open spec fn first_operand(e: ExpressionView) -> ExpressionView {
    if e->Infix_operator == InfixOperator::Lt {
        *e->Infix_right
    } else {
        *e->Infix_left
    }
}

/// The operand of an infix expression that is compiled second.
pub open spec fn second_operand(e: ExpressionView) -> ExpressionView {
    if e->Infix_operator == InfixOperator::Lt {
        *e->Infix_left
    } else {
        *e->Infix_right
    }
}

/// What the machine finds for the operator of an infix expression is what
/// the evaluator finds: for `<`, which the machine computes as `>` on the
/// operands in the other order, as for the others.
pub proof fn lemma_operator_agrees(e: ExpressionView)
    requires
        e is Infix,
        scalar_expression(e),
        scalar_value(e) is Ok,
    ensures
        scalar_value(first_operand(e)) is Ok,
        scalar_value(second_operand(e)) is Ok,
        infix_result(
            scalar_value(first_operand(e))->Ok_0,
            if e->Infix_operator == InfixOperator::Lt {
                InfixOperator::Gt
            } else {
                e->Infix_operator
            },
            scalar_value(second_operand(e))->Ok_0,
        ) == scalar_value(e),
{
}

/// How the code of an infix expression lies in the stream: the code of the
/// operand compiled first, that of the operand compiled second, and the
/// instruction of the operator.
pub proof fn lemma_infix_layout(e: ExpressionView, pool: nat, before: Seq<u8>, after: Seq<u8>)
    requires
        e is Infix,
    ensures
        ({
            let first = first_operand(e);
            let second = second_operand(e);
            let a = compiled_expression(first, pool);
            let b = compiled_expression(second, pool + literals_expression(first).len());
            let instruction = infix_instruction(e->Infix_operator);
            let code = before + encode_all(compiled_expression(e, pool)) + after;
            &&& compiled_expression(e, pool).len() == a.len() + b.len() + 1
            &&& encode_all(compiled_expression(e, pool)).len() == encode_all(a).len() + encode_all(
                b,
            ).len() + instruction.encoding().len()
            &&& code == before + encode_all(a) + (encode_all(b) + instruction.encoding() + after)
            &&& code == (before + encode_all(a)) + encode_all(b) + (instruction.encoding()
                + after)
            &&& code == ((before + encode_all(a)) + encode_all(b)) + instruction.encoding()
                + after
        }),
{
    let first = first_operand(e);
    let second = second_operand(e);
    let a = compiled_expression(first, pool);
    let b = compiled_expression(second, pool + literals_expression(first).len());
    let instruction = infix_instruction(e->Infix_operator);
    assert(compiled_expression(e, pool) == (a + b).push(instruction));
    lemma_encode_all_concat(a, b);
    lemma_encode_all_push(a + b, instruction);
    let code = before + encode_all(compiled_expression(e, pool)) + after;
    assert(code =~= before + encode_all(a) + (encode_all(b) + instruction.encoding() + after));
    assert(code =~= (before + encode_all(a)) + encode_all(b) + (instruction.encoding() + after));
    assert(code =~= ((before + encode_all(a)) + encode_all(b)) + instruction.encoding() + after);
}

/// What the instruction of an infix operator does where the values of the
/// operands lie on top of the stack: it leaves the value of the expression
/// in their place.
pub proof fn lemma_infix_step(
    e: ExpressionView,
    constants: Seq<ObjectView>,
    stack: Seq<ObjectView>,
    last_popped: Option<ObjectView>,
    cursor: int,
    next: int,
)
    requires
        e is Infix,
        scalar_expression(e),
        scalar_value(e) is Ok,
    ensures
        execute(
            infix_instruction(e->Infix_operator),
            next,
            constants,
            machine(
                cursor,
                stack.push(scalar_value(first_operand(e))->Ok_0).push(
                    scalar_value(second_operand(e))->Ok_0,
                ),
                last_popped,
            ),
        ) == Transition::Next(machine(next, stack.push(scalar_value(e)->Ok_0), last_popped)),
{
    lemma_operator_agrees(e);
    let value1 = scalar_value(first_operand(e))->Ok_0;
    let value2 = scalar_value(second_operand(e))->Ok_0;
    let operands = stack.push(value1).push(value2);
    assert(operands.drop_last() =~= stack.push(value1));
    assert(operands.drop_last().drop_last() =~= stack);
    assert(operands.last() == value2);
    assert(operands.drop_last().last() == value1);
}

/// The machine runs an infix expression, where it runs the operands: it
/// applies the operator to the operands' values on top of the stack.
pub proof fn lemma_machine_runs_infix(
    e: ExpressionView,
    pool: nat,
    before: Seq<u8>,
    after: Seq<u8>,
    constants: Seq<ObjectView>,
    stack: Seq<ObjectView>,
    last_popped: Option<ObjectView>,
    fuel: nat,
)
    requires
        e is Infix,
        scalar_expression(e),
        scalar_value(e) is Ok,
        fuel >= compiled_expression(e, pool).len(),
        leaves_value(
            first_operand(e),
            pool,
            before,
            encode_all(
                compiled_expression(
                    second_operand(e),
                    pool + literals_expression(first_operand(e)).len(),
                ),
            ) + infix_instruction(e->Infix_operator).encoding() + after,
            constants,
            stack,
            last_popped,
            fuel,
        ),
        leaves_value(
            second_operand(e),
            pool + literals_expression(first_operand(e)).len(),
            before + encode_all(compiled_expression(first_operand(e), pool)),
            infix_instruction(e->Infix_operator).encoding() + after,
            constants,
            stack.push(scalar_value(first_operand(e))->Ok_0),
            last_popped,
            (fuel - compiled_expression(first_operand(e), pool).len()) as nat,
        ),
    ensures
        leaves_value(e, pool, before, after, constants, stack, last_popped, fuel),
{
    let first = first_operand(e);
    let second = second_operand(e);
    let a = compiled_expression(first, pool);
    let b = compiled_expression(second, pool + literals_expression(first).len());
    let instruction = infix_instruction(e->Infix_operator);
    lemma_infix_layout(e, pool, before, after);
    let before3 = (before + encode_all(a)) + encode_all(b);
    let operands = stack.push(scalar_value(first)->Ok_0).push(scalar_value(second)->Ok_0);
    let middle = machine(before3.len() as int, operands, last_popped);
    let next = machine(
        (before.len() + encode_all(compiled_expression(e, pool)).len()) as int,
        stack.push(scalar_value(e)->Ok_0),
        last_popped,
    );
    lemma_infix_step(
        e,
        constants,
        stack,
        last_popped,
        before3.len() as int,
        (before3.len() + instruction.encoding().len()) as int,
    );
    lemma_run_instruction(
        instruction,
        before3,
        after,
        constants,
        middle,
        next,
        (fuel - a.len() - b.len()) as nat,
    );
}

/// The literals of an infix expression are those of the operand compiled
/// first, then those of the operand compiled second; so where the pool holds
/// the literals of the expression, it holds those of each operand.
pub proof fn lemma_pool_holds_operands(e: ExpressionView, pool: nat, constants: Seq<ObjectView>)
    requires
        e is Infix,
        pool_holds(e, pool, constants),
    ensures
        pool_holds(first_operand(e), pool, constants),
        pool_holds(
            second_operand(e),
            pool + literals_expression(first_operand(e)).len(),
            constants,
        ),
{
    let first = first_operand(e);
    let second = second_operand(e);
    let pool2 = pool + literals_expression(first).len();
    assert(literals_expression(e) =~= literals_expression(first) + literals_expression(second));
    assert forall|j: int| 0 <= j < literals_expression(first).len() implies #[trigger] constants[pool
        + j] == ObjectView::Integer(literals_expression(first)[j]) by {
        assert(literals_expression(e)[j] == literals_expression(first)[j]);
    }
    assert forall|j: int| 0 <= j < literals_expression(second).len() implies #[trigger] constants[pool2
        + j] == ObjectView::Integer(literals_expression(second)[j]) by {
        assert(literals_expression(e)[literals_expression(first).len() + j]
            == literals_expression(second)[j]);
        assert(constants[pool + (literals_expression(first).len() + j)] == ObjectView::Integer(
            literals_expression(e)[literals_expression(first).len() + j],
        ));
    }
}

/// The machine runs the compiled form of a scalar expression to its end and
/// leaves the value of the expression on top of the stack it started on:
/// wherever the code of the expression stands in the stream, if the pool
/// holds the literals of the expression from position `pool` on, the stack
/// has room and the fuel lasts.
pub proof fn lemma_machine_runs_expression(
    e: ExpressionView,
    pool: nat,
    before: Seq<u8>,
    after: Seq<u8>,
    constants: Seq<ObjectView>,
    stack: Seq<ObjectView>,
    last_popped: Option<ObjectView>,
    fuel: nat,
)
    requires
        scalar_expression(e),
        scalar_value(e) is Ok,
        pool_holds(e, pool, constants),
        stack.len() + stack_need(e) <= STACK_SIZE,
        fuel >= compiled_expression(e, pool).len(),
    ensures
        leaves_value(e, pool, before, after, constants, stack, last_popped, fuel),
    decreases e,
{
    match e {
        ExpressionView::IntegerLiteral { .. } => {
            lemma_machine_runs_literal(
                e,
                pool,
                before,
                after,
                constants,
                stack,
                last_popped,
                fuel,
            );
        },
        ExpressionView::Boolean { .. } => {
            lemma_machine_runs_literal(
                e,
                pool,
                before,
                after,
                constants,
                stack,
                last_popped,
                fuel,
            );
        },
        ExpressionView::Prefix { operator, right } => {
            lemma_machine_runs_expression(
                *right,
                pool,
                before,
                prefix_instruction(operator).encoding() + after,
                constants,
                stack,
                last_popped,
                fuel,
            );
            lemma_machine_runs_prefix(
                e,
                pool,
                before,
                after,
                constants,
                stack,
                last_popped,
                fuel,
            );
        },
        ExpressionView::Infix { left, operator, right } => {
            let first = first_operand(e);
            let second = second_operand(e);
            lemma_operator_agrees(e);
            lemma_pool_holds_operands(e, pool, constants);
            let pool2 = pool + literals_expression(first).len();
            let instruction = infix_instruction(operator);
            lemma_machine_runs_expression(
                first,
                pool,
                before,
                encode_all(compiled_expression(second, pool2)) + instruction.encoding() + after,
                constants,
                stack,
                last_popped,
                fuel,
            );
            lemma_machine_runs_expression(
                second,
                pool2,
                before + encode_all(compiled_expression(first, pool)),
                instruction.encoding() + after,
                constants,
                stack.push(scalar_value(first)->Ok_0),
                last_popped,
                (fuel - compiled_expression(first, pool).len()) as nat,
            );
            lemma_machine_runs_infix(
                e,
                pool,
                before,
                after,
                constants,
                stack,
                last_popped,
                fuel,
            );
        },
        _ => {},
    }
}

/// The evaluator and the virtual machine agree on scalar expressions: where
/// the evaluator finds a value for a program that is one such expression,
/// the machine, run on the compiled program, reports that value as the one
/// popped last. The expression must fit the machine: its literals fit the
/// pool, its operands the stack, and its code the memory.
pub proof fn lemma_evaluator_and_machine_agree(
    e: ExpressionView,
    env: EnvironmentView,
    value: ObjectView,
)
    requires
        scalar_expression(e),
        eval_program_spec(seq![StatementView::Expression { expression: e }], env).0 == Ok::<
            Option<ObjectView>,
            Seq<char>,
        >(Some(value)),
        literals_expression(e).len() <= POOL_LIMIT,
        stack_need(e) <= STACK_SIZE,
        encode_all(
            compiled_statements(seq![StatementView::Expression { expression: e }], 1, 0),
        ).len() <= usize::MAX,
    ensures
        run_from(
            encode_all(
                compiled_statements(seq![StatementView::Expression { expression: e }], 1, 0),
            ),
            integer_objects(
                literals_statements(seq![StatementView::Expression { expression: e }], 1),
            ),
            start_state(Seq::empty()),
            MAX_STEPS as nat,
        ) == halted(Ok(Some(value)), Seq::empty()),
        value is Integer || value is Boolean,
{
    let statement = StatementView::Expression { expression: e };
    let program = seq![statement];
    assert(program[0] == statement);
    // What the evaluator finds is the value of the expression.
    lemma_scalar_evaluation(e, 0, env, crate::eval::MAX_CALL_DEPTH as nat);
    let found = eval_statement_spec(statement, 0, env, crate::eval::MAX_CALL_DEPTH as nat);
    assert(found == (
        match scalar_value(e) {
            Ok(v) => Ok::<Option<ObjectView>, Seq<char>>(Some(v)),
            Err(message) => Err(message),
        },
        env,
    ));
    assert(eval_statements_spec(program, 1, found.0->Ok_0, 0, env, crate::eval::MAX_CALL_DEPTH as nat)
        == (Ok::<Option<ObjectView>, Seq<char>>(found.0->Ok_0), env)) by {
        reveal_with_fuel(eval_statements_spec, 2);
    }
    assert(scalar_value(e) is Ok) by {
        reveal_with_fuel(eval_statements_spec, 2);
    }
    lemma_scalar_value_is_scalar(e);
    assert(scalar_value(e)->Ok_0 == value) by {
        reveal_with_fuel(eval_statements_spec, 2);
    }
    // What the compiler emits is the code of the expression and `Pop`.
    let inner = compiled_expression(e, 0);
    let instructions = compiled_statements(program, 1, 0);
    assert(compiled_statements(program, 0, 0) =~= Seq::<Instruction>::empty()) by {
        reveal_with_fuel(compiled_statements, 2);
    }
    assert(literals_statements(program, 0) =~= Seq::<i64>::empty()) by {
        reveal_with_fuel(literals_statements, 2);
    }
    assert(instructions =~= inner.push(Instruction::Pop)) by {
        reveal_with_fuel(compiled_statements, 2);
        assert(compiled_statement(statement, 0) == inner.push(Instruction::Pop));
    }
    assert(literals_statements(program, 1) =~= literals_expression(e)) by {
        reveal_with_fuel(literals_statements, 2);
        assert(literals_statement(statement) == literals_expression(e));
    }
    let constants = integer_objects(literals_statements(program, 1));
    lemma_encode_all_push(inner, Instruction::Pop);
    let code = encode_all(instructions);
    let pop = Instruction::Pop.encoding();
    assert(code =~= Seq::<u8>::empty() + encode_all(inner) + pop);
    lemma_encoding_length(instructions);
    // The machine runs the expression.
    assert(pool_holds(e, 0, constants));
    lemma_machine_runs_expression(
        e,
        0,
        Seq::empty(),
        pop,
        constants,
        Seq::empty(),
        None,
        MAX_STEPS as nat,
    );
    // It pops the value.
    let at_pop = machine(encode_all(inner).len() as int, Seq::<ObjectView>::empty().push(value), None);
    assert(code =~= encode_all(inner) + pop + Seq::<u8>::empty());
    let at_end = machine(code.len() as int, Seq::empty(), Some(value));
    assert(Seq::<ObjectView>::empty().push(value).drop_last() =~= Seq::<ObjectView>::empty());
    lemma_run_instruction(
        Instruction::Pop,
        encode_all(inner),
        Seq::empty(),
        constants,
        at_pop,
        at_end,
        (MAX_STEPS - inner.len()) as nat,
    );
    // It halts at the end of the stream.
    assert(Instruction::decode(code, code.len() as int) == Decoded::End);
    assert(step(code, constants, at_end) == Transition::Halt);
}

} // verus!
