use crate::code::Decoded;
use crate::code::Instruction;
use crate::compiler::Bytecode;
use crate::eval::condition_message;
use crate::eval::content_of;
use crate::logic::eval_infix;
use crate::logic::eval_prefix;
use crate::logic::infix_result;
use crate::logic::prefix_result;
use crate::logic::InfixOperator;
use crate::logic::PrefixOperator;
use crate::object::objects_view;
use crate::object::share;
use crate::object::Object;
use crate::object::ObjectView;
use std::rc::Rc;
use vstd::prelude::*;
use vstd::string::*;

verus! {

/// The number of values that the stack can hold.
pub const STACK_SIZE: usize = 2048;

/// The number of instructions that one run may execute.
pub const MAX_STEPS: u64 = 0xffff_ffff_ffff_ffff;

/// An error of the virtual machine.
#[derive(Debug)]
pub enum VmError {
    PopEmptyStack,
    Misc(String),
}

/// The content of an error of the virtual machine.
pub enum VmErrorView {
    PopEmptyStack,
    Misc(Seq<char>),
}

impl View for VmError {
    type V = VmErrorView;

    open spec fn view(&self) -> VmErrorView {
        match self {
            VmError::PopEmptyStack => VmErrorView::PopEmptyStack,
            VmError::Misc(message) => VmErrorView::Misc(message@),
        }
    }
}

/// The state of the machine between two instructions.
pub struct MachineState {
    /// The byte offset of the next instruction.
    pub cursor: int,
    /// The value stack, its top last.
    pub stack: Seq<ObjectView>,
    /// The value that `Pop` removed most recently.
    pub last_popped: Option<ObjectView>,
}

/// What one instruction does to the machine.
pub enum Transition {
    /// The machine goes on in this state.
    Next(MachineState),
    /// There is no instruction at the cursor: the run is over.
    Halt,
    /// The run fails with this error, leaving this stack.
    Fail(VmErrorView, Seq<ObjectView>),
}

/// How a run ends: with the value popped last or with an error, and with
/// the stack it leaves.
pub struct Halted {
    pub result: Result<Option<ObjectView>, VmErrorView>,
    pub stack: Seq<ObjectView>,
}

/// What an instruction does to the stack: whether it fails, and the stack
/// it leaves.
pub type StackEffect = (Result<(), VmErrorView>, Seq<ObjectView>);

/// Pushing a value, which fails where the stack is full.
pub open spec fn after_push(stack: Seq<ObjectView>, value: ObjectView) -> StackEffect {
    if stack.len() >= STACK_SIZE {
        (Err(VmErrorView::Misc("Stack overflow"@)), stack)
    } else {
        (Ok(()), stack.push(value))
    }
}

/// An infix operator: it takes the right operand from the top of the stack
/// and the left operand from under it, and pushes what the operator yields.
pub open spec fn after_infix(stack: Seq<ObjectView>, operator: InfixOperator) -> StackEffect {
    if stack.len() == 0 {
        (Err(VmErrorView::PopEmptyStack), stack)
    } else if stack.len() == 1 {
        (Err(VmErrorView::PopEmptyStack), stack.drop_last())
    } else {
        let right = stack.last();
        let left = stack.drop_last().last();
        let rest = stack.drop_last().drop_last();
        match infix_result(left, operator, right) {
            Ok(value) => (Ok(()), rest.push(value)),
            Err(message) => (Err(VmErrorView::Misc(message)), rest),
        }
    }
}

/// A prefix operator: it takes its operand from the top of the stack and
/// pushes what the operator yields.
pub open spec fn after_prefix(stack: Seq<ObjectView>, operator: PrefixOperator) -> StackEffect {
    if stack.len() == 0 {
        (Err(VmErrorView::PopEmptyStack), stack)
    } else {
        let operand = stack.last();
        let rest = stack.drop_last();
        match prefix_result(operand, operator) {
            Ok(value) => (Ok(()), rest.push(value)),
            Err(message) => (Err(VmErrorView::Misc(message)), rest),
        }
    }
}

/// The machine after an instruction that only works on the stack: it goes on
/// behind the instruction, or fails.
pub open spec fn advanced(state: MachineState, next: int, effect: StackEffect) -> Transition {
    match effect.0 {
        Ok(_) => Transition::Next(
            MachineState { cursor: next, stack: effect.1, last_popped: state.last_popped },
        ),
        Err(error) => Transition::Fail(error, effect.1),
    }
}

/// The machine at a cursor, with a stack and a value popped last.
pub open spec fn machine(cursor: int, stack: Seq<ObjectView>, last_popped: Option<ObjectView>) -> MachineState {
    MachineState { cursor, stack, last_popped }
}

/// The content of what an instruction's handler returns.
pub open spec fn effect_view(result: Result<(), VmError>) -> Result<(), VmErrorView> {
    match result {
        Ok(_) => Ok(()),
        Err(error) => Err(error@),
    }
}

/// What an instruction does to the machine, where `next` is the position
/// behind the instruction.
pub open spec fn execute(
    instruction: Instruction,
    next: int,
    constants: Seq<ObjectView>,
    state: MachineState,
) -> Transition {
    match instruction {
        Instruction::Constant(index) => if index < constants.len() {
            advanced(state, next, after_push(state.stack, constants[index as int]))
        } else {
            Transition::Fail(VmErrorView::Misc("Constant index out of range"@), state.stack)
        },
        Instruction::Add => advanced(state, next, after_infix(state.stack, InfixOperator::Plus)),
        Instruction::Sub => advanced(state, next, after_infix(state.stack, InfixOperator::Minus)),
        Instruction::Mul => advanced(state, next, after_infix(state.stack, InfixOperator::Multiply)),
        Instruction::Div => advanced(state, next, after_infix(state.stack, InfixOperator::Divide)),
        Instruction::Equal => advanced(state, next, after_infix(state.stack, InfixOperator::Eq)),
        Instruction::NotEqual => advanced(state, next, after_infix(state.stack, InfixOperator::NotEq)),
        Instruction::GreaterThan => advanced(state, next, after_infix(state.stack, InfixOperator::Gt)),
        Instruction::Minus => advanced(state, next, after_prefix(state.stack, PrefixOperator::Minus)),
        Instruction::Bang => advanced(state, next, after_prefix(state.stack, PrefixOperator::Bang)),
        Instruction::True => advanced(state, next, after_push(state.stack, ObjectView::Boolean(true))),
        Instruction::False => advanced(state, next, after_push(state.stack, ObjectView::Boolean(false))),
        Instruction::Pop => if state.stack.len() == 0 {
            Transition::Next(MachineState { cursor: next, stack: state.stack, last_popped: None })
        } else {
            Transition::Next(
                MachineState {
                    cursor: next,
                    stack: state.stack.drop_last(),
                    last_popped: Some(state.stack.last()),
                },
            )
        },
        Instruction::JumpFalse(target) => if state.stack.len() == 0 {
            Transition::Fail(VmErrorView::PopEmptyStack, state.stack)
        } else {
            match state.stack.last() {
                ObjectView::Boolean(holds) => Transition::Next(
                    MachineState {
                        cursor: if holds {
                            next
                        } else {
                            target as int
                        },
                        stack: state.stack.drop_last(),
                        last_popped: state.last_popped,
                    },
                ),
                other => Transition::Fail(
                    VmErrorView::Misc(condition_message(other)),
                    state.stack.drop_last(),
                ),
            }
        },
        Instruction::Jump(target) => Transition::Next(
            MachineState {
                cursor: target as int,
                stack: state.stack,
                last_popped: state.last_popped,
            },
        ),
    }
}

/// One step of the machine: it reads the instruction at the cursor and
/// executes it.
pub open spec fn step(code: Seq<u8>, constants: Seq<ObjectView>, state: MachineState) -> Transition {
    match Instruction::decode(code, state.cursor) {
        Decoded::End => Transition::Halt,
        Decoded::Invalid => Transition::Fail(VmErrorView::Misc("Unknown op byte"@), state.stack),
        Decoded::Instruction(instruction, next) => execute(instruction, next, constants, state),
    }
}

/// The run of the machine from a state, with at most `fuel` instructions
/// executed.
pub open spec fn run_from(
    code: Seq<u8>,
    constants: Seq<ObjectView>,
    state: MachineState,
    fuel: nat,
) -> Halted
    decreases fuel,
{
    match step(code, constants, state) {
        Transition::Halt => Halted { result: Ok(state.last_popped), stack: state.stack },
        Transition::Fail(error, stack) => Halted { result: Err(error), stack },
        Transition::Next(after) => if fuel == 0 {
            Halted { result: Err(VmErrorView::Misc("Step limit exceeded"@)), stack: after.stack }
        } else {
            run_from(code, constants, after, (fuel - 1) as nat)
        },
    }
}

/// How a run ends, from its result and the stack it leaves.
pub open spec fn halted(result: Result<Option<ObjectView>, VmErrorView>, stack: Seq<ObjectView>) -> Halted {
    Halted { result, stack }
}

/// The state in which a run starts on a given stack.
pub open spec fn start_state(stack: Seq<ObjectView>) -> MachineState {
    MachineState { cursor: 0, stack, last_popped: None }
}

/// The content of what a run returns.
pub open spec fn run_view(result: Result<Option<Rc<Object>>, VmError>) -> Result<
    Option<ObjectView>,
    VmErrorView,
> {
    match result {
        Ok(value) => Ok(content_of(value)),
        Err(error) => Err(error@),
    }
}

/// The value stack.
pub struct Stack<'a> {
    elements: Vec<Rc<Object<'a>>>,
}

impl<'a> View for Stack<'a> {
    type V = Seq<ObjectView>;

    closed spec fn view(&self) -> Seq<ObjectView> {
        objects_view(self.elements@)
    }
}

impl<'a> Stack<'a> {
    /// An empty stack.
    pub fn new() -> (stack: Self)
        ensures
            stack@ == Seq::<ObjectView>::empty(),
    {
        let stack = Stack { elements: Vec::with_capacity(STACK_SIZE) };
        assert(stack@ =~= Seq::<ObjectView>::empty());
        stack
    }

    /// The number of values on the stack.
    pub fn len(&self) -> (len: usize)
        ensures
            len == self@.len(),
    {
        self.elements.len()
    }

    /// Puts a value on top of the stack.
    pub fn push(&mut self, obj: Rc<Object<'a>>)
        ensures
            final(self)@ == old(self)@.push(obj@),
    {
        self.elements.push(obj);
        assert(self@ =~= old(self)@.push(obj@));
    }

    /// Takes the value on top of the stack, if there is one.
    pub fn pop(&mut self) -> (top: Option<Rc<Object<'a>>>)
        ensures
            old(self)@.len() == 0 ==> top is None && final(self)@ == old(self)@,
            old(self)@.len() > 0 ==> top is Some && top->0@ == old(self)@.last() && final(self)@
                == old(self)@.drop_last(),
    {
        let el = self.elements.pop();
        assert(old(self)@.len() == 0 ==> self@ =~= old(self)@);
        assert(old(self)@.len() > 0 ==> self@ =~= old(self)@.drop_last());
        el
    }
}

/// The virtual machine: the bytecode it runs and its value stack.
pub struct Vm<'ast, 'bytecode> {
    bytecode: &'bytecode Bytecode<'ast>,
    stack: Stack<'ast>,
}

impl<'ast, 'bytecode> Vm<'ast, 'bytecode> {
    /// The bytes of the instruction stream.
    pub closed spec fn code(&self) -> Seq<u8> {
        self.bytecode.instructions@
    }

    /// The content of the constant pool.
    pub closed spec fn constants(&self) -> Seq<ObjectView> {
        objects_view(self.bytecode.constants@)
    }

    /// The content of the value stack, its top last.
    pub closed spec fn stack(&self) -> Seq<ObjectView> {
        self.stack@
    }

    /// A machine for the given bytecode, with an empty stack.
    pub fn new(bytecode: &'bytecode Bytecode<'ast>) -> (vm: Vm<'ast, 'bytecode>)
        ensures
            vm.code() == bytecode.instructions@,
            vm.constants() == objects_view(bytecode.constants@),
            vm.stack() == Seq::<ObjectView>::empty(),
    {
        Vm { bytecode, stack: Stack::new() }
    }

    /// Runs the instruction stream from its start, on the stack as it
    /// stands, until the cursor leaves the stream or an instruction fails.
    /// Returns the value that `Pop` removed last, or `None` where `Pop` never
    /// removed one.
    pub fn run(&mut self) -> (result: Result<Option<Rc<Object<'ast>>>, VmError>)
        ensures
            final(self).code() == old(self).code(),
            final(self).constants() == old(self).constants(),
            run_from(
                old(self).code(),
                old(self).constants(),
                start_state(old(self).stack()),
                MAX_STEPS as nat,
            ) == halted(run_view(result), final(self).stack()),
    {
        let mut cursor: usize = 0;
        let mut last_popped: Option<Rc<Object<'ast>>> = None;
        let mut fuel: u64 = MAX_STEPS;
        let ghost code = self.code();
        let ghost constants = self.constants();
        loop
            invariant
                self.code() == code,
                self.constants() == constants,
                code == old(self).code(),
                constants == old(self).constants(),
                run_from(
                    code,
                    constants,
                    machine(cursor as int, self.stack(), content_of(last_popped)),
                    fuel as nat,
                ) == run_from(code, constants, start_state(old(self).stack()), MAX_STEPS as nat),
            decreases fuel,
        {
            let ghost state = machine(cursor as int, self.stack(), content_of(last_popped));
            if !Instruction::legal_at(self.bytecode.instructions.as_slice(), cursor) {
                return Err(VmError::Misc(String::from_str("Unknown op byte")));
            }
            let instruction = match Instruction::from_bytes(
                self.bytecode.instructions.as_slice(),
                &mut cursor,
            ) {
                Some(instruction) => instruction,
                None => {
                    return Ok(last_popped);
                },
            };
            let ghost next = cursor as int;
            assert(step(code, constants, state) == execute(instruction, next, constants, state));
            let mut target: Option<u16> = None;
            let executed = match instruction {
                Instruction::Constant(constant_index) => {
                    if (constant_index as usize) < self.bytecode.constants.len() {
                        let constant = share(&self.bytecode.constants[constant_index as usize]);
                        self.push(constant)
                    } else {
                        Err(VmError::Misc(String::from_str("Constant index out of range")))
                    }
                },
                Instruction::Add => self.handle_infix(&InfixOperator::Plus),
                Instruction::Sub => self.handle_infix(&InfixOperator::Minus),
                Instruction::Mul => self.handle_infix(&InfixOperator::Multiply),
                Instruction::Div => self.handle_infix(&InfixOperator::Divide),
                Instruction::Pop => {
                    last_popped = self.stack.pop();
                    Ok(())
                },
                Instruction::True => self.push(Rc::new(Object::Boolean(true))),
                Instruction::False => self.push(Rc::new(Object::Boolean(false))),
                Instruction::Equal => self.handle_infix(&InfixOperator::Eq),
                Instruction::NotEqual => self.handle_infix(&InfixOperator::NotEq),
                Instruction::GreaterThan => self.handle_infix(&InfixOperator::Gt),
                Instruction::Minus => self.handle_prefix(&PrefixOperator::Minus),
                Instruction::Bang => self.handle_prefix(&PrefixOperator::Bang),
                Instruction::JumpFalse(position) => {
                    match self.try_pop() {
                        Ok(condition) => match &*condition {
                            Object::Boolean(holds) => {
                                if !*holds {
                                    target = Some(position);
                                }
                                Ok(())
                            },
                            _ => Err(VmError::Misc(condition_error(&*condition))),
                        },
                        Err(error) => Err(error),
                    }
                },
                Instruction::Jump(position) => {
                    target = Some(position);
                    Ok(())
                },
            };
            match executed {
                Ok(()) => {},
                Err(error) => {
                    return Err(error);
                },
            }
            match target {
                Some(position) => {
                    cursor = position as usize;
                },
                None => {},
            }
            if fuel == 0 {
                return Err(VmError::Misc(String::from_str("Step limit exceeded")));
            }
            fuel = fuel - 1;
        }
    }

    /// Pushes a value, unless the stack is full.
    fn push(&mut self, obj: Rc<Object<'ast>>) -> (result: Result<(), VmError>)
        ensures
            final(self).code() == old(self).code(),
            final(self).constants() == old(self).constants(),
            (effect_view(result), final(self).stack()) == after_push(old(self).stack(), obj@),
    {
        if self.stack.len() >= STACK_SIZE {
            Err(VmError::Misc(String::from_str("Stack overflow")))
        } else {
            self.stack.push(obj);
            Ok(())
        }
    }

    /// Applies a prefix operator to the value on top of the stack.
    fn handle_prefix(&mut self, operator: &PrefixOperator) -> (result: Result<(), VmError>)
        ensures
            final(self).code() == old(self).code(),
            final(self).constants() == old(self).constants(),
            (effect_view(result), final(self).stack()) == after_prefix(
                old(self).stack(),
                *operator,
            ),
    {
        let operand = self.try_pop()?;
        match eval_prefix(operand, operator) {
            Ok(value) => {
                self.stack.push(Rc::new(value));
                Ok(())
            },
            Err(message) => Err(VmError::Misc(message)),
        }
    }

    /// Applies an infix operator to the two values on top of the stack.
    fn handle_infix(&mut self, operator: &InfixOperator) -> (result: Result<(), VmError>)
        ensures
            final(self).code() == old(self).code(),
            final(self).constants() == old(self).constants(),
            (effect_view(result), final(self).stack()) == after_infix(old(self).stack(), *operator),
    {
        let right = self.try_pop()?;
        let left = self.try_pop()?;
        match eval_infix(left, operator, right) {
            Ok(value) => {
                self.stack.push(Rc::new(value));
                Ok(())
            },
            Err(message) => Err(VmError::Misc(message)),
        }
    }

    /// Takes the value on top of the stack, which fails on an empty stack.
    fn try_pop(&mut self) -> (result: Result<Rc<Object<'ast>>, VmError>)
        ensures
            final(self).code() == old(self).code(),
            final(self).constants() == old(self).constants(),
            old(self).stack().len() == 0 ==> result is Err && result->Err_0@
                == VmErrorView::PopEmptyStack && final(self).stack() == old(self).stack(),
            old(self).stack().len() > 0 ==> result is Ok && result->Ok_0@ == old(
                self,
            ).stack().last() && final(self).stack() == old(self).stack().drop_last(),
    {
        match self.stack.pop() {
            Some(top) => Ok(top),
            None => Err(VmError::PopEmptyStack),
        }
    }
}

fn condition_error(condition: &Object) -> (message: String)
    ensures
        message@ == condition_message(condition@),
{
    let mut message = String::from_str("The condition in an if statement must be a bool. Got ");
    message.append(condition.kind_name().as_str());
    message
}

} // verus!
