use crate::ast::Expression;
use crate::ast::ExpressionView;
use crate::ast::InfixOperator;
use crate::ast::PrefixOperator;
use crate::ast::Program;
use crate::ast::Statement;
use crate::ast::StatementView;
use crate::ast::statements_view;
use crate::code::Instruction;
use crate::object::objects_view;
use crate::object::Object;
use crate::object::ObjectView;
use std::rc::Rc;
use vstd::prelude::*;

verus! {

/// A node of the syntax tree, as the compiler is handed one.
#[derive(Debug)]
pub enum AstNode<'a> {
    Program(&'a Program),
    Statement(&'a Statement),
    Expression(&'a Expression),
}

/// The compiler's state: the instruction stream and the constant pool, both
/// of which only grow.
pub struct Compiler<'ast> {
    pub instructions: Vec<u8>,
    pub constants: Vec<Rc<Object<'ast>>>,
}

/// What the compiler produces: the instruction stream and the constant pool.
pub struct Bytecode<'ast> {
    pub instructions: Vec<u8>,
    pub constants: Vec<Rc<Object<'ast>>>,
}

/// The greatest number of constants that an operand can index.
pub const POOL_LIMIT: usize = 65536;

/// The instruction for a prefix operator.
pub open spec fn prefix_instruction(operator: PrefixOperator) -> Instruction {
    match operator {
        PrefixOperator::Minus => Instruction::Minus,
        PrefixOperator::Bang => Instruction::Bang,
    }
}

/// The instruction for an infix operator. There is none for `<`: it is
/// compiled as `>` on the operands in the other order.
pub open spec fn infix_instruction(operator: InfixOperator) -> Instruction {
    match operator {
        InfixOperator::Plus => Instruction::Add,
        InfixOperator::Minus => Instruction::Sub,
        InfixOperator::Multiply => Instruction::Mul,
        InfixOperator::Divide => Instruction::Div,
        InfixOperator::Eq => Instruction::Equal,
        InfixOperator::NotEq => Instruction::NotEqual,
        InfixOperator::Gt => Instruction::GreaterThan,
        InfixOperator::Lt => Instruction::GreaterThan,
    }
}

/// Whether the compiler takes an expression: integer and boolean literals,
/// prefix and infix expressions over such, and blocks of statements it takes.
pub open spec fn supported_expression(e: ExpressionView) -> bool
    decreases e,
{
    match e {
        ExpressionView::IntegerLiteral { .. } => true,
        ExpressionView::Boolean { .. } => true,
        ExpressionView::Prefix { right, .. } => supported_expression(*right),
        ExpressionView::Infix { left, right, .. } => supported_expression(*left)
            && supported_expression(*right),
        ExpressionView::Block { statements } => supported_statements(
            statements,
            statements.len(),
        ),
        _ => false,
    }
}

/// Whether the compiler takes a statement: an expression statement over an
/// expression it takes.
pub open spec fn supported_statement(s: StatementView) -> bool
    decreases s,
{
    match s {
        StatementView::Expression { expression } => supported_expression(expression),
        _ => false,
    }
}

/// Whether the compiler takes each of the first `n` statements.
pub open spec fn supported_statements(ss: Seq<StatementView>, n: nat) -> bool
    decreases ss, n,
{
    if n == 0 || n > ss.len() {
        true
    } else {
        supported_statements(ss, (n - 1) as nat) && supported_statement(ss[n - 1])
    }
}

/// The integer literals of an expression in the order in which the compiler
/// meets them: the pool entries that compiling it appends.
pub open spec fn literals_expression(e: ExpressionView) -> Seq<i64>
    decreases e,
{
    match e {
        ExpressionView::IntegerLiteral { value } => seq![value],
        ExpressionView::Prefix { right, .. } => literals_expression(*right),
        ExpressionView::Infix { left, operator, right } => if operator == InfixOperator::Lt {
            literals_expression(*right) + literals_expression(*left)
        } else {
            literals_expression(*left) + literals_expression(*right)
        },
        ExpressionView::Block { statements } => literals_statements(statements, statements.len()),
        _ => Seq::empty(),
    }
}

/// The pool entries that compiling a statement appends.
pub open spec fn literals_statement(s: StatementView) -> Seq<i64>
    decreases s,
{
    match s {
        StatementView::Expression { expression } => literals_expression(expression),
        _ => Seq::empty(),
    }
}

/// The pool entries that compiling the first `n` statements appends.
pub open spec fn literals_statements(ss: Seq<StatementView>, n: nat) -> Seq<i64>
    decreases ss, n,
{
    if n == 0 || n > ss.len() {
        Seq::empty()
    } else {
        literals_statements(ss, (n - 1) as nat) + literals_statement(ss[n - 1])
    }
}

/// The instructions for an expression, where the pool holds `pool` entries
/// before it is compiled. Operands come before their operator, the left one
/// first; for `<` the right one comes first and the operator is `>`.
pub open spec fn compiled_expression(e: ExpressionView, pool: nat) -> Seq<Instruction>
    decreases e,
{
    match e {
        ExpressionView::IntegerLiteral { value } => seq![Instruction::Constant(pool as u16)],
        ExpressionView::Boolean { value } => if value {
            seq![Instruction::True]
        } else {
            seq![Instruction::False]
        },
        ExpressionView::Prefix { operator, right } => compiled_expression(*right, pool).push(
            prefix_instruction(operator),
        ),
        ExpressionView::Infix { left, operator, right } => if operator == InfixOperator::Lt {
            (compiled_expression(*right, pool) + compiled_expression(
                *left,
                pool + literals_expression(*right).len(),
            )).push(Instruction::GreaterThan)
        } else {
            (compiled_expression(*left, pool) + compiled_expression(
                *right,
                pool + literals_expression(*left).len(),
            )).push(infix_instruction(operator))
        },
        ExpressionView::Block { statements } => compiled_statements(
            statements,
            statements.len(),
            pool,
        ),
        _ => Seq::empty(),
    }
}

/// The instructions for a statement: those of its expression, then `Pop`.
pub open spec fn compiled_statement(s: StatementView, pool: nat) -> Seq<Instruction>
    decreases s,
{
    match s {
        StatementView::Expression { expression } => compiled_expression(expression, pool).push(
            Instruction::Pop,
        ),
        _ => Seq::empty(),
    }
}

/// The instructions for the first `n` statements, in order.
pub open spec fn compiled_statements(ss: Seq<StatementView>, n: nat, pool: nat) -> Seq<
    Instruction,
>
    decreases ss, n,
{
    if n == 0 || n > ss.len() {
        Seq::empty()
    } else {
        compiled_statements(ss, (n - 1) as nat, pool) + compiled_statement(
            ss[n - 1],
            pool + literals_statements(ss, (n - 1) as nat).len(),
        )
    }
}

/// The bytes of a sequence of instructions: their encodings one after
/// another.
pub open spec fn encode_all(instructions: Seq<Instruction>) -> Seq<u8>
    decreases instructions.len(),
{
    if instructions.len() == 0 {
        Seq::empty()
    } else {
        encode_all(instructions.drop_last()) + instructions.last().encoding()
    }
}

/// The integer objects that stand in the pool for a sequence of literals.
pub open spec fn integer_objects(literals: Seq<i64>) -> Seq<ObjectView> {
    Seq::new(literals.len(), |i: int| ObjectView::Integer(literals[i]))
}

/// Whether a program can be compiled: the compiler takes each statement, and
/// the pool can hold its literals.
pub open spec fn compilable(program: Seq<StatementView>) -> bool {
    supported_statements(program, program.len()) && literals_statements(
        program,
        program.len(),
    ).len() <= POOL_LIMIT
}

/// The bytes of two sequences of instructions, one after the other.
pub proof fn lemma_encode_all_concat(a: Seq<Instruction>, b: Seq<Instruction>)
    ensures
        encode_all(a + b) == encode_all(a) + encode_all(b),
    decreases b.len(),
{
    if b.len() == 0 {
        assert(a + b =~= a);
        assert(encode_all(a) + encode_all(b) =~= encode_all(a));
    } else {
        lemma_encode_all_concat(a, b.drop_last());
        assert((a + b).drop_last() =~= a + b.drop_last());
        assert((a + b).last() == b.last());
        assert(encode_all(a + b) =~= encode_all(a) + encode_all(b));
    }
}

/// The bytes of a sequence of instructions with one more at its end.
pub proof fn lemma_encode_all_push(a: Seq<Instruction>, last: Instruction)
    ensures
        encode_all(a.push(last)) == encode_all(a) + last.encoding(),
{
    assert(a.push(last).drop_last() =~= a);
}

impl<'a> Compiler<'a> {
    /// A compiler that has emitted nothing.
    pub fn new() -> (compiler: Self)
        ensures
            compiler.instructions@ == Seq::<u8>::empty(),
            compiler.constants@ == Seq::<Rc<Object>>::empty(),
    {
        Compiler { instructions: Vec::new(), constants: Vec::new() }
    }

    /// Appends an object to the pool and emits the instruction that pushes
    /// it.
    pub fn add_constant(&mut self, obj: Object<'a>)
        requires
            old(self).constants.len() < POOL_LIMIT,
        ensures
            objects_view(final(self).constants@) == objects_view(old(self).constants@).push(obj@),
            final(self).constants.len() == old(self).constants.len() + 1,
            final(self).instructions@ == old(self).instructions@ + Instruction::Constant(
                old(self).constants.len() as u16,
            ).encoding(),
    {
        let next_const_index: u16 = self.constants.len() as u16;
        self.constants.push(Rc::new(obj));
        assert(objects_view(self.constants@) =~= objects_view(old(self).constants@).push(obj@));
        self.push_instruction(Instruction::Constant(next_const_index))
    }

    /// Appends the bytes of an instruction to the stream.
    pub fn push_instruction(&mut self, instruction: Instruction)
        ensures
            final(self).constants@ == old(self).constants@,
            final(self).instructions@ == old(self).instructions@ + instruction.encoding(),
    {
        let mut bytes = instruction.to_bytes();
        self.instructions.append(&mut bytes);
    }

    /// Compiles an expression onto the end of the stream.
    pub fn compile_expression(&mut self, expression: &Expression)
        requires
            supported_expression(expression@),
            old(self).constants.len() + literals_expression(expression@).len() <= POOL_LIMIT,
        ensures
            final(self).instructions@ == old(self).instructions@ + encode_all(
                compiled_expression(expression@, old(self).constants.len() as nat),
            ),
            objects_view(final(self).constants@) == objects_view(old(self).constants@) + integer_objects(
                literals_expression(expression@),
            ),
            final(self).constants.len() == old(self).constants.len() + literals_expression(expression@).len(),
        decreases expression,
    {
        let ghost pool = self.constants.len() as nat;
        let ghost before = self.instructions@;
        let ghost pool_before = objects_view(self.constants@);
        match expression {
            Expression::IntegerLiteral { value } => {
                self.add_constant(Object::Integer(*value));
                proof {
                    lemma_encode_all_push(Seq::empty(), Instruction::Constant(pool as u16));
                    assert(Seq::<Instruction>::empty().push(Instruction::Constant(pool as u16))
                        =~= seq![Instruction::Constant(pool as u16)]);
                    assert(encode_all(Seq::empty()) + Instruction::Constant(
                        pool as u16,
                    ).encoding() =~= Instruction::Constant(pool as u16).encoding());
                    assert(objects_view(self.constants@) =~= pool_before + integer_objects(
                        literals_expression(expression@),
                    ));
                }
            },
            Expression::Boolean { value } => {
                let instruction = if *value {
                    Instruction::True
                } else {
                    Instruction::False
                };
                self.push_instruction(instruction);
                proof {
                    lemma_encode_all_push(Seq::empty(), instruction);
                    assert(Seq::<Instruction>::empty().push(instruction) =~= seq![instruction]);
                    assert(encode_all(Seq::empty()) + instruction.encoding()
                        =~= instruction.encoding());
                    assert(objects_view(self.constants@) =~= pool_before + integer_objects(
                        literals_expression(expression@),
                    ));
                }
            },
            Expression::Prefix { operator, right } => {
                self.compile_expression(right);
                let instruction = match operator {
                    PrefixOperator::Minus => Instruction::Minus,
                    PrefixOperator::Bang => Instruction::Bang,
                };
                self.push_instruction(instruction);
                proof {
                    lemma_encode_all_push(compiled_expression(right@, pool), instruction);
                    assert(self.instructions@ =~= before + encode_all(
                        compiled_expression(expression@, pool),
                    ));
                }
            },
            Expression::Infix { left, right, operator } => {
                let (first, second) = match operator {
                    InfixOperator::Lt => (right, left),
                    _ => (left, right),
                };
                proof {
                    assert(literals_expression(expression@) =~= literals_expression(first@)
                        + literals_expression(second@));
                }
                self.compile_expression(first);
                let ghost middle = self.constants.len() as nat;
                assert(middle == pool + literals_expression(first@).len());
                self.compile_expression(second);
                let instruction: Instruction = match operator {
                    InfixOperator::Plus => Instruction::Add,
                    InfixOperator::Minus => Instruction::Sub,
                    InfixOperator::Multiply => Instruction::Mul,
                    InfixOperator::Divide => Instruction::Div,
                    InfixOperator::Eq => Instruction::Equal,
                    InfixOperator::NotEq => Instruction::NotEqual,
                    InfixOperator::Gt => Instruction::GreaterThan,
                    InfixOperator::Lt => Instruction::GreaterThan,
                };
                self.push_instruction(instruction);
                proof {
                    let a = compiled_expression(first@, pool);
                    let b = compiled_expression(second@, middle);
                    lemma_encode_all_concat(a, b);
                    lemma_encode_all_push(a + b, instruction);
                    assert(compiled_expression(expression@, pool) == (a + b).push(instruction));
                    assert(self.instructions@ =~= before + encode_all(
                        compiled_expression(expression@, pool),
                    ));
                    assert(objects_view(self.constants@) =~= pool_before + integer_objects(
                        literals_expression(expression@),
                    ));
                }
            },
            Expression::Block { statements } => {
                self.compile_statements(statements);
            },
            _ => {},
        }
    }

    /// Compiles a statement onto the end of the stream.
    pub fn compile_statement(&mut self, statement: &Statement)
        requires
            supported_statement(statement@),
            old(self).constants.len() + literals_statement(statement@).len() <= POOL_LIMIT,
        ensures
            final(self).instructions@ == old(self).instructions@ + encode_all(
                compiled_statement(statement@, old(self).constants.len() as nat),
            ),
            objects_view(final(self).constants@) == objects_view(old(self).constants@) + integer_objects(
                literals_statement(statement@),
            ),
            final(self).constants.len() == old(self).constants.len() + literals_statement(statement@).len(),
        decreases statement,
    {
        let ghost pool = self.constants.len() as nat;
        match statement {
            Statement::Expression { expression } => {
                self.compile_expression(expression);
                self.push_instruction(Instruction::Pop);
                proof {
                    lemma_encode_all_push(compiled_expression(expression@, pool), Instruction::Pop);
                    assert(final(self).instructions@ =~= old(self).instructions@ + encode_all(
                        compiled_statement(statement@, pool),
                    ));
                }
            },
            _ => {},
        }
    }

    /// Compiles a list of statements, in order, onto the end of the stream.
    pub fn compile_statements(&mut self, statements: &Vec<Statement>)
        requires
            supported_statements(statements_view(*statements), statements.len() as nat),
            old(self).constants.len() + literals_statements(
                statements_view(*statements),
                statements.len() as nat,
            ).len() <= POOL_LIMIT,
        ensures
            final(self).instructions@ == old(self).instructions@ + encode_all(
                compiled_statements(
                    statements_view(*statements),
                    statements.len() as nat,
                    old(self).constants.len() as nat,
                ),
            ),
            objects_view(final(self).constants@) == objects_view(old(self).constants@) + integer_objects(
                literals_statements(statements_view(*statements), statements.len() as nat),
            ),
            final(self).constants.len() == old(self).constants.len() + literals_statements(
                statements_view(*statements),
                statements.len() as nat,
            ).len(),
        decreases statements,
    {
        let ghost ss = statements_view(*statements);
        let ghost pool = self.constants.len() as nat;
        let ghost before = self.instructions@;
        let ghost pool_before = objects_view(self.constants@);
        let mut i: usize = 0;
        proof {
            assert(before + encode_all(compiled_statements(ss, 0, pool)) =~= before);
            assert(pool_before + integer_objects(literals_statements(ss, 0)) =~= pool_before);
            lemma_literals_prefix(ss, 0, statements.len() as nat);
        }
        while i < statements.len()
            invariant
                i <= statements.len(),
                ss == statements_view(*statements),
                ss.len() == statements.len(),
                supported_statements(ss, ss.len()),
                pool + literals_statements(ss, ss.len()).len() <= POOL_LIMIT,
                self.constants.len() == pool + literals_statements(ss, i as nat).len(),
                self.instructions@ == before + encode_all(compiled_statements(ss, i as nat, pool)),
                objects_view(self.constants@) == pool_before + integer_objects(
                    literals_statements(ss, i as nat),
                ),
            decreases statements.len() - i,
        {
            let ghost so_far = self.instructions@;
            let ghost pool_so_far = objects_view(self.constants@);
            proof {
                lemma_supported_prefix(ss, (i + 1) as nat, ss.len());
                lemma_literals_prefix(ss, (i + 1) as nat, ss.len());
                assert(ss[i as int] == statements[i as int]@);
            }
            self.compile_statement(&statements[i]);
            proof {
                let a = compiled_statements(ss, i as nat, pool);
                let b = compiled_statement(ss[i as int], self.constants.len() as nat);
                lemma_encode_all_concat(
                    a,
                    compiled_statement(
                        ss[i as int],
                        pool + literals_statements(ss, i as nat).len(),
                    ),
                );
                assert(self.instructions@ =~= before + encode_all(
                    compiled_statements(ss, (i + 1) as nat, pool),
                ));
                assert(objects_view(self.constants@) =~= pool_before + integer_objects(
                    literals_statements(ss, (i + 1) as nat),
                ));
            }
            i = i + 1;
        }
    }

    /// Compiles a node of the syntax tree onto the end of the stream.
    pub fn compile(&mut self, node: AstNode)
        requires
            match node {
                AstNode::Expression(expression) => supported_expression(expression@)
                    && old(self).constants.len() + literals_expression(expression@).len()
                    <= POOL_LIMIT,
                AstNode::Statement(statement) => supported_statement(statement@)
                    && old(self).constants.len() + literals_statement(statement@).len()
                    <= POOL_LIMIT,
                AstNode::Program(program) => supported_statements(program@, program@.len())
                    && old(self).constants.len() + literals_statements(
                    program@,
                    program@.len(),
                ).len() <= POOL_LIMIT,
            },
        ensures
            final(self).instructions@ == old(self).instructions@ + encode_all(
                match node {
                    AstNode::Expression(expression) => compiled_expression(
                        expression@,
                        old(self).constants.len() as nat,
                    ),
                    AstNode::Statement(statement) => compiled_statement(
                        statement@,
                        old(self).constants.len() as nat,
                    ),
                    AstNode::Program(program) => compiled_statements(
                        program@,
                        program@.len(),
                        old(self).constants.len() as nat,
                    ),
                },
            ),
            objects_view(final(self).constants@) == objects_view(old(self).constants@) + integer_objects(
                match node {
                    AstNode::Expression(expression) => literals_expression(expression@),
                    AstNode::Statement(statement) => literals_statement(statement@),
                    AstNode::Program(program) => literals_statements(program@, program@.len()),
                },
            ),
    {
        match node {
            AstNode::Expression(expression) => self.compile_expression(expression),
            AstNode::Statement(statement) => self.compile_statement(statement),
            AstNode::Program(program) => self.compile_statements(&program.statements),
        }
    }

    /// Hands over what was compiled.
    pub fn bytecode(self) -> (bytecode: Bytecode<'a>)
        ensures
            bytecode.instructions@ == self.instructions@,
            objects_view(bytecode.constants@) == objects_view(self.constants@),
    {
        Bytecode { instructions: self.instructions, constants: self.constants }
    }
}

/// Each of the first `n` statements is taken where each of the first `m` is,
/// for `n <= m`.
pub proof fn lemma_supported_prefix(ss: Seq<StatementView>, n: nat, m: nat)
    requires
        n <= m <= ss.len(),
        supported_statements(ss, m),
    ensures
        supported_statements(ss, n),
        n > 0 ==> supported_statement(ss[n - 1]),
    decreases m,
{
    if n < m {
        lemma_supported_prefix(ss, n, (m - 1) as nat);
    }
}

/// The first `n` statements hold no more literals than the first `m`, for
/// `n <= m`.
pub proof fn lemma_literals_prefix(ss: Seq<StatementView>, n: nat, m: nat)
    requires
        n <= m <= ss.len(),
    ensures
        literals_statements(ss, n).len() <= literals_statements(ss, m).len(),
    decreases m,
{
    if n < m {
        lemma_literals_prefix(ss, n, (m - 1) as nat);
    }
}

/// A number of literals, counted no further than one past the limit of the
/// pool.
pub open spec fn capped(n: nat) -> nat {
    if n > POOL_LIMIT {
        (POOL_LIMIT + 1) as nat
    } else {
        n
    }
}

fn capped_sum(a: usize, b: usize) -> (sum: usize)
    requires
        a <= POOL_LIMIT + 1,
        b <= POOL_LIMIT + 1,
    ensures
        sum == capped((a + b) as nat),
        forall|x: nat, y: nat|
            #![trigger capped(x), capped(y)]
            a == capped(x) && b == capped(y) ==> sum == capped(x + y),
{
    if a + b > POOL_LIMIT {
        POOL_LIMIT + 1
    } else {
        a + b
    }
}

/// Counts the literals of an expression, if the compiler takes it.
pub fn count_expression_literals(expression: &Expression) -> (count: Option<usize>)
    ensures
        count is Some <==> supported_expression(expression@),
        count is Some ==> count->0 == capped(literals_expression(expression@).len()),
    decreases expression,
{
    match expression {
        Expression::IntegerLiteral { .. } => Some(1),
        Expression::Boolean { .. } => Some(0),
        Expression::Prefix { right, .. } => count_expression_literals(right),
        Expression::Infix { left, right, .. } => {
            match count_expression_literals(left) {
                Some(first) => match count_expression_literals(right) {
                    Some(second) => Some(capped_sum(first, second)),
                    None => None,
                },
                None => None,
            }
        },
        Expression::Block { statements } => count_statements_literals(statements),
        _ => None,
    }
}

/// Counts the literals of a statement, if the compiler takes it.
pub fn count_statement_literals(statement: &Statement) -> (count: Option<usize>)
    ensures
        count is Some <==> supported_statement(statement@),
        count is Some ==> count->0 == capped(literals_statement(statement@).len()),
    decreases statement,
{
    match statement {
        Statement::Expression { expression } => count_expression_literals(expression),
        _ => None,
    }
}

/// Counts the literals of a list of statements, if the compiler takes each.
#[verifier::loop_isolation(false)]
pub fn count_statements_literals(statements: &Vec<Statement>) -> (count: Option<usize>)
    ensures
        count is Some <==> supported_statements(
            statements_view(*statements),
            statements.len() as nat,
        ),
        count is Some ==> count->0 == capped(
            literals_statements(statements_view(*statements), statements.len() as nat).len(),
        ),
    decreases statements,
{
    let ghost ss = statements_view(*statements);
    let mut total: usize = 0;
    let mut i: usize = 0;
    while i < statements.len()
        invariant
            i <= statements.len(),
            supported_statements(ss, i as nat),
            total == capped(literals_statements(ss, i as nat).len()),
        decreases statements.len() - i,
    {
        assert(ss[i as int] == statements[i as int]@);
        match count_statement_literals(&statements[i]) {
            Some(count) => {
                total = capped_sum(total, count);
            },
            None => {
                proof {
                    if supported_statements(ss, ss.len()) {
                        lemma_supported_prefix(ss, (i + 1) as nat, ss.len());
                    }
                }
                return None;
            },
        }
        i = i + 1;
    }
    Some(total)
}

/// Whether `compile_program` takes a program.
pub fn can_compile(program: &Program) -> (yes: bool)
    ensures
        yes == compilable(program@),
{
    match count_statements_literals(&program.statements) {
        Some(count) => count <= POOL_LIMIT,
        None => false,
    }
}

/// Compiles a program to bytecode.
pub fn compile_program<'ast, 'bytecode>(program: &'ast Program) -> (bytecode: Bytecode<'bytecode>)
    requires
        compilable(program@),
    ensures
        bytecode.instructions@ == encode_all(compiled_statements(program@, program@.len(), 0)),
        objects_view(bytecode.constants@) == integer_objects(
            literals_statements(program@, program@.len()),
        ),
{
    let mut compiler = Compiler::new();
    compiler.compile(AstNode::Program(program));
    proof {
        assert(Seq::<u8>::empty() + encode_all(compiled_statements(program@, program@.len(), 0))
            =~= encode_all(compiled_statements(program@, program@.len(), 0)));
        assert(objects_view(Seq::<Rc<Object>>::empty()) + integer_objects(
            literals_statements(program@, program@.len()),
        ) =~= integer_objects(literals_statements(program@, program@.len())));
    }
    compiler.bytecode()
}

} // verus!
