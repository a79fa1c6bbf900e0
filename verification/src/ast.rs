pub use crate::logic::InfixOperator;
pub use crate::logic::PrefixOperator;
use crate::text::boolean_text;
use crate::text::boolean_to_string;
use crate::text::decimal;
use crate::text::integer_to_string;
use vstd::prelude::*;
use vstd::string::*;

verus! {

/// A statement of the language.
#[derive(Debug, PartialEq)]
pub enum Statement {
    Let { name: String, right: Expression },
    Return { value: Expression },
    Expression { expression: Expression },
}

/// An expression of the language.
#[allow(inconsistent_fields)]
#[derive(Debug, PartialEq)]
pub enum Expression {
    Identifier { value: String },
    IntegerLiteral { value: i64 },
    StringLiteral { value: String },
    Prefix { operator: PrefixOperator, right: Box<Expression> },
    Infix { left: Box<Expression>, operator: InfixOperator, right: Box<Expression> },
    Boolean { value: bool },
    If {
        condition: Box<Expression>,
        consequence: BlockStatement,
        alternative: Option<BlockStatement>,
    },
    FnLiteral { param_names: Vec<String>, body: BlockStatement },
    CallExpression { left: Box<Expression>, arguments: Vec<Expression> },
    Block { statements: Vec<Statement> },
}

/// A whole program: its statements in order.
#[derive(Debug, PartialEq)]
pub struct Program {
    pub statements: Vec<Statement>,
}

/// The statements between a pair of braces, in order.
#[derive(Debug, PartialEq)]
pub struct BlockStatement {
    pub statements: Vec<Statement>,
}

/// The mathematical content of a statement.
pub enum StatementView {
    Let { name: Seq<char>, right: ExpressionView },
    Return { value: ExpressionView },
    Expression { expression: ExpressionView },
}

/// The mathematical content of an expression: names and string literals are
/// character sequences, blocks and argument lists are sequences.
#[allow(inconsistent_fields)]
pub enum ExpressionView {
    Identifier { value: Seq<char> },
    IntegerLiteral { value: i64 },
    StringLiteral { value: Seq<char> },
    Prefix { operator: PrefixOperator, right: Box<ExpressionView> },
    Infix { left: Box<ExpressionView>, operator: InfixOperator, right: Box<ExpressionView> },
    Boolean { value: bool },
    If {
        condition: Box<ExpressionView>,
        consequence: Seq<StatementView>,
        alternative: Option<Seq<StatementView>>,
    },
    FnLiteral { param_names: Seq<Seq<char>>, body: Seq<StatementView> },
    CallExpression { left: Box<ExpressionView>, arguments: Seq<ExpressionView> },
    Block { statements: Seq<StatementView> },
}

/// The content of each text of a list.
pub open spec fn texts_view(texts: Vec<String>) -> Seq<Seq<char>> {
    Seq::new(texts.len() as nat, |i: int| texts[i]@)
}

/// The content of an expression.
pub open spec fn expression_view(e: Expression) -> ExpressionView
    decreases e,
{
    match e {
        Expression::Identifier { value } => ExpressionView::Identifier { value: value@ },
        Expression::IntegerLiteral { value } => ExpressionView::IntegerLiteral { value },
        Expression::StringLiteral { value } => ExpressionView::StringLiteral { value: value@ },
        Expression::Prefix { operator, right } => ExpressionView::Prefix {
            operator,
            right: Box::new(expression_view(*right)),
        },
        Expression::Infix { left, operator, right } => ExpressionView::Infix {
            left: Box::new(expression_view(*left)),
            operator,
            right: Box::new(expression_view(*right)),
        },
        Expression::Boolean { value } => ExpressionView::Boolean { value },
        Expression::If { condition, consequence, alternative } => ExpressionView::If {
            condition: Box::new(expression_view(*condition)),
            consequence: statements_view(consequence.statements),
            alternative: match alternative {
                Some(block) => Some(statements_view(block.statements)),
                None => None,
            },
        },
        Expression::FnLiteral { param_names, body } => ExpressionView::FnLiteral {
            param_names: texts_view(param_names),
            body: statements_view(body.statements),
        },
        Expression::CallExpression { left, arguments } => ExpressionView::CallExpression {
            left: Box::new(expression_view(*left)),
            arguments: expressions_view(arguments),
        },
        Expression::Block { statements } => ExpressionView::Block {
            statements: statements_view(statements),
        },
    }
}

/// The content of each expression of a list.
pub open spec fn expressions_view(es: Vec<Expression>) -> Seq<ExpressionView>
    decreases es,
{
    Seq::new(
        es.len() as nat,
        |i: int|
            if 0 <= i < es.len() {
                expression_view(es[i])
            } else {
                arbitrary()
            },
    )
}

/// The content of a statement.
pub open spec fn statement_view(s: Statement) -> StatementView
    decreases s,
{
    match s {
        Statement::Let { name, right } => StatementView::Let {
            name: name@,
            right: expression_view(right),
        },
        Statement::Return { value } => StatementView::Return { value: expression_view(value) },
        Statement::Expression { expression } => StatementView::Expression {
            expression: expression_view(expression),
        },
    }
}

/// The content of each statement of a list.
pub open spec fn statements_view(ss: Vec<Statement>) -> Seq<StatementView>
    decreases ss,
{
    Seq::new(
        ss.len() as nat,
        |i: int|
            if 0 <= i < ss.len() {
                statement_view(ss[i])
            } else {
                arbitrary()
            },
    )
}

impl View for Expression {
    type V = ExpressionView;

    open spec fn view(&self) -> ExpressionView {
        expression_view(*self)
    }
}

impl View for Statement {
    type V = StatementView;

    open spec fn view(&self) -> StatementView {
        statement_view(*self)
    }
}

impl View for BlockStatement {
    type V = Seq<StatementView>;

    open spec fn view(&self) -> Seq<StatementView> {
        statements_view(self.statements)
    }
}

impl View for Program {
    type V = Seq<StatementView>;

    open spec fn view(&self) -> Seq<StatementView> {
        statements_view(self.statements)
    }
}

/// Appending a statement to a list appends its content to the list's content.
pub proof fn lemma_statements_view_push(before: Vec<Statement>, after: Vec<Statement>, s: Statement)
    requires
        after@ == before@.push(s),
    ensures
        statements_view(after) == statements_view(before).push(s@),
{
    assert(statements_view(after) =~= statements_view(before).push(s@));
}

/// Appending an expression to a list appends its content to the list's content.
pub proof fn lemma_expressions_view_push(
    before: Vec<Expression>,
    after: Vec<Expression>,
    e: Expression,
)
    requires
        after@ == before@.push(e),
    ensures
        expressions_view(after) == expressions_view(before).push(e@),
{
    assert(expressions_view(after) =~= expressions_view(before).push(e@));
}

/// Appending a text to a list appends its content to the list's content.
pub proof fn lemma_texts_view_push(before: Vec<String>, after: Vec<String>, s: String)
    requires
        after@ == before@.push(s),
    ensures
        texts_view(after) == texts_view(before).push(s@),
{
    assert(texts_view(after) =~= texts_view(before).push(s@));
}

/// The first `n` texts of a list, with `, ` between them.
pub open spec fn joined(parts: Seq<Seq<char>>, n: nat) -> Seq<char>
    decreases n,
{
    if n == 0 || n > parts.len() {
        Seq::empty()
    } else if n == 1 {
        parts[0]
    } else {
        joined(parts, (n - 1) as nat) + ", "@ + parts[n - 1]
    }
}

/// How a statement is written: as in the source, with each expression in
/// its written form and `;` at the end.
pub open spec fn statement_text(s: StatementView) -> Seq<char>
    decreases s,
{
    match s {
        StatementView::Let { name, right } => "let "@ + name + " = "@ + expression_text(right)
            + ";"@,
        StatementView::Return { value } => "return "@ + expression_text(value) + ";"@,
        StatementView::Expression { expression } => expression_text(expression) + ";"@,
    }
}

/// How the first `n` statements of a list are written, one behind the other.
pub open spec fn statements_text(ss: Seq<StatementView>, n: nat) -> Seq<char>
    decreases ss, n,
{
    if n == 0 || n > ss.len() {
        Seq::empty()
    } else {
        statements_text(ss, (n - 1) as nat) + statement_text(ss[n - 1])
    }
}

/// How a block is written: its statements between braces.
pub open spec fn block_text(ss: Seq<StatementView>) -> Seq<char>
    decreases ss, ss.len() + 1,
{
    "{"@ + statements_text(ss, ss.len()) + "}"@
}

/// How the first `n` expressions of a list are written, with `, ` between
/// them.
pub open spec fn expressions_text(es: Seq<ExpressionView>, n: nat) -> Seq<char>
    decreases es, n,
{
    if n == 0 || n > es.len() {
        Seq::empty()
    } else if n == 1 {
        expression_text(es[0])
    } else {
        expressions_text(es, (n - 1) as nat) + ", "@ + expression_text(es[n - 1])
    }
}

/// How an expression is written: prefix and infix expressions in
/// parentheses, so that the written form shows how operands are grouped; a
/// string literal between double quotes; a block between braces.
pub open spec fn expression_text(e: ExpressionView) -> Seq<char>
    decreases e,
{
    match e {
        ExpressionView::Identifier { value } => value,
        ExpressionView::IntegerLiteral { value } => decimal(value as int),
        ExpressionView::StringLiteral { value } => "\""@ + value + "\""@,
        ExpressionView::Prefix { operator, right } => "("@ + operator.symbol() + expression_text(
            *right,
        ) + ")"@,
        ExpressionView::Infix { left, operator, right } => "("@ + expression_text(*left) + " "@
            + operator.symbol() + " "@ + expression_text(*right) + ")"@,
        ExpressionView::Boolean { value } => boolean_text(value),
        ExpressionView::If { condition, consequence, alternative } => "if ("@ + expression_text(
            *condition,
        ) + ") "@ + block_text(consequence) + " "@ + match alternative {
            Some(block) => "else "@ + block_text(block),
            None => Seq::empty(),
        },
        ExpressionView::FnLiteral { param_names, body } => "fn("@ + joined(
            param_names,
            param_names.len(),
        ) + ") "@ + block_text(body),
        ExpressionView::CallExpression { left, arguments } => expression_text(*left) + "("@
            + expressions_text(arguments, arguments.len()) + ")"@,
        ExpressionView::Block { statements } => block_text(statements),
    }
}

/// Writes a list of statements, one behind the other.
#[verifier::loop_isolation(false)]
pub fn statements_to_string(statements: &Vec<Statement>) -> (text: String)
    ensures
        text@ == statements_text(statements_view(*statements), statements.len() as nat),
    decreases statements, 0nat,
{
    let ghost ss = statements_view(*statements);
    let mut text = String::from_str("");
    proof {
        reveal_strlit("");
        assert(text@ =~= statements_text(ss, 0));
    }
    let mut i: usize = 0;
    while i < statements.len()
        invariant
            i <= statements.len(),
            text@ == statements_text(ss, i as nat),
        decreases statements.len() - i,
    {
        let written = statements[i].to_string();
        text.append(written.as_str());
        i = i + 1;
    }
    text
}

/// Writes a list of texts with `, ` between them.
pub fn join_texts(parts: &Vec<String>) -> (text: String)
    ensures
        text@ == joined(texts_view(*parts), parts.len() as nat),
{
    let ghost ps = texts_view(*parts);
    let mut text = String::from_str("");
    proof {
        reveal_strlit("");
        assert(text@ =~= joined(ps, 0));
    }
    let mut i: usize = 0;
    while i < parts.len()
        invariant
            i <= parts.len(),
            ps == texts_view(*parts),
            text@ == joined(ps, i as nat),
        decreases parts.len() - i,
    {
        if i > 0 {
            text.append(", ");
        }
        text.append(parts[i].as_str());
        proof {
            assert(text@ =~= joined(ps, (i + 1) as nat));
        }
        i = i + 1;
    }
    text
}

impl Statement {
    /// The statement as it is written.
    pub fn to_string(&self) -> (text: String)
        ensures
            text@ == statement_text(self@),
        decreases self,
    {
        match self {
            Statement::Let { name, right } => {
                let mut text = String::from_str("let ");
                text.append(name.as_str());
                text.append(" = ");
                text.append(right.to_string().as_str());
                text.append(";");
                assert(text@ =~= statement_text(self@));
                text
            },
            Statement::Return { value } => {
                let mut text = String::from_str("return ");
                text.append(value.to_string().as_str());
                text.append(";");
                assert(text@ =~= statement_text(self@));
                text
            },
            Statement::Expression { expression } => {
                let mut text = expression.to_string();
                text.append(";");
                text
            },
        }
    }
}

impl BlockStatement {
    /// The block as it is written.
    pub fn to_string(&self) -> (text: String)
        ensures
            text@ == block_text(self@),
        decreases self,
    {
        let mut text = String::from_str("{");
        text.append(statements_to_string(&self.statements).as_str());
        text.append("}");
        assert(text@ =~= block_text(self@));
        text
    }
}

impl Program {
    /// The program as it is written.
    pub fn to_string(&self) -> (text: String)
        ensures
            text@ == statements_text(self@, self@.len()),
    {
        statements_to_string(&self.statements)
    }
}

impl Expression {
    /// The expression as it is written.
    #[verifier::loop_isolation(false)]
    pub fn to_string(&self) -> (text: String)
        ensures
            text@ == expression_text(self@),
        decreases self,
    {
        match self {
            Expression::Identifier { value } => value.clone(),
            Expression::IntegerLiteral { value } => integer_to_string(*value),
            Expression::StringLiteral { value } => {
                let mut text = String::from_str("\"");
                text.append(value.as_str());
                text.append("\"");
                text
            },
            Expression::Prefix { operator, right } => {
                let mut text = String::from_str("(");
                text.append(operator.to_string().as_str());
                text.append(right.to_string().as_str());
                text.append(")");
                assert(text@ =~= expression_text(self@));
                text
            },
            Expression::Infix { left, operator, right } => {
                let mut text = String::from_str("(");
                text.append(left.to_string().as_str());
                text.append(" ");
                text.append(operator.to_string().as_str());
                text.append(" ");
                text.append(right.to_string().as_str());
                text.append(")");
                assert(text@ =~= expression_text(self@));
                text
            },
            Expression::Boolean { value } => boolean_to_string(*value),
            Expression::If { condition, consequence, alternative } => {
                let mut text = String::from_str("if (");
                text.append(condition.to_string().as_str());
                text.append(") ");
                text.append(consequence.to_string().as_str());
                text.append(" ");
                match alternative {
                    Some(block) => {
                        text.append("else ");
                        text.append(block.to_string().as_str());
                    },
                    None => {},
                }
                assert(text@ =~= expression_text(self@));
                text
            },
            Expression::FnLiteral { param_names, body } => {
                let mut text = String::from_str("fn(");
                text.append(join_texts(param_names).as_str());
                text.append(") ");
                text.append(body.to_string().as_str());
                assert(text@ =~= expression_text(self@));
                text
            },
            Expression::CallExpression { left, arguments } => {
                let ghost es = expressions_view(*arguments);
                let mut text = left.to_string();
                text.append("(");
                let ghost head = text@;
                let mut i: usize = 0;
                assert(text@ =~= head + expressions_text(es, 0));
                while i < arguments.len()
                    invariant
                        i <= arguments.len(),
                        text@ == head + expressions_text(es, i as nat),
                    decreases arguments.len() - i,
                {
                    if i > 0 {
                        text.append(", ");
                    }
                    text.append(arguments[i].to_string().as_str());
                    proof {
                        assert(text@ =~= head + expressions_text(es, (i + 1) as nat));
                    }
                    i = i + 1;
                }
                text.append(")");
                assert(text@ =~= expression_text(self@));
                text
            },
            Expression::Block { statements } => {
                let mut text = String::from_str("{");
                text.append(statements_to_string(statements).as_str());
                text.append("}");
                assert(text@ =~= block_text(statements_view(*statements)));
                text
            },
        }
    }
}

} // verus!
