use crate::ast::expressions_view;
use crate::ast::lemma_expressions_view_push;
use crate::ast::lemma_statements_view_push;
use crate::ast::lemma_texts_view_push;
use crate::ast::statements_view;
use crate::ast::texts_view;
use crate::ast::BlockStatement;
use crate::ast::Expression;
use crate::ast::ExpressionView;
use crate::ast::InfixOperator;
use crate::ast::PrefixOperator;
use crate::ast::Program;
use crate::ast::Statement;
use crate::ast::StatementView;
use crate::lexer::lemma_tokens_unfold;
use crate::lexer::tokens_from;
use crate::lexer::Lexer;
use crate::text::integer_value;
use crate::text::parse_integer;
use crate::token::Token;
use crate::token::TokenType;
use crate::token::TokenView;
use vstd::prelude::*;

verus! {

/// An error of the parser.
#[derive(Debug)]
pub enum ParserError {
    UnexpectedToken { expected: TokenType, actual: Token },
    InvalidExpression { first_token: Token },
}

/// The content of an error of the parser.
pub enum ParserErrorView {
    UnexpectedToken { expected: TokenType, actual: TokenView },
    InvalidExpression { first_token: TokenView },
}

impl View for ParserError {
    type V = ParserErrorView;

    open spec fn view(&self) -> ParserErrorView {
        match self {
            ParserError::UnexpectedToken { expected, actual } => ParserErrorView::UnexpectedToken {
                expected: *expected,
                actual: actual@,
            },
            ParserError::InvalidExpression { first_token } => ParserErrorView::InvalidExpression {
                first_token: first_token@,
            },
        }
    }
}

/// How tightly an operator binds, from the loosest to the tightest.
#[derive(Debug, PartialEq, Eq, Structural, Clone, Copy)]
pub enum Precedence {
    LOWEST,
    /// `==` and `!=`
    EQUALS,
    /// `<` and `>`
    LESSGREATER,
    /// `+` and `-`
    SUM,
    /// `*` and `/`
    PRODUCT,
    /// `-x` and `!x`
    PREFIX,
    /// `f(x)`
    CALL,
}

impl Precedence {
    /// The place of the level in the order of levels.
    pub open spec fn rank(self) -> nat {
        match self {
            Precedence::LOWEST => 0,
            Precedence::EQUALS => 1,
            Precedence::LESSGREATER => 2,
            Precedence::SUM => 3,
            Precedence::PRODUCT => 4,
            Precedence::PREFIX => 5,
            Precedence::CALL => 6,
        }
    }

    /// The place of the level in the order of levels.
    pub fn level(&self) -> (level: u8)
        ensures
            level == self.rank(),
    {
        match self {
            Precedence::LOWEST => 0,
            Precedence::EQUALS => 1,
            Precedence::LESSGREATER => 2,
            Precedence::SUM => 3,
            Precedence::PRODUCT => 4,
            Precedence::PREFIX => 5,
            Precedence::CALL => 6,
        }
    }
}

/// How tightly a token binds where it stands between two operands.
pub open spec fn precedence_of(kind: TokenType) -> Precedence {
    match kind {
        TokenType::Eq => Precedence::EQUALS,
        TokenType::NotEq => Precedence::EQUALS,
        TokenType::Lt => Precedence::LESSGREATER,
        TokenType::Gt => Precedence::LESSGREATER,
        TokenType::Plus => Precedence::SUM,
        TokenType::Minus => Precedence::SUM,
        TokenType::Slash => Precedence::PRODUCT,
        TokenType::Asterisk => Precedence::PRODUCT,
        TokenType::LParen => Precedence::CALL,
        _ => Precedence::LOWEST,
    }
}

/// The infix operator that a token writes, if it writes one.
pub open spec fn infix_operator_of(kind: TokenType) -> Option<InfixOperator> {
    match kind {
        TokenType::Plus => Some(InfixOperator::Plus),
        TokenType::Minus => Some(InfixOperator::Minus),
        TokenType::Asterisk => Some(InfixOperator::Multiply),
        TokenType::Slash => Some(InfixOperator::Divide),
        TokenType::Gt => Some(InfixOperator::Gt),
        TokenType::Lt => Some(InfixOperator::Lt),
        TokenType::Eq => Some(InfixOperator::Eq),
        TokenType::NotEq => Some(InfixOperator::NotEq),
        _ => None,
    }
}

/// The token at the front of the tokens that remain; `Eof` where none
/// remains.
pub open spec fn first(ts: Seq<TokenView>) -> TokenView {
    if ts.len() > 0 {
        ts[0]
    } else {
        TokenView::plain(TokenType::Eof)
    }
}

/// The token behind the front of the tokens that remain; `Eof` where there
/// is none.
pub open spec fn second(ts: Seq<TokenView>) -> TokenView {
    if ts.len() > 1 {
        ts[1]
    } else {
        TokenView::plain(TokenType::Eof)
    }
}

/// The tokens that remain once the parser has moved one token on.
pub open spec fn advance(ts: Seq<TokenView>) -> Seq<TokenView> {
    if ts.len() > 0 {
        ts.subrange(1, ts.len() as int)
    } else {
        ts
    }
}

/// The error for a token of another type than the grammar expects.
pub open spec fn unexpected(expected: TokenType, ts: Seq<TokenView>) -> ParserErrorView {
    ParserErrorView::UnexpectedToken { expected, actual: first(ts) }
}

/// The error for a token with which no expression begins.
pub open spec fn no_expression(ts: Seq<TokenView>) -> ParserErrorView {
    ParserErrorView::InvalidExpression { first_token: first(ts) }
}

/// What a parsing step yields, and the tokens that remain behind it. The
/// front of those tokens is the last token of what was parsed.
///
/// A step that yields something leaves no more tokens than it was given, and
/// at least one (see `lemma_expression_bounds` and the lemmas beside it).
/// Where a definition below goes on with the tokens that a step has left, it
/// tests their number first, which is what shows that the definition ends;
/// the test always holds.
pub type Parsed<T> = (Result<T, ParserErrorView>, Seq<TokenView>);

/// What stands behind a left operand.
pub enum ParsedInfix {
    Infix { right: Expression, operator: InfixOperator },
    Call { args: Vec<Expression> },
}

/// The content of what stands behind a left operand.
pub enum ParsedInfixView {
    Infix { right: ExpressionView, operator: InfixOperator },
    Call { args: Seq<ExpressionView> },
}

impl View for ParsedInfix {
    type V = ParsedInfixView;

    open spec fn view(&self) -> ParsedInfixView {
        match self {
            ParsedInfix::Infix { right, operator } => ParsedInfixView::Infix {
                right: right@,
                operator: *operator,
            },
            ParsedInfix::Call { args } => ParsedInfixView::Call { args: expressions_view(*args) },
        }
    }
}

/// The statements of a program: statement after statement up to the end of
/// the tokens, or the first error.
pub open spec fn parse_program_spec(ts: Seq<TokenView>) -> Result<
    Seq<StatementView>,
    ParserErrorView,
> {
    parse_program_rest(ts, Seq::empty())
}

/// The statements of a program of which `done` are parsed.
pub open spec fn parse_program_rest(ts: Seq<TokenView>, done: Seq<StatementView>) -> Result<
    Seq<StatementView>,
    ParserErrorView,
>
    decreases ts.len(), 20nat,
{
    if first(ts).kind == TokenType::Eof {
        Ok(done)
    } else {
        let (result, ts1) = parse_statement_spec(ts);
        match result {
            // The test on the number of tokens always holds.
            Ok(statement) => if advance(ts1).len() < ts.len() {
                parse_program_rest(advance(ts1), done.push(statement))
            } else {
                Ok(done.push(statement))
            },
            Err(error) => Err(error),
        }
    }
}

/// A statement: `let` and `return` start their statements, anything else an
/// expression statement.
pub open spec fn parse_statement_spec(ts: Seq<TokenView>) -> Parsed<StatementView>
    decreases ts.len(), 10nat,
{
    if first(ts).kind == TokenType::Let {
        parse_let_statement_spec(ts)
    } else if first(ts).kind == TokenType::Return {
        parse_return_statement_spec(ts)
    } else {
        parse_expression_statement_spec(ts)
    }
}

/// `let`, an identifier, `=`, an expression and `;`.
pub open spec fn parse_let_statement_spec(ts: Seq<TokenView>) -> Parsed<StatementView>
    decreases ts.len(), 9nat,
{
    let ts1 = advance(ts);
    let ts2 = advance(ts1);
    let ts3 = advance(ts2);
    if first(ts).kind != TokenType::Let {
        (Err(unexpected(TokenType::Let, ts)), ts)
    } else if first(ts1).kind != TokenType::Ident {
        (Err(unexpected(TokenType::Ident, ts1)), ts1)
    } else if first(ts2).kind != TokenType::Assign {
        (Err(unexpected(TokenType::Assign, ts2)), ts2)
    } else {
        let (result, ts4) = parse_expression_spec(ts3, Precedence::LOWEST);
        match result {
            Ok(right) => if first(advance(ts4)).kind != TokenType::Semicolon {
                (Err(unexpected(TokenType::Semicolon, advance(ts4))), advance(ts4))
            } else {
                (Ok(StatementView::Let { name: first(ts1).literal, right }), advance(ts4))
            },
            Err(error) => (Err(error), ts4),
        }
    }
}

/// `return`, an expression and `;`.
pub open spec fn parse_return_statement_spec(ts: Seq<TokenView>) -> Parsed<StatementView>
    decreases ts.len(), 9nat,
{
    if first(ts).kind != TokenType::Return {
        (Err(unexpected(TokenType::Return, ts)), ts)
    } else {
        let (result, ts1) = parse_expression_spec(advance(ts), Precedence::LOWEST);
        match result {
            Ok(value) => if first(advance(ts1)).kind != TokenType::Semicolon {
                (Err(unexpected(TokenType::Semicolon, advance(ts1))), advance(ts1))
            } else {
                (Ok(StatementView::Return { value }), advance(ts1))
            },
            Err(error) => (Err(error), ts1),
        }
    }
}

/// An expression, and the `;` behind it if there is one.
pub open spec fn parse_expression_statement_spec(ts: Seq<TokenView>) -> Parsed<StatementView>
    decreases ts.len(), 9nat,
{
    let (result, ts1) = parse_expression_spec(ts, Precedence::LOWEST);
    match result {
        Ok(expression) => (
            Ok(StatementView::Expression { expression }),
            if second(ts1).kind == TokenType::Semicolon {
                advance(ts1)
            } else {
                ts1
            },
        ),
        Err(error) => (Err(error), ts1),
    }
}

/// An expression whose operators bind tighter than `precedence`: what the
/// front token starts, then every operator and operand behind it that binds
/// tighter than `precedence`.
pub open spec fn parse_expression_spec(ts: Seq<TokenView>, precedence: Precedence) -> Parsed<
    ExpressionView,
>
    decreases ts.len(), 8nat,
{
    let kind = first(ts).kind;
    let (start, ts1): Parsed<ExpressionView> = if kind == TokenType::Ident {
        (Ok(ExpressionView::Identifier { value: first(ts).literal }), ts)
    } else if kind == TokenType::Int {
        parse_integer_literal_spec(ts)
    } else if kind == TokenType::Bang || kind == TokenType::Minus {
        parse_prefix_expression_spec(ts)
    } else if kind == TokenType::True || kind == TokenType::False {
        (Ok(ExpressionView::Boolean { value: kind == TokenType::True }), ts)
    } else if kind == TokenType::LParen {
        parse_grouped_expression_spec(ts)
    } else if kind == TokenType::LBrace {
        let (block, ts1) = parse_block_statement_spec(ts);
        match block {
            Ok(statements) => (Ok(ExpressionView::Block { statements }), ts1),
            Err(error) => (Err(error), ts1),
        }
    } else if kind == TokenType::If {
        parse_if_expression_spec(ts)
    } else if kind == TokenType::Function {
        parse_fn_literal_spec(ts)
    } else if kind == TokenType::String {
        (Ok(ExpressionView::StringLiteral { value: first(ts).literal }), ts)
    } else {
        (Err(no_expression(ts)), ts)
    };
    match start {
        // The test on the number of tokens always holds.
        Ok(left) => if ts1.len() <= ts.len() {
            parse_infix_rest(left, ts1, precedence)
        } else {
            (Ok(left), ts1)
        },
        Err(error) => (Err(error), ts1),
    }
}

/// An integer literal: the integer that the digits write. Digits that write
/// a number too great for a 64-bit signed integer begin no expression.
pub open spec fn parse_integer_literal_spec(ts: Seq<TokenView>) -> Parsed<ExpressionView> {
    if first(ts).kind != TokenType::Int {
        (Err(unexpected(TokenType::Int, ts)), ts)
    } else {
        match integer_value(first(ts).literal) {
            Some(value) => (Ok(ExpressionView::IntegerLiteral { value }), ts),
            None => (Err(no_expression(ts)), ts),
        }
    }
}

/// The operators and operands behind the left operand `left`, as long as the
/// next token is no `;` and binds tighter than `precedence`; each one found
/// is joined to what stands left of it.
pub open spec fn parse_infix_rest(
    left: ExpressionView,
    ts: Seq<TokenView>,
    precedence: Precedence,
) -> Parsed<ExpressionView>
    decreases ts.len(), 1nat,
{
    if ts.len() > 1 && second(ts).kind != TokenType::Semicolon && precedence.rank()
        < precedence_of(second(ts).kind).rank() {
        match parse_infix_expression_spec(advance(ts)) {
            Some((Ok(ParsedInfixView::Infix { right, operator }), ts1)) => {
                let joined = ExpressionView::Infix {
                    left: Box::new(left),
                    operator,
                    right: Box::new(right),
                };
                // The test on the number of tokens always holds.
                if ts1.len() < ts.len() {
                    parse_infix_rest(joined, ts1, precedence)
                } else {
                    (Ok(joined), ts1)
                }
            },
            Some((Ok(ParsedInfixView::Call { args }), ts1)) => {
                let joined = ExpressionView::CallExpression {
                    left: Box::new(left),
                    arguments: args,
                };
                // The test on the number of tokens always holds.
                if ts1.len() < ts.len() {
                    parse_infix_rest(joined, ts1, precedence)
                } else {
                    (Ok(joined), ts1)
                }
            },
            Some((Err(error), ts1)) => (Err(error), ts1),
            None => (Ok(left), advance(ts)),
        }
    } else {
        (Ok(left), ts)
    }
}

/// What stands behind a left operand, from its first token on: `(` starts
/// the arguments of a call; an infix operator is followed by its right
/// operand, in which only tighter operators are taken; any other token is
/// none of the two.
pub open spec fn parse_infix_expression_spec(ts: Seq<TokenView>) -> Option<Parsed<ParsedInfixView>>
    decreases ts.len(), 7nat,
{
    if first(ts).kind == TokenType::LParen {
        let (result, ts1) = parse_call_args_spec(ts);
        match result {
            Ok(args) => Some((Ok(ParsedInfixView::Call { args }), ts1)),
            Err(error) => Some((Err(error), ts1)),
        }
    } else {
        match infix_operator_of(first(ts).kind) {
            Some(operator) => if ts.len() > 0 {
                let (result, ts1) = parse_expression_spec(
                    advance(ts),
                    precedence_of(first(ts).kind),
                );
                match result {
                    Ok(right) => Some((Ok(ParsedInfixView::Infix { right, operator }), ts1)),
                    Err(error) => Some((Err(error), ts1)),
                }
            } else {
                None
            },
            None => None,
        }
    }
}

/// `!` or `-` and its operand, in which only calls bind tighter.
pub open spec fn parse_prefix_expression_spec(ts: Seq<TokenView>) -> Parsed<ExpressionView>
    decreases ts.len(), 7nat,
{
    if ts.len() > 0 && (first(ts).kind == TokenType::Bang || first(ts).kind == TokenType::Minus) {
        let operator = if first(ts).kind == TokenType::Bang {
            PrefixOperator::Bang
        } else {
            PrefixOperator::Minus
        };
        let (result, ts1) = parse_expression_spec(advance(ts), Precedence::PREFIX);
        match result {
            Ok(right) => (Ok(ExpressionView::Prefix { operator, right: Box::new(right) }), ts1),
            Err(error) => (Err(error), ts1),
        }
    } else {
        (Err(no_expression(ts)), ts)
    }
}

/// `(`, an expression and `)`.
pub open spec fn parse_grouped_expression_spec(ts: Seq<TokenView>) -> Parsed<ExpressionView>
    decreases ts.len(), 7nat,
{
    if ts.len() == 0 || first(ts).kind != TokenType::LParen {
        (Err(unexpected(TokenType::LParen, ts)), ts)
    } else {
        let (result, ts1) = parse_expression_spec(advance(ts), Precedence::LOWEST);
        match result {
            Ok(expression) => if first(advance(ts1)).kind != TokenType::RParen {
                (Err(unexpected(TokenType::RParen, advance(ts1))), advance(ts1))
            } else {
                (Ok(expression), advance(ts1))
            },
            Err(error) => (Err(error), ts1),
        }
    }
}

/// `if`, the condition in parentheses, a block, and where `else` follows,
/// `else` and a block.
pub open spec fn parse_if_expression_spec(ts: Seq<TokenView>) -> Parsed<ExpressionView>
    decreases ts.len(), 7nat,
{
    let ts1 = advance(ts);
    let ts2 = advance(ts1);
    if ts.len() == 0 || first(ts).kind != TokenType::If {
        (Err(unexpected(TokenType::If, ts)), ts)
    } else if first(ts1).kind != TokenType::LParen {
        (Err(unexpected(TokenType::LParen, ts1)), ts1)
    } else {
        let (tested, ts3) = parse_expression_spec(ts2, Precedence::LOWEST);
        match tested {
            Ok(condition) => {
                let ts4 = advance(ts3);
                let ts5 = advance(ts4);
                if first(ts4).kind != TokenType::RParen {
                    (Err(unexpected(TokenType::RParen, ts4)), ts4)
                // The test on the number of tokens never holds.
                } else if ts5.len() >= ts.len() {
                    (Err(unexpected(TokenType::LBrace, ts5)), ts5)
                } else {
                    let (first_block, ts6) = parse_block_statement_spec(ts5);
                    match first_block {
                        Ok(consequence) => {
                            let ts7 = advance(advance(ts6));
                            if second(ts6).kind != TokenType::Else {
                                (
                                    Ok(
                                        ExpressionView::If {
                                            condition: Box::new(condition),
                                            consequence,
                                            alternative: None,
                                        },
                                    ),
                                    ts6,
                                )
                            // The test on the number of tokens never holds.
                            } else if ts7.len() >= ts.len() {
                                (Err(unexpected(TokenType::LBrace, ts7)), ts7)
                            } else {
                                let (second_block, ts8) = parse_block_statement_spec(ts7);
                                match second_block {
                                    Ok(alternative) => (
                                        Ok(
                                            ExpressionView::If {
                                                condition: Box::new(condition),
                                                consequence,
                                                alternative: Some(alternative),
                                            },
                                        ),
                                        ts8,
                                    ),
                                    Err(error) => (Err(error), ts8),
                                }
                            }
                        },
                        Err(error) => (Err(error), ts6),
                    }
                }
            },
            Err(error) => (Err(error), ts3),
        }
    }
}

/// The parameters of a function literal up to the closing parenthesis, of
/// which `done` are parsed: identifiers, each with or without a comma behind
/// it.
pub open spec fn parse_parameters_spec(ts: Seq<TokenView>, done: Seq<Seq<char>>) -> Parsed<
    Seq<Seq<char>>,
>
    decreases ts.len(),
{
    if first(ts).kind == TokenType::RParen {
        (Ok(done), ts)
    } else if ts.len() == 0 || first(ts).kind != TokenType::Ident {
        (Err(unexpected(TokenType::Ident, ts)), ts)
    } else {
        let ts1 = advance(ts);
        let ts2 = if first(ts1).kind == TokenType::Comma {
            advance(ts1)
        } else {
            ts1
        };
        parse_parameters_spec(ts2, done.push(first(ts).literal))
    }
}

/// `fn`, the parameters in parentheses, and a block.
pub open spec fn parse_fn_literal_spec(ts: Seq<TokenView>) -> Parsed<ExpressionView>
    decreases ts.len(), 7nat,
{
    let ts1 = advance(ts);
    let ts2 = advance(ts1);
    if ts.len() == 0 || first(ts).kind != TokenType::Function {
        (Err(unexpected(TokenType::Function, ts)), ts)
    } else if first(ts1).kind != TokenType::LParen {
        (Err(unexpected(TokenType::LParen, ts1)), ts1)
    } else {
        let (parameters, ts3) = parse_parameters_spec(ts2, Seq::empty());
        match parameters {
            Ok(param_names) => {
                let ts4 = advance(ts3);
                // The test on the number of tokens never holds.
                if ts4.len() >= ts.len() {
                    (Err(unexpected(TokenType::LBrace, ts4)), ts4)
                } else {
                    let (block, ts5) = parse_block_statement_spec(ts4);
                    match block {
                        Ok(body) => (Ok(ExpressionView::FnLiteral { param_names, body }), ts5),
                        Err(error) => (Err(error), ts5),
                    }
                }
            },
            Err(error) => (Err(error), ts3),
        }
    }
}

/// `{`, statements, and `}`.
pub open spec fn parse_block_statement_spec(ts: Seq<TokenView>) -> Parsed<Seq<StatementView>>
    decreases ts.len(), 6nat,
{
    if ts.len() == 0 || first(ts).kind != TokenType::LBrace {
        (Err(unexpected(TokenType::LBrace, ts)), ts)
    } else {
        parse_block_rest(advance(ts), Seq::empty())
    }
}

/// The statements of a block up to its closing brace, of which `done` are
/// parsed.
pub open spec fn parse_block_rest(ts: Seq<TokenView>, done: Seq<StatementView>) -> Parsed<
    Seq<StatementView>,
>
    decreases ts.len(), 15nat,
{
    if first(ts).kind == TokenType::RBrace {
        (Ok(done), ts)
    } else {
        let (result, ts1) = parse_statement_spec(ts);
        match result {
            // The test on the number of tokens always holds.
            Ok(statement) => if advance(ts1).len() < ts.len() {
                parse_block_rest(advance(ts1), done.push(statement))
            } else {
                (Err(unexpected(TokenType::RBrace, advance(ts1))), advance(ts1))
            },
            Err(error) => (Err(error), ts1),
        }
    }
}

/// `(`, arguments, and `)`.
pub open spec fn parse_call_args_spec(ts: Seq<TokenView>) -> Parsed<Seq<ExpressionView>>
    decreases ts.len(), 6nat,
{
    if ts.len() == 0 || first(ts).kind != TokenType::LParen {
        (Err(unexpected(TokenType::LParen, ts)), ts)
    } else {
        parse_call_args_rest(advance(ts), Seq::empty())
    }
}

/// The arguments of a call up to the closing parenthesis, of which `done`
/// are parsed: expressions, each with or without a comma behind it.
pub open spec fn parse_call_args_rest(ts: Seq<TokenView>, done: Seq<ExpressionView>) -> Parsed<
    Seq<ExpressionView>,
>
    decreases ts.len(), 9nat,
{
    if first(ts).kind == TokenType::RParen {
        (Ok(done), ts)
    } else {
        let (result, ts1) = parse_expression_spec(ts, Precedence::LOWEST);
        match result {
            Ok(argument) => {
                let ts2 = advance(ts1);
                let ts3 = if first(ts2).kind == TokenType::Comma {
                    advance(ts2)
                } else {
                    ts2
                };
                // The test on the number of tokens always holds.
                if ts3.len() < ts.len() {
                    parse_call_args_rest(ts3, done.push(argument))
                } else {
                    (Err(unexpected(TokenType::RParen, ts3)), ts3)
                }
            },
            Err(error) => (Err(error), ts1),
        }
    }
}

/// A statement that is parsed ends on a token, and behind tokens that were
/// there before.
pub proof fn lemma_statement_bounds(ts: Seq<TokenView>)
    ensures
        parse_statement_spec(ts).0 is Ok ==> 1 <= parse_statement_spec(ts).1.len() <= ts.len(),
    decreases ts.len(), 10nat,
{
    if first(ts).kind == TokenType::Let {
        lemma_expression_bounds(advance(advance(advance(ts))), Precedence::LOWEST);
    } else if first(ts).kind == TokenType::Return {
        lemma_expression_bounds(advance(ts), Precedence::LOWEST);
    } else {
        lemma_expression_bounds(ts, Precedence::LOWEST);
    }
}

/// An expression that is parsed ends on a token, and behind tokens that were
/// there before.
pub proof fn lemma_expression_bounds(ts: Seq<TokenView>, precedence: Precedence)
    ensures
        parse_expression_spec(ts, precedence).0 is Ok ==> 1 <= parse_expression_spec(
            ts,
            precedence,
        ).1.len() <= ts.len(),
    decreases ts.len(), 8nat,
{
    lemma_expression_start_bounds(ts);
    let (start, ts1) = parse_expression_start(ts);
    if start is Ok {
        lemma_infix_rest_bounds(start->Ok_0, ts1, precedence);
    }
}

/// What the front token of an expression starts.
pub open spec fn parse_expression_start(ts: Seq<TokenView>) -> Parsed<ExpressionView> {
    let kind = first(ts).kind;
    if kind == TokenType::Ident {
        (Ok(ExpressionView::Identifier { value: first(ts).literal }), ts)
    } else if kind == TokenType::Int {
        parse_integer_literal_spec(ts)
    } else if kind == TokenType::Bang || kind == TokenType::Minus {
        parse_prefix_expression_spec(ts)
    } else if kind == TokenType::True || kind == TokenType::False {
        (Ok(ExpressionView::Boolean { value: kind == TokenType::True }), ts)
    } else if kind == TokenType::LParen {
        parse_grouped_expression_spec(ts)
    } else if kind == TokenType::LBrace {
        let (block, ts1) = parse_block_statement_spec(ts);
        match block {
            Ok(statements) => (Ok(ExpressionView::Block { statements }), ts1),
            Err(error) => (Err(error), ts1),
        }
    } else if kind == TokenType::If {
        parse_if_expression_spec(ts)
    } else if kind == TokenType::Function {
        parse_fn_literal_spec(ts)
    } else if kind == TokenType::String {
        (Ok(ExpressionView::StringLiteral { value: first(ts).literal }), ts)
    } else {
        (Err(no_expression(ts)), ts)
    }
}

/// What the front token of an expression starts ends on a token, and behind
/// tokens that were there before.
pub proof fn lemma_expression_start_bounds(ts: Seq<TokenView>)
    ensures
        parse_expression_start(ts).0 is Ok ==> 1 <= parse_expression_start(ts).1.len()
            <= ts.len(),
        parse_expression_start(ts).0 is Ok ==> forall|precedence: Precedence|
            #[trigger] parse_expression_spec(ts, precedence) == parse_infix_rest(
                parse_expression_start(ts).0->Ok_0,
                parse_expression_start(ts).1,
                precedence,
            ),
        parse_expression_start(ts).0 is Err ==> forall|precedence: Precedence|
            (#[trigger] parse_expression_spec(ts, precedence)).0 == Err::<
                ExpressionView,
                ParserErrorView,
            >(parse_expression_start(ts).0->Err_0),
    decreases ts.len(), 7nat, 1nat,
{
    let kind = first(ts).kind;
    if kind == TokenType::Bang || kind == TokenType::Minus {
        lemma_expression_bounds(advance(ts), Precedence::PREFIX);
    } else if kind == TokenType::LParen {
        lemma_expression_bounds(advance(ts), Precedence::LOWEST);
    } else if kind == TokenType::LBrace {
        lemma_block_bounds(ts);
    } else if kind == TokenType::If {
        lemma_if_bounds(ts);
    } else if kind == TokenType::Function {
        lemma_fn_bounds(ts);
    }
}

/// What is parsed behind a left operand ends on a token, and behind tokens
/// that were there before.
pub proof fn lemma_infix_rest_bounds(
    left: ExpressionView,
    ts: Seq<TokenView>,
    precedence: Precedence,
)
    requires
        ts.len() >= 1,
    ensures
        parse_infix_rest(left, ts, precedence).0 is Ok ==> 1 <= parse_infix_rest(
            left,
            ts,
            precedence,
        ).1.len() <= ts.len(),
    decreases ts.len(), 1nat,
{
    if ts.len() > 1 && second(ts).kind != TokenType::Semicolon && precedence.rank()
        < precedence_of(second(ts).kind).rank() {
        lemma_infix_expression_bounds(advance(ts));
        match parse_infix_expression_spec(advance(ts)) {
            Some((Ok(ParsedInfixView::Infix { right, operator }), ts1)) => {
                let joined = ExpressionView::Infix {
                    left: Box::new(left),
                    operator,
                    right: Box::new(right),
                };
                lemma_infix_rest_bounds(joined, ts1, precedence);
            },
            Some((Ok(ParsedInfixView::Call { args }), ts1)) => {
                let joined = ExpressionView::CallExpression {
                    left: Box::new(left),
                    arguments: args,
                };
                lemma_infix_rest_bounds(joined, ts1, precedence);
            },
            _ => {},
        }
    }
}

/// An operator with its right operand, or the arguments of a call, end on a
/// token, and behind tokens that were there before.
pub proof fn lemma_infix_expression_bounds(ts: Seq<TokenView>)
    ensures
        match parse_infix_expression_spec(ts) {
            Some((Ok(_), out)) => 1 <= out.len() <= ts.len(),
            _ => true,
        },
    decreases ts.len(), 7nat,
{
    if first(ts).kind == TokenType::LParen {
        lemma_call_args_bounds(ts);
    } else if infix_operator_of(first(ts).kind) is Some && ts.len() > 0 {
        lemma_expression_bounds(advance(ts), precedence_of(first(ts).kind));
    }
}

/// An `if` expression that is parsed ends on a token, and behind tokens that
/// were there before.
pub proof fn lemma_if_bounds(ts: Seq<TokenView>)
    ensures
        parse_if_expression_spec(ts).0 is Ok ==> 1 <= parse_if_expression_spec(ts).1.len()
            <= ts.len(),
    decreases ts.len(), 7nat, 0nat,
{
    let ts2 = advance(advance(ts));
    if ts.len() > 0 && first(ts).kind == TokenType::If && first(advance(ts)).kind
        == TokenType::LParen {
        lemma_expression_bounds(ts2, Precedence::LOWEST);
        let (tested, ts3) = parse_expression_spec(ts2, Precedence::LOWEST);
        if tested is Ok {
            let ts5 = advance(advance(ts3));
            if ts5.len() < ts.len() {
                lemma_block_bounds(ts5);
                let (first_block, ts6) = parse_block_statement_spec(ts5);
                if first_block is Ok {
                    let ts7 = advance(advance(ts6));
                    if ts7.len() < ts.len() {
                        lemma_block_bounds(ts7);
                    }
                }
            }
        }
    }
}

/// The parameters that are parsed end on a token, and behind tokens that
/// were there before.
pub proof fn lemma_parameters_bounds(ts: Seq<TokenView>, done: Seq<Seq<char>>)
    ensures
        parse_parameters_spec(ts, done).0 is Ok ==> 1 <= parse_parameters_spec(ts, done).1.len()
            <= ts.len(),
    decreases ts.len(),
{
    if first(ts).kind == TokenType::RParen {
    } else if ts.len() == 0 || first(ts).kind != TokenType::Ident {
    } else {
        let ts1 = advance(ts);
        let ts2 = if first(ts1).kind == TokenType::Comma {
            advance(ts1)
        } else {
            ts1
        };
        lemma_parameters_bounds(ts2, done.push(first(ts).literal));
    }
}

/// A function literal that is parsed ends on a token, and behind tokens that
/// were there before.
pub proof fn lemma_fn_bounds(ts: Seq<TokenView>)
    ensures
        parse_fn_literal_spec(ts).0 is Ok ==> 1 <= parse_fn_literal_spec(ts).1.len() <= ts.len(),
    decreases ts.len(), 7nat, 0nat,
{
    let ts2 = advance(advance(ts));
    if ts.len() > 0 && first(ts).kind == TokenType::Function && first(advance(ts)).kind
        == TokenType::LParen {
        lemma_parameters_bounds(ts2, Seq::empty());
        let (parameters, ts3) = parse_parameters_spec(ts2, Seq::empty());
        if parameters is Ok {
            let ts4 = advance(ts3);
            if ts4.len() < ts.len() {
                lemma_block_bounds(ts4);
            }
        }
    }
}

/// A block that is parsed ends on a token, and behind tokens that were there
/// before.
pub proof fn lemma_block_bounds(ts: Seq<TokenView>)
    ensures
        parse_block_statement_spec(ts).0 is Ok ==> 1 <= parse_block_statement_spec(ts).1.len()
            <= ts.len(),
    decreases ts.len(), 6nat,
{
    if !(ts.len() == 0 || first(ts).kind != TokenType::LBrace) {
        lemma_block_rest_bounds(advance(ts), Seq::empty());
    }
}

/// The rest of a block ends on a token, and behind tokens that were there
/// before.
pub proof fn lemma_block_rest_bounds(ts: Seq<TokenView>, done: Seq<StatementView>)
    ensures
        parse_block_rest(ts, done).0 is Ok ==> 1 <= parse_block_rest(ts, done).1.len()
            <= ts.len(),
    decreases ts.len(), 15nat,
{
    if first(ts).kind != TokenType::RBrace {
        lemma_statement_bounds(ts);
        let (result, ts1) = parse_statement_spec(ts);
        if result is Ok && advance(ts1).len() < ts.len() {
            lemma_block_rest_bounds(advance(ts1), done.push(result->Ok_0));
        }
    }
}

/// The arguments of a call end on a token, and behind tokens that were
/// there before.
pub proof fn lemma_call_args_bounds(ts: Seq<TokenView>)
    ensures
        parse_call_args_spec(ts).0 is Ok ==> 1 <= parse_call_args_spec(ts).1.len() <= ts.len(),
    decreases ts.len(), 6nat,
{
    if !(ts.len() == 0 || first(ts).kind != TokenType::LParen) {
        lemma_call_args_rest_bounds(advance(ts), Seq::empty());
    }
}

/// The rest of the arguments of a call ends on a token, and behind tokens
/// that were there before.
pub proof fn lemma_call_args_rest_bounds(ts: Seq<TokenView>, done: Seq<ExpressionView>)
    ensures
        parse_call_args_rest(ts, done).0 is Ok ==> 1 <= parse_call_args_rest(ts, done).1.len()
            <= ts.len(),
    decreases ts.len(), 9nat,
{
    if first(ts).kind != TokenType::RParen {
        lemma_expression_bounds(ts, Precedence::LOWEST);
        let (result, ts1) = parse_expression_spec(ts, Precedence::LOWEST);
        if result is Ok {
            let ts2 = advance(ts1);
            let ts3 = if first(ts2).kind == TokenType::Comma {
                advance(ts2)
            } else {
                ts2
            };
            if ts3.len() < ts.len() {
                lemma_call_args_rest_bounds(ts3, done.push(result->Ok_0));
            }
        }
    }
}

/// The content of what a parsing step returns.
pub open spec fn parsed_view<T: View>(result: Result<T, ParserError>) -> Result<
    T::V,
    ParserErrorView,
> {
    match result {
        Ok(value) => Ok(value@),
        Err(error) => Err(error@),
    }
}

/// The content of the arguments that a parsing step returns.
pub open spec fn parsed_list_view(result: Result<Vec<Expression>, ParserError>) -> Result<
    Seq<ExpressionView>,
    ParserErrorView,
> {
    match result {
        Ok(arguments) => Ok(expressions_view(arguments)),
        Err(error) => Err(error@),
    }
}

/// A parser over the tokens of a lexer, with the current token and the one
/// behind it in hand.
pub struct Parser<'a> {
    lexer: &'a mut Lexer,
    cur_token: Token,
    peek_token: Token,
}

impl<'a> View for Parser<'a> {
    type V = Seq<TokenView>;

    /// The tokens that remain, from the current one on, without the final
    /// `Eof`.
    closed spec fn view(&self) -> Seq<TokenView> {
        if self.cur_token@.kind == TokenType::Eof {
            Seq::empty()
        } else if self.peek_token@.kind == TokenType::Eof {
            seq![self.cur_token@]
        } else {
            seq![self.cur_token@, self.peek_token@] + self.lexer.remaining()
        }
    }
}

/// An error for a token of another type than the grammar expects.
pub fn parser_err<T>(expected_type: TokenType, actual: &Token) -> (result: Result<T, ParserError>)
    ensures
        result is Err,
        result->Err_0@ == (ParserErrorView::UnexpectedToken { expected: expected_type, actual: actual@ }),
{
    Err(ParserError::UnexpectedToken { expected: expected_type, actual: actual.duplicate() })
}

/// How tightly a token binds where it stands between two operands.
pub fn precedence_for_token_type(token_type: &TokenType) -> (precedence: Precedence)
    ensures
        precedence == precedence_of(*token_type),
{
    match token_type {
        TokenType::Eq | TokenType::NotEq => Precedence::EQUALS,
        TokenType::Lt | TokenType::Gt => Precedence::LESSGREATER,
        TokenType::Plus | TokenType::Minus => Precedence::SUM,
        TokenType::Slash | TokenType::Asterisk => Precedence::PRODUCT,
        TokenType::LParen => Precedence::CALL,
        _ => Precedence::LOWEST,
    }
}

impl<'a> Parser<'a> {
    /// What holds of every parser: behind `Eof` it holds `Eof`, and its lexer
    /// has then reached the end.
    pub closed spec fn wf(&self) -> bool {
        &&& self.lexer.wf()
        &&& self.cur_token@.kind == TokenType::Eof ==> self.peek_token@.kind == TokenType::Eof
        &&& self.peek_token@.kind == TokenType::Eof ==> self.lexer.remaining()
            == Seq::<TokenView>::empty()
        &&& self.cur_token@ == first(self@)
        &&& self.peek_token@ == second(self@)
    }

    /// A parser at the start of what the lexer has yet to read.
    pub fn new(lexer: &'a mut Lexer) -> (parser: Parser<'a>)
        requires
            old(lexer).wf(),
        ensures
            parser.wf(),
            parser@ == tokens_from(old(lexer)@.input, old(lexer)@.position),
    {
        proof {
            lexer.lemma_position_in_text();
            lemma_tokens_unfold(lexer@.input, lexer@.position);
        }
        let first_token = lexer.next_token();
        proof {
            lemma_tokens_unfold(lexer@.input, lexer@.position);
        }
        let second_token = lexer.next_token();
        proof {
            lexer.lemma_position_in_text();
            lemma_tokens_unfold(lexer@.input, lexer@.position);
        }
        let parser = Parser { lexer: lexer, cur_token: first_token, peek_token: second_token };
        assert(parser@ =~= tokens_from(old(lexer)@.input, old(lexer)@.position));
        parser
    }

    /// Moves one token on.
    pub fn next_token(&mut self)
        requires
            old(self).wf(),
        ensures
            final(self).wf(),
            final(self)@ == advance(old(self)@),
    {
        proof {
            self.lexer.lemma_position_in_text();
            lemma_tokens_unfold(self.lexer@.input, self.lexer@.position);
        }
        std::mem::swap(&mut self.cur_token, &mut self.peek_token);
        self.peek_token = self.lexer.next_token();
        proof {
            self.lexer.lemma_position_in_text();
            lemma_tokens_unfold(self.lexer@.input, self.lexer@.position);
            assert(self@ =~= advance(old(self)@));
        }
    }

    /// The type of the current token.
    pub fn cur_type(&self) -> (kind: TokenType)
        requires
            self.wf(),
        ensures
            kind == first(self@).kind,
    {
        self.cur_token.token_type()
    }

    /// The type of the token behind the current one.
    pub fn peek_type(&self) -> (kind: TokenType)
        requires
            self.wf(),
        ensures
            kind == second(self@).kind,
    {
        self.peek_token.token_type()
    }

    /// Parses a program: statement after statement up to the end of the
    /// tokens. The first error ends the parsing.
    #[verifier::loop_isolation(false)]
    pub fn parse_program(&mut self) -> (result: Result<Program, ParserError>)
        requires
            old(self).wf(),
        ensures
            final(self).wf(),
            parsed_view(result) == parse_program_spec(old(self)@),
            result is Ok ==> first(final(self)@).kind == TokenType::Eof,
    {
        let mut statements: Vec<Statement> = Vec::new();
        assert(statements_view(statements) =~= Seq::empty());
        while self.cur_type() != TokenType::Eof
            invariant
                self.wf(),
                parse_program_rest(self@, statements_view(statements)) == parse_program_spec(
                    old(self)@,
                ),
            decreases self@.len(),
        {
            let ghost ts = self@;
            let ghost done = statements;
            proof {
                lemma_statement_bounds(ts);
            }
            let next_statement = self.parse_statement()?;
            statements.push(next_statement);
            proof {
                lemma_statements_view_push(done, statements, next_statement);
            }
            self.next_token();
        }
        Ok(Program { statements })
    }

    /// Parses a statement.
    pub fn parse_statement(&mut self) -> (result: Result<Statement, ParserError>)
        requires
            old(self).wf(),
        ensures
            final(self).wf(),
            parsed_view(result) == parse_statement_spec(old(self)@).0,
            result is Ok ==> final(self)@ == parse_statement_spec(old(self)@).1,
        decreases old(self)@.len(), 10nat,
    {
        match self.cur_type() {
            TokenType::Let => self.parse_let_statement(),
            TokenType::Return => self.parse_return_statement(),
            _ => self.parse_expression_statement(),
        }
    }

    /// The name that the current token holds, where it is an identifier.
    pub fn parse_identifier(&mut self) -> (result: Result<String, ParserError>)
        requires
            old(self).wf(),
        ensures
            final(self).wf(),
            final(self)@ == old(self)@,
            first(old(self)@).kind == TokenType::Ident ==> result is Ok && result->Ok_0@ == first(
                old(self)@,
            ).literal,
            first(old(self)@).kind != TokenType::Ident ==> result is Err && result->Err_0@
                == unexpected(TokenType::Ident, old(self)@),
    {
        if let Token::Ident { literal } = &self.cur_token {
            Ok(literal.clone())
        } else {
            parser_err(TokenType::Ident, &self.cur_token)
        }
    }

    /// The integer that the current token writes, where it is an integer
    /// literal.
    pub fn parse_integer_literal(&mut self) -> (result: Result<Expression, ParserError>)
        requires
            old(self).wf(),
        ensures
            final(self).wf(),
            final(self)@ == old(self)@,
            parsed_view(result) == parse_integer_literal_spec(old(self)@).0,
    {
        if let Token::Int { literal } = &self.cur_token {
            match parse_integer(literal.as_str()) {
                Some(parsed) => Ok(Expression::IntegerLiteral { value: parsed }),
                None => Err(
                    ParserError::InvalidExpression { first_token: self.cur_token.duplicate() },
                ),
            }
        } else {
            parser_err(TokenType::Int, &self.cur_token)
        }
    }

    /// Parses `return`, an expression and `;`.
    pub fn parse_return_statement(&mut self) -> (result: Result<Statement, ParserError>)
        requires
            old(self).wf(),
        ensures
            final(self).wf(),
            parsed_view(result) == parse_return_statement_spec(old(self)@).0,
            result is Ok ==> final(self)@ == parse_return_statement_spec(old(self)@).1,
        decreases old(self)@.len(), 9nat,
    {
        self.assert_cur_token_type(TokenType::Return)?;
        self.next_token();
        let expr = self.parse_expression(Precedence::LOWEST)?;
        self.next_token();
        self.assert_cur_token_type(TokenType::Semicolon)?;
        Ok(Statement::Return { value: expr })
    }

    /// Whether the current token has the expected type; an error where it
    /// has not.
    pub fn assert_cur_token_type(&self, expected: TokenType) -> (result: Result<(), ParserError>)
        requires
            self.wf(),
        ensures
            first(self@).kind == expected ==> result is Ok,
            first(self@).kind != expected ==> result is Err && result->Err_0@ == unexpected(
                expected,
                self@,
            ),
    {
        if self.cur_token.token_type() == expected {
            Ok(())
        } else {
            parser_err(expected, &self.cur_token)
        }
    }

    /// Parses `let`, an identifier, `=`, an expression and `;`.
    pub fn parse_let_statement(&mut self) -> (result: Result<Statement, ParserError>)
        requires
            old(self).wf(),
        ensures
            final(self).wf(),
            parsed_view(result) == parse_let_statement_spec(old(self)@).0,
            result is Ok ==> final(self)@ == parse_let_statement_spec(old(self)@).1,
        decreases old(self)@.len(), 9nat,
    {
        self.assert_cur_token_type(TokenType::Let)?;
        self.next_token();
        let identifier_name = self.parse_identifier()?;
        self.next_token();
        self.assert_cur_token_type(TokenType::Assign)?;
        self.next_token();
        let expr = self.parse_expression(Precedence::LOWEST)?;
        self.next_token();
        self.assert_cur_token_type(TokenType::Semicolon)?;
        Ok(Statement::Let { name: identifier_name, right: expr })
    }

    /// Parses `fn`, the parameters in parentheses, and a block.
    #[verifier::loop_isolation(false)]
    pub fn parse_fn_literal(&mut self) -> (result: Result<Expression, ParserError>)
        requires
            old(self).wf(),
        ensures
            final(self).wf(),
            parsed_view(result) == parse_fn_literal_spec(old(self)@).0,
            result is Ok ==> final(self)@ == parse_fn_literal_spec(old(self)@).1,
        decreases old(self)@.len(), 7nat,
    {
        let ghost ts = self@;
        self.assert_cur_token_type(TokenType::Function)?;
        self.next_token();
        self.assert_cur_token_type(TokenType::LParen)?;
        self.next_token();
        let ghost ts2 = self@;
        let mut param_names: Vec<String> = Vec::new();
        assert(texts_view(param_names) =~= Seq::empty());
        while self.cur_type() != TokenType::RParen
            invariant
                self.wf(),
                self@.len() <= ts2.len(),
                parse_parameters_spec(self@, texts_view(param_names)) == parse_parameters_spec(
                    ts2,
                    Seq::empty(),
                ),
            decreases self@.len(),
        {
            let ghost done = param_names;
            let name = self.parse_identifier()?;
            param_names.push(name);
            proof {
                lemma_texts_view_push(done, param_names, name);
            }
            self.next_token();
            if self.cur_type() == TokenType::Comma {
                self.next_token();
            }
        }
        self.next_token();
        let body = self.parse_block_statement()?;
        Ok(Expression::FnLiteral { param_names: param_names, body: body })
    }

    /// Parses an expression whose operators bind tighter than `precedence`.
    #[verifier::loop_isolation(false)]
    pub fn parse_expression(&mut self, precedence: Precedence) -> (result: Result<
        Expression,
        ParserError,
    >)
        requires
            old(self).wf(),
        ensures
            final(self).wf(),
            parsed_view(result) == parse_expression_spec(old(self)@, precedence).0,
            result is Ok ==> final(self)@ == parse_expression_spec(old(self)@, precedence).1,
        decreases old(self)@.len(), 8nat,
    {
        let ghost ts = self@;
        proof {
            lemma_expression_start_bounds(ts);
        }
        let start = match self.cur_type() {
            TokenType::Ident => match self.parse_identifier() {
                Ok(name) => Ok(Expression::Identifier { value: name }),
                Err(error) => Err(error),
            },
            TokenType::Int => self.parse_integer_literal(),
            TokenType::Bang | TokenType::Minus => self.parse_prefix_expression(),
            TokenType::True | TokenType::False => self.parse_boolean_expression(),
            TokenType::LParen => self.parse_grouped_expression(),
            TokenType::LBrace => match self.parse_block_statement() {
                Ok(block) => Ok(Expression::Block { statements: block.statements }),
                Err(error) => Err(error),
            },
            TokenType::If => self.parse_if_expression(),
            TokenType::Function => self.parse_fn_literal(),
            TokenType::String => self.parse_string_literal(),
            _ => Err(ParserError::InvalidExpression { first_token: self.cur_token.duplicate() }),
        };
        let mut left_exp = start?;
        while self.peek_type() != TokenType::Semicolon && precedence.level()
            < self.peek_precedence().level()
            invariant
                self.wf(),
                1 <= self@.len() <= ts.len(),
                parse_infix_rest(left_exp@, self@, precedence) == parse_expression_spec(
                    ts,
                    precedence,
                ),
            decreases self@.len(),
        {
            let ghost before = self@;
            proof {
                lemma_infix_expression_bounds(advance(before));
            }
            self.next_token();
            match self.parse_infix_expression() {
                Some(Ok(ParsedInfix::Infix { operator, right })) => {
                    left_exp =
                    Expression::Infix {
                        left: Box::new(left_exp),
                        operator: operator,
                        right: Box::new(right),
                    };
                },
                Some(Ok(ParsedInfix::Call { args })) => {
                    left_exp =
                    Expression::CallExpression { left: Box::new(left_exp), arguments: args };
                },
                Some(Err(error)) => {
                    return Err(error);
                },
                None => {
                    return Ok(left_exp);
                },
            }
        }
        Ok(left_exp)
    }

    /// Parses `if`, the condition in parentheses, a block, and where `else`
    /// follows, `else` and a block.
    pub fn parse_if_expression(&mut self) -> (result: Result<Expression, ParserError>)
        requires
            old(self).wf(),
        ensures
            final(self).wf(),
            parsed_view(result) == parse_if_expression_spec(old(self)@).0,
            result is Ok ==> final(self)@ == parse_if_expression_spec(old(self)@).1,
        decreases old(self)@.len(), 7nat,
    {
        let ghost ts = self@;
        self.assert_cur_token_type(TokenType::If)?;
        self.next_token();
        self.assert_cur_token_type(TokenType::LParen)?;
        self.next_token();
        proof {
            lemma_expression_bounds(self@, Precedence::LOWEST);
        }
        let condition = self.parse_expression(Precedence::LOWEST)?;
        self.next_token();
        self.assert_cur_token_type(TokenType::RParen)?;
        self.next_token();
        proof {
            lemma_block_bounds(self@);
        }
        let consequence = self.parse_block_statement()?;
        let alternative = if self.peek_type() == TokenType::Else {
            self.next_token();
            self.next_token();
            match self.parse_block_statement() {
                Ok(block) => Some(block),
                Err(error) => {
                    return Err(error);
                },
            }
        } else {
            None
        };
        Ok(
            Expression::If {
                condition: Box::new(condition),
                consequence: consequence,
                alternative: alternative,
            },
        )
    }

    /// Parses `{`, statements, and `}`.
    #[verifier::loop_isolation(false)]
    pub fn parse_block_statement(&mut self) -> (result: Result<BlockStatement, ParserError>)
        requires
            old(self).wf(),
        ensures
            final(self).wf(),
            parsed_view(result) == parse_block_statement_spec(old(self)@).0,
            result is Ok ==> final(self)@ == parse_block_statement_spec(old(self)@).1,
        decreases old(self)@.len(), 6nat,
    {
        let ghost ts = self@;
        self.assert_cur_token_type(TokenType::LBrace)?;
        self.next_token();
        let ghost ts1 = self@;
        let mut statements: Vec<Statement> = Vec::new();
        assert(statements_view(statements) =~= Seq::empty());
        while self.cur_type() != TokenType::RBrace
            invariant
                self.wf(),
                self@.len() <= ts1.len(),
                ts1.len() < ts.len(),
                ts == old(self)@,
                parse_block_rest(self@, statements_view(statements)) == parse_block_rest(
                    ts1,
                    Seq::empty(),
                ),
            decreases self@.len(),
        {
            let ghost done = statements;
            proof {
                lemma_statement_bounds(self@);
            }
            let statement = self.parse_statement()?;
            statements.push(statement);
            proof {
                lemma_statements_view_push(done, statements, statement);
            }
            self.next_token();
        }
        Ok(BlockStatement { statements: statements })
    }

    /// Parses an expression, and the `;` behind it if there is one.
    pub fn parse_expression_statement(&mut self) -> (result: Result<Statement, ParserError>)
        requires
            old(self).wf(),
        ensures
            final(self).wf(),
            parsed_view(result) == parse_expression_statement_spec(old(self)@).0,
            result is Ok ==> final(self)@ == parse_expression_statement_spec(old(self)@).1,
        decreases old(self)@.len(), 9nat,
    {
        let expression = self.parse_expression(Precedence::LOWEST)?;
        if self.peek_type() == TokenType::Semicolon {
            self.next_token();
        }
        Ok(Statement::Expression { expression: expression })
    }

    /// Parses `!` or `-` and its operand.
    pub fn parse_prefix_expression(&mut self) -> (result: Result<Expression, ParserError>)
        requires
            old(self).wf(),
        ensures
            final(self).wf(),
            parsed_view(result) == parse_prefix_expression_spec(old(self)@).0,
            result is Ok ==> final(self)@ == parse_prefix_expression_spec(old(self)@).1,
        decreases old(self)@.len(), 7nat,
    {
        let operator: PrefixOperator = match self.cur_type() {
            TokenType::Bang => PrefixOperator::Bang,
            TokenType::Minus => PrefixOperator::Minus,
            _ => {
                return Err(
                    ParserError::InvalidExpression { first_token: self.cur_token.duplicate() },
                );
            },
        };
        self.next_token();
        let right = self.parse_expression(Precedence::PREFIX)?;
        Ok(Expression::Prefix { operator: operator, right: Box::new(right) })
    }

    /// Parses `(`, arguments, and `)`.
    #[verifier::loop_isolation(false)]
    pub fn parse_call_args(&mut self) -> (result: Result<Vec<Expression>, ParserError>)
        requires
            old(self).wf(),
        ensures
            final(self).wf(),
            parsed_list_view(result) == parse_call_args_spec(old(self)@).0,
            result is Ok ==> final(self)@ == parse_call_args_spec(old(self)@).1,
        decreases old(self)@.len(), 6nat,
    {
        let ghost ts = self@;
        self.assert_cur_token_type(TokenType::LParen)?;
        self.next_token();
        let ghost ts1 = self@;
        let mut args: Vec<Expression> = Vec::new();
        assert(expressions_view(args) =~= Seq::empty());
        while self.cur_type() != TokenType::RParen
            invariant
                self.wf(),
                self@.len() <= ts1.len(),
                ts1.len() < ts.len(),
                ts == old(self)@,
                parse_call_args_rest(self@, expressions_view(args)) == parse_call_args_rest(
                    ts1,
                    Seq::empty(),
                ),
            decreases self@.len(),
        {
            let ghost done = args;
            proof {
                lemma_expression_bounds(self@, Precedence::LOWEST);
            }
            let expr = self.parse_expression(Precedence::LOWEST)?;
            args.push(expr);
            proof {
                lemma_expressions_view_push(done, args, expr);
            }
            self.next_token();
            if self.cur_type() == TokenType::Comma {
                self.next_token();
            }
        }
        Ok(args)
    }

    /// Parses what stands behind a left operand, from the current token on:
    /// the arguments of a call, or an infix operator and its right operand;
    /// `None` where the current token starts neither.
    pub fn parse_infix_expression(&mut self) -> (found: Option<Result<ParsedInfix, ParserError>>)
        requires
            old(self).wf(),
        ensures
            final(self).wf(),
            match parse_infix_expression_spec(old(self)@) {
                Some((result, out)) => found is Some && parsed_view(found->0) == result && (
                result is Ok ==> final(self)@ == out),
                None => found is None && final(self)@ == old(self)@,
            },
        decreases old(self)@.len(), 7nat,
    {
        let precedence = self.cur_precedence();
        if self.cur_type() == TokenType::LParen {
            match self.parse_call_args() {
                Ok(args) => Some(Ok(ParsedInfix::Call { args: args })),
                Err(error) => Some(Err(error)),
            }
        } else {
            let operator = match self.cur_type() {
                TokenType::Plus => InfixOperator::Plus,
                TokenType::Minus => InfixOperator::Minus,
                TokenType::Asterisk => InfixOperator::Multiply,
                TokenType::Slash => InfixOperator::Divide,
                TokenType::Gt => InfixOperator::Gt,
                TokenType::Lt => InfixOperator::Lt,
                TokenType::Eq => InfixOperator::Eq,
                TokenType::NotEq => InfixOperator::NotEq,
                _ => {
                    return None;
                },
            };
            self.next_token();
            match self.parse_expression(precedence) {
                Ok(right) => Some(Ok(ParsedInfix::Infix { operator: operator, right: right })),
                Err(error) => Some(Err(error)),
            }
        }
    }

    /// The boolean that the current token writes.
    pub fn parse_boolean_expression(&mut self) -> (result: Result<Expression, ParserError>)
        requires
            old(self).wf(),
        ensures
            final(self).wf(),
            final(self)@ == old(self)@,
            first(old(self)@).kind == TokenType::True ==> parsed_view(result) == Ok::<
                ExpressionView,
                ParserErrorView,
            >(ExpressionView::Boolean { value: true }),
            first(old(self)@).kind == TokenType::False ==> parsed_view(result) == Ok::<
                ExpressionView,
                ParserErrorView,
            >(ExpressionView::Boolean { value: false }),
            first(old(self)@).kind != TokenType::True && first(old(self)@).kind
                != TokenType::False ==> result is Err && result->Err_0@ == no_expression(
                old(self)@,
            ),
    {
        match self.cur_type() {
            TokenType::True => Ok(Expression::Boolean { value: true }),
            TokenType::False => Ok(Expression::Boolean { value: false }),
            _ => Err(ParserError::InvalidExpression { first_token: self.cur_token.duplicate() }),
        }
    }

    /// Parses `(`, an expression and `)`.
    pub fn parse_grouped_expression(&mut self) -> (result: Result<Expression, ParserError>)
        requires
            old(self).wf(),
        ensures
            final(self).wf(),
            parsed_view(result) == parse_grouped_expression_spec(old(self)@).0,
            result is Ok ==> final(self)@ == parse_grouped_expression_spec(old(self)@).1,
        decreases old(self)@.len(), 7nat,
    {
        self.assert_cur_token_type(TokenType::LParen)?;
        self.next_token();
        let expression = self.parse_expression(Precedence::LOWEST)?;
        self.next_token();
        self.assert_cur_token_type(TokenType::RParen)?;
        Ok(expression)
    }

    /// How tightly the current token binds.
    pub fn cur_precedence(&self) -> (precedence: Precedence)
        requires
            self.wf(),
        ensures
            precedence == precedence_of(first(self@).kind),
    {
        precedence_for_token_type(&self.cur_token.token_type())
    }

    /// How tightly the token behind the current one binds.
    pub fn peek_precedence(&self) -> (precedence: Precedence)
        requires
            self.wf(),
        ensures
            precedence == precedence_of(second(self@).kind),
    {
        precedence_for_token_type(&self.peek_token.token_type())
    }

    /// The string literal that the current token holds.
    pub fn parse_string_literal(&mut self) -> (result: Result<Expression, ParserError>)
        requires
            old(self).wf(),
        ensures
            final(self).wf(),
            final(self)@ == old(self)@,
            first(old(self)@).kind == TokenType::String ==> parsed_view(result) == Ok::<
                ExpressionView,
                ParserErrorView,
            >(ExpressionView::StringLiteral { value: first(old(self)@).literal }),
            first(old(self)@).kind != TokenType::String ==> result is Err && result->Err_0@
                == no_expression(old(self)@),
    {
        if let Token::String { literal } = &self.cur_token {
            Ok(Expression::StringLiteral { value: literal.clone() })
        } else {
            Err(ParserError::InvalidExpression { first_token: self.cur_token.duplicate() })
        }
    }
}

} // verus!
