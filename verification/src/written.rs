use crate::ast::ExpressionView;
use crate::ast::StatementView;
use crate::grouping::identifier_token;
use crate::grouping::operator_token;
use crate::grouping::prefix_token;
use crate::grouping::binding;
use crate::grouping::lemma_looser_operator_ends;
use crate::grouping::lemma_tighter_operator_joins;
use crate::parser::advance;
use crate::parser::first;
use crate::parser::parse_block_rest;
use crate::parser::parse_block_statement_spec;
use crate::parser::parse_call_args_rest;
use crate::parser::parse_call_args_spec;
use crate::parser::parse_expression_spec;
use crate::parser::parse_expression_statement_spec;
use crate::parser::parse_fn_literal_spec;
use crate::parser::parse_grouped_expression_spec;
use crate::parser::parse_if_expression_spec;
use crate::parser::parse_infix_expression_spec;
use crate::parser::parse_infix_rest;
use crate::parser::parse_integer_literal_spec;
use crate::parser::parse_let_statement_spec;
use crate::parser::parse_parameters_spec;
use crate::parser::parse_prefix_expression_spec;
use crate::parser::parse_program_rest;
use crate::parser::parse_program_spec;
use crate::parser::parse_return_statement_spec;
use crate::parser::parse_statement_spec;
use crate::parser::precedence_of;
use crate::parser::second;
use crate::parser::Parsed;
use crate::parser::ParsedInfixView;
use crate::parser::ParserErrorView;
use crate::parser::Precedence;
use crate::text::integer_value;
use crate::text::lemma_decimal_digits_value;
use crate::text::decimal;
use crate::token::TokenType;
use crate::token::TokenView;
use vstd::prelude::*;

verus! {

/// Whether the written form of an expression can be read back: it holds no
/// negative integer literal, which is read as a prefix expression.
pub open spec fn readable_expression(e: ExpressionView) -> bool
    decreases e,
{
    match e {
        ExpressionView::Identifier { .. } => true,
        ExpressionView::IntegerLiteral { value } => value >= 0,
        ExpressionView::StringLiteral { .. } => true,
        ExpressionView::Prefix { right, .. } => readable_expression(*right),
        ExpressionView::Infix { left, right, .. } => readable_expression(*left)
            && readable_expression(*right),
        ExpressionView::Boolean { .. } => true,
        ExpressionView::If { condition, consequence, alternative } => readable_expression(
            *condition,
        ) && readable_statements(consequence, 0) && match alternative {
            Some(block) => readable_statements(block, 0),
            None => true,
        },
        ExpressionView::FnLiteral { body, .. } => readable_statements(body, 0),
        ExpressionView::CallExpression { left, arguments } => readable_expression(*left)
            && readable_expressions(arguments, 0),
        ExpressionView::Block { statements } => readable_statements(statements, 0),
    }
}

/// Whether the written form of each expression from position `from` on can
/// be read back.
pub open spec fn readable_expressions(es: Seq<ExpressionView>, from: nat) -> bool
    decreases es, es.len() - from,
{
    if from >= es.len() {
        true
    } else {
        readable_expression(es[from as int]) && readable_expressions(es, from + 1)
    }
}

/// Whether the written form of a statement can be read back.
pub open spec fn readable_statement(s: StatementView) -> bool
    decreases s,
{
    match s {
        StatementView::Let { right, .. } => readable_expression(right),
        StatementView::Return { value } => readable_expression(value),
        StatementView::Expression { expression } => readable_expression(expression),
    }
}

/// Whether the written form of each statement from position `from` on can be
/// read back.
pub open spec fn readable_statements(ss: Seq<StatementView>, from: nat) -> bool
    decreases ss, ss.len() - from,
{
    if from >= ss.len() {
        true
    } else {
        readable_statement(ss[from as int]) && readable_statements(ss, from + 1)
    }
}

/// A token without text.
pub open spec fn mark(kind: TokenType) -> TokenView {
    TokenView::plain(kind)
}

/// The token that writes a string literal.
pub open spec fn string_token(value: Seq<char>) -> TokenView {
    TokenView::with_text(TokenType::String, value)
}

/// The token that writes an integer literal.
pub open spec fn integer_token(value: i64) -> TokenView {
    TokenView::with_text(TokenType::Int, decimal(value as int))
}

/// The tokens of the written form of an expression, before the tokens
/// `rest`: prefix and infix expressions stand in parentheses, a block
/// between braces.
pub open spec fn written_expression(e: ExpressionView, rest: Seq<TokenView>) -> Seq<TokenView>
    decreases e,
{
    match e {
        ExpressionView::Identifier { value } => seq![identifier_token(value)] + rest,
        ExpressionView::IntegerLiteral { value } => seq![integer_token(value)] + rest,
        ExpressionView::StringLiteral { value } => seq![string_token(value)] + rest,
        ExpressionView::Block { statements } => written_block(statements, rest),
        ExpressionView::Boolean { value } => seq![
            mark(
                if value {
                    TokenType::True
                } else {
                    TokenType::False
                },
            ),
        ] + rest,
        ExpressionView::Prefix { operator, right } => seq![
            mark(TokenType::LParen),
            prefix_token(operator),
        ] + written_expression(*right, seq![mark(TokenType::RParen)] + rest),
        ExpressionView::Infix { left, operator, right } => seq![mark(TokenType::LParen)]
            + written_expression(
            *left,
            seq![operator_token(operator)] + written_expression(
                *right,
                seq![mark(TokenType::RParen)] + rest,
            ),
        ),
        ExpressionView::If { condition, consequence, alternative } => seq![
            mark(TokenType::If),
            mark(TokenType::LParen),
        ] + written_expression(
            *condition,
            seq![mark(TokenType::RParen)] + written_block(
                consequence,
                match alternative {
                    Some(block) => seq![mark(TokenType::Else)] + written_block(block, rest),
                    None => rest,
                },
            ),
        ),
        ExpressionView::FnLiteral { param_names, body } => seq![
            mark(TokenType::Function),
            mark(TokenType::LParen),
        ] + written_parameters(
            param_names,
            0,
            seq![mark(TokenType::RParen)] + written_block(body, rest),
        ),
        ExpressionView::CallExpression { left, arguments } => written_expression(
            *left,
            seq![mark(TokenType::LParen)] + written_arguments(
                arguments,
                0,
                seq![mark(TokenType::RParen)] + rest,
            ),
        ),
    }
}

/// The tokens of the written form of the arguments from position `from` on,
/// with commas between them, before the tokens `rest`.
pub open spec fn written_arguments(
    es: Seq<ExpressionView>,
    from: nat,
    rest: Seq<TokenView>,
) -> Seq<TokenView>
    decreases es, es.len() - from,
{
    if from >= es.len() {
        rest
    } else if from + 1 == es.len() {
        written_expression(es[from as int], rest)
    } else {
        written_expression(
            es[from as int],
            seq![mark(TokenType::Comma)] + written_arguments(es, from + 1, rest),
        )
    }
}

/// The tokens of the parameters from position `from` on, with commas
/// between them, before the tokens `rest`.
pub open spec fn written_parameters(
    names: Seq<Seq<char>>,
    from: nat,
    rest: Seq<TokenView>,
) -> Seq<TokenView>
    decreases names.len() - from,
{
    if from >= names.len() {
        rest
    } else if from + 1 == names.len() {
        seq![identifier_token(names[from as int])] + rest
    } else {
        seq![identifier_token(names[from as int]), mark(TokenType::Comma)] + written_parameters(
            names,
            from + 1,
            rest,
        )
    }
}

/// The tokens of the written form of a block, before the tokens `rest`.
pub open spec fn written_block(ss: Seq<StatementView>, rest: Seq<TokenView>) -> Seq<TokenView>
    decreases ss, ss.len() + 1,
{
    seq![mark(TokenType::LBrace)] + written_statements(
        ss,
        0,
        seq![mark(TokenType::RBrace)] + rest,
    )
}

/// The tokens of the written form of the statements from position `from` on,
/// before the tokens `rest`.
pub open spec fn written_statements(
    ss: Seq<StatementView>,
    from: nat,
    rest: Seq<TokenView>,
) -> Seq<TokenView>
    decreases ss, ss.len() - from,
{
    if from >= ss.len() {
        rest
    } else {
        written_statement(ss[from as int], written_statements(ss, from + 1, rest))
    }
}

/// The tokens of the written form of a statement, before the tokens `rest`.
pub open spec fn written_statement(s: StatementView, rest: Seq<TokenView>) -> Seq<TokenView>
    decreases s,
{
    match s {
        StatementView::Let { name, right } => seq![
            mark(TokenType::Let),
            identifier_token(name),
            mark(TokenType::Assign),
        ] + written_expression(right, seq![mark(TokenType::Semicolon)] + rest),
        StatementView::Return { value } => seq![mark(TokenType::Return)] + written_expression(
            value,
            seq![mark(TokenType::Semicolon)] + rest,
        ),
        StatementView::Expression { expression } => written_expression(
            expression,
            seq![mark(TokenType::Semicolon)] + rest,
        ),
    }
}

/// The last token of the written form of an expression.
pub open spec fn last_token(e: ExpressionView) -> TokenView {
    match e {
        ExpressionView::Identifier { value } => identifier_token(value),
        ExpressionView::IntegerLiteral { value } => integer_token(value),
        ExpressionView::StringLiteral { value } => string_token(value),
        ExpressionView::Block { .. } => mark(TokenType::RBrace),
        ExpressionView::Boolean { value } => mark(
            if value {
                TokenType::True
            } else {
                TokenType::False
            },
        ),
        ExpressionView::If { .. } => mark(TokenType::RBrace),
        ExpressionView::FnLiteral { .. } => mark(TokenType::RBrace),
        ExpressionView::Prefix { .. } => mark(TokenType::RParen),
        ExpressionView::Infix { .. } => mark(TokenType::RParen),
        ExpressionView::CallExpression { .. } => mark(TokenType::RParen),
    }
}

/// Whether an expression can begin with a token of this type.
pub open spec fn begins_expression(kind: TokenType) -> bool {
    kind == TokenType::Ident || kind == TokenType::Int || kind == TokenType::String || kind
        == TokenType::True || kind == TokenType::False || kind == TokenType::LParen || kind
        == TokenType::LBrace || kind == TokenType::If || kind == TokenType::Function
}

/// The written form of an expression is not empty, and begins with a token
/// with which an expression can begin.
pub proof fn lemma_written_expression_begins(e: ExpressionView, rest: Seq<TokenView>)
    requires
        readable_expression(e),
    ensures
        written_expression(e, rest).len() > rest.len(),
        begins_expression(first(written_expression(e, rest)).kind),
    decreases e,
{
    match e {
        ExpressionView::Prefix { operator, right } => {
            lemma_written_expression_begins(*right, seq![mark(TokenType::RParen)] + rest);
        },
        ExpressionView::Infix { left, operator, right } => {
            let behind = seq![mark(TokenType::RParen)] + rest;
            lemma_written_expression_begins(*right, behind);
            lemma_written_expression_begins(
                *left,
                seq![operator_token(operator)] + written_expression(*right, behind),
            );
        },
        ExpressionView::If { condition, consequence, alternative } => {
            let tail = match alternative {
                Some(block) => seq![mark(TokenType::Else)] + written_block(block, rest),
                None => rest,
            };
            match alternative {
                Some(block) => {
                    lemma_written_block_length(block, rest);
                },
                None => {},
            }
            lemma_written_block_length(consequence, tail);
            lemma_written_expression_begins(
                *condition,
                seq![mark(TokenType::RParen)] + written_block(consequence, tail),
            );
        },
        ExpressionView::FnLiteral { param_names, body } => {
            lemma_written_block_length(body, rest);
            lemma_written_parameters_length(
                param_names,
                0,
                seq![mark(TokenType::RParen)] + written_block(body, rest),
            );
        },
        ExpressionView::Block { statements } => {
            lemma_written_block_length(statements, rest);
        },
        ExpressionView::CallExpression { left, arguments } => {
            lemma_written_arguments_length(arguments, 0, seq![mark(TokenType::RParen)] + rest);
            lemma_written_expression_begins(
                *left,
                seq![mark(TokenType::LParen)] + written_arguments(
                    arguments,
                    0,
                    seq![mark(TokenType::RParen)] + rest,
                ),
            );
        },
        _ => {},
    }
}

/// The written form of arguments is no shorter than what stands behind it.
pub proof fn lemma_written_arguments_length(
    es: Seq<ExpressionView>,
    from: nat,
    rest: Seq<TokenView>,
)
    requires
        readable_expressions(es, from),
    ensures
        written_arguments(es, from, rest).len() >= rest.len(),
    decreases es, es.len() - from,
{
    if from >= es.len() {
    } else if from + 1 == es.len() {
        lemma_written_expression_begins(es[from as int], rest);
    } else {
        lemma_written_arguments_length(es, from + 1, rest);
        lemma_written_expression_begins(
            es[from as int],
            seq![mark(TokenType::Comma)] + written_arguments(es, from + 1, rest),
        );
    }
}

/// The written form of parameters is no shorter than what stands behind it.
pub proof fn lemma_written_parameters_length(
    names: Seq<Seq<char>>,
    from: nat,
    rest: Seq<TokenView>,
)
    ensures
        written_parameters(names, from, rest).len() >= rest.len(),
    decreases names.len() - from,
{
    if from >= names.len() {
    } else if from + 1 == names.len() {
    } else {
        lemma_written_parameters_length(names, from + 1, rest);
    }
}

/// The written form of a block is longer than what stands behind it.
pub proof fn lemma_written_block_length(ss: Seq<StatementView>, rest: Seq<TokenView>)
    requires
        readable_statements(ss, 0),
    ensures
        written_block(ss, rest).len() > rest.len(),
    decreases ss, ss.len() + 1,
{
    lemma_written_statements_length(ss, 0, seq![mark(TokenType::RBrace)] + rest);
}

/// The written form of statements is no shorter than what stands behind it.
pub proof fn lemma_written_statements_length(
    ss: Seq<StatementView>,
    from: nat,
    rest: Seq<TokenView>,
)
    requires
        readable_statements(ss, from),
    ensures
        written_statements(ss, from, rest).len() >= rest.len(),
    decreases ss, ss.len() - from,
{
    if from < ss.len() {
        lemma_written_statements_length(ss, from + 1, rest);
        lemma_written_statement_begins(ss[from as int], written_statements(ss, from + 1, rest));
    }
}

/// The written form of a statement is not empty, and begins with `let`,
/// `return` or a token with which an expression can begin.
pub proof fn lemma_written_statement_begins(s: StatementView, rest: Seq<TokenView>)
    requires
        readable_statement(s),
    ensures
        written_statement(s, rest).len() > rest.len(),
        match s {
            StatementView::Let { .. } => first(written_statement(s, rest)).kind == TokenType::Let,
            StatementView::Return { .. } => first(written_statement(s, rest)).kind
                == TokenType::Return,
            StatementView::Expression { .. } => begins_expression(
                first(written_statement(s, rest)).kind,
            ),
        },
    decreases s,
{
    match s {
        StatementView::Let { name, right } => {
            lemma_written_expression_begins(right, seq![mark(TokenType::Semicolon)] + rest);
        },
        StatementView::Return { value } => {
            lemma_written_expression_begins(value, seq![mark(TokenType::Semicolon)] + rest);
        },
        StatementView::Expression { expression } => {
            lemma_written_expression_begins(expression, seq![mark(TokenType::Semicolon)] + rest);
        },
    }
}

/// A parsing step that yields `value` and leaves the tokens `out`.
pub open spec fn yields<T>(value: T, out: Seq<TokenView>) -> Parsed<T> {
    (Ok(value), out)
}

/// The front of a sequence of tokens that starts with a given token.
pub proof fn lemma_front(t: TokenView, rest: Seq<TokenView>)
    ensures
        (seq![t] + rest).len() == rest.len() + 1,
        first(seq![t] + rest) == t,
        second(seq![t] + rest) == first(rest),
        advance(seq![t] + rest) == rest,
{
    assert(advance(seq![t] + rest) =~= rest);
}

/// The front of a sequence of tokens that starts with two given tokens.
pub proof fn lemma_front_two(t1: TokenView, t2: TokenView, rest: Seq<TokenView>)
    ensures
        seq![t1, t2] + rest == seq![t1] + (seq![t2] + rest),
        (seq![t1, t2] + rest).len() == rest.len() + 2,
        first(seq![t1, t2] + rest) == t1,
        second(seq![t1, t2] + rest) == t2,
        advance(seq![t1, t2] + rest) == seq![t2] + rest,
        advance(advance(seq![t1, t2] + rest)) == rest,
{
    assert(seq![t1, t2] + rest =~= seq![t1] + (seq![t2] + rest));
    lemma_front(t1, seq![t2] + rest);
    lemma_front(t2, rest);
}

/// An expression that ends before a closing token, a comma or `;` is read
/// as it is.
pub proof fn lemma_ends_before(
    e: ExpressionView,
    last: TokenView,
    closing: TokenView,
    rest: Seq<TokenView>,
    precedence: Precedence,
)
    requires
        closing.kind == TokenType::Semicolon || precedence_of(closing.kind)
            == Precedence::LOWEST,
    ensures
        parse_infix_rest(e, seq![last] + (seq![closing] + rest), precedence) == yields(
            e,
            seq![last] + (seq![closing] + rest),
        ),
{
    lemma_front(closing, rest);
    lemma_front(last, seq![closing] + rest);
    lemma_looser_operator_ends(e, seq![last] + (seq![closing] + rest), precedence);
}

/// Whether the written form of `e` before `rest` is read as `e`, up to the
/// operators that may follow it.
pub open spec fn reads_back(e: ExpressionView, rest: Seq<TokenView>, precedence: Precedence) -> bool {
    parse_expression_spec(written_expression(e, rest), precedence) == parse_infix_rest(
        e,
        seq![last_token(e)] + rest,
        precedence,
    )
}

/// A literal or an identifier is read as it is written.
pub proof fn lemma_reads_atom(e: ExpressionView, rest: Seq<TokenView>, precedence: Precedence)
    requires
        readable_expression(e),
        e is Identifier || e is IntegerLiteral || e is Boolean || e is StringLiteral,
    ensures
        reads_back(e, rest, precedence),
{
    lemma_front(last_token(e), rest);
    match e {
        ExpressionView::IntegerLiteral { value } => {
            lemma_decimal_digits_value(value as nat);
            assert(integer_value(decimal(value as int)) == Some(value));
            assert(parse_integer_literal_spec(written_expression(e, rest)) == yields(
                e,
                written_expression(e, rest),
            ));
        },
        _ => {},
    }
}

/// A block that stands as an expression is read as it is written, where
/// its statements are.
pub proof fn lemma_reads_block(e: ExpressionView, rest: Seq<TokenView>, precedence: Precedence)
    requires
        e is Block,
        readable_expression(e),
        parse_block_statement_spec(written_block(e->Block_statements, rest)) == yields(
            e->Block_statements,
            seq![mark(TokenType::RBrace)] + rest,
        ),
    ensures
        reads_back(e, rest, precedence),
{
    let statements = e->Block_statements;
    let inner = written_statements(statements, 0, seq![mark(TokenType::RBrace)] + rest);
    lemma_front(mark(TokenType::LBrace), inner);
    lemma_front(mark(TokenType::RBrace), rest);
    lemma_written_block_length(statements, rest);
}

/// A prefix expression in parentheses is read as it is written, where its
/// operand is.
pub proof fn lemma_reads_prefix(e: ExpressionView, rest: Seq<TokenView>, precedence: Precedence)
    requires
        e is Prefix,
        readable_expression(e),
        reads_back(*e->Prefix_right, seq![mark(TokenType::RParen)] + rest, Precedence::PREFIX),
    ensures
        reads_back(e, rest, precedence),
{
    let operator = e->Prefix_operator;
    let right = *e->Prefix_right;
    let closing = seq![mark(TokenType::RParen)] + rest;
    let inner = written_expression(right, closing);
    let ts = written_expression(e, rest);
    let from_operator = seq![prefix_token(operator)] + inner;
    let behind = seq![last_token(right)] + closing;
    lemma_front_two(mark(TokenType::LParen), prefix_token(operator), inner);
    lemma_front(prefix_token(operator), inner);
    lemma_front(mark(TokenType::RParen), rest);
    lemma_front(last_token(right), closing);
    lemma_written_expression_begins(right, closing);
    lemma_ends_before(right, last_token(right), mark(TokenType::RParen), rest, Precedence::PREFIX);
    assert(parse_expression_spec(inner, Precedence::PREFIX) == yields(right, behind));
    assert(parse_prefix_expression_spec(from_operator) == yields(e, behind));
    lemma_ends_before(e, last_token(right), mark(TokenType::RParen), rest, Precedence::LOWEST);
    assert(parse_expression_spec(from_operator, Precedence::LOWEST) == yields(e, behind));
    assert(parse_grouped_expression_spec(ts) == yields(e, closing));
}

/// An infix expression in parentheses is read as it is written, where its
/// operands are.
pub proof fn lemma_reads_infix(e: ExpressionView, rest: Seq<TokenView>, precedence: Precedence)
    requires
        e is Infix,
        readable_expression(e),
        reads_back(
            *e->Infix_right,
            seq![mark(TokenType::RParen)] + rest,
            binding(e->Infix_operator),
        ),
        reads_back(
            *e->Infix_left,
            seq![operator_token(e->Infix_operator)] + written_expression(
                *e->Infix_right,
                seq![mark(TokenType::RParen)] + rest,
            ),
            Precedence::LOWEST,
        ),
    ensures
        reads_back(e, rest, precedence),
{
    let operator = e->Infix_operator;
    let left = *e->Infix_left;
    let right = *e->Infix_right;
    let closing = seq![mark(TokenType::RParen)] + rest;
    let from_right = written_expression(right, closing);
    let from_operator = seq![operator_token(operator)] + from_right;
    let from_left = written_expression(left, from_operator);
    let ts = written_expression(e, rest);
    let behind = seq![last_token(right)] + closing;
    lemma_front(mark(TokenType::LParen), from_left);
    lemma_front(mark(TokenType::RParen), rest);
    lemma_front(last_token(right), closing);
    lemma_written_expression_begins(right, closing);
    lemma_written_expression_begins(left, from_operator);
    // The right operand ends before the closing parenthesis.
    lemma_ends_before(
        right,
        last_token(right),
        mark(TokenType::RParen),
        rest,
        binding(operator),
    );
    assert(parse_expression_spec(from_right, binding(operator)) == yields(right, behind));
    // The operator joins the operands.
    assert(seq![last_token(left)] + from_operator =~= seq![
        last_token(left),
        operator_token(operator),
    ] + from_right);
    lemma_tighter_operator_joins(
        left,
        last_token(left),
        operator,
        from_right,
        Precedence::LOWEST,
    );
    lemma_ends_before(e, last_token(right), mark(TokenType::RParen), rest, Precedence::LOWEST);
    assert(parse_expression_spec(from_left, Precedence::LOWEST) == yields(e, behind));
    assert(parse_grouped_expression_spec(ts) == yields(e, closing));
}

/// A call is read as it is written, where the called expression and the
/// arguments are.
pub proof fn lemma_reads_call(e: ExpressionView, rest: Seq<TokenView>, precedence: Precedence)
    requires
        e is CallExpression,
        readable_expression(e),
        precedence.rank() < Precedence::CALL.rank(),
        reads_back(
            *e->CallExpression_left,
            seq![mark(TokenType::LParen)] + written_arguments(
                e->CallExpression_arguments,
                0,
                seq![mark(TokenType::RParen)] + rest,
            ),
            precedence,
        ),
        parse_call_args_rest(
            written_arguments(e->CallExpression_arguments, 0, seq![mark(TokenType::RParen)] + rest),
            Seq::empty(),
        ) == yields(e->CallExpression_arguments, seq![mark(TokenType::RParen)] + rest),
    ensures
        reads_back(e, rest, precedence),
{
    let left = *e->CallExpression_left;
    let arguments = e->CallExpression_arguments;
    let closing = seq![mark(TokenType::RParen)] + rest;
    let from_arguments = written_arguments(arguments, 0, closing);
    let from_paren = seq![mark(TokenType::LParen)] + from_arguments;
    let ts = seq![last_token(left)] + from_paren;
    lemma_front(mark(TokenType::LParen), from_arguments);
    lemma_front(last_token(left), from_paren);
    lemma_front(mark(TokenType::RParen), rest);
    lemma_written_arguments_length(arguments, 0, closing);
    assert(parse_call_args_spec(from_paren) == yields(arguments, closing));
    assert(parse_infix_expression_spec(from_paren) == Some(
        yields(ParsedInfixView::Call { args: arguments }, closing),
    ));
    assert(parse_infix_rest(left, ts, precedence) == parse_infix_rest(e, closing, precedence));
}

/// An `if` expression is read as it is written, where its condition and its
/// blocks are.
pub proof fn lemma_reads_if(e: ExpressionView, rest: Seq<TokenView>, precedence: Precedence)
    requires
        e is If,
        readable_expression(e),
        first(rest).kind != TokenType::Else,
        reads_back(
            *e->If_condition,
            seq![mark(TokenType::RParen)] + written_block(
                e->If_consequence,
                match e->If_alternative {
                    Some(block) => seq![mark(TokenType::Else)] + written_block(block, rest),
                    None => rest,
                },
            ),
            Precedence::LOWEST,
        ),
        parse_block_statement_spec(
            written_block(
                e->If_consequence,
                match e->If_alternative {
                    Some(block) => seq![mark(TokenType::Else)] + written_block(block, rest),
                    None => rest,
                },
            ),
        ) == yields(
            e->If_consequence,
            seq![mark(TokenType::RBrace)] + match e->If_alternative {
                Some(block) => seq![mark(TokenType::Else)] + written_block(block, rest),
                None => rest,
            },
        ),
        e->If_alternative is Some ==> parse_block_statement_spec(
            written_block(e->If_alternative->0, rest),
        ) == yields(e->If_alternative->0, seq![mark(TokenType::RBrace)] + rest),
    ensures
        reads_back(e, rest, precedence),
{
    let condition = *e->If_condition;
    let consequence = e->If_consequence;
    let alternative = e->If_alternative;
    let tail = match alternative {
        Some(block) => seq![mark(TokenType::Else)] + written_block(block, rest),
        None => rest,
    };
    let from_block = written_block(consequence, tail);
    let closing = seq![mark(TokenType::RParen)] + from_block;
    let from_condition = written_expression(condition, closing);
    let ts = written_expression(e, rest);
    lemma_front_two(mark(TokenType::If), mark(TokenType::LParen), from_condition);
    lemma_front(mark(TokenType::RParen), from_block);
    lemma_front(last_token(condition), closing);
    lemma_front(mark(TokenType::RBrace), tail);
    lemma_front(mark(TokenType::RBrace), rest);
    lemma_written_expression_begins(condition, closing);
    match alternative {
        Some(block) => {
            lemma_written_block_length(block, rest);
            lemma_front(mark(TokenType::Else), written_block(block, rest));
        },
        None => {},
    }
    lemma_written_block_length(consequence, tail);
    lemma_ends_before(
        condition,
        last_token(condition),
        mark(TokenType::RParen),
        from_block,
        Precedence::LOWEST,
    );
    assert(parse_expression_spec(from_condition, Precedence::LOWEST) == yields(
        condition,
        seq![last_token(condition)] + closing,
    ));
    assert(parse_if_expression_spec(ts) == yields(e, seq![mark(TokenType::RBrace)] + rest));
}

/// A function literal is read as it is written, where its parameters and its
/// body are.
pub proof fn lemma_reads_fn(e: ExpressionView, rest: Seq<TokenView>, precedence: Precedence)
    requires
        e is FnLiteral,
        readable_expression(e),
        parse_parameters_spec(
            written_parameters(
                e->FnLiteral_param_names,
                0,
                seq![mark(TokenType::RParen)] + written_block(e->FnLiteral_body, rest),
            ),
            Seq::empty(),
        ) == yields(
            e->FnLiteral_param_names,
            seq![mark(TokenType::RParen)] + written_block(e->FnLiteral_body, rest),
        ),
        parse_block_statement_spec(written_block(e->FnLiteral_body, rest)) == yields(
            e->FnLiteral_body,
            seq![mark(TokenType::RBrace)] + rest,
        ),
    ensures
        reads_back(e, rest, precedence),
{
    let names = e->FnLiteral_param_names;
    let body = e->FnLiteral_body;
    let from_block = written_block(body, rest);
    let closing = seq![mark(TokenType::RParen)] + from_block;
    let from_parameters = written_parameters(names, 0, closing);
    let ts = written_expression(e, rest);
    lemma_front_two(mark(TokenType::Function), mark(TokenType::LParen), from_parameters);
    lemma_front(mark(TokenType::RParen), from_block);
    lemma_front(mark(TokenType::RBrace), rest);
    lemma_written_block_length(body, rest);
    lemma_written_parameters_length(names, 0, closing);
    assert(parse_fn_literal_spec(ts) == yields(e, seq![mark(TokenType::RBrace)] + rest));
}

/// The parameters of a function literal are read as they are written.
pub proof fn lemma_reads_parameters(
    names: Seq<Seq<char>>,
    from: nat,
    done: Seq<Seq<char>>,
    rest: Seq<TokenView>,
)
    requires
        from <= names.len(),
    ensures
        parse_parameters_spec(
            written_parameters(names, from, seq![mark(TokenType::RParen)] + rest),
            done,
        ) == yields(
            done + names.subrange(from as int, names.len() as int),
            seq![mark(TokenType::RParen)] + rest,
        ),
    decreases names.len() - from,
{
    let closing = seq![mark(TokenType::RParen)] + rest;
    lemma_front(mark(TokenType::RParen), rest);
    if from >= names.len() {
        assert(done + names.subrange(from as int, names.len() as int) =~= done);
    } else {
        let name = names[from as int];
        lemma_reads_parameters(names, from + 1, done.push(name), rest);
        assert(done.push(name) + names.subrange((from + 1) as int, names.len() as int) =~= done
            + names.subrange(from as int, names.len() as int));
        if from + 1 == names.len() {
            lemma_front(identifier_token(name), closing);
        } else {
            let behind = written_parameters(names, from + 1, closing);
            lemma_front_two(identifier_token(name), mark(TokenType::Comma), behind);
            lemma_front(mark(TokenType::Comma), behind);
        }
    }
}

/// The written form of an expression is read as that expression: behind it
/// the parser goes on as it does behind the expression it has read, with
/// the operators that bind tighter than the level asked for.
pub proof fn lemma_expression_reads_back(
    e: ExpressionView,
    rest: Seq<TokenView>,
    precedence: Precedence,
)
    requires
        readable_expression(e),
        precedence.rank() < Precedence::CALL.rank(),
        first(rest).kind != TokenType::Else,
    ensures
        reads_back(e, rest, precedence),
    decreases e, 0nat,
{
    match e {
        ExpressionView::Prefix { operator, right } => {
            lemma_front(mark(TokenType::RParen), rest);
            lemma_expression_reads_back(
                *right,
                seq![mark(TokenType::RParen)] + rest,
                Precedence::PREFIX,
            );
            lemma_reads_prefix(e, rest, precedence);
        },
        ExpressionView::Infix { left, operator, right } => {
            let closing = seq![mark(TokenType::RParen)] + rest;
            let from_operator = seq![operator_token(operator)] + written_expression(
                *right,
                closing,
            );
            lemma_front(mark(TokenType::RParen), rest);
            lemma_front(operator_token(operator), written_expression(*right, closing));
            lemma_expression_reads_back(*right, closing, binding(operator));
            lemma_expression_reads_back(*left, from_operator, Precedence::LOWEST);
            lemma_reads_infix(e, rest, precedence);
        },
        ExpressionView::If { condition, consequence, alternative } => {
            let tail = match alternative {
                Some(block) => seq![mark(TokenType::Else)] + written_block(block, rest),
                None => rest,
            };
            let closing = seq![mark(TokenType::RParen)] + written_block(consequence, tail);
            lemma_front(mark(TokenType::RParen), written_block(consequence, tail));
            lemma_expression_reads_back(*condition, closing, Precedence::LOWEST);
            lemma_block_reads_back(consequence, tail);
            match alternative {
                Some(block) => {
                    lemma_block_reads_back(block, rest);
                },
                None => {},
            }
            lemma_reads_if(e, rest, precedence);
        },
        ExpressionView::Block { statements } => {
            lemma_block_reads_back(statements, rest);
            lemma_reads_block(e, rest, precedence);
        },
        ExpressionView::FnLiteral { param_names, body } => {
            lemma_reads_parameters(param_names, 0, Seq::empty(), written_block(body, rest));
            assert(Seq::<Seq<char>>::empty() + param_names.subrange(0, param_names.len() as int)
                =~= param_names);
            lemma_block_reads_back(body, rest);
            lemma_reads_fn(e, rest, precedence);
        },
        ExpressionView::CallExpression { left, arguments } => {
            let closing = seq![mark(TokenType::RParen)] + rest;
            let from_paren = seq![mark(TokenType::LParen)] + written_arguments(
                arguments,
                0,
                closing,
            );
            lemma_front(mark(TokenType::LParen), written_arguments(arguments, 0, closing));
            lemma_expression_reads_back(*left, from_paren, precedence);
            lemma_arguments_read_back(arguments, 0, Seq::empty(), rest);
            assert(Seq::<ExpressionView>::empty() + arguments.subrange(
                0,
                arguments.len() as int,
            ) =~= arguments);
            lemma_reads_call(e, rest, precedence);
        },
        _ => {
            lemma_reads_atom(e, rest, precedence);
        },
    }
}

/// The written form of the arguments of a call is read as those arguments.
pub proof fn lemma_arguments_read_back(
    es: Seq<ExpressionView>,
    from: nat,
    done: Seq<ExpressionView>,
    rest: Seq<TokenView>,
)
    requires
        from <= es.len(),
        readable_expressions(es, from),
    ensures
        parse_call_args_rest(
            written_arguments(es, from, seq![mark(TokenType::RParen)] + rest),
            done,
        ) == yields(
            done + es.subrange(from as int, es.len() as int),
            seq![mark(TokenType::RParen)] + rest,
        ),
    decreases es, es.len() - from,
{
    let closing = seq![mark(TokenType::RParen)] + rest;
    lemma_front(mark(TokenType::RParen), rest);
    if from >= es.len() {
        assert(done + es.subrange(from as int, es.len() as int) =~= done);
    } else {
        let e = es[from as int];
        let next = written_arguments(es, from + 1, closing);
        lemma_arguments_read_back(es, from + 1, done.push(e), rest);
        assert(done.push(e) + es.subrange((from + 1) as int, es.len() as int) =~= done + es.subrange(
            from as int,
            es.len() as int,
        ));
        lemma_written_arguments_length(es, from + 1, closing);
        let separator = if from + 1 == es.len() {
            mark(TokenType::RParen)
        } else {
            mark(TokenType::Comma)
        };
        let behind = if from + 1 == es.len() {
            rest
        } else {
            next
        };
        lemma_front(separator, behind);
        assert(written_arguments(es, from, closing) == written_expression(
            e,
            seq![separator] + behind,
        ));
        lemma_expression_reads_back(e, seq![separator] + behind, Precedence::LOWEST);
        lemma_argument_step(e, separator, behind, next, done);
    }
}

/// One argument, read from its written form, and the comma behind it are
/// taken, and the parser goes on with the arguments behind them.
pub proof fn lemma_argument_step(
    e: ExpressionView,
    separator: TokenView,
    behind: Seq<TokenView>,
    next: Seq<TokenView>,
    done: Seq<ExpressionView>,
)
    requires
        readable_expression(e),
        reads_back(e, seq![separator] + behind, Precedence::LOWEST),
        separator == mark(TokenType::Comma) && next == behind || separator == mark(
            TokenType::RParen,
        ) && next == seq![separator] + behind,
    ensures
        parse_call_args_rest(written_expression(e, seq![separator] + behind), done)
            == parse_call_args_rest(next, done.push(e)),
{
    let after = seq![separator] + behind;
    let ts = written_expression(e, after);
    lemma_front(separator, behind);
    lemma_front(last_token(e), after);
    lemma_written_expression_begins(e, after);
    lemma_ends_before(e, last_token(e), separator, behind, Precedence::LOWEST);
    assert(parse_expression_spec(ts, Precedence::LOWEST) == yields(
        e,
        seq![last_token(e)] + after,
    ));
}

/// The written form of a statement is read as that statement, up to its
/// `;`.
pub proof fn lemma_statement_reads_back(s: StatementView, rest: Seq<TokenView>)
    requires
        readable_statement(s),
    ensures
        parse_statement_spec(written_statement(s, rest)) == yields(
            s,
            seq![mark(TokenType::Semicolon)] + rest,
        ),
    decreases s, 0nat,
{
    let closing = seq![mark(TokenType::Semicolon)] + rest;
    lemma_front(mark(TokenType::Semicolon), rest);
    match s {
        StatementView::Let { name, right } => {
            lemma_expression_reads_back(right, closing, Precedence::LOWEST);
            lemma_reads_let(s, rest);
        },
        StatementView::Return { value } => {
            lemma_expression_reads_back(value, closing, Precedence::LOWEST);
            lemma_reads_return(s, rest);
        },
        StatementView::Expression { expression } => {
            lemma_expression_reads_back(expression, closing, Precedence::LOWEST);
            lemma_reads_expression_statement(s, rest);
        },
    }
}

/// A `let` statement is read as it is written, where its expression is.
pub proof fn lemma_reads_let(s: StatementView, rest: Seq<TokenView>)
    requires
        s is Let,
        readable_statement(s),
        reads_back(s->Let_right, seq![mark(TokenType::Semicolon)] + rest, Precedence::LOWEST),
    ensures
        parse_statement_spec(written_statement(s, rest)) == yields(
            s,
            seq![mark(TokenType::Semicolon)] + rest,
        ),
{
    let name = s->Let_name;
    let right = s->Let_right;
    let closing = seq![mark(TokenType::Semicolon)] + rest;
    let from_right = written_expression(right, closing);
    let ts = written_statement(s, rest);
    assert(ts =~= seq![mark(TokenType::Let)] + (seq![identifier_token(name)] + (seq![
        mark(TokenType::Assign),
    ] + from_right)));
    lemma_front(mark(TokenType::Assign), from_right);
    lemma_front(identifier_token(name), seq![mark(TokenType::Assign)] + from_right);
    lemma_front(
        mark(TokenType::Let),
        seq![identifier_token(name)] + (seq![mark(TokenType::Assign)] + from_right),
    );
    lemma_front(mark(TokenType::Semicolon), rest);
    lemma_front(last_token(right), closing);
    lemma_ends_before(
        right,
        last_token(right),
        mark(TokenType::Semicolon),
        rest,
        Precedence::LOWEST,
    );
    assert(parse_expression_spec(from_right, Precedence::LOWEST) == yields(
        right,
        seq![last_token(right)] + closing,
    ));
    assert(parse_let_statement_spec(ts) == yields(s, closing));
}

/// A `return` statement is read as it is written, where its expression is.
pub proof fn lemma_reads_return(s: StatementView, rest: Seq<TokenView>)
    requires
        s is Return,
        readable_statement(s),
        reads_back(s->Return_value, seq![mark(TokenType::Semicolon)] + rest, Precedence::LOWEST),
    ensures
        parse_statement_spec(written_statement(s, rest)) == yields(
            s,
            seq![mark(TokenType::Semicolon)] + rest,
        ),
{
    let value = s->Return_value;
    let closing = seq![mark(TokenType::Semicolon)] + rest;
    let from_value = written_expression(value, closing);
    let ts = written_statement(s, rest);
    lemma_front(mark(TokenType::Return), from_value);
    lemma_front(mark(TokenType::Semicolon), rest);
    lemma_front(last_token(value), closing);
    lemma_ends_before(
        value,
        last_token(value),
        mark(TokenType::Semicolon),
        rest,
        Precedence::LOWEST,
    );
    assert(parse_expression_spec(from_value, Precedence::LOWEST) == yields(
        value,
        seq![last_token(value)] + closing,
    ));
    assert(parse_return_statement_spec(ts) == yields(s, closing));
}

/// An expression statement is read as it is written, where its expression
/// is.
pub proof fn lemma_reads_expression_statement(s: StatementView, rest: Seq<TokenView>)
    requires
        s is Expression,
        readable_statement(s),
        reads_back(
            s->Expression_expression,
            seq![mark(TokenType::Semicolon)] + rest,
            Precedence::LOWEST,
        ),
    ensures
        parse_statement_spec(written_statement(s, rest)) == yields(
            s,
            seq![mark(TokenType::Semicolon)] + rest,
        ),
{
    let expression = s->Expression_expression;
    let closing = seq![mark(TokenType::Semicolon)] + rest;
    let ts = written_statement(s, rest);
    lemma_front(mark(TokenType::Semicolon), rest);
    lemma_front(last_token(expression), closing);
    lemma_written_expression_begins(expression, closing);
    lemma_ends_before(
        expression,
        last_token(expression),
        mark(TokenType::Semicolon),
        rest,
        Precedence::LOWEST,
    );
    assert(parse_expression_spec(ts, Precedence::LOWEST) == yields(
        expression,
        seq![last_token(expression)] + closing,
    ));
    assert(parse_expression_statement_spec(ts) == yields(s, closing));
}

/// The written form of a block is read as the statements of the block.
pub proof fn lemma_block_reads_back(ss: Seq<StatementView>, rest: Seq<TokenView>)
    requires
        readable_statements(ss, 0),
    ensures
        parse_block_statement_spec(written_block(ss, rest)) == yields(
            ss,
            seq![mark(TokenType::RBrace)] + rest,
        ),
    decreases ss, ss.len() + 1,
{
    let inner = written_statements(ss, 0, seq![mark(TokenType::RBrace)] + rest);
    lemma_front(mark(TokenType::LBrace), inner);
    lemma_block_rest_reads_back(ss, 0, Seq::empty(), rest);
    assert(Seq::<StatementView>::empty() + ss.subrange(0, ss.len() as int) =~= ss);
}

/// The written form of the statements of a block, from position `from` on,
/// is read as those statements.
pub proof fn lemma_block_rest_reads_back(
    ss: Seq<StatementView>,
    from: nat,
    done: Seq<StatementView>,
    rest: Seq<TokenView>,
)
    requires
        from <= ss.len(),
        readable_statements(ss, from),
    ensures
        parse_block_rest(written_statements(ss, from, seq![mark(TokenType::RBrace)] + rest), done)
            == yields(
            done + ss.subrange(from as int, ss.len() as int),
            seq![mark(TokenType::RBrace)] + rest,
        ),
    decreases ss, ss.len() - from,
{
    let closing = seq![mark(TokenType::RBrace)] + rest;
    lemma_front(mark(TokenType::RBrace), rest);
    if from >= ss.len() {
        assert(done + ss.subrange(from as int, ss.len() as int) =~= done);
    } else {
        let s = ss[from as int];
        let next = written_statements(ss, from + 1, closing);
        lemma_block_rest_reads_back(ss, from + 1, done.push(s), rest);
        assert(done.push(s) + ss.subrange((from + 1) as int, ss.len() as int) =~= done + ss.subrange(
            from as int,
            ss.len() as int,
        ));
        lemma_statement_reads_back(s, next);
        lemma_written_statement_begins(s, next);
        lemma_written_statements_length(ss, from + 1, closing);
        lemma_front(mark(TokenType::Semicolon), next);
    }
}

/// The written form of the statements of a program, from position `from`
/// on, is read as those statements.
pub proof fn lemma_program_rest_reads_back(
    ss: Seq<StatementView>,
    from: nat,
    done: Seq<StatementView>,
)
    requires
        from <= ss.len(),
        readable_statements(ss, from),
    ensures
        parse_program_rest(written_statements(ss, from, Seq::empty()), done) == Ok::<
            Seq<StatementView>,
            ParserErrorView,
        >(done + ss.subrange(from as int, ss.len() as int)),
    decreases ss.len() - from,
{
    if from >= ss.len() {
        assert(done + ss.subrange(from as int, ss.len() as int) =~= done);
    } else {
        let s = ss[from as int];
        let next = written_statements(ss, from + 1, Seq::empty());
        lemma_program_rest_reads_back(ss, from + 1, done.push(s));
        assert(done.push(s) + ss.subrange((from + 1) as int, ss.len() as int) =~= done + ss.subrange(
            from as int,
            ss.len() as int,
        ));
        lemma_statement_reads_back(s, next);
        lemma_written_statement_begins(s, next);
        lemma_written_statements_length(ss, from + 1, Seq::empty());
        lemma_front(mark(TokenType::Semicolon), next);
    }
}

/// The parser reads the written form of a program back as that program: for
/// every program without negative integer literals, parsing the tokens of
/// its written form yields the program.
pub proof fn lemma_program_reads_back(program: Seq<StatementView>)
    requires
        readable_statements(program, 0),
    ensures
        parse_program_spec(written_statements(program, 0, Seq::empty())) == Ok::<
            Seq<StatementView>,
            ParserErrorView,
        >(program),
{
    lemma_program_rest_reads_back(program, 0, Seq::empty());
    assert(Seq::<StatementView>::empty() + program.subrange(0, program.len() as int)
        =~= program);
}

} // verus!
