use crate::ast::ExpressionView;
use crate::ast::InfixOperator;
use crate::ast::PrefixOperator;
use crate::parser::advance;
use crate::parser::first;
use crate::parser::infix_operator_of;
use crate::parser::parse_expression_spec;
use crate::parser::parse_infix_expression_spec;
use crate::parser::parse_infix_rest;
use crate::parser::precedence_of;
use crate::parser::second;
use crate::parser::ParsedInfixView;
use crate::parser::Precedence;
use crate::token::TokenType;
use crate::token::TokenView;
use vstd::prelude::*;

verus! {

/// The token that writes an infix operator.
pub open spec fn operator_token(operator: InfixOperator) -> TokenView {
    TokenView::plain(
        match operator {
            InfixOperator::Plus => TokenType::Plus,
            InfixOperator::Minus => TokenType::Minus,
            InfixOperator::Multiply => TokenType::Asterisk,
            InfixOperator::Divide => TokenType::Slash,
            InfixOperator::Gt => TokenType::Gt,
            InfixOperator::Lt => TokenType::Lt,
            InfixOperator::Eq => TokenType::Eq,
            InfixOperator::NotEq => TokenType::NotEq,
        },
    )
}

/// The token that writes a prefix operator.
pub open spec fn prefix_token(operator: PrefixOperator) -> TokenView {
    TokenView::plain(
        match operator {
            PrefixOperator::Bang => TokenType::Bang,
            PrefixOperator::Minus => TokenType::Minus,
        },
    )
}

/// How tightly an infix operator binds.
pub open spec fn binding(operator: InfixOperator) -> Precedence {
    precedence_of(operator_token(operator).kind)
}

/// The token that writes an identifier.
pub open spec fn identifier_token(name: Seq<char>) -> TokenView {
    TokenView::with_text(TokenType::Ident, name)
}

/// The expression that an identifier is.
pub open spec fn named(name: Seq<char>) -> ExpressionView {
    ExpressionView::Identifier { value: name }
}

/// Two expressions joined by an infix operator.
pub open spec fn infix(left: ExpressionView, operator: InfixOperator, right: ExpressionView) -> ExpressionView {
    ExpressionView::Infix { left: Box::new(left), operator, right: Box::new(right) }
}

/// Whether an expression ends before the tokens `rest`: they start with
/// `;`, or with a token that binds nothing, or there are none.
pub open spec fn ends_expression(rest: Seq<TokenView>) -> bool {
    first(rest).kind == TokenType::Semicolon || precedence_of(first(rest).kind)
        == Precedence::LOWEST
}

/// The levels of the operators, in ascending order: `==` and `!=`, then `<`
/// and `>`, then `+` and `-`, then `*` and `/`; a prefix operator binds
/// tighter than each of them, and a call tighter still.
pub proof fn lemma_precedence_table()
    ensures
        Precedence::LOWEST.rank() < Precedence::EQUALS.rank() < Precedence::LESSGREATER.rank()
            < Precedence::SUM.rank() < Precedence::PRODUCT.rank() < Precedence::PREFIX.rank()
            < Precedence::CALL.rank(),
        binding(InfixOperator::Eq) == Precedence::EQUALS,
        binding(InfixOperator::NotEq) == Precedence::EQUALS,
        binding(InfixOperator::Lt) == Precedence::LESSGREATER,
        binding(InfixOperator::Gt) == Precedence::LESSGREATER,
        binding(InfixOperator::Plus) == Precedence::SUM,
        binding(InfixOperator::Minus) == Precedence::SUM,
        binding(InfixOperator::Multiply) == Precedence::PRODUCT,
        binding(InfixOperator::Divide) == Precedence::PRODUCT,
        precedence_of(TokenType::LParen) == Precedence::CALL,
{
}

/// An operator that binds no tighter than the level asked for ends the
/// expression, and so does `;`: the operand stays as it is.
pub proof fn lemma_looser_operator_ends(
    left: ExpressionView,
    ts: Seq<TokenView>,
    precedence: Precedence,
)
    requires
        second(ts).kind == TokenType::Semicolon || precedence_of(second(ts).kind).rank()
            <= precedence.rank(),
    ensures
        parse_infix_rest(left, ts, precedence) == (
            Ok::<ExpressionView, crate::parser::ParserErrorView>(left),
            ts,
        ),
{
}

/// An operator that binds tighter than the level asked for takes the operand
/// before it as its left operand, and as its right operand the expression
/// behind it in which only tighter operators are taken.
pub proof fn lemma_tighter_operator_joins(
    left: ExpressionView,
    current: TokenView,
    operator: InfixOperator,
    rest: Seq<TokenView>,
    precedence: Precedence,
)
    requires
        precedence.rank() < binding(operator).rank(),
        parse_expression_spec(rest, binding(operator)).0 is Ok,
    ensures
        parse_infix_rest(left, seq![current, operator_token(operator)] + rest, precedence)
            == parse_infix_rest(
            infix(left, operator, parse_expression_spec(rest, binding(operator)).0->Ok_0),
            parse_expression_spec(rest, binding(operator)).1,
            precedence,
        ),
{
    let ts = seq![current, operator_token(operator)] + rest;
    let ts1 = advance(ts);
    assert(ts1 =~= seq![operator_token(operator)] + rest);
    assert(advance(ts1) =~= rest);
    assert(first(ts1) == operator_token(operator));
    assert(second(ts) == operator_token(operator));
    assert(infix_operator_of(operator_token(operator).kind) == Some(operator));
    crate::parser::lemma_expression_bounds(rest, binding(operator));
    let (result, out) = parse_expression_spec(rest, binding(operator));
    assert(parse_infix_expression_spec(ts1) == Some(
        (
            Ok::<ParsedInfixView, crate::parser::ParserErrorView>(
                ParsedInfixView::Infix { right: result->Ok_0, operator },
            ),
            out,
        ),
    ));
}

/// An identifier before the end of an expression is that expression.
pub proof fn lemma_single_operand(name: Seq<char>, rest: Seq<TokenView>, precedence: Precedence)
    requires
        first(rest).kind == TokenType::Semicolon || precedence_of(first(rest).kind).rank()
            <= precedence.rank(),
    ensures
        parse_expression_spec(seq![identifier_token(name)] + rest, precedence) == (
            Ok::<ExpressionView, crate::parser::ParserErrorView>(named(name)),
            seq![identifier_token(name)] + rest,
        ),
{
    let ts = seq![identifier_token(name)] + rest;
    assert(first(ts) == identifier_token(name));
    assert(second(ts) == first(rest));
    lemma_looser_operator_ends(named(name), ts, precedence);
}

/// In `a op1 b op2 c` the operands are grouped by how tightly the operators
/// bind: where the second operator binds tighter than the first, it takes
/// `b` and `c`, and the first operator takes `a` and their join; else the
/// first operator takes `a` and `b`, and the second takes their join and
/// `c`. Operators of one level thus group from the left.
pub proof fn lemma_two_operators(
    a: Seq<char>,
    op1: InfixOperator,
    b: Seq<char>,
    op2: InfixOperator,
    c: Seq<char>,
    rest: Seq<TokenView>,
)
    requires
        ends_expression(rest),
    ensures
        parse_expression_spec(
            seq![
                identifier_token(a),
                operator_token(op1),
                identifier_token(b),
                operator_token(op2),
                identifier_token(c),
            ] + rest,
            Precedence::LOWEST,
        ) == (
            Ok::<ExpressionView, crate::parser::ParserErrorView>(
                if binding(op1).rank() < binding(op2).rank() {
                    infix(named(a), op1, infix(named(b), op2, named(c)))
                } else {
                    infix(infix(named(a), op1, named(b)), op2, named(c))
                },
            ),
            seq![identifier_token(c)] + rest,
        ),
{
    let ts = seq![
        identifier_token(a),
        operator_token(op1),
        identifier_token(b),
        operator_token(op2),
        identifier_token(c),
    ] + rest;
    let from_b = seq![identifier_token(b), operator_token(op2), identifier_token(c)] + rest;
    let from_c = seq![identifier_token(c)] + rest;
    assert(ts =~= seq![identifier_token(a), operator_token(op1)] + from_b);
    assert(from_b =~= seq![identifier_token(b), operator_token(op2)] + from_c);
    assert(first(ts) == identifier_token(a));
    assert(first(from_b) == identifier_token(b));
    assert(second(from_b) == operator_token(op2));
    assert(second(from_c) == first(rest));
    // The right operand of the second operator is `c`.
    lemma_single_operand(c, rest, binding(op2));
    if binding(op1).rank() < binding(op2).rank() {
        // Behind `op1` stands `b op2 c`.
        lemma_tighter_operator_joins(named(b), identifier_token(b), op2, from_c, binding(op1));
        lemma_looser_operator_ends(infix(named(b), op2, named(c)), from_c, binding(op1));
        assert(parse_expression_spec(from_b, binding(op1)) == (
            Ok::<ExpressionView, crate::parser::ParserErrorView>(
                infix(named(b), op2, named(c)),
            ),
            from_c,
        ));
        lemma_tighter_operator_joins(
            named(a),
            identifier_token(a),
            op1,
            from_b,
            Precedence::LOWEST,
        );
        lemma_looser_operator_ends(
            infix(named(a), op1, infix(named(b), op2, named(c))),
            from_c,
            Precedence::LOWEST,
        );
    } else {
        // Behind `op1` stands `b` alone.
        lemma_looser_operator_ends(named(b), from_b, binding(op1));
        assert(parse_expression_spec(from_b, binding(op1)) == (
            Ok::<ExpressionView, crate::parser::ParserErrorView>(named(b)),
            from_b,
        ));
        lemma_tighter_operator_joins(
            named(a),
            identifier_token(a),
            op1,
            from_b,
            Precedence::LOWEST,
        );
        lemma_tighter_operator_joins(
            infix(named(a), op1, named(b)),
            identifier_token(b),
            op2,
            from_c,
            Precedence::LOWEST,
        );
        lemma_looser_operator_ends(
            infix(infix(named(a), op1, named(b)), op2, named(c)),
            from_c,
            Precedence::LOWEST,
        );
    }
}

/// A prefix operator binds tighter than any infix operator: in `-a op b`
/// and `!a op b` the prefix operator takes `a` alone.
pub proof fn lemma_prefix_binds_tighter(
    prefix: PrefixOperator,
    a: Seq<char>,
    operator: InfixOperator,
    b: Seq<char>,
    rest: Seq<TokenView>,
)
    requires
        ends_expression(rest),
    ensures
        parse_expression_spec(
            seq![
                prefix_token(prefix),
                identifier_token(a),
                operator_token(operator),
                identifier_token(b),
            ] + rest,
            Precedence::LOWEST,
        ) == (
            Ok::<ExpressionView, crate::parser::ParserErrorView>(
                infix(
                    ExpressionView::Prefix { operator: prefix, right: Box::new(named(a)) },
                    operator,
                    named(b),
                ),
            ),
            seq![identifier_token(b)] + rest,
        ),
{
    let ts = seq![
        prefix_token(prefix),
        identifier_token(a),
        operator_token(operator),
        identifier_token(b),
    ] + rest;
    let from_a = seq![identifier_token(a), operator_token(operator), identifier_token(b)] + rest;
    let from_b = seq![identifier_token(b)] + rest;
    let negated = ExpressionView::Prefix { operator: prefix, right: Box::new(named(a)) };
    assert(first(ts) == prefix_token(prefix));
    assert(advance(ts) =~= from_a);
    assert(from_a =~= seq![identifier_token(a), operator_token(operator)] + from_b);
    assert(first(from_a) == identifier_token(a));
    assert(second(from_a) == operator_token(operator));
    assert(second(from_b) == first(rest));
    lemma_looser_operator_ends(named(a), from_a, Precedence::PREFIX);
    assert(parse_expression_spec(from_a, Precedence::PREFIX) == (
        Ok::<ExpressionView, crate::parser::ParserErrorView>(named(a)),
        from_a,
    ));
    lemma_single_operand(b, rest, binding(operator));
    lemma_tighter_operator_joins(
        negated,
        identifier_token(a),
        operator,
        from_b,
        Precedence::LOWEST,
    );
    lemma_looser_operator_ends(infix(negated, operator, named(b)), from_b, Precedence::LOWEST);
}

} // verus!
