use crate::ast::block_text;
use crate::ast::expression_text;
use crate::ast::expressions_text;
use crate::ast::joined;
use crate::ast::statement_text;
use crate::ast::statements_text;
use crate::ast::ExpressionView;
use crate::ast::InfixOperator;
use crate::ast::PrefixOperator;
use crate::ast::StatementView;
use crate::grouping::identifier_token;
use crate::grouping::operator_token;
use crate::grouping::prefix_token;
use crate::lexer::digit;
use crate::lexer::letter;
use crate::lexer::tokens_from;
use crate::lexing::all_letters;
use crate::lexing::lemma_lex_assign;
use crate::lexing::lemma_lex_bang;
use crate::lexing::lemma_lex_eq;
use crate::lexing::lemma_lex_not_eq;
use crate::lexing::lemma_lex_number;
use crate::lexing::lemma_lex_punctuation;
use crate::lexing::lemma_lex_space;
use crate::lexing::lemma_lex_string;
use crate::lexing::no_quote;
use crate::lexing::lemma_lex_word;
use crate::lexing::separate;
use crate::text::boolean_text;
use crate::text::decimal;
use crate::text::lemma_decimal_digits_value;
use crate::parser::parse_program_spec;
use crate::parser::ParserErrorView;
use crate::token::keyword;
use crate::token::TokenType;
use crate::token::TokenView;
use crate::written::lemma_program_reads_back;
use crate::written::mark;
use crate::written::readable_expression;
use crate::written::readable_expressions;
use crate::written::readable_statement;
use crate::written::readable_statements;
use crate::written::written_arguments;
use crate::written::written_block;
use crate::written::written_expression;
use crate::written::written_parameters;
use crate::written::written_statement;
use crate::written::written_statements;
use vstd::prelude::*;

verus! {

/// Whether a text can be the name of a variable: one or more letters that
/// spell no keyword.
pub open spec fn plain_name(name: Seq<char>) -> bool {
    name.len() > 0 && all_letters(name) && keyword(name) is None
}

/// Whether each name from position `from` on can be the name of a variable.
pub open spec fn plain_names(names: Seq<Seq<char>>, from: nat) -> bool
    decreases names.len() - from,
{
    if from >= names.len() {
        true
    } else {
        plain_name(names[from as int]) && plain_names(names, from + 1)
    }
}

/// Whether the text that is written for an expression can be read back: the
/// names in it can be names of variables, no string literal holds a double
/// quote, and no integer literal is negative.
pub open spec fn writable_expression(e: ExpressionView) -> bool
    decreases e,
{
    match e {
        ExpressionView::Identifier { value } => plain_name(value),
        ExpressionView::IntegerLiteral { value } => value >= 0,
        ExpressionView::StringLiteral { value } => no_quote(value),
        ExpressionView::Prefix { right, .. } => writable_expression(*right),
        ExpressionView::Infix { left, right, .. } => writable_expression(*left)
            && writable_expression(*right),
        ExpressionView::Boolean { .. } => true,
        ExpressionView::If { condition, consequence, alternative } => writable_expression(
            *condition,
        ) && writable_statements(consequence, 0) && match alternative {
            Some(block) => writable_statements(block, 0),
            None => true,
        },
        ExpressionView::FnLiteral { param_names, body } => plain_names(param_names, 0)
            && writable_statements(body, 0),
        ExpressionView::CallExpression { left, arguments } => writable_expression(*left)
            && writable_expressions(arguments, 0),
        ExpressionView::Block { statements } => writable_statements(statements, 0),
    }
}

/// Whether the text that is written for each expression from position
/// `from` on can be read back.
pub open spec fn writable_expressions(es: Seq<ExpressionView>, from: nat) -> bool
    decreases es, es.len() - from,
{
    if from >= es.len() {
        true
    } else {
        writable_expression(es[from as int]) && writable_expressions(es, from + 1)
    }
}

/// Whether the text that is written for a statement can be read back.
pub open spec fn writable_statement(s: StatementView) -> bool
    decreases s,
{
    match s {
        StatementView::Let { name, right } => plain_name(name) && writable_expression(right),
        StatementView::Return { value } => writable_expression(value),
        StatementView::Expression { expression } => writable_expression(expression),
    }
}

/// Whether the text that is written for each statement from position `from`
/// on can be read back.
pub open spec fn writable_statements(ss: Seq<StatementView>, from: nat) -> bool
    decreases ss, ss.len() - from,
{
    if from >= ss.len() {
        true
    } else {
        writable_statement(ss[from as int]) && writable_statements(ss, from + 1)
    }
}

/// The text that is written for an expression, before the text `rest`.
pub open spec fn expression_before(e: ExpressionView, rest: Seq<char>) -> Seq<char>
    decreases e,
{
    match e {
        ExpressionView::Identifier { value } => value + rest,
        ExpressionView::IntegerLiteral { value } => decimal(value as int) + rest,
        ExpressionView::StringLiteral { value } => seq!['"'] + (value + (seq!['"'] + rest)),
        ExpressionView::Boolean { value } => boolean_text(value) + rest,
        ExpressionView::Prefix { operator, right } => seq!['('] + (operator.symbol()
            + expression_before(*right, seq![')'] + rest)),
        ExpressionView::Infix { left, operator, right } => seq!['('] + expression_before(
            *left,
            seq![' '] + (operator.symbol() + (seq![' '] + expression_before(
                *right,
                seq![')'] + rest,
            ))),
        ),
        ExpressionView::If { condition, consequence, alternative } => "if"@ + (seq![' '] + (seq![
            '(',
        ] + expression_before(
            *condition,
            seq![')'] + (seq![' '] + block_before(
                consequence,
                seq![' '] + match alternative {
                    Some(block) => "else"@ + (seq![' '] + block_before(block, rest)),
                    None => rest,
                },
            )),
        ))),
        ExpressionView::FnLiteral { param_names, body } => "fn"@ + (seq!['('] + parameters_before(
            param_names,
            0,
            seq![')'] + (seq![' '] + block_before(body, rest)),
        )),
        ExpressionView::CallExpression { left, arguments } => expression_before(
            *left,
            seq!['('] + arguments_before(arguments, 0, seq![')'] + rest),
        ),
        ExpressionView::Block { statements } => block_before(statements, rest),
    }
}

/// The text that is written for the arguments from position `from` on,
/// before the text `rest`.
pub open spec fn arguments_before(es: Seq<ExpressionView>, from: nat, rest: Seq<char>) -> Seq<
    char,
>
    decreases es, es.len() - from,
{
    if from >= es.len() {
        rest
    } else if from + 1 == es.len() {
        expression_before(es[from as int], rest)
    } else {
        expression_before(
            es[from as int],
            seq![','] + (seq![' '] + arguments_before(es, from + 1, rest)),
        )
    }
}

/// The text that is written for the parameters from position `from` on,
/// before the text `rest`.
pub open spec fn parameters_before(names: Seq<Seq<char>>, from: nat, rest: Seq<char>) -> Seq<
    char,
>
    decreases names.len() - from,
{
    if from >= names.len() {
        rest
    } else if from + 1 == names.len() {
        names[from as int] + rest
    } else {
        names[from as int] + (seq![','] + (seq![' '] + parameters_before(names, from + 1, rest)))
    }
}

/// The text that is written for a block, before the text `rest`.
pub open spec fn block_before(ss: Seq<StatementView>, rest: Seq<char>) -> Seq<char>
    decreases ss, ss.len() + 1,
{
    seq!['{'] + statements_before(ss, 0, seq!['}'] + rest)
}

/// The text that is written for the statements from position `from` on,
/// before the text `rest`.
pub open spec fn statements_before(ss: Seq<StatementView>, from: nat, rest: Seq<char>) -> Seq<
    char,
>
    decreases ss, ss.len() - from,
{
    if from >= ss.len() {
        rest
    } else {
        statement_before(ss[from as int], statements_before(ss, from + 1, rest))
    }
}

/// The text that is written for a statement, before the text `rest`.
pub open spec fn statement_before(s: StatementView, rest: Seq<char>) -> Seq<char>
    decreases s,
{
    match s {
        StatementView::Let { name, right } => "let"@ + (seq![' '] + (name + (seq![' '] + (seq![
            '=',
        ] + (seq![' '] + expression_before(right, seq![';'] + rest)))))),
        StatementView::Return { value } => "return"@ + (seq![' '] + expression_before(
            value,
            seq![';'] + rest,
        )),
        StatementView::Expression { expression } => expression_before(
            expression,
            seq![';'] + rest,
        ),
    }
}

/// What is writable is readable.
pub proof fn lemma_writable_expression_is_readable(e: ExpressionView)
    requires
        writable_expression(e),
    ensures
        readable_expression(e),
    decreases e,
{
    match e {
        ExpressionView::Prefix { right, .. } => {
            lemma_writable_expression_is_readable(*right);
        },
        ExpressionView::Infix { left, right, .. } => {
            lemma_writable_expression_is_readable(*left);
            lemma_writable_expression_is_readable(*right);
        },
        ExpressionView::If { condition, consequence, alternative } => {
            lemma_writable_expression_is_readable(*condition);
            lemma_writable_statements_are_readable(consequence, 0);
            match alternative {
                Some(block) => {
                    lemma_writable_statements_are_readable(block, 0);
                },
                None => {},
            }
        },
        ExpressionView::FnLiteral { body, .. } => {
            lemma_writable_statements_are_readable(body, 0);
        },
        ExpressionView::Block { statements } => {
            lemma_writable_statements_are_readable(statements, 0);
        },
        ExpressionView::CallExpression { left, arguments } => {
            lemma_writable_expression_is_readable(*left);
            lemma_writable_expressions_are_readable(arguments, 0);
        },
        _ => {},
    }
}

/// What is writable is readable, for a list of expressions.
pub proof fn lemma_writable_expressions_are_readable(es: Seq<ExpressionView>, from: nat)
    requires
        writable_expressions(es, from),
    ensures
        readable_expressions(es, from),
    decreases es, es.len() - from,
{
    if from < es.len() {
        lemma_writable_expression_is_readable(es[from as int]);
        lemma_writable_expressions_are_readable(es, from + 1);
    }
}

/// What is writable is readable, for a list of statements.
pub proof fn lemma_writable_statements_are_readable(ss: Seq<StatementView>, from: nat)
    requires
        writable_statements(ss, from),
    ensures
        readable_statements(ss, from),
    decreases ss, ss.len() - from,
{
    if from < ss.len() {
        assert(writable_statement(ss[from as int]));
        match ss[from as int] {
            StatementView::Let { right, .. } => {
                lemma_writable_expression_is_readable(right);
            },
            StatementView::Return { value } => {
                lemma_writable_expression_is_readable(value);
            },
            StatementView::Expression { expression } => {
                lemma_writable_expression_is_readable(expression);
            },
        }
        lemma_writable_statements_are_readable(ss, from + 1);
        assert(readable_statement(ss[from as int]));
    }
}

/// The keywords are words of letters, and each spells itself.
pub proof fn lemma_keywords()
    ensures
        "fn"@.len() > 0 && all_letters("fn"@) && keyword("fn"@) == Some(TokenType::Function),
        "let"@.len() > 0 && all_letters("let"@) && keyword("let"@) == Some(TokenType::Let),
        "if"@.len() > 0 && all_letters("if"@) && keyword("if"@) == Some(TokenType::If),
        "else"@.len() > 0 && all_letters("else"@) && keyword("else"@) == Some(TokenType::Else),
        "return"@.len() > 0 && all_letters("return"@) && keyword("return"@) == Some(
            TokenType::Return,
        ),
        "true"@.len() > 0 && all_letters("true"@) && keyword("true"@) == Some(TokenType::True),
        "false"@.len() > 0 && all_letters("false"@) && keyword("false"@) == Some(
            TokenType::False,
        ),
{
    reveal_strlit("fn");
    reveal_strlit("let");
    reveal_strlit("if");
    reveal_strlit("else");
    reveal_strlit("return");
    reveal_strlit("true");
    reveal_strlit("false");
    assert("fn"@ =~= seq!['f', 'n']);
    assert("let"@ =~= seq!['l', 'e', 't']);
    assert("if"@ =~= seq!['i', 'f']);
    assert("else"@ =~= seq!['e', 'l', 's', 'e']);
    assert("return"@ =~= seq!['r', 'e', 't', 'u', 'r', 'n']);
    assert("true"@ =~= seq!['t', 'r', 'u', 'e']);
    assert("false"@ =~= seq!['f', 'a', 'l', 's', 'e']);
    assert("let"@[0] == 'l');
    assert("if"@[0] == 'i');
    assert("else"@[0] == 'e');
    assert("return"@[0] == 'r');
    assert("true"@[0] == 't');
    assert("false"@[1] == 'a');
    assert("fn"@[1] == 'n');
}

/// A keyword before a text that starts with no letter is read as the
/// keyword's token.
pub proof fn lemma_lex_keyword(word: Seq<char>, kind: TokenType, rest: Seq<char>)
    requires
        word.len() > 0,
        all_letters(word),
        keyword(word) == Some(kind),
        rest.len() == 0 || !letter(rest[0]),
    ensures
        tokens_from(word + rest, 0) == seq![mark(kind)] + tokens_from(rest, 0),
{
    lemma_lex_word(word, rest);
}

/// The sign of an infix operator is read as the operator's token, whatever
/// follows it.
pub proof fn lemma_lex_operator(operator: InfixOperator, rest: Seq<char>)
    ensures
        tokens_from(operator.symbol() + rest, 0) == seq![operator_token(operator)] + tokens_from(
            rest,
            0,
        ),
{
    reveal_strlit("+");
    reveal_strlit("-");
    reveal_strlit("*");
    reveal_strlit("/");
    reveal_strlit(">");
    reveal_strlit("<");
    reveal_strlit("==");
    reveal_strlit("!=");
    match operator {
        InfixOperator::Plus => {
            assert(operator.symbol() =~= seq!['+']);
            lemma_lex_punctuation('+', rest);
        },
        InfixOperator::Minus => {
            assert(operator.symbol() =~= seq!['-']);
            lemma_lex_punctuation('-', rest);
        },
        InfixOperator::Multiply => {
            assert(operator.symbol() =~= seq!['*']);
            lemma_lex_punctuation('*', rest);
        },
        InfixOperator::Divide => {
            assert(operator.symbol() =~= seq!['/']);
            lemma_lex_punctuation('/', rest);
        },
        InfixOperator::Gt => {
            assert(operator.symbol() =~= seq!['>']);
            lemma_lex_punctuation('>', rest);
        },
        InfixOperator::Lt => {
            assert(operator.symbol() =~= seq!['<']);
            lemma_lex_punctuation('<', rest);
        },
        InfixOperator::Eq => {
            assert(operator.symbol() =~= seq!['=', '=']);
            lemma_lex_eq(rest);
        },
        InfixOperator::NotEq => {
            assert(operator.symbol() =~= seq!['!', '=']);
            lemma_lex_not_eq(rest);
        },
    }
}

/// The sign of a prefix operator before anything but `=` is read as the
/// operator's token.
pub proof fn lemma_lex_prefix(operator: PrefixOperator, rest: Seq<char>)
    requires
        rest.len() == 0 || rest[0] != '=',
    ensures
        tokens_from(operator.symbol() + rest, 0) == seq![prefix_token(operator)] + tokens_from(
            rest,
            0,
        ),
{
    reveal_strlit("-");
    reveal_strlit("!");
    match operator {
        PrefixOperator::Minus => {
            assert(operator.symbol() =~= seq!['-']);
            lemma_lex_punctuation('-', rest);
        },
        PrefixOperator::Bang => {
            assert(operator.symbol() =~= seq!['!']);
            lemma_lex_bang(rest);
        },
    }
}

/// Whether a character can stand first in the text of an expression: a
/// letter, a digit, a double quote, an opening parenthesis or an opening
/// brace.
pub open spec fn opens_expression(ch: char) -> bool {
    letter(ch) || digit(ch) || ch == '(' || ch == '{' || ch == '"'
}

/// The text of an expression is not empty and starts with a character that
/// can stand first in one.
pub proof fn lemma_expression_opens(e: ExpressionView, rest: Seq<char>)
    requires
        writable_expression(e),
    ensures
        expression_before(e, rest).len() > 0,
        opens_expression(expression_before(e, rest)[0]),
    decreases e,
{
    match e {
        ExpressionView::Identifier { value } => {
            assert((value + rest)[0] == value[0]);
        },
        ExpressionView::IntegerLiteral { value } => {
            lemma_decimal_digits_value(value as nat);
            let digits = decimal(value as int);
            assert((digits + rest)[0] == digits[0]);
        },
        ExpressionView::Boolean { value } => {
            lemma_keywords();
            let word = boolean_text(value);
            assert((word + rest)[0] == word[0]);
        },
        ExpressionView::Prefix { operator, right } => {},
        ExpressionView::Infix { left, operator, right } => {},
        ExpressionView::StringLiteral { value } => {
            assert(expression_before(e, rest)[0] == '"');
        },
        ExpressionView::Block { statements } => {
            assert(block_before(statements, rest)[0] == '{');
        },
        ExpressionView::If { condition, consequence, alternative } => {
            lemma_keywords();
            assert(expression_before(e, rest)[0] == "if"@[0]);
        },
        ExpressionView::FnLiteral { param_names, body } => {
            lemma_keywords();
            assert(expression_before(e, rest)[0] == "fn"@[0]);
        },
        ExpressionView::CallExpression { left, arguments } => {
            lemma_expression_opens(
                *left,
                seq!['('] + arguments_before(arguments, 0, seq![')'] + rest),
            );
        },
        _ => {},
    }
}

/// The tokens of a text.
pub open spec fn lexed(s: Seq<char>) -> Seq<TokenView> {
    tokens_from(s, 0)
}

/// Whether the text written for `e` before `rest` is read as the tokens
/// written for `e` before the tokens of `rest`.
pub open spec fn lexes_expression(e: ExpressionView, rest: Seq<char>) -> bool {
    lexed(expression_before(e, rest)) == written_expression(e, lexed(rest))
}

/// A text that starts with a character that is neither a letter nor a digit
/// is separate from what stands before it.
pub proof fn lemma_separate(ch: char, rest: Seq<char>)
    requires
        !letter(ch) && !digit(ch),
    ensures
        separate(seq![ch] + rest),
        (seq![ch] + rest).len() > 0,
        (seq![ch] + rest)[0] == ch,
{
}

/// One character that is a token by itself, read before a text.
pub proof fn lemma_lex_mark(ch: char, kind: TokenType, rest: Seq<char>)
    requires
        crate::lexer::punctuation(ch) == Some(kind),
    ensures
        lexed(seq![ch] + rest) == seq![mark(kind)] + lexed(rest),
{
    lemma_lex_punctuation(ch, rest);
}

/// A space, read before a text.
pub proof fn lemma_lex_blank(rest: Seq<char>)
    ensures
        lexed(seq![' '] + rest) == lexed(rest),
{
    lemma_lex_space(rest);
}

/// The text of a literal or of an identifier is read as its token.
pub proof fn lemma_lexes_atom(e: ExpressionView, rest: Seq<char>)
    requires
        writable_expression(e),
        e is Identifier || e is IntegerLiteral || e is Boolean || e is StringLiteral,
        separate(rest),
    ensures
        lexes_expression(e, rest),
{
    match e {
        ExpressionView::Identifier { value } => {
            lemma_lex_word(value, rest);
        },
        ExpressionView::StringLiteral { value } => {
            lemma_lex_string(value, rest);
        },
        ExpressionView::IntegerLiteral { value } => {
            lemma_decimal_digits_value(value as nat);
            lemma_lex_number(decimal(value as int), rest);
        },
        ExpressionView::Boolean { value } => {
            lemma_keywords();
            if value {
                lemma_lex_keyword("true"@, TokenType::True, rest);
            } else {
                lemma_lex_keyword("false"@, TokenType::False, rest);
            }
        },
        _ => {},
    }
}

/// The text of a prefix expression is read as its tokens, where the text of
/// its operand is.
pub proof fn lemma_lexes_prefix(e: ExpressionView, rest: Seq<char>)
    requires
        e is Prefix,
        writable_expression(e),
        lexes_expression(*e->Prefix_right, seq![')'] + rest),
    ensures
        lexes_expression(e, rest),
{
    let operator = e->Prefix_operator;
    let right = *e->Prefix_right;
    let closing = seq![')'] + rest;
    let inner = expression_before(right, closing);
    lemma_lex_mark('(', TokenType::LParen, operator.symbol() + inner);
    lemma_expression_opens(right, closing);
    lemma_lex_prefix(operator, inner);
    lemma_lex_mark(')', TokenType::RParen, rest);
    let tokens = written_expression(right, seq![mark(TokenType::RParen)] + lexed(rest));
    assert(seq![mark(TokenType::LParen)] + (seq![prefix_token(operator)] + tokens) =~= seq![
        mark(TokenType::LParen),
        prefix_token(operator),
    ] + tokens);
}

/// The text of an infix expression is read as its tokens, where the texts
/// of its operands are.
pub proof fn lemma_lexes_infix(e: ExpressionView, rest: Seq<char>)
    requires
        e is Infix,
        writable_expression(e),
        lexes_expression(*e->Infix_right, seq![')'] + rest),
        lexes_expression(
            *e->Infix_left,
            seq![' '] + (e->Infix_operator.symbol() + (seq![' '] + expression_before(
                *e->Infix_right,
                seq![')'] + rest,
            ))),
        ),
    ensures
        lexes_expression(e, rest),
{
    let operator = e->Infix_operator;
    let left = *e->Infix_left;
    let right = *e->Infix_right;
    let closing = seq![')'] + rest;
    let from_right = expression_before(right, closing);
    let from_operator = operator.symbol() + (seq![' '] + from_right);
    let behind_left = seq![' '] + from_operator;
    lemma_lex_mark('(', TokenType::LParen, expression_before(left, behind_left));
    lemma_lex_blank(from_operator);
    lemma_lex_operator(operator, seq![' '] + from_right);
    lemma_lex_blank(from_right);
    lemma_lex_mark(')', TokenType::RParen, rest);
}

/// The text of a call is read as its tokens, where the texts of the called
/// expression and of the arguments are.
pub proof fn lemma_lexes_call(e: ExpressionView, rest: Seq<char>)
    requires
        e is CallExpression,
        writable_expression(e),
        lexes_expression(
            *e->CallExpression_left,
            seq!['('] + arguments_before(e->CallExpression_arguments, 0, seq![')'] + rest),
        ),
        lexed(arguments_before(e->CallExpression_arguments, 0, seq![')'] + rest))
            == written_arguments(
            e->CallExpression_arguments,
            0,
            seq![mark(TokenType::RParen)] + lexed(rest),
        ),
    ensures
        lexes_expression(e, rest),
{
    let arguments = e->CallExpression_arguments;
    lemma_lex_mark('(', TokenType::LParen, arguments_before(arguments, 0, seq![')'] + rest));
}

/// The text of an `if` expression is read as its tokens, where the texts of
/// its condition and of its blocks are.
pub proof fn lemma_lexes_if(e: ExpressionView, rest: Seq<char>)
    requires
        e is If,
        writable_expression(e),
        forall|behind: Seq<char>|
            separate(behind) ==> #[trigger] lexes_expression(*e->If_condition, behind),
        forall|behind: Seq<char>| #[trigger]
            lexed(block_before(e->If_consequence, behind)) == written_block(
                e->If_consequence,
                lexed(behind),
            ),
        e->If_alternative is Some ==> lexed(block_before(e->If_alternative->0, rest))
            == written_block(e->If_alternative->0, lexed(rest)),
    ensures
        lexes_expression(e, rest),
{
    let condition = *e->If_condition;
    let consequence = e->If_consequence;
    let alternative = e->If_alternative;
    let tail = match alternative {
        Some(block) => "else"@ + (seq![' '] + block_before(block, rest)),
        None => rest,
    };
    let from_block = block_before(consequence, seq![' '] + tail);
    let closing = seq![')'] + (seq![' '] + from_block);
    let from_condition = expression_before(condition, closing);
    lemma_keywords();
    lemma_separate(' ', seq!['('] + from_condition);
    lemma_lex_keyword("if"@, TokenType::If, seq![' '] + (seq!['('] + from_condition));
    lemma_lex_blank(seq!['('] + from_condition);
    lemma_lex_mark('(', TokenType::LParen, from_condition);
    lemma_separate(')', seq![' '] + from_block);
    assert(lexes_expression(condition, closing));
    lemma_lex_mark(')', TokenType::RParen, seq![' '] + from_block);
    lemma_lex_blank(from_block);
    assert(lexed(block_before(consequence, seq![' '] + tail)) == written_block(
        consequence,
        lexed(seq![' '] + tail),
    ));
    lemma_lex_blank(tail);
    match alternative {
        Some(block) => {
            lemma_separate(' ', block_before(block, rest));
            lemma_lex_keyword("else"@, TokenType::Else, seq![' '] + block_before(block, rest));
            lemma_lex_blank(block_before(block, rest));
        },
        None => {},
    }
    let tail_tokens = match alternative {
        Some(block) => seq![mark(TokenType::Else)] + written_block(block, lexed(rest)),
        None => lexed(rest),
    };
    assert(lexed(tail) == tail_tokens);
    let tokens = written_expression(
        condition,
        seq![mark(TokenType::RParen)] + written_block(consequence, tail_tokens),
    );
    assert(seq![mark(TokenType::If)] + (seq![mark(TokenType::LParen)] + tokens) =~= seq![
        mark(TokenType::If),
        mark(TokenType::LParen),
    ] + tokens);
}

/// The text of a function literal is read as its tokens, where the text of
/// its body is.
pub proof fn lemma_lexes_fn(e: ExpressionView, rest: Seq<char>)
    requires
        e is FnLiteral,
        writable_expression(e),
        lexed(block_before(e->FnLiteral_body, rest)) == written_block(
            e->FnLiteral_body,
            lexed(rest),
        ),
    ensures
        lexes_expression(e, rest),
{
    let names = e->FnLiteral_param_names;
    let body = e->FnLiteral_body;
    let from_block = block_before(body, rest);
    let closing = seq![')'] + (seq![' '] + from_block);
    let from_parameters = parameters_before(names, 0, closing);
    lemma_keywords();
    lemma_separate('(', from_parameters);
    lemma_lex_keyword("fn"@, TokenType::Function, seq!['('] + from_parameters);
    lemma_lex_mark('(', TokenType::LParen, from_parameters);
    lemma_lexes_parameters(names, 0, seq![' '] + from_block);
    lemma_lex_blank(from_block);
    let tokens = written_parameters(
        names,
        0,
        seq![mark(TokenType::RParen)] + written_block(body, lexed(rest)),
    );
    assert(seq![mark(TokenType::Function)] + (seq![mark(TokenType::LParen)] + tokens) =~= seq![
        mark(TokenType::Function),
        mark(TokenType::LParen),
    ] + tokens);
}

/// The text of the parameters of a function literal is read as their
/// tokens.
pub proof fn lemma_lexes_parameters(names: Seq<Seq<char>>, from: nat, rest: Seq<char>)
    requires
        plain_names(names, from),
    ensures
        lexed(parameters_before(names, from, seq![')'] + rest)) == written_parameters(
            names,
            from,
            seq![mark(TokenType::RParen)] + lexed(rest),
        ),
    decreases names.len() - from,
{
    let closing = seq![')'] + rest;
    lemma_lex_mark(')', TokenType::RParen, rest);
    if from >= names.len() {
    } else if from + 1 == names.len() {
        lemma_separate(')', rest);
        lemma_lex_word(names[from as int], closing);
    } else {
        let behind = parameters_before(names, from + 1, closing);
        lemma_lexes_parameters(names, from + 1, rest);
        lemma_separate(',', seq![' '] + behind);
        lemma_lex_word(names[from as int], seq![','] + (seq![' '] + behind));
        lemma_lex_mark(',', TokenType::Comma, seq![' '] + behind);
        lemma_lex_blank(behind);
        let tokens = written_parameters(
            names,
            from + 1,
            seq![mark(TokenType::RParen)] + lexed(rest),
        );
        assert(seq![identifier_token(names[from as int])] + (seq![mark(TokenType::Comma)]
            + tokens) =~= seq![identifier_token(names[from as int]), mark(TokenType::Comma)]
            + tokens);
    }
}

/// The text that is written for an expression is read as the tokens that
/// are written for it, before a text that cannot go on its last word or
/// number.
pub proof fn lemma_expression_lexes(e: ExpressionView, rest: Seq<char>)
    requires
        writable_expression(e),
        separate(rest),
    ensures
        lexes_expression(e, rest),
    decreases e, 0nat,
{
    match e {
        ExpressionView::Prefix { operator, right } => {
            lemma_separate(')', rest);
            lemma_expression_lexes(*right, seq![')'] + rest);
            lemma_lexes_prefix(e, rest);
        },
        ExpressionView::Infix { left, operator, right } => {
            let closing = seq![')'] + rest;
            lemma_separate(')', rest);
            lemma_expression_lexes(*right, closing);
            let behind_left = seq![' '] + (operator.symbol() + (seq![' '] + expression_before(
                *right,
                closing,
            )));
            lemma_separate(
                ' ',
                operator.symbol() + (seq![' '] + expression_before(*right, closing)),
            );
            lemma_expression_lexes(*left, behind_left);
            lemma_lexes_infix(e, rest);
        },
        ExpressionView::If { condition, consequence, alternative } => {
            assert forall|behind: Seq<char>| separate(behind) implies #[trigger] lexes_expression(
                *condition,
                behind,
            ) by {
                lemma_expression_lexes(*condition, behind);
            }
            assert forall|behind: Seq<char>| #[trigger]
                lexed(block_before(consequence, behind)) == written_block(
                    consequence,
                    lexed(behind),
                ) by {
                lemma_block_lexes(consequence, behind);
            }
            match alternative {
                Some(block) => {
                    lemma_block_lexes(block, rest);
                },
                None => {},
            }
            lemma_lexes_if(e, rest);
        },
        ExpressionView::FnLiteral { param_names, body } => {
            lemma_block_lexes(body, rest);
            lemma_lexes_fn(e, rest);
        },
        ExpressionView::Block { statements } => {
            lemma_block_lexes(statements, rest);
        },
        ExpressionView::CallExpression { left, arguments } => {
            let closing = seq![')'] + rest;
            lemma_separate('(', arguments_before(arguments, 0, closing));
            lemma_expression_lexes(*left, seq!['('] + arguments_before(arguments, 0, closing));
            lemma_arguments_lex(arguments, 0, rest);
            lemma_lexes_call(e, rest);
        },
        _ => {
            lemma_lexes_atom(e, rest);
        },
    }
}

/// The text that is written for the arguments of a call is read as the
/// tokens that are written for them.
pub proof fn lemma_arguments_lex(es: Seq<ExpressionView>, from: nat, rest: Seq<char>)
    requires
        writable_expressions(es, from),
    ensures
        lexed(arguments_before(es, from, seq![')'] + rest)) == written_arguments(
            es,
            from,
            seq![mark(TokenType::RParen)] + lexed(rest),
        ),
    decreases es, es.len() - from,
{
    let closing = seq![')'] + rest;
    lemma_lex_mark(')', TokenType::RParen, rest);
    if from >= es.len() {
    } else if from + 1 == es.len() {
        lemma_separate(')', rest);
        lemma_expression_lexes(es[from as int], closing);
    } else {
        let behind = arguments_before(es, from + 1, closing);
        lemma_arguments_lex(es, from + 1, rest);
        lemma_separate(',', seq![' '] + behind);
        lemma_expression_lexes(es[from as int], seq![','] + (seq![' '] + behind));
        lemma_lex_mark(',', TokenType::Comma, seq![' '] + behind);
        lemma_lex_blank(behind);
    }
}

/// The text that is written for a block is read as the tokens that are
/// written for it.
pub proof fn lemma_block_lexes(ss: Seq<StatementView>, rest: Seq<char>)
    requires
        writable_statements(ss, 0),
    ensures
        lexed(block_before(ss, rest)) == written_block(ss, lexed(rest)),
    decreases ss, ss.len() + 1,
{
    lemma_lex_mark('{', TokenType::LBrace, statements_before(ss, 0, seq!['}'] + rest));
    lemma_statements_lex(ss, 0, seq!['}'] + rest);
    lemma_lex_mark('}', TokenType::RBrace, rest);
}

/// The text that is written for statements is read as the tokens that are
/// written for them.
pub proof fn lemma_statements_lex(ss: Seq<StatementView>, from: nat, rest: Seq<char>)
    requires
        writable_statements(ss, from),
    ensures
        lexed(statements_before(ss, from, rest)) == written_statements(ss, from, lexed(rest)),
    decreases ss, ss.len() - from,
{
    if from < ss.len() {
        lemma_statements_lex(ss, from + 1, rest);
        lemma_statement_lexes(ss[from as int], statements_before(ss, from + 1, rest));
    }
}

/// The text that is written for a statement is read as the tokens that are
/// written for it.
pub proof fn lemma_statement_lexes(s: StatementView, rest: Seq<char>)
    requires
        writable_statement(s),
    ensures
        lexed(statement_before(s, rest)) == written_statement(s, lexed(rest)),
    decreases s, 0nat,
{
    let closing = seq![';'] + rest;
    lemma_separate(';', rest);
    lemma_lex_mark(';', TokenType::Semicolon, rest);
    match s {
        StatementView::Let { name, right } => {
            lemma_expression_lexes(right, closing);
            lemma_lexes_let(s, rest);
        },
        StatementView::Return { value } => {
            lemma_expression_lexes(value, closing);
            let from_value = expression_before(value, closing);
            lemma_keywords();
            lemma_separate(' ', from_value);
            lemma_lex_keyword("return"@, TokenType::Return, seq![' '] + from_value);
            lemma_lex_blank(from_value);
        },
        StatementView::Expression { expression } => {
            lemma_expression_lexes(expression, closing);
        },
    }
}

/// The text of a `let` statement is read as its tokens, where the text of
/// its expression is.
pub proof fn lemma_lexes_let(s: StatementView, rest: Seq<char>)
    requires
        s is Let,
        writable_statement(s),
        lexes_expression(s->Let_right, seq![';'] + rest),
    ensures
        lexed(statement_before(s, rest)) == written_statement(s, lexed(rest)),
{
    let name = s->Let_name;
    let right = s->Let_right;
    let closing = seq![';'] + rest;
    let from_right = expression_before(right, closing);
    let from_assign = seq!['='] + (seq![' '] + from_right);
    let from_name = name + (seq![' '] + from_assign);
    lemma_keywords();
    lemma_lex_mark(';', TokenType::Semicolon, rest);
    lemma_separate(' ', from_name);
    lemma_lex_keyword("let"@, TokenType::Let, seq![' '] + from_name);
    lemma_lex_blank(from_name);
    lemma_separate(' ', from_assign);
    lemma_lex_word(name, seq![' '] + from_assign);
    lemma_lex_blank(from_assign);
    lemma_separate(' ', from_right);
    lemma_lex_assign(seq![' '] + from_right);
    lemma_lex_blank(from_right);
    let tokens = written_expression(right, seq![mark(TokenType::Semicolon)] + lexed(rest));
    assert(seq![mark(TokenType::Let)] + (seq![identifier_token(name)] + (seq![
        mark(TokenType::Assign),
    ] + tokens)) =~= seq![
        mark(TokenType::Let),
        identifier_token(name),
        mark(TokenType::Assign),
    ] + tokens);
}

/// The characters of the fixed pieces of the written form.
pub proof fn lemma_pieces()
    ensures
        "("@ == seq!['('],
        ")"@ == seq![')'],
        " "@ == seq![' '],
        "{"@ == seq!['{'],
        "}"@ == seq!['}'],
        ";"@ == seq![';'],
        ", "@ == seq![',', ' '],
        ") "@ == seq![')', ' '],
        " = "@ == seq![' ', '=', ' '],
        "if ("@ == "if"@ + seq![' ', '('],
        "else "@ == "else"@ + seq![' '],
        "fn("@ == "fn"@ + seq!['('],
        "let "@ == "let"@ + seq![' '],
        "return "@ == "return"@ + seq![' '],
        "\""@ == seq!['"'],
{
    reveal_strlit("\"");
    assert("\""@ =~= seq!['"']);
    reveal_strlit("(");
    reveal_strlit(")");
    reveal_strlit(" ");
    reveal_strlit("{");
    reveal_strlit("}");
    reveal_strlit(";");
    reveal_strlit(", ");
    reveal_strlit(") ");
    reveal_strlit(" = ");
    reveal_strlit("if (");
    reveal_strlit("if");
    reveal_strlit("else ");
    reveal_strlit("else");
    reveal_strlit("fn(");
    reveal_strlit("fn");
    reveal_strlit("let ");
    reveal_strlit("let");
    reveal_strlit("return ");
    reveal_strlit("return");
    assert("("@ =~= seq!['(']);
    assert(")"@ =~= seq![')']);
    assert(" "@ =~= seq![' ']);
    assert("{"@ =~= seq!['{']);
    assert("}"@ =~= seq!['}']);
    assert(";"@ =~= seq![';']);
    assert(", "@ =~= seq![',', ' ']);
    assert(") "@ =~= seq![')', ' ']);
    assert(" = "@ =~= seq![' ', '=', ' ']);
    assert("if ("@ =~= "if"@ + seq![' ', '(']);
    assert("else "@ =~= "else"@ + seq![' ']);
    assert("fn("@ =~= "fn"@ + seq!['(']);
    assert("let "@ =~= "let"@ + seq![' ']);
    assert("return "@ =~= "return"@ + seq![' ']);
}

/// The text of a prefix expression, where that of its operand is known.
pub proof fn lemma_text_prefix(e: ExpressionView, rest: Seq<char>)
    requires
        e is Prefix,
        expression_text(*e->Prefix_right) + (seq![')'] + rest) == expression_before(
            *e->Prefix_right,
            seq![')'] + rest,
        ),
    ensures
        expression_text(e) + rest == expression_before(e, rest),
{
    lemma_pieces();
    assert(expression_text(e) + rest =~= seq!['('] + (e->Prefix_operator.symbol()
        + (expression_text(*e->Prefix_right) + (seq![')'] + rest))));
}

/// The text of an infix expression, where that of its operands is known.
pub proof fn lemma_text_infix(e: ExpressionView, rest: Seq<char>)
    requires
        e is Infix,
        expression_text(*e->Infix_right) + (seq![')'] + rest) == expression_before(
            *e->Infix_right,
            seq![')'] + rest,
        ),
        expression_text(*e->Infix_left) + (seq![' '] + (e->Infix_operator.symbol() + (seq![' ']
            + expression_before(*e->Infix_right, seq![')'] + rest)))) == expression_before(
            *e->Infix_left,
            seq![' '] + (e->Infix_operator.symbol() + (seq![' '] + expression_before(
                *e->Infix_right,
                seq![')'] + rest,
            ))),
        ),
    ensures
        expression_text(e) + rest == expression_before(e, rest),
{
    lemma_pieces();
    let closing = seq![')'] + rest;
    assert(expression_text(e) + rest =~= seq!['('] + (expression_text(*e->Infix_left) + (seq![' ']
        + (e->Infix_operator.symbol() + (seq![' '] + (expression_text(*e->Infix_right)
        + closing))))));
}

/// The text behind the first block of an `if` expression that is written
/// before `rest`.
pub open spec fn behind_consequence(alternative: Option<Seq<StatementView>>, rest: Seq<char>) -> Seq<
    char,
> {
    match alternative {
        Some(block) => "else"@ + (seq![' '] + block_before(block, rest)),
        None => rest,
    }
}

/// The text of an `if` expression, where that of its condition and of its
/// blocks is known.
pub proof fn lemma_text_if(e: ExpressionView, rest: Seq<char>)
    requires
        e is If,
        e->If_alternative is Some ==> block_text(e->If_alternative->0) + rest == block_before(
            e->If_alternative->0,
            rest,
        ),
        block_text(e->If_consequence) + (seq![' '] + behind_consequence(e->If_alternative, rest))
            == block_before(
            e->If_consequence,
            seq![' '] + behind_consequence(e->If_alternative, rest),
        ),
        expression_text(*e->If_condition) + (seq![')'] + (seq![' '] + block_before(
            e->If_consequence,
            seq![' '] + behind_consequence(e->If_alternative, rest),
        ))) == expression_before(
            *e->If_condition,
            seq![')'] + (seq![' '] + block_before(
                e->If_consequence,
                seq![' '] + behind_consequence(e->If_alternative, rest),
            )),
        ),
    ensures
        expression_text(e) + rest == expression_before(e, rest),
{
    lemma_pieces();
    let condition = *e->If_condition;
    let consequence = e->If_consequence;
    let alternative = e->If_alternative;
    let tail = behind_consequence(alternative, rest);
    let written_tail = match alternative {
        Some(block) => "else "@ + block_text(block),
        None => Seq::empty(),
    };
    assert(written_tail + rest =~= tail) by {
        match alternative {
            Some(block) => {
                assert(("else"@ + seq![' ']) + block_text(block) + rest =~= "else"@ + (seq![' ']
                    + (block_text(block) + rest)));
            },
            None => {},
        }
    }
    assert(expression_text(e) + rest =~= "if"@ + (seq![' '] + (seq!['('] + (expression_text(
        condition,
    ) + (seq![')'] + (seq![' '] + (block_text(consequence) + (seq![' '] + (written_tail
        + rest)))))))));
}

/// The text of a function literal, where that of its parameters and of its
/// body is known.
pub proof fn lemma_text_fn(e: ExpressionView, rest: Seq<char>)
    requires
        e is FnLiteral,
        block_text(e->FnLiteral_body) + rest == block_before(e->FnLiteral_body, rest),
        joined(e->FnLiteral_param_names, e->FnLiteral_param_names.len()) + (seq![')'] + (seq![' ']
            + block_before(e->FnLiteral_body, rest))) == parameters_before(
            e->FnLiteral_param_names,
            0,
            seq![')'] + (seq![' '] + block_before(e->FnLiteral_body, rest)),
        ),
    ensures
        expression_text(e) + rest == expression_before(e, rest),
{
    lemma_pieces();
    let names = e->FnLiteral_param_names;
    let body = e->FnLiteral_body;
    assert(expression_text(e) + rest =~= "fn"@ + (seq!['('] + (joined(names, names.len()) + (seq![
        ')',
    ] + (seq![' '] + (block_text(body) + rest))))));
}

/// The text of a call, where that of the called expression and of the
/// arguments is known.
pub proof fn lemma_text_call(e: ExpressionView, rest: Seq<char>)
    requires
        e is CallExpression,
        expressions_text(e->CallExpression_arguments, e->CallExpression_arguments.len()) + (seq![
            ')',
        ] + rest) == arguments_before(e->CallExpression_arguments, 0, seq![')'] + rest),
        expression_text(*e->CallExpression_left) + (seq!['('] + arguments_before(
            e->CallExpression_arguments,
            0,
            seq![')'] + rest,
        )) == expression_before(
            *e->CallExpression_left,
            seq!['('] + arguments_before(e->CallExpression_arguments, 0, seq![')'] + rest),
        ),
    ensures
        expression_text(e) + rest == expression_before(e, rest),
{
    lemma_pieces();
    let left = *e->CallExpression_left;
    let arguments = e->CallExpression_arguments;
    assert(expression_text(e) + rest =~= expression_text(left) + (seq!['('] + (expressions_text(
        arguments,
        arguments.len(),
    ) + (seq![')'] + rest))));
}

/// The text of an expression, as it is written, before the text `rest`.
pub proof fn lemma_expression_text(e: ExpressionView, rest: Seq<char>)
    ensures
        expression_text(e) + rest == expression_before(e, rest),
    decreases e, 0nat,
{
    match e {
        ExpressionView::Prefix { operator, right } => {
            lemma_expression_text(*right, seq![')'] + rest);
            lemma_text_prefix(e, rest);
        },
        ExpressionView::Infix { left, operator, right } => {
            let closing = seq![')'] + rest;
            lemma_expression_text(*right, closing);
            let behind_left = seq![' '] + (operator.symbol() + (seq![' '] + expression_before(
                *right,
                closing,
            )));
            lemma_expression_text(*left, behind_left);
            lemma_text_infix(e, rest);
        },
        ExpressionView::If { condition, consequence, alternative } => {
            let tail = behind_consequence(alternative, rest);
            match alternative {
                Some(block) => {
                    lemma_block_text(block, rest);
                },
                None => {},
            }
            lemma_block_text(consequence, seq![' '] + tail);
            let closing = seq![')'] + (seq![' '] + block_before(consequence, seq![' '] + tail));
            lemma_expression_text(*condition, closing);
            lemma_text_if(e, rest);
        },
        ExpressionView::FnLiteral { param_names, body } => {
            lemma_block_text(body, rest);
            let closing = seq![')'] + (seq![' '] + block_before(body, rest));
            lemma_parameters_text(param_names, param_names.len(), closing);
            lemma_text_fn(e, rest);
        },
        ExpressionView::CallExpression { left, arguments } => {
            let closing = seq![')'] + rest;
            lemma_arguments_text(arguments, arguments.len(), closing);
            lemma_expression_text(*left, seq!['('] + arguments_before(arguments, 0, closing));
            lemma_text_call(e, rest);
        },
        ExpressionView::Block { statements } => {
            lemma_block_text(statements, rest);
        },
        ExpressionView::StringLiteral { value } => {
            lemma_pieces();
            assert(expression_text(e) + rest =~= seq!['"'] + (value + (seq!['"'] + rest)));
        },
        _ => {},
    }
}

/// What stands behind the first `n` arguments of a list: the text behind
/// the list, or a comma and the arguments that are left.
pub open spec fn behind_arguments(es: Seq<ExpressionView>, n: nat, rest: Seq<char>) -> Seq<char> {
    if n >= es.len() {
        rest
    } else {
        seq![','] + (seq![' '] + arguments_before(es, n, rest))
    }
}

/// The text of the arguments of a call, as it is written, before the text
/// `rest`.
pub proof fn lemma_arguments_text(es: Seq<ExpressionView>, n: nat, rest: Seq<char>)
    requires
        n <= es.len(),
        n == 0 ==> es.len() == 0,
    ensures
        expressions_text(es, n) + behind_arguments(es, n, rest) == arguments_before(es, 0, rest),
    decreases es, n,
{
    lemma_pieces();
    if n == 0 {
        assert(expressions_text(es, 0) + rest =~= rest);
    } else {
        let e = es[n - 1];
        let behind = behind_arguments(es, n, rest);
        lemma_expression_text(e, behind);
        assert(arguments_before(es, (n - 1) as nat, rest) == expression_before(e, behind));
        if n == 1 {
        } else {
            lemma_arguments_text(es, (n - 1) as nat, rest);
            assert(expressions_text(es, n) + behind =~= expressions_text(es, (n - 1) as nat)
                + (seq![','] + (seq![' '] + (expression_text(e) + behind))));
        }
    }
}

/// What stands behind the first `n` parameters of a list: the text behind
/// the list, or a comma and the parameters that are left.
pub open spec fn behind_parameters(names: Seq<Seq<char>>, n: nat, rest: Seq<char>) -> Seq<char> {
    if n >= names.len() {
        rest
    } else {
        seq![','] + (seq![' '] + parameters_before(names, n, rest))
    }
}

/// The text of the parameters of a function literal, as it is written,
/// before the text `rest`.
pub proof fn lemma_parameters_text(names: Seq<Seq<char>>, n: nat, rest: Seq<char>)
    requires
        n <= names.len(),
        n == 0 ==> names.len() == 0,
    ensures
        joined(names, n) + behind_parameters(names, n, rest) == parameters_before(names, 0, rest),
    decreases n,
{
    lemma_pieces();
    if n == 0 {
        assert(joined(names, 0) + rest =~= rest);
    } else {
        let name = names[n - 1];
        let behind = behind_parameters(names, n, rest);
        assert(parameters_before(names, (n - 1) as nat, rest) =~= name + behind);
        if n == 1 {
        } else {
            lemma_parameters_text(names, (n - 1) as nat, rest);
            assert(joined(names, n) + behind =~= joined(names, (n - 1) as nat) + (seq![','] + (seq![
                ' ',
            ] + (name + behind))));
        }
    }
}

/// The text of a block, as it is written, before the text `rest`.
pub proof fn lemma_block_text(ss: Seq<StatementView>, rest: Seq<char>)
    ensures
        block_text(ss) + rest == block_before(ss, rest),
    decreases ss, ss.len() + 1,
{
    lemma_pieces();
    lemma_statements_text(ss, ss.len(), seq!['}'] + rest);
    assert(block_text(ss) + rest =~= seq!['{'] + (statements_text(ss, ss.len()) + (seq!['}']
        + rest)));
}

/// The text of the first `n` statements of a list, as it is written, before
/// the text of the statements that are left.
pub proof fn lemma_statements_text(ss: Seq<StatementView>, n: nat, rest: Seq<char>)
    requires
        n <= ss.len(),
    ensures
        statements_text(ss, n) + statements_before(ss, n, rest) == statements_before(ss, 0, rest),
    decreases ss, n,
{
    if n == 0 {
        assert(statements_text(ss, 0) + statements_before(ss, 0, rest) =~= statements_before(
            ss,
            0,
            rest,
        ));
    } else {
        let s = ss[n - 1];
        let behind = statements_before(ss, n, rest);
        lemma_statement_text(s, behind);
        lemma_statements_text(ss, (n - 1) as nat, rest);
        assert(statements_before(ss, (n - 1) as nat, rest) == statement_before(s, behind));
        assert(statements_text(ss, n) + behind =~= statements_text(ss, (n - 1) as nat)
            + (statement_text(s) + behind));
    }
}

/// The text of a statement, as it is written, before the text `rest`.
pub proof fn lemma_statement_text(s: StatementView, rest: Seq<char>)
    ensures
        statement_text(s) + rest == statement_before(s, rest),
    decreases s, 0nat,
{
    lemma_pieces();
    let closing = seq![';'] + rest;
    match s {
        StatementView::Let { name, right } => {
            lemma_expression_text(right, closing);
            assert(statement_text(s) + rest =~= "let"@ + (seq![' '] + (name + (seq![' '] + (seq![
                '=',
            ] + (seq![' '] + (expression_text(right) + closing)))))));
        },
        StatementView::Return { value } => {
            lemma_expression_text(value, closing);
            assert(statement_text(s) + rest =~= "return"@ + (seq![' '] + (expression_text(value)
                + closing)));
        },
        StatementView::Expression { expression } => {
            lemma_expression_text(expression, closing);
            assert(statement_text(s) + rest =~= expression_text(expression) + closing);
        },
    }
}

/// The written form of a program is read back as that program: where the
/// names in a program can be names of variables, no string literal in it
/// holds a double quote and no integer literal in it is negative, the text
/// that is written for it is read as tokens that are parsed to the program
/// itself.
pub proof fn lemma_written_program_reads_back(program: Seq<StatementView>)
    requires
        writable_statements(program, 0),
    ensures
        parse_program_spec(tokens_from(statements_text(program, program.len()), 0)) == Ok::<
            Seq<StatementView>,
            ParserErrorView,
        >(program),
{
    let text = statements_text(program, program.len());
    lemma_statements_text(program, program.len(), Seq::empty());
    assert(text + Seq::<char>::empty() =~= text);
    lemma_statements_lex(program, 0, Seq::empty());
    crate::lexing::lemma_tokens_head(Seq::<char>::empty());
    assert(lexed(Seq::<char>::empty()) == Seq::<TokenView>::empty());
    lemma_writable_statements_are_readable(program, 0);
    lemma_program_reads_back(program);
}

} // verus!
