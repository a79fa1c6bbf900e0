use crate::ast::ExpressionView;
use crate::ast::StatementView;
use crate::lexer::lemma_letters_end;
use crate::lexer::lemma_next_token_advances;
use crate::lexer::lemma_quote_position;
use crate::lexer::lemma_spaces_end;
use crate::lexer::letter;
use crate::lexer::letters_end;
use crate::lexer::next_token_spec;
use crate::lexer::quote_position;
use crate::lexer::spaces_end;
use crate::lexer::tokens_from;
use crate::lexing::no_quote;
use crate::parser::advance;
use crate::parser::first;
use crate::parser::infix_operator_of;
use crate::parser::lemma_expression_start_bounds;
use crate::parser::parse_block_rest;
use crate::parser::parse_block_statement_spec;
use crate::parser::parse_call_args_rest;
use crate::parser::parse_call_args_spec;
use crate::parser::parse_expression_spec;
use crate::parser::parse_expression_start;
use crate::parser::parse_expression_statement_spec;
use crate::parser::parse_fn_literal_spec;
use crate::parser::parse_grouped_expression_spec;
use crate::parser::parse_if_expression_spec;
use crate::parser::parse_infix_expression_spec;
use crate::parser::parse_infix_rest;
use crate::parser::parse_integer_literal_spec;
use crate::parser::parse_let_statement_spec;
use crate::parser::parse_parameters_spec;
use crate::parser::parse_prefix_expression_spec;
use crate::parser::parse_program_rest;
use crate::parser::parse_program_spec;
use crate::parser::parse_return_statement_spec;
use crate::parser::parse_statement_spec;
use crate::parser::precedence_of;
use crate::parser::second;
use crate::parser::ParsedInfixView;
use crate::parser::Precedence;
use crate::reading::plain_name;
use crate::reading::plain_names;
use crate::reading::writable_expression;
use crate::reading::writable_expressions;
use crate::reading::writable_statement;
use crate::reading::writable_statements;
use crate::token::TokenType;
use crate::token::TokenView;
use vstd::prelude::*;

verus! {

/// Whether a token is one that the lexer can yield, as far as its text goes:
/// an identifier is a word of letters that spells no keyword, and a string
/// holds no double quote.
pub open spec fn lexed_token(t: TokenView) -> bool {
    &&& t.kind == TokenType::Ident ==> plain_name(t.literal)
    &&& t.kind == TokenType::String ==> no_quote(t.literal)
}

/// Whether each token of a sequence is one that the lexer can yield.
pub open spec fn lexed_tokens(ts: Seq<TokenView>) -> bool {
    forall|i: int| 0 <= i < ts.len() ==> lexed_token(#[trigger] ts[i])
}

/// A run of letters holds letters only.
pub proof fn lemma_run_of_letters(s: Seq<char>, from: nat, i: int)
    requires
        from <= i < letters_end(s, from),
        from <= s.len(),
    ensures
        i < s.len(),
        letter(s[i]),
    decreases s.len() - from,
{
    if from < s.len() && letter(s[from as int]) {
        if i > from {
            lemma_run_of_letters(s, from + 1, i);
        }
    }
}

/// No double quote stands before the next double quote.
pub proof fn lemma_run_without_quote(s: Seq<char>, from: nat, i: int)
    requires
        from <= i < quote_position(s, from),
        from <= s.len(),
    ensures
        i < s.len(),
        s[i] != '"',
    decreases s.len() - from,
{
    if from < s.len() && s[from as int] != '"' {
        if i > from {
            lemma_run_without_quote(s, from + 1, i);
        }
    }
}

/// The next token of a text is one that the lexer can yield.
pub proof fn lemma_next_token_is_lexed(s: Seq<char>, from: nat)
    requires
        from <= s.len(),
    ensures
        lexed_token(next_token_spec(s, from).0),
{
    lemma_spaces_end(s, from);
    let at = spaces_end(s, from);
    if at < s.len() {
        let ch = s[at as int];
        lemma_letters_end(s, at);
        lemma_quote_position(s, at + 1);
        if ch == '"' {
            let close = quote_position(s, at + 1);
            let content = s.subrange((at + 1) as int, close as int);
            assert forall|i: int| 0 <= i < content.len() implies #[trigger] content[i]
                != '"' by {
                lemma_run_without_quote(s, at + 1, at + 1 + i);
            }
        } else if letter(ch) {
            let end = letters_end(s, at);
            let word = s.subrange(at as int, end as int);
            assert forall|i: int| 0 <= i < word.len() implies letter(#[trigger] word[i]) by {
                lemma_run_of_letters(s, at, at + i);
            }
        }
    }
}

/// Every token of a text is one that the lexer can yield.
pub proof fn lemma_tokens_are_lexed(s: Seq<char>, from: nat)
    requires
        from <= s.len(),
    ensures
        lexed_tokens(tokens_from(s, from)),
    decreases s.len() - from,
{
    lemma_next_token_advances(s, from);
    lemma_next_token_is_lexed(s, from);
    let (token, next) = next_token_spec(s, from);
    if !(token.kind == TokenType::Eof || next <= from || next > s.len()) {
        lemma_tokens_are_lexed(s, next);
        let rest = tokens_from(s, next);
        let all = seq![token] + rest;
        assert forall|i: int| 0 <= i < all.len() implies lexed_token(#[trigger] all[i]) by {
            if i > 0 {
                assert(all[i] == rest[i - 1]);
            }
        }
    }
}

/// The front tokens of lexed tokens, and the tokens behind the front, are
/// lexed tokens.
pub proof fn lemma_lexed_front(ts: Seq<TokenView>)
    requires
        lexed_tokens(ts),
    ensures
        lexed_token(first(ts)),
        lexed_token(second(ts)),
        lexed_tokens(advance(ts)),
{
    if ts.len() > 0 {
        assert(lexed_token(ts[0]));
        let behind = advance(ts);
        assert forall|i: int| 0 <= i < behind.len() implies lexed_token(#[trigger] behind[i]) by {
            assert(behind[i] == ts[i + 1]);
        }
    }
    if ts.len() > 1 {
        assert(lexed_token(ts[1]));
    }
}

/// Statements that can be written, with one more that can, can be written.
pub proof fn lemma_writable_statements_push(
    done: Seq<StatementView>,
    s: StatementView,
    from: nat,
)
    requires
        from <= done.len(),
        writable_statements(done, from),
        writable_statement(s),
    ensures
        writable_statements(done.push(s), from),
    decreases done.len() - from,
{
    let all = done.push(s);
    if from < done.len() {
        assert(writable_statement(done[from as int]));
        assert(all[from as int] == done[from as int]);
        lemma_writable_statements_push(done, s, from + 1);
    } else {
        assert(all[from as int] == s);
        assert(writable_statements(all, from + 1));
    }
}

/// Expressions that can be written, with one more that can, can be written.
pub proof fn lemma_writable_expressions_push(
    done: Seq<ExpressionView>,
    e: ExpressionView,
    from: nat,
)
    requires
        from <= done.len(),
        writable_expressions(done, from),
        writable_expression(e),
    ensures
        writable_expressions(done.push(e), from),
    decreases done.len() - from,
{
    let all = done.push(e);
    if from < done.len() {
        assert(writable_expression(done[from as int]));
        assert(all[from as int] == done[from as int]);
        lemma_writable_expressions_push(done, e, from + 1);
    } else {
        assert(all[from as int] == e);
        assert(writable_expressions(all, from + 1));
    }
}

/// Names of variables, with one more, are names of variables.
pub proof fn lemma_plain_names_push(done: Seq<Seq<char>>, name: Seq<char>, from: nat)
    requires
        from <= done.len(),
        plain_names(done, from),
        plain_name(name),
    ensures
        plain_names(done.push(name), from),
    decreases done.len() - from,
{
    let all = done.push(name);
    if from < done.len() {
        assert(all[from as int] == done[from as int]);
        lemma_plain_names_push(done, name, from + 1);
    } else {
        assert(all[from as int] == name);
        assert(plain_names(all, from + 1));
    }
}

/// The parameters that are parsed from lexed tokens are names of variables.
pub proof fn lemma_parameters_are_plain(ts: Seq<TokenView>, done: Seq<Seq<char>>)
    requires
        lexed_tokens(ts),
        plain_names(done, 0),
    ensures
        parse_parameters_spec(ts, done).0 is Ok ==> plain_names(
            parse_parameters_spec(ts, done).0->Ok_0,
            0,
        ) && lexed_tokens(parse_parameters_spec(ts, done).1),
    decreases ts.len(),
{
    lemma_lexed_front(ts);
    if first(ts).kind == TokenType::RParen {
    } else if ts.len() == 0 || first(ts).kind != TokenType::Ident {
    } else {
        let ts1 = advance(ts);
        lemma_lexed_front(ts1);
        let ts2 = if first(ts1).kind == TokenType::Comma {
            advance(ts1)
        } else {
            ts1
        };
        lemma_plain_names_push(done, first(ts).literal, 0);
        lemma_parameters_are_plain(ts2, done.push(first(ts).literal));
    }
}

/// What a statement parsed from lexed tokens is, and what it leaves.
pub proof fn lemma_statement_is_writable(ts: Seq<TokenView>)
    requires
        lexed_tokens(ts),
    ensures
        parse_statement_spec(ts).0 is Ok ==> writable_statement(parse_statement_spec(ts).0->Ok_0)
            && lexed_tokens(parse_statement_spec(ts).1),
    decreases ts.len(), 10nat,
{
    lemma_lexed_front(ts);
    let ts1 = advance(ts);
    lemma_lexed_front(ts1);
    let ts2 = advance(ts1);
    lemma_lexed_front(ts2);
    let ts3 = advance(ts2);
    if first(ts).kind == TokenType::Let {
        lemma_expression_is_writable(ts3, Precedence::LOWEST);
        let (result, ts4) = parse_expression_spec(ts3, Precedence::LOWEST);
        if result is Ok {
            lemma_lexed_front(ts4);
        }
        assert(parse_statement_spec(ts) == parse_let_statement_spec(ts));
    } else if first(ts).kind == TokenType::Return {
        lemma_expression_is_writable(ts1, Precedence::LOWEST);
        let (result, ts4) = parse_expression_spec(ts1, Precedence::LOWEST);
        if result is Ok {
            lemma_lexed_front(ts4);
        }
        assert(parse_statement_spec(ts) == parse_return_statement_spec(ts));
    } else {
        lemma_expression_is_writable(ts, Precedence::LOWEST);
        let (result, ts4) = parse_expression_spec(ts, Precedence::LOWEST);
        if result is Ok {
            lemma_lexed_front(ts4);
        }
        assert(parse_statement_spec(ts) == parse_expression_statement_spec(ts));
    }
}

/// What an expression parsed from lexed tokens is, and what it leaves.
pub proof fn lemma_expression_is_writable(ts: Seq<TokenView>, precedence: Precedence)
    requires
        lexed_tokens(ts),
    ensures
        parse_expression_spec(ts, precedence).0 is Ok ==> writable_expression(
            parse_expression_spec(ts, precedence).0->Ok_0,
        ) && lexed_tokens(parse_expression_spec(ts, precedence).1),
    decreases ts.len(), 8nat,
{
    lemma_expression_start_bounds(ts);
    lemma_start_is_writable(ts);
    let (start, ts1) = parse_expression_start(ts);
    if start is Ok {
        lemma_infix_rest_is_writable(start->Ok_0, ts1, precedence);
    }
}

/// What the front token of an expression starts, parsed from lexed tokens.
pub proof fn lemma_start_is_writable(ts: Seq<TokenView>)
    requires
        lexed_tokens(ts),
    ensures
        parse_expression_start(ts).0 is Ok ==> writable_expression(
            parse_expression_start(ts).0->Ok_0,
        ) && lexed_tokens(parse_expression_start(ts).1),
    decreases ts.len(), 7nat, 1nat,
{
    lemma_lexed_front(ts);
    let kind = first(ts).kind;
    if kind == TokenType::Int {
        assert(parse_expression_start(ts) == parse_integer_literal_spec(ts));
    } else if kind == TokenType::Bang || kind == TokenType::Minus {
        lemma_expression_is_writable(advance(ts), Precedence::PREFIX);
        assert(parse_expression_start(ts) == parse_prefix_expression_spec(ts));
    } else if kind == TokenType::LParen {
        lemma_expression_is_writable(advance(ts), Precedence::LOWEST);
        let (result, ts1) = parse_expression_spec(advance(ts), Precedence::LOWEST);
        if result is Ok {
            lemma_lexed_front(ts1);
        }
        assert(parse_expression_start(ts) == parse_grouped_expression_spec(ts));
    } else if kind == TokenType::LBrace {
        lemma_block_is_writable(ts);
    } else if kind == TokenType::If {
        lemma_if_is_writable(ts);
        assert(parse_expression_start(ts) == parse_if_expression_spec(ts));
    } else if kind == TokenType::Function {
        lemma_fn_is_writable(ts);
        assert(parse_expression_start(ts) == parse_fn_literal_spec(ts));
    }
}

/// What stands behind a left operand, parsed from lexed tokens, joined to
/// the operand.
pub proof fn lemma_infix_rest_is_writable(
    left: ExpressionView,
    ts: Seq<TokenView>,
    precedence: Precedence,
)
    requires
        lexed_tokens(ts),
        writable_expression(left),
    ensures
        parse_infix_rest(left, ts, precedence).0 is Ok ==> writable_expression(
            parse_infix_rest(left, ts, precedence).0->Ok_0,
        ) && lexed_tokens(parse_infix_rest(left, ts, precedence).1),
    decreases ts.len(), 1nat,
{
    lemma_lexed_front(ts);
    if ts.len() > 1 && second(ts).kind != TokenType::Semicolon && precedence.rank()
        < precedence_of(second(ts).kind).rank() {
        lemma_infix_expression_is_writable(advance(ts));
        match parse_infix_expression_spec(advance(ts)) {
            Some((Ok(ParsedInfixView::Infix { right, operator }), ts1)) => {
                let joined = ExpressionView::Infix {
                    left: Box::new(left),
                    operator,
                    right: Box::new(right),
                };
                assert(writable_expression(joined));
                if ts1.len() < ts.len() {
                    lemma_infix_rest_is_writable(joined, ts1, precedence);
                }
            },
            Some((Ok(ParsedInfixView::Call { args }), ts1)) => {
                let joined = ExpressionView::CallExpression {
                    left: Box::new(left),
                    arguments: args,
                };
                assert(writable_expression(joined));
                if ts1.len() < ts.len() {
                    lemma_infix_rest_is_writable(joined, ts1, precedence);
                }
            },
            _ => {},
        }
    }
}

/// An operator with its right operand, or the arguments of a call, parsed
/// from lexed tokens.
pub proof fn lemma_infix_expression_is_writable(ts: Seq<TokenView>)
    requires
        lexed_tokens(ts),
    ensures
        match parse_infix_expression_spec(ts) {
            Some((Ok(ParsedInfixView::Infix { right, .. }), out)) => writable_expression(right)
                && lexed_tokens(out),
            Some((Ok(ParsedInfixView::Call { args }), out)) => writable_expressions(args, 0)
                && lexed_tokens(out),
            _ => true,
        },
    decreases ts.len(), 7nat,
{
    lemma_lexed_front(ts);
    if first(ts).kind == TokenType::LParen {
        if !(ts.len() == 0) {
            lemma_call_args_rest_are_writable(advance(ts), Seq::empty());
            assert(parse_call_args_spec(ts) == parse_call_args_rest(advance(ts), Seq::empty()));
        }
    } else if infix_operator_of(first(ts).kind) is Some && ts.len() > 0 {
        lemma_expression_is_writable(advance(ts), precedence_of(first(ts).kind));
    }
}

/// An `if` expression parsed from lexed tokens.
pub proof fn lemma_if_is_writable(ts: Seq<TokenView>)
    requires
        lexed_tokens(ts),
    ensures
        parse_if_expression_spec(ts).0 is Ok ==> writable_expression(
            parse_if_expression_spec(ts).0->Ok_0,
        ) && lexed_tokens(parse_if_expression_spec(ts).1),
    decreases ts.len(), 7nat, 0nat,
{
    lemma_lexed_front(ts);
    let ts1 = advance(ts);
    lemma_lexed_front(ts1);
    let ts2 = advance(ts1);
    if ts.len() > 0 && first(ts).kind == TokenType::If && first(ts1).kind == TokenType::LParen {
        lemma_expression_is_writable(ts2, Precedence::LOWEST);
        let (tested, ts3) = parse_expression_spec(ts2, Precedence::LOWEST);
        if tested is Ok {
            lemma_lexed_front(ts3);
            let ts4 = advance(ts3);
            lemma_lexed_front(ts4);
            let ts5 = advance(ts4);
            if first(ts4).kind == TokenType::RParen && ts5.len() < ts.len() {
                lemma_block_is_writable(ts5);
                let (first_block, ts6) = parse_block_statement_spec(ts5);
                if first_block is Ok {
                    lemma_lexed_front(ts6);
                    lemma_lexed_front(advance(ts6));
                    let ts7 = advance(advance(ts6));
                    if second(ts6).kind == TokenType::Else && ts7.len() < ts.len() {
                        lemma_block_is_writable(ts7);
                    }
                }
            }
        }
    }
}

/// A function literal parsed from lexed tokens.
pub proof fn lemma_fn_is_writable(ts: Seq<TokenView>)
    requires
        lexed_tokens(ts),
    ensures
        parse_fn_literal_spec(ts).0 is Ok ==> writable_expression(
            parse_fn_literal_spec(ts).0->Ok_0,
        ) && lexed_tokens(parse_fn_literal_spec(ts).1),
    decreases ts.len(), 7nat, 0nat,
{
    lemma_lexed_front(ts);
    let ts1 = advance(ts);
    lemma_lexed_front(ts1);
    let ts2 = advance(ts1);
    if ts.len() > 0 && first(ts).kind == TokenType::Function && first(ts1).kind
        == TokenType::LParen {
        lemma_parameters_are_plain(ts2, Seq::empty());
        let (parameters, ts3) = parse_parameters_spec(ts2, Seq::empty());
        if parameters is Ok {
            lemma_lexed_front(ts3);
            let ts4 = advance(ts3);
            if ts4.len() < ts.len() {
                lemma_block_is_writable(ts4);
            }
        }
    }
}

/// A block parsed from lexed tokens.
pub proof fn lemma_block_is_writable(ts: Seq<TokenView>)
    requires
        lexed_tokens(ts),
    ensures
        parse_block_statement_spec(ts).0 is Ok ==> writable_statements(
            parse_block_statement_spec(ts).0->Ok_0,
            0,
        ) && lexed_tokens(parse_block_statement_spec(ts).1),
    decreases ts.len(), 6nat,
{
    lemma_lexed_front(ts);
    if !(ts.len() == 0 || first(ts).kind != TokenType::LBrace) {
        lemma_block_rest_is_writable(advance(ts), Seq::empty());
    }
}

/// The rest of a block parsed from lexed tokens.
pub proof fn lemma_block_rest_is_writable(ts: Seq<TokenView>, done: Seq<StatementView>)
    requires
        lexed_tokens(ts),
        writable_statements(done, 0),
    ensures
        parse_block_rest(ts, done).0 is Ok ==> writable_statements(
            parse_block_rest(ts, done).0->Ok_0,
            0,
        ) && lexed_tokens(parse_block_rest(ts, done).1),
    decreases ts.len(), 15nat,
{
    if first(ts).kind != TokenType::RBrace {
        lemma_statement_is_writable(ts);
        let (result, ts1) = parse_statement_spec(ts);
        if result is Ok {
            lemma_lexed_front(ts1);
            lemma_writable_statements_push(done, result->Ok_0, 0);
            if advance(ts1).len() < ts.len() {
                lemma_block_rest_is_writable(advance(ts1), done.push(result->Ok_0));
            }
        }
    }
}

/// The rest of the arguments of a call parsed from lexed tokens.
pub proof fn lemma_call_args_rest_are_writable(ts: Seq<TokenView>, done: Seq<ExpressionView>)
    requires
        lexed_tokens(ts),
        writable_expressions(done, 0),
    ensures
        parse_call_args_rest(ts, done).0 is Ok ==> writable_expressions(
            parse_call_args_rest(ts, done).0->Ok_0,
            0,
        ) && lexed_tokens(parse_call_args_rest(ts, done).1),
    decreases ts.len(), 9nat,
{
    if first(ts).kind != TokenType::RParen {
        lemma_expression_is_writable(ts, Precedence::LOWEST);
        let (result, ts1) = parse_expression_spec(ts, Precedence::LOWEST);
        if result is Ok {
            lemma_lexed_front(ts1);
            let ts2 = advance(ts1);
            lemma_lexed_front(ts2);
            let ts3 = if first(ts2).kind == TokenType::Comma {
                advance(ts2)
            } else {
                ts2
            };
            lemma_writable_expressions_push(done, result->Ok_0, 0);
            if ts3.len() < ts.len() {
                lemma_call_args_rest_are_writable(ts3, done.push(result->Ok_0));
            }
        }
    }
}

/// The statements of a program parsed from lexed tokens.
pub proof fn lemma_program_rest_is_writable(ts: Seq<TokenView>, done: Seq<StatementView>)
    requires
        lexed_tokens(ts),
        writable_statements(done, 0),
    ensures
        parse_program_rest(ts, done) is Ok ==> writable_statements(
            parse_program_rest(ts, done)->Ok_0,
            0,
        ),
    decreases ts.len(), 20nat,
{
    if first(ts).kind != TokenType::Eof {
        lemma_statement_is_writable(ts);
        let (result, ts1) = parse_statement_spec(ts);
        if result is Ok {
            lemma_lexed_front(ts1);
            lemma_writable_statements_push(done, result->Ok_0, 0);
            if advance(ts1).len() < ts.len() {
                lemma_program_rest_is_writable(advance(ts1), done.push(result->Ok_0));
            }
        }
    }
}

/// Every program that the parser yields for a text can be written and read
/// back: its names are names of variables, its string literals hold no
/// double quote, and its integer literals are not negative.
pub proof fn lemma_parsed_program_is_writable(text: Seq<char>)
    ensures
        parse_program_spec(tokens_from(text, 0)) is Ok ==> writable_statements(
            parse_program_spec(tokens_from(text, 0))->Ok_0,
            0,
        ),
{
    lemma_tokens_are_lexed(text, 0);
    lemma_program_rest_is_writable(tokens_from(text, 0), Seq::empty());
}

/// Printing and parsing again yields the same program: where the parser
/// yields a program for a text, it yields that program for the text that is
/// written for the program, too.
pub proof fn lemma_parse_write_parse(text: Seq<char>)
    ensures
        parse_program_spec(tokens_from(text, 0)) is Ok ==> parse_program_spec(
            tokens_from(
                crate::ast::statements_text(
                    parse_program_spec(tokens_from(text, 0))->Ok_0,
                    parse_program_spec(tokens_from(text, 0))->Ok_0.len(),
                ),
                0,
            ),
        ) == parse_program_spec(tokens_from(text, 0)),
{
    lemma_parsed_program_is_writable(text);
    if parse_program_spec(tokens_from(text, 0)) is Ok {
        crate::reading::lemma_written_program_reads_back(
            parse_program_spec(tokens_from(text, 0))->Ok_0,
        );
    }
}

} // verus!
