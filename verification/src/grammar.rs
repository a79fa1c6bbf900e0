use crate::ast::InfixOperator;
use crate::ast::PrefixOperator;
use crate::grouping::binding;
use crate::grouping::identifier_token;
use crate::grouping::operator_token;
use crate::grouping::prefix_token;
use crate::ast::ExpressionView;
use crate::ast::StatementView;
use crate::parser::advance;
use crate::parser::first;
use crate::parser::infix_operator_of;
use crate::parser::lemma_block_bounds;
use crate::parser::lemma_expression_bounds;
use crate::parser::lemma_expression_start_bounds;
use crate::parser::lemma_infix_expression_bounds;
use crate::parser::lemma_parameters_bounds;
use crate::parser::lemma_statement_bounds;
use crate::parser::parse_block_rest;
use crate::parser::parse_block_statement_spec;
use crate::parser::parse_call_args_rest;
use crate::parser::parse_call_args_spec;
use crate::parser::parse_expression_spec;
use crate::parser::parse_expression_start;
use crate::parser::parse_expression_statement_spec;
use crate::parser::parse_fn_literal_spec;
use crate::parser::parse_grouped_expression_spec;
use crate::parser::parse_if_expression_spec;
use crate::parser::parse_infix_expression_spec;
use crate::parser::parse_infix_rest;
use crate::parser::parse_integer_literal_spec;
use crate::parser::parse_let_statement_spec;
use crate::parser::parse_prefix_expression_spec;
use crate::parser::parse_program_rest;
use crate::parser::parse_program_spec;
use crate::parser::parse_return_statement_spec;
use crate::parser::parse_statement_spec;
use crate::parser::precedence_of;
use crate::parser::second;
use crate::parser::Parsed;
use crate::parser::Precedence;
use crate::written::lemma_front;
use crate::written::lemma_front_two;
use crate::written::lemma_reads_parameters;
use crate::text::integer_value;
use crate::token::TokenType;
use crate::token::TokenView;
use crate::written::mark;
use crate::written::string_token;
use crate::written::written_parameters;
use vstd::prelude::*;

verus! {

/// What an operand starts with, behind its prefix operators: a name, a
/// literal, an expression in parentheses, a block, an `if` or a function
/// literal.
#[allow(inconsistent_fields)]
pub enum Primary {
    Identifier { name: Seq<char> },
    Integer { digits: Seq<char> },
    Boolean { value: bool },
    Text { value: Seq<char> },
    Group { inner: Box<Phrase> },
    Block { sentences: Seq<Sentence> },
    If { condition: Box<Phrase>, consequence: Seq<Sentence>, alternative: Option<Seq<Sentence>> },
    Function { parameters: Seq<Seq<char>>, body: Seq<Sentence> },
}

/// Prefix operators and what they stand before.
pub struct Head {
    pub prefixes: Seq<PrefixOperator>,
    pub primary: Primary,
}

/// What may follow in an expression: the arguments of a call, or an infix
/// operator and an operand.
pub enum Link {
    Call { arguments: Seq<Phrase> },
    Operator { operator: InfixOperator, operand: Head },
}

/// An expression as the grammar writes it: an operand, then calls and
/// operators with operands, in the order of the text. How the operators
/// group is not part of it.
pub struct Phrase {
    pub head: Head,
    pub links: Seq<Link>,
}

/// A statement as the grammar writes it.
pub enum Sentence {
    Let { name: Seq<char>, value: Phrase },
    Return { value: Phrase },
    Expression { value: Phrase, semicolon: bool },
}

/// The token that writes digits.
pub open spec fn digits_token(digits: Seq<char>) -> TokenView {
    TokenView::with_text(TokenType::Int, digits)
}

/// The tokens of an expression of the grammar, before the tokens `closing`.
pub open spec fn phrase_tokens(p: Phrase, closing: Seq<TokenView>) -> Seq<TokenView>
    decreases p, 0nat, 0nat,
{
    head_tokens(p.head, 0, links_tokens(p.links, 0, closing))
}

/// The tokens of an operand from its prefix operator at position `skip` on,
/// before the tokens `behind`.
pub open spec fn head_tokens(h: Head, skip: nat, behind: Seq<TokenView>) -> Seq<TokenView>
    decreases h, 1nat, h.prefixes.len() - skip,
{
    if skip < h.prefixes.len() {
        seq![prefix_token(h.prefixes[skip as int])] + head_tokens(h, skip + 1, behind)
    } else {
        primary_tokens(h.primary, behind)
    }
}

/// The tokens of what an operand starts with, before the tokens `behind`.
pub open spec fn primary_tokens(primary: Primary, behind: Seq<TokenView>) -> Seq<TokenView>
    decreases primary, 0nat, 0nat,
{
    match primary {
        Primary::Identifier { name } => seq![identifier_token(name)] + behind,
        Primary::Integer { digits } => seq![digits_token(digits)] + behind,
        Primary::Boolean { value } => seq![
            mark(
                if value {
                    TokenType::True
                } else {
                    TokenType::False
                },
            ),
        ] + behind,
        Primary::Text { value } => seq![string_token(value)] + behind,
        Primary::Group { inner } => seq![mark(TokenType::LParen)] + phrase_tokens(
            *inner,
            seq![mark(TokenType::RParen)] + behind,
        ),
        Primary::Block { sentences } => block_tokens(sentences, behind),
        Primary::If { condition, consequence, alternative } => seq![
            mark(TokenType::If),
            mark(TokenType::LParen),
        ] + phrase_tokens(
            *condition,
            seq![mark(TokenType::RParen)] + block_tokens(
                consequence,
                match alternative {
                    Some(block) => seq![mark(TokenType::Else)] + block_tokens(block, behind),
                    None => behind,
                },
            ),
        ),
        Primary::Function { parameters, body } => seq![
            mark(TokenType::Function),
            mark(TokenType::LParen),
        ] + written_parameters(
            parameters,
            0,
            seq![mark(TokenType::RParen)] + block_tokens(body, behind),
        ),
    }
}

/// The tokens of the calls and operators of an expression from position `j`
/// on, before the tokens `closing`.
pub open spec fn links_tokens(links: Seq<Link>, j: nat, closing: Seq<TokenView>) -> Seq<TokenView>
    decreases links, 1nat, links.len() - j,
{
    if j >= links.len() {
        closing
    } else {
        match links[j as int] {
            Link::Call { arguments } => seq![mark(TokenType::LParen)] + arguments_tokens(
                arguments,
                0,
                seq![mark(TokenType::RParen)] + links_tokens(links, j + 1, closing),
            ),
            Link::Operator { operator, operand } => seq![operator_token(operator)] + head_tokens(
                operand,
                0,
                links_tokens(links, j + 1, closing),
            ),
        }
    }
}

/// The tokens of the arguments of a call from position `k` on, with commas
/// between them, before the tokens `behind`.
pub open spec fn arguments_tokens(arguments: Seq<Phrase>, k: nat, behind: Seq<TokenView>) -> Seq<
    TokenView,
>
    decreases arguments, 1nat, arguments.len() - k,
{
    if k >= arguments.len() {
        behind
    } else if k + 1 == arguments.len() {
        phrase_tokens(arguments[k as int], behind)
    } else {
        phrase_tokens(
            arguments[k as int],
            seq![mark(TokenType::Comma)] + arguments_tokens(arguments, k + 1, behind),
        )
    }
}

/// The tokens of a block, before the tokens `behind`.
pub open spec fn block_tokens(sentences: Seq<Sentence>, behind: Seq<TokenView>) -> Seq<TokenView>
    decreases sentences, 2nat, 0nat,
{
    seq![mark(TokenType::LBrace)] + sentences_tokens(
        sentences,
        0,
        seq![mark(TokenType::RBrace)] + behind,
    )
}

/// The tokens of the statements from position `from` on, before the tokens
/// `behind`.
pub open spec fn sentences_tokens(
    sentences: Seq<Sentence>,
    from: nat,
    behind: Seq<TokenView>,
) -> Seq<TokenView>
    decreases sentences, 1nat, sentences.len() - from,
{
    if from >= sentences.len() {
        behind
    } else {
        sentence_tokens(sentences[from as int], sentences_tokens(sentences, from + 1, behind))
    }
}

/// The tokens of a statement, before the tokens `behind`.
pub open spec fn sentence_tokens(s: Sentence, behind: Seq<TokenView>) -> Seq<TokenView>
    decreases s, 0nat, 0nat,
{
    match s {
        Sentence::Let { name, value } => seq![
            mark(TokenType::Let),
            identifier_token(name),
            mark(TokenType::Assign),
        ] + phrase_tokens(value, seq![mark(TokenType::Semicolon)] + behind),
        Sentence::Return { value } => seq![mark(TokenType::Return)] + phrase_tokens(
            value,
            seq![mark(TokenType::Semicolon)] + behind,
        ),
        Sentence::Expression { value, semicolon } => phrase_tokens(
            value,
            if semicolon {
                seq![mark(TokenType::Semicolon)] + behind
            } else {
                behind
            },
        ),
    }
}

/// Whether a token of this type may stand behind an expression: it binds
/// nothing, or it is `;`; and it is no `else`, which belongs to the `if`
/// before it.
pub open spec fn closes(kind: TokenType) -> bool {
    (kind == TokenType::Semicolon || precedence_of(kind) == Precedence::LOWEST) && kind
        != TokenType::Else
}

/// Whether a token of this type may stand behind an expression statement
/// that has no `;`: it binds nothing, so that it starts the next statement or
/// closes the block or the program.
pub open spec fn ends_statement(kind: TokenType) -> bool {
    precedence_of(kind) == Precedence::LOWEST && kind != TokenType::Semicolon && kind
        != TokenType::Else
}

/// The type of the first token of what an operand starts with.
pub open spec fn primary_kind(primary: Primary) -> TokenType {
    match primary {
        Primary::Identifier { .. } => TokenType::Ident,
        Primary::Integer { .. } => TokenType::Int,
        Primary::Boolean { value } => if value {
            TokenType::True
        } else {
            TokenType::False
        },
        Primary::Text { .. } => TokenType::String,
        Primary::Group { .. } => TokenType::LParen,
        Primary::Block { .. } => TokenType::LBrace,
        Primary::If { .. } => TokenType::If,
        Primary::Function { .. } => TokenType::Function,
    }
}

/// The type of the first token of an expression of the grammar.
pub open spec fn phrase_kind(p: Phrase) -> TokenType {
    if p.head.prefixes.len() > 0 {
        prefix_token(p.head.prefixes[0]).kind
    } else {
        primary_kind(p.head.primary)
    }
}

/// The type of the first token of a statement.
pub open spec fn sentence_kind(s: Sentence) -> TokenType {
    match s {
        Sentence::Let { .. } => TokenType::Let,
        Sentence::Return { .. } => TokenType::Return,
        Sentence::Expression { value, .. } => phrase_kind(value),
    }
}

/// The type of the token that follows the statement before position `from`:
/// that of the first token of the statement at `from`, or `closing` behind
/// the last statement.
pub open spec fn following_kind(sentences: Seq<Sentence>, from: nat, closing: TokenType) -> TokenType {
    if from < sentences.len() {
        sentence_kind(sentences[from as int])
    } else {
        closing
    }
}

/// Whether an expression is one of the grammar: each integer literal in it
/// fits a 64-bit signed integer, and each statement in it is one of the
/// grammar.
pub open spec fn grammatical_phrase(p: Phrase) -> bool
    decreases p, 0nat, 0nat,
{
    grammatical_primary(p.head.primary) && grammatical_links(p.links, 0)
}

/// Whether what an operand starts with is of the grammar.
pub open spec fn grammatical_primary(primary: Primary) -> bool
    decreases primary, 0nat, 0nat,
{
    match primary {
        Primary::Integer { digits } => integer_value(digits) is Some,
        Primary::Group { inner } => grammatical_phrase(*inner),
        Primary::Block { sentences } => grammatical_sentences(sentences, 0, TokenType::RBrace),
        Primary::If { condition, consequence, alternative } => grammatical_phrase(*condition)
            && grammatical_sentences(consequence, 0, TokenType::RBrace) && match alternative {
            Some(block) => grammatical_sentences(block, 0, TokenType::RBrace),
            None => true,
        },
        Primary::Function { body, .. } => grammatical_sentences(body, 0, TokenType::RBrace),
        _ => true,
    }
}

/// Whether the calls and operators from position `j` on are of the grammar.
pub open spec fn grammatical_links(links: Seq<Link>, j: nat) -> bool
    decreases links, 1nat, links.len() - j,
{
    if j >= links.len() {
        true
    } else {
        grammatical_links(links, j + 1) && match links[j as int] {
            Link::Call { arguments } => grammatical_arguments(arguments, 0),
            Link::Operator { operand, .. } => grammatical_primary(operand.primary),
        }
    }
}

/// Whether the arguments from position `k` on are of the grammar.
pub open spec fn grammatical_arguments(arguments: Seq<Phrase>, k: nat) -> bool
    decreases arguments, 1nat, arguments.len() - k,
{
    if k >= arguments.len() {
        true
    } else {
        grammatical_phrase(arguments[k as int]) && grammatical_arguments(arguments, k + 1)
    }
}

/// Whether the statements from position `from` on are of the grammar, where
/// a token of type `closing` follows the last: each expression in them is of
/// the grammar, and an expression statement without `;` stands before a
/// token that may stand behind an expression.
pub open spec fn grammatical_sentences(sentences: Seq<Sentence>, from: nat, closing: TokenType) -> bool
    decreases sentences, 1nat, sentences.len() - from,
{
    if from >= sentences.len() {
        true
    } else {
        grammatical_sentence(sentences[from as int]) && (sentences[from as int] matches Sentence::Expression {
            semicolon,
            ..
        } ==> semicolon || ends_statement(following_kind(sentences, from + 1, closing)))
            && grammatical_sentences(sentences, from + 1, closing)
    }
}

/// Whether the expression of a statement is of the grammar.
pub open spec fn grammatical_sentence(s: Sentence) -> bool
    decreases s, 0nat, 0nat,
{
    match s {
        Sentence::Let { value, .. } => grammatical_phrase(value),
        Sentence::Return { value } => grammatical_phrase(value),
        Sentence::Expression { value, .. } => grammatical_phrase(value),
    }
}

/// How tightly a call or an operator binds.
pub open spec fn link_rank(link: Link) -> nat {
    match link {
        Link::Call { .. } => Precedence::CALL.rank(),
        Link::Operator { operator, .. } => binding(operator).rank(),
    }
}

/// The first position from `j` on whose call or operator binds no tighter
/// than `rank`; the number of them where there is none.
pub open spec fn stop(links: Seq<Link>, j: nat, rank: nat) -> nat
    decreases links.len() - j,
{
    if j >= links.len() {
        links.len()
    } else if link_rank(links[j as int]) <= rank {
        j
    } else {
        stop(links, j + 1, rank)
    }
}

/// The operand at position `i` of an expression: the first one, or the one
/// behind the operator at position `i - 1`.
pub open spec fn head_at(p: Phrase, i: nat) -> Head {
    if i == 0 {
        p.head
    } else {
        p.links[i - 1]->Operator_operand
    }
}

/// Whether an operand stands at position `i` of an expression.
pub open spec fn head_stands_at(p: Phrase, i: nat) -> bool {
    i == 0 || (i <= p.links.len() && p.links[i - 1] is Operator)
}

/// Whether a parsing step yields something and leaves the tokens `target`
/// behind the token it ends on.
pub open spec fn arrives<T>(result: Parsed<T>, target: Seq<TokenView>) -> bool {
    result.0 is Ok && result.1.len() >= 1 && advance(result.1) == target
}

/// Where the stop lies.
pub proof fn lemma_stop_bounds(links: Seq<Link>, j: nat, rank: nat)
    requires
        j <= links.len(),
    ensures
        j <= stop(links, j, rank) <= links.len(),
        stop(links, j, rank) < links.len() ==> link_rank(links[stop(links, j, rank) as int])
            <= rank,
    decreases links.len() - j,
{
    if j < links.len() && link_rank(links[j as int]) > rank {
        lemma_stop_bounds(links, j + 1, rank);
    }
}

/// Behind the stop for a tighter level, the stop for a looser level is the
/// one that was looked for from the start.
pub proof fn lemma_stop_again(links: Seq<Link>, j: nat, tighter: nat, looser: nat)
    requires
        j <= links.len(),
        looser <= tighter,
    ensures
        stop(links, stop(links, j, tighter), looser) == stop(links, j, looser),
    decreases links.len() - j,
{
    if j < links.len() && link_rank(links[j as int]) > tighter {
        lemma_stop_again(links, j + 1, tighter, looser);
    }
}

/// Every call and operator binds tighter than the lowest level.
pub proof fn lemma_stop_at_lowest(links: Seq<Link>, j: nat)
    requires
        j <= links.len(),
    ensures
        stop(links, j, 0) == links.len(),
    decreases links.len() - j,
{
    if j < links.len() {
        lemma_stop_at_lowest(links, j + 1);
    }
}

/// Calls and operators of the grammar stay of the grammar from any later
/// position on.
pub proof fn lemma_grammatical_links_later(links: Seq<Link>, j: nat, k: nat)
    requires
        j <= k <= links.len(),
        grammatical_links(links, j),
    ensures
        grammatical_links(links, k),
    decreases k - j,
{
    if j < k {
        lemma_grammatical_links_later(links, j + 1, k);
    }
}

/// The first token of what an operand starts with.
pub proof fn lemma_primary_first(primary: Primary, behind: Seq<TokenView>)
    ensures
        primary_tokens(primary, behind).len() >= 1,
        first(primary_tokens(primary, behind)).kind == primary_kind(primary),
{
    match primary {
        Primary::Group { inner } => {
            lemma_front(
                mark(TokenType::LParen),
                phrase_tokens(*inner, seq![mark(TokenType::RParen)] + behind),
            );
        },
        Primary::Block { sentences } => {
            lemma_front(
                mark(TokenType::LBrace),
                sentences_tokens(sentences, 0, seq![mark(TokenType::RBrace)] + behind),
            );
        },
        _ => {},
    }
}

/// The first token of an operand.
pub proof fn lemma_head_first(h: Head, skip: nat, behind: Seq<TokenView>)
    requires
        skip <= h.prefixes.len(),
    ensures
        head_tokens(h, skip, behind).len() >= 1,
        first(head_tokens(h, skip, behind)).kind == if skip < h.prefixes.len() {
            prefix_token(h.prefixes[skip as int]).kind
        } else {
            primary_kind(h.primary)
        },
{
    if skip < h.prefixes.len() {
        lemma_front(prefix_token(h.prefixes[skip as int]), head_tokens(h, skip + 1, behind));
    } else {
        lemma_primary_first(h.primary, behind);
    }
}

/// The first token of a statement.
pub proof fn lemma_sentence_first(s: Sentence, behind: Seq<TokenView>)
    ensures
        sentence_tokens(s, behind).len() >= 1,
        first(sentence_tokens(s, behind)).kind == sentence_kind(s),
{
    match s {
        Sentence::Let { name, value } => {},
        Sentence::Return { value } => {},
        Sentence::Expression { value, semicolon } => {
            let closing = if semicolon {
                seq![mark(TokenType::Semicolon)] + behind
            } else {
                behind
            };
            lemma_head_first(value.head, 0, links_tokens(value.links, 0, closing));
        },
    }
}

/// The first token of the statements from a position on.
pub proof fn lemma_sentences_first(sentences: Seq<Sentence>, from: nat, behind: Seq<TokenView>)
    ensures
        first(sentences_tokens(sentences, from, behind)).kind == following_kind(
            sentences,
            from,
            first(behind).kind,
        ),
{
    if from < sentences.len() {
        lemma_sentence_first(
            sentences[from as int],
            sentences_tokens(sentences, from + 1, behind),
        );
    }
}

/// The first token of the calls and operators from a position on is no
/// `else`, where the token behind them is none.
pub proof fn lemma_links_first(links: Seq<Link>, j: nat, closing: Seq<TokenView>)
    requires
        first(closing).kind != TokenType::Else,
    ensures
        first(links_tokens(links, j, closing)).kind != TokenType::Else,
{
    if j < links.len() {
        match links[j as int] {
            Link::Call { arguments } => {
                lemma_front(
                    mark(TokenType::LParen),
                    arguments_tokens(
                        arguments,
                        0,
                        seq![mark(TokenType::RParen)] + links_tokens(links, j + 1, closing),
                    ),
                );
            },
            Link::Operator { operator, operand } => {
                lemma_front(
                    operator_token(operator),
                    head_tokens(operand, 0, links_tokens(links, j + 1, closing)),
                );
            },
        }
    }
}

/// What an operand of the grammar starts with is parsed, up to its end.
pub proof fn lemma_primary_parses(primary: Primary, behind: Seq<TokenView>)
    requires
        grammatical_primary(primary),
        first(behind).kind != TokenType::Else,
    ensures
        arrives(parse_expression_start(primary_tokens(primary, behind)), behind),
    decreases primary, 0nat, 0nat, 0nat, 0nat,
{
    let ts = primary_tokens(primary, behind);
    match primary {
        Primary::Identifier { name } => {
            lemma_front(identifier_token(name), behind);
        },
        Primary::Integer { digits } => {
            lemma_front(digits_token(digits), behind);
            assert(parse_expression_start(ts) == parse_integer_literal_spec(ts));
        },
        Primary::Boolean { value } => {
            lemma_front(first(ts), behind);
        },
        Primary::Text { value } => {
            lemma_front(string_token(value), behind);
        },
        Primary::Group { inner } => {
            let closing = seq![mark(TokenType::RParen)] + behind;
            let inside = phrase_tokens(*inner, closing);
            lemma_front(mark(TokenType::LParen), inside);
            lemma_front(mark(TokenType::RParen), behind);
            lemma_phrase_parses(*inner, closing, Precedence::LOWEST);
            lemma_stop_at_lowest(inner.links, 0);
            assert(links_tokens(inner.links, inner.links.len(), closing) == closing);
            assert(parse_expression_start(ts) == parse_grouped_expression_spec(ts));
        },
        Primary::Block { sentences } => {
            lemma_block_parses(sentences, behind);
            lemma_front(mark(TokenType::RBrace), behind);
            lemma_primary_first(primary, behind);
        },
        Primary::If { condition, consequence, alternative } => {
            let tail = match alternative {
                Some(block) => seq![mark(TokenType::Else)] + block_tokens(block, behind),
                None => behind,
            };
            let from_block = block_tokens(consequence, tail);
            let closing = seq![mark(TokenType::RParen)] + from_block;
            let from_condition = phrase_tokens(*condition, closing);
            lemma_front_two(mark(TokenType::If), mark(TokenType::LParen), from_condition);
            lemma_front(mark(TokenType::RParen), from_block);
            lemma_front(mark(TokenType::RBrace), tail);
            lemma_front(mark(TokenType::RBrace), behind);
            lemma_phrase_parses(*condition, closing, Precedence::LOWEST);
            lemma_stop_at_lowest(condition.links, 0);
            assert(links_tokens(condition.links, condition.links.len(), closing) == closing);
            lemma_expression_bounds(from_condition, Precedence::LOWEST);
            lemma_block_parses(consequence, tail);
            lemma_block_bounds(from_block);
            match alternative {
                Some(block) => {
                    lemma_front(mark(TokenType::Else), block_tokens(block, behind));
                    lemma_block_parses(block, behind);
                },
                None => {},
            }
            assert(parse_expression_start(ts) == parse_if_expression_spec(ts));
        },
        Primary::Function { parameters, body } => {
            let from_block = block_tokens(body, behind);
            let closing = seq![mark(TokenType::RParen)] + from_block;
            let from_parameters = written_parameters(parameters, 0, closing);
            lemma_front_two(mark(TokenType::Function), mark(TokenType::LParen), from_parameters);
            lemma_front(mark(TokenType::RParen), from_block);
            lemma_front(mark(TokenType::RBrace), behind);
            lemma_reads_parameters(parameters, 0, Seq::empty(), from_block);
            lemma_parameters_bounds(from_parameters, Seq::empty());
            lemma_block_parses(body, behind);
            assert(parse_expression_start(ts) == parse_fn_literal_spec(ts));
        },
    }
}

/// An expression of the grammar is parsed: the parser takes it up to the
/// first of its calls and operators that binds no tighter than the level
/// asked for, or to its end.
pub proof fn lemma_phrase_parses(p: Phrase, closing: Seq<TokenView>, precedence: Precedence)
    requires
        grammatical_phrase(p),
        closes(first(closing).kind),
        precedence.rank() <= Precedence::PREFIX.rank(),
    ensures
        arrives(
            parse_expression_spec(phrase_tokens(p, closing), precedence),
            links_tokens(p.links, stop(p.links, 0, precedence.rank()), closing),
        ),
    decreases p, 2nat, 0nat, 0nat, 0nat,
{
    lemma_head_parses(p, 0, 0, closing, precedence);
}

/// An operand and what follows it are parsed: from the prefix operator at
/// position `skip` of the operand at position `i` on, the parser takes the
/// expression up to the first of the calls and operators behind the operand
/// that binds no tighter than the level asked for, or to its end.
pub proof fn lemma_head_parses(
    p: Phrase,
    i: nat,
    skip: nat,
    closing: Seq<TokenView>,
    precedence: Precedence,
)
    requires
        head_stands_at(p, i),
        skip <= head_at(p, i).prefixes.len(),
        grammatical_primary(head_at(p, i).primary),
        grammatical_links(p.links, i),
        closes(first(closing).kind),
        precedence.rank() <= Precedence::PREFIX.rank(),
    ensures
        arrives(
            parse_expression_spec(
                head_tokens(head_at(p, i), skip, links_tokens(p.links, i, closing)),
                precedence,
            ),
            links_tokens(p.links, stop(p.links, i, precedence.rank()), closing),
        ),
    decreases p, 1nat, p.links.len() - i, 1nat, head_at(p, i).prefixes.len() - skip,
{
    let h = head_at(p, i);
    let behind = links_tokens(p.links, i, closing);
    let ts = head_tokens(h, skip, behind);
    lemma_expression_start_bounds(ts);
    lemma_head_first(h, skip, behind);
    if skip < h.prefixes.len() {
        let inner = head_tokens(h, skip + 1, behind);
        lemma_front(prefix_token(h.prefixes[skip as int]), inner);
        lemma_head_parses(p, i, skip + 1, closing, Precedence::PREFIX);
        let at = stop(p.links, i, Precedence::PREFIX.rank());
        lemma_stop_bounds(p.links, i, Precedence::PREFIX.rank());
        lemma_grammatical_links_later(p.links, i, at);
        let (operand, out) = parse_expression_spec(inner, Precedence::PREFIX);
        assert(parse_expression_start(ts) == parse_prefix_expression_spec(ts));
        let start = parse_expression_start(ts);
        assert(start.0 is Ok && start.1 == out);
        lemma_rest_parses(p, at, closing, precedence, start.0->Ok_0, out);
        lemma_stop_again(p.links, i, Precedence::PREFIX.rank(), precedence.rank());
    } else {
        lemma_links_first(p.links, i, closing);
        if i > 0 {
            assert(grammatical_primary(p.links[i - 1]->Operator_operand.primary));
        }
        lemma_primary_parses(h.primary, behind);
        let start = parse_expression_start(ts);
        lemma_rest_parses(p, i, closing, precedence, start.0->Ok_0, start.1);
    }
}

/// The calls and operators behind an operand are parsed: from position `j`
/// on, the parser takes them up to the first that binds no tighter than the
/// level asked for, or to the end of the expression.
pub proof fn lemma_rest_parses(
    p: Phrase,
    j: nat,
    closing: Seq<TokenView>,
    precedence: Precedence,
    left: ExpressionView,
    ts: Seq<TokenView>,
)
    requires
        j <= p.links.len(),
        grammatical_links(p.links, j),
        closes(first(closing).kind),
        precedence.rank() <= Precedence::PREFIX.rank(),
        ts.len() >= 1,
        advance(ts) == links_tokens(p.links, j, closing),
    ensures
        arrives(
            parse_infix_rest(left, ts, precedence),
            links_tokens(p.links, stop(p.links, j, precedence.rank()), closing),
        ),
    decreases p, 1nat, p.links.len() - j, 0nat, 0nat,
{
    let behind = advance(ts);
    assert(second(ts) == first(behind));
    if j >= p.links.len() {
    } else {
        let next = links_tokens(p.links, j + 1, closing);
        lemma_infix_expression_bounds(behind);
        match p.links[j as int] {
            Link::Call { arguments } => {
                let closing_call = seq![mark(TokenType::RParen)] + next;
                let from_arguments = arguments_tokens(arguments, 0, closing_call);
                lemma_front(mark(TokenType::LParen), from_arguments);
                lemma_front(mark(TokenType::RParen), next);
                lemma_arguments_parse(arguments, 0, next, Seq::empty());
                assert(parse_call_args_spec(behind) == parse_call_args_rest(
                    from_arguments,
                    Seq::empty(),
                ));
                let found = parse_infix_expression_spec(behind);
                assert(found is Some);
                let taken = found->0;
                assert(taken.0 is Ok && taken.1 == closing_call);
                let joined = ExpressionView::CallExpression {
                    left: Box::new(left),
                    arguments: parse_call_args_spec(behind).0->Ok_0,
                };
                lemma_rest_parses(p, j + 1, closing, precedence, joined, closing_call);
            },
            Link::Operator { operator, operand } => {
                let from_operand = head_tokens(operand, 0, next);
                lemma_front(operator_token(operator), from_operand);
                assert(infix_operator_of(operator_token(operator).kind) == Some(operator));
                if binding(operator).rank() > precedence.rank() {
                    lemma_head_parses(p, j + 1, 0, closing, binding(operator));
                    let at = stop(p.links, j + 1, binding(operator).rank());
                    lemma_stop_bounds(p.links, j + 1, binding(operator).rank());
                    lemma_grammatical_links_later(p.links, j, at);
                    let (right, out) = parse_expression_spec(from_operand, binding(operator));
                    let found = parse_infix_expression_spec(behind);
                    assert(found is Some);
                    let taken = found->0;
                    assert(taken.0 is Ok && taken.1 == out);
                    let joined = ExpressionView::Infix {
                        left: Box::new(left),
                        operator,
                        right: Box::new(right->Ok_0),
                    };
                    lemma_rest_parses(p, at, closing, precedence, joined, out);
                    lemma_stop_again(
                        p.links,
                        j + 1,
                        binding(operator).rank(),
                        precedence.rank(),
                    );
                }
            },
        }
    }
}

/// The arguments of a call of the grammar are parsed, up to the closing
/// parenthesis.
pub proof fn lemma_arguments_parse(
    arguments: Seq<Phrase>,
    k: nat,
    behind: Seq<TokenView>,
    done: Seq<ExpressionView>,
)
    requires
        k <= arguments.len(),
        grammatical_arguments(arguments, k),
    ensures
        parse_call_args_rest(
            arguments_tokens(arguments, k, seq![mark(TokenType::RParen)] + behind),
            done,
        ).0 is Ok,
        parse_call_args_rest(
            arguments_tokens(arguments, k, seq![mark(TokenType::RParen)] + behind),
            done,
        ).1 == seq![mark(TokenType::RParen)] + behind,
    decreases arguments, 1nat, arguments.len() - k, 0nat, 0nat,
{
    let closing = seq![mark(TokenType::RParen)] + behind;
    lemma_front(mark(TokenType::RParen), behind);
    if k < arguments.len() {
        let argument = arguments[k as int];
        let next = arguments_tokens(arguments, k + 1, closing);
        let after = if k + 1 == arguments.len() {
            closing
        } else {
            seq![mark(TokenType::Comma)] + next
        };
        lemma_front(mark(TokenType::Comma), next);
        let ts = phrase_tokens(argument, after);
        assert(arguments_tokens(arguments, k, closing) == ts);
        lemma_head_first(argument.head, 0, links_tokens(argument.links, 0, after));
        lemma_phrase_parses(argument, after, Precedence::LOWEST);
        lemma_stop_at_lowest(argument.links, 0);
        assert(links_tokens(argument.links, argument.links.len(), after) == after);
        lemma_expression_bounds(ts, Precedence::LOWEST);
        let (result, ts1) = parse_expression_spec(ts, Precedence::LOWEST);
        lemma_arguments_parse(arguments, k + 1, behind, done.push(result->Ok_0));
    }
}

/// A block of the grammar is parsed, up to its closing brace.
pub proof fn lemma_block_parses(sentences: Seq<Sentence>, behind: Seq<TokenView>)
    requires
        grammatical_sentences(sentences, 0, TokenType::RBrace),
    ensures
        parse_block_statement_spec(block_tokens(sentences, behind)).0 is Ok,
        parse_block_statement_spec(block_tokens(sentences, behind)).1 == seq![
            mark(TokenType::RBrace),
        ] + behind,
    decreases sentences, 2nat, 0nat, 0nat, 0nat,
{
    let inner = sentences_tokens(sentences, 0, seq![mark(TokenType::RBrace)] + behind);
    lemma_front(mark(TokenType::LBrace), inner);
    lemma_block_rest_parses(sentences, 0, behind, Seq::empty());
}

/// The statements of a block of the grammar are parsed, one for one, up to
/// the closing brace.
pub proof fn lemma_block_rest_parses(
    sentences: Seq<Sentence>,
    from: nat,
    behind: Seq<TokenView>,
    done: Seq<StatementView>,
)
    requires
        from <= sentences.len(),
        grammatical_sentences(sentences, from, TokenType::RBrace),
    ensures
        parse_block_rest(
            sentences_tokens(sentences, from, seq![mark(TokenType::RBrace)] + behind),
            done,
        ).0 is Ok,
        parse_block_rest(
            sentences_tokens(sentences, from, seq![mark(TokenType::RBrace)] + behind),
            done,
        ).1 == seq![mark(TokenType::RBrace)] + behind,
        parse_block_rest(
            sentences_tokens(sentences, from, seq![mark(TokenType::RBrace)] + behind),
            done,
        ).0->Ok_0.len() == done.len() + sentences.len() - from,
    decreases sentences, 1nat, sentences.len() - from, 0nat, 0nat,
{
    let closing = seq![mark(TokenType::RBrace)] + behind;
    lemma_front(mark(TokenType::RBrace), behind);
    if from < sentences.len() {
        let s = sentences[from as int];
        let next = sentences_tokens(sentences, from + 1, closing);
        let ts = sentence_tokens(s, next);
        lemma_sentence_first(s, next);
        lemma_sentences_first(sentences, from + 1, closing);
        lemma_sentence_parses(s, next);
        lemma_statement_bounds(ts);
        let (result, ts1) = parse_statement_spec(ts);
        lemma_block_rest_parses(sentences, from + 1, behind, done.push(result->Ok_0));
    }
}

/// A statement of the grammar is parsed, up to its end.
pub proof fn lemma_sentence_parses(s: Sentence, behind: Seq<TokenView>)
    requires
        grammatical_sentence(s),
        s matches Sentence::Expression { semicolon, .. } ==> semicolon || ends_statement(
            first(behind).kind,
        ),
    ensures
        arrives(parse_statement_spec(sentence_tokens(s, behind)), behind),
    decreases s, 0nat, 0nat, 0nat, 0nat,
{
    let ts = sentence_tokens(s, behind);
    let closing = seq![mark(TokenType::Semicolon)] + behind;
    lemma_front(mark(TokenType::Semicolon), behind);
    lemma_sentence_first(s, behind);
    match s {
        Sentence::Let { name, value } => {
            let from_value = phrase_tokens(value, closing);
            assert(ts =~= seq![mark(TokenType::Let)] + (seq![identifier_token(name)] + (seq![
                mark(TokenType::Assign),
            ] + from_value)));
            lemma_front(mark(TokenType::Assign), from_value);
            lemma_front(identifier_token(name), seq![mark(TokenType::Assign)] + from_value);
            lemma_front(
                mark(TokenType::Let),
                seq![identifier_token(name)] + (seq![mark(TokenType::Assign)] + from_value),
            );
            lemma_phrase_parses(value, closing, Precedence::LOWEST);
            lemma_stop_at_lowest(value.links, 0);
            assert(links_tokens(value.links, value.links.len(), closing) == closing);
            assert(parse_statement_spec(ts) == parse_let_statement_spec(ts));
        },
        Sentence::Return { value } => {
            let from_value = phrase_tokens(value, closing);
            lemma_front(mark(TokenType::Return), from_value);
            lemma_phrase_parses(value, closing, Precedence::LOWEST);
            lemma_stop_at_lowest(value.links, 0);
            assert(links_tokens(value.links, value.links.len(), closing) == closing);
            assert(parse_statement_spec(ts) == parse_return_statement_spec(ts));
        },
        Sentence::Expression { value, semicolon } => {
            let after = if semicolon {
                closing
            } else {
                behind
            };
            lemma_phrase_parses(value, after, Precedence::LOWEST);
            lemma_stop_at_lowest(value.links, 0);
            assert(links_tokens(value.links, value.links.len(), after) == after);
            let (result, ts1) = parse_expression_spec(ts, Precedence::LOWEST);
            assert(second(ts1) == first(after));
            assert(parse_statement_spec(ts) == parse_expression_statement_spec(ts));
        },
    }
}

/// The statements of a program of the grammar are parsed, one for one.
pub proof fn lemma_program_rest_parses(
    sentences: Seq<Sentence>,
    from: nat,
    done: Seq<StatementView>,
)
    requires
        from <= sentences.len(),
        grammatical_sentences(sentences, from, TokenType::Eof),
    ensures
        parse_program_rest(sentences_tokens(sentences, from, Seq::empty()), done) is Ok,
        parse_program_rest(sentences_tokens(sentences, from, Seq::empty()), done)->Ok_0.len()
            == done.len() + sentences.len() - from,
    decreases sentences.len() - from,
{
    if from < sentences.len() {
        let s = sentences[from as int];
        let next = sentences_tokens(sentences, from + 1, Seq::empty());
        let ts = sentence_tokens(s, next);
        lemma_sentence_first(s, next);
        lemma_sentences_first(sentences, from + 1, Seq::empty());
        lemma_sentence_parses(s, next);
        lemma_statement_bounds(ts);
        let (result, ts1) = parse_statement_spec(ts);
        lemma_program_rest_parses(sentences, from + 1, done.push(result->Ok_0));
    }
}

/// The parser takes every program of the grammar: for statements of the
/// grammar behind one another, whatever parentheses they hold and however
/// their operators follow one another, parsing yields a program, with one
/// statement for each statement of the text.
pub proof fn lemma_grammatical_program_parses(sentences: Seq<Sentence>)
    requires
        grammatical_sentences(sentences, 0, TokenType::Eof),
    ensures
        parse_program_spec(sentences_tokens(sentences, 0, Seq::empty())) is Ok,
        parse_program_spec(sentences_tokens(sentences, 0, Seq::empty()))->Ok_0.len()
            == sentences.len(),
{
    lemma_program_rest_parses(sentences, 0, Seq::empty());
}

/// The parser takes every text of the grammar: where the tokens of a text
/// are those of statements of the grammar, parsing them yields a program,
/// with one statement for each statement of the text.
pub proof fn lemma_grammatical_text_parses(text: Seq<char>, sentences: Seq<Sentence>)
    requires
        grammatical_sentences(sentences, 0, TokenType::Eof),
        crate::lexer::tokens_from(text, 0) == sentences_tokens(sentences, 0, Seq::empty()),
    ensures
        parse_program_spec(crate::lexer::tokens_from(text, 0)) is Ok,
        parse_program_spec(crate::lexer::tokens_from(text, 0))->Ok_0.len() == sentences.len(),
{
    lemma_grammatical_program_parses(sentences);
}

/// Every text of the grammar is parsed, and the program that is parsed from
/// it is parsed again from the text that is written for it.
pub proof fn lemma_grammatical_text_round_trip(text: Seq<char>, sentences: Seq<Sentence>)
    requires
        grammatical_sentences(sentences, 0, TokenType::Eof),
        crate::lexer::tokens_from(text, 0) == sentences_tokens(sentences, 0, Seq::empty()),
    ensures
        parse_program_spec(crate::lexer::tokens_from(text, 0)) is Ok,
        parse_program_spec(
            crate::lexer::tokens_from(
                crate::ast::statements_text(
                    parse_program_spec(crate::lexer::tokens_from(text, 0))->Ok_0,
                    parse_program_spec(crate::lexer::tokens_from(text, 0))->Ok_0.len(),
                ),
                0,
            ),
        ) == parse_program_spec(crate::lexer::tokens_from(text, 0)),
{
    lemma_grammatical_program_parses(sentences);
    crate::parsed::lemma_parse_write_parse(text);
}

} // verus!
