use crate::lexer::digit;
use crate::lexer::digits_end;
use crate::lexer::lemma_next_token_advances;
use crate::lexer::lemma_spaces_end;
use crate::lexer::letter;
use crate::lexer::letters_end;
use crate::lexer::next_token_spec;
use crate::lexer::punctuation;
use crate::lexer::quote_position;
use crate::lexer::space;
use crate::lexer::spaces_end;
use crate::lexer::token_at;
use crate::lexer::tokens_from;
use crate::text::all_digits;
use crate::token::keyword;
use crate::token::TokenType;
use crate::token::TokenView;
use vstd::prelude::*;

verus! {

/// The text from position `k` on.
pub open spec fn tail(s: Seq<char>, k: nat) -> Seq<char> {
    s.subrange(k as int, s.len() as int)
}

/// Where a run of white space ends does not depend on the text before it.
pub proof fn lemma_spaces_end_shift(s: Seq<char>, k: nat, from: nat)
    requires
        k <= from <= s.len(),
    ensures
        spaces_end(s, from) == k + spaces_end(tail(s, k), (from - k) as nat),
    decreases s.len() - from,
{
    if from < s.len() && space(s[from as int]) {
        lemma_spaces_end_shift(s, k, from + 1);
    }
}

/// Where a run of letters ends does not depend on the text before it.
pub proof fn lemma_letters_end_shift(s: Seq<char>, k: nat, from: nat)
    requires
        k <= from <= s.len(),
    ensures
        letters_end(s, from) == k + letters_end(tail(s, k), (from - k) as nat),
    decreases s.len() - from,
{
    if from < s.len() && letter(s[from as int]) {
        lemma_letters_end_shift(s, k, from + 1);
    }
}

/// Where a run of digits ends does not depend on the text before it.
pub proof fn lemma_digits_end_shift(s: Seq<char>, k: nat, from: nat)
    requires
        k <= from <= s.len(),
    ensures
        digits_end(s, from) == k + digits_end(tail(s, k), (from - k) as nat),
    decreases s.len() - from,
{
    if from < s.len() && digit(s[from as int]) {
        lemma_digits_end_shift(s, k, from + 1);
    }
}

/// Where the next double quote stands does not depend on the text before
/// it.
pub proof fn lemma_quote_position_shift(s: Seq<char>, k: nat, from: nat)
    requires
        k <= from <= s.len(),
    ensures
        quote_position(s, from) == k + quote_position(tail(s, k), (from - k) as nat),
    decreases s.len() - from,
{
    if from < s.len() && s[from as int] != '"' {
        lemma_quote_position_shift(s, k, from + 1);
    }
}

/// The token at a position does not depend on the text before it.
pub proof fn lemma_token_at_shift(s: Seq<char>, k: nat, at: nat)
    requires
        k <= at <= s.len(),
    ensures
        token_at(s, at).0 == token_at(tail(s, k), (at - k) as nat).0,
        token_at(s, at).1 == k + token_at(tail(s, k), (at - k) as nat).1,
{
    let t = tail(s, k);
    let b = (at - k) as nat;
    if at < s.len() {
        lemma_letters_end_shift(s, k, at);
        lemma_digits_end_shift(s, k, at);
        lemma_quote_position_shift(s, k, at + 1);
        crate::lexer::lemma_letters_end(s, at);
        crate::lexer::lemma_digits_end(s, at);
        crate::lexer::lemma_quote_position(s, at + 1);
        assert(t[b as int] == s[at as int]);
        if at + 1 < s.len() {
            assert(t[(b + 1) as int] == s[(at + 1) as int]);
        }
        let close = quote_position(s, at + 1);
        assert(s.subrange((at + 1) as int, close as int) =~= t.subrange(
            (b + 1) as int,
            (close - k) as int,
        ));
        assert(s.subrange(at as int, (at + 1) as int) =~= t.subrange(b as int, (b + 1) as int));
        assert(s.subrange(at as int, letters_end(s, at) as int) =~= t.subrange(
            b as int,
            letters_end(t, b) as int,
        ));
        assert(s.subrange(at as int, digits_end(s, at) as int) =~= t.subrange(
            b as int,
            digits_end(t, b) as int,
        ));
    }
}

/// The next token does not depend on the text before the position from
/// which it is read.
pub proof fn lemma_next_token_shift(s: Seq<char>, from: nat)
    requires
        from <= s.len(),
    ensures
        next_token_spec(s, from).0 == next_token_spec(tail(s, from), 0).0,
        next_token_spec(s, from).1 == from + next_token_spec(tail(s, from), 0).1,
{
    lemma_spaces_end_shift(s, from, from);
    lemma_spaces_end(s, from);
    lemma_token_at_shift(s, from, spaces_end(s, from));
}

/// The tokens from a position on are the tokens of the text from that
/// position on.
pub proof fn lemma_tokens_from_shift(s: Seq<char>, from: nat)
    requires
        from <= s.len(),
    ensures
        tokens_from(s, from) == tokens_from(tail(s, from), 0),
    decreases s.len() - from,
{
    let t = tail(s, from);
    lemma_next_token_shift(s, from);
    lemma_next_token_advances(s, from);
    lemma_next_token_advances(t, 0);
    let (token, next) = next_token_spec(s, from);
    let (token_t, next_t) = next_token_spec(t, 0);
    if token.kind != TokenType::Eof {
        lemma_tokens_from_shift(s, next);
        lemma_tokens_from_shift(t, next_t);
        assert(tail(t, next_t) =~= tail(s, next));
    }
}

/// The tokens of a text are its first token and the tokens of the text
/// behind it.
pub proof fn lemma_tokens_head(s: Seq<char>)
    ensures
        next_token_spec(s, 0).0.kind == TokenType::Eof ==> tokens_from(s, 0) == Seq::<
            TokenView,
        >::empty(),
        next_token_spec(s, 0).0.kind != TokenType::Eof ==> tokens_from(s, 0) == seq![
            next_token_spec(s, 0).0,
        ] + tokens_from(tail(s, next_token_spec(s, 0).1), 0),
{
    lemma_next_token_advances(s, 0);
    if next_token_spec(s, 0).0.kind != TokenType::Eof {
        lemma_tokens_from_shift(s, next_token_spec(s, 0).1);
    }
}

/// White space before a text does not change its tokens.
pub proof fn lemma_lex_space(rest: Seq<char>)
    ensures
        tokens_from(seq![' '] + rest, 0) == tokens_from(rest, 0),
{
    let s = seq![' '] + rest;
    assert(s[0] == ' ');
    assert(tail(s, 1) =~= rest);
    lemma_next_token_advances(s, 0);
    lemma_next_token_advances(s, 1);
    lemma_spaces_end(s, 1);
    assert(spaces_end(s, 0) == spaces_end(s, 1));
    assert(tokens_from(s, 0) == tokens_from(s, 1));
    lemma_tokens_from_shift(s, 1);
}

/// A character that is a token by itself is read as that token, whatever
/// follows it.
pub proof fn lemma_lex_punctuation(ch: char, rest: Seq<char>)
    requires
        punctuation(ch) is Some,
    ensures
        tokens_from(seq![ch] + rest, 0) == seq![TokenView::plain(punctuation(ch)->0)]
            + tokens_from(rest, 0),
{
    let s = seq![ch] + rest;
    assert(s[0] == ch);
    assert(tail(s, 1) =~= rest);
    assert(spaces_end(s, 0) == 0);
    lemma_tokens_head(s);
}

/// `=` before anything but `=` is read as the assignment sign.
pub proof fn lemma_lex_assign(rest: Seq<char>)
    requires
        rest.len() == 0 || rest[0] != '=',
    ensures
        tokens_from(seq!['='] + rest, 0) == seq![TokenView::plain(TokenType::Assign)]
            + tokens_from(rest, 0),
{
    let s = seq!['='] + rest;
    assert(s[0] == '=');
    if rest.len() > 0 {
        assert(s[1] == rest[0]);
    }
    assert(tail(s, 1) =~= rest);
    assert(spaces_end(s, 0) == 0);
    lemma_tokens_head(s);
}

/// `!` before anything but `=` is read as the negation sign.
pub proof fn lemma_lex_bang(rest: Seq<char>)
    requires
        rest.len() == 0 || rest[0] != '=',
    ensures
        tokens_from(seq!['!'] + rest, 0) == seq![TokenView::plain(TokenType::Bang)] + tokens_from(
            rest,
            0,
        ),
{
    let s = seq!['!'] + rest;
    assert(s[0] == '!');
    if rest.len() > 0 {
        assert(s[1] == rest[0]);
    }
    assert(tail(s, 1) =~= rest);
    assert(spaces_end(s, 0) == 0);
    lemma_tokens_head(s);
}

/// `==` is read as the equality sign, whatever follows it.
pub proof fn lemma_lex_eq(rest: Seq<char>)
    ensures
        tokens_from(seq!['=', '='] + rest, 0) == seq![TokenView::plain(TokenType::Eq)]
            + tokens_from(rest, 0),
{
    let s = seq!['=', '='] + rest;
    assert(s[0] == '=');
    assert(s[1] == '=');
    assert(tail(s, 2) =~= rest);
    assert(spaces_end(s, 0) == 0);
    lemma_tokens_head(s);
}

/// `!=` is read as the inequality sign, whatever follows it.
pub proof fn lemma_lex_not_eq(rest: Seq<char>)
    ensures
        tokens_from(seq!['!', '='] + rest, 0) == seq![TokenView::plain(TokenType::NotEq)]
            + tokens_from(rest, 0),
{
    let s = seq!['!', '='] + rest;
    assert(s[0] == '!');
    assert(s[1] == '=');
    assert(tail(s, 2) =~= rest);
    assert(spaces_end(s, 0) == 0);
    lemma_tokens_head(s);
}

/// Whether each character of a text is a letter.
pub open spec fn all_letters(s: Seq<char>) -> bool {
    forall|i: int| 0 <= i < s.len() ==> letter(#[trigger] s[i])
}

/// Whether a text cannot go on a word or a number that stands before it: it
/// is empty, or starts with neither a letter nor a digit.
pub open spec fn separate(rest: Seq<char>) -> bool {
    rest.len() == 0 || !(letter(rest[0]) || digit(rest[0]))
}

/// A run of letters before a text that starts with no letter ends where
/// that text starts.
pub proof fn lemma_letters_run(word: Seq<char>, rest: Seq<char>, from: nat)
    requires
        all_letters(word),
        rest.len() == 0 || !letter(rest[0]),
        from <= word.len(),
    ensures
        letters_end(word + rest, from) == word.len(),
    decreases word.len() - from,
{
    let s = word + rest;
    if from < word.len() {
        assert(s[from as int] == word[from as int]);
        lemma_letters_run(word, rest, from + 1);
    } else if rest.len() > 0 {
        assert(s[from as int] == rest[0]);
    }
}

/// A run of digits before a text that starts with no digit ends where that
/// text starts.
pub proof fn lemma_digits_run(digits: Seq<char>, rest: Seq<char>, from: nat)
    requires
        all_digits(digits),
        rest.len() == 0 || !digit(rest[0]),
        from <= digits.len(),
    ensures
        digits_end(digits + rest, from) == digits.len(),
    decreases digits.len() - from,
{
    let s = digits + rest;
    if from < digits.len() {
        assert(s[from as int] == digits[from as int]);
        lemma_digits_run(digits, rest, from + 1);
    } else if rest.len() > 0 {
        assert(s[from as int] == rest[0]);
    }
}

/// The token that a word is: the keyword it spells, or an identifier.
pub open spec fn word_token(word: Seq<char>) -> TokenView {
    match keyword(word) {
        Some(kind) => TokenView::plain(kind),
        None => TokenView::with_text(TokenType::Ident, word),
    }
}

/// A word before a text that starts with no letter is read as one token: a
/// keyword or an identifier.
pub proof fn lemma_lex_word(word: Seq<char>, rest: Seq<char>)
    requires
        word.len() > 0,
        all_letters(word),
        rest.len() == 0 || !letter(rest[0]),
    ensures
        tokens_from(word + rest, 0) == seq![word_token(word)] + tokens_from(rest, 0),
{
    let s = word + rest;
    assert(s[0] == word[0]);
    assert(letter(s[0]));
    assert(spaces_end(s, 0) == 0);
    lemma_letters_run(word, rest, 0);
    assert(s.subrange(0, word.len() as int) =~= word);
    assert(tail(s, word.len()) =~= rest);
    crate::lexer::lemma_keyword_is_no_eof(word);
    lemma_tokens_head(s);
}

/// A number before a text that starts with no digit is read as one integer
/// token.
pub proof fn lemma_lex_number(digits: Seq<char>, rest: Seq<char>)
    requires
        digits.len() > 0,
        all_digits(digits),
        rest.len() == 0 || !digit(rest[0]),
    ensures
        tokens_from(digits + rest, 0) == seq![TokenView::with_text(TokenType::Int, digits)]
            + tokens_from(rest, 0),
{
    let s = digits + rest;
    assert(s[0] == digits[0]);
    assert(digit(s[0]));
    assert(spaces_end(s, 0) == 0);
    lemma_digits_run(digits, rest, 0);
    assert(s.subrange(0, digits.len() as int) =~= digits);
    assert(tail(s, digits.len()) =~= rest);
    lemma_tokens_head(s);
}

/// Whether a text holds no double quote.
pub open spec fn no_quote(s: Seq<char>) -> bool {
    forall|i: int| 0 <= i < s.len() ==> #[trigger] s[i] != '"'
}

/// Behind an opening quote and a text without quotes, the next quote is the
/// one that stands behind that text.
pub proof fn lemma_quote_run(content: Seq<char>, rest: Seq<char>, from: nat)
    requires
        no_quote(content),
        from <= content.len(),
    ensures
        quote_position(seq!['"'] + (content + (seq!['"'] + rest)), from + 1) == content.len() + 1,
    decreases content.len() - from,
{
    let s = seq!['"'] + (content + (seq!['"'] + rest));
    if from < content.len() {
        assert(s[(from + 1) as int] == content[from as int]);
        lemma_quote_run(content, rest, from + 1);
    } else {
        assert(s[(from + 1) as int] == '"');
    }
}

/// A text without quotes between two double quotes is read as one string
/// token that holds the text, whatever follows it.
pub proof fn lemma_lex_string(content: Seq<char>, rest: Seq<char>)
    requires
        no_quote(content),
    ensures
        tokens_from(seq!['"'] + (content + (seq!['"'] + rest)), 0) == seq![
            TokenView::with_text(TokenType::String, content),
        ] + tokens_from(rest, 0),
{
    let s = seq!['"'] + (content + (seq!['"'] + rest));
    assert(s[0] == '"');
    assert(spaces_end(s, 0) == 0);
    lemma_quote_run(content, rest, 0);
    assert(s.subrange(1, (content.len() + 1) as int) =~= content);
    assert(tail(s, content.len() + 2) =~= rest);
    lemma_tokens_head(s);
}

} // verus!
