use crate::token::keyword;
use crate::token::token_from_word;
use crate::token::Token;
use crate::token::TokenType;
use crate::token::TokenView;
use vstd::prelude::*;
use vstd::std_specs::iter::IteratorSpec;
use vstd::string::*;

verus! {

/// Whether a character may stand in an identifier.
pub open spec fn letter(ch: char) -> bool {
    ('a' <= ch && ch <= 'z') || ('A' <= ch && ch <= 'Z') || ch == '_'
}

/// Whether a character is a decimal digit.
pub open spec fn digit(ch: char) -> bool {
    '0' <= ch && ch <= '9'
}

/// Whether a character is white space between tokens.
pub open spec fn space(ch: char) -> bool {
    ch == ' ' || ch == '\t' || ch == '\n' || ch == '\r'
}

/// The first position at or behind `from` that holds no white space.
pub open spec fn spaces_end(s: Seq<char>, from: nat) -> nat
    decreases s.len() - from,
{
    if from < s.len() && space(s[from as int]) {
        spaces_end(s, from + 1)
    } else {
        from
    }
}

/// The first position at or behind `from` that holds no letter.
pub open spec fn letters_end(s: Seq<char>, from: nat) -> nat
    decreases s.len() - from,
{
    if from < s.len() && letter(s[from as int]) {
        letters_end(s, from + 1)
    } else {
        from
    }
}

/// The first position at or behind `from` that holds no digit.
pub open spec fn digits_end(s: Seq<char>, from: nat) -> nat
    decreases s.len() - from,
{
    if from < s.len() && digit(s[from as int]) {
        digits_end(s, from + 1)
    } else {
        from
    }
}

/// The first position at or behind `from` that holds a double quote, or the
/// length of the text where there is none.
pub open spec fn quote_position(s: Seq<char>, from: nat) -> nat
    decreases s.len() - from,
{
    if from < s.len() && s[from as int] != '"' {
        quote_position(s, from + 1)
    } else {
        from
    }
}

/// The token for a character that is a token by itself, if it is one.
pub open spec fn punctuation(ch: char) -> Option<TokenType> {
    if ch == ';' {
        Some(TokenType::Semicolon)
    } else if ch == '(' {
        Some(TokenType::LParen)
    } else if ch == ')' {
        Some(TokenType::RParen)
    } else if ch == ',' {
        Some(TokenType::Comma)
    } else if ch == '+' {
        Some(TokenType::Plus)
    } else if ch == '-' {
        Some(TokenType::Minus)
    } else if ch == '/' {
        Some(TokenType::Slash)
    } else if ch == '<' {
        Some(TokenType::Lt)
    } else if ch == '>' {
        Some(TokenType::Gt)
    } else if ch == '*' {
        Some(TokenType::Asterisk)
    } else if ch == '{' {
        Some(TokenType::LBrace)
    } else if ch == '}' {
        Some(TokenType::RBrace)
    } else {
        None
    }
}

/// The token that starts at position `at`, which holds no white space, and
/// the position behind it. At the end of the text the token is `Eof`. `=`
/// and `!` form `==` and `!=` with a `=` behind them. A double quote starts a
/// string that ends before the next double quote; where there is none, the
/// quote alone is an illegal token. A letter starts the longest run of
/// letters, which is a keyword or an identifier; a digit starts the longest
/// run of digits. Any other character is an illegal token by itself.
pub open spec fn token_at(s: Seq<char>, at: nat) -> (TokenView, nat) {
    if at >= s.len() {
        (TokenView::plain(TokenType::Eof), at)
    } else {
        let ch = s[at as int];
        if ch == '=' {
            if at + 1 < s.len() && s[(at + 1) as int] == '=' {
                (TokenView::plain(TokenType::Eq), at + 2)
            } else {
                (TokenView::plain(TokenType::Assign), at + 1)
            }
        } else if ch == '!' {
            if at + 1 < s.len() && s[(at + 1) as int] == '=' {
                (TokenView::plain(TokenType::NotEq), at + 2)
            } else {
                (TokenView::plain(TokenType::Bang), at + 1)
            }
        } else if punctuation(ch) is Some {
            (TokenView::plain(punctuation(ch)->0), at + 1)
        } else if ch == '"' {
            let close = quote_position(s, at + 1);
            if close < s.len() {
                (
                    TokenView::with_text(TokenType::String, s.subrange((at + 1) as int, close as int)),
                    close + 1,
                )
            } else {
                (TokenView::with_text(TokenType::Illegal, s.subrange(at as int, (at + 1) as int)), at + 1)
            }
        } else if letter(ch) {
            let end = letters_end(s, at);
            let word = s.subrange(at as int, end as int);
            match keyword(word) {
                Some(kind) => (TokenView::plain(kind), end),
                None => (TokenView::with_text(TokenType::Ident, word), end),
            }
        } else if digit(ch) {
            let end = digits_end(s, at);
            (TokenView::with_text(TokenType::Int, s.subrange(at as int, end as int)), end)
        } else {
            (TokenView::with_text(TokenType::Illegal, s.subrange(at as int, (at + 1) as int)), at + 1)
        }
    }
}

/// The next token from position `from` on, white space skipped, and the
/// position behind it.
pub open spec fn next_token_spec(s: Seq<char>, from: nat) -> (TokenView, nat) {
    token_at(s, spaces_end(s, from))
}

/// The tokens of the text from position `from` on, up to its end; the `Eof`
/// that follows them is left out.
pub open spec fn tokens_from(s: Seq<char>, from: nat) -> Seq<TokenView>
    decreases s.len() - from,
{
    let (token, next) = next_token_spec(s, from);
    if token.kind == TokenType::Eof || next <= from || next > s.len() {
        Seq::empty()
    } else {
        seq![token] + tokens_from(s, next)
    }
}

/// A run of white space ends behind its start and within the text.
pub proof fn lemma_spaces_end(s: Seq<char>, from: nat)
    requires
        from <= s.len(),
    ensures
        from <= spaces_end(s, from) <= s.len(),
        spaces_end(s, from) < s.len() ==> !space(s[spaces_end(s, from) as int]),
        spaces_end(s, spaces_end(s, from)) == spaces_end(s, from),
    decreases s.len() - from,
{
    if from < s.len() && space(s[from as int]) {
        lemma_spaces_end(s, from + 1);
    }
}

/// A run of letters ends behind its start and within the text.
pub proof fn lemma_letters_end(s: Seq<char>, from: nat)
    requires
        from <= s.len(),
    ensures
        from <= letters_end(s, from) <= s.len(),
        from < s.len() && letter(s[from as int]) ==> from < letters_end(s, from),
    decreases s.len() - from,
{
    if from < s.len() && letter(s[from as int]) {
        lemma_letters_end(s, from + 1);
    }
}

/// A run of digits ends behind its start and within the text.
pub proof fn lemma_digits_end(s: Seq<char>, from: nat)
    requires
        from <= s.len(),
    ensures
        from <= digits_end(s, from) <= s.len(),
        from < s.len() && digit(s[from as int]) ==> from < digits_end(s, from),
    decreases s.len() - from,
{
    if from < s.len() && digit(s[from as int]) {
        lemma_digits_end(s, from + 1);
    }
}

/// The next double quote stands behind the start and within the text, or
/// there is none.
pub proof fn lemma_quote_position(s: Seq<char>, from: nat)
    requires
        from <= s.len(),
    ensures
        from <= quote_position(s, from) <= s.len(),
    decreases s.len() - from,
{
    if from < s.len() && s[from as int] != '"' {
        lemma_quote_position(s, from + 1);
    }
}

/// Every token but `Eof` takes at least one character, no token reaches
/// past the end of the text, and `Eof` stands at the end only.
pub proof fn lemma_next_token_advances(s: Seq<char>, from: nat)
    requires
        from <= s.len(),
    ensures
        from <= next_token_spec(s, from).1 <= s.len(),
        next_token_spec(s, from).0.kind != TokenType::Eof ==> from < next_token_spec(s, from).1,
        next_token_spec(s, from).0.kind == TokenType::Eof ==> next_token_spec(s, from).1
            == s.len() && next_token_spec(s, from).0 == TokenView::plain(TokenType::Eof),
{
    lemma_spaces_end(s, from);
    let at = spaces_end(s, from);
    if at < s.len() {
        lemma_letters_end(s, at);
        lemma_digits_end(s, at);
        lemma_quote_position(s, at + 1);
        let word = s.subrange(at as int, letters_end(s, at) as int);
        lemma_keyword_is_no_eof(word);
    }
}

/// The tokens from a position on are the next token and the tokens behind
/// it; behind `Eof` there are none.
pub proof fn lemma_tokens_unfold(s: Seq<char>, from: nat)
    requires
        from <= s.len(),
    ensures
        from <= next_token_spec(s, from).1 <= s.len(),
        next_token_spec(s, from).0.kind == TokenType::Eof ==> next_token_spec(s, from).0
            == TokenView::plain(TokenType::Eof) && next_token_spec(s, from).1 == s.len()
            && tokens_from(s, from) == Seq::<TokenView>::empty() && tokens_from(
            s,
            next_token_spec(s, from).1,
        ) == Seq::<TokenView>::empty(),
        next_token_spec(s, from).0.kind != TokenType::Eof ==> tokens_from(s, from) == seq![
            next_token_spec(s, from).0,
        ] + tokens_from(s, next_token_spec(s, from).1),
{
    lemma_next_token_advances(s, from);
    if next_token_spec(s, from).0.kind == TokenType::Eof {
        lemma_next_token_advances(s, s.len());
        lemma_spaces_end(s, from);
        lemma_spaces_end(s, s.len());
        assert(spaces_end(s, from) >= s.len());
    }
}

/// No keyword is the `Eof` token.
pub proof fn lemma_keyword_is_no_eof(word: Seq<char>)
    ensures
        keyword(word) != Some(TokenType::Eof),
{
}

/// A lexer: the text and a cursor into it.
pub struct Lexer {
    input: String,
    chars: Vec<char>,
    position: usize,
}

/// The content of a lexer: the characters of its text and the position of
/// the first that it has not read.
pub struct LexerView {
    pub input: Seq<char>,
    pub position: nat,
}

impl View for Lexer {
    type V = LexerView;

    closed spec fn view(&self) -> LexerView {
        LexerView { input: self.input@, position: self.position as nat }
    }
}

/// A lexer at the start of a text.
pub fn new(input: &str) -> (lexer: Lexer)
    ensures
        lexer.wf(),
        lexer@.input == input@,
        lexer@.position == 0,
{
    let mut chars: Vec<char> = Vec::new();
    let mut rest = input.chars();
    loop
        invariant
            rest.obeys_prophetic_iter_laws(),
            rest.decrease() is Some,
            chars@ + rest.remaining() == input@,
        ensures
            chars@ == input@,
        decreases rest.decrease()->0,
    {
        match rest.next() {
            Some(ch) => {
                chars.push(ch);
                assert(chars@ + rest.remaining() =~= input@);
            },
            None => {
                assert(chars@ =~= input@);
                break;
            },
        }
    }
    Lexer { input: String::from_str(input), chars, position: 0 }
}

/// Whether a character may stand in an identifier.
pub fn is_letter(ch: char) -> (yes: bool)
    ensures
        yes == letter(ch),
{
    ('a' <= ch && ch <= 'z') || ('A' <= ch && ch <= 'Z') || ch == '_'
}

/// Whether a character is a decimal digit.
pub fn is_digit(ch: char) -> (yes: bool)
    ensures
        yes == digit(ch),
{
    '0' <= ch && ch <= '9'
}

impl Lexer {
    /// What holds of every lexer: its cursor stands within the text or at
    /// its end.
    pub closed spec fn wf(&self) -> bool {
        &&& self.chars@ == self.input@
        &&& self.position <= self.chars.len()
    }

    /// In a well-formed lexer the cursor stands within the text or at its
    /// end.
    pub proof fn lemma_position_in_text(&self)
        requires
            self.wf(),
        ensures
            self@.position <= self@.input.len(),
    {
    }

    /// The tokens that the lexer has yet to return, without the final `Eof`.
    pub open spec fn remaining(&self) -> Seq<TokenView> {
        tokens_from(self@.input, self@.position)
    }

    /// Moves the cursor behind the white space that it stands on.
    pub fn skip_whitespace(&mut self)
        requires
            old(self).wf(),
        ensures
            final(self).wf(),
            final(self)@.input == old(self)@.input,
            final(self)@.position == spaces_end(old(self)@.input, old(self)@.position),
    {
        while self.position < self.chars.len() && (self.chars[self.position] == ' '
            || self.chars[self.position] == '\t' || self.chars[self.position] == '\n'
            || self.chars[self.position] == '\r')
            invariant
                self.wf(),
                self@.input == old(self)@.input,
                self.chars@ == old(self).chars@,
                spaces_end(self.chars@, self.position as nat) == spaces_end(
                    old(self).chars@,
                    old(self).position as nat,
                ),
            decreases self.chars.len() - self.position,
        {
            self.read_char();
        }
    }

    /// Returns the next token and moves the cursor behind it. At the end of
    /// the text it returns `Eof`, and does so on every later call.
    pub fn next_token(&mut self) -> (token: Token)
        requires
            old(self).wf(),
        ensures
            final(self).wf(),
            final(self)@.input == old(self)@.input,
            (token@, final(self)@.position) == next_token_spec(
                old(self)@.input,
                old(self)@.position,
            ),
    {
        self.skip_whitespace();
        if self.position >= self.chars.len() {
            return Token::Eof;
        }
        let ghost s = self.chars@;
        let ghost at = self.position as nat;
        let ch = self.chars[self.position];
        let token = if ch == '=' {
            if self.peek_is_assign() {
                self.read_char();
                Token::Eq
            } else {
                Token::Assign
            }
        } else if ch == '!' {
            if self.peek_is_assign() {
                self.read_char();
                Token::NotEq
            } else {
                Token::Bang
            }
        } else if ch == ';' {
            Token::Semicolon
        } else if ch == '(' {
            Token::LParen
        } else if ch == ')' {
            Token::RParen
        } else if ch == ',' {
            Token::Comma
        } else if ch == '+' {
            Token::Plus
        } else if ch == '-' {
            Token::Minus
        } else if ch == '/' {
            Token::Slash
        } else if ch == '<' {
            Token::Lt
        } else if ch == '>' {
            Token::Gt
        } else if ch == '*' {
            Token::Asterisk
        } else if ch == '{' {
            Token::LBrace
        } else if ch == '}' {
            Token::RBrace
        } else if ch == '"' {
            return self.read_string();
        } else if is_letter(ch) {
            let literal = self.read_identifier();
            return match token_from_word(literal.as_str()) {
                Some(token) => token,
                None => Token::Ident { literal },
            };
        } else if is_digit(ch) {
            let literal = self.read_number();
            return Token::Int { literal };
        } else {
            let literal = self.text_between(self.position, self.position + 1);
            self.read_char();
            return Token::Illegal { literal };
        };
        self.read_char();
        token
    }

    /// Whether the character behind the cursor is `=`.
    fn peek_is_assign(&self) -> (yes: bool)
        requires
            self.wf(),
        ensures
            yes == (self.position + 1 < self.chars.len() && self.chars[self.position + 1] == '='),
    {
        self.chars.len() - self.position > 1 && self.chars[self.position + 1] == '='
    }

    /// The text between two positions.
    fn text_between(&self, from: usize, to: usize) -> (text: String)
        requires
            self.wf(),
            from <= to <= self.chars.len(),
        ensures
            text@ == self.chars@.subrange(from as int, to as int),
    {
        String::from_str(self.input.as_str().substring_char(from, to))
    }

    /// Moves the cursor one character on, unless it stands at the end.
    pub fn read_char(&mut self)
        requires
            old(self).wf(),
        ensures
            final(self).wf(),
            final(self)@.input == old(self)@.input,
            final(self)@.position == if old(self)@.position < old(self)@.input.len() {
                old(self)@.position + 1
            } else {
                old(self)@.position
            },
    {
        if self.position < self.chars.len() {
            self.position = self.position + 1;
        }
    }

    /// Reads the run of letters at the cursor.
    pub fn read_identifier(&mut self) -> (word: String)
        requires
            old(self).wf(),
        ensures
            final(self).wf(),
            final(self)@.input == old(self)@.input,
            final(self)@.position == letters_end(old(self)@.input, old(self)@.position),
            word@ == old(self)@.input.subrange(
                old(self)@.position as int,
                final(self)@.position as int,
            ),
    {
        let start_pos = self.position;
        while self.position < self.chars.len() && is_letter(self.chars[self.position])
            invariant
                self.wf(),
                self@.input == old(self)@.input,
                self.chars@ == old(self).chars@,
                start_pos <= self.position,
                letters_end(self.chars@, self.position as nat) == letters_end(
                    old(self).chars@,
                    old(self).position as nat,
                ),
            decreases self.chars.len() - self.position,
        {
            self.read_char();
        }
        self.text_between(start_pos, self.position)
    }

    /// Reads the run of digits at the cursor.
    pub fn read_number(&mut self) -> (digits: String)
        requires
            old(self).wf(),
        ensures
            final(self).wf(),
            final(self)@.input == old(self)@.input,
            final(self)@.position == digits_end(old(self)@.input, old(self)@.position),
            digits@ == old(self)@.input.subrange(
                old(self)@.position as int,
                final(self)@.position as int,
            ),
    {
        let start_pos = self.position;
        while self.position < self.chars.len() && is_digit(self.chars[self.position])
            invariant
                self.wf(),
                self@.input == old(self)@.input,
                self.chars@ == old(self).chars@,
                start_pos <= self.position,
                digits_end(self.chars@, self.position as nat) == digits_end(
                    old(self).chars@,
                    old(self).position as nat,
                ),
            decreases self.chars.len() - self.position,
        {
            self.read_char();
        }
        self.text_between(start_pos, self.position)
    }

    /// Reads the string literal whose opening quote stands at the cursor.
    /// Where no closing quote follows, the opening quote alone is an illegal
    /// token.
    fn read_string(&mut self) -> (token: Token)
        requires
            old(self).wf(),
            old(self).position < old(self).chars.len(),
            old(self).chars[old(self).position as int] == '"',
        ensures
            final(self).wf(),
            final(self)@.input == old(self)@.input,
            (token@, final(self)@.position) == token_at(old(self)@.input, old(self)@.position),
    {
        let start_pos = self.position + 1;
        let mut close = start_pos;
        while close < self.chars.len() && self.chars[close] != '"'
            invariant
                self.wf(),
                self@.input == old(self)@.input,
                self.chars@ == old(self).chars@,
                self.position == old(self).position,
                start_pos <= close <= self.chars.len(),
                quote_position(self.chars@, close as nat) == quote_position(
                    self.chars@,
                    start_pos as nat,
                ),
            decreases self.chars.len() - close,
        {
            close = close + 1;
        }
        if close < self.chars.len() {
            let literal = self.text_between(start_pos, close);
            self.position = close + 1;
            Token::String { literal }
        } else {
            let literal = self.text_between(self.position, start_pos);
            self.position = start_pos;
            Token::Illegal { literal }
        }
    }

    /// The lexer reads a text in one way only: two lexers over the same text
    /// at the same position have the same tokens before them.
    pub proof fn lemma_deterministic(&self, other: &Lexer)
        requires
            self@ == other@,
        ensures
            next_token_spec(self@.input, self@.position) == next_token_spec(
                other@.input,
                other@.position,
            ),
            self.remaining() == other.remaining(),
    {
    }
}

} // verus!
