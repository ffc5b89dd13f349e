//! Splits an expression into tokens, one at each pull.
//!
//! What a tokenizer will hand out is stated ahead of time: [`lexemes`] gives,
//! for the characters of an expression and a position in them, the sequence of
//! everything that successive pulls meet from there on.

use crate::decimal::{is_digit, is_literal, literal_value, Decimal};
use crate::token::Token;
use vstd::prelude::*;

verus! {

/// Whether `c` is white space: a character with the Unicode property `White_Space`.
pub open spec fn is_whitespace(c: char) -> bool {
    ||| '\u{9}' <= c <= '\u{d}'
    ||| c == ' '
    ||| c == '\u{85}'
    ||| c == '\u{a0}'
    ||| c == '\u{1680}'
    ||| '\u{2000}' <= c <= '\u{200a}'
    ||| c == '\u{2028}'
    ||| c == '\u{2029}'
    ||| c == '\u{202f}'
    ||| c == '\u{205f}'
    ||| c == '\u{3000}'
}

/// The token that a single character stands for, if it is an operator or a parenthesis.
pub open spec fn symbol(c: char) -> Option<Token> {
    if c == '+' {
        Some(Token::Add)
    } else if c == '-' {
        Some(Token::Sub)
    } else if c == '*' {
        Some(Token::Multiply)
    } else if c == '/' {
        Some(Token::Divide)
    } else if c == '^' {
        Some(Token::Caret)
    } else if c == '(' {
        Some(Token::LeftParen)
    } else if c == ')' {
        Some(Token::RightParen)
    } else {
        None
    }
}

/// What one pull meets in the expression.
pub enum Lexeme {
    /// A token.
    Token(Token),
    /// A character that starts no token.
    Unexpected(char),
    /// A literal whose number does not fit a decimal.
    TooLarge,
}

/// The first position from `pos` on that holds no white space.
pub open spec fn skip_whitespace(s: Seq<char>, pos: int) -> int
    decreases s.len() - pos,
{
    if 0 <= pos < s.len() && is_whitespace(s[pos]) {
        skip_whitespace(s, pos + 1)
    } else {
        pos
    }
}

/// Where the literal ends that runs through `pos`: it goes on over digits, and
/// over one decimal point unless it has `seen_point` already.
pub open spec fn literal_end(s: Seq<char>, pos: int, seen_point: bool) -> int
    decreases s.len() - pos,
{
    if 0 <= pos < s.len() && (is_digit(s[pos]) || (s[pos] == '.' && !seen_point)) {
        literal_end(s, pos + 1, seen_point || s[pos] == '.')
    } else {
        pos
    }
}

/// The lexeme that starts at `start`, and the position behind it.
pub open spec fn lexeme_at(s: Seq<char>, start: int) -> (Lexeme, int)
    recommends
        0 <= start < s.len(),
{
    let c = s[start];
    if is_digit(c) {
        let end = literal_end(s, start + 1, false);
        match literal_value(s.subrange(start, end)) {
            Some(d) => (Lexeme::Token(Token::Number(d)), end),
            None => (Lexeme::TooLarge, end),
        }
    } else {
        match symbol(c) {
            Some(t) => (Lexeme::Token(t), start + 1),
            None => (Lexeme::Unexpected(c), start + 1),
        }
    }
}

/// Everything that successive pulls meet from `pos` on: white space is passed
/// over, and the end of the expression is the token `EOF`, which comes last.
pub open spec fn lexemes(s: Seq<char>, pos: int) -> Seq<Lexeme>
    decreases s.len() - pos,
{
    let start = skip_whitespace(s, pos);
    if pos < 0 || start >= s.len() {
        seq![Lexeme::Token(Token::EOF)]
    } else {
        let (first, next) = lexeme_at(s, start);
        proof {
            lemma_skip_whitespace(s, pos);
            lemma_literal_end(s, start + 1, false);
        }
        seq![first] + lexemes(s, next)
    }
}

/// `skip_whitespace` moves forward, stays inside the expression, passes over
/// white space only and stops at the first other character.
pub proof fn lemma_skip_whitespace(s: Seq<char>, pos: int)
    requires
        0 <= pos <= s.len(),
    ensures
        pos <= skip_whitespace(s, pos) <= s.len(),
        forall|i: int| pos <= i < skip_whitespace(s, pos) ==> is_whitespace(#[trigger] s[i]),
        skip_whitespace(s, pos) < s.len() ==> !is_whitespace(s[skip_whitespace(s, pos)]),
    decreases s.len() - pos,
{
    if pos < s.len() && is_whitespace(s[pos]) {
        lemma_skip_whitespace(s, pos + 1);
    }
}

/// `literal_end` moves forward and stays inside the expression.
pub proof fn lemma_literal_end(s: Seq<char>, pos: int, seen_point: bool)
    requires
        0 <= pos <= s.len(),
    ensures
        pos <= literal_end(s, pos, seen_point) <= s.len(),
    decreases s.len() - pos,
{
    if pos < s.len() && (is_digit(s[pos]) || (s[pos] == '.' && !seen_point)) {
        lemma_literal_end(s, pos + 1, seen_point || s[pos] == '.');
    }
}

/// Whether `c` can stand nowhere in an expression: it is no digit, no white
/// space and no symbol.  The decimal point is such a character: it has a
/// place only inside a literal.
pub open spec fn starts_no_token(c: char) -> bool {
    !is_digit(c) && !is_whitespace(c) && symbol(c) is None
}

/// `EOF` is handed out once, and last.
pub proof fn lemma_lexemes_end(s: Seq<char>, pos: int)
    requires
        0 <= pos <= s.len(),
    ensures
        lexemes(s, pos).len() > 0,
        lexemes(s, pos).last() == Lexeme::Token(Token::EOF),
        forall|i: int|
            0 <= i < lexemes(s, pos).len() - 1 ==> #[trigger] lexemes(s, pos)[i] != Lexeme::Token(
                Token::EOF,
            ),
    decreases s.len() - pos,
{
    lemma_skip_whitespace(s, pos);
    let start = skip_whitespace(s, pos);
    if start < s.len() {
        lemma_literal_end(s, start + 1, false);
        let (first, next) = lexeme_at(s, start);
        lemma_lexemes_end(s, next);
        let rest = lexemes(s, next);
        assert(lexemes(s, pos) == seq![first] + rest);
        assert(first != Lexeme::Token(Token::EOF));
        assert forall|i: int| 0 <= i < lexemes(s, pos).len() - 1 implies #[trigger] lexemes(
            s,
            pos,
        )[i] != Lexeme::Token(Token::EOF) by {
            if i > 0 {
                assert(lexemes(s, pos)[i] == rest[i - 1]);
            }
        }
    }
}

/// Every unexpected character that the pulls meet is a character of the
/// expression that starts no token.
pub proof fn lemma_lexemes_unexpected(s: Seq<char>, pos: int)
    requires
        0 <= pos <= s.len(),
    ensures
        forall|i: int|
            0 <= i < lexemes(s, pos).len() ==> (#[trigger] lexemes(s, pos)[i] matches Lexeme::Unexpected(
                c,
            ) ==> s.contains(c) && starts_no_token(c)),
    decreases s.len() - pos,
{
    lemma_skip_whitespace(s, pos);
    let start = skip_whitespace(s, pos);
    if start < s.len() {
        lemma_literal_end(s, start + 1, false);
        let (first, next) = lexeme_at(s, start);
        lemma_lexemes_unexpected(s, next);
        let rest = lexemes(s, next);
        assert(lexemes(s, pos) == seq![first] + rest);
        assert forall|i: int| 0 <= i < lexemes(s, pos).len() implies (#[trigger] lexemes(
            s,
            pos,
        )[i] matches Lexeme::Unexpected(c) ==> s.contains(c) && starts_no_token(c)) by {
            if i > 0 {
                assert(lexemes(s, pos)[i] == rest[i - 1]);
            } else {
                assert(lexemes(s, pos)[0] == first);
                assert(s.contains(s[start]));
            }
        }
    }
}

/// White space is passed over: from any two positions with nothing but white
/// space between them, the same position is reached.
pub proof fn lemma_skip_whitespace_over(s: Seq<char>, from: int, to: int)
    requires
        0 <= from <= to <= s.len(),
        forall|i: int| from <= i < to ==> is_whitespace(#[trigger] s[i]),
    ensures
        skip_whitespace(s, from) == skip_whitespace(s, to),
    decreases to - from,
{
    if from < to {
        lemma_skip_whitespace_over(s, from + 1, to);
    }
}

/// A literal is taken as a whole: where `s` starts with a literal of `n`
/// characters and does not go on with a digit or a point, the literal ends at `n`.
pub proof fn lemma_literal_end_behind(s: Seq<char>, n: int, pos: int, seen_point: bool)
    requires
        1 <= pos <= n <= s.len(),
        is_literal(s.subrange(0, n)),
        n < s.len() ==> !is_digit(s[n]) && s[n] != '.',
        seen_point <==> exists|k: int| 0 <= k < pos && s[k] == '.',
    ensures
        literal_end(s, pos, seen_point) == n,
    decreases n - pos,
{
    if pos < n {
        let text = s.subrange(0, n);
        assert(text[pos] == s[pos]);
        if s[pos] == '.' && seen_point {
            let k = choose|k: int| 0 <= k < pos && s[k] == '.';
            assert(text[k] == '.');
            assert(false);
        }
        let seen = seen_point || s[pos] == '.';
        if seen_point {
            let k = choose|k: int| 0 <= k < pos && s[k] == '.';
            assert(0 <= k < pos + 1 && s[k] == '.');
        }
        if s[pos] == '.' {
            assert(0 <= pos < pos + 1 && s[pos] == '.');
        }
        lemma_literal_end_behind(s, n, pos + 1, seen);
    }
}

/// What stands before a position does not matter to `skip_whitespace`.
pub proof fn lemma_skip_whitespace_shift(before: Seq<char>, s: Seq<char>, pos: int)
    requires
        0 <= pos <= s.len(),
    ensures
        skip_whitespace(before + s, before.len() + pos) == before.len() + skip_whitespace(s, pos),
    decreases s.len() - pos,
{
    if pos < s.len() {
        assert((before + s)[before.len() + pos] == s[pos]);
        if is_whitespace(s[pos]) {
            lemma_skip_whitespace_shift(before, s, pos + 1);
        }
    }
}

/// What stands before a position does not matter to `literal_end`.
pub proof fn lemma_literal_end_shift(before: Seq<char>, s: Seq<char>, pos: int, seen_point: bool)
    requires
        0 <= pos <= s.len(),
    ensures
        literal_end(before + s, before.len() + pos, seen_point) == before.len() + literal_end(
            s,
            pos,
            seen_point,
        ),
    decreases s.len() - pos,
{
    if pos < s.len() {
        assert((before + s)[before.len() + pos] == s[pos]);
        if is_digit(s[pos]) || (s[pos] == '.' && !seen_point) {
            lemma_literal_end_shift(before, s, pos + 1, seen_point || s[pos] == '.');
        }
    }
}

/// What stands before a position does not matter to the lexemes from there on.
pub proof fn lemma_lexemes_shift(before: Seq<char>, s: Seq<char>, pos: int)
    requires
        0 <= pos <= s.len(),
    ensures
        lexemes(before + s, before.len() + pos) == lexemes(s, pos),
    decreases s.len() - pos,
{
    let whole = before + s;
    let offset = before.len() as int;
    lemma_skip_whitespace(s, pos);
    lemma_skip_whitespace_shift(before, s, pos);
    let start = skip_whitespace(s, pos);
    if start < s.len() {
        lemma_literal_end(s, start + 1, false);
        lemma_literal_end_shift(before, s, start + 1, false);
        assert(whole[offset + start] == s[start]);
        let end = literal_end(s, start + 1, false);
        assert(whole.subrange(offset + start, offset + end) =~= s.subrange(start, end));
        let (first, next) = lexeme_at(s, start);
        assert(lexeme_at(whole, offset + start) == (first, offset + next));
        lemma_lexemes_shift(before, s, next);
    }
}

/// White space before an expression changes nothing of what the pulls meet.
pub proof fn lemma_leading_whitespace(blank: Seq<char>, s: Seq<char>)
    requires
        forall|i: int| 0 <= i < blank.len() ==> is_whitespace(#[trigger] blank[i]),
    ensures
        lexemes(blank + s, 0) == lexemes(s, 0),
{
    let whole = blank + s;
    assert forall|i: int| 0 <= i < blank.len() implies is_whitespace(#[trigger] whole[i]) by {
        assert(whole[i] == blank[i]);
    }
    lemma_skip_whitespace_over(whole, 0, blank.len() as int);
    lemma_lexemes_shift(blank, s, 0);
}

/// A tokenizer as contracts see it.
pub struct TokenizerState {
    /// What the pulls to come will meet, in order; empty once `EOF` was handed out.
    pub pending: Seq<Lexeme>,
    /// The last character met that starts no token.
    pub unexpected_char: Option<char>,
    /// Whether a literal was met whose number does not fit a decimal.
    pub too_large: bool,
}

impl TokenizerState {
    /// Whether every unexpected character recorded or still to be met is a
    /// character of `s` that starts no token.
    pub open spec fn drawn_from(self, s: Seq<char>) -> bool {
        &&& self.unexpected_char matches Some(c) ==> s.contains(c) && starts_no_token(c)
        &&& forall|i: int|
            0 <= i < self.pending.len() ==> (#[trigger] self.pending[i] matches Lexeme::Unexpected(
                c,
            ) ==> s.contains(c) && starts_no_token(c))
    }

    /// The state of a new tokenizer on the expression `s`.
    pub open spec fn start(s: Seq<char>) -> TokenizerState {
        TokenizerState { pending: lexemes(s, 0), unexpected_char: None, too_large: false }
    }

    /// One pull: what it returns, and the state it leaves.
    ///
    /// A token is handed out.  An unexpected character or a literal that is too
    /// large is recorded, and the pull returns nothing.  With nothing pending the
    /// pull returns nothing and changes nothing.
    pub open spec fn step(self) -> (Option<Token>, TokenizerState) {
        if self.pending.len() == 0 {
            (None, self)
        } else {
            let rest = self.pending.drop_first();
            match self.pending[0] {
                Lexeme::Token(t) => (Some(t), TokenizerState { pending: rest, ..self }),
                Lexeme::Unexpected(c) => (
                    None,
                    TokenizerState { pending: rest, unexpected_char: Some(c), ..self },
                ),
                Lexeme::TooLarge => (None, TokenizerState { pending: rest, too_large: true, ..self }),
            }
        }
    }
}

/// The tokens at the head of `pending`, up to the first lexeme that is none.
pub open spec fn leading_tokens(pending: Seq<Lexeme>) -> Seq<Token>
    decreases pending.len(),
{
    if pending.len() == 0 {
        Seq::empty()
    } else {
        match pending[0] {
            Lexeme::Token(t) => seq![t] + leading_tokens(pending.drop_first()),
            _ => Seq::empty(),
        }
    }
}

/// The token that a single character stands for, if it is an operator or a parenthesis.
pub fn symbol_of(c: char) -> (r: Option<Token>)
    ensures
        r == symbol(c),
{
    if c == '+' {
        Some(Token::Add)
    } else if c == '-' {
        Some(Token::Sub)
    } else if c == '*' {
        Some(Token::Multiply)
    } else if c == '/' {
        Some(Token::Divide)
    } else if c == '^' {
        Some(Token::Caret)
    } else if c == '(' {
        Some(Token::LeftParen)
    } else if c == ')' {
        Some(Token::RightParen)
    } else {
        None
    }
}

/// Whether `c` is white space.
pub fn is_space(c: char) -> (r: bool)
    ensures
        r == is_whitespace(c),
{
    ('\u{9}' <= c && c <= '\u{d}') || c == ' ' || c == '\u{85}' || c == '\u{a0}' || c == '\u{1680}'
        || ('\u{2000}' <= c && c <= '\u{200a}') || c == '\u{2028}' || c == '\u{2029}' || c
        == '\u{202f}' || c == '\u{205f}' || c == '\u{3000}'
}

/// Whether `c` is one of the digits `0` to `9`.
pub fn is_decimal_digit(c: char) -> (r: bool)
    ensures
        r == is_digit(c),
{
    '0' <= c && c <= '9'
}

/// Hands out the tokens of an expression one by one.
pub struct Tokenizer {
    source: Vec<char>,
    position: usize,
    reached_end: bool,
    unexpected_char: Option<char>,
    too_large: bool,
}

impl View for Tokenizer {
    type V = TokenizerState;

    closed spec fn view(&self) -> TokenizerState {
        TokenizerState {
            pending: if self.reached_end {
                Seq::empty()
            } else {
                lexemes(self.source@, self.position as int)
            },
            unexpected_char: self.unexpected_char,
            too_large: self.too_large,
        }
    }
}

impl Tokenizer {
    #[verifier::type_invariant]
    spec fn inv(self) -> bool {
        self.position <= self.source.len()
    }

    /// A tokenizer at the start of `expression`.
    pub fn new(expression: &str) -> (r: Tokenizer)
        ensures
            r@ == TokenizerState::start(expression@),
    {
        let mut source: Vec<char> = Vec::new();
        for c in it: expression.chars()
            invariant
                it.seq() == expression@,
                source@ == expression@.take(it.index()),
        {
            source.push(c);
        }
        assert(source@ == expression@);
        Tokenizer { source, position: 0, reached_end: false, unexpected_char: None, too_large: false }
    }

    /// The last character met that starts no token, if there was one.
    pub fn get_unexpected_char(&self) -> (r: Option<char>)
        ensures
            r == self@.unexpected_char,
    {
        self.unexpected_char
    }

    /// Whether a literal was met whose number does not fit a decimal.
    pub fn met_too_large(&self) -> (r: bool)
        ensures
            r == self@.too_large,
    {
        self.too_large
    }

    /// Pulls the next token.
    ///
    /// Returns nothing at a character that starts no token and at a literal
    /// that is too large, which are recorded, and once `EOF` has been handed out.
    pub fn next(&mut self) -> (r: Option<Token>)
        ensures
            r == old(self)@.step().0,
            final(self)@ == old(self)@.step().1,
            r matches Some(t) ==> t.wf(),
    {
        proof {
            use_type_invariant(&*self);
        }
        if self.reached_end {
            return None;
        }
        let ghost s = self.source@;
        let ghost from = self.position as int;
        let len = self.source.len();
        let mut i = self.position;
        while i < len && is_space(self.source[i])
            invariant
                from <= i <= len,
                len == s.len(),
                s == self.source@,
                from == self.position,
                skip_whitespace(s, from) == skip_whitespace(s, i as int),
            decreases len - i,
        {
            i += 1;
        }
        assert(skip_whitespace(s, from) == i);
        if i >= len {
            self.position = i;
            self.reached_end = true;
            assert(seq![Lexeme::Token(Token::EOF)].drop_first() =~= Seq::<Lexeme>::empty());
            return Some(Token::EOF);
        }
        let c = self.source[i];
        let ghost (first, behind) = lexeme_at(s, i as int);
        assert(lexemes(s, from) == seq![first] + lexemes(s, behind));
        assert((seq![first] + lexemes(s, behind)).drop_first() =~= lexemes(s, behind));
        if is_decimal_digit(c) {
            let mut text: Vec<char> = Vec::new();
            text.push(c);
            let mut j = i + 1;
            let mut seen_point = false;
            while j < len && (is_decimal_digit(self.source[j]) || (self.source[j] == '.'
                && !seen_point))
                invariant
                    i < j <= len,
                    len == s.len(),
                    s == self.source@,
                    text@ == s.subrange(i as int, j as int),
                    literal_end(s, i + 1, false) == literal_end(s, j as int, seen_point),
                    is_literal(text@),
                    !seen_point ==> forall|k: int| 0 <= k < text@.len() ==> text@[k] != '.',
                decreases len - j,
            {
                let d = self.source[j];
                if d == '.' {
                    seen_point = true;
                }
                text.push(d);
                j += 1;
                assert(text@ =~= s.subrange(i as int, j as int));
            }
            assert(literal_end(s, i + 1, false) == j);
            self.position = j;
            match Decimal::from_literal(&text) {
                Some(d) => Some(Token::Number(d)),
                None => {
                    self.too_large = true;
                    None
                },
            }
        } else {
            self.position = i + 1;
            match symbol_of(c) {
                Some(t) => Some(t),
                None => {
                    self.unexpected_char = Some(c);
                    None
                },
            }
        }
    }

    /// Pulls until a pull returns nothing, and gives the tokens in order.
    pub fn collect(self) -> (r: Vec<Token>)
        ensures
            r@ == leading_tokens(self@.pending),
            forall|i: int| 0 <= i < r@.len() ==> (#[trigger] r@[i]).wf(),
    {
        let mut tokenizer = self;
        let mut tokens: Vec<Token> = Vec::new();
        loop
            invariant_except_break
                tokens@ + leading_tokens(tokenizer@.pending) == leading_tokens(self@.pending),
            invariant
                forall|i: int| 0 <= i < tokens@.len() ==> (#[trigger] tokens@[i]).wf(),
            ensures
                tokens@ == leading_tokens(self@.pending),
            decreases tokenizer@.pending.len(),
        {
            let ghost before = tokenizer@.pending;
            match tokenizer.next() {
                Some(t) => {
                    tokens.push(t);
                    assert(tokens@ + leading_tokens(tokenizer@.pending) =~= tokens@.drop_last()
                        + leading_tokens(before));
                },
                None => {
                    assert(leading_tokens(before) =~= Seq::<Token>::empty());
                    assert(tokens@ + Seq::<Token>::empty() =~= tokens@);
                    break ;
                },
            }
        }
        tokens
    }
}

} // verus!
