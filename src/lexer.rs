//! Turns SQL text into tokens, one at a time.
use crate::token::{Token, TokenV};
use vstd::prelude::*;

verus! {

/// Why the lexer could not produce a token.
#[derive(Debug, Clone, Copy, PartialEq, Eq, Structural)]
pub enum LexError {
    /// A numeric literal that is no `i64` and no decimal with one point.
    InvalidNumber,
}

/// What one step of the lexer gives from a position: a token and the
/// position after it, the end of the tokens at a position, or a bad number.
pub enum Lexed {
    Tok(TokenV, int),
    End(int),
    Bad,
}

/// Characters with Unicode's White_Space property.
pub open spec fn is_white_space(c: char) -> bool {
    let u = c as u32;
    (9 <= u <= 13) || u == 0x20 || u == 0x85 || u == 0xa0 || u == 0x1680 || (0x2000 <= u
        <= 0x200a) || u == 0x2028 || u == 0x2029 || u == 0x202f || u == 0x205f || u == 0x3000
}

pub open spec fn is_digit(c: char) -> bool {
    '0' <= c <= '9'
}

pub open spec fn is_alpha(c: char) -> bool {
    ('a' <= c <= 'z') || ('A' <= c <= 'Z')
}

pub open spec fn is_ident_char(c: char) -> bool {
    is_alpha(c) || is_digit(c) || c == '_'
}

pub open spec fn is_number_char(c: char) -> bool {
    is_digit(c) || c == '.'
}

/// The character at `p`, if any.
pub open spec fn char_at(s: Seq<char>, p: int) -> Option<char> {
    if 0 <= p < s.len() {
        Some(s[p])
    } else {
        None
    }
}

/// First position from `p` on that holds no white space.
pub open spec fn scan_ws(s: Seq<char>, p: int) -> int
    decreases s.len() - p,
{
    if 0 <= p < s.len() && is_white_space(s[p]) {
        scan_ws(s, p + 1)
    } else {
        p
    }
}

/// First position from `p` on that holds no digit and no point.
pub open spec fn scan_number(s: Seq<char>, p: int) -> int
    decreases s.len() - p,
{
    if 0 <= p < s.len() && is_number_char(s[p]) {
        scan_number(s, p + 1)
    } else {
        p
    }
}

/// First position from `p` on that holds no identifier character.
pub open spec fn scan_ident(s: Seq<char>, p: int) -> int
    decreases s.len() - p,
{
    if 0 <= p < s.len() && is_ident_char(s[p]) {
        scan_ident(s, p + 1)
    } else {
        p
    }
}

/// First position from `p` on that holds a quote, or the end.
pub open spec fn scan_string(s: Seq<char>, p: int) -> int
    decreases s.len() - p,
{
    if 0 <= p < s.len() && s[p] != '\'' {
        scan_string(s, p + 1)
    } else {
        p
    }
}

/// Number of points in `t`.
pub open spec fn count_dots(t: Seq<char>) -> nat
    decreases t.len(),
{
    if t.len() == 0 {
        0
    } else {
        count_dots(t.drop_last()) + if t.last() == '.' {
            1nat
        } else {
            0nat
        }
    }
}

/// The value of the decimal digits `t`.
pub open spec fn decimal_value(t: Seq<char>) -> int
    decreases t.len(),
{
    if t.len() == 0 {
        0
    } else {
        decimal_value(t.drop_last()) * 10 + (t.last() as u32 - '0' as u32)
    }
}

/// `c` equals the upper-case letter or symbol `k`, ignoring ASCII case.
pub open spec fn same_ci(c: char, k: char) -> bool {
    c == k || ('A' <= k <= 'Z' && c as u32 == k as u32 + 32)
}

/// `w` spells `k`, ignoring ASCII case.
pub open spec fn word_is(w: Seq<char>, k: Seq<char>) -> bool {
    w.len() == k.len() && forall|i: int| 0 <= i < w.len() ==> same_ci(w[i], k[i])
}

/// The keyword that the word `w` spells, ignoring case.
pub open spec fn keyword_of(w: Seq<char>) -> Option<Token> {
    if word_is(w, seq!['S', 'E', 'L', 'E', 'C', 'T']) {
        Some(Token::Select)
    } else if word_is(w, seq!['F', 'R', 'O', 'M']) {
        Some(Token::From)
    } else if word_is(w, seq!['W', 'H', 'E', 'R', 'E']) {
        Some(Token::Where)
    } else if word_is(w, seq!['O', 'R', 'D', 'E', 'R']) {
        Some(Token::Order)
    } else if word_is(w, seq!['B', 'Y']) {
        Some(Token::By)
    } else if word_is(w, seq!['L', 'I', 'M', 'I', 'T']) {
        Some(Token::Limit)
    } else if word_is(w, seq!['A', 'S', 'C']) {
        Some(Token::Asc)
    } else if word_is(w, seq!['D', 'E', 'S', 'C']) {
        Some(Token::Desc)
    } else if word_is(w, seq!['J', 'O', 'I', 'N']) {
        Some(Token::Join)
    } else if word_is(w, seq!['I', 'N', 'N', 'E', 'R']) {
        Some(Token::Inner)
    } else if word_is(w, seq!['L', 'E', 'F', 'T']) {
        Some(Token::Left)
    } else if word_is(w, seq!['R', 'I', 'G', 'H', 'T']) {
        Some(Token::Right)
    } else if word_is(w, seq!['O', 'N']) {
        Some(Token::On)
    } else if word_is(w, seq!['A', 'N', 'D']) {
        Some(Token::And)
    } else if word_is(w, seq!['O', 'R']) {
        Some(Token::Or)
    } else if word_is(w, seq!['C', 'O', 'U', 'N', 'T']) {
        Some(Token::Count)
    } else if word_is(w, seq!['S', 'U', 'M']) {
        Some(Token::Sum)
    } else if word_is(w, seq!['A', 'V', 'G']) {
        Some(Token::Avg)
    } else if word_is(w, seq!['M', 'I', 'N']) {
        Some(Token::Min)
    } else if word_is(w, seq!['M', 'A', 'X']) {
        Some(Token::Max)
    } else {
        None
    }
}

/// The token that the word `w` makes: a keyword, else an identifier.
pub open spec fn word_token(w: Seq<char>) -> TokenV {
    match keyword_of(w) {
        Some(k) => TokenV::Sym(k),
        None => TokenV::Ident(w),
    }
}

/// The token that the digits and points `t` make.
pub open spec fn number_token(t: Seq<char>) -> Option<TokenV> {
    if count_dots(t) == 0 {
        if decimal_value(t) <= i64::MAX {
            Some(TokenV::Int(decimal_value(t) as i64))
        } else {
            None
        }
    } else if count_dots(t) == 1 {
        Some(TokenV::Float(t))
    } else {
        None
    }
}

/// One step of the lexer on `s` from position `p0`: white space is skipped,
/// then one token is read. A character that starts no token ends the tokens.
pub open spec fn lex_at(s: Seq<char>, p0: int) -> Lexed {
    let p = scan_ws(s, p0);
    if p < 0 || p >= s.len() {
        Lexed::End(p)
    } else {
        let c = s[p];
        let next = char_at(s, p + 1);
        if c == '*' {
            Lexed::Tok(TokenV::Sym(Token::Asterisk), p + 1)
        } else if c == ',' {
            Lexed::Tok(TokenV::Sym(Token::Comma), p + 1)
        } else if c == ';' {
            Lexed::Tok(TokenV::Sym(Token::Semicolon), p + 1)
        } else if c == '(' {
            Lexed::Tok(TokenV::Sym(Token::LParen), p + 1)
        } else if c == ')' {
            Lexed::Tok(TokenV::Sym(Token::RParen), p + 1)
        } else if c == '=' {
            Lexed::Tok(TokenV::Sym(Token::Eq), p + 1)
        } else if c == '!' {
            if next == Some('=') {
                Lexed::Tok(TokenV::Sym(Token::Neq), p + 2)
            } else {
                Lexed::End(p)
            }
        } else if c == '<' {
            if next == Some('=') {
                Lexed::Tok(TokenV::Sym(Token::Lte), p + 2)
            } else {
                Lexed::Tok(TokenV::Sym(Token::Lt), p + 1)
            }
        } else if c == '>' {
            if next == Some('=') {
                Lexed::Tok(TokenV::Sym(Token::Gte), p + 2)
            } else {
                Lexed::Tok(TokenV::Sym(Token::Gt), p + 1)
            }
        } else if c == '.' {
            Lexed::Tok(TokenV::Sym(Token::Dot), p + 1)
        } else if c == '\'' {
            let q = scan_string(s, p + 1);
            Lexed::Tok(
                TokenV::Str(s.subrange(p + 1, q)),
                if q < s.len() {
                    q + 1
                } else {
                    q
                },
            )
        } else if is_digit(c) {
            let q = scan_number(s, p);
            match number_token(s.subrange(p, q)) {
                Some(t) => Lexed::Tok(t, q),
                None => Lexed::Bad,
            }
        } else if is_alpha(c) || c == '_' {
            let q = scan_ident(s, p);
            Lexed::Tok(word_token(s.subrange(p, q)), q)
        } else {
            Lexed::End(p)
        }
    }
}

/// All the tokens that `s` yields from position `p`, and whether they stop
/// at a bad number.
pub open spec fn token_stream(s: Seq<char>, p: int) -> (Seq<TokenV>, bool)
    decreases s.len() - p,
{
    match lex_at(s, p) {
        Lexed::Tok(t, q) => if p < q <= s.len() {
            let (ts, bad) = token_stream(s, q);
            (seq![t] + ts, bad)
        } else {
            (seq![t], false)
        },
        Lexed::End(_) => (Seq::empty(), false),
        Lexed::Bad => (Seq::empty(), true),
    }
}

/// Relies on `char::is_whitespace`: true exactly for the characters with
/// Unicode's White_Space property.
#[verifier::external_body]
fn is_whitespace(c: char) -> (r: bool)
    ensures
        r == is_white_space(c),
{
    c.is_whitespace()
}

/// Relies on `str::chars` collected into a `Vec`: the characters of `s` in order.
#[verifier::external_body]
fn chars_of(s: &str) -> (r: Vec<char>)
    ensures
        r@ == s@,
{
    s.chars().collect()
}

/// Relies on collecting characters into a `String`: the same characters in order.
#[verifier::external_body]
fn string_of(cs: &[char]) -> (r: String)
    ensures
        r@ == cs@,
{
    cs.iter().collect()
}

fn is_digit_char(c: char) -> (r: bool)
    ensures
        r == is_digit(c),
{
    '0' <= c && c <= '9'
}

fn is_alpha_char(c: char) -> (r: bool)
    ensures
        r == is_alpha(c),
{
    ('a' <= c && c <= 'z') || ('A' <= c && c <= 'Z')
}

fn spells(w: &[char], k: &[char]) -> (r: bool)
    requires
        forall|i: int| 0 <= i < k@.len() ==> ('A' <= #[trigger] k@[i] <= 'Z') || k@[i] == '_',
    ensures
        r == word_is(w@, k@),
{
    if w.len() != k.len() {
        return false;
    }
    let mut i: usize = 0;
    while i < w.len()
        invariant
            w@.len() == k@.len(),
            i <= w@.len(),
            forall|j: int| 0 <= j < k@.len() ==> ('A' <= #[trigger] k@[j] <= 'Z') || k@[j] == '_',
            forall|j: int| 0 <= j < i ==> same_ci(w@[j], k@[j]),
        decreases w.len() - i,
    {
        let c = w[i];
        let u = k[i];
        let same = c == u || ('A' <= u && u <= 'Z' && c as u32 == u as u32 + 32);
        if !same {
            return false;
        }
        i += 1;
    }
    true
}

/// The keyword that `w` spells, ignoring case.
fn keyword(w: &[char]) -> (r: Option<Token>)
    ensures
        r == keyword_of(w@),
{
    if spells(w, &['S', 'E', 'L', 'E', 'C', 'T']) {
        Some(Token::Select)
    } else if spells(w, &['F', 'R', 'O', 'M']) {
        Some(Token::From)
    } else if spells(w, &['W', 'H', 'E', 'R', 'E']) {
        Some(Token::Where)
    } else if spells(w, &['O', 'R', 'D', 'E', 'R']) {
        Some(Token::Order)
    } else if spells(w, &['B', 'Y']) {
        Some(Token::By)
    } else if spells(w, &['L', 'I', 'M', 'I', 'T']) {
        Some(Token::Limit)
    } else if spells(w, &['A', 'S', 'C']) {
        Some(Token::Asc)
    } else if spells(w, &['D', 'E', 'S', 'C']) {
        Some(Token::Desc)
    } else if spells(w, &['J', 'O', 'I', 'N']) {
        Some(Token::Join)
    } else if spells(w, &['I', 'N', 'N', 'E', 'R']) {
        Some(Token::Inner)
    } else if spells(w, &['L', 'E', 'F', 'T']) {
        Some(Token::Left)
    } else if spells(w, &['R', 'I', 'G', 'H', 'T']) {
        Some(Token::Right)
    } else if spells(w, &['O', 'N']) {
        Some(Token::On)
    } else if spells(w, &['A', 'N', 'D']) {
        Some(Token::And)
    } else if spells(w, &['O', 'R']) {
        Some(Token::Or)
    } else if spells(w, &['C', 'O', 'U', 'N', 'T']) {
        Some(Token::Count)
    } else if spells(w, &['S', 'U', 'M']) {
        Some(Token::Sum)
    } else if spells(w, &['A', 'V', 'G']) {
        Some(Token::Avg)
    } else if spells(w, &['M', 'I', 'N']) {
        Some(Token::Min)
    } else if spells(w, &['M', 'A', 'X']) {
        Some(Token::Max)
    } else {
        None
    }
}

proof fn lemma_decimal_grows(t: Seq<char>, i: int)
    requires
        0 <= i <= t.len(),
        forall|j: int| 0 <= j < t.len() ==> is_digit(#[trigger] t[j]),
    ensures
        decimal_value(t.subrange(0, i)) <= decimal_value(t),
        0 <= decimal_value(t.subrange(0, i)),
    decreases t.len(),
{
    if t.len() > 0 {
        let u = t.drop_last();
        assert(t.subrange(0, t.len() as int) =~= t);
        if i < t.len() {
            assert(t.subrange(0, i) =~= u.subrange(0, i));
            lemma_decimal_grows(u, i);
            lemma_decimal_grows(u, u.len() as int);
            assert(u.subrange(0, u.len() as int) =~= u);
        } else {
            lemma_decimal_grows(u, u.len() as int);
            assert(u.subrange(0, u.len() as int) =~= u);
        }
    }
}

/// The `i64` that the digits `t` spell, if it fits.
fn parse_integer(t: &[char]) -> (r: Option<i64>)
    requires
        forall|j: int| 0 <= j < t@.len() ==> is_digit(#[trigger] t@[j]),
    ensures
        decimal_value(t@) <= i64::MAX ==> r == Some(decimal_value(t@) as i64),
        decimal_value(t@) > i64::MAX ==> r is None,
{
    let mut value: i64 = 0;
    let mut i: usize = 0;
    while i < t.len()
        invariant
            i <= t@.len(),
            forall|j: int| 0 <= j < t@.len() ==> is_digit(#[trigger] t@[j]),
            value == decimal_value(t@.subrange(0, i as int)),
        decreases t.len() - i,
    {
        let d = (t[i] as u32 - '0' as u32) as i64;
        assert(t@.subrange(0, i + 1).drop_last() =~= t@.subrange(0, i as int));
        proof {
            lemma_decimal_grows(t@, (i + 1) as int);
        }
        if value > (i64::MAX - d) / 10 {
            assert(decimal_value(t@.subrange(0, i + 1)) > i64::MAX) by (nonlinear_arith)
                requires
                    value > (i64::MAX - d) / 10,
                    0 <= d <= 9,
                    decimal_value(t@.subrange(0, i + 1)) == value * 10 + d,
            ;
            return None;
        }
        value = value * 10 + d;
        i += 1;
    }
    assert(t@.subrange(0, t@.len() as int) =~= t@);
    Some(value)
}

fn count_points(t: &[char]) -> (r: usize)
    ensures
        r == count_dots(t@),
{
    let mut n: usize = 0;
    let mut i: usize = 0;
    while i < t.len()
        invariant
            i <= t@.len(),
            n == count_dots(t@.subrange(0, i as int)),
            n <= i,
        decreases t.len() - i,
    {
        assert(t@.subrange(0, i + 1).drop_last() =~= t@.subrange(0, i as int));
        if t[i] == '.' {
            n += 1;
        }
        i += 1;
    }
    assert(t@.subrange(0, t@.len() as int) =~= t@);
    n
}

/// The lexer: the input's characters and the position of the current one.
pub struct Lexer {
    input: Vec<char>,
    pos: usize,
    ch: Option<char>,
}

impl Lexer {
    /// The position lies within the input or just past it, and `ch` is the
    /// character there.
    pub closed spec fn wf(&self) -> bool {
        self.pos <= self.input@.len() && self.ch == char_at(self.input@, self.pos as int)
    }

    /// The text being read.
    pub closed spec fn text(&self) -> Seq<char> {
        self.input@
    }

    /// The position of the next character to read.
    pub closed spec fn position(&self) -> int {
        self.pos as int
    }

    /// The tokens that are still to come, and whether they stop at a bad number.
    pub open spec fn rest(&self) -> (Seq<TokenV>, bool) {
        token_stream(self.text(), self.position())
    }

    /// The position of a well-formed lexer lies within its text or at its end.
    pub proof fn lemma_position(&self)
        requires
            self.wf(),
        ensures
            0 <= self.position() <= self.text().len(),
    {
    }

    /// A lexer at the start of `input`.
    pub fn new(input: &str) -> (r: Lexer)
        ensures
            r.wf(),
            r.text() == input@,
            r.position() == 0,
    {
        let chars = chars_of(input);
        let ch = if chars.len() > 0 {
            Some(chars[0])
        } else {
            None
        };
        Lexer { input: chars, pos: 0, ch }
    }

    fn read_char(&mut self)
        requires
            old(self).wf(),
        ensures
            final(self).wf(),
            final(self).input == old(self).input,
            final(self).pos == if old(self).pos < old(self).input@.len() {
                old(self).pos + 1
            } else {
                old(self).pos as int
            },
    {
        if self.pos < self.input.len() {
            self.pos = self.pos + 1;
        }
        self.ch = if self.pos < self.input.len() {
            Some(self.input[self.pos])
        } else {
            None
        };
    }

    fn peek(&self) -> (r: Option<char>)
        requires
            self.wf(),
        ensures
            r == char_at(self.input@, self.pos + 1),
    {
        if self.input.len() - self.pos > 1 {
            Some(self.input[self.pos + 1])
        } else {
            None
        }
    }

    fn read_string(&mut self) -> (r: Token)
        requires
            old(self).wf(),
            old(self).ch == Some('\''),
        ensures
            final(self).wf(),
            final(self).input == old(self).input,
            ({
                let s = old(self).input@;
                let q = scan_string(s, old(self).pos + 1);
                r@ == TokenV::Str(s.subrange(old(self).pos + 1, q)) && final(self).pos == if q
                    < s.len() {
                    q + 1
                } else {
                    q
                }
            }),
    {
        self.read_char();
        let start = self.pos;
        while self.ch.is_some() && self.ch.unwrap() != '\''
            invariant
                self.wf(),
                self.input == old(self).input,
                old(self).pos + 1 == start <= self.pos,
                scan_string(self.input@, self.pos as int) == scan_string(self.input@, start as int),
            decreases self.input@.len() - self.pos,
        {
            self.read_char();
        }
        let text = string_of(&self.input[start..self.pos]);
        if self.ch.is_some() {
            self.read_char();
        }
        Token::StringLiteral(text)
    }

    fn read_number(&mut self) -> (r: Result<Token, LexError>)
        requires
            old(self).wf(),
            old(self).ch is Some && is_digit(old(self).ch->0),
        ensures
            final(self).wf(),
            final(self).input == old(self).input,
            ({
                let s = old(self).input@;
                let q = scan_number(s, old(self).pos as int);
                match number_token(s.subrange(old(self).pos as int, q)) {
                    Some(t) => r is Ok && r->Ok_0@ == t && final(self).pos == q,
                    None => r is Err,
                }
            }),
    {
        let start = self.pos;
        while self.ch.is_some() && (is_digit_char(self.ch.unwrap()) || self.ch.unwrap() == '.')
            invariant
                self.wf(),
                self.input == old(self).input,
                start == old(self).pos <= self.pos,
                scan_number(self.input@, self.pos as int) == scan_number(self.input@, start as int),
                forall|j: int| start <= j < self.pos ==> is_number_char(#[trigger] self.input@[j]),
            decreases self.input@.len() - self.pos,
        {
            self.read_char();
        }
        let text = &self.input[start..self.pos];
        let dots = count_points(text);
        if dots == 0 {
            assert forall|j: int| 0 <= j < text@.len() implies is_digit(#[trigger] text@[j]) by {
                assert(is_number_char(self.input@[start + j]));
                if text@[j] == '.' {
                    lemma_dot_counted(text@, j);
                }
            }
            match parse_integer(text) {
                Some(n) => Ok(Token::Integer(n)),
                None => Err(LexError::InvalidNumber),
            }
        } else if dots == 1 {
            Ok(Token::Float(string_of(text)))
        } else {
            Err(LexError::InvalidNumber)
        }
    }

    fn read_identifier(&mut self) -> (r: Token)
        requires
            old(self).wf(),
            old(self).ch is Some,
            is_alpha(old(self).ch->0) || old(self).ch->0 == '_',
        ensures
            final(self).wf(),
            final(self).input == old(self).input,
            ({
                let s = old(self).input@;
                let q = scan_ident(s, old(self).pos as int);
                r@ == word_token(s.subrange(old(self).pos as int, q)) && final(self).pos == q
            }),
    {
        let start = self.pos;
        while self.ch.is_some() && (is_alpha_char(self.ch.unwrap()) || is_digit_char(
            self.ch.unwrap(),
        ) || self.ch.unwrap() == '_')
            invariant
                self.wf(),
                self.input == old(self).input,
                start == old(self).pos <= self.pos,
                scan_ident(self.input@, self.pos as int) == scan_ident(self.input@, start as int),
            decreases self.input@.len() - self.pos,
        {
            self.read_char();
        }
        let word = &self.input[start..self.pos];
        match keyword(word) {
            Some(k) => k,
            None => Token::Identifier(string_of(word)),
        }
    }

    /// Reads the next token. `Ok(None)` marks the end of the tokens: the end
    /// of the input, or a character that starts no token, where the lexer
    /// then stays.
    pub fn next_token(&mut self) -> (r: Result<Option<Token>, LexError>)
        requires
            old(self).wf(),
        ensures
            final(self).wf(),
            final(self).text() == old(self).text(),
            match lex_at(old(self).text(), old(self).position()) {
                Lexed::Tok(t, q) => r is Ok && r->Ok_0 is Some && r->Ok_0->0@ == t
                    && final(self).position() == q,
                Lexed::End(p) => r == Ok::<Option<Token>, LexError>(None) && final(self).position()
                    == p,
                Lexed::Bad => r is Err,
            },
    {
        self.skip_whitespace();
        let c = match self.ch {
            None => return Ok(None),
            Some(c) => c,
        };
        let tok = if c == '*' {
            Token::Asterisk
        } else if c == ',' {
            Token::Comma
        } else if c == ';' {
            Token::Semicolon
        } else if c == '(' {
            Token::LParen
        } else if c == ')' {
            Token::RParen
        } else if c == '=' {
            Token::Eq
        } else if c == '!' {
            if self.peek() == Some('=') {
                self.read_char();
                Token::Neq
            } else {
                return Ok(None);
            }
        } else if c == '<' {
            if self.peek() == Some('=') {
                self.read_char();
                Token::Lte
            } else {
                Token::Lt
            }
        } else if c == '>' {
            if self.peek() == Some('=') {
                self.read_char();
                Token::Gte
            } else {
                Token::Gt
            }
        } else if c == '.' {
            Token::Dot
        } else if c == '\'' {
            return Ok(Some(self.read_string()));
        } else if is_digit_char(c) {
            return match self.read_number() {
                Ok(t) => Ok(Some(t)),
                Err(e) => Err(e),
            };
        } else if is_alpha_char(c) || c == '_' {
            return Ok(Some(self.read_identifier()));
        } else {
            return Ok(None);
        };
        self.read_char();
        Ok(Some(tok))
    }

    fn skip_whitespace(&mut self)
        requires
            old(self).wf(),
        ensures
            final(self).wf(),
            final(self).input == old(self).input,
            final(self).pos == scan_ws(old(self).input@, old(self).pos as int),
    {
        while self.ch.is_some() && is_whitespace(self.ch.unwrap())
            invariant
                self.wf(),
                self.input == old(self).input,
                scan_ws(self.input@, self.pos as int) == scan_ws(old(self).input@, old(self).pos as int),
            decreases self.input@.len() - self.pos,
        {
            self.read_char();
        }
    }
}

proof fn lemma_scan_ws(s: Seq<char>, p: int)
    requires
        0 <= p <= s.len(),
    ensures
        p <= scan_ws(s, p) <= s.len(),
        scan_ws(s, p) < s.len() ==> !is_white_space(s[scan_ws(s, p)]),
    decreases s.len() - p,
{
    if p < s.len() && is_white_space(s[p]) {
        lemma_scan_ws(s, p + 1);
    }
}

proof fn lemma_scan_number(s: Seq<char>, p: int)
    requires
        0 <= p <= s.len(),
    ensures
        p <= scan_number(s, p) <= s.len(),
    decreases s.len() - p,
{
    if p < s.len() && is_number_char(s[p]) {
        lemma_scan_number(s, p + 1);
    }
}

proof fn lemma_scan_ident(s: Seq<char>, p: int)
    requires
        0 <= p <= s.len(),
    ensures
        p <= scan_ident(s, p) <= s.len(),
    decreases s.len() - p,
{
    if p < s.len() && is_ident_char(s[p]) {
        lemma_scan_ident(s, p + 1);
    }
}

proof fn lemma_scan_string(s: Seq<char>, p: int)
    requires
        0 <= p <= s.len(),
    ensures
        p <= scan_string(s, p) <= s.len(),
    decreases s.len() - p,
{
    if p < s.len() && s[p] != '\'' {
        lemma_scan_string(s, p + 1);
    }
}

/// How one step of the lexer moves along the token stream: a token is the
/// first of the stream, after which the rest follows; at the end the stream
/// is empty and stays so.
pub proof fn lemma_lex_step(s: Seq<char>, p: int)
    requires
        0 <= p <= s.len(),
    ensures
        match lex_at(s, p) {
            Lexed::Tok(t, q) => p < q <= s.len() && token_stream(s, p) == (
                seq![t] + token_stream(s, q).0,
                token_stream(s, q).1,
            ),
            Lexed::End(e) => 0 <= e <= s.len() && token_stream(s, p) == (Seq::<TokenV>::empty(), false)
                && lex_at(s, e) == Lexed::End(e),
            Lexed::Bad => token_stream(s, p) == (Seq::<TokenV>::empty(), true),
        },
{
    lemma_scan_ws(s, p);
    let w = scan_ws(s, p);
    if w < s.len() {
        lemma_scan_string(s, w + 1);
        lemma_scan_number(s, w);
        lemma_scan_ident(s, w);
        lemma_scan_number(s, w + 1);
        lemma_scan_ident(s, w + 1);
    }
    match lex_at(s, p) {
        Lexed::End(e) => {
            lemma_scan_ws(s, e);
            assert(scan_ws(s, e) == e);
        },
        _ => {},
    }
}

proof fn lemma_scan_string_to_end(s: Seq<char>, p: int)
    requires
        0 <= p <= s.len(),
        forall|j: int| p <= j < s.len() ==> s[j] != '\'',
    ensures
        scan_string(s, p) == s.len(),
    decreases s.len() - p,
{
    if p < s.len() {
        lemma_scan_string_to_end(s, p + 1);
    }
}

/// A string literal that no quote closes takes the rest of the input as its
/// text, and the tokens end after it.
pub proof fn lemma_unterminated_string(s: Seq<char>, p: int)
    requires
        0 <= p < s.len(),
        s[p] == '\'',
        forall|j: int| p < j < s.len() ==> s[j] != '\'',
    ensures
        lex_at(s, p) == Lexed::Tok(TokenV::Str(s.subrange(p + 1, s.len() as int)), s.len() as int),
        lex_at(s, s.len() as int) == Lexed::End(s.len() as int),
        token_stream(s, p) == (seq![TokenV::Str(s.subrange(p + 1, s.len() as int))], false),
{
    assert(scan_ws(s, p) == p);
    lemma_scan_string_to_end(s, p + 1);
    lemma_lex_step(s, p);
    assert(scan_ws(s, s.len() as int) == s.len());
    assert(token_stream(s, s.len() as int) == (Seq::<TokenV>::empty(), false));
    assert(seq![TokenV::Str(s.subrange(p + 1, s.len() as int))] + Seq::<TokenV>::empty() =~= seq![
        TokenV::Str(s.subrange(p + 1, s.len() as int)),
    ]);
}

proof fn lemma_dot_counted(t: Seq<char>, j: int)
    requires
        0 <= j < t.len(),
        t[j] == '.',
    ensures
        count_dots(t) >= 1,
    decreases t.len(),
{
    if j < t.len() - 1 {
        assert(t.drop_last()[j] == '.');
        lemma_dot_counted(t.drop_last(), j);
    }
}

} // verus!
