use crate::chars::{
    is_ascii_digit, is_numeric, is_whitespace, is_xid_continue, is_xid_start, spec_is_numeric,
    spec_is_whitespace, spec_is_xid_continue, spec_is_xid_start, string_from_chars, unescape_text,
    unescaped,
};
use crate::token::{Literal, LiteralView, Token, TokenView};
use vstd::prelude::*;
use vstd::string::*;

verus! {

/// The character `first` and `second` report past the end of the input.
pub const EOF_CHAR: char = '\0';

/// A position in the source: a line (from 0) and the number of characters
/// read on that line.
#[derive(Clone, Copy, Debug)]
pub struct Pos {
    pub line: usize,
    pub offset: usize,
}

impl Default for Pos {
    fn default() -> (p: Pos)
        ensures
            p.line == 0 && p.offset == 0,
    {
        Pos { line: 0, offset: 0 }
    }
}

/// The position `n` characters further on the same line.
pub open spec fn advanced(p: Pos, n: int) -> Pos {
    Pos { line: p.line, offset: (p.offset + n) as usize }
}

/// The start of the next line.
pub open spec fn next_line(p: Pos) -> Pos {
    Pos { line: (p.line + 1) as usize, offset: 0 }
}

/// The character at `i`, or `EOF_CHAR` past the end.
pub open spec fn char_at(s: Seq<char>, i: int) -> char {
    if 0 <= i < s.len() {
        s[i]
    } else {
        EOF_CHAR
    }
}

/// In the body of a string literal that starts at `i`, the index of the
/// quote that closes it, or the end of the input. A backslash followed by a
/// backslash or a quote is kept as a pair and does not close the literal.
pub open spec fn string_close(s: Seq<char>, i: int) -> int
    decreases s.len() - i,
{
    if i < 0 || i >= s.len() {
        s.len() as int
    } else if s[i] == '"' {
        i
    } else if s[i] == '\\' && (char_at(s, i + 1) == '\\' || char_at(s, i + 1) == '"') {
        string_close(s, i + 2)
    } else {
        string_close(s, i + 1)
    }
}

/// The closing index of a string literal lies between the start and the end.
pub proof fn lemma_string_close_bounds(s: Seq<char>, i: int)
    requires
        0 <= i,
    ensures
        0 <= string_close(s, i) <= s.len(),
        i <= s.len() ==> i <= string_close(s, i),
    decreases s.len() - i,
{
    if i < s.len() && s[i] != '"' {
        if s[i] == '\\' && (char_at(s, i + 1) == '\\' || char_at(s, i + 1) == '"') {
            lemma_string_close_bounds(s, i + 2);
        } else {
            lemma_string_close_bounds(s, i + 1);
        }
    }
}

/// Skipping twice is skipping the sum.
pub proof fn lemma_skips(s: Seq<char>)
    ensures
        forall|a: int, b: int|
            0 <= a && 0 <= b && a + b <= s.len() ==> #[trigger] s.skip(a).skip(b) == s.skip(a + b),
{
    assert forall|a: int, b: int| 0 <= a && 0 <= b && a + b <= s.len() implies #[trigger] s.skip(
        a,
    ).skip(b) == s.skip(a + b) by {
        assert(s.skip(a).skip(b) =~= s.skip(a + b));
    }
}

/// The end of the number that continues at `i`: numeric characters, and dots
/// that a numeric character follows.
pub open spec fn number_end(s: Seq<char>, i: int) -> int
    decreases s.len() - i,
{
    if i < 0 || i >= s.len() {
        i
    } else if spec_is_numeric(s[i]) {
        number_end(s, i + 1)
    } else if s[i] == '.' && spec_is_numeric(char_at(s, i + 1)) {
        number_end(s, i + 1)
    } else {
        i
    }
}

/// The end of the identifier that continues at `i`.
pub open spec fn ident_end(s: Seq<char>, i: int) -> int
    decreases s.len() - i,
{
    if i < 0 || i >= s.len() {
        i
    } else if spec_is_xid_continue(s[i]) {
        ident_end(s, i + 1)
    } else {
        i
    }
}

/// The value of a text of decimal digits.
pub open spec fn decimal_value(t: Seq<char>) -> int
    decreases t.len(),
{
    if t.len() == 0 {
        0
    } else {
        decimal_value(t.drop_last()) * 10 + (t.last() as int - '0' as int)
    }
}

pub open spec fn all_ascii_digits(t: Seq<char>) -> bool {
    forall|i: int| 0 <= i < t.len() ==> is_ascii_digit(#[trigger] t[i])
}

/// A text of digits is worth at least as much as any of its prefixes.
pub proof fn lemma_decimal_prefix(t: Seq<char>, i: int)
    requires
        all_ascii_digits(t),
        0 <= i <= t.len(),
    ensures
        0 <= decimal_value(t.take(i)) <= decimal_value(t),
    decreases t.len(),
{
    if i < t.len() {
        assert(all_ascii_digits(t.drop_last()));
        lemma_decimal_prefix(t.drop_last(), i);
        assert(t.drop_last().take(i) == t.take(i));
        lemma_decimal_prefix(t.drop_last(), t.len() - 1);
        assert(t.drop_last().take(t.len() - 1) == t.drop_last());
    } else {
        assert(t.take(i) == t);
        if t.len() > 0 {
            assert(all_ascii_digits(t.drop_last()));
            lemma_decimal_prefix(t.drop_last(), t.len() - 1);
            assert(t.drop_last().take(t.len() - 1) == t.drop_last());
        }
    }
}

/// The number of dots in a text.
pub open spec fn dot_count(t: Seq<char>) -> nat
    decreases t.len(),
{
    if t.len() == 0 {
        0
    } else {
        dot_count(t.drop_last()) + if t.last() == '.' { 1nat } else { 0nat }
    }
}

/// `str::parse::<i64>` accepts the text of an integer literal.
pub open spec fn int_text_ok(t: Seq<char>) -> bool {
    all_ascii_digits(t) && decimal_value(t) <= i64::MAX
}

/// `str::parse::<f64>` accepts the text of a float literal: ASCII digits
/// around exactly one dot.
pub open spec fn float_text_ok(t: Seq<char>) -> bool {
    &&& forall|i: int| 0 <= i < t.len() ==> (#[trigger] t[i] == '.' || is_ascii_digit(t[i]))
    &&& dot_count(t) == 1
}

/// The token that a word made of identifier characters stands for.
pub open spec fn word_token(w: Seq<char>) -> TokenView {
    if w == "fn"@ {
        TokenView::Fn
    } else if w == "let"@ {
        TokenView::Let
    } else if w == "return"@ {
        TokenView::Return
    } else if w == "struct"@ {
        TokenView::Struct
    } else if w == "self"@ {
        TokenView::SelfArg
    } else if w == "nil"@ {
        TokenView::Literal(LiteralView::Nil)
    } else if w == "true"@ {
        TokenView::Literal(LiteralView::Bool(true))
    } else if w == "false"@ {
        TokenView::Literal(LiteralView::Bool(false))
    } else if w == "if"@ {
        TokenView::If
    } else if w == "while"@ {
        TokenView::While
    } else if w == "else"@ {
        TokenView::Else
    } else if w == "break"@ {
        TokenView::Break
    } else if w == "continue"@ {
        TokenView::Continue
    } else {
        TokenView::Ident(w)
    }
}

/// What reading one token does: the token, how many characters it takes and
/// the position after it; or a fault where the text cannot be read (an
/// integer that does not fit in `i64` or is not made of ASCII digits, a float
/// that `f64` parsing refuses, a string literal with a malformed escape).
pub enum Lexed {
    Done(TokenView, int, Pos),
    Fault,
}

/// The token at the start of `s`, read at position `pos`.
pub open spec fn lex_step(s: Seq<char>, pos: Pos) -> Lexed {
    let p1 = advanced(pos, 1);
    let p2 = advanced(pos, 2);
    if s.len() == 0 {
        Lexed::Done(TokenView::Eof, 0, pos)
    } else {
        let c = s[0];
        let d = char_at(s, 1);
        if c == '(' {
            Lexed::Done(TokenView::OpenParen, 1, p1)
        } else if c == ')' {
            Lexed::Done(TokenView::CloseParen, 1, p1)
        } else if c == '{' {
            Lexed::Done(TokenView::OpenBrace, 1, p1)
        } else if c == '}' {
            Lexed::Done(TokenView::CloseBrace, 1, p1)
        } else if c == '[' {
            Lexed::Done(TokenView::OpenBracket, 1, p1)
        } else if c == ']' {
            Lexed::Done(TokenView::CloseBracket, 1, p1)
        } else if c == '.' {
            Lexed::Done(TokenView::Dot, 1, p1)
        } else if c == ',' {
            Lexed::Done(TokenView::Comma, 1, p1)
        } else if c == ':' {
            if d == ':' {
                Lexed::Done(TokenView::Path, 2, p2)
            } else {
                Lexed::Done(TokenView::Colon, 1, p1)
            }
        } else if c == ';' {
            Lexed::Done(TokenView::Semicolon, 1, p1)
        } else if c == '=' {
            if d == '=' {
                Lexed::Done(TokenView::Equal, 2, p2)
            } else {
                Lexed::Done(TokenView::Assign, 1, p1)
            }
        } else if c == '!' {
            if d == '=' {
                Lexed::Done(TokenView::NotEqual, 2, p2)
            } else {
                Lexed::Done(TokenView::Not, 1, p1)
            }
        } else if c == '<' {
            if d == '<' {
                Lexed::Done(TokenView::ShiftLeft, 2, p2)
            } else if d == '=' {
                Lexed::Done(TokenView::LessEqual, 2, p2)
            } else {
                Lexed::Done(TokenView::Less, 1, p1)
            }
        } else if c == '>' {
            if d == '>' {
                Lexed::Done(TokenView::ShiftRight, 2, p2)
            } else if d == '=' {
                Lexed::Done(TokenView::GreaterEqual, 2, p2)
            } else {
                Lexed::Done(TokenView::Greater, 1, p1)
            }
        } else if c == '~' {
            Lexed::Done(TokenView::BitNot, 1, p1)
        } else if c == '&' {
            if d == '&' {
                Lexed::Done(TokenView::And, 2, p2)
            } else {
                Lexed::Done(TokenView::BitAnd, 1, p1)
            }
        } else if c == '|' {
            if d == '|' {
                Lexed::Done(TokenView::Or, 2, p2)
            } else {
                Lexed::Done(TokenView::BitOr, 1, p1)
            }
        } else if c == '^' {
            Lexed::Done(TokenView::BitXor, 1, p1)
        } else if c == '"' {
            let body = s.skip(1);
            let close = string_close(body, 0);
            let end = if close < body.len() { close + 2 } else { s.len() as int };
            match unescaped(body.subrange(0, close)) {
                Some(text) => Lexed::Done(
                    TokenView::Literal(LiteralView::String(text)),
                    end,
                    advanced(pos, end),
                ),
                None => Lexed::Fault,
            }
        } else if c == '+' {
            Lexed::Done(TokenView::Plus, 1, p1)
        } else if c == '-' {
            if d == '>' {
                Lexed::Done(TokenView::Arrow, 2, p2)
            } else {
                Lexed::Done(TokenView::Minus, 1, p1)
            }
        } else if c == '*' {
            Lexed::Done(TokenView::Star, 1, p1)
        } else if c == '/' {
            Lexed::Done(TokenView::Slash, 1, p1)
        } else if c == '%' {
            Lexed::Done(TokenView::Percent, 1, p1)
        } else if spec_is_numeric(c) {
            let end = number_end(s, 1);
            let text = s.subrange(0, end);
            if text.contains('.') {
                if float_text_ok(text) {
                    Lexed::Done(TokenView::Literal(LiteralView::Float(text)), end, advanced(pos, end))
                } else {
                    Lexed::Fault
                }
            } else if int_text_ok(text) {
                Lexed::Done(
                    TokenView::Literal(LiteralView::Int(decimal_value(text) as i64)),
                    end,
                    advanced(pos, end),
                )
            } else {
                Lexed::Fault
            }
        } else if c == '\n' {
            Lexed::Done(TokenView::NewLine, 1, next_line(pos))
        } else if c == '\r' && d == '\n' {
            Lexed::Done(TokenView::NewLine, 2, next_line(pos))
        } else if spec_is_xid_start(c) {
            let end = ident_end(s, 1);
            Lexed::Done(word_token(s.subrange(0, end)), end, advanced(pos, end))
        } else if spec_is_whitespace(c) {
            Lexed::Done(TokenView::Whitespace, 1, p1)
        } else {
            Lexed::Done(TokenView::Unknown, 1, p1)
        }
    }
}

/// The ends of a number and of an identifier stay within the text.
pub proof fn lemma_scan_bounds(s: Seq<char>, i: int)
    requires
        0 <= i <= s.len(),
    ensures
        i <= number_end(s, i) <= s.len(),
        i <= ident_end(s, i) <= s.len(),
    decreases s.len() - i,
{
    if i < s.len() {
        lemma_scan_bounds(s, i + 1);
    }
}

/// Reading a token from a text that is not empty takes at least one of its
/// characters and never gives `Eof`; from the empty text it gives `Eof`
/// and takes nothing.
pub proof fn lemma_step_progress(s: Seq<char>, pos: Pos)
    ensures
        lex_step(s, pos) matches Lexed::Done(t, n, p) ==> {
            &&& s.len() == 0 ==> n == 0 && t is Eof
            &&& s.len() > 0 ==> 1 <= n <= s.len() && !(t is Eof)
        },
{
    if s.len() > 0 {
        lemma_scan_bounds(s, 1);
        lemma_string_close_bounds(s.skip(1), 0);
    }
}

/// The tokens of a whole text, with their positions: every token up to and
/// including `Eof`, whitespace left out; nothing where a token cannot be
/// read.
pub open spec fn lex_all(s: Seq<char>, pos: Pos) -> Option<Seq<(TokenView, Pos)>>
    decreases s.len(),
{
    match lex_step(s, pos) {
        Lexed::Fault => None,
        Lexed::Done(t, n, p) => {
            if t is Eof {
                Some(seq![(t, pos)])
            } else if 0 < n <= s.len() {
                match lex_all(s.skip(n), p) {
                    None => None,
                    Some(rest) => if t is Whitespace {
                        Some(rest)
                    } else {
                        Some(seq![(t, pos)] + rest)
                    },
                }
            } else {
                None
            }
        },
    }
}

/// Lexing a whole text gives a list that ends with the one end-of-input
/// token, holds no whitespace token, and starts where the text starts.
pub proof fn law_lex_all_shape(s: Seq<char>, pos: Pos)
    requires
        lex_all(s, pos) is Some,
    ensures
        ({
            let r = lex_all(s, pos)->0;
            &&& r.len() >= 1
            &&& r.last().0 is Eof
            &&& forall|i: int| 0 <= i < r.len() - 1 ==> !(r[i].0 is Eof) && !(r[i].0 is Whitespace)
            &&& !(r[0].0 is Whitespace)
        }),
    decreases s.len(),
{
    lemma_step_progress(s, pos);
    match lex_step(s, pos) {
        Lexed::Done(t, n, p) => {
            if !(t is Eof) {
                law_lex_all_shape(s.skip(n), p);
                let rest = lex_all(s.skip(n), p)->0;
                if !(t is Whitespace) {
                    let r = seq![(t, pos)] + rest;
                    assert forall|i: int| 0 <= i < r.len() - 1 implies !(r[i].0 is Eof) && !(r[i].0 is Whitespace) by {
                        if i > 0 {
                            assert(r[i] == rest[i - 1]);
                        }
                    }
                }
            }
        },
        Lexed::Fault => {},
    }
}

/// The values of a sequence of tokens with positions.
pub open spec fn token_views(v: Seq<(Token, Pos)>) -> Seq<(TokenView, Pos)> {
    v.map_values(|x: (Token, Pos)| (x.0@, x.1))
}

/// Parses the text of an integer literal as `str::parse::<i64>` does: ASCII
/// digits whose value fits in `i64`.
fn parse_int(text: &Vec<char>) -> (r: Option<i64>)
    ensures
        r is Some <==> int_text_ok(text@),
        r matches Some(v) ==> v == decimal_value(text@),
{
    let mut acc: i64 = 0;
    let mut i: usize = 0;
    while i < text.len()
        invariant
            i <= text.len(),
            all_ascii_digits(text@.take(i as int)),
            acc == decimal_value(text@.take(i as int)),
        decreases text.len() - i,
    {
        let c = text[i];
        if !('0' <= c && c <= '9') {
            assert(!all_ascii_digits(text@));
            return None;
        }
        let d: i64 = ((c as u32) - ('0' as u32)) as i64;
        proof {
            assert(text@.take(i + 1).drop_last() == text@.take(i as int));
            assert(all_ascii_digits(text@.take(i + 1)));
        }
        match acc.checked_mul(10) {
            Some(m) => match m.checked_add(d) {
                Some(v) => {
                    acc = v;
                },
                None => {
                    proof {
                        if all_ascii_digits(text@) {
                            lemma_decimal_prefix(text@, i + 1);
                        }
                    }
                    return None;
                },
            },
            None => {
                proof {
                    if all_ascii_digits(text@) {
                        lemma_decimal_prefix(text@, i + 1);
                    }
                }
                return None;
            },
        }
        i = i + 1;
    }
    assert(text@.take(i as int) == text@);
    Some(acc)
}

/// Whether the text of a float literal parses as `str::parse::<f64>` does:
/// ASCII digits around exactly one dot.
fn float_ok(text: &Vec<char>) -> (b: bool)
    ensures
        b == float_text_ok(text@),
{
    let mut dots: usize = 0;
    let mut i: usize = 0;
    while i < text.len()
        invariant
            i <= text.len(),
            dots == dot_count(text@.take(i as int)),
            dots <= i,
            forall|k: int| 0 <= k < i ==> (#[trigger] text@[k] == '.' || is_ascii_digit(text@[k])),
        decreases text.len() - i,
    {
        let c = text[i];
        assert(text@.take(i + 1).drop_last() == text@.take(i as int));
        if c == '.' {
            dots = dots + 1;
        } else if !('0' <= c && c <= '9') {
            return false;
        }
        i = i + 1;
    }
    assert(text@.take(i as int) == text@);
    dots == 1
}

/// Whether a text of characters equals a string.
fn chars_eq(v: &Vec<char>, s: &str) -> (b: bool)
    ensures
        b == (v@ == s@),
{
    let n = s.unicode_len();
    if n != v.len() {
        return false;
    }
    let mut i: usize = 0;
    while i < n
        invariant
            n == s@.len(),
            n == v@.len(),
            i <= n,
            forall|k: int| 0 <= k < i ==> v@[k] == s@[k],
        decreases n - i,
    {
        if v[i] != s.get_char(i) {
            return false;
        }
        i = i + 1;
    }
    assert(v@ == s@);
    true
}

/// The token that a word made of identifier characters stands for.
fn word_to_token(w: &Vec<char>) -> (t: Token)
    ensures
        t@ == word_token(w@),
{
    if chars_eq(w, "fn") {
        Token::Fn
    } else if chars_eq(w, "let") {
        Token::Let
    } else if chars_eq(w, "return") {
        Token::Return
    } else if chars_eq(w, "struct") {
        Token::Struct
    } else if chars_eq(w, "self") {
        Token::SelfArg
    } else if chars_eq(w, "nil") {
        Token::Literal(Literal::Nil)
    } else if chars_eq(w, "true") {
        Token::Literal(Literal::Bool(true))
    } else if chars_eq(w, "false") {
        Token::Literal(Literal::Bool(false))
    } else if chars_eq(w, "if") {
        Token::If
    } else if chars_eq(w, "while") {
        Token::While
    } else if chars_eq(w, "else") {
        Token::Else
    } else if chars_eq(w, "break") {
        Token::Break
    } else if chars_eq(w, "continue") {
        Token::Continue
    } else {
        Token::Ident(string_from_chars(w))
    }
}

/// A lexer over a text: the characters not read yet and the position.
#[derive(Clone)]
pub struct Lex {
    input: Vec<char>,
    idx: usize,
    pos: Pos,
}

impl Lex {
    /// The characters not read yet.
    pub closed spec fn rest(&self) -> Seq<char> {
        self.input@.skip(self.idx as int)
    }

    /// The position of the next character.
    pub closed spec fn at(&self) -> Pos {
        self.pos
    }

    /// How many characters were read.
    pub closed spec fn read(&self) -> nat {
        self.idx as nat
    }

    /// The lexer's bounds: the position never runs ahead of what was read,
    /// and the offset cannot overflow while the rest is read.
    pub closed spec fn wf(&self) -> bool {
        &&& self.idx <= self.input.len()
        &&& self.pos.line <= self.idx
        &&& self.pos.offset + (self.input.len() - self.idx) < usize::MAX
    }

    /// A lexer at the start of `input`.
    pub fn new(input: &str) -> (l: Lex)
        requires
            input@.len() < usize::MAX,
        ensures
            l.wf(),
            l.rest() == input@,
            l.at() == (Pos { line: 0, offset: 0 }),
    {
        let n = input.unicode_len();
        let mut v: Vec<char> = Vec::new();
        let mut i: usize = 0;
        while i < n
            invariant
                n == input@.len(),
                i <= n,
                v@ == input@.take(i as int),
            decreases n - i,
        {
            v.push(input.get_char(i));
            i = i + 1;
            assert(v@ == input@.take(i as int));
        }
        assert(v@.skip(0) == input@);
        Lex { input: v, idx: 0, pos: Pos { line: 0, offset: 0 } }
    }

    /// A copy of this lexer.
    pub fn snapshot(&self) -> (l: Lex)
        ensures
            l.rest() == self.rest(),
            l.at() == self.at(),
            self.wf() ==> l.wf(),
    {
        let mut v: Vec<char> = Vec::new();
        let mut i: usize = 0;
        while i < self.input.len()
            invariant
                i <= self.input.len(),
                v@ == self.input@.take(i as int),
            decreases self.input.len() - i,
        {
            v.push(self.input[i]);
            i = i + 1;
            assert(v@ == self.input@.take(i as int));
        }
        assert(v@ == self.input@);
        Lex { input: v, idx: self.idx, pos: self.pos }
    }

    /// Reads one character, if any is left.
    pub fn bump(&mut self) -> (r: Option<char>)
        requires
            old(self).wf(),
        ensures
            final(self).wf(),
            old(self).rest().len() > 0 ==> {
                &&& r == Some(old(self).rest()[0])
                &&& final(self).read() == old(self).read() + 1
                &&& final(self).rest() == old(self).rest().drop_first()
                &&& final(self).at() == advanced(old(self).at(), 1)
            },
            old(self).rest().len() == 0 ==> r is None && final(self).rest() == old(self).rest()
                && final(self).at() == old(self).at(),
    {
        if self.idx < self.input.len() {
            let c = self.input[self.idx];
            self.idx = self.idx + 1;
            self.pos.offset = self.pos.offset + 1;
            assert(self.rest() == old(self).rest().drop_first());
            Some(c)
        } else {
            None
        }
    }

    /// The next character, or `EOF_CHAR` at the end.
    pub fn first(&self) -> (c: char)
        requires
            self.wf(),
        ensures
            c == char_at(self.rest(), 0),
    {
        if self.idx < self.input.len() {
            self.input[self.idx]
        } else {
            EOF_CHAR
        }
    }

    /// The character after the next one, or `EOF_CHAR` past the end.
    pub fn second(&self) -> (c: char)
        requires
            self.wf(),
        ensures
            c == char_at(self.rest(), 1),
    {
        if self.idx < self.input.len() && self.input.len() - self.idx > 1 {
            self.input[self.idx + 1]
        } else {
            EOF_CHAR
        }
    }

    /// Whether the characters not read yet start with `text`.
    pub fn peek_check(&self, text: &str) -> (b: bool)
        requires
            self.wf(),
        ensures
            b == text@.is_prefix_of(self.rest()),
    {
        let n = text.unicode_len();
        if n > self.input.len() - self.idx {
            return false;
        }
        let mut i: usize = 0;
        while i < n
            invariant
                n == text@.len(),
                self.wf(),
                n <= self.input.len() - self.idx,
                i <= n,
                forall|j: int| 0 <= j < i ==> text@[j] == self.rest()[j],
            decreases n - i,
        {
            if text.get_char(i) != self.input[self.idx + i] {
                return false;
            }
            i = i + 1;
        }
        true
    }

    /// Reads `n` characters (as many as are left), moving the offset on by
    /// one.
    pub fn skip(&mut self, n: usize)
        requires
            old(self).wf(),
            n > 0 && old(self).rest().len() == 0 ==> old(self).at().offset + 2 < usize::MAX,
        ensures
            final(self).wf(),
            n == 0 ==> final(self).rest() == old(self).rest() && final(self).at() == old(self).at(),
            n > 0 ==> {
                &&& final(self).rest() == old(self).rest().skip(
                    if n <= old(self).rest().len() { n as int } else { old(self).rest().len() as int },
                )
                &&& final(self).at() == advanced(old(self).at(), 1)
                &&& old(self).rest().len() > 0 ==> final(self).read() > old(self).read()
            },
    {
        if n == 0 {
            return;
        }
        self.pos.offset = self.pos.offset + 1;
        let left = self.input.len() - self.idx;
        if n <= left {
            self.idx = self.idx + n;
        } else {
            self.idx = self.input.len();
        }
        assert(self.rest() == old(self).rest().skip(
            if n <= old(self).rest().len() { n as int } else { old(self).rest().len() as int },
        ));
    }

    /// Reads the next token, with the position where it starts.
    pub fn advance_token(&mut self) -> (r: (Token, Pos))
        requires
            old(self).wf(),
            !(lex_step(old(self).rest(), old(self).at()) is Fault),
        ensures
            final(self).wf(),
            lex_step(old(self).rest(), old(self).at()) matches Lexed::Done(t, n, p) && r.0@ == t
                && r.1 == old(self).at() && final(self).rest() == old(self).rest().skip(n)
                && final(self).at() == p,
    {
        match self.step() {
            Some(r) => r,
            None => {
                assert(false);
                (Token::Eof, self.pos)
            },
        }
    }

    /// Reads the next token where it can be read; where it cannot (the cases
    /// of `Lexed::Fault`), returns `None` and leaves the lexer as it was.
    pub fn try_advance_token(&mut self) -> (r: Option<(Token, Pos)>)
        requires
            old(self).wf(),
        ensures
            final(self).wf(),
            match lex_step(old(self).rest(), old(self).at()) {
                Lexed::Done(t, n, p) => {
                    &&& r matches Some(x)
                    &&& x.0@ == t
                    &&& x.1 == old(self).at()
                    &&& final(self).rest() == old(self).rest().skip(n)
                    &&& final(self).at() == p
                },
                Lexed::Fault => {
                    &&& r is None
                    &&& final(self).rest() == old(self).rest()
                    &&& final(self).at() == old(self).at()
                },
            },
    {
        let mut probe = self.snapshot();
        match probe.step() {
            Some(_) => Some(self.advance_token()),
            None => None,
        }
    }

    /// All the tokens of the rest of the text, whitespace left out, up to and
    /// including `Eof`, each with the position where it starts.
    pub fn all(self) -> (r: Vec<(Token, Pos)>)
        requires
            self.wf(),
            lex_all(self.rest(), self.at()) is Some,
        ensures
            token_views(r@) == lex_all(self.rest(), self.at())->0,
    {
        let ghost full = lex_all(self.rest(), self.at())->0;
        let mut lex = self;
        let mut tokens: Vec<(Token, Pos)> = Vec::new();
        loop
            invariant_except_break
                lex.wf(),
                lex_all(lex.rest(), lex.at()) is Some,
                full == token_views(tokens@) + lex_all(lex.rest(), lex.at())->0,
            ensures
                full == token_views(tokens@),
            decreases lex.rest().len(),
        {
            proof {
                lemma_step_progress(lex.rest(), lex.at());
            }
            let ghost before = tokens@;
            let (token, pos) = lex.advance_token();
            match token {
                Token::Whitespace => {
                    continue;
                },
                Token::Eof => {
                    tokens.push((token, pos));
                    assert(token_views(tokens@) == token_views(before) + seq![(TokenView::Eof, pos)]);
                    break;
                },
                _ => {
                    let ghost tv = token@;
                    tokens.push((token, pos));
                    assert(token_views(tokens@) == token_views(before) + seq![(tv, pos)]);
                },
            }
        }
        tokens
    }

    /// Whether every token of the rest of the text can be read.
    pub fn lexes_cleanly(&self) -> (b: bool)
        requires
            self.wf(),
        ensures
            b == lex_all(self.rest(), self.at()) is Some,
    {
        let mut probe = self.snapshot();
        loop
            invariant
                probe.wf(),
                lex_all(self.rest(), self.at()) is Some <==> lex_all(probe.rest(), probe.at()) is Some,
            decreases probe.rest().len(),
        {
            proof {
                lemma_step_progress(probe.rest(), probe.at());
            }
            match probe.step() {
                None => {
                    return false;
                },
                Some((Token::Eof, _)) => {
                    return true;
                },
                Some(_) => {},
            }
        }
    }

    /// All the tokens of the rest of the text, as `all` gives them, where
    /// every token can be read; otherwise `None`.
    pub fn try_all(self) -> (r: Option<Vec<(Token, Pos)>>)
        requires
            self.wf(),
        ensures
            r is Some <==> lex_all(self.rest(), self.at()) is Some,
            r matches Some(v) ==> token_views(v@) == lex_all(self.rest(), self.at())->0,
    {
        if self.lexes_cleanly() {
            Some(self.all())
        } else {
            None
        }
    }

    /// Reads one token, or reports the fault where the text cannot be read.
    fn step(&mut self) -> (r: Option<(Token, Pos)>)
        requires
            old(self).wf(),
        ensures
            final(self).wf(),
            match lex_step(old(self).rest(), old(self).at()) {
                Lexed::Done(t, n, p) => {
                    &&& r matches Some(x)
                    &&& x.0@ == t
                    &&& x.1 == old(self).at()
                    &&& final(self).rest() == old(self).rest().skip(n)
                    &&& final(self).at() == p
                },
                Lexed::Fault => r is None,
            },
    {
        let pos = self.pos;
        let ghost s = self.rest();
        let first_char = match self.bump() {
            Some(c) => c,
            None => {
                assert(s.skip(0) == s);
                return Some((Token::Eof, pos));
            },
        };
        assert(s[0] == first_char);
        assert(self.rest() == s.skip(1));
        proof {
            lemma_skips(s);
            assert(s.skip(1).drop_first() == s.skip(1).skip(1));
        }
        let token = if first_char == '(' {
            Token::OpenParen
        } else if first_char == ')' {
            Token::CloseParen
        } else if first_char == '{' {
            Token::OpenBrace
        } else if first_char == '}' {
            Token::CloseBrace
        } else if first_char == '[' {
            Token::OpenBracket
        } else if first_char == ']' {
            Token::CloseBracket
        } else if first_char == '.' {
            Token::Dot
        } else if first_char == ',' {
            Token::Comma
        } else if first_char == ':' {
            if self.first() == ':' {
                self.bump();
                Token::Path
            } else {
                Token::Colon
            }
        } else if first_char == ';' {
            Token::Semicolon
        } else if first_char == '=' {
            if self.first() == '=' {
                self.bump();
                Token::Equal
            } else {
                Token::Assign
            }
        } else if first_char == '!' {
            if self.first() == '=' {
                self.bump();
                Token::NotEqual
            } else {
                Token::Not
            }
        } else if first_char == '<' {
            if self.first() == '<' {
                self.bump();
                Token::ShiftLeft
            } else if self.first() == '=' {
                self.bump();
                Token::LessEqual
            } else {
                Token::Less
            }
        } else if first_char == '>' {
            if self.first() == '>' {
                self.bump();
                Token::ShiftRight
            } else if self.first() == '=' {
                self.bump();
                Token::GreaterEqual
            } else {
                Token::Greater
            }
        } else if first_char == '~' {
            Token::BitNot
        } else if first_char == '&' {
            if self.first() == '&' {
                self.bump();
                Token::And
            } else {
                Token::BitAnd
            }
        } else if first_char == '|' {
            if self.first() == '|' {
                self.bump();
                Token::Or
            } else {
                Token::BitOr
            }
        } else if first_char == '^' {
            Token::BitXor
        } else if first_char == '"' {
            proof {
                lemma_string_close_bounds(s.skip(1), 0);
            }
            let raw = self.scan_string_body();
            let text = string_from_chars(&raw);
            match unescape_text(text.as_str()) {
                Some(t) => Token::Literal(Literal::String(t)),
                None => {
                    return None;
                },
            }
        } else if first_char == '+' {
            Token::Plus
        } else if first_char == '-' {
            if self.first() == '>' {
                self.bump();
                Token::Arrow
            } else {
                Token::Minus
            }
        } else if first_char == '*' {
            Token::Star
        } else if first_char == '/' {
            Token::Slash
        } else if first_char == '%' {
            Token::Percent
        } else if is_numeric(first_char) {
            let (text, is_float) = self.scan_number(first_char, Ghost(s), Ghost(pos));
            if is_float {
                if float_ok(&text) {
                    Token::Literal(Literal::Float(string_from_chars(&text)))
                } else {
                    return None;
                }
            } else {
                match parse_int(&text) {
                    Some(v) => Token::Literal(Literal::Int(v)),
                    None => {
                        return None;
                    },
                }
            }
        } else if first_char == '\n' {
            self.pos = Pos { line: self.pos.line + 1, offset: 0 };
            Token::NewLine
        } else if first_char == '\r' && self.first() == '\n' {
            self.skip(1);
            self.pos = Pos { line: self.pos.line + 1, offset: 0 };
            Token::NewLine
        } else if is_xid_start(first_char) {
            let word = self.scan_ident(first_char, Ghost(s), Ghost(pos));
            word_to_token(&word)
        } else if is_whitespace(first_char) {
            Token::Whitespace
        } else {
            Token::Unknown
        };
        Some((token, pos))
    }

    /// Reads the body of a string literal whose opening quote was read:
    /// up to and including the closing quote, or to the end of the input.
    /// Returns the raw text between the quotes.
    fn scan_string_body(&mut self) -> (raw: Vec<char>)
        requires
            old(self).wf(),
        ensures
            final(self).wf(),
            ({
                let t = old(self).rest();
                let close = string_close(t, 0);
                let used = if close < t.len() { close + 1 } else { t.len() as int };
                &&& raw@ == t.subrange(0, close)
                &&& final(self).rest() == t.skip(used)
                &&& final(self).at() == advanced(old(self).at(), used)
            }),
    {
        let ghost t = self.rest();
        let ghost p0 = self.pos;
        let ghost mut j: int = 0;
        let mut raw: Vec<char> = Vec::new();
        proof {
            lemma_string_close_bounds(t, 0);
        }
        loop
            invariant_except_break
                self.wf(),
                0 <= j <= t.len(),
                p0.offset + t.len() < usize::MAX,
                self.rest() == t.skip(j),
                self.at() == advanced(p0, j),
                raw@ == t.subrange(0, j),
                string_close(t, j) == string_close(t, 0),
            ensures
                self.wf(),
                ({
                    let close = string_close(t, 0);
                    let used = if close < t.len() { close + 1 } else { t.len() as int };
                    &&& raw@ == t.subrange(0, close)
                    &&& self.rest() == t.skip(used)
                    &&& self.at() == advanced(p0, used)
                }),
            decreases self.rest().len(),
        {
            match self.bump() {
                None => {
                    assert(j == t.len());
                    break;
                },
                Some(c) => {
                    assert(t[j] == c);
                    if c == '"' {
                        assert(string_close(t, j) == j);
                        proof {
                            j = j + 1;
                        }
                        break;
                    }
                    let f = self.first();
                    if c == '\\' && (f == '\\' || f == '"') {
                        raw.push(c);
                        match self.bump() {
                            Some(c2) => {
                                raw.push(c2);
                            },
                            None => {
                                assert(false);
                            },
                        }
                        proof {
                            j = j + 2;
                        }
                        assert(raw@ == t.subrange(0, j));
                    } else {
                        raw.push(c);
                        proof {
                            j = j + 1;
                        }
                        assert(raw@ == t.subrange(0, j));
                    }
                },
            }
        }
        raw
    }

    /// Reads the rest of a number whose first character `s[0]` was read.
    /// Returns the text of the number and whether it has a dot.
    fn scan_number(&mut self, c: char, Ghost(s): Ghost<Seq<char>>, Ghost(p0): Ghost<Pos>) -> (r: (
        Vec<char>,
        bool,
    ))
        requires
            old(self).wf(),
            s.len() > 0,
            s[0] == c,
            spec_is_numeric(c),
            p0.offset + s.len() < usize::MAX,
            old(self).rest() == s.skip(1),
            old(self).at() == advanced(p0, 1),
        ensures
            final(self).wf(),
            ({
                let end = number_end(s, 1);
                &&& r.0@ == s.subrange(0, end)
                &&& r.1 == s.subrange(0, end).contains('.')
                &&& final(self).rest() == s.skip(end)
                &&& final(self).at() == advanced(p0, end)
            }),
    {
        let mut text: Vec<char> = Vec::new();
        text.push(c);
        let mut is_float = false;
        let ghost mut j: int = 1;
        assert(text@ == s.subrange(0, 1));
        assert(!s.subrange(0, 1).contains('.'));
        loop
            invariant_except_break
                self.wf(),
                1 <= j <= s.len(),
                p0.offset + s.len() < usize::MAX,
                self.rest() == s.skip(j),
                self.at() == advanced(p0, j),
                text@ == s.subrange(0, j),
                is_float == s.subrange(0, j).contains('.'),
                number_end(s, j) == number_end(s, 1),
            ensures
                self.wf(),
                1 <= j <= s.len(),
                j == number_end(s, 1),
                self.rest() == s.skip(j),
                self.at() == advanced(p0, j),
                text@ == s.subrange(0, j),
                is_float == s.subrange(0, j).contains('.'),
            decreases s.len() - j,
        {
            let d = self.first();
            if is_numeric(d) {
                assert(j < s.len());
                self.bump();
                text.push(d);
                proof {
                    assert(s.subrange(0, j + 1) == s.subrange(0, j).push(d));
                    assert(d != '.');
                    j = j + 1;
                }
            } else if d == '.' {
                let e = self.second();
                if !is_numeric(e) {
                    break;
                }
                self.bump();
                is_float = true;
                text.push(d);
                proof {
                    assert(s.subrange(0, j + 1) == s.subrange(0, j).push(d));
                    assert(s.subrange(0, j + 1)[j] == '.');
                    j = j + 1;
                }
            } else {
                break;
            }
        }
        (text, is_float)
    }

    /// Reads the rest of an identifier whose first character `s[0]` was read.
    fn scan_ident(&mut self, c: char, Ghost(s): Ghost<Seq<char>>, Ghost(p0): Ghost<Pos>) -> (r: Vec<
        char,
    >)
        requires
            old(self).wf(),
            s.len() > 0,
            s[0] == c,
            p0.offset + s.len() < usize::MAX,
            old(self).rest() == s.skip(1),
            old(self).at() == advanced(p0, 1),
        ensures
            final(self).wf(),
            ({
                let end = ident_end(s, 1);
                &&& r@ == s.subrange(0, end)
                &&& final(self).rest() == s.skip(end)
                &&& final(self).at() == advanced(p0, end)
            }),
    {
        let mut text: Vec<char> = Vec::new();
        text.push(c);
        let ghost mut j: int = 1;
        assert(text@ == s.subrange(0, 1));
        while is_xid_continue(self.first())
            invariant
                self.wf(),
                1 <= j <= s.len(),
                p0.offset + s.len() < usize::MAX,
                self.rest() == s.skip(j),
                self.at() == advanced(p0, j),
                text@ == s.subrange(0, j),
                ident_end(s, j) == ident_end(s, 1),
            decreases s.len() - j,
        {
            let d = self.first();
            assert(j < s.len());
            self.bump();
            text.push(d);
            proof {
                assert(s.subrange(0, j + 1) == s.subrange(0, j).push(d));
                j = j + 1;
            }
        }
        text
    }
}

} // verus!
