use vstd::prelude::*;
use crate::symbolizer::{Symbol, Symbolizer};
use crate::text::{chars_to_string, join3, str_chars, string_push};

verus! {

#[derive(Debug, Clone, Copy, PartialEq, Eq, Structural)]
pub enum MathOp {
    Minus,
    Plus,
    Slash,
    Star,
    Modulus,
    Exponent,
}

#[derive(Debug, Clone, Copy, PartialEq, Eq, Structural)]
pub enum LogicalOp {
    And,
    Or,
}

#[derive(Debug, Clone, Copy, PartialEq, Eq, Structural)]
pub enum BinOp {
    Greater,
    GreaterEq,
    Less,
    LessEq,
    BangEq,
    EqEq,
    MatchedBy,
    NotMatchedBy,
}

/// A token of an awk program. A number keeps the characters it was written
/// with; turning them into a float is left to the runtime.
#[derive(Debug, Clone, PartialEq)]
pub enum Token {
    Bang,
    Eq,
    MathOp(MathOp),
    BinOp(BinOp),
    InplaceEq(MathOp),
    LogicalOp(LogicalOp),
    Column,
    LeftBrace,
    RightBrace,
    LeftParen,
    RightParen,
    LeftBracket,
    RightBracket,
    Question,
    Colon,
    Comma,
    Semicolon,
    Number(String),
    String(String),
    Regex(String),
    Ident(Symbol),
    True,
    False,
    Ret,
    Function,
    If,
    Else,
    Begin,
    End,
    For,
    While,
    Do,
    Print,
    Printf,
    In,
    Break,
    EOF,
}

/// A token as the lexer's contract speaks of it: text as characters, an
/// identifier by its name; tokens that carry nothing stand for themselves.
pub enum Lexeme {
    Plain(Token),
    Number(Seq<char>),
    Str(Seq<char>),
    Regex(Seq<char>),
    Ident(Seq<char>),
}

impl Token {
    pub open spec fn lexeme(&self) -> Lexeme {
        match self {
            Token::Number(s) => Lexeme::Number(s@),
            Token::String(s) => Lexeme::Str(s@),
            Token::Regex(s) => Lexeme::Regex(s@),
            Token::Ident(sym) => Lexeme::Ident(sym.name()),
            _ => Lexeme::Plain(*self),
        }
    }
}

pub open spec fn lexemes(ts: Seq<Token>) -> Seq<Lexeme> {
    ts.map_values(|t: Token| t.lexeme())
}

/// The name `char::is_alphabetic` gives a character (the Unicode
/// `Alphabetic` property).
pub uninterp spec fn char_is_alphabetic(c: char) -> bool;

/// The name `char::is_alphanumeric` gives a character (`Alphabetic` or
/// `Numeric`).
pub uninterp spec fn char_is_alphanumeric(c: char) -> bool;

/// `char::is_alphabetic`: the character's Unicode `Alphabetic` property,
/// which the ASCII letters have.
#[verifier::external_body]
fn is_alphabetic(c: char) -> (r: bool)
    ensures
        r == char_is_alphabetic(c),
        ('a' <= c <= 'z' || 'A' <= c <= 'Z') ==> r,
{
    c.is_alphabetic()
}

/// `char::is_alphanumeric`: `Alphabetic` or `Numeric`, which the ASCII
/// letters and digits are.
#[verifier::external_body]
fn is_alphanumeric(c: char) -> (r: bool)
    ensures
        r == char_is_alphanumeric(c),
        ('a' <= c <= 'z' || 'A' <= c <= 'Z' || '0' <= c <= '9') ==> r,
{
    c.is_alphanumeric()
}

pub open spec fn is_digit_char(c: char) -> bool {
    '0' <= c && c <= '9'
}

/// The character at `k`, or NUL past the end (what the lexer peeks).
pub open spec fn char_at(src: Seq<char>, k: int) -> char {
    if 0 <= k < src.len() { src[k] } else { '\0' }
}

/// The first position from `j` on that holds `stop`, or the end.
pub open spec fn scan_until(src: Seq<char>, j: int, stop: char) -> int
    decreases src.len() - j,
{
    if j < 0 || j >= src.len() || src[j] == stop { j } else { scan_until(src, j + 1, stop) }
}

/// The first position from `j` on that is not a space, or the end.
pub open spec fn skip_spaces(src: Seq<char>, j: int) -> int
    decreases src.len() - j,
{
    if j < 0 || j >= src.len() || src[j] != ' ' { j } else { skip_spaces(src, j + 1) }
}

/// The first position from `j` on that is not a decimal digit, or the end.
pub open spec fn digits_end(src: Seq<char>, j: int) -> int
    decreases src.len() - j,
{
    if j < 0 || j >= src.len() || !is_digit_char(src[j]) { j } else { digits_end(src, j + 1) }
}

/// The first position from `j` on that cannot continue an identifier.
pub open spec fn ident_end(src: Seq<char>, j: int) -> int
    decreases src.len() - j,
{
    if j < 0 || j >= src.len() || !(char_is_alphanumeric(src[j]) || src[j] == '_') {
        j
    } else {
        ident_end(src, j + 1)
    }
}

/// Where a number that starts with the digit at `i` ends: digits, then a
/// dot and digits when a digit follows the dot.
pub open spec fn number_end(src: Seq<char>, i: int) -> int {
    let a = digits_end(src, i + 1);
    if char_at(src, a) == '.' && is_digit_char(char_at(src, a + 1)) {
        digits_end(src, a + 1)
    } else {
        a
    }
}

pub open spec fn count_newlines(s: Seq<char>) -> nat
    decreases s.len(),
{
    if s.len() == 0 {
        0
    } else {
        (if s.last() == '\n' { 1nat } else { 0nat }) + count_newlines(s.drop_last())
    }
}

pub open spec fn lower_char(c: char) -> char {
    if 'A' <= c && c <= 'Z' { ((c as u32) + 32) as char } else { c }
}

pub open spec fn lower_chars(s: Seq<char>) -> Seq<char> {
    s.map_values(|c: char| lower_char(c))
}

/// A (lower-cased) word as a keyword token, or as an identifier.
pub open spec fn word_lexeme(w: Seq<char>) -> Lexeme {
    if w == "true"@ { Lexeme::Plain(Token::True) }
    else if w == "false"@ { Lexeme::Plain(Token::False) }
    else if w == "return"@ { Lexeme::Plain(Token::Ret) }
    else if w == "function"@ { Lexeme::Plain(Token::Function) }
    else if w == "if"@ { Lexeme::Plain(Token::If) }
    else if w == "else"@ { Lexeme::Plain(Token::Else) }
    else if w == "begin"@ { Lexeme::Plain(Token::Begin) }
    else if w == "for"@ { Lexeme::Plain(Token::For) }
    else if w == "while"@ { Lexeme::Plain(Token::While) }
    else if w == "do"@ { Lexeme::Plain(Token::Do) }
    else if w == "end"@ { Lexeme::Plain(Token::End) }
    else if w == "print"@ { Lexeme::Plain(Token::Print) }
    else if w == "in"@ { Lexeme::Plain(Token::In) }
    else if w == "break"@ { Lexeme::Plain(Token::Break) }
    else if w == "printf"@ { Lexeme::Plain(Token::Printf) }
    else { Lexeme::Ident(w) }
}

/// One step of the lexer at position `i`.
pub enum ScanStep {
    /// Tokens found, the position after them, and the line count there.
    Emit(Seq<Lexeme>, int, nat),
    /// An error message and the line where it arose.
    Fail(Seq<char>, nat),
    /// The lexer would panic here (an unterminated string literal that
    /// starts in the second half of the source).
    Stuck,
}

/// `with_eq` when the next character is `=`, else `plain`.
pub open spec fn op_or_assign(src: Seq<char>, i: int, line: nat, with_eq: Token, plain: Token) -> ScanStep {
    if char_at(src, i + 1) == '=' {
        ScanStep::Emit(seq![Lexeme::Plain(with_eq)], i + 2, line)
    } else {
        ScanStep::Emit(seq![Lexeme::Plain(plain)], i + 1, line)
    }
}

/// A match operator whose last character ends before `k`, and the regular
/// expression literal that may follow it after spaces.
pub open spec fn match_op(src: Seq<char>, k: int, line: nat, op: Token) -> ScanStep {
    let j = skip_spaces(src, k);
    if char_at(src, j) == '/' {
        let e = scan_until(src, j + 1, '/');
        let l2 = line + count_newlines(src.subrange(j + 1, e));
        if e >= src.len() {
            ScanStep::Fail("Unterminated regex: "@ + src.subrange(j, src.len() as int), l2)
        } else {
            ScanStep::Emit(seq![Lexeme::Plain(op), Lexeme::Regex(src.subrange(j + 1, e))], e + 1, l2)
        }
    } else {
        ScanStep::Emit(seq![Lexeme::Plain(op)], j, line)
    }
}

pub open spec fn scan_step(src: Seq<char>, i: int, line: nat) -> ScanStep
    recommends
        0 <= i < src.len(),
{
    let c = src[i];
    let len = src.len() as int;
    if c == '$' { ScanStep::Emit(seq![Lexeme::Plain(Token::Column)], i + 1, line) }
    else if c == '-' { op_or_assign(src, i, line, Token::InplaceEq(MathOp::Minus), Token::MathOp(MathOp::Minus)) }
    else if c == '+' { op_or_assign(src, i, line, Token::InplaceEq(MathOp::Plus), Token::MathOp(MathOp::Plus)) }
    else if c == '*' { op_or_assign(src, i, line, Token::InplaceEq(MathOp::Star), Token::MathOp(MathOp::Star)) }
    else if c == '!' {
        if char_at(src, i + 1) == '~' {
            match_op(src, i + 2, line, Token::BinOp(BinOp::NotMatchedBy))
        } else {
            op_or_assign(src, i, line, Token::BinOp(BinOp::BangEq), Token::Bang)
        }
    }
    else if c == '|' {
        if char_at(src, i + 1) == '|' {
            ScanStep::Emit(seq![Lexeme::Plain(Token::LogicalOp(LogicalOp::Or))], i + 2, line)
        } else {
            ScanStep::Fail("| must be followed by ||"@, line)
        }
    }
    else if c == '&' {
        if char_at(src, i + 1) == '&' {
            ScanStep::Emit(seq![Lexeme::Plain(Token::LogicalOp(LogicalOp::And))], i + 2, line)
        } else {
            ScanStep::Fail("| must be followed by &"@, line)
        }
    }
    else if c == '=' { op_or_assign(src, i, line, Token::BinOp(BinOp::EqEq), Token::Eq) }
    else if c == '<' { op_or_assign(src, i, line, Token::BinOp(BinOp::LessEq), Token::BinOp(BinOp::Less)) }
    else if c == '>' { op_or_assign(src, i, line, Token::BinOp(BinOp::GreaterEq), Token::BinOp(BinOp::Greater)) }
    else if c == '%' { op_or_assign(src, i, line, Token::InplaceEq(MathOp::Modulus), Token::MathOp(MathOp::Modulus)) }
    else if c == '^' { op_or_assign(src, i, line, Token::InplaceEq(MathOp::Exponent), Token::MathOp(MathOp::Exponent)) }
    else if c == '/' {
        if char_at(src, i + 1) == '=' {
            ScanStep::Emit(seq![Lexeme::Plain(Token::InplaceEq(MathOp::Slash))], i + 2, line)
        } else if char_at(src, i + 1) == '/' {
            ScanStep::Emit(Seq::empty(), scan_until(src, i + 2, '\n'), line)
        } else {
            ScanStep::Emit(seq![Lexeme::Plain(Token::MathOp(MathOp::Slash))], i + 1, line)
        }
    }
    else if c == '~' { match_op(src, i + 1, line, Token::BinOp(BinOp::MatchedBy)) }
    else if c == '?' { ScanStep::Emit(seq![Lexeme::Plain(Token::Question)], i + 1, line) }
    else if c == ':' { ScanStep::Emit(seq![Lexeme::Plain(Token::Colon)], i + 1, line) }
    else if c == '{' { ScanStep::Emit(seq![Lexeme::Plain(Token::LeftBrace)], i + 1, line) }
    else if c == '}' { ScanStep::Emit(seq![Lexeme::Plain(Token::RightBrace)], i + 1, line) }
    else if c == '[' { ScanStep::Emit(seq![Lexeme::Plain(Token::LeftBracket)], i + 1, line) }
    else if c == ']' { ScanStep::Emit(seq![Lexeme::Plain(Token::RightBracket)], i + 1, line) }
    else if c == ',' { ScanStep::Emit(seq![Lexeme::Plain(Token::Comma)], i + 1, line) }
    else if c == '(' { ScanStep::Emit(seq![Lexeme::Plain(Token::LeftParen)], i + 1, line) }
    else if c == ')' { ScanStep::Emit(seq![Lexeme::Plain(Token::RightParen)], i + 1, line) }
    else if c == ';' { ScanStep::Emit(seq![Lexeme::Plain(Token::Semicolon)], i + 1, line) }
    else if c == '"' {
        let e = scan_until(src, i + 1, '"');
        let l2 = line + count_newlines(src.subrange(i + 1, e));
        if e >= len {
            if i > len - i {
                ScanStep::Stuck
            } else {
                ScanStep::Fail("Unterminated String: "@ + src.subrange(i, len - i), l2)
            }
        } else {
            ScanStep::Emit(seq![Lexeme::Str(src.subrange(i + 1, e))], e + 1, l2)
        }
    }
    else if c == '\r' || c == '\t' || c == ' ' { ScanStep::Emit(Seq::empty(), i + 1, line) }
    else if c == '\n' { ScanStep::Emit(Seq::empty(), i + 1, line + 1) }
    else if is_digit_char(c) {
        let e = number_end(src, i);
        ScanStep::Emit(seq![Lexeme::Number(src.subrange(i, e))], e, line)
    }
    else if char_is_alphabetic(c) {
        let e = ident_end(src, i + 1);
        ScanStep::Emit(seq![word_lexeme(lower_chars(src.subrange(i, e)))], e, line)
    }
    else {
        ScanStep::Fail("Unexpected token: `"@ + seq![c] + "`"@, line)
    }
}

/// The outcome of lexing a whole program.
pub enum LexOutcome {
    /// The tokens, ending with `EOF`.
    Tokens(Seq<Lexeme>),
    /// An error message and its line (counted from 0).
    Error(Seq<char>, nat),
    /// The lexer would panic.
    Stuck,
}

/// Lexing from position `i` with `line` new lines seen so far.
pub open spec fn lex_from(src: Seq<char>, i: int, line: nat) -> LexOutcome
    decreases src.len() - i,
{
    if i < 0 || i >= src.len() {
        LexOutcome::Tokens(seq![Lexeme::Plain(Token::EOF)])
    } else {
        match scan_step(src, i, line) {
            ScanStep::Emit(ls, next, l2) => if i < next <= src.len() {
                match lex_from(src, next, l2) {
                    LexOutcome::Tokens(rest) => LexOutcome::Tokens(ls + rest),
                    other => other,
                }
            } else {
                LexOutcome::Stuck
            },
            ScanStep::Fail(m, l2) => LexOutcome::Error(m, l2),
            ScanStep::Stuck => LexOutcome::Stuck,
        }
    }
}

/// What lexing a whole program gives.
pub open spec fn lex_spec(src: Seq<char>) -> LexOutcome {
    lex_from(src, 0, 0)
}


/// A program that lexes gives tokens that end with `EOF`, and with no
/// other `EOF` before it.
pub proof fn law_tokens_end_with_eof(src: Seq<char>, i: int, line: nat)
    ensures
        lex_from(src, i, line) matches LexOutcome::Tokens(ls) ==> {
            &&& ls.len() >= 1
            &&& ls.last() == Lexeme::Plain(Token::EOF)
            &&& forall|k: int| 0 <= k < ls.len() - 1 ==> #[trigger] ls[k] != Lexeme::Plain(Token::EOF)
        },
    decreases src.len() - i,
{
    if 0 <= i < src.len() {
        if let ScanStep::Emit(ls, next, l2) = scan_step(src, i, line) {
            if i < next <= src.len() {
                law_tokens_end_with_eof(src, next, l2);
                if let LexOutcome::Tokens(rest) = lex_from(src, next, l2) {
                    lemma_step_emits_no_eof(src, i, line);
                    let all = ls + rest;
                    assert forall|k: int| 0 <= k < all.len() - 1 implies #[trigger] all[k] != Lexeme::Plain(Token::EOF) by {
                        if k < ls.len() {
                            assert(all[k] == ls[k]);
                        } else {
                            assert(all[k] == rest[k - ls.len()]);
                        }
                    }
                }
            }
        }
    }
}

/// No single step of the lexer emits `EOF`.
proof fn lemma_step_emits_no_eof(src: Seq<char>, i: int, line: nat)
    requires
        0 <= i < src.len(),
    ensures
        scan_step(src, i, line) matches ScanStep::Emit(ls, _, _) ==>
            forall|k: int| 0 <= k < ls.len() ==> #[trigger] ls[k] != Lexeme::Plain(Token::EOF),
{
    let c = src[i];
    if char_is_alphabetic(c) && !is_digit_char(c) {
        let e = ident_end(src, i + 1);
        let w = lower_chars(src.subrange(i, e));
        assert(word_lexeme(w) != Lexeme::Plain(Token::EOF));
    }
}

/// Every identifier among `ts` was handed out by `z`.
pub open spec fn idents_issued(ts: Seq<Token>, z: Symbolizer) -> bool {
    forall|i: int| 0 <= i < ts.len() ==> (#[trigger] ts[i] matches Token::Ident(s) ==> z.issued(s))
}

/// `after` knows every name `before` knew, under the same id.
pub open spec fn names_grow(before: Seq<Seq<char>>, after: Seq<Seq<char>>) -> bool {
    &&& before.len() <= after.len()
    &&& forall|i: int| 0 <= i < before.len() ==> after[i] == before[i]
}

proof fn lemma_idents_stay_issued(ts: Seq<Token>, a: Symbolizer, b: Symbolizer)
    requires
        idents_issued(ts, a),
        names_grow(a.names(), b.names()),
    ensures
        idents_issued(ts, b),
{
    assert forall|i: int| 0 <= i < ts.len() implies (#[trigger] ts[i] matches Token::Ident(s) ==> b.issued(s)) by {
        if let Token::Ident(s) = ts[i] {
            assert(a.issued(s));
        }
    }
}

proof fn lemma_count_newlines_push(s: Seq<char>, a: int, k: int)
    requires
        0 <= a <= k < s.len(),
    ensures
        count_newlines(s.subrange(a, k + 1)) == count_newlines(s.subrange(a, k)) + (if s[k] == '\n' { 1nat } else { 0nat }),
{
    assert(s.subrange(a, k + 1).drop_last() =~= s.subrange(a, k));
}

fn is_digit(c: char) -> (r: bool)
    ensures
        r == is_digit_char(c),
{
    '0' <= c && c <= '9'
}

fn to_lower_char(c: char) -> (r: char)
    ensures
        r == lower_char(c),
{
    if 'A' <= c && c <= 'Z' {
        let b = c as u8;
        assert(b == c as u32);
        ((b + 32) as u8) as char
    } else {
        c
    }
}

/// Whether the characters `w` spell `word`.
pub(crate) fn eq_word(w: &Vec<char>, word: &str) -> (r: bool)
    ensures
        r == (w@ == word@),
{
    let v = str_chars(word);
    if v.len() != w.len() {
        return false;
    }
    let mut i: usize = 0;
    while i < v.len()
        invariant
            v@ == word@,
            v@.len() == w@.len(),
            0 <= i <= v@.len(),
            forall|k: int| 0 <= k < i ==> w@[k] == v@[k],
        decreases v@.len() - i,
    {
        if v[i] != w[i] {
            return false;
        }
        i = i + 1;
    }
    assert(w@ =~= v@);
    true
}

struct Lexer {
    src: Vec<char>,
    start: usize,
    current: usize,
    line: usize,
    tokens: Vec<Token>,
}

impl Lexer {
    spec fn wf(&self) -> bool {
        &&& self.start <= self.current <= self.src@.len()
        &&& self.src@.len() < usize::MAX
        &&& self.line <= self.current
    }

    fn new(src: &str) -> (l: Lexer)
        requires
            src@.len() < usize::MAX,
        ensures
            l.wf(),
            l.src@ == src@,
            l.start == 0,
            l.current == 0,
            l.line == 0,
            l.tokens@ == Seq::<Token>::empty(),
    {
        Lexer { src: str_chars(src), start: 0, current: 0, line: 0, tokens: Vec::new() }
    }

    fn is_at_end(&self) -> (r: bool)
        ensures
            r == (self.current >= self.src@.len()),
    {
        self.current >= self.src.len()
    }

    fn advance(&mut self) -> (c: char)
        requires
            old(self).wf(),
            old(self).current < old(self).src@.len(),
        ensures
            c == old(self).src@[old(self).current as int],
            *final(self) == (Lexer { current: (old(self).current + 1) as usize, ..*old(self) }),
    {
        let x = self.src[self.current];
        self.current = self.current + 1;
        x
    }

    fn add_token(&mut self, tt: Token)
        ensures
            *final(self) == (Lexer { tokens: final(self).tokens, ..*old(self) }),
            final(self).tokens@ == old(self).tokens@.push(tt),
    {
        self.tokens.push(tt);
    }

    fn peek(&self) -> (c: char)
        ensures
            c == char_at(self.src@, self.current as int),
    {
        if self.current < self.src.len() { self.src[self.current] } else { '\0' }
    }

    fn peek_next(&self) -> (c: char)
        requires
            self.current < usize::MAX,
        ensures
            c == char_at(self.src@, self.current + 1),
    {
        if self.current + 1 < self.src.len() { self.src[self.current + 1] } else { '\0' }
    }

    fn matches(&mut self, expected: char) -> (r: bool)
        requires
            old(self).wf(),
        ensures
            final(self).wf(),
            r == (old(self).current < old(self).src@.len() && old(self).src@[old(self).current as int] == expected),
            *final(self) == (Lexer { current: (if r { old(self).current + 1 } else { old(self).current as int }) as usize, ..*old(self) }),
    {
        if self.is_at_end() {
            return false;
        }
        if self.src[self.current] == expected {
            self.current = self.current + 1;
            return true;
        }
        false
    }

    fn whitespaces(&mut self)
        requires
            old(self).wf(),
        ensures
            old(self).current <= final(self).current,
            final(self).wf(),
            *final(self) == (Lexer { current: final(self).current, ..*old(self) }),
            final(self).current == skip_spaces(old(self).src@, old(self).current as int),
    {
        loop
            invariant
                self.wf(),
                *self == (Lexer { current: self.current, ..*old(self) }),
                old(self).current <= self.current,
                skip_spaces(self.src@, self.current as int) == skip_spaces(old(self).src@, old(self).current as int),
            ensures
                skip_spaces(self.src@, self.current as int) == self.current,
            decreases self.src@.len() - self.current,
        {
            if !self.matches(' ') {
                break;
            }
        }
    }

    /// Scans a string literal whose opening quote is at `start`.
    /// `Err(None)` stands for an unterminated literal whose message would
    /// take a slice that ends before it starts.
    fn string(&mut self) -> (r: Result<(), Option<String>>)
        requires
            old(self).wf(),
            old(self).current == old(self).start + 1,
            old(self).src@[old(self).start as int] == '"',
        ensures
            old(self).current <= final(self).current,
            final(self).wf(),
            final(self).src == old(self).src,
            final(self).start == old(self).start,
            ({
                let src = old(self).src@;
                let i = old(self).start as int;
                let e = scan_until(src, i + 1, '"');
                let l2 = old(self).line + count_newlines(src.subrange(i + 1, e));
                &&& final(self).line == l2
                &&& e >= src.len() ==> if i > src.len() - i {
                    r matches Err(None)
                } else {
                    r matches Err(Some(m)) && m@ == "Unterminated String: "@ + src.subrange(i, src.len() - i)
                }
                &&& e >= src.len() ==> final(self).tokens == old(self).tokens
                &&& e < src.len() ==> r is Ok && final(self).current == e + 1
                    && lexemes(final(self).tokens@) == lexemes(old(self).tokens@).push(Lexeme::Str(src.subrange(i + 1, e)))
                    && (forall|k: int| 0 <= k < old(self).tokens@.len() ==> final(self).tokens@[k] == old(self).tokens@[k])
                    && final(self).tokens@.len() == old(self).tokens@.len() + 1
                    && final(self).tokens@.last() is String
            }),
    {
        let ghost src = self.src@;
        let ghost i = self.start as int;
        let ghost e = scan_until(src, i + 1, '"');
        let ghost line0 = self.line as nat;
        assert(src.subrange(i + 1, i + 1) =~= Seq::<char>::empty());
        while self.peek() != '"' && !self.is_at_end()
            invariant
                self.wf(),
                self.src == old(self).src,
                self.src@ == src,
                self.start == i,
                self.tokens == old(self).tokens,
                i + 1 <= self.current,
                scan_until(src, self.current as int, '"') == e,
                self.line == line0 + count_newlines(src.subrange(i + 1, self.current as int)),
            decreases src.len() - self.current,
        {
            proof {
                lemma_count_newlines_push(src, i + 1, self.current as int);
            }
            let c = self.advance();
            if c == '\n' {
                self.line = self.line + 1;
            }
        }
        if self.is_at_end() {
            let n = self.src.len();
            if self.start > n - self.start {
                return Err(None);
            }
            let string = chars_to_string(&self.src, self.start, n - self.start);
            let msg = join3("Unterminated String: ", &string, "");
            proof {
                reveal_strlit("");
                assert(msg@ =~= "Unterminated String: "@ + src.subrange(i, src.len() - i));
            }
            return Err(Some(msg));
        }
        self.advance();
        let str = chars_to_string(&self.src, self.start + 1, self.current - 1);
        self.add_token(Token::String(str));
        proof {
            assert(lexemes(self.tokens@) =~= lexemes(old(self).tokens@).push(Lexeme::Str(src.subrange(i + 1, e))));
        }
        Ok(())
    }

    /// Scans a regular expression literal whose opening slash is at `start`.
    fn regex(&mut self) -> (r: Result<(), String>)
        requires
            old(self).wf(),
            old(self).current == old(self).start + 1,
            old(self).src@[old(self).start as int] == '/',
        ensures
            old(self).current <= final(self).current,
            final(self).wf(),
            final(self).src == old(self).src,
            final(self).start == old(self).start,
            ({
                let src = old(self).src@;
                let i = old(self).start as int;
                let e = scan_until(src, i + 1, '/');
                let l2 = old(self).line + count_newlines(src.subrange(i + 1, e));
                &&& final(self).line == l2
                &&& e >= src.len() ==> (r matches Err(m) && m@ == "Unterminated regex: "@ + src.subrange(i, src.len() as int))
                &&& e >= src.len() ==> final(self).tokens == old(self).tokens
                &&& e < src.len() ==> r is Ok && final(self).current == e + 1
                    && lexemes(final(self).tokens@) == lexemes(old(self).tokens@).push(Lexeme::Regex(src.subrange(i + 1, e)))
                    && (forall|k: int| 0 <= k < old(self).tokens@.len() ==> final(self).tokens@[k] == old(self).tokens@[k])
                    && final(self).tokens@.len() == old(self).tokens@.len() + 1
                    && final(self).tokens@.last() is Regex
            }),
    {
        let ghost src = self.src@;
        let ghost i = self.start as int;
        let ghost e = scan_until(src, i + 1, '/');
        let ghost line0 = self.line as nat;
        assert(src.subrange(i + 1, i + 1) =~= Seq::<char>::empty());
        while self.peek() != '/' && !self.is_at_end()
            invariant
                self.wf(),
                self.src == old(self).src,
                self.src@ == src,
                self.start == i,
                self.tokens == old(self).tokens,
                i + 1 <= self.current,
                scan_until(src, self.current as int, '/') == e,
                self.line == line0 + count_newlines(src.subrange(i + 1, self.current as int)),
            decreases src.len() - self.current,
        {
            proof {
                lemma_count_newlines_push(src, i + 1, self.current as int);
            }
            let c = self.advance();
            if c == '\n' {
                self.line = self.line + 1;
            }
        }
        if self.is_at_end() {
            let n = self.src.len();
            let string = chars_to_string(&self.src, self.start, n);
            let msg = join3("Unterminated regex: ", &string, "");
            proof {
                reveal_strlit("");
                assert(msg@ =~= "Unterminated regex: "@ + src.subrange(i, src.len() as int));
            }
            return Err(msg);
        }
        self.advance();
        let regex = chars_to_string(&self.src, self.start + 1, self.current - 1);
        self.add_token(Token::Regex(regex));
        proof {
            assert(lexemes(self.tokens@) =~= lexemes(old(self).tokens@).push(Lexeme::Regex(src.subrange(i + 1, e))));
        }
        Ok(())
    }

    /// Scans a number whose first digit is at `start`.
    fn number(&mut self) -> (t: Token)
        requires
            old(self).wf(),
            old(self).current == old(self).start + 1,
            is_digit_char(old(self).src@[old(self).start as int]),
        ensures
            old(self).current <= final(self).current,
            final(self).wf(),
            *final(self) == (Lexer { current: final(self).current, ..*old(self) }),
            final(self).current == number_end(old(self).src@, old(self).start as int),
            t.lexeme() == Lexeme::Number(old(self).src@.subrange(old(self).start as int, final(self).current as int)),
    {
        let ghost src = self.src@;
        let ghost a = digits_end(src, self.start + 1);
        while is_digit(self.peek())
            invariant
                self.wf(),
                *self == (Lexer { current: self.current, ..*old(self) }),
                src == self.src@,
                old(self).start + 1 <= self.current,
                digits_end(src, self.current as int) == a,
            decreases src.len() - self.current,
        {
            assert(self.current < self.src@.len());
            self.advance();
        }
        if self.peek() == '.' && is_digit(self.peek_next()) {
            self.advance();
        }
        let ghost b = digits_end(src, self.current as int);
        while is_digit(self.peek())
            invariant
                self.wf(),
                *self == (Lexer { current: self.current, ..*old(self) }),
                src == self.src@,
                old(self).start + 1 <= self.current,
                digits_end(src, self.current as int) == b,
            decreases src.len() - self.current,
        {
            assert(self.current < self.src@.len());
            self.advance();
        }
        Token::Number(chars_to_string(&self.src, self.start, self.current))
    }

    /// Scans a word whose first letter is at `start`: a keyword, or an
    /// identifier interned in `symbolizer`. Words are case-insensitive.
    fn identifier(&mut self, symbolizer: &mut Symbolizer)
        requires
            old(self).wf(),
            old(self).current == old(self).start + 1,
            old(symbolizer).wf(),
            idents_issued(old(self).tokens@, *old(symbolizer)),
        ensures
            old(self).current <= final(self).current,
            final(self).wf(),
            final(self).src == old(self).src,
            final(self).start == old(self).start,
            final(self).line == old(self).line,
            final(self).current == ident_end(old(self).src@, old(self).start + 1),
            lexemes(final(self).tokens@) == lexemes(old(self).tokens@).push(
                word_lexeme(lower_chars(old(self).src@.subrange(old(self).start as int, final(self).current as int)))),
            final(symbolizer).wf(),
            names_grow(old(symbolizer).names(), final(symbolizer).names()),
            idents_issued(final(self).tokens@, *final(symbolizer)),
    {
        let ghost src = self.src@;
        let ghost e = ident_end(src, self.start + 1);
        while !self.is_at_end() && (is_alphanumeric(self.peek()) || self.peek() == '_')
            invariant
                self.wf(),
                *self == (Lexer { current: self.current, ..*old(self) }),
                src == self.src@,
                old(self).start + 1 <= self.current,
                ident_end(src, self.current as int) == e,
            decreases src.len() - self.current,
        {
            assert(self.current < self.src@.len());
            self.advance();
        }
        let mut word: Vec<char> = Vec::new();
        let mut k = self.start;
        while k < self.current
            invariant
                self.wf(),
                self.start <= k <= self.current,
                word@ == lower_chars(src.subrange(self.start as int, k as int)),
                self.src@ == src,
            decreases self.current - k,
        {
            word.push(to_lower_char(self.src[k]));
            k = k + 1;
            assert(word@ =~= lower_chars(src.subrange(self.start as int, k as int)));
        }
        let ghost w = word@;
        let ghost old_tokens = self.tokens@;
        let ghost z0 = *symbolizer;
        proof {
            reveal_strlit("true");
            reveal_strlit("false");
            reveal_strlit("return");
            reveal_strlit("function");
            reveal_strlit("if");
            reveal_strlit("else");
            reveal_strlit("begin");
            reveal_strlit("for");
            reveal_strlit("while");
            reveal_strlit("do");
            reveal_strlit("end");
            reveal_strlit("print");
            reveal_strlit("in");
            reveal_strlit("break");
            reveal_strlit("printf");
        }
        let tok = if eq_word(&word, "true") {
            Token::True
        } else if eq_word(&word, "false") {
            Token::False
        } else if eq_word(&word, "return") {
            Token::Ret
        } else if eq_word(&word, "function") {
            Token::Function
        } else if eq_word(&word, "if") {
            Token::If
        } else if eq_word(&word, "else") {
            Token::Else
        } else if eq_word(&word, "begin") {
            Token::Begin
        } else if eq_word(&word, "for") {
            Token::For
        } else if eq_word(&word, "while") {
            Token::While
        } else if eq_word(&word, "do") {
            Token::Do
        } else if eq_word(&word, "end") {
            Token::End
        } else if eq_word(&word, "print") {
            Token::Print
        } else if eq_word(&word, "in") {
            Token::In
        } else if eq_word(&word, "break") {
            Token::Break
        } else if eq_word(&word, "printf") {
            Token::Printf
        } else {
            let n = word.len();
            let name = chars_to_string(&word, 0, n);
            assert(name@ =~= w);
            let sym = symbolizer.get_from_string(name);
            Token::Ident(sym)
        };
        assert(tok.lexeme() == word_lexeme(w));
        proof {
            assert(names_grow(z0.names(), symbolizer.names()));
            lemma_idents_stay_issued(old_tokens, z0, *symbolizer);
        }
        self.add_token(tok);
        assert(lexemes(self.tokens@) =~= lexemes(old_tokens).push(word_lexeme(w)));
        proof {
            assert forall|j: int| 0 <= j < self.tokens@.len() implies
                (#[trigger] self.tokens@[j] matches Token::Ident(s) ==> symbolizer.issued(s)) by {
                if j < old_tokens.len() {
                    assert(self.tokens@[j] == old_tokens[j]);
                }
            }
        }
    }

    /// Scans the token that starts at `current`.
    /// `Err(None)` where `scan_step` is stuck.
    fn scan_token(&mut self, symbolizer: &mut Symbolizer) -> (r: Result<(), Option<String>>)
        requires
            old(self).wf(),
            old(self).start == old(self).current,
            old(self).current < old(self).src@.len(),
            old(symbolizer).wf(),
            idents_issued(old(self).tokens@, *old(symbolizer)),
        ensures
            final(self).wf(),
            final(self).src == old(self).src,
            final(symbolizer).wf(),
            names_grow(old(symbolizer).names(), final(symbolizer).names()),
            idents_issued(final(self).tokens@, *final(symbolizer)),
            r is Ok ==> old(self).current < final(self).current,
            match scan_step(old(self).src@, old(self).current as int, old(self).line as nat) {
                ScanStep::Emit(ls, next, l2) => r is Ok && final(self).current == next && final(self).line == l2
                    && lexemes(final(self).tokens@) == lexemes(old(self).tokens@) + ls,
                ScanStep::Fail(m, l2) => r matches Err(Some(e)) && e@ == m && final(self).line == l2,
                ScanStep::Stuck => r matches Err(None),
            },
    {
        let ghost src = self.src@;
        let ghost i = self.current as int;
        let ghost t0 = self.tokens@;
        let ghost z0 = *symbolizer;
        let ghost mut ident_path = false;
        let c = self.advance();
        proof {
            assert(lexemes(t0) + Seq::<Lexeme>::empty() =~= lexemes(t0));
        }
        match c {
            '$' => self.add_token(Token::Column),
            '-' => {
                if self.matches('=') {
                    self.add_token(Token::InplaceEq(MathOp::Minus));
                } else {
                    self.add_token(Token::MathOp(MathOp::Minus));
                }
            }
            '+' => {
                if self.matches('=') {
                    self.add_token(Token::InplaceEq(MathOp::Plus));
                } else {
                    self.add_token(Token::MathOp(MathOp::Plus));
                }
            }
            '*' => {
                if self.matches('=') {
                    self.add_token(Token::InplaceEq(MathOp::Star));
                } else {
                    self.add_token(Token::MathOp(MathOp::Star));
                }
            }
            '!' => {
                if self.matches('~') {
                    self.add_token(Token::BinOp(BinOp::NotMatchedBy));
                    self.whitespaces();
                    self.start = self.current;
                    assert(self.start == skip_spaces(src, i + 2));
                    if self.matches('/') {
                        proof {
                            assert forall|j: int| 0 <= j < self.tokens@.len() implies
                                (#[trigger] self.tokens@[j] matches Token::Ident(s) ==> symbolizer.issued(s)) by {
                                if j < t0.len() {
                                    assert(self.tokens@[j] == t0[j]);
                                }
                            }
                        }
                        let rr = self.regex();
                        if let Err(m) = rr {
                            let ghost j = skip_spaces(src, i + 2);
                            assert(char_at(src, j) == '/');
                            assert(scan_step(src, i, old(self).line as nat) == match_op(src, i + 2, old(self).line as nat, Token::BinOp(BinOp::NotMatchedBy)));
                            return Err(Some(m));
                        }
                    }
                } else {
                    let token = if self.matches('=') { Token::BinOp(BinOp::BangEq) } else { Token::Bang };
                    self.add_token(token);
                }
            }
            '|' => {
                if self.matches('|') {
                    self.add_token(Token::LogicalOp(LogicalOp::Or));
                } else {
                    return Err(Some(String::from_str("| must be followed by ||")));
                }
            }
            '&' => {
                if self.matches('&') {
                    self.add_token(Token::LogicalOp(LogicalOp::And));
                } else {
                    return Err(Some(String::from_str("| must be followed by &")));
                }
            }
            '=' => {
                let tt = if self.matches('=') { Token::BinOp(BinOp::EqEq) } else { Token::Eq };
                self.add_token(tt);
            }
            '<' => {
                let tt = if self.matches('=') { Token::BinOp(BinOp::LessEq) } else { Token::BinOp(BinOp::Less) };
                self.add_token(tt);
            }
            '>' => {
                let tt = if self.matches('=') { Token::BinOp(BinOp::GreaterEq) } else { Token::BinOp(BinOp::Greater) };
                self.add_token(tt);
            }
            '%' => {
                if self.matches('=') {
                    self.add_token(Token::InplaceEq(MathOp::Modulus));
                } else {
                    self.add_token(Token::MathOp(MathOp::Modulus));
                }
            }
            '^' => {
                if self.matches('=') {
                    self.add_token(Token::InplaceEq(MathOp::Exponent));
                } else {
                    self.add_token(Token::MathOp(MathOp::Exponent));
                }
            }
            '/' => {
                if self.matches('=') {
                    self.add_token(Token::InplaceEq(MathOp::Slash));
                } else if self.matches('/') {
                    while self.peek() != '\n' && !self.is_at_end()
                        invariant
                            self.wf(),
                            self.src == old(self).src,
                            src == self.src@,
                            self.tokens@ == t0,
                            self.line == old(self).line,
                            i + 2 <= self.current,
                            scan_until(src, self.current as int, '\n') == scan_until(src, i + 2, '\n'),
                        decreases src.len() - self.current,
                    {
                        self.advance();
                    }
                } else {
                    self.add_token(Token::MathOp(MathOp::Slash));
                }
            }
            '~' => {
                self.add_token(Token::BinOp(BinOp::MatchedBy));
                self.whitespaces();
                self.start = self.current;
                if self.matches('/') {
                    proof {
                        assert forall|j: int| 0 <= j < self.tokens@.len() implies
                            (#[trigger] self.tokens@[j] matches Token::Ident(s) ==> symbolizer.issued(s)) by {
                            if j < t0.len() {
                                assert(self.tokens@[j] == t0[j]);
                            }
                        }
                    }
                    if let Err(m) = self.regex() {
                        return Err(Some(m));
                    }
                }
            }
            '?' => self.add_token(Token::Question),
            ':' => self.add_token(Token::Colon),
            '{' => self.add_token(Token::LeftBrace),
            '}' => self.add_token(Token::RightBrace),
            '[' => self.add_token(Token::LeftBracket),
            ']' => self.add_token(Token::RightBracket),
            ',' => self.add_token(Token::Comma),
            '(' => self.add_token(Token::LeftParen),
            ')' => self.add_token(Token::RightParen),
            ';' => self.add_token(Token::Semicolon),
            '"' => {
                if let Err(e) = self.string() {
                    return Err(e);
                }
            }
            '\r' => {}
            '\t' => {}
            ' ' => {}
            '\n' => self.line = self.line + 1,
            _ => {
                if is_digit(c) {
                    let num = self.number();
                    self.add_token(num);
                } else if is_alphabetic(c) {
                    self.identifier(symbolizer);
                    proof {
                        ident_path = true;
                    }
                } else {
                    let mut one = String::new();
                    string_push(&mut one, c);
                    let msg = join3("Unexpected token: `", &one, "`");
                    proof {
                        assert(one@ =~= seq![c]);
                    }
                    return Err(Some(msg));
                }
            }
        }
        proof {
            if !(c == '"' || (c != '$' && c != '-' && c != '+' && c != '*' && c != '!' && c != '|' && c != '&'
                && c != '=' && c != '<' && c != '>' && c != '%' && c != '^' && c != '/' && c != '~'
                && c != '?' && c != ':' && c != '{' && c != '}' && c != '[' && c != ']' && c != ','
                && c != '(' && c != ')' && c != ';' && c != '\r' && c != '\t' && c != ' ' && c != '\n'
                && !is_digit_char(c))) {
                assert(*symbolizer == z0);
            }
            if !ident_path {
                assert forall|j: int| 0 <= j < self.tokens@.len() implies
                    (#[trigger] self.tokens@[j] matches Token::Ident(s) ==> symbolizer.issued(s)) by {
                    if j < t0.len() {
                        assert(self.tokens@[j] == t0[j]);
                    }
                }
            }
        }
        Ok(())
    }

    /// Scans the whole source.
    fn scan_tokens(&mut self, symbolizer: &mut Symbolizer) -> (r: Option<Result<Vec<Token>, (String, usize)>>)
        requires
            old(self).wf(),
            old(self).start == 0,
            old(self).current == 0,
            old(self).line == 0,
            old(self).tokens@ == Seq::<Token>::empty(),
            old(symbolizer).wf(),
        ensures
            final(symbolizer).wf(),
            names_grow(old(symbolizer).names(), final(symbolizer).names()),
            match lex_spec(old(self).src@) {
                LexOutcome::Tokens(ls) => r matches Some(Ok(ts)) && lexemes(ts@) == ls
                    && idents_issued(ts@, *final(symbolizer)),
                LexOutcome::Error(m, l) => r matches Some(Err(e)) && e.0@ == m && e.1 == l,
                LexOutcome::Stuck => r is None,
            },
    {
        let ghost src = self.src@;
        let ghost z0 = *symbolizer;
        assert(lexemes(self.tokens@) =~= Seq::<Lexeme>::empty());
        proof {
            match lex_from(src, 0, 0) {
                LexOutcome::Tokens(rest) => assert(Seq::<Lexeme>::empty() + rest =~= rest),
                _ => {},
            }
        }
        while !self.is_at_end()
            invariant
                self.wf(),
                self.start == self.current,
                self.src@ == src,
                src == old(self).src@,
                z0 == *old(symbolizer),
                symbolizer.wf(),
                names_grow(z0.names(), symbolizer.names()),
                idents_issued(self.tokens@, *symbolizer),
                lex_spec(src) == (match lex_from(src, self.current as int, self.line as nat) {
                    LexOutcome::Tokens(rest) => LexOutcome::Tokens(lexemes(self.tokens@) + rest),
                    other => other,
                }),
            decreases src.len() - self.current,
        {
            let ghost cur = self.current as int;
            let ghost ln = self.line as nat;
            let ghost toks = lexemes(self.tokens@);
            let ghost zb = *symbolizer;
            let res = self.scan_token(symbolizer);
            proof {
                if let ScanStep::Emit(ls, next, l2) = scan_step(src, cur, ln) {
                    match lex_from(src, next, l2) {
                        LexOutcome::Tokens(rest) => assert(toks + (ls + rest) =~= (toks + ls) + rest),
                        _ => {},
                    }
                }
                assert forall|i: int| 0 <= i < z0.names().len() implies symbolizer.names()[i] == z0.names()[i] by {
                    assert(zb.names()[i] == z0.names()[i]);
                }
            }
            match res {
                Err(Some(x)) => {
                    return Some(Err((x, self.line)));
                }
                Err(None) => {
                    return None;
                }
                Ok(()) => {}
            }
            self.start = self.current;
        }
        self.tokens.push(Token::EOF);
        let mut out: Vec<Token> = Vec::new();
        std::mem::swap(&mut out, &mut self.tokens);
        proof {
            assert(lexemes(out@) =~= lexemes(out@.drop_last()).push(Lexeme::Plain(Token::EOF)));
            assert forall|j: int| 0 <= j < out@.len() implies
                (#[trigger] out@[j] matches Token::Ident(s) ==> symbolizer.issued(s)) by {
                if j < out@.len() - 1 {
                    assert(out@[j] == out@.drop_last()[j]);
                }
            }
        }
        Some(Ok(out))
    }
} // impl

/// The tokens of an awk program, ending with `EOF`, or an error message and
/// the line (counted from 0) where it arose. Identifiers are interned in
/// `symbolizer`. `None` where the source holds an unterminated string
/// literal that starts past its middle, on which `lex` has no answer.
pub fn try_lex(str: &str, symbolizer: &mut Symbolizer) -> (r: Option<Result<Vec<Token>, (String, usize)>>)
    requires
        old(symbolizer).wf(),
        str@.len() < usize::MAX,
    ensures
        final(symbolizer).wf(),
        names_grow(old(symbolizer).names(), final(symbolizer).names()),
        match lex_spec(str@) {
            LexOutcome::Tokens(ls) => r matches Some(Ok(ts)) && lexemes(ts@) == ls
                && idents_issued(ts@, *final(symbolizer)),
            LexOutcome::Error(m, l) => r matches Some(Err(e)) && e.0@ == m && e.1 == l,
            LexOutcome::Stuck => r is None,
        },
{
    let mut lexer = Lexer::new(str);
    lexer.scan_tokens(symbolizer)
}

/// The tokens of an awk program, ending with `EOF`, or an error message and
/// the line (counted from 0) where it arose. Identifiers are interned in
/// `symbolizer`.
pub fn lex(str: &str, symbolizer: &mut Symbolizer) -> (r: Result<Vec<Token>, (String, usize)>)
    requires
        old(symbolizer).wf(),
        str@.len() < usize::MAX,
        !(lex_spec(str@) is Stuck),
    ensures
        final(symbolizer).wf(),
        names_grow(old(symbolizer).names(), final(symbolizer).names()),
        match lex_spec(str@) {
            LexOutcome::Tokens(ls) => r matches Ok(ts) && lexemes(ts@) == ls
                && idents_issued(ts@, *final(symbolizer)),
            LexOutcome::Error(m, l) => r matches Err(e) && e.0@ == m && e.1 == l,
            LexOutcome::Stuck => false,
        },
{
    match try_lex(str, symbolizer) {
        Some(r) => r,
        None => {
            assert(false);
            Err((String::new(), 0))
        }
    }
}

} // verus!
