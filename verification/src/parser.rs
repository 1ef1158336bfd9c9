use vstd::prelude::*;
use crate::lexer::{BinOp, LogicalOp, MathOp, Token, Lexeme, lexemes, names_grow, LexOutcome, ScanStep, lex_spec, lex_from, scan_step};
use crate::symbolizer::{Symbol, Symbolizer};
use crate::printable_error::PrintableError;
use crate::text::join3;
use crate::types::ScalarType;

verus! {

/// The kind of a token, without what it carries.
#[derive(Debug, Clone, Copy, PartialEq, Eq, Structural)]
pub enum TokenType {
    Bang, Eq, Minus, Plus, Slash, Star, Modulo, Exponent,
    Greater, GreaterEq, Less, LessEq, BangEq, EqEq, MatchedBy, NotMatchedBy,
    InplaceAssign, And, Or, Column, LeftBrace, RightBrace, LeftParen, RightParen,
    LeftBracket, RightBracket, Question, Colon, Comma, Semicolon,
    Number, String, Regex, Ident, True, False, Ret, Function, If, Else, Begin, End,
    For, While, Do, Print, Printf, In, Break, EOF,
}

pub open spec fn math_tt(m: MathOp) -> TokenType {
    match m {
        MathOp::Minus => TokenType::Minus,
        MathOp::Plus => TokenType::Plus,
        MathOp::Slash => TokenType::Slash,
        MathOp::Star => TokenType::Star,
        MathOp::Modulus => TokenType::Modulo,
        MathOp::Exponent => TokenType::Exponent,
    }
}

pub open spec fn bin_tt(b: BinOp) -> TokenType {
    match b {
        BinOp::Greater => TokenType::Greater,
        BinOp::GreaterEq => TokenType::GreaterEq,
        BinOp::Less => TokenType::Less,
        BinOp::LessEq => TokenType::LessEq,
        BinOp::BangEq => TokenType::BangEq,
        BinOp::EqEq => TokenType::EqEq,
        BinOp::MatchedBy => TokenType::MatchedBy,
        BinOp::NotMatchedBy => TokenType::NotMatchedBy,
    }
}

/// The kind of a lexeme.
#[verifier::opaque]
pub open spec fn tt(l: Lexeme) -> TokenType {
    match l {
        Lexeme::Number(_) => TokenType::Number,
        Lexeme::Str(_) => TokenType::String,
        Lexeme::Regex(_) => TokenType::Regex,
        Lexeme::Ident(_) => TokenType::Ident,
        Lexeme::Plain(t) => match t {
            Token::Bang => TokenType::Bang,
            Token::Eq => TokenType::Eq,
            Token::MathOp(m) => math_tt(m),
            Token::BinOp(b) => bin_tt(b),
            Token::InplaceEq(_) => TokenType::InplaceAssign,
            Token::LogicalOp(LogicalOp::And) => TokenType::And,
            Token::LogicalOp(LogicalOp::Or) => TokenType::Or,
            Token::Column => TokenType::Column,
            Token::LeftBrace => TokenType::LeftBrace,
            Token::RightBrace => TokenType::RightBrace,
            Token::LeftParen => TokenType::LeftParen,
            Token::RightParen => TokenType::RightParen,
            Token::LeftBracket => TokenType::LeftBracket,
            Token::RightBracket => TokenType::RightBracket,
            Token::Question => TokenType::Question,
            Token::Colon => TokenType::Colon,
            Token::Comma => TokenType::Comma,
            Token::Semicolon => TokenType::Semicolon,
            Token::Number(_) => TokenType::Number,
            Token::String(_) => TokenType::String,
            Token::Regex(_) => TokenType::Regex,
            Token::Ident(_) => TokenType::Ident,
            Token::True => TokenType::True,
            Token::False => TokenType::False,
            Token::Ret => TokenType::Ret,
            Token::Function => TokenType::Function,
            Token::If => TokenType::If,
            Token::Else => TokenType::Else,
            Token::Begin => TokenType::Begin,
            Token::End => TokenType::End,
            Token::For => TokenType::For,
            Token::While => TokenType::While,
            Token::Do => TokenType::Do,
            Token::Print => TokenType::Print,
            Token::Printf => TokenType::Printf,
            Token::In => TokenType::In,
            Token::Break => TokenType::Break,
            Token::EOF => TokenType::EOF,
        },
    }
}

/// The kind of a token.
#[verifier::spinoff_prover]
pub fn token_type(t: &Token) -> (r: TokenType)
    ensures
        r == tt(t.lexeme()),
{
    proof {
        reveal(tt);
    }
    match t {
        Token::Bang => TokenType::Bang,
        Token::Eq => TokenType::Eq,
        Token::MathOp(m) => match m {
            MathOp::Minus => TokenType::Minus,
            MathOp::Plus => TokenType::Plus,
            MathOp::Slash => TokenType::Slash,
            MathOp::Star => TokenType::Star,
            MathOp::Modulus => TokenType::Modulo,
            MathOp::Exponent => TokenType::Exponent,
        },
        Token::BinOp(b) => match b {
            BinOp::Greater => TokenType::Greater,
            BinOp::GreaterEq => TokenType::GreaterEq,
            BinOp::Less => TokenType::Less,
            BinOp::LessEq => TokenType::LessEq,
            BinOp::BangEq => TokenType::BangEq,
            BinOp::EqEq => TokenType::EqEq,
            BinOp::MatchedBy => TokenType::MatchedBy,
            BinOp::NotMatchedBy => TokenType::NotMatchedBy,
        },
        Token::InplaceEq(_) => TokenType::InplaceAssign,
        Token::LogicalOp(LogicalOp::And) => TokenType::And,
        Token::LogicalOp(LogicalOp::Or) => TokenType::Or,
        Token::Column => TokenType::Column,
        Token::LeftBrace => TokenType::LeftBrace,
        Token::RightBrace => TokenType::RightBrace,
        Token::LeftParen => TokenType::LeftParen,
        Token::RightParen => TokenType::RightParen,
        Token::LeftBracket => TokenType::LeftBracket,
        Token::RightBracket => TokenType::RightBracket,
        Token::Question => TokenType::Question,
        Token::Colon => TokenType::Colon,
        Token::Comma => TokenType::Comma,
        Token::Semicolon => TokenType::Semicolon,
        Token::Number(_) => TokenType::Number,
        Token::String(_) => TokenType::String,
        Token::Regex(_) => TokenType::Regex,
        Token::Ident(_) => TokenType::Ident,
        Token::True => TokenType::True,
        Token::False => TokenType::False,
        Token::Ret => TokenType::Ret,
        Token::Function => TokenType::Function,
        Token::If => TokenType::If,
        Token::Else => TokenType::Else,
        Token::Begin => TokenType::Begin,
        Token::End => TokenType::End,
        Token::For => TokenType::For,
        Token::While => TokenType::While,
        Token::Do => TokenType::Do,
        Token::Print => TokenType::Print,
        Token::Printf => TokenType::Printf,
        Token::In => TokenType::In,
        Token::Break => TokenType::Break,
        Token::EOF => TokenType::EOF,
    }
}

/// How a token kind is named in error messages: its spelling, or a word for
/// tokens that carry text.
pub open spec fn tt_name(t: TokenType) -> Seq<char> {
    match t {
        TokenType::Bang => "!"@, TokenType::Eq => "="@, TokenType::Minus => "-"@,
        TokenType::Plus => "+"@, TokenType::Slash => "/"@, TokenType::Star => "*"@,
        TokenType::Modulo => "%"@, TokenType::Exponent => "^"@, TokenType::Greater => ">"@,
        TokenType::GreaterEq => ">="@, TokenType::Less => "<"@, TokenType::LessEq => "<="@,
        TokenType::BangEq => "!="@, TokenType::EqEq => "=="@, TokenType::MatchedBy => "~"@,
        TokenType::NotMatchedBy => "!~"@, TokenType::InplaceAssign => "op="@,
        TokenType::And => "&&"@, TokenType::Or => "||"@, TokenType::Column => "$"@,
        TokenType::LeftBrace => "{"@, TokenType::RightBrace => "}"@,
        TokenType::LeftParen => "("@, TokenType::RightParen => ")"@,
        TokenType::LeftBracket => "["@, TokenType::RightBracket => "]"@,
        TokenType::Question => "?"@, TokenType::Colon => ":"@, TokenType::Comma => ","@,
        TokenType::Semicolon => ";"@, TokenType::Number => "number"@,
        TokenType::String => "string"@, TokenType::Regex => "regex"@,
        TokenType::Ident => "identifier"@, TokenType::True => "true"@,
        TokenType::False => "false"@, TokenType::Ret => "return"@,
        TokenType::Function => "function"@, TokenType::If => "if"@, TokenType::Else => "else"@,
        TokenType::Begin => "BEGIN"@, TokenType::End => "END"@, TokenType::For => "for"@,
        TokenType::While => "while"@, TokenType::Do => "do"@, TokenType::Print => "print"@,
        TokenType::Printf => "printf"@, TokenType::In => "in"@, TokenType::Break => "break"@,
        TokenType::EOF => "end of file"@,
    }
}

#[verifier::spinoff_prover]
pub fn token_type_name(t: TokenType) -> (s: &'static str)
    ensures
        s@ == tt_name(t),
{
    let s = match t {
        TokenType::Bang => "!", TokenType::Eq => "=", TokenType::Minus => "-",
        TokenType::Plus => "+", TokenType::Slash => "/", TokenType::Star => "*",
        TokenType::Modulo => "%", TokenType::Exponent => "^", TokenType::Greater => ">",
        TokenType::GreaterEq => ">=", TokenType::Less => "<", TokenType::LessEq => "<=",
        TokenType::BangEq => "!=", TokenType::EqEq => "==", TokenType::MatchedBy => "~",
        TokenType::NotMatchedBy => "!~", TokenType::InplaceAssign => "op=",
        TokenType::And => "&&", TokenType::Or => "||", TokenType::Column => "$",
        TokenType::LeftBrace => "{", TokenType::RightBrace => "}",
        TokenType::LeftParen => "(", TokenType::RightParen => ")",
        TokenType::LeftBracket => "[", TokenType::RightBracket => "]",
        TokenType::Question => "?", TokenType::Colon => ":", TokenType::Comma => ",",
        TokenType::Semicolon => ";", TokenType::Number => "number",
        TokenType::String => "string", TokenType::Regex => "regex",
        TokenType::Ident => "identifier", TokenType::True => "true",
        TokenType::False => "false", TokenType::Ret => "return",
        TokenType::Function => "function", TokenType::If => "if", TokenType::Else => "else",
        TokenType::Begin => "BEGIN", TokenType::End => "END", TokenType::For => "for",
        TokenType::While => "while", TokenType::Do => "do", TokenType::Print => "print",
        TokenType::Printf => "printf", TokenType::In => "in", TokenType::Break => "break",
        TokenType::EOF => "end of file",
    };
    proof {
        reveal_strlit("!"); reveal_strlit("="); reveal_strlit("-"); reveal_strlit("+");
        reveal_strlit("/"); reveal_strlit("*"); reveal_strlit("%"); reveal_strlit("^");
        reveal_strlit(">"); reveal_strlit(">="); reveal_strlit("<"); reveal_strlit("<=");
        reveal_strlit("!="); reveal_strlit("=="); reveal_strlit("~"); reveal_strlit("!~");
        reveal_strlit("op="); reveal_strlit("&&"); reveal_strlit("||"); reveal_strlit("$");
        reveal_strlit("{"); reveal_strlit("}"); reveal_strlit("("); reveal_strlit(")");
        reveal_strlit("["); reveal_strlit("]"); reveal_strlit("?"); reveal_strlit(":");
        reveal_strlit(","); reveal_strlit(";"); reveal_strlit("number"); reveal_strlit("string");
        reveal_strlit("regex"); reveal_strlit("identifier"); reveal_strlit("true");
        reveal_strlit("false"); reveal_strlit("return"); reveal_strlit("function");
        reveal_strlit("if"); reveal_strlit("else"); reveal_strlit("BEGIN"); reveal_strlit("END");
        reveal_strlit("for"); reveal_strlit("while"); reveal_strlit("do"); reveal_strlit("print");
        reveal_strlit("printf"); reveal_strlit("in"); reveal_strlit("break");
        reveal_strlit("end of file");
    }
    s
}

/// An expression of an awk program. A number keeps the text it was written
/// with, as the lexer gives it.
#[derive(Debug, PartialEq)]
pub enum Expr {
    ScalarAssign(Symbol, Box<TypedExpr>),
    ArrayAssign { name: Symbol, indices: Vec<TypedExpr>, value: Box<TypedExpr> },
    Number(String),
    String(String),
    Regex(String),
    Concatenation(Vec<TypedExpr>),
    BinOp(Box<TypedExpr>, BinOp, Box<TypedExpr>),
    MathOp(Box<TypedExpr>, MathOp, Box<TypedExpr>),
    LogicalOp(Box<TypedExpr>, LogicalOp, Box<TypedExpr>),
    Variable(Symbol),
    Column(Box<TypedExpr>),
    NextLine,
    Ternary(Box<TypedExpr>, Box<TypedExpr>, Box<TypedExpr>),
    ArrayIndex { name: Symbol, indices: Vec<TypedExpr> },
    InArray { name: Symbol, indices: Vec<TypedExpr> },
    Call { target: Symbol, args: Vec<TypedExpr> },
    /// `sub` and `gsub`, whose third argument is assigned to.
    CallSub { arg1: Box<TypedExpr>, arg2: Box<TypedExpr>, arg3: LValue, global: bool },
}

/// An expression with its static type.
#[derive(Debug, PartialEq)]
pub struct TypedExpr {
    pub typ: ScalarType,
    pub expr: Expr,
}

/// What can be assigned to.
#[derive(Debug, PartialEq)]
pub enum LValue {
    Variable(Symbol),
    ArrayIndex { name: Symbol, indices: Vec<TypedExpr> },
    Column(Box<TypedExpr>),
}

#[derive(Debug, PartialEq)]
pub enum Stmt {
    Expr(TypedExpr),
    Print(TypedExpr),
    Group(Vec<Stmt>),
    If(TypedExpr, Box<Stmt>, Option<Box<Stmt>>),
    While(TypedExpr, Box<Stmt>),
    Printf { fstring: TypedExpr, args: Vec<TypedExpr> },
    Break,
    Return(Option<TypedExpr>),
}

#[derive(Debug, PartialEq)]
pub struct PatternAction {
    pub pattern: Option<TypedExpr>,
    pub action: Stmt,
}

#[derive(Debug, PartialEq)]
pub struct Function {
    pub name: Symbol,
    pub args: Vec<Symbol>,
    pub body: Stmt,
}

/// A parsed program: its `BEGIN` and `END` actions, its pattern-action
/// pairs and its functions, in the order they were written.
#[derive(Debug, PartialEq)]
pub struct Program {
    pub name: Symbol,
    pub begins: Vec<Stmt>,
    pub ends: Vec<Stmt>,
    pub pattern_actions: Vec<PatternAction>,
    pub functions: Vec<Function>,
}

impl TypedExpr {
    /// An expression of the variable type.
    pub fn new(expr: Expr) -> (t: TypedExpr)
        ensures
            t.typ == ScalarType::Variable,
            t.expr == expr,
    {
        TypedExpr { typ: ScalarType::Variable, expr }
    }
}

impl From<Expr> for TypedExpr {
    fn from(expr: Expr) -> (t: TypedExpr) {
        TypedExpr { typ: ScalarType::Variable, expr }
    }
}

impl vstd::std_specs::convert::FromSpecImpl<Expr> for TypedExpr {
    open spec fn obeys_from_spec() -> bool {
        true
    }

    open spec fn from_spec(expr: Expr) -> TypedExpr {
        TypedExpr { typ: ScalarType::Variable, expr }
    }
}

impl PatternAction {
    pub fn new(pattern: Option<TypedExpr>, action: Stmt) -> (pa: PatternAction)
        ensures
            pa.pattern == pattern,
            pa.action == action,
    {
        PatternAction { pattern, action }
    }

    /// A pattern whose action prints the whole record.
    pub fn new_pattern_only(test: TypedExpr) -> (pa: PatternAction)
        ensures
            pa.pattern == Some(test),
            stmt_view(pa.action) == SStmt::Print(tv(SExpr::Column(Box::new(num("0"@))))),
    {
        let all = tvx(Expr::Column(Box::new(number("0"))));
        PatternAction { pattern: Some(test), action: Stmt::Print(all) }
    }

    /// An action run for every record.
    pub fn new_action_only(body: Stmt) -> (pa: PatternAction)
        ensures
            pa.pattern is None,
            pa.action == body,
    {
        PatternAction { pattern: None, action: body }
    }
}

impl Function {
    pub fn new(name: Symbol, args: Vec<Symbol>, body: Stmt) -> (f: Function)
        ensures
            f.name == name,
            f.args == args,
            f.body == body,
    {
        Function { name, args, body }
    }
}

impl Program {
    pub fn new(name: Symbol, begins: Vec<Stmt>, ends: Vec<Stmt>, pattern_actions: Vec<PatternAction>,
        functions: Vec<Function>) -> (p: Program)
        ensures
            p.name == name,
            p.begins == begins,
            p.ends == ends,
            p.pattern_actions == pattern_actions,
            p.functions == functions,
    {
        Program { name, begins, ends, pattern_actions, functions }
    }

    /// A program of one action run for every record.
    pub fn new_action_only(name: Symbol, action: Stmt) -> (p: Program)
        ensures
            p.name == name,
            p.begins@.len() == 0,
            p.ends@.len() == 0,
            p.functions@.len() == 0,
            p.pattern_actions@.len() == 1,
            p.pattern_actions@[0].pattern is None,
            p.pattern_actions@[0].action == action,
    {
        let mut pas: Vec<PatternAction> = Vec::new();
        pas.push(PatternAction::new_action_only(action));
        Program { name, begins: Vec::new(), ends: Vec::new(), pattern_actions: pas, functions: Vec::new() }
    }
}

/// An expression as the contracts speak of it: names as characters.
pub enum SExpr {
    ScalarAssign(Seq<char>, Box<STyped>),
    ArrayAssign(Seq<char>, Seq<STyped>, Box<STyped>),
    Number(Seq<char>),
    Str(Seq<char>),
    Regex(Seq<char>),
    Concatenation(Seq<STyped>),
    BinOp(Box<STyped>, BinOp, Box<STyped>),
    MathOp(Box<STyped>, MathOp, Box<STyped>),
    LogicalOp(Box<STyped>, LogicalOp, Box<STyped>),
    Variable(Seq<char>),
    Column(Box<STyped>),
    NextLine,
    Ternary(Box<STyped>, Box<STyped>, Box<STyped>),
    ArrayIndex(Seq<char>, Seq<STyped>),
    InArray(Seq<char>, Seq<STyped>),
    Call(Seq<char>, Seq<STyped>),
    CallSub(Box<STyped>, Box<STyped>, SLValue, bool),
}

pub struct STyped {
    pub typ: ScalarType,
    pub expr: SExpr,
}

pub enum SLValue {
    Variable(Seq<char>),
    ArrayIndex(Seq<char>, Seq<STyped>),
    Column(Box<STyped>),
}

pub enum SStmt {
    Expr(STyped),
    Print(STyped),
    Group(Seq<SStmt>),
    If(STyped, Box<SStmt>, Option<Box<SStmt>>),
    While(STyped, Box<SStmt>),
    Printf(STyped, Seq<STyped>),
    Break,
    Return(Option<STyped>),
}

pub struct SPatternAction {
    pub pattern: Option<STyped>,
    pub action: SStmt,
}

pub struct SFunction {
    pub name: Seq<char>,
    pub args: Seq<Seq<char>>,
    pub body: SStmt,
}

pub struct SProgram {
    pub begins: Seq<SStmt>,
    pub ends: Seq<SStmt>,
    pub pattern_actions: Seq<SPatternAction>,
    pub functions: Seq<SFunction>,
}

pub open spec fn typed_view(e: TypedExpr) -> STyped
    decreases e, 0nat,
{
    STyped { typ: e.typ, expr: expr_view(e.expr) }
}

pub open spec fn expr_view(e: Expr) -> SExpr
    decreases e, 0nat,
{
    match e {
        Expr::ScalarAssign(n, v) => SExpr::ScalarAssign(n.name(), Box::new(typed_view(*v))),
        Expr::ArrayAssign { name, indices, value } =>
            SExpr::ArrayAssign(name.name(), typed_seq_view(indices@, indices@.len()), Box::new(typed_view(*value))),
        Expr::Number(s) => SExpr::Number(s@),
        Expr::String(s) => SExpr::Str(s@),
        Expr::Regex(s) => SExpr::Regex(s@),
        Expr::Concatenation(v) => SExpr::Concatenation(typed_seq_view(v@, v@.len())),
        Expr::BinOp(l, o, r) => SExpr::BinOp(Box::new(typed_view(*l)), o, Box::new(typed_view(*r))),
        Expr::MathOp(l, o, r) => SExpr::MathOp(Box::new(typed_view(*l)), o, Box::new(typed_view(*r))),
        Expr::LogicalOp(l, o, r) => SExpr::LogicalOp(Box::new(typed_view(*l)), o, Box::new(typed_view(*r))),
        Expr::Variable(n) => SExpr::Variable(n.name()),
        Expr::Column(c) => SExpr::Column(Box::new(typed_view(*c))),
        Expr::NextLine => SExpr::NextLine,
        Expr::Ternary(a, b, c) => SExpr::Ternary(Box::new(typed_view(*a)), Box::new(typed_view(*b)), Box::new(typed_view(*c))),
        Expr::ArrayIndex { name, indices } => SExpr::ArrayIndex(name.name(), typed_seq_view(indices@, indices@.len())),
        Expr::InArray { name, indices } => SExpr::InArray(name.name(), typed_seq_view(indices@, indices@.len())),
        Expr::Call { target, args } => SExpr::Call(target.name(), typed_seq_view(args@, args@.len())),
        Expr::CallSub { arg1, arg2, arg3, global } =>
            SExpr::CallSub(Box::new(typed_view(*arg1)), Box::new(typed_view(*arg2)), lvalue_view(arg3), global),
    }
}

pub open spec fn lvalue_view(l: LValue) -> SLValue
    decreases l, 0nat,
{
    match l {
        LValue::Variable(n) => SLValue::Variable(n.name()),
        LValue::ArrayIndex { name, indices } => SLValue::ArrayIndex(name.name(), typed_seq_view(indices@, indices@.len())),
        LValue::Column(c) => SLValue::Column(Box::new(typed_view(*c))),
    }
}

/// The first `n` expressions of `s`, viewed.
pub open spec fn typed_seq_view(s: Seq<TypedExpr>, n: nat) -> Seq<STyped>
    decreases s, n,
{
    if n == 0 || n > s.len() {
        Seq::empty()
    } else {
        typed_seq_view(s, (n - 1) as nat).push(typed_view(s[n - 1]))
    }
}

pub open spec fn tview_opt(o: Option<TypedExpr>) -> Option<STyped> {
    match o {
        Some(e) => Some(typed_view(e)),
        None => None,
    }
}

pub open spec fn stmt_view(s: Stmt) -> SStmt
    decreases s, 0nat,
{
    match s {
        Stmt::Expr(e) => SStmt::Expr(typed_view(e)),
        Stmt::Print(e) => SStmt::Print(typed_view(e)),
        Stmt::Group(v) => SStmt::Group(stmt_seq_view(v@, v@.len())),
        Stmt::If(c, t, e) => SStmt::If(typed_view(c), Box::new(stmt_view(*t)), match e {
            Some(b) => Some(Box::new(stmt_view(*b))),
            None => None,
        }),
        Stmt::While(c, b) => SStmt::While(typed_view(c), Box::new(stmt_view(*b))),
        Stmt::Printf { fstring, args } => SStmt::Printf(typed_view(fstring), typed_seq_view(args@, args@.len())),
        Stmt::Break => SStmt::Break,
        Stmt::Return(e) => SStmt::Return(tview_opt(e)),
    }
}

pub open spec fn stmt_seq_view(s: Seq<Stmt>, n: nat) -> Seq<SStmt>
    decreases s, n,
{
    if n == 0 || n > s.len() {
        Seq::empty()
    } else {
        stmt_seq_view(s, (n - 1) as nat).push(stmt_view(s[n - 1]))
    }
}

impl TypedExpr {
    pub open spec fn view(&self) -> STyped {
        typed_view(*self)
    }
}

impl Stmt {
    pub open spec fn view(&self) -> SStmt {
        stmt_view(*self)
    }
}


/// The outcome of parsing a part of the tokens from some position: what was
/// parsed and the position after it, an error message, or `Stuck` where the
/// parser would not return.
pub enum Parsed<T> {
    Done(T, int),
    Fail(Seq<char>),
    Stuck,
}

/// The token at `i`; past the end, `EOF`.
pub open spec fn tk(ts: Seq<Lexeme>, i: int) -> Lexeme {
    if 0 <= i < ts.len() { ts[i] } else { Lexeme::Plain(Token::EOF) }
}

pub open spec fn ty(ts: Seq<Lexeme>, i: int) -> TokenType {
    if 0 <= i < ts.len() { tt(ts[i]) } else { TokenType::EOF }
}



pub open spec fn at_end(ts: Seq<Lexeme>, i: int) -> bool {
    ty(ts, i) == TokenType::EOF
}

pub open spec fn can_consume(ts: Seq<Lexeme>, i: int, typ: TokenType) -> bool {
    !at_end(ts, i) && ty(ts, i) == typ
}

/// The error for a token other than the one expected.
pub open spec fn consume_msg(ts: Seq<Lexeme>, i: int, typ: TokenType, msg: Seq<char>) -> Seq<char> {
    msg + " - didn't find a `"@ + tt_name(typ) + "` as expected. Found `"@ + tt_name(ty(ts, i)) + "`"@
}

pub open spec fn lex_name(l: Lexeme) -> Seq<char> {
    match l {
        Lexeme::Ident(n) => n,
        _ => Seq::empty(),
    }
}

pub open spec fn lex_math(l: Lexeme) -> MathOp {
    match l {
        Lexeme::Plain(Token::MathOp(m)) => m,
        Lexeme::Plain(Token::InplaceEq(m)) => m,
        _ => MathOp::Plus,
    }
}

pub open spec fn lex_bin(l: Lexeme) -> BinOp {
    match l {
        Lexeme::Plain(Token::BinOp(b)) => b,
        _ => BinOp::EqEq,
    }
}

/// An expression of the variable type, as the parser makes them.
pub open spec fn tv(e: SExpr) -> STyped {
    STyped { typ: ScalarType::Variable, expr: e }
}

pub open spec fn num(s: Seq<char>) -> STyped {
    tv(SExpr::Number(s))
}

/// Token kinds that end a concatenation.
pub open spec fn concat_stop(t: TokenType) -> bool {
    t == TokenType::InplaceAssign || t == TokenType::Less || t == TokenType::LessEq
        || t == TokenType::BangEq || t == TokenType::EqEq || t == TokenType::Greater
        || t == TokenType::GreaterEq || t == TokenType::And || t == TokenType::Or
        || t == TokenType::Eq || t == TokenType::Semicolon || t == TokenType::RightBrace
        || t == TokenType::RightParen || t == TokenType::LeftBrace || t == TokenType::Question
        || t == TokenType::Colon || t == TokenType::MatchedBy || t == TokenType::NotMatchedBy
        || t == TokenType::Comma || t == TokenType::In || t == TokenType::LeftBracket
        || t == TokenType::RightBracket || t == TokenType::Printf
}

pub open spec fn compare_op(t: TokenType) -> bool {
    t == TokenType::GreaterEq || t == TokenType::Greater || t == TokenType::Less
        || t == TokenType::LessEq || t == TokenType::EqEq || t == TokenType::BangEq
}

/// What `sub` or `gsub` may assign to.
pub open spec fn as_lvalue(e: STyped) -> Option<SLValue> {
    match e.expr {
        SExpr::Variable(n) => Some(SLValue::Variable(n)),
        SExpr::Column(c) => Some(SLValue::Column(c)),
        SExpr::ArrayIndex(n, i) => Some(SLValue::ArrayIndex(n, i)),
        _ => None,
    }
}

/// A call once its arguments are read; `sub` and `gsub` take two or three
/// arguments, the third one assigned to.
pub open spec fn call_result(target: Seq<char>, args: Seq<STyped>) -> Parsed<STyped> {
    if target == "sub"@ || target == "gsub"@ {
        if args.len() == 2 || args.len() == 3 {
            let arg3 = if args.len() == 3 { as_lvalue(args[2]) } else {
                Some(SLValue::Column(Box::new(num("0"@))))
            };
            match arg3 {
                Some(l) => Parsed::Done(tv(SExpr::CallSub(Box::new(args[0]), Box::new(args[1]), l, target == "gsub"@)), 0),
                None => Parsed::Fail("Argument #3 to the "@ + target
                    + " builtin function must be an lvalue: a variable `B`, an index into an array `B[1]`, or a column `$3`."@),
            }
        } else {
            Parsed::Fail("Builtin function "@ + target + " can only be called with 2 or 3 arguments"@)
        }
    } else {
        Parsed::Done(tv(SExpr::Call(target, args)), 0)
    }
}

pub open spec fn finish_call(target: Seq<char>, args: Seq<STyped>, pos: int) -> Parsed<STyped> {
    match call_result(target, args) {
        Parsed::Done(e, _) => Parsed::Done(e, pos),
        Parsed::Fail(m) => Parsed::Fail(m),
        Parsed::Stuck => Parsed::Stuck,
    }
}

/// The first `)` at or after `idx`, if any.
pub open spec fn find_rparen(ts: Seq<Lexeme>, idx: int) -> Option<int>
    decreases ts.len() - idx,
{
    if idx < 0 || idx >= ts.len() {
        None
    } else if ty(ts, idx) == TokenType::RightParen {
        Some(idx)
    } else {
        find_rparen(ts, idx + 1)
    }
}

#[verifier::opaque]
pub open spec fn p_primary(ts: Seq<Lexeme>, i: int) -> Parsed<STyped>
    decreases ts.len() - i, 1int,
{
    let t = ty(ts, i);
    if t == TokenType::EOF {
        Parsed::Fail("Unexpected end of input"@)
    } else if t == TokenType::Number {
        Parsed::Done(num(lex_text(tk(ts, i))), i + 1)
    } else if t == TokenType::String {
        Parsed::Done(tv(SExpr::Str(lex_text(tk(ts, i)))), i + 1)
    } else if t == TokenType::Regex {
        Parsed::Done(tv(SExpr::Regex(lex_text(tk(ts, i)))), i + 1)
    } else if t == TokenType::Ident {
        p_name_use(ts, i)
    } else if t == TokenType::LeftParen {
        p_paren(ts, i + 1)
    } else {
        Parsed::Fail("Unexpected token `"@ + tt_name(t) + "`"@)
    }
}

/// A name at `i`: an array element, a call or a variable.
pub open spec fn p_name_use(ts: Seq<Lexeme>, i: int) -> Parsed<STyped>
    decreases ts.len() - i, 0int,
{
    let n = lex_name(tk(ts, i));
    if ty(ts, i + 1) == TokenType::LeftBracket {
        p_array_index(ts, i + 2, n)
    } else if ty(ts, i + 1) == TokenType::LeftParen {
        p_call(ts, i + 2, n, Seq::empty())
    } else {
        Parsed::Done(tv(SExpr::Variable(n)), i + 1)
    }
}

/// An expression in parentheses, whose `(` is consumed.
pub open spec fn p_paren(ts: Seq<Lexeme>, i: int) -> Parsed<STyped>
    decreases ts.len() - i, 45int,
{
    match p_assignment(ts, i) {
        Parsed::Done(e, j) => if i <= j <= ts.len() {
            if can_consume(ts, j, TokenType::RightParen) {
                Parsed::Done(e, j + 1)
            } else {
                Parsed::Fail(consume_msg(ts, j, TokenType::RightParen, "Missing closing ')' after group"@))
            }
        } else { Parsed::Stuck },
        Parsed::Fail(m) => Parsed::Fail(m),
        Parsed::Stuck => Parsed::Stuck,
    }
}

pub open spec fn p_call(ts: Seq<Lexeme>, i: int, target: Seq<char>, args: Seq<STyped>) -> Parsed<STyped>
    decreases ts.len() - i, 43int,
{
    if ty(ts, i) == TokenType::RightParen {
        finish_call(target, args, i + 1)
    } else if ty(ts, i) == TokenType::EOF {
        Parsed::Fail("Hit EOF while parsing function args"@)
    } else {
        match p_assignment(ts, i) {
            Parsed::Done(e, j) => if i <= j <= ts.len() {
                if ty(ts, j) == TokenType::Comma {
                    p_call(ts, j + 1, target, args.push(e))
                } else if can_consume(ts, j, TokenType::RightParen) {
                    finish_call(target, args.push(e), j + 1)
                } else {
                    Parsed::Fail(consume_msg(ts, j, TokenType::RightParen, "Expected a right paren ')' after a function call"@))
                }
            } else { Parsed::Stuck },
            Parsed::Fail(m) => Parsed::Fail(m),
            Parsed::Stuck => Parsed::Stuck,
        }
    }
}

pub open spec fn p_array_index(ts: Seq<Lexeme>, i: int, name: Seq<char>) -> Parsed<STyped>
    decreases ts.len() - i, 44int,
{
    match p_assignment(ts, i) {
        Parsed::Done(e, j) => if i <= j <= ts.len() { p_index_rest(ts, j, name, seq![e]) } else { Parsed::Stuck },
        Parsed::Fail(m) => Parsed::Fail(m),
        Parsed::Stuck => Parsed::Stuck,
    }
}

pub open spec fn index_close(ts: Seq<Lexeme>, p: int, name: Seq<char>, idx: Seq<STyped>) -> Parsed<STyped> {
    if can_consume(ts, p, TokenType::RightBracket) {
        Parsed::Done(tv(SExpr::ArrayIndex(name, idx)), p + 1)
    } else {
        Parsed::Fail(consume_msg(ts, p, TokenType::RightBracket, "Array indexing must end with a right bracket."@))
    }
}

pub open spec fn p_index_rest(ts: Seq<Lexeme>, j: int, name: Seq<char>, idx: Seq<STyped>) -> Parsed<STyped>
    decreases ts.len() - j, 42int,
{
    if ty(ts, j) == TokenType::Comma {
        if ty(ts, j + 1) != TokenType::RightBracket {
            match p_assignment(ts, j + 1) {
                Parsed::Done(e, k) => if j + 1 <= k <= ts.len() { p_index_rest(ts, k, name, idx.push(e)) } else { Parsed::Stuck },
                Parsed::Fail(m) => Parsed::Fail(m),
                Parsed::Stuck => Parsed::Stuck,
            }
        } else {
            index_close(ts, j + 1, name, idx)
        }
    } else {
        index_close(ts, j, name, idx)
    }
}

/// A primary expression behind any number of `$`.
pub open spec fn p_column(ts: Seq<Lexeme>, i: int) -> Parsed<STyped>
    decreases ts.len() - i, 2int,
{
    if ty(ts, i) == TokenType::Column {
        match p_column(ts, i + 1) {
            Parsed::Done(e, j) => Parsed::Done(tv(SExpr::Column(Box::new(e))), j),
            Parsed::Fail(m) => Parsed::Fail(m),
            Parsed::Stuck => Parsed::Stuck,
        }
    } else {
        p_primary(ts, i)
    }
}

pub open spec fn p_post_op(ts: Seq<Lexeme>, i: int) -> Parsed<STyped>
    decreases ts.len() - i, 4int,
{
    match p_column(ts, i) {
        Parsed::Done(e, j) => match e.expr {
            SExpr::Variable(name) => if ty(ts, j) == TokenType::Plus && ty(ts, j + 1) == TokenType::Plus {
                let inc = tv(SExpr::MathOp(Box::new(e), MathOp::Plus, Box::new(num("1"@))));
                let assign = tv(SExpr::ScalarAssign(name, Box::new(inc)));
                Parsed::Done(tv(SExpr::MathOp(Box::new(assign), MathOp::Minus, Box::new(num("1"@)))), j + 2)
            } else if ty(ts, j) == TokenType::Minus && ty(ts, j + 1) == TokenType::Minus {
                let dec = tv(SExpr::MathOp(Box::new(e), MathOp::Minus, Box::new(num("1"@))));
                let assign = tv(SExpr::ScalarAssign(name, Box::new(dec)));
                Parsed::Done(tv(SExpr::MathOp(Box::new(assign), MathOp::Plus, Box::new(num("1"@)))), j + 2)
            } else {
                Parsed::Done(e, j)
            },
            _ => Parsed::Done(e, j),
        },
        Parsed::Fail(m) => Parsed::Fail(m),
        Parsed::Stuck => Parsed::Stuck,
    }
}

pub open spec fn p_pre_op(ts: Seq<Lexeme>, i: int) -> Parsed<STyped>
    decreases ts.len() - i, 5int,
{
    if ty(ts, i) == TokenType::Plus && ty(ts, i + 1) == TokenType::Plus && ty(ts, i + 2) == TokenType::Ident {
        let name = lex_name(tk(ts, i + 2));
        let inc = tv(SExpr::MathOp(Box::new(tv(SExpr::Variable(name))), MathOp::Plus, Box::new(num("1"@))));
        Parsed::Done(tv(SExpr::ScalarAssign(name, Box::new(inc))), i + 3)
    } else if ty(ts, i) == TokenType::Minus && ty(ts, i + 1) == TokenType::Minus && ty(ts, i + 2) == TokenType::Ident {
        let name = lex_name(tk(ts, i + 2));
        let dec = tv(SExpr::MathOp(Box::new(tv(SExpr::Variable(name))), MathOp::Minus, Box::new(num("1"@))));
        Parsed::Done(tv(SExpr::ScalarAssign(name, Box::new(dec))), i + 3)
    } else {
        p_post_op(ts, i)
    }
}

pub open spec fn p_exp_rest(ts: Seq<Lexeme>, j: int, e: STyped) -> Parsed<STyped>
    decreases ts.len() - j, 6int,
{
    if ty(ts, j) == TokenType::Exponent {
        match p_pre_op(ts, j + 1) {
            Parsed::Done(r, k) => if j + 1 <= k <= ts.len() {
                p_exp_rest(ts, k, tv(SExpr::MathOp(Box::new(e), MathOp::Exponent, Box::new(r))))
            } else { Parsed::Stuck },
            Parsed::Fail(m) => Parsed::Fail(m),
            Parsed::Stuck => Parsed::Stuck,
        }
    } else {
        Parsed::Done(e, j)
    }
}

pub open spec fn p_exp(ts: Seq<Lexeme>, i: int) -> Parsed<STyped>
    decreases ts.len() - i, 7int,
{
    match p_pre_op(ts, i) {
        Parsed::Done(e, j) => if i <= j <= ts.len() { p_exp_rest(ts, j, e) } else { Parsed::Stuck },
        Parsed::Fail(m) => Parsed::Fail(m),
        Parsed::Stuck => Parsed::Stuck,
    }
}

pub open spec fn p_unary(ts: Seq<Lexeme>, i: int) -> Parsed<STyped>
    decreases ts.len() - i, 8int,
{
    let t = ty(ts, i);
    if !(t == TokenType::Minus && ty(ts, i + 1) == TokenType::Minus)
        && !(t == TokenType::Plus && ty(ts, i + 1) == TokenType::Plus)
        && (t == TokenType::Minus || t == TokenType::Plus || t == TokenType::Bang) {
        match p_unary(ts, i + 1) {
            Parsed::Done(r, j) => Parsed::Done(
                if t == TokenType::Bang {
                    tv(SExpr::BinOp(Box::new(num("1"@)), BinOp::BangEq, Box::new(r)))
                } else if t == TokenType::Plus {
                    tv(SExpr::MathOp(Box::new(num("0"@)), MathOp::Plus, Box::new(r)))
                } else {
                    tv(SExpr::MathOp(Box::new(num("0"@)), MathOp::Minus, Box::new(r)))
                }, j),
            Parsed::Fail(m) => Parsed::Fail(m),
            Parsed::Stuck => Parsed::Stuck,
        }
    } else {
        p_exp(ts, i)
    }
}

pub open spec fn p_term_rest(ts: Seq<Lexeme>, j: int, e: STyped) -> Parsed<STyped>
    decreases ts.len() - j, 9int,
{
    let t = ty(ts, j);
    if t == TokenType::Star || t == TokenType::Slash || t == TokenType::Modulo {
        match p_unary(ts, j + 1) {
            Parsed::Done(r, k) => if j + 1 <= k <= ts.len() {
                p_term_rest(ts, k, tv(SExpr::MathOp(Box::new(e), lex_math(tk(ts, j)), Box::new(r))))
            } else { Parsed::Stuck },
            Parsed::Fail(m) => Parsed::Fail(m),
            Parsed::Stuck => Parsed::Stuck,
        }
    } else {
        Parsed::Done(e, j)
    }
}

pub open spec fn p_term(ts: Seq<Lexeme>, i: int) -> Parsed<STyped>
    decreases ts.len() - i, 10int,
{
    match p_unary(ts, i) {
        Parsed::Done(e, j) => if i <= j <= ts.len() { p_term_rest(ts, j, e) } else { Parsed::Stuck },
        Parsed::Fail(m) => Parsed::Fail(m),
        Parsed::Stuck => Parsed::Stuck,
    }
}

pub open spec fn p_pm_rest(ts: Seq<Lexeme>, j: int, e: STyped) -> Parsed<STyped>
    decreases ts.len() - j, 11int,
{
    let t = ty(ts, j);
    if t == TokenType::Plus || t == TokenType::Minus {
        match p_plus_minus(ts, j + 1) {
            Parsed::Done(r, k) => if j + 1 <= k <= ts.len() {
                p_pm_rest(ts, k, tv(SExpr::MathOp(Box::new(e), lex_math(tk(ts, j)), Box::new(r))))
            } else { Parsed::Stuck },
            Parsed::Fail(m) => Parsed::Fail(m),
            Parsed::Stuck => Parsed::Stuck,
        }
    } else {
        Parsed::Done(e, j)
    }
}

pub open spec fn p_plus_minus(ts: Seq<Lexeme>, i: int) -> Parsed<STyped>
    decreases ts.len() - i, 12int,
{
    match p_term(ts, i) {
        Parsed::Done(e, j) => if i <= j <= ts.len() { p_pm_rest(ts, j, e) } else { Parsed::Stuck },
        Parsed::Fail(m) => Parsed::Fail(m),
        Parsed::Stuck => Parsed::Stuck,
    }
}

/// `e` with `r` concatenated after it.
pub open spec fn concat_with(e: STyped, r: STyped) -> STyped {
    match e.expr {
        SExpr::Concatenation(vals) => STyped { typ: e.typ, expr: SExpr::Concatenation(vals.push(r)) },
        _ => tv(SExpr::Concatenation(seq![e, r])),
    }
}

pub open spec fn p_concat_rest(ts: Seq<Lexeme>, j: int, e: STyped) -> Parsed<STyped>
    decreases ts.len() - j, 13int,
{
    if at_end(ts, j) || concat_stop(ty(ts, j)) {
        Parsed::Done(e, j)
    } else {
        match p_plus_minus(ts, j) {
            Parsed::Done(r, k) => if j < k <= ts.len() { p_concat_rest(ts, k, concat_with(e, r)) } else { Parsed::Stuck },
            Parsed::Fail(m) => Parsed::Fail(m),
            Parsed::Stuck => Parsed::Stuck,
        }
    }
}

#[verifier::opaque]
pub open spec fn p_string_concat(ts: Seq<Lexeme>, i: int) -> Parsed<STyped>
    decreases ts.len() - i, 14int,
{
    match p_plus_minus(ts, i) {
        Parsed::Done(e, j) => if i <= j <= ts.len() { p_concat_rest(ts, j, e) } else { Parsed::Stuck },
        Parsed::Fail(m) => Parsed::Fail(m),
        Parsed::Stuck => Parsed::Stuck,
    }
}

pub open spec fn p_compare_rest(ts: Seq<Lexeme>, j: int, e: STyped) -> Parsed<STyped>
    decreases ts.len() - j, 15int,
{
    if compare_op(ty(ts, j)) {
        match p_string_concat(ts, j + 1) {
            Parsed::Done(r, k) => if j + 1 <= k <= ts.len() {
                p_compare_rest(ts, k, tv(SExpr::BinOp(Box::new(e), lex_bin(tk(ts, j)), Box::new(r))))
            } else { Parsed::Stuck },
            Parsed::Fail(m) => Parsed::Fail(m),
            Parsed::Stuck => Parsed::Stuck,
        }
    } else {
        Parsed::Done(e, j)
    }
}

#[verifier::opaque]
pub open spec fn p_compare(ts: Seq<Lexeme>, i: int) -> Parsed<STyped>
    decreases ts.len() - i, 16int,
{
    match p_string_concat(ts, i) {
        Parsed::Done(e, j) => if i <= j <= ts.len() { p_compare_rest(ts, j, e) } else { Parsed::Stuck },
        Parsed::Fail(m) => Parsed::Fail(m),
        Parsed::Stuck => Parsed::Stuck,
    }
}

pub open spec fn p_regex_rest(ts: Seq<Lexeme>, j: int, e: STyped) -> Parsed<STyped>
    decreases ts.len() - j, 17int,
{
    let t = ty(ts, j);
    if t == TokenType::MatchedBy || t == TokenType::NotMatchedBy {
        match p_compare(ts, j + 1) {
            Parsed::Done(r, k) => if j + 1 <= k <= ts.len() {
                let op = if t == TokenType::MatchedBy { BinOp::MatchedBy } else { BinOp::NotMatchedBy };
                p_regex_rest(ts, k, tv(SExpr::BinOp(Box::new(e), op, Box::new(r))))
            } else { Parsed::Stuck },
            Parsed::Fail(m) => Parsed::Fail(m),
            Parsed::Stuck => Parsed::Stuck,
        }
    } else {
        Parsed::Done(e, j)
    }
}

pub open spec fn p_regex(ts: Seq<Lexeme>, i: int) -> Parsed<STyped>
    decreases ts.len() - i, 18int,
{
    match p_compare(ts, i) {
        Parsed::Done(e, j) => if i <= j <= ts.len() { p_regex_rest(ts, j, e) } else { Parsed::Stuck },
        Parsed::Fail(m) => Parsed::Fail(m),
        Parsed::Stuck => Parsed::Stuck,
    }
}

pub open spec fn array_name_msg() -> Seq<char> {
    "Multidimensional array access must be followed by an array name. Eg: (1,2,3) in ARRAY_NAME"@
}

pub open spec fn p_in_rest(ts: Seq<Lexeme>, q: int, e: STyped) -> Parsed<STyped>
    decreases ts.len() - q, 19int,
{
    if ty(ts, q) == TokenType::In {
        if can_consume(ts, q + 1, TokenType::Ident) {
            p_in_rest(ts, q + 2, tv(SExpr::InArray(lex_name(tk(ts, q + 1)), seq![e])))
        } else {
            Parsed::Fail(consume_msg(ts, q + 1, TokenType::Ident, array_name_msg()))
        }
    } else {
        Parsed::Done(e, q)
    }
}

pub open spec fn p_multi_close(ts: Seq<Lexeme>, p: int, exprs: Seq<STyped>) -> Parsed<STyped>
    decreases ts.len() - p, 20int,
{
    if !can_consume(ts, p, TokenType::RightParen) {
        Parsed::Fail(consume_msg(ts, p, TokenType::RightParen, "Multidimensional array indices must end with right paren"@))
    } else if !can_consume(ts, p + 1, TokenType::In) {
        Parsed::Fail(consume_msg(ts, p + 1, TokenType::In, "Multidimensional array access must be followed by an 'in'"@))
    } else if !can_consume(ts, p + 2, TokenType::Ident) {
        Parsed::Fail(consume_msg(ts, p + 2, TokenType::Ident, array_name_msg()))
    } else {
        p_in_rest(ts, p + 3, tv(SExpr::InArray(lex_name(tk(ts, p + 2)), exprs)))
    }
}

pub open spec fn p_multi_indices(ts: Seq<Lexeme>, j: int, exprs: Seq<STyped>) -> Parsed<STyped>
    decreases ts.len() - j, 21int,
{
    if ty(ts, j) == TokenType::Comma {
        if ty(ts, j + 1) == TokenType::RightParen {
            p_multi_close(ts, j + 1, exprs)
        } else {
            match p_regex(ts, j + 1) {
                Parsed::Done(r, k) => if j + 1 <= k <= ts.len() { p_multi_indices(ts, k, exprs.push(r)) } else { Parsed::Stuck },
                Parsed::Fail(m) => Parsed::Fail(m),
                Parsed::Stuck => Parsed::Stuck,
            }
        }
    } else {
        p_multi_close(ts, j, exprs)
    }
}

/// `(e1, e2, ...) in name`, possibly followed by further `in name`s.
pub open spec fn p_helper_multi_dim_array(ts: Seq<Lexeme>, i: int) -> Parsed<STyped>
    decreases ts.len() - i, 22int,
{
    if !can_consume(ts, i, TokenType::LeftParen) {
        Parsed::Fail(consume_msg(ts, i, TokenType::LeftParen, "Multidimensional array must begin with left paren"@))
    } else {
        match p_regex(ts, i + 1) {
            Parsed::Done(e, j) => if i + 1 <= j <= ts.len() { p_multi_indices(ts, j, seq![e]) } else { Parsed::Stuck },
            Parsed::Fail(m) => Parsed::Fail(m),
            Parsed::Stuck => Parsed::Stuck,
        }
    }
}

/// `(e1, e2, ...) in name` where a `(` is followed, somewhere later, by a
/// `)` and `in`; otherwise an ordinary expression (also when no `)` follows
/// at all).
#[verifier::opaque]
pub open spec fn p_multi_dim(ts: Seq<Lexeme>, i: int) -> Parsed<STyped>
    decreases ts.len() - i, 23int,
{
    if ty(ts, i) == TokenType::LeftParen {
        match find_rparen(ts, i) {
            None => p_regex(ts, i),
            Some(idx) => if ty(ts, idx + 1) == TokenType::In {
                p_helper_multi_dim_array(ts, i)
            } else {
                p_regex(ts, i)
            },
        }
    } else {
        p_regex(ts, i)
    }
}

pub open spec fn p_member_rest(ts: Seq<Lexeme>, j: int, e: STyped) -> Parsed<STyped>
    decreases ts.len() - j, 24int,
{
    if ty(ts, j) == TokenType::In {
        if can_consume(ts, j + 1, TokenType::Ident) {
            p_member_rest(ts, j + 2, tv(SExpr::InArray(lex_name(tk(ts, j + 1)), seq![e])))
        } else {
            Parsed::Fail(consume_msg(ts, j + 1, TokenType::Ident, "An array name must follow `<expr> in`"@))
        }
    } else {
        Parsed::Done(e, j)
    }
}

#[verifier::opaque]
pub open spec fn p_array_membership(ts: Seq<Lexeme>, i: int) -> Parsed<STyped>
    decreases ts.len() - i, 25int,
{
    match p_multi_dim(ts, i) {
        Parsed::Done(e, j) => if i <= j <= ts.len() { p_member_rest(ts, j, e) } else { Parsed::Stuck },
        Parsed::Fail(m) => Parsed::Fail(m),
        Parsed::Stuck => Parsed::Stuck,
    }
}

pub open spec fn p_and_rest(ts: Seq<Lexeme>, j: int, e: STyped) -> Parsed<STyped>
    decreases ts.len() - j, 26int,
{
    if ty(ts, j) == TokenType::And {
        match p_array_membership(ts, j + 1) {
            Parsed::Done(r, k) => if j + 1 <= k <= ts.len() {
                p_and_rest(ts, k, tv(SExpr::LogicalOp(Box::new(e), LogicalOp::And, Box::new(r))))
            } else { Parsed::Stuck },
            Parsed::Fail(m) => Parsed::Fail(m),
            Parsed::Stuck => Parsed::Stuck,
        }
    } else {
        Parsed::Done(e, j)
    }
}

#[verifier::opaque]
pub open spec fn p_logical_and(ts: Seq<Lexeme>, i: int) -> Parsed<STyped>
    decreases ts.len() - i, 27int,
{
    match p_array_membership(ts, i) {
        Parsed::Done(e, j) => if i <= j <= ts.len() { p_and_rest(ts, j, e) } else { Parsed::Stuck },
        Parsed::Fail(m) => Parsed::Fail(m),
        Parsed::Stuck => Parsed::Stuck,
    }
}

pub open spec fn p_or_rest(ts: Seq<Lexeme>, j: int, e: STyped) -> Parsed<STyped>
    decreases ts.len() - j, 28int,
{
    if ty(ts, j) == TokenType::Or {
        match p_logical_and(ts, j + 1) {
            Parsed::Done(r, k) => if j + 1 <= k <= ts.len() {
                p_or_rest(ts, k, tv(SExpr::LogicalOp(Box::new(e), LogicalOp::Or, Box::new(r))))
            } else { Parsed::Stuck },
            Parsed::Fail(m) => Parsed::Fail(m),
            Parsed::Stuck => Parsed::Stuck,
        }
    } else {
        Parsed::Done(e, j)
    }
}

pub open spec fn p_logical_or(ts: Seq<Lexeme>, i: int) -> Parsed<STyped>
    decreases ts.len() - i, 29int,
{
    match p_logical_and(ts, i) {
        Parsed::Done(e, j) => if i <= j <= ts.len() { p_or_rest(ts, j, e) } else { Parsed::Stuck },
        Parsed::Fail(m) => Parsed::Fail(m),
        Parsed::Stuck => Parsed::Stuck,
    }
}

pub open spec fn p_ternary(ts: Seq<Lexeme>, i: int) -> Parsed<STyped>
    decreases ts.len() - i, 30int,
{
    match p_logical_or(ts, i) {
        Parsed::Done(c, j) => if i <= j <= ts.len() {
            if ty(ts, j) == TokenType::Question {
                match p_ternary(ts, j + 1) {
                    Parsed::Done(a, k) => if j + 1 <= k <= ts.len() {
                        if can_consume(ts, k, TokenType::Colon) {
                            match p_ternary(ts, k + 1) {
                                Parsed::Done(b, l) => Parsed::Done(tv(SExpr::Ternary(Box::new(c), Box::new(a), Box::new(b))), l),
                                Parsed::Fail(m) => Parsed::Fail(m),
                                Parsed::Stuck => Parsed::Stuck,
                            }
                        } else {
                            Parsed::Fail(consume_msg(ts, k, TokenType::Colon, "Expected a colon after question mark in a ternary!"@))
                        }
                    } else { Parsed::Stuck },
                    Parsed::Fail(m) => Parsed::Fail(m),
                    Parsed::Stuck => Parsed::Stuck,
                }
            } else {
                Parsed::Done(c, j)
            }
        } else { Parsed::Stuck },
        Parsed::Fail(m) => Parsed::Fail(m),
        Parsed::Stuck => Parsed::Stuck,
    }
}

#[verifier::opaque]
pub open spec fn p_assignment(ts: Seq<Lexeme>, i: int) -> Parsed<STyped>
    decreases ts.len() - i, 40int,
{
    match p_ternary(ts, i) {
        Parsed::Done(e, j) => if i <= j <= ts.len() {
            match e.expr {
                SExpr::Variable(var) => if ty(ts, j) == TokenType::Eq {
                    match p_assignment(ts, j + 1) {
                        Parsed::Done(r, k) => Parsed::Done(tv(SExpr::ScalarAssign(var, Box::new(r))), k),
                        Parsed::Fail(m) => Parsed::Fail(m),
                        Parsed::Stuck => Parsed::Stuck,
                    }
                } else if ty(ts, j) == TokenType::InplaceAssign {
                    match p_assignment(ts, j + 1) {
                        Parsed::Done(r, k) => Parsed::Done(tv(SExpr::ScalarAssign(var, Box::new(tv(SExpr::MathOp(
                            Box::new(tv(SExpr::Variable(var))), lex_math(tk(ts, j)), Box::new(r)))))), k),
                        Parsed::Fail(m) => Parsed::Fail(m),
                        Parsed::Stuck => Parsed::Stuck,
                    }
                } else {
                    Parsed::Done(e, j)
                },
                SExpr::ArrayIndex(name, indices) => if ty(ts, j) == TokenType::Eq {
                    match p_assignment(ts, j + 1) {
                        Parsed::Done(r, k) => Parsed::Done(tv(SExpr::ArrayAssign(name, indices, Box::new(r))), k),
                        Parsed::Fail(m) => Parsed::Fail(m),
                        Parsed::Stuck => Parsed::Stuck,
                    }
                } else {
                    Parsed::Done(e, j)
                },
                _ => Parsed::Done(e, j),
            }
        } else { Parsed::Stuck },
        Parsed::Fail(m) => Parsed::Fail(m),
        Parsed::Stuck => Parsed::Stuck,
    }
}



pub open spec fn p_printf_args(ts: Seq<Lexeme>, j: int, args: Seq<STyped>) -> Parsed<Seq<STyped>>
    decreases ts.len() - j, 50int,
{
    if ty(ts, j) == TokenType::Comma {
        match p_assignment(ts, j + 1) {
            Parsed::Done(a, k) => if j + 1 <= k <= ts.len() { p_printf_args(ts, k, args.push(a)) } else { Parsed::Stuck },
            Parsed::Fail(m) => Parsed::Fail(m),
            Parsed::Stuck => Parsed::Stuck,
        }
    } else {
        Parsed::Done(args, j)
    }
}

/// A statement or a braced group, as the branches of `if` take them.
pub open spec fn p_block(ts: Seq<Lexeme>, i: int) -> Parsed<SStmt>
    decreases ts.len() - i, 72int,
{
    if ty(ts, i) == TokenType::LeftBrace { p_group(ts, i) } else { p_stmt(ts, i) }
}

/// The rest of `if` after the keyword.
pub open spec fn p_if_stmt(ts: Seq<Lexeme>, i: int) -> Parsed<SStmt>
    decreases ts.len() - i, 62int,
{
    if !can_consume(ts, i, TokenType::LeftParen) {
        Parsed::Fail(consume_msg(ts, i, TokenType::LeftParen, "Expected `(` after if"@))
    } else {
        match p_assignment(ts, i + 1) {
            Parsed::Done(pred, j) => if i + 1 <= j <= ts.len() {
                if !can_consume(ts, j, TokenType::RightParen) {
                    Parsed::Fail(consume_msg(ts, j, TokenType::RightParen, "Expected `)` after if predicate"@))
                } else {
                    match p_block(ts, j + 1) {
                        Parsed::Done(t, k) => if j + 1 <= k <= ts.len() {
                            if ty(ts, k) == TokenType::Else {
                                match p_block(ts, k + 1) {
                                    Parsed::Done(e, l) => Parsed::Done(SStmt::If(pred, Box::new(t), Some(Box::new(e))), l),
                                    Parsed::Fail(m) => Parsed::Fail(m),
                                    Parsed::Stuck => Parsed::Stuck,
                                }
                            } else {
                                Parsed::Done(SStmt::If(pred, Box::new(t), None), k)
                            }
                        } else { Parsed::Stuck },
                        Parsed::Fail(m) => Parsed::Fail(m),
                        Parsed::Stuck => Parsed::Stuck,
                    }
                }
            } else { Parsed::Stuck },
            Parsed::Fail(m) => Parsed::Fail(m),
            Parsed::Stuck => Parsed::Stuck,
        }
    }
}

/// Statements up to a closing brace (not consumed): one statement as it
/// is, else a group.
pub open spec fn p_stmts_loop(ts: Seq<Lexeme>, i: int, acc: Seq<SStmt>) -> Parsed<SStmt>
    decreases ts.len() - i, 73int,
{
    if ty(ts, i) == TokenType::RightBrace {
        Parsed::Done(if acc.len() == 1 { acc[0] } else { SStmt::Group(acc) }, i)
    } else {
        match p_stmt_semi(ts, i) {
            Parsed::Done(s, j) => if i < j <= ts.len() { p_stmts_loop(ts, j, acc.push(s)) } else { Parsed::Stuck },
            Parsed::Fail(m) => Parsed::Fail(m),
            Parsed::Stuck => Parsed::Stuck,
        }
    }
}

pub open spec fn p_stmts(ts: Seq<Lexeme>, i: int) -> Parsed<SStmt>
    decreases ts.len() - i, 74int,
{
    p_stmts_loop(ts, i, Seq::empty())
}

/// Statements between braces.
pub open spec fn p_group(ts: Seq<Lexeme>, i: int) -> Parsed<SStmt>
    decreases ts.len() - i, 69int,
{
    if !can_consume(ts, i, TokenType::LeftBrace) {
        Parsed::Fail(consume_msg(ts, i, TokenType::LeftBrace, "Expected a `{` to start group"@))
    } else {
        match p_stmts(ts, i + 1) {
            Parsed::Done(s, j) => if i + 1 <= j <= ts.len() {
                if can_consume(ts, j, TokenType::RightBrace) {
                    Parsed::Done(s, j + 1)
                } else {
                    Parsed::Fail(consume_msg(ts, j, TokenType::RightBrace, "Expected a `}` to end group"@))
                }
            } else { Parsed::Stuck },
            Parsed::Fail(m) => Parsed::Fail(m),
            Parsed::Stuck => Parsed::Stuck,
        }
    }
}

/// Statements from `i` between braces: `{` at `i - 1` was consumed; the
/// closing brace is consumed with the message `msg` when missing.
pub open spec fn p_braced_body(ts: Seq<Lexeme>, i: int, msg: Seq<char>) -> Parsed<SStmt>
    decreases ts.len() - i, 75int,
{
    match p_stmts(ts, i) {
        Parsed::Done(s, j) => if i <= j <= ts.len() {
            if can_consume(ts, j, TokenType::RightBrace) {
                Parsed::Done(s, j + 1)
            } else {
                Parsed::Fail(consume_msg(ts, j, TokenType::RightBrace, msg))
            }
        } else { Parsed::Stuck },
        Parsed::Fail(m) => Parsed::Fail(m),
        Parsed::Stuck => Parsed::Stuck,
    }
}

pub open spec fn p_for(ts: Seq<Lexeme>, i: int) -> Parsed<SStmt>
    decreases ts.len() - i, 63int,
{
    if !can_consume(ts, i, TokenType::LeftParen) {
        Parsed::Fail(consume_msg(ts, i, TokenType::LeftParen, "Expected a `(` after the for keyword"@))
    } else {
        match p_stmt(ts, i + 1) {
            Parsed::Done(init, j) => if i + 1 <= j <= ts.len() {
                if !can_consume(ts, j, TokenType::Semicolon) {
                    Parsed::Fail(consume_msg(ts, j, TokenType::Semicolon, "Expected a `;` after for loop init statement"@))
                } else {
                    match p_assignment(ts, j + 1) {
                        Parsed::Done(test, k) => if j + 1 <= k <= ts.len() {
                            if !can_consume(ts, k, TokenType::Semicolon) {
                                Parsed::Fail(consume_msg(ts, k, TokenType::Semicolon, "Expected a `;` after for loop test statement"@))
                            } else {
                                match p_stmt(ts, k + 1) {
                                    Parsed::Done(incr, l) => if k + 1 <= l <= ts.len() {
                                        if !can_consume(ts, l, TokenType::RightParen) {
                                            Parsed::Fail(consume_msg(ts, l, TokenType::RightParen, "Expected a `)` to end for loop"@))
                                        } else if !can_consume(ts, l + 1, TokenType::LeftBrace) {
                                            Parsed::Fail(consume_msg(ts, l + 1, TokenType::LeftBrace, "Expected a `{` to begin for loop body"@))
                                        } else {
                                            match p_braced_body(ts, l + 2, "Expected a `}` after for loop body"@) {
                                                Parsed::Done(body, n) => Parsed::Done(SStmt::Group(seq![init,
                                                    SStmt::While(test, Box::new(SStmt::Group(seq![body, incr])))]), n),
                                                Parsed::Fail(m) => Parsed::Fail(m),
                                                Parsed::Stuck => Parsed::Stuck,
                                            }
                                        }
                                    } else { Parsed::Stuck },
                                    Parsed::Fail(m) => Parsed::Fail(m),
                                    Parsed::Stuck => Parsed::Stuck,
                                }
                            }
                        } else { Parsed::Stuck },
                        Parsed::Fail(m) => Parsed::Fail(m),
                        Parsed::Stuck => Parsed::Stuck,
                    }
                }
            } else { Parsed::Stuck },
            Parsed::Fail(m) => Parsed::Fail(m),
            Parsed::Stuck => Parsed::Stuck,
        }
    }
}

pub open spec fn p_while(ts: Seq<Lexeme>, i: int) -> Parsed<SStmt>
    decreases ts.len() - i, 63int,
{
    if !can_consume(ts, i, TokenType::LeftParen) {
        Parsed::Fail(consume_msg(ts, i, TokenType::LeftParen, "Must have paren after while"@))
    } else {
        match p_assignment(ts, i + 1) {
            Parsed::Done(test, j) => if i + 1 <= j <= ts.len() {
                if !can_consume(ts, j, TokenType::RightParen) {
                    Parsed::Fail(consume_msg(ts, j, TokenType::RightParen, "Must have right parent after while statement test expression"@))
                } else if !can_consume(ts, j + 1, TokenType::LeftBrace) {
                    Parsed::Fail(consume_msg(ts, j + 1, TokenType::LeftBrace, "Must have brace after `while (expr)`"@))
                } else {
                    match p_braced_body(ts, j + 2, "While loop must be followed by '}'"@) {
                        Parsed::Done(body, k) => Parsed::Done(SStmt::While(test, Box::new(body)), k),
                        Parsed::Fail(m) => Parsed::Fail(m),
                        Parsed::Stuck => Parsed::Stuck,
                    }
                }
            } else { Parsed::Stuck },
            Parsed::Fail(m) => Parsed::Fail(m),
            Parsed::Stuck => Parsed::Stuck,
        }
    }
}

/// `e` as the statement `ctor` makes of it.
pub open spec fn p_expr_stmt(ts: Seq<Lexeme>, i: int, print: bool) -> Parsed<SStmt>
    decreases ts.len() - i, 59int,
{
    match p_assignment(ts, i) {
        Parsed::Done(e, j) => Parsed::Done(if print { SStmt::Print(e) } else { SStmt::Expr(e) }, j),
        Parsed::Fail(m) => Parsed::Fail(m),
        Parsed::Stuck => Parsed::Stuck,
    }
}

pub open spec fn p_stmt(ts: Seq<Lexeme>, i: int) -> Parsed<SStmt>
    decreases ts.len() - i, 70int,
{
    let t = ty(ts, i);
    if t == TokenType::Print {
        p_expr_stmt(ts, i + 1, true)
    } else if t == TokenType::Ret {
        if ty(ts, i + 1) != TokenType::RightBrace && ty(ts, i + 2) != TokenType::Semicolon {
            match p_assignment(ts, i + 1) {
                Parsed::Done(e, j) => Parsed::Done(SStmt::Return(Some(e)), j),
                Parsed::Fail(m) => Parsed::Fail(m),
                Parsed::Stuck => Parsed::Stuck,
            }
        } else {
            Parsed::Done(SStmt::Return(None), i + 1)
        }
    } else if t == TokenType::Printf {
        match p_assignment(ts, i + 1) {
            Parsed::Done(f, j) => if i + 1 <= j <= ts.len() {
                match p_printf_args(ts, j, Seq::empty()) {
                    Parsed::Done(args, k) => Parsed::Done(SStmt::Printf(f, args), k),
                    Parsed::Fail(m) => Parsed::Fail(m),
                    Parsed::Stuck => Parsed::Stuck,
                }
            } else { Parsed::Stuck },
            Parsed::Fail(m) => Parsed::Fail(m),
            Parsed::Stuck => Parsed::Stuck,
        }
    } else if t == TokenType::Break {
        Parsed::Done(SStmt::Break, i + 1)
    } else if t == TokenType::For {
        p_for(ts, i + 1)
    } else if ty(ts, i + 1) == TokenType::Eq {
        if !can_consume(ts, i, TokenType::Ident) {
            Parsed::Fail(consume_msg(ts, i, TokenType::Ident, "Expected identifier before `=`"@))
        } else {
            match p_assignment(ts, i + 2) {
                Parsed::Done(e, j) => Parsed::Done(SStmt::Expr(tv(SExpr::ScalarAssign(lex_name(tk(ts, i)), Box::new(e)))), j),
                Parsed::Fail(m) => Parsed::Fail(m),
                Parsed::Stuck => Parsed::Stuck,
            }
        }
    } else if t == TokenType::While {
        p_while(ts, i + 1)
    } else if t == TokenType::If {
        p_if_stmt(ts, i + 1)
    } else if t == TokenType::LeftBrace {
        p_braced_body(ts, i + 1, "Expected a right brace after a group"@)
    } else {
        p_expr_stmt(ts, i, false)
    }
}

pub open spec fn p_stmt_semi(ts: Seq<Lexeme>, i: int) -> Parsed<SStmt>
    decreases ts.len() - i, 71int,
{
    match p_stmt(ts, i) {
        Parsed::Done(s, j) => if ty(ts, j) == TokenType::Semicolon { Parsed::Done(s, j + 1) } else { Parsed::Done(s, j) },
        Parsed::Fail(m) => Parsed::Fail(m),
        Parsed::Stuck => Parsed::Stuck,
    }
}


/// A pattern-action pair, a `BEGIN` action or an `END` action.
pub enum SItem {
    Normal(SPatternAction),
    Begin(SStmt),
    End(SStmt),
}

pub open spec fn p_pattern_action(ts: Seq<Lexeme>, i: int) -> Parsed<SItem> {
    if ty(ts, i) == TokenType::LeftBrace {
        match p_braced_body(ts, i + 1, "Expected '}' after action block"@) {
            Parsed::Done(s, j) => Parsed::Done(SItem::Normal(SPatternAction { pattern: None, action: s }), j),
            Parsed::Fail(m) => Parsed::Fail(m),
            Parsed::Stuck => Parsed::Stuck,
        }
    } else if ty(ts, i) == TokenType::Begin {
        if !can_consume(ts, i + 1, TokenType::LeftBrace) {
            Parsed::Fail(consume_msg(ts, i + 1, TokenType::LeftBrace, "Expected a `{` after a begin"@))
        } else {
            match p_braced_body(ts, i + 2, "Begin action should end with '}'"@) {
                Parsed::Done(s, j) => Parsed::Done(SItem::Begin(s), j),
                Parsed::Fail(m) => Parsed::Fail(m),
                Parsed::Stuck => Parsed::Stuck,
            }
        }
    } else if ty(ts, i) == TokenType::End {
        if !can_consume(ts, i + 1, TokenType::LeftBrace) {
            Parsed::Fail(consume_msg(ts, i + 1, TokenType::LeftBrace, "Expected a `{` after a end"@))
        } else {
            match p_braced_body(ts, i + 2, "End action should end with '}'"@) {
                Parsed::Done(s, j) => Parsed::Done(SItem::End(s), j),
                Parsed::Fail(m) => Parsed::Fail(m),
                Parsed::Stuck => Parsed::Stuck,
            }
        }
    } else {
        match p_assignment(ts, i) {
            Parsed::Done(test, j) => if ty(ts, j) == TokenType::LeftBrace {
                match p_braced_body(ts, j + 1, "Patern action should end with '}'"@) {
                    Parsed::Done(s, k) => Parsed::Done(SItem::Normal(SPatternAction { pattern: Some(test), action: s }), k),
                    Parsed::Fail(m) => Parsed::Fail(m),
                    Parsed::Stuck => Parsed::Stuck,
                }
            } else {
                Parsed::Done(SItem::Normal(SPatternAction {
                    pattern: Some(test),
                    action: SStmt::Print(tv(SExpr::Column(Box::new(num("0"@))))),
                }), j)
            },
            Parsed::Fail(m) => Parsed::Fail(m),
            Parsed::Stuck => Parsed::Stuck,
        }
    }
}

/// The argument names of a function from `p` on, then its body.
pub open spec fn p_function_args(ts: Seq<Lexeme>, p: int, name: Seq<char>, args: Seq<Seq<char>>) -> Parsed<SFunction>
    decreases ts.len() - p,
{
    if ty(ts, p) != TokenType::RightParen {
        if !can_consume(ts, p, TokenType::Ident) {
            Parsed::Fail(consume_msg(ts, p, TokenType::Ident, "Expected function argument name here"@))
        } else {
            let args2 = args.push(lex_name(tk(ts, p)));
            if ty(ts, p + 1) != TokenType::RightParen {
                if !can_consume(ts, p + 1, TokenType::Comma) {
                    Parsed::Fail(consume_msg(ts, p + 1, TokenType::Comma, "Expected comma after function argument and before right paren"@))
                } else {
                    p_function_args(ts, p + 2, name, args2)
                }
            } else {
                p_function_body(ts, p + 1, name, args2)
            }
        }
    } else {
        p_function_body(ts, p, name, args)
    }
}

pub open spec fn p_function_body(ts: Seq<Lexeme>, p: int, name: Seq<char>, args: Seq<Seq<char>>) -> Parsed<SFunction> {
    if !can_consume(ts, p, TokenType::RightParen) {
        Parsed::Fail(consume_msg(ts, p, TokenType::RightParen, "Expected right paren after function arguments"@))
    } else {
        match p_group(ts, p + 1) {
            Parsed::Done(body, j) => Parsed::Done(SFunction { name, args, body }, j),
            Parsed::Fail(m) => Parsed::Fail(m),
            Parsed::Stuck => Parsed::Stuck,
        }
    }
}

/// A function definition after the `function` keyword.
pub open spec fn p_function(ts: Seq<Lexeme>, i: int) -> Parsed<SFunction> {
    if !can_consume(ts, i, TokenType::Ident) {
        Parsed::Fail(consume_msg(ts, i, TokenType::Ident, "Function name must follow function keyword"@))
    } else if !can_consume(ts, i + 1, TokenType::LeftParen) {
        Parsed::Fail(consume_msg(ts, i + 1, TokenType::LeftParen, "Function name must be followed by '('"@))
    } else {
        p_function_args(ts, i + 2, lex_name(tk(ts, i)), Seq::empty())
    }
}

pub open spec fn add_item(p: SProgram, item: SItem) -> SProgram {
    match item {
        SItem::Normal(pa) => SProgram { pattern_actions: p.pattern_actions.push(pa), ..p },
        SItem::Begin(s) => SProgram { begins: p.begins.push(s), ..p },
        SItem::End(s) => SProgram { ends: p.ends.push(s), ..p },
    }
}

pub open spec fn p_program(ts: Seq<Lexeme>, i: int, acc: SProgram) -> Parsed<SProgram>
    decreases ts.len() - i,
{
    if at_end(ts, i) {
        Parsed::Done(acc, i)
    } else if ty(ts, i) == TokenType::Function {
        match p_function(ts, i + 1) {
            Parsed::Done(f, j) => if i < j <= ts.len() {
                p_program(ts, j, SProgram { functions: acc.functions.push(f), ..acc })
            } else { Parsed::Stuck },
            Parsed::Fail(m) => Parsed::Fail(m),
            Parsed::Stuck => Parsed::Stuck,
        }
    } else {
        match p_pattern_action(ts, i) {
            Parsed::Done(item, j) => if i < j <= ts.len() { p_program(ts, j, add_item(acc, item)) } else { Parsed::Stuck },
            Parsed::Fail(m) => Parsed::Fail(m),
            Parsed::Stuck => Parsed::Stuck,
        }
    }
}

pub open spec fn empty_program() -> SProgram {
    SProgram { begins: Seq::empty(), ends: Seq::empty(), pattern_actions: Seq::empty(), functions: Seq::empty() }
}

/// What parsing the tokens `ts` gives: a program or an error message.
/// Without an `EOF` token the parser would read past the end, so then there
/// is no answer (`Stuck`).
pub open spec fn parse_spec(ts: Seq<Lexeme>) -> Parsed<SProgram> {
    if ts.contains(Lexeme::Plain(Token::EOF)) {
        p_program(ts, 0, empty_program())
    } else {
        Parsed::Stuck
    }
}


pub open spec fn lex_text(l: Lexeme) -> Seq<char> {
    match l {
        Lexeme::Number(s) => s,
        Lexeme::Str(s) => s,
        Lexeme::Regex(s) => s,
        _ => Seq::empty(),
    }
}

#[verifier::spinoff_prover]
pub proof fn lemma_typed_seq_view(s: Seq<TypedExpr>, n: nat)
    requires
        n <= s.len(),
    ensures
        typed_seq_view(s, n).len() == n,
        forall|i: int| 0 <= i < n ==> #[trigger] typed_seq_view(s, n)[i] == typed_view(s[i]),
    decreases n,
{
    if n > 0 {
        lemma_typed_seq_view(s, (n - 1) as nat);
    }
}

#[verifier::spinoff_prover]
pub proof fn lemma_stmt_seq_view(s: Seq<Stmt>, n: nat)
    requires
        n <= s.len(),
    ensures
        stmt_seq_view(s, n).len() == n,
        forall|i: int| 0 <= i < n ==> #[trigger] stmt_seq_view(s, n)[i] == stmt_view(s[i]),
    decreases n,
{
    if n > 0 {
        lemma_stmt_seq_view(s, (n - 1) as nat);
    }
}

/// The view of a list of expressions.
pub open spec fn tvs(v: Vec<TypedExpr>) -> Seq<STyped> {
    typed_seq_view(v@, v@.len())
}

pub open spec fn svs(v: Vec<Stmt>) -> Seq<SStmt> {
    stmt_seq_view(v@, v@.len())
}

#[verifier::spinoff_prover]
proof fn lemma_tvs_push(v: Seq<TypedExpr>, x: TypedExpr)
    ensures
        typed_seq_view(v.push(x), v.len() + 1) == typed_seq_view(v, v.len()).push(typed_view(x)),
{
    lemma_typed_seq_view(v.push(x), v.len() + 1);
    lemma_typed_seq_view(v, v.len());
    assert(typed_seq_view(v.push(x), v.len() + 1) =~= typed_seq_view(v, v.len()).push(typed_view(x)));
}

#[verifier::spinoff_prover]
proof fn lemma_svs_push(v: Seq<Stmt>, x: Stmt)
    ensures
        stmt_seq_view(v.push(x), v.len() + 1) == stmt_seq_view(v, v.len()).push(stmt_view(x)),
{
    lemma_stmt_seq_view(v.push(x), v.len() + 1);
    lemma_stmt_seq_view(v, v.len());
    assert(stmt_seq_view(v.push(x), v.len() + 1) =~= stmt_seq_view(v, v.len()).push(stmt_view(x)));
}

#[verifier::spinoff_prover]
fn push_expr(v: &mut Vec<TypedExpr>, x: TypedExpr)
    ensures
        tvs(*final(v)) == tvs(*old(v)).push(typed_view(x)),
{
    proof { lemma_tvs_push(old(v)@, x); }
    v.push(x);
}

#[verifier::spinoff_prover]
fn push_stmt(v: &mut Vec<Stmt>, x: Stmt)
    ensures
        svs(*final(v)) == svs(*old(v)).push(stmt_view(x)),
{
    proof { lemma_svs_push(old(v)@, x); }
    v.push(x);
}

/// An expression of the variable type.
#[verifier::spinoff_prover]
fn tvx(e: Expr) -> (r: TypedExpr)
    ensures
        r.view() == tv(expr_view(e)),
{
    TypedExpr { typ: ScalarType::Variable, expr: e }
}

#[verifier::spinoff_prover]
fn number(text: &str) -> (r: TypedExpr)
    ensures
        r.view() == num(text@),
{
    tvx(Expr::Number(String::from_str(text)))
}

/// Whether a name is `word`.
#[verifier::spinoff_prover]
fn name_is(sym: &Symbol, word: &str) -> (r: bool)
    ensures
        r == (sym.name() == word@),
{
    let chars = crate::text::str_chars(sym.to_str());
    crate::lexer::eq_word(&chars, word)
}

/// How the parser agrees with its specification on an expression.
pub open spec fn agree_e(r: Result<TypedExpr, String>, p: Parsed<STyped>, cur: int) -> bool {
    match p {
        Parsed::Done(e, j) => (match r { Ok(x) => typed_view(x) == e, Err(_) => false }) && cur == j,
        Parsed::Fail(m) => match r { Err(s) => s@ == m, _ => false },
        Parsed::Stuck => false,
    }
}

pub open spec fn agree_s(r: Result<Stmt, String>, p: Parsed<SStmt>, cur: int) -> bool {
    match p {
        Parsed::Done(e, j) => (match r { Ok(x) => stmt_view(x) == e, Err(_) => false }) && cur == j,
        Parsed::Fail(m) => match r { Err(s) => s@ == m, _ => false },
        Parsed::Stuck => false,
    }
}

pub open spec fn agree_v(r: Result<Vec<TypedExpr>, String>, p: Parsed<Seq<STyped>>, cur: int) -> bool {
    match p {
        Parsed::Done(e, j) => (match r { Ok(x) => tvs(x) == e, Err(_) => false }) && cur == j,
        Parsed::Fail(m) => match r { Err(s) => s@ == m, _ => false },
        Parsed::Stuck => false,
    }
}

/// Reads tokens into a syntax tree.
struct Parser {
    tokens: Vec<Token>,
    current: usize,
}

impl Parser {
    spec fn ts(&self) -> Seq<Lexeme> {
        lexemes(self.tokens@)
    }

    /// The kind of the token at `idx`; past the end, `EOF`.
    #[verifier::spinoff_prover]
    fn ty_of(&self, idx: usize) -> (r: TokenType)
        ensures
            r == ty(self.ts(), idx as int),
            r != TokenType::EOF ==> idx < self.tokens@.len(),
            self.ts().len() == self.tokens@.len(),
    {
        if idx < self.tokens.len() {
            token_type(&self.tokens[idx])
        } else {
            TokenType::EOF
        }
    }

    /// The kind of the token `off` places after the current one.
    #[verifier::spinoff_prover]
    fn ty_at(&self, off: usize) -> (r: TokenType)
        requires
            self.current <= self.tokens@.len(),
        ensures
            r == ty(self.ts(), self.current + off),
            r != TokenType::EOF ==> self.current + off < self.tokens@.len(),
            self.ts().len() == self.tokens@.len(),
            self.tokens@.len() <= usize::MAX,
    {
        if off < self.tokens.len() - self.current {
            token_type(&self.tokens[self.current + off])
        } else {
            TokenType::EOF
        }
    }

    #[verifier::spinoff_prover]
    fn at_end(&self) -> (r: bool)
        requires
            self.current <= self.tokens@.len(),
        ensures
            r == at_end(self.ts(), self.current as int),
    {
        self.ty_at(0) == TokenType::EOF
    }

    #[verifier::spinoff_prover]
    fn can_consume(&self, typ: TokenType) -> (r: bool)
        requires
            self.current <= self.tokens@.len(),
        ensures
            r == can_consume(self.ts(), self.current as int, typ),
            r ==> self.current < self.tokens@.len(),
            self.tokens@.len() <= usize::MAX,
    {
        let t = self.ty_at(0);
        t != TokenType::EOF && t == typ
    }

    #[verifier::spinoff_prover]
    fn consume_error(&self, typ: TokenType, msg: &str) -> (s: String)
        requires
            self.current <= self.tokens@.len(),
        ensures
            s@ == consume_msg(self.ts(), self.current as int, typ, msg@),
    {
        let found = self.ty_at(0);
        let mut s = String::from_str(msg);
        s.append(" - didn't find a `");
        s.append(token_type_name(typ));
        s.append("` as expected. Found `");
        s.append(token_type_name(found));
        s.append("`");
        proof {
            reveal_strlit(" - didn't find a `");
            reveal_strlit("` as expected. Found `");
            reveal_strlit("`");
        }
        s
    }

    /// The name of the identifier `off` places after the current token.
    #[verifier::spinoff_prover]
    fn ident_at(&self, off: usize) -> (r: Option<Symbol>)
        requires
            self.current <= self.tokens@.len(),
            ty(self.ts(), self.current + off) == TokenType::Ident,
        ensures
            r matches Some(s) && s.name() == lex_name(tk(self.ts(), self.current + off)),
    {
        proof {
            reveal(tt);
        }
        if off < self.tokens.len() - self.current {
            match &self.tokens[self.current + off] {
                Token::Ident(s) => Some(s.copy()),
                _ => None,
            }
        } else {
            None
        }
    }

    /// The text the current token carries.
    #[verifier::spinoff_prover]
    fn text_at(&self) -> (r: Option<String>)
        requires
            self.current < self.tokens@.len(),
        ensures
            r matches Some(s) ==> s@ == lex_text(tk(self.ts(), self.current as int)),
            (ty(self.ts(), self.current as int) == TokenType::Number
                || ty(self.ts(), self.current as int) == TokenType::String
                || ty(self.ts(), self.current as int) == TokenType::Regex) ==> r is Some,
    {
        proof {
            reveal(tt);
        }
        match &self.tokens[self.current] {
            Token::Number(s) => Some(s.clone()),
            Token::String(s) => Some(s.clone()),
            Token::Regex(s) => Some(s.clone()),
            _ => None,
        }
    }

    #[verifier::spinoff_prover]
    fn math_at(&self, off: usize) -> (r: MathOp)
        requires
            self.current <= self.tokens@.len(),
        ensures
            r == lex_math(tk(self.ts(), self.current + off)),
    {
        if off < self.tokens.len() - self.current {
            match &self.tokens[self.current + off] {
                Token::MathOp(m) => *m,
                Token::InplaceEq(m) => *m,
                _ => MathOp::Plus,
            }
        } else {
            MathOp::Plus
        }
    }

    #[verifier::spinoff_prover]
    fn bin_at(&self) -> (r: BinOp)
        requires
            self.current <= self.tokens@.len(),
        ensures
            r == lex_bin(tk(self.ts(), self.current as int)),
    {
        if self.current < self.tokens.len() {
            match &self.tokens[self.current] {
                Token::BinOp(b) => *b,
                _ => BinOp::EqEq,
            }
        } else {
            BinOp::EqEq
        }
    }
}


#[verifier::spinoff_prover]
fn concat_stops(t: TokenType) -> (r: bool)
    ensures
        r == concat_stop(t),
{
    t == TokenType::InplaceAssign || t == TokenType::Less || t == TokenType::LessEq
        || t == TokenType::BangEq || t == TokenType::EqEq || t == TokenType::Greater
        || t == TokenType::GreaterEq || t == TokenType::And || t == TokenType::Or
        || t == TokenType::Eq || t == TokenType::Semicolon || t == TokenType::RightBrace
        || t == TokenType::RightParen || t == TokenType::LeftBrace || t == TokenType::Question
        || t == TokenType::Colon || t == TokenType::MatchedBy || t == TokenType::NotMatchedBy
        || t == TokenType::Comma || t == TokenType::In || t == TokenType::LeftBracket
        || t == TokenType::RightBracket || t == TokenType::Printf
}

#[verifier::spinoff_prover]
fn is_compare_op(t: TokenType) -> (r: bool)
    ensures
        r == compare_op(t),
{
    t == TokenType::GreaterEq || t == TokenType::Greater || t == TokenType::Less
        || t == TokenType::LessEq || t == TokenType::EqEq || t == TokenType::BangEq
}

#[verifier::spinoff_prover]
fn concat_exprs(e: TypedExpr, r: TypedExpr) -> (x: TypedExpr)
    ensures
        typed_view(x) == concat_with(typed_view(e), typed_view(r)),
{
    let typ = e.typ;
    match e.expr {
        Expr::Concatenation(vals) => {
            let mut vals = vals;
            push_expr(&mut vals, r);
            TypedExpr { typ, expr: Expr::Concatenation(vals) }
        }
        other => {
            let first = TypedExpr { typ, expr: other };
            let mut v: Vec<TypedExpr> = Vec::new();
            push_expr(&mut v, first);
            push_expr(&mut v, r);
            proof {
                assert(tvs(v) =~= seq![typed_view(e), typed_view(r)]);
            }
            tvx(Expr::Concatenation(v))
        }
    }
}

#[verifier::spinoff_prover]
fn as_lvalue_exec(x: TypedExpr) -> (r: Option<LValue>)
    ensures
        match as_lvalue(typed_view(x)) {
            Some(l) => r matches Some(v) && lvalue_view(v) == l,
            None => r is None,
        },
{
    match x.expr {
        Expr::Variable(n) => Some(LValue::Variable(n)),
        Expr::Column(c) => Some(LValue::Column(c)),
        Expr::ArrayIndex { name, indices } => Some(LValue::ArrayIndex { name, indices }),
        _ => None,
    }
}

#[verifier::spinoff_prover]
fn call_result_exec(target: Symbol, args: Vec<TypedExpr>) -> (r: Result<TypedExpr, String>)
    ensures
        agree_e(r, call_result(target.name(), tvs(args)), 0),
{
    proof {
        reveal_strlit("sub");
        reveal_strlit("gsub");
        lemma_typed_seq_view(args@, args@.len());
    }
    let is_sub = name_is(&target, "sub");
    let is_gsub = name_is(&target, "gsub");
    if !(is_sub || is_gsub) {
        return Ok(tvx(Expr::Call { target, args }));
    }
    let n = args.len();
    let ghost views = tvs(args);
    if n == 2 || n == 3 {
        let mut args = args;
        let arg3 = if n == 3 {
            let x = args.pop().unwrap();
            match as_lvalue_exec(x) {
                Some(l) => l,
                None => {
                    let msg = join3("Argument #3 to the ", &String::from_str(target.to_str()),
                        " builtin function must be an lvalue: a variable `B`, an index into an array `B[1]`, or a column `$3`.");
                    return Err(msg);
                }
            }
        } else {
            LValue::Column(Box::new(number("0")))
        };
        let arg2 = args.pop().unwrap();
        let arg1 = args.pop().unwrap();
        Ok(tvx(Expr::CallSub { arg1: Box::new(arg1), arg2: Box::new(arg2), arg3, global: is_gsub }))
    } else {
        let msg = join3("Builtin function ", &String::from_str(target.to_str()), " can only be called with 2 or 3 arguments");
        Err(msg)
    }
}

impl Parser {
    #[verifier::spinoff_prover]
    fn find_right_paren(&self) -> (r: Option<usize>)
        requires
            self.current <= self.tokens@.len(),
        ensures
            match r {
                Some(k) => k < self.tokens@.len() && find_rparen(self.ts(), self.current as int) == Some(k as int),
                None => find_rparen(self.ts(), self.current as int) is None,
            },
    {
        let mut idx = self.current;
        while idx < self.tokens.len()
            invariant
                self.current <= idx <= self.tokens@.len(),
                find_rparen(self.ts(), idx as int) == find_rparen(self.ts(), self.current as int),
            decreases self.tokens@.len() - idx,
        {
            if self.ty_of(idx) == TokenType::RightParen {
                return Some(idx);
            }
            idx = idx + 1;
        }
        None
    }

    #[verifier::spinoff_prover]
    fn primary(&mut self) -> (r: Result<TypedExpr, String>)
        requires
            old(self).current <= old(self).tokens@.len(),
        ensures
            final(self).tokens == old(self).tokens,
            old(self).current <= final(self).current <= final(self).tokens@.len(),
            r is Ok ==> old(self).current < final(self).current,
            agree_e(r, p_primary(old(self).ts(), old(self).current as int), final(self).current as int),
        decreases old(self).tokens@.len() - old(self).current, 1int,
    {
        proof {
            reveal_with_fuel(p_primary, 1);
        }
        let t = self.ty_at(0);
        if t == TokenType::EOF {
            Err(String::from_str("Unexpected end of input"))
        } else if t == TokenType::Number || t == TokenType::String || t == TokenType::Regex {
            let text = match self.text_at() { Some(s) => s, None => return Err(String::new()) };
            self.current = self.current + 1;
            let e = if t == TokenType::Number {
                Expr::Number(text)
            } else if t == TokenType::String {
                Expr::String(text)
            } else {
                Expr::Regex(text)
            };
            Ok(tvx(e))
        } else if t == TokenType::Ident {
            self.name_use()
        } else if t == TokenType::LeftParen {
            self.current = self.current + 1;
            self.paren()
        } else {
            Err(join3("Unexpected token `", &String::from_str(token_type_name(t)), "`"))
        }
    }

    #[verifier::spinoff_prover]
    fn name_use(&mut self) -> (r: Result<TypedExpr, String>)
        requires
            old(self).current <= old(self).tokens@.len(),
            ty(old(self).ts(), old(self).current as int) == TokenType::Ident,
        ensures
            final(self).tokens == old(self).tokens,
            old(self).current <= final(self).current <= final(self).tokens@.len(),
            r is Ok ==> old(self).current < final(self).current,
            agree_e(r, p_name_use(old(self).ts(), old(self).current as int), final(self).current as int),
        decreases old(self).tokens@.len() - old(self).current, 0int,
    {
        let name = match self.ident_at(0) { Some(s) => s, None => return Err(String::new()) };
        let next = self.ty_at(1);
        if next == TokenType::LeftBracket {
            self.current = self.current + 2;
            self.array_index(name)
        } else if next == TokenType::LeftParen {
            self.current = self.current + 2;
            let none: Vec<TypedExpr> = Vec::new();
            proof {
                assert(tvs(none) =~= Seq::<STyped>::empty());
            }
            self.call(name, none)
        } else {
            self.current = self.current + 1;
            Ok(tvx(Expr::Variable(name)))
        }
    }

    #[verifier::spinoff_prover]
    fn paren(&mut self) -> (r: Result<TypedExpr, String>)
        requires
            old(self).current <= old(self).tokens@.len(),
        ensures
            final(self).tokens == old(self).tokens,
            old(self).current <= final(self).current <= final(self).tokens@.len(),
            r is Ok ==> old(self).current < final(self).current,
            agree_e(r, p_paren(old(self).ts(), old(self).current as int), final(self).current as int),
        decreases old(self).tokens@.len() - old(self).current, 45int,
    {
        let e = match self.assignment() { Ok(x) => x, Err(err) => return Err(err) };
        if self.can_consume(TokenType::RightParen) {
            self.current = self.current + 1;
            Ok(e)
        } else {
            Err(self.consume_error(TokenType::RightParen, "Missing closing ')' after group"))
        }
    }

    /// A call whose `(` is consumed, with the arguments read so far.
    #[verifier::spinoff_prover]
    fn call(&mut self, target: Symbol, args: Vec<TypedExpr>) -> (r: Result<TypedExpr, String>)
        requires
            old(self).current <= old(self).tokens@.len(),
        ensures
            final(self).tokens == old(self).tokens,
            old(self).current <= final(self).current <= final(self).tokens@.len(),
            r is Ok ==> old(self).current < final(self).current,
            agree_e(r, p_call(old(self).ts(), old(self).current as int, target.name(), tvs(args)), final(self).current as int),
        decreases old(self).tokens@.len() - old(self).current, 43int,
    {
        let mut args = args;
        let t = self.ty_at(0);
        if t == TokenType::RightParen {
            self.current = self.current + 1;
            return call_result_exec(target, args);
        }
        if t == TokenType::EOF {
            return Err(String::from_str("Hit EOF while parsing function args"));
        }
        let e = match self.assignment() { Ok(x) => x, Err(err) => return Err(err) };
        push_expr(&mut args, e);
        if self.ty_at(0) == TokenType::Comma {
            self.current = self.current + 1;
            self.call(target, args)
        } else if self.can_consume(TokenType::RightParen) {
            self.current = self.current + 1;
            call_result_exec(target, args)
        } else {
            Err(self.consume_error(TokenType::RightParen, "Expected a right paren ')' after a function call"))
        }
    }

    #[verifier::spinoff_prover]
    fn array_index(&mut self, name: Symbol) -> (r: Result<TypedExpr, String>)
        requires
            old(self).current <= old(self).tokens@.len(),
        ensures
            final(self).tokens == old(self).tokens,
            old(self).current <= final(self).current <= final(self).tokens@.len(),
            r is Ok ==> old(self).current < final(self).current,
            agree_e(r, p_array_index(old(self).ts(), old(self).current as int, name.name()), final(self).current as int),
        decreases old(self).tokens@.len() - old(self).current, 44int,
    {
        let e = match self.assignment() { Ok(x) => x, Err(err) => return Err(err) };
        let mut idx: Vec<TypedExpr> = Vec::new();
        push_expr(&mut idx, e);
        self.index_rest(name, idx)
    }

    #[verifier::spinoff_prover]
    fn index_close(&mut self, name: Symbol, idx: Vec<TypedExpr>) -> (r: Result<TypedExpr, String>)
        requires
            old(self).current <= old(self).tokens@.len(),
        ensures
            final(self).tokens == old(self).tokens,
            old(self).current <= final(self).current <= final(self).tokens@.len(),
            r is Ok ==> old(self).current < final(self).current,
            agree_e(r, index_close(old(self).ts(), old(self).current as int, name.name(), tvs(idx)), final(self).current as int),
    {
        if self.can_consume(TokenType::RightBracket) {
            self.current = self.current + 1;
            Ok(tvx(Expr::ArrayIndex { name, indices: idx }))
        } else {
            Err(self.consume_error(TokenType::RightBracket, "Array indexing must end with a right bracket."))
        }
    }

    #[verifier::spinoff_prover]
    fn index_rest(&mut self, name: Symbol, idx: Vec<TypedExpr>) -> (r: Result<TypedExpr, String>)
        requires
            old(self).current <= old(self).tokens@.len(),
        ensures
            final(self).tokens == old(self).tokens,
            old(self).current <= final(self).current <= final(self).tokens@.len(),
            r is Ok ==> old(self).current < final(self).current,
            agree_e(r, p_index_rest(old(self).ts(), old(self).current as int, name.name(), tvs(idx)), final(self).current as int),
        decreases old(self).tokens@.len() - old(self).current, 42int,
    {
        let mut idx = idx;
        if self.ty_at(0) == TokenType::Comma {
            if self.ty_at(1) != TokenType::RightBracket {
                self.current = self.current + 1;
                let e = match self.assignment() { Ok(x) => x, Err(err) => return Err(err) };
                push_expr(&mut idx, e);
                self.index_rest(name, idx)
            } else {
                self.current = self.current + 1;
                self.index_close(name, idx)
            }
        } else {
            self.index_close(name, idx)
        }
    }

    #[verifier::spinoff_prover]
    fn column(&mut self) -> (r: Result<TypedExpr, String>)
        requires
            old(self).current <= old(self).tokens@.len(),
        ensures
            final(self).tokens == old(self).tokens,
            old(self).current <= final(self).current <= final(self).tokens@.len(),
            r is Ok ==> old(self).current < final(self).current,
            agree_e(r, p_column(old(self).ts(), old(self).current as int), final(self).current as int),
        decreases old(self).tokens@.len() - old(self).current, 2int,
    {
        if self.ty_at(0) == TokenType::Column {
            self.current = self.current + 1;
            let e = match self.column() { Ok(x) => x, Err(err) => return Err(err) };
            Ok(tvx(Expr::Column(Box::new(e))))
        } else {
            self.primary()
        }
    }

    #[verifier::spinoff_prover]
    fn post_op(&mut self) -> (r: Result<TypedExpr, String>)
        requires
            old(self).current <= old(self).tokens@.len(),
        ensures
            final(self).tokens == old(self).tokens,
            old(self).current <= final(self).current <= final(self).tokens@.len(),
            r is Ok ==> old(self).current < final(self).current,
            agree_e(r, p_post_op(old(self).ts(), old(self).current as int), final(self).current as int),
        decreases old(self).tokens@.len() - old(self).current, 4int,
    {
        let e = match self.column() { Ok(x) => x, Err(err) => return Err(err) };
        let var = match &e.expr {
            Expr::Variable(name) => Some(name.copy()),
            _ => None,
        };
        match var {
            Some(name) => {
                if self.ty_at(0) == TokenType::Plus && self.ty_at(1) == TokenType::Plus {
                    self.current = self.current + 2;
                    let inc = tvx(Expr::MathOp(Box::new(e), MathOp::Plus, Box::new(number("1"))));
                    let assign = tvx(Expr::ScalarAssign(name, Box::new(inc)));
                    Ok(tvx(Expr::MathOp(Box::new(assign), MathOp::Minus, Box::new(number("1")))))
                } else if self.ty_at(0) == TokenType::Minus && self.ty_at(1) == TokenType::Minus {
                    self.current = self.current + 2;
                    let dec = tvx(Expr::MathOp(Box::new(e), MathOp::Minus, Box::new(number("1"))));
                    let assign = tvx(Expr::ScalarAssign(name, Box::new(dec)));
                    Ok(tvx(Expr::MathOp(Box::new(assign), MathOp::Plus, Box::new(number("1")))))
                } else {
                    Ok(e)
                }
            }
            None => Ok(e),
        }
    }

    #[verifier::spinoff_prover]
    fn pre_op(&mut self) -> (r: Result<TypedExpr, String>)
        requires
            old(self).current <= old(self).tokens@.len(),
        ensures
            final(self).tokens == old(self).tokens,
            old(self).current <= final(self).current <= final(self).tokens@.len(),
            r is Ok ==> old(self).current < final(self).current,
            agree_e(r, p_pre_op(old(self).ts(), old(self).current as int), final(self).current as int),
        decreases old(self).tokens@.len() - old(self).current, 5int,
    {
        let t0 = self.ty_at(0);
        let t1 = self.ty_at(1);
        let t2 = self.ty_at(2);
        if (t0 == TokenType::Plus || t0 == TokenType::Minus) && t1 == t0 && t2 == TokenType::Ident {
            let name = match self.ident_at(2) { Some(s) => s, None => return Err(String::new()) };
            self.current = self.current + 3;
            let op = if t0 == TokenType::Plus { MathOp::Plus } else { MathOp::Minus };
            let step = tvx(Expr::MathOp(Box::new(tvx(Expr::Variable(name.copy()))), op, Box::new(number("1"))));
            Ok(tvx(Expr::ScalarAssign(name, Box::new(step))))
        } else {
            self.post_op()
        }
    }

    #[verifier::spinoff_prover]
    fn exp_rest(&mut self, e: TypedExpr) -> (r: Result<TypedExpr, String>)
        requires
            old(self).current <= old(self).tokens@.len(),
        ensures
            final(self).tokens == old(self).tokens,
            old(self).current <= final(self).current <= final(self).tokens@.len(),
            agree_e(r, p_exp_rest(old(self).ts(), old(self).current as int, typed_view(e)), final(self).current as int),
        decreases old(self).tokens@.len() - old(self).current, 6int,
    {
        if self.ty_at(0) == TokenType::Exponent {
            self.current = self.current + 1;
            let r = match self.pre_op() { Ok(x) => x, Err(err) => return Err(err) };
            let e = tvx(Expr::MathOp(Box::new(e), MathOp::Exponent, Box::new(r)));
            self.exp_rest(e)
        } else {
            Ok(e)
        }
    }

    #[verifier::spinoff_prover]
    fn exp(&mut self) -> (r: Result<TypedExpr, String>)
        requires
            old(self).current <= old(self).tokens@.len(),
        ensures
            final(self).tokens == old(self).tokens,
            old(self).current <= final(self).current <= final(self).tokens@.len(),
            r is Ok ==> old(self).current < final(self).current,
            agree_e(r, p_exp(old(self).ts(), old(self).current as int), final(self).current as int),
        decreases old(self).tokens@.len() - old(self).current, 7int,
    {
        let e = match self.pre_op() { Ok(x) => x, Err(err) => return Err(err) };
        self.exp_rest(e)
    }

    #[verifier::spinoff_prover]
    fn unary(&mut self) -> (r: Result<TypedExpr, String>)
        requires
            old(self).current <= old(self).tokens@.len(),
        ensures
            final(self).tokens == old(self).tokens,
            old(self).current <= final(self).current <= final(self).tokens@.len(),
            r is Ok ==> old(self).current < final(self).current,
            agree_e(r, p_unary(old(self).ts(), old(self).current as int), final(self).current as int),
        decreases old(self).tokens@.len() - old(self).current, 8int,
    {
        let t = self.ty_at(0);
        let t1 = self.ty_at(1);
        if !(t == TokenType::Minus && t1 == TokenType::Minus)
            && !(t == TokenType::Plus && t1 == TokenType::Plus)
            && (t == TokenType::Minus || t == TokenType::Plus || t == TokenType::Bang) {
            self.current = self.current + 1;
            let r = match self.unary() { Ok(x) => x, Err(err) => return Err(err) };
            if t == TokenType::Bang {
                Ok(tvx(Expr::BinOp(Box::new(number("1")), BinOp::BangEq, Box::new(r))))
            } else if t == TokenType::Plus {
                Ok(tvx(Expr::MathOp(Box::new(number("0")), MathOp::Plus, Box::new(r))))
            } else {
                Ok(tvx(Expr::MathOp(Box::new(number("0")), MathOp::Minus, Box::new(r))))
            }
        } else {
            self.exp()
        }
    }

    #[verifier::spinoff_prover]
    fn term_rest(&mut self, e: TypedExpr) -> (r: Result<TypedExpr, String>)
        requires
            old(self).current <= old(self).tokens@.len(),
        ensures
            final(self).tokens == old(self).tokens,
            old(self).current <= final(self).current <= final(self).tokens@.len(),
            agree_e(r, p_term_rest(old(self).ts(), old(self).current as int, typed_view(e)), final(self).current as int),
        decreases old(self).tokens@.len() - old(self).current, 9int,
    {
        let t = self.ty_at(0);
        if t == TokenType::Star || t == TokenType::Slash || t == TokenType::Modulo {
            let op = self.math_at(0);
            self.current = self.current + 1;
            let r = match self.unary() { Ok(x) => x, Err(err) => return Err(err) };
            let e = tvx(Expr::MathOp(Box::new(e), op, Box::new(r)));
            self.term_rest(e)
        } else {
            Ok(e)
        }
    }

    #[verifier::spinoff_prover]
    fn term(&mut self) -> (r: Result<TypedExpr, String>)
        requires
            old(self).current <= old(self).tokens@.len(),
        ensures
            final(self).tokens == old(self).tokens,
            old(self).current <= final(self).current <= final(self).tokens@.len(),
            r is Ok ==> old(self).current < final(self).current,
            agree_e(r, p_term(old(self).ts(), old(self).current as int), final(self).current as int),
        decreases old(self).tokens@.len() - old(self).current, 10int,
    {
        let e = match self.unary() { Ok(x) => x, Err(err) => return Err(err) };
        self.term_rest(e)
    }

    #[verifier::spinoff_prover]
    fn pm_rest(&mut self, e: TypedExpr) -> (r: Result<TypedExpr, String>)
        requires
            old(self).current <= old(self).tokens@.len(),
        ensures
            final(self).tokens == old(self).tokens,
            old(self).current <= final(self).current <= final(self).tokens@.len(),
            agree_e(r, p_pm_rest(old(self).ts(), old(self).current as int, typed_view(e)), final(self).current as int),
        decreases old(self).tokens@.len() - old(self).current, 11int,
    {
        let t = self.ty_at(0);
        if t == TokenType::Plus || t == TokenType::Minus {
            let op = self.math_at(0);
            self.current = self.current + 1;
            let r = match self.plus_minus() { Ok(x) => x, Err(err) => return Err(err) };
            let e = tvx(Expr::MathOp(Box::new(e), op, Box::new(r)));
            self.pm_rest(e)
        } else {
            Ok(e)
        }
    }

    #[verifier::spinoff_prover]
    fn plus_minus(&mut self) -> (r: Result<TypedExpr, String>)
        requires
            old(self).current <= old(self).tokens@.len(),
        ensures
            final(self).tokens == old(self).tokens,
            old(self).current <= final(self).current <= final(self).tokens@.len(),
            r is Ok ==> old(self).current < final(self).current,
            agree_e(r, p_plus_minus(old(self).ts(), old(self).current as int), final(self).current as int),
        decreases old(self).tokens@.len() - old(self).current, 12int,
    {
        let e = match self.term() { Ok(x) => x, Err(err) => return Err(err) };
        self.pm_rest(e)
    }

    #[verifier::spinoff_prover]
    fn concat_rest(&mut self, e: TypedExpr) -> (r: Result<TypedExpr, String>)
        requires
            old(self).current <= old(self).tokens@.len(),
        ensures
            final(self).tokens == old(self).tokens,
            old(self).current <= final(self).current <= final(self).tokens@.len(),
            agree_e(r, p_concat_rest(old(self).ts(), old(self).current as int, typed_view(e)), final(self).current as int),
        decreases old(self).tokens@.len() - old(self).current, 13int,
    {
        let t = self.ty_at(0);
        if t == TokenType::EOF || concat_stops(t) {
            Ok(e)
        } else {
            let r = match self.plus_minus() { Ok(x) => x, Err(err) => return Err(err) };
            let e = concat_exprs(e, r);
            self.concat_rest(e)
        }
    }

    #[verifier::spinoff_prover]
    fn string_concat(&mut self) -> (r: Result<TypedExpr, String>)
        requires
            old(self).current <= old(self).tokens@.len(),
        ensures
            final(self).tokens == old(self).tokens,
            old(self).current <= final(self).current <= final(self).tokens@.len(),
            r is Ok ==> old(self).current < final(self).current,
            agree_e(r, p_string_concat(old(self).ts(), old(self).current as int), final(self).current as int),
        decreases old(self).tokens@.len() - old(self).current, 14int,
    {
        proof {
            reveal_with_fuel(p_string_concat, 1);
        }
        let e = match self.plus_minus() { Ok(x) => x, Err(err) => return Err(err) };
        self.concat_rest(e)
    }

    #[verifier::spinoff_prover]
    fn compare_rest(&mut self, e: TypedExpr) -> (r: Result<TypedExpr, String>)
        requires
            old(self).current <= old(self).tokens@.len(),
        ensures
            final(self).tokens == old(self).tokens,
            old(self).current <= final(self).current <= final(self).tokens@.len(),
            agree_e(r, p_compare_rest(old(self).ts(), old(self).current as int, typed_view(e)), final(self).current as int),
        decreases old(self).tokens@.len() - old(self).current, 15int,
    {
        let t = self.ty_at(0);
        if is_compare_op(t) {
            let op = self.bin_at();
            self.current = self.current + 1;
            let res = self.string_concat();
            let r = match res { Ok(x) => x, Err(err) => return Err(err) };
            let e = tvx(Expr::BinOp(Box::new(e), op, Box::new(r)));
            self.compare_rest(e)
        } else {
            Ok(e)
        }
    }

    #[verifier::spinoff_prover]
    fn compare(&mut self) -> (r: Result<TypedExpr, String>)
        requires
            old(self).current <= old(self).tokens@.len(),
        ensures
            final(self).tokens == old(self).tokens,
            old(self).current <= final(self).current <= final(self).tokens@.len(),
            r is Ok ==> old(self).current < final(self).current,
            agree_e(r, p_compare(old(self).ts(), old(self).current as int), final(self).current as int),
        decreases old(self).tokens@.len() - old(self).current, 16int,
    {
        proof {
            reveal_with_fuel(p_compare, 1);
        }
        let e = match self.string_concat() { Ok(x) => x, Err(err) => return Err(err) };
        self.compare_rest(e)
    }

    #[verifier::spinoff_prover]
    fn regex_rest(&mut self, e: TypedExpr) -> (r: Result<TypedExpr, String>)
        requires
            old(self).current <= old(self).tokens@.len(),
        ensures
            final(self).tokens == old(self).tokens,
            old(self).current <= final(self).current <= final(self).tokens@.len(),
            agree_e(r, p_regex_rest(old(self).ts(), old(self).current as int, typed_view(e)), final(self).current as int),
        decreases old(self).tokens@.len() - old(self).current, 17int,
    {
        let t = self.ty_at(0);
        if t == TokenType::MatchedBy || t == TokenType::NotMatchedBy {
            let op = if t == TokenType::MatchedBy { BinOp::MatchedBy } else { BinOp::NotMatchedBy };
            self.current = self.current + 1;
            let res = self.compare();
            let r = match res { Ok(x) => x, Err(err) => return Err(err) };
            let e = tvx(Expr::BinOp(Box::new(e), op, Box::new(r)));
            self.regex_rest(e)
        } else {
            Ok(e)
        }
    }

    #[verifier::spinoff_prover]
    fn regex(&mut self) -> (r: Result<TypedExpr, String>)
        requires
            old(self).current <= old(self).tokens@.len(),
        ensures
            final(self).tokens == old(self).tokens,
            old(self).current <= final(self).current <= final(self).tokens@.len(),
            r is Ok ==> old(self).current < final(self).current,
            agree_e(r, p_regex(old(self).ts(), old(self).current as int), final(self).current as int),
        decreases old(self).tokens@.len() - old(self).current, 18int,
    {
        let e = match self.compare() { Ok(x) => x, Err(err) => return Err(err) };
        self.regex_rest(e)
    }

    #[verifier::spinoff_prover]
    fn in_rest(&mut self, e: TypedExpr) -> (r: Result<TypedExpr, String>)
        requires
            old(self).current <= old(self).tokens@.len(),
        ensures
            final(self).tokens == old(self).tokens,
            old(self).current <= final(self).current <= final(self).tokens@.len(),
            agree_e(r, p_in_rest(old(self).ts(), old(self).current as int, typed_view(e)), final(self).current as int),
        decreases old(self).tokens@.len() - old(self).current, 19int,
    {
        if self.ty_at(0) == TokenType::In {
            self.current = self.current + 1;
            if self.can_consume(TokenType::Ident) {
                let name = match self.ident_at(0) { Some(s) => s, None => return Err(String::new()) };
                self.current = self.current + 1;
                let mut idx: Vec<TypedExpr> = Vec::new();
                push_expr(&mut idx, e);
                self.in_rest(tvx(Expr::InArray { name, indices: idx }))
            } else {
                Err(self.consume_error(TokenType::Ident, "Multidimensional array access must be followed by an array name. Eg: (1,2,3) in ARRAY_NAME"))
            }
        } else {
            Ok(e)
        }
    }

    #[verifier::spinoff_prover]
    fn multi_close(&mut self, exprs: Vec<TypedExpr>) -> (r: Result<TypedExpr, String>)
        requires
            old(self).current <= old(self).tokens@.len(),
        ensures
            final(self).tokens == old(self).tokens,
            old(self).current <= final(self).current <= final(self).tokens@.len(),
            r is Ok ==> old(self).current < final(self).current,
            agree_e(r, p_multi_close(old(self).ts(), old(self).current as int, tvs(exprs)), final(self).current as int),
        decreases old(self).tokens@.len() - old(self).current, 20int,
    {
        if !self.can_consume(TokenType::RightParen) {
            return Err(self.consume_error(TokenType::RightParen, "Multidimensional array indices must end with right paren"));
        }
        self.current = self.current + 1;
        if !self.can_consume(TokenType::In) {
            return Err(self.consume_error(TokenType::In, "Multidimensional array access must be followed by an 'in'"));
        }
        self.current = self.current + 1;
        if !self.can_consume(TokenType::Ident) {
            return Err(self.consume_error(TokenType::Ident, "Multidimensional array access must be followed by an array name. Eg: (1,2,3) in ARRAY_NAME"));
        }
        let name = match self.ident_at(0) { Some(s) => s, None => return Err(String::new()) };
        self.current = self.current + 1;
        self.in_rest(tvx(Expr::InArray { name, indices: exprs }))
    }

    #[verifier::spinoff_prover]
    fn multi_indices(&mut self, exprs: Vec<TypedExpr>) -> (r: Result<TypedExpr, String>)
        requires
            old(self).current <= old(self).tokens@.len(),
        ensures
            final(self).tokens == old(self).tokens,
            old(self).current <= final(self).current <= final(self).tokens@.len(),
            r is Ok ==> old(self).current < final(self).current,
            agree_e(r, p_multi_indices(old(self).ts(), old(self).current as int, tvs(exprs)), final(self).current as int),
        decreases old(self).tokens@.len() - old(self).current, 21int,
    {
        let mut exprs = exprs;
        if self.ty_at(0) == TokenType::Comma {
            if self.ty_at(1) == TokenType::RightParen {
                self.current = self.current + 1;
                self.multi_close(exprs)
            } else {
                self.current = self.current + 1;
                let r = match self.regex() { Ok(x) => x, Err(err) => return Err(err) };
                push_expr(&mut exprs, r);
                self.multi_indices(exprs)
            }
        } else {
            self.multi_close(exprs)
        }
    }

    #[verifier::spinoff_prover]
    fn helper_multi_dim_array(&mut self) -> (r: Result<TypedExpr, String>)
        requires
            old(self).current <= old(self).tokens@.len(),
        ensures
            final(self).tokens == old(self).tokens,
            old(self).current <= final(self).current <= final(self).tokens@.len(),
            r is Ok ==> old(self).current < final(self).current,
            agree_e(r, p_helper_multi_dim_array(old(self).ts(), old(self).current as int), final(self).current as int),
        decreases old(self).tokens@.len() - old(self).current, 22int,
    {
        if !self.can_consume(TokenType::LeftParen) {
            return Err(self.consume_error(TokenType::LeftParen, "Multidimensional array must begin with left paren"));
        }
        self.current = self.current + 1;
        let e = match self.regex() { Ok(x) => x, Err(err) => return Err(err) };
        let mut exprs: Vec<TypedExpr> = Vec::new();
        push_expr(&mut exprs, e);
        self.multi_indices(exprs)
    }

    #[verifier::spinoff_prover]
    fn multi_dim_array_membership(&mut self) -> (r: Result<TypedExpr, String>)
        requires
            old(self).current <= old(self).tokens@.len(),
        ensures
            final(self).tokens == old(self).tokens,
            old(self).current <= final(self).current <= final(self).tokens@.len(),
            r is Ok ==> old(self).current < final(self).current,
            agree_e(r, p_multi_dim(old(self).ts(), old(self).current as int), final(self).current as int),
        decreases old(self).tokens@.len() - old(self).current, 23int,
    {
        proof {
            reveal_with_fuel(p_multi_dim, 1);
        }
        if self.ty_at(0) == TokenType::LeftParen {
            match self.find_right_paren() {
                None => self.regex(),
                Some(idx) => {
                    if idx < self.tokens.len() && self.ty_of(idx + 1) == TokenType::In {
                        self.helper_multi_dim_array()
                    } else {
                        self.regex()
                    }
                }
            }
        } else {
            self.regex()
        }
    }

    #[verifier::spinoff_prover]
    fn member_rest(&mut self, e: TypedExpr) -> (r: Result<TypedExpr, String>)
        requires
            old(self).current <= old(self).tokens@.len(),
        ensures
            final(self).tokens == old(self).tokens,
            old(self).current <= final(self).current <= final(self).tokens@.len(),
            agree_e(r, p_member_rest(old(self).ts(), old(self).current as int, typed_view(e)), final(self).current as int),
        decreases old(self).tokens@.len() - old(self).current, 24int,
    {
        if self.ty_at(0) == TokenType::In {
            self.current = self.current + 1;
            if self.can_consume(TokenType::Ident) {
                let name = match self.ident_at(0) { Some(s) => s, None => return Err(String::new()) };
                self.current = self.current + 1;
                let mut idx: Vec<TypedExpr> = Vec::new();
                push_expr(&mut idx, e);
                self.member_rest(tvx(Expr::InArray { name, indices: idx }))
            } else {
                Err(self.consume_error(TokenType::Ident, "An array name must follow `<expr> in`"))
            }
        } else {
            Ok(e)
        }
    }

    #[verifier::spinoff_prover]
    fn array_membership(&mut self) -> (r: Result<TypedExpr, String>)
        requires
            old(self).current <= old(self).tokens@.len(),
        ensures
            final(self).tokens == old(self).tokens,
            old(self).current <= final(self).current <= final(self).tokens@.len(),
            r is Ok ==> old(self).current < final(self).current,
            agree_e(r, p_array_membership(old(self).ts(), old(self).current as int), final(self).current as int),
        decreases old(self).tokens@.len() - old(self).current, 25int,
    {
        proof {
            reveal_with_fuel(p_array_membership, 1);
        }
        let e = match self.multi_dim_array_membership() { Ok(x) => x, Err(err) => return Err(err) };
        self.member_rest(e)
    }

    #[verifier::spinoff_prover]
    fn and_rest(&mut self, e: TypedExpr) -> (r: Result<TypedExpr, String>)
        requires
            old(self).current <= old(self).tokens@.len(),
        ensures
            final(self).tokens == old(self).tokens,
            old(self).current <= final(self).current <= final(self).tokens@.len(),
            agree_e(r, p_and_rest(old(self).ts(), old(self).current as int, typed_view(e)), final(self).current as int),
        decreases old(self).tokens@.len() - old(self).current, 26int,
    {
        if self.ty_at(0) == TokenType::And {
            self.current = self.current + 1;
            let res = self.array_membership();
            let r = match res { Ok(x) => x, Err(err) => return Err(err) };
            let e = tvx(Expr::LogicalOp(Box::new(e), LogicalOp::And, Box::new(r)));
            self.and_rest(e)
        } else {
            Ok(e)
        }
    }

    #[verifier::spinoff_prover]
    fn logical_and(&mut self) -> (r: Result<TypedExpr, String>)
        requires
            old(self).current <= old(self).tokens@.len(),
        ensures
            final(self).tokens == old(self).tokens,
            old(self).current <= final(self).current <= final(self).tokens@.len(),
            r is Ok ==> old(self).current < final(self).current,
            agree_e(r, p_logical_and(old(self).ts(), old(self).current as int), final(self).current as int),
        decreases old(self).tokens@.len() - old(self).current, 27int,
    {
        proof {
            reveal_with_fuel(p_logical_and, 1);
        }
        let e = match self.array_membership() { Ok(x) => x, Err(err) => return Err(err) };
        self.and_rest(e)
    }

    #[verifier::spinoff_prover]
    fn or_rest(&mut self, e: TypedExpr) -> (r: Result<TypedExpr, String>)
        requires
            old(self).current <= old(self).tokens@.len(),
        ensures
            final(self).tokens == old(self).tokens,
            old(self).current <= final(self).current <= final(self).tokens@.len(),
            agree_e(r, p_or_rest(old(self).ts(), old(self).current as int, typed_view(e)), final(self).current as int),
        decreases old(self).tokens@.len() - old(self).current, 28int,
    {
        if self.ty_at(0) == TokenType::Or {
            self.current = self.current + 1;
            let res = self.logical_and();
            let r = match res { Ok(x) => x, Err(err) => return Err(err) };
            let e = tvx(Expr::LogicalOp(Box::new(e), LogicalOp::Or, Box::new(r)));
            self.or_rest(e)
        } else {
            Ok(e)
        }
    }

    #[verifier::spinoff_prover]
    fn logical_or(&mut self) -> (r: Result<TypedExpr, String>)
        requires
            old(self).current <= old(self).tokens@.len(),
        ensures
            final(self).tokens == old(self).tokens,
            old(self).current <= final(self).current <= final(self).tokens@.len(),
            r is Ok ==> old(self).current < final(self).current,
            agree_e(r, p_logical_or(old(self).ts(), old(self).current as int), final(self).current as int),
        decreases old(self).tokens@.len() - old(self).current, 29int,
    {
        let e = match self.logical_and() { Ok(x) => x, Err(err) => return Err(err) };
        self.or_rest(e)
    }

    #[verifier::spinoff_prover]
    fn ternary(&mut self) -> (r: Result<TypedExpr, String>)
        requires
            old(self).current <= old(self).tokens@.len(),
        ensures
            final(self).tokens == old(self).tokens,
            old(self).current <= final(self).current <= final(self).tokens@.len(),
            r is Ok ==> old(self).current < final(self).current,
            agree_e(r, p_ternary(old(self).ts(), old(self).current as int), final(self).current as int),
        decreases old(self).tokens@.len() - old(self).current, 30int,
    {
        let c = match self.logical_or() { Ok(x) => x, Err(err) => return Err(err) };
        if self.ty_at(0) == TokenType::Question {
            self.current = self.current + 1;
            let a = match self.ternary() { Ok(x) => x, Err(err) => return Err(err) };
            if !self.can_consume(TokenType::Colon) {
                return Err(self.consume_error(TokenType::Colon, "Expected a colon after question mark in a ternary!"));
            }
            self.current = self.current + 1;
            let b = match self.ternary() { Ok(x) => x, Err(err) => return Err(err) };
            Ok(tvx(Expr::Ternary(Box::new(c), Box::new(a), Box::new(b))))
        } else {
            Ok(c)
        }
    }

    #[verifier::spinoff_prover]
    fn assignment(&mut self) -> (r: Result<TypedExpr, String>)
        requires
            old(self).current <= old(self).tokens@.len(),
        ensures
            final(self).tokens == old(self).tokens,
            old(self).current <= final(self).current <= final(self).tokens@.len(),
            r is Ok ==> old(self).current < final(self).current,
            agree_e(r, p_assignment(old(self).ts(), old(self).current as int), final(self).current as int),
        decreases old(self).tokens@.len() - old(self).current, 40int,
    {
        proof {
            reveal_with_fuel(p_assignment, 1);
        }
        let e = match self.ternary() { Ok(x) => x, Err(err) => return Err(err) };
        let t = self.ty_at(0);
        match e.expr {
            Expr::Variable(var) => {
                if t == TokenType::Eq {
                    self.current = self.current + 1;
                    let r = match self.assignment() { Ok(x) => x, Err(err) => return Err(err) };
                    Ok(tvx(Expr::ScalarAssign(var, Box::new(r))))
                } else if t == TokenType::InplaceAssign {
                    let op = self.math_at(0);
                    self.current = self.current + 1;
                    let r = match self.assignment() { Ok(x) => x, Err(err) => return Err(err) };
                    let lhs = tvx(Expr::Variable(var.copy()));
                    Ok(tvx(Expr::ScalarAssign(var, Box::new(tvx(Expr::MathOp(Box::new(lhs), op, Box::new(r)))))))
                } else {
                    Ok(TypedExpr { typ: e.typ, expr: Expr::Variable(var) })
                }
            }
            Expr::ArrayIndex { name, indices } => {
                if t == TokenType::Eq {
                    self.current = self.current + 1;
                    let r = match self.assignment() { Ok(x) => x, Err(err) => return Err(err) };
                    Ok(tvx(Expr::ArrayAssign { name, indices, value: Box::new(r) }))
                } else {
                    Ok(TypedExpr { typ: e.typ, expr: Expr::ArrayIndex { name, indices } })
                }
            }
            other => Ok(TypedExpr { typ: e.typ, expr: other }),
        }
    }


}



/// A pattern-action pair, a `BEGIN` action or an `END` action, as the
/// parser reads them.
enum PAType {
    Normal(PatternAction),
    Begin(Stmt),
    End(Stmt),
}

pub open spec fn pa_view(pa: PatternAction) -> SPatternAction {
    SPatternAction { pattern: tview_opt(pa.pattern), action: stmt_view(pa.action) }
}

pub open spec fn function_view(f: Function) -> SFunction {
    SFunction { name: f.name.name(), args: f.args@.map_values(|s: Symbol| s.name()), body: stmt_view(f.body) }
}

/// A program as the contracts speak of it.
pub open spec fn program_view(p: Program) -> SProgram {
    SProgram {
        begins: svs(p.begins),
        ends: svs(p.ends),
        pattern_actions: p.pattern_actions@.map_values(|pa: PatternAction| pa_view(pa)),
        functions: p.functions@.map_values(|f: Function| function_view(f)),
    }
}

spec fn item_view(i: PAType) -> SItem {
    match i {
        PAType::Normal(pa) => SItem::Normal(pa_view(pa)),
        PAType::Begin(s) => SItem::Begin(stmt_view(s)),
        PAType::End(s) => SItem::End(stmt_view(s)),
    }
}

spec fn agree_i(r: Result<PAType, String>, p: Parsed<SItem>, cur: int) -> bool {
    match p {
        Parsed::Done(e, j) => (match r { Ok(x) => item_view(x) == e, Err(_) => false }) && cur == j,
        Parsed::Fail(m) => r matches Err(s) && s@ == m,
        Parsed::Stuck => false,
    }
}

pub open spec fn agree_f(r: Result<Function, String>, p: Parsed<SFunction>, cur: int) -> bool {
    match p {
        Parsed::Done(e, j) => (match r { Ok(x) => function_view(x) == e, Err(_) => false }) && cur == j,
        Parsed::Fail(m) => r matches Err(s) && s@ == m,
        Parsed::Stuck => false,
    }
}

impl Parser {
    #[verifier::spinoff_prover]
    fn printf_args(&mut self, args: Vec<TypedExpr>) -> (r: Result<Vec<TypedExpr>, String>)
        requires
            old(self).current <= old(self).tokens@.len(),
        ensures
            final(self).tokens == old(self).tokens,
            old(self).current <= final(self).current <= final(self).tokens@.len(),
            agree_v(r, p_printf_args(old(self).ts(), old(self).current as int, tvs(args)), final(self).current as int),
        decreases old(self).tokens@.len() - old(self).current, 50int,
    {
        let mut args = args;
        if self.ty_at(0) == TokenType::Comma {
            self.current = self.current + 1;
            let a = match self.assignment() { Ok(x) => x, Err(err) => return Err(err) };
            push_expr(&mut args, a);
            self.printf_args(args)
        } else {
            Ok(args)
        }
    }

    #[verifier::spinoff_prover]
    fn block(&mut self) -> (r: Result<Stmt, String>)
        requires
            old(self).current <= old(self).tokens@.len(),
        ensures
            final(self).tokens == old(self).tokens,
            old(self).current <= final(self).current <= final(self).tokens@.len(),
            r is Ok ==> old(self).current < final(self).current,
            agree_s(r, p_block(old(self).ts(), old(self).current as int), final(self).current as int),
        decreases old(self).tokens@.len() - old(self).current, 72int,
    {
        if self.ty_at(0) == TokenType::LeftBrace {
            self.group()
        } else {
            self.stmt()
        }
    }

    #[verifier::spinoff_prover]
    fn if_stmt(&mut self) -> (r: Result<Stmt, String>)
        requires
            old(self).current <= old(self).tokens@.len(),
        ensures
            final(self).tokens == old(self).tokens,
            old(self).current <= final(self).current <= final(self).tokens@.len(),
            r is Ok ==> old(self).current < final(self).current,
            agree_s(r, p_if_stmt(old(self).ts(), old(self).current as int), final(self).current as int),
        decreases old(self).tokens@.len() - old(self).current, 62int,
    {
        if !self.can_consume(TokenType::LeftParen) {
            return Err(self.consume_error(TokenType::LeftParen, "Expected `(` after if"));
        }
        self.current = self.current + 1;
        let pred = match self.assignment() { Ok(x) => x, Err(err) => return Err(err) };
        if !self.can_consume(TokenType::RightParen) {
            return Err(self.consume_error(TokenType::RightParen, "Expected `)` after if predicate"));
        }
        self.current = self.current + 1;
        let then = match self.block() { Ok(x) => x, Err(err) => return Err(err) };
        if self.ty_at(0) == TokenType::Else {
            self.current = self.current + 1;
            let other = match self.block() { Ok(x) => x, Err(err) => return Err(err) };
            Ok(Stmt::If(pred, Box::new(then), Some(Box::new(other))))
        } else {
            Ok(Stmt::If(pred, Box::new(then), None))
        }
    }

    #[verifier::spinoff_prover]
    fn stmts_loop(&mut self, acc: Vec<Stmt>) -> (r: Result<Stmt, String>)
        requires
            old(self).current <= old(self).tokens@.len(),
        ensures
            final(self).tokens == old(self).tokens,
            old(self).current <= final(self).current <= final(self).tokens@.len(),
            agree_s(r, p_stmts_loop(old(self).ts(), old(self).current as int, svs(acc)), final(self).current as int),
        decreases old(self).tokens@.len() - old(self).current, 73int,
    {
        let mut acc = acc;
        if self.ty_at(0) == TokenType::RightBrace {
            proof {
                lemma_stmt_seq_view(acc@, acc@.len());
            }
            if acc.len() == 1 {
                let s = acc.pop().unwrap();
                Ok(s)
            } else {
                Ok(Stmt::Group(acc))
            }
        } else {
            let s = match self.stmt_semi() { Ok(x) => x, Err(err) => return Err(err) };
            push_stmt(&mut acc, s);
            self.stmts_loop(acc)
        }
    }

    #[verifier::spinoff_prover]
    fn stmts(&mut self) -> (r: Result<Stmt, String>)
        requires
            old(self).current <= old(self).tokens@.len(),
        ensures
            final(self).tokens == old(self).tokens,
            old(self).current <= final(self).current <= final(self).tokens@.len(),
            agree_s(r, p_stmts(old(self).ts(), old(self).current as int), final(self).current as int),
        decreases old(self).tokens@.len() - old(self).current, 74int,
    {
        let acc: Vec<Stmt> = Vec::new();
        proof {
            assert(svs(acc) =~= Seq::<SStmt>::empty());
        }
        self.stmts_loop(acc)
    }

    #[verifier::spinoff_prover]
    fn group(&mut self) -> (r: Result<Stmt, String>)
        requires
            old(self).current <= old(self).tokens@.len(),
        ensures
            final(self).tokens == old(self).tokens,
            old(self).current <= final(self).current <= final(self).tokens@.len(),
            r is Ok ==> old(self).current < final(self).current,
            agree_s(r, p_group(old(self).ts(), old(self).current as int), final(self).current as int),
        decreases old(self).tokens@.len() - old(self).current, 69int,
    {
        if !self.can_consume(TokenType::LeftBrace) {
            return Err(self.consume_error(TokenType::LeftBrace, "Expected a `{` to start group"));
        }
        self.current = self.current + 1;
        let s = match self.stmts() { Ok(x) => x, Err(err) => return Err(err) };
        if self.can_consume(TokenType::RightBrace) {
            self.current = self.current + 1;
            Ok(s)
        } else {
            Err(self.consume_error(TokenType::RightBrace, "Expected a `}` to end group"))
        }
    }

    #[verifier::spinoff_prover]
    fn braced_body(&mut self, msg: &str) -> (r: Result<Stmt, String>)
        requires
            old(self).current <= old(self).tokens@.len(),
        ensures
            final(self).tokens == old(self).tokens,
            old(self).current <= final(self).current <= final(self).tokens@.len(),
            r is Ok ==> old(self).current < final(self).current,
            agree_s(r, p_braced_body(old(self).ts(), old(self).current as int, msg@), final(self).current as int),
        decreases old(self).tokens@.len() - old(self).current, 75int,
    {
        let s = match self.stmts() { Ok(x) => x, Err(err) => return Err(err) };
        if self.can_consume(TokenType::RightBrace) {
            self.current = self.current + 1;
            Ok(s)
        } else {
            Err(self.consume_error(TokenType::RightBrace, msg))
        }
    }

    #[verifier::spinoff_prover]
    fn for_stmt(&mut self) -> (r: Result<Stmt, String>)
        requires
            old(self).current <= old(self).tokens@.len(),
        ensures
            final(self).tokens == old(self).tokens,
            old(self).current <= final(self).current <= final(self).tokens@.len(),
            r is Ok ==> old(self).current < final(self).current,
            agree_s(r, p_for(old(self).ts(), old(self).current as int), final(self).current as int),
        decreases old(self).tokens@.len() - old(self).current, 63int,
    {
        if !self.can_consume(TokenType::LeftParen) {
            return Err(self.consume_error(TokenType::LeftParen, "Expected a `(` after the for keyword"));
        }
        self.current = self.current + 1;
        let init = match self.stmt() { Ok(x) => x, Err(err) => return Err(err) };
        if !self.can_consume(TokenType::Semicolon) {
            return Err(self.consume_error(TokenType::Semicolon, "Expected a `;` after for loop init statement"));
        }
        self.current = self.current + 1;
        let test = match self.assignment() { Ok(x) => x, Err(err) => return Err(err) };
        if !self.can_consume(TokenType::Semicolon) {
            return Err(self.consume_error(TokenType::Semicolon, "Expected a `;` after for loop test statement"));
        }
        self.current = self.current + 1;
        let incr = match self.stmt() { Ok(x) => x, Err(err) => return Err(err) };
        if !self.can_consume(TokenType::RightParen) {
            return Err(self.consume_error(TokenType::RightParen, "Expected a `)` to end for loop"));
        }
        self.current = self.current + 1;
        if !self.can_consume(TokenType::LeftBrace) {
            return Err(self.consume_error(TokenType::LeftBrace, "Expected a `{` to begin for loop body"));
        }
        self.current = self.current + 1;
        let body = match self.braced_body("Expected a `}` after for loop body") { Ok(x) => x, Err(err) => return Err(err) };
        let ghost (vi, vt, vb, vn) = (stmt_view(init), typed_view(test), stmt_view(body), stmt_view(incr));
        let mut inner: Vec<Stmt> = Vec::new();
        push_stmt(&mut inner, body);
        push_stmt(&mut inner, incr);
        assert(svs(inner) =~= seq![vb, vn]);
        let grp = Stmt::Group(inner);
        assert(stmt_view(grp) == SStmt::Group(seq![vb, vn]));
        let ghost vg = stmt_view(grp);
        let looped = Stmt::While(test, Box::new(grp));
        assert(stmt_view(looped) == SStmt::While(vt, Box::new(vg)));
        let ghost vl = stmt_view(looped);
        let mut outer: Vec<Stmt> = Vec::new();
        push_stmt(&mut outer, init);
        push_stmt(&mut outer, looped);
        assert(svs(outer) =~= seq![vi, vl]);
        Ok(Stmt::Group(outer))
    }

    #[verifier::spinoff_prover]
    fn while_stmt(&mut self) -> (r: Result<Stmt, String>)
        requires
            old(self).current <= old(self).tokens@.len(),
        ensures
            final(self).tokens == old(self).tokens,
            old(self).current <= final(self).current <= final(self).tokens@.len(),
            r is Ok ==> old(self).current < final(self).current,
            agree_s(r, p_while(old(self).ts(), old(self).current as int), final(self).current as int),
        decreases old(self).tokens@.len() - old(self).current, 63int,
    {
        if !self.can_consume(TokenType::LeftParen) {
            return Err(self.consume_error(TokenType::LeftParen, "Must have paren after while"));
        }
        self.current = self.current + 1;
        let test = match self.assignment() { Ok(x) => x, Err(err) => return Err(err) };
        if !self.can_consume(TokenType::RightParen) {
            return Err(self.consume_error(TokenType::RightParen, "Must have right parent after while statement test expression"));
        }
        self.current = self.current + 1;
        if !self.can_consume(TokenType::LeftBrace) {
            return Err(self.consume_error(TokenType::LeftBrace, "Must have brace after `while (expr)`"));
        }
        self.current = self.current + 1;
        let body = match self.braced_body("While loop must be followed by '}'") { Ok(x) => x, Err(err) => return Err(err) };
        Ok(Stmt::While(test, Box::new(body)))
    }

    #[verifier::spinoff_prover]
    fn expr_stmt(&mut self, print: bool) -> (r: Result<Stmt, String>)
        requires
            old(self).current <= old(self).tokens@.len(),
        ensures
            final(self).tokens == old(self).tokens,
            old(self).current <= final(self).current <= final(self).tokens@.len(),
            r is Ok ==> old(self).current < final(self).current,
            agree_s(r, p_expr_stmt(old(self).ts(), old(self).current as int, print), final(self).current as int),
        decreases old(self).tokens@.len() - old(self).current, 59int,
    {
        let e = match self.assignment() { Ok(x) => x, Err(err) => return Err(err) };
        if print { Ok(Stmt::Print(e)) } else { Ok(Stmt::Expr(e)) }
    }

    /// One statement.
    #[verifier::spinoff_prover]
    fn stmt(&mut self) -> (r: Result<Stmt, String>)
        requires
            old(self).current <= old(self).tokens@.len(),
        ensures
            final(self).tokens == old(self).tokens,
            old(self).current <= final(self).current <= final(self).tokens@.len(),
            r is Ok ==> old(self).current < final(self).current,
            agree_s(r, p_stmt(old(self).ts(), old(self).current as int), final(self).current as int),
        decreases old(self).tokens@.len() - old(self).current, 70int,
    {
        let t = self.ty_at(0);
        if t == TokenType::Print {
            self.current = self.current + 1;
            self.expr_stmt(true)
        } else if t == TokenType::Ret {
            if self.ty_at(1) != TokenType::RightBrace && self.ty_at(2) != TokenType::Semicolon {
                self.current = self.current + 1;
                let e = match self.assignment() { Ok(x) => x, Err(err) => return Err(err) };
                Ok(Stmt::Return(Some(e)))
            } else {
                self.current = self.current + 1;
                Ok(Stmt::Return(None))
            }
        } else if t == TokenType::Printf {
            self.current = self.current + 1;
            let fstring = match self.assignment() { Ok(x) => x, Err(err) => return Err(err) };
            let none: Vec<TypedExpr> = Vec::new();
            proof {
                assert(tvs(none) =~= Seq::<STyped>::empty());
            }
            let args = match self.printf_args(none) { Ok(x) => x, Err(err) => return Err(err) };
            Ok(Stmt::Printf { fstring, args })
        } else if t == TokenType::Break {
            self.current = self.current + 1;
            Ok(Stmt::Break)
        } else if t == TokenType::For {
            self.current = self.current + 1;
            self.for_stmt()
        } else if self.ty_at(1) == TokenType::Eq {
            if !self.can_consume(TokenType::Ident) {
                return Err(self.consume_error(TokenType::Ident, "Expected identifier before `=`"));
            }
            let name = match self.ident_at(0) { Some(s) => s, None => return Err(String::new()) };
            self.current = self.current + 2;
            let e = match self.assignment() { Ok(x) => x, Err(err) => return Err(err) };
            Ok(Stmt::Expr(tvx(Expr::ScalarAssign(name, Box::new(e)))))
        } else if t == TokenType::While {
            self.current = self.current + 1;
            self.while_stmt()
        } else if t == TokenType::If {
            self.current = self.current + 1;
            self.if_stmt()
        } else if t == TokenType::LeftBrace {
            self.current = self.current + 1;
            self.braced_body("Expected a right brace after a group")
        } else {
            self.expr_stmt(false)
        }
    }

    #[verifier::spinoff_prover]
    fn stmt_semi(&mut self) -> (r: Result<Stmt, String>)
        requires
            old(self).current <= old(self).tokens@.len(),
        ensures
            final(self).tokens == old(self).tokens,
            old(self).current <= final(self).current <= final(self).tokens@.len(),
            r is Ok ==> old(self).current < final(self).current,
            agree_s(r, p_stmt_semi(old(self).ts(), old(self).current as int), final(self).current as int),
        decreases old(self).tokens@.len() - old(self).current, 71int,
    {
        let s = match self.stmt() { Ok(x) => x, Err(err) => return Err(err) };
        if self.ty_at(0) == TokenType::Semicolon {
            self.current = self.current + 1;
        }
        Ok(s)
    }

    #[verifier::spinoff_prover]
    fn pattern_action(&mut self) -> (r: Result<PAType, String>)
        requires
            old(self).current <= old(self).tokens@.len(),
        ensures
            final(self).tokens == old(self).tokens,
            old(self).current <= final(self).current <= final(self).tokens@.len(),
            r is Ok ==> old(self).current < final(self).current,
            agree_i(r, p_pattern_action(old(self).ts(), old(self).current as int), final(self).current as int),
    {
        let t = self.ty_at(0);
        if t == TokenType::LeftBrace {
            self.current = self.current + 1;
            let s = match self.braced_body("Expected '}' after action block") { Ok(x) => x, Err(err) => return Err(err) };
            Ok(PAType::Normal(PatternAction { pattern: None, action: s }))
        } else if t == TokenType::Begin || t == TokenType::End {
            if !self.can_consume_at(1, TokenType::LeftBrace) {
                let msg = if t == TokenType::Begin { "Expected a `{` after a begin" } else { "Expected a `{` after a end" };
                self.current = self.current + 1;
                return Err(self.consume_error(TokenType::LeftBrace, msg));
            }
            self.current = self.current + 2;
            if t == TokenType::Begin {
                let s = match self.braced_body("Begin action should end with '}'") { Ok(x) => x, Err(err) => return Err(err) };
                Ok(PAType::Begin(s))
            } else {
                let s = match self.braced_body("End action should end with '}'") { Ok(x) => x, Err(err) => return Err(err) };
                Ok(PAType::End(s))
            }
        } else {
            let test = match self.assignment() { Ok(x) => x, Err(err) => return Err(err) };
            if self.ty_at(0) == TokenType::LeftBrace {
                self.current = self.current + 1;
                let s = match self.braced_body("Patern action should end with '}'") { Ok(x) => x, Err(err) => return Err(err) };
                Ok(PAType::Normal(PatternAction { pattern: Some(test), action: s }))
            } else {
                let all = tvx(Expr::Column(Box::new(number("0"))));
                Ok(PAType::Normal(PatternAction { pattern: Some(test), action: Stmt::Print(all) }))
            }
        }
    }

    #[verifier::spinoff_prover]
    fn can_consume_at(&self, off: usize, typ: TokenType) -> (r: bool)
        requires
            self.current <= self.tokens@.len(),
        ensures
            r == can_consume(self.ts(), self.current + off, typ),
    {
        let t = self.ty_at(off);
        t != TokenType::EOF && t == typ
    }

    /// The argument names of a function, then its body.
    #[verifier::spinoff_prover]
    fn function_args(&mut self, name: Symbol, args: Vec<Symbol>) -> (r: Result<Function, String>)
        requires
            old(self).current <= old(self).tokens@.len(),
        ensures
            final(self).tokens == old(self).tokens,
            old(self).current <= final(self).current <= final(self).tokens@.len(),
            agree_f(r, p_function_args(old(self).ts(), old(self).current as int, name.name(),
                args@.map_values(|s: Symbol| s.name())), final(self).current as int),
        decreases old(self).tokens@.len() - old(self).current,
    {
        let mut args = args;
        if self.ty_at(0) != TokenType::RightParen {
            if !self.can_consume(TokenType::Ident) {
                return Err(self.consume_error(TokenType::Ident, "Expected function argument name here"));
            }
            let arg = match self.ident_at(0) { Some(s) => s, None => return Err(String::new()) };
            let ghost before = args@;
            args.push(arg);
            proof {
                assert(args@.map_values(|s: Symbol| s.name()) =~= before.map_values(|s: Symbol| s.name()).push(arg.name()));
            }
            self.current = self.current + 1;
            if self.ty_at(0) != TokenType::RightParen {
                if !self.can_consume(TokenType::Comma) {
                    return Err(self.consume_error(TokenType::Comma, "Expected comma after function argument and before right paren"));
                }
                self.current = self.current + 1;
                self.function_args(name, args)
            } else {
                self.function_body(name, args)
            }
        } else {
            self.function_body(name, args)
        }
    }

    #[verifier::spinoff_prover]
    fn function_body(&mut self, name: Symbol, args: Vec<Symbol>) -> (r: Result<Function, String>)
        requires
            old(self).current <= old(self).tokens@.len(),
        ensures
            final(self).tokens == old(self).tokens,
            old(self).current <= final(self).current <= final(self).tokens@.len(),
            agree_f(r, p_function_body(old(self).ts(), old(self).current as int, name.name(),
                args@.map_values(|s: Symbol| s.name())), final(self).current as int),
    {
        if !self.can_consume(TokenType::RightParen) {
            return Err(self.consume_error(TokenType::RightParen, "Expected right paren after function arguments"));
        }
        self.current = self.current + 1;
        let body = match self.group() { Ok(x) => x, Err(err) => return Err(err) };
        Ok(Function { name, args, body })
    }

    /// A function definition after the `function` keyword.
    #[verifier::spinoff_prover]
    fn function(&mut self) -> (r: Result<Function, String>)
        requires
            old(self).current <= old(self).tokens@.len(),
        ensures
            final(self).tokens == old(self).tokens,
            old(self).current <= final(self).current <= final(self).tokens@.len(),
            agree_f(r, p_function(old(self).ts(), old(self).current as int), final(self).current as int),
    {
        if !self.can_consume(TokenType::Ident) {
            return Err(self.consume_error(TokenType::Ident, "Function name must follow function keyword"));
        }
        let name = match self.ident_at(0) { Some(s) => s, None => return Err(String::new()) };
        self.current = self.current + 1;
        if !self.can_consume(TokenType::LeftParen) {
            return Err(self.consume_error(TokenType::LeftParen, "Function name must be followed by '('"));
        }
        self.current = self.current + 1;
        let args: Vec<Symbol> = Vec::new();
        proof {
            assert(args@.map_values(|s: Symbol| s.name()) =~= Seq::<Seq<char>>::empty());
        }
        self.function_args(name, args)
    }
}

/// The program made of what was read so far.
spec fn program_so_far(begins: Vec<Stmt>, ends: Vec<Stmt>, pas: Vec<PatternAction>, fns: Vec<Function>) -> SProgram {
    SProgram {
        begins: svs(begins),
        ends: svs(ends),
        pattern_actions: pas@.map_values(|pa: PatternAction| pa_view(pa)),
        functions: fns@.map_values(|f: Function| function_view(f)),
    }
}

/// Parses the tokens of a program: its functions, its `BEGIN` and `END`
/// actions and its pattern-action pairs, in order, or the first error. The
/// program is named `main function`; `sub` and `gsub` are interned first.
#[verifier::spinoff_prover]
#[verifier::rlimit(80)]
pub fn parse(tokens: Vec<Token>, symbolizer: &mut Symbolizer) -> (r: Result<Program, PrintableError>)
    requires
        old(symbolizer).wf(),
        lexemes(tokens@).contains(Lexeme::Plain(Token::EOF)),
    ensures
        final(symbolizer).wf(),
        names_grow(old(symbolizer).names(), final(symbolizer).names()),
        match parse_spec(lexemes(tokens@)) {
            Parsed::Done(p, _) => r matches Ok(prog) && program_view(prog) == p && prog.name.name() == "main function"@,
            Parsed::Fail(m) => r matches Err(e) && e.msg@ == m,
            Parsed::Stuck => false,
        },
{
    let _sub = symbolizer.get("sub");
    let _gsub = symbolizer.get("gsub");
    let ghost ts = lexemes(tokens@);
    let mut parser = Parser { tokens, current: 0 };
    let mut begins: Vec<Stmt> = Vec::new();
    let mut ends: Vec<Stmt> = Vec::new();
    let mut pattern_actions: Vec<PatternAction> = Vec::new();
    let mut functions: Vec<Function> = Vec::new();
    proof {
        assert(program_so_far(begins, ends, pattern_actions, functions) =~= empty_program()) by {
            assert(svs(begins) =~= Seq::<SStmt>::empty());
            assert(svs(ends) =~= Seq::<SStmt>::empty());
            assert(pattern_actions@.map_values(|pa: PatternAction| pa_view(pa)) =~= Seq::<SPatternAction>::empty());
            assert(functions@.map_values(|f: Function| function_view(f)) =~= Seq::<SFunction>::empty());
        }
        assert(names_grow(old(symbolizer).names(), symbolizer.names()));
    }
    while !parser.at_end()
        invariant
            parser.current <= parser.tokens@.len(),
            parser.ts() == ts,
            ts == lexemes(tokens@),
            parse_spec(ts) == p_program(ts, 0, empty_program()),
            symbolizer.wf(),
            names_grow(old(symbolizer).names(), symbolizer.names()),
            p_program(ts, parser.current as int, program_so_far(begins, ends, pattern_actions, functions))
                == p_program(ts, 0, empty_program()),
        decreases parser.tokens@.len() - parser.current,
    {
        let ghost acc = program_so_far(begins, ends, pattern_actions, functions);
        let ghost i = parser.current as int;
        if parser.ty_at(0) == TokenType::Function {
            parser.current = parser.current + 1;
            let f = match parser.function() {
                Ok(f) => f,
                Err(m) => return Err(PrintableError::new(m)),
            };
            let ghost old_fns = functions@;
            functions.push(f);
            proof {
                assert(functions@.map_values(|f: Function| function_view(f))
                    =~= old_fns.map_values(|f: Function| function_view(f)).push(function_view(f)));
                assert(program_so_far(begins, ends, pattern_actions, functions)
                    =~= SProgram { functions: acc.functions.push(function_view(f)), ..acc });
            }
        } else {
            match parser.pattern_action() {
                Ok(PAType::Normal(pa)) => {
                    let ghost old_pas = pattern_actions@;
                    pattern_actions.push(pa);
                    proof {
                        assert(pattern_actions@.map_values(|pa: PatternAction| pa_view(pa))
                            =~= old_pas.map_values(|pa: PatternAction| pa_view(pa)).push(pa_view(pa)));
                        assert(program_so_far(begins, ends, pattern_actions, functions)
                            =~= add_item(acc, SItem::Normal(pa_view(pa))));
                    }
                }
                Ok(PAType::Begin(s)) => {
                    let ghost sv = stmt_view(s);
                    push_stmt(&mut begins, s);
                    proof {
                        assert(program_so_far(begins, ends, pattern_actions, functions)
                            =~= add_item(acc, SItem::Begin(sv)));
                    }
                }
                Ok(PAType::End(s)) => {
                    let ghost sv = stmt_view(s);
                    push_stmt(&mut ends, s);
                    proof {
                        assert(program_so_far(begins, ends, pattern_actions, functions)
                            =~= add_item(acc, SItem::End(sv)));
                    }
                }
                Err(m) => return Err(PrintableError::new(m)),
            }
        }
    }
    let name = symbolizer.get("main function");
    proof {
        reveal_strlit("main function");
    }
    Ok(Program { name, begins, ends, pattern_actions, functions })
}


/// How an arithmetic operator is written.
pub open spec fn math_text(m: MathOp) -> Seq<char> {
    match m {
        MathOp::Minus => "-"@,
        MathOp::Plus => "+"@,
        MathOp::Slash => "/"@,
        MathOp::Star => "*"@,
        MathOp::Modulus => "%"@,
        MathOp::Exponent => "^"@,
    }
}

/// How a comparison or match operator is written.
pub open spec fn bin_text(b: BinOp) -> Seq<char> {
    match b {
        BinOp::Greater => ">"@,
        BinOp::GreaterEq => ">="@,
        BinOp::Less => "<"@,
        BinOp::LessEq => "<="@,
        BinOp::BangEq => "!="@,
        BinOp::EqEq => "=="@,
        BinOp::MatchedBy => "~"@,
        BinOp::NotMatchedBy => "!~"@,
    }
}

pub open spec fn logical_text(l: LogicalOp) -> Seq<char> {
    match l {
        LogicalOp::And => "&&"@,
        LogicalOp::Or => "||"@,
    }
}

/// An expression with its type written around it: `(v ...)` for the
/// variable type, `(s ...)` for strings, `(f ...)` for floats.
pub open spec fn typed_text(e: STyped) -> Seq<char>
    decreases e, 0nat,
{
    (match e.typ {
        ScalarType::String => "(s "@,
        ScalarType::Float => "(f "@,
        ScalarType::Variable => "(v "@,
    }) + expr_text(e.expr) + ")"@
}

/// The first `n` expressions of `s`, with `sep` between them.
pub open spec fn list_text(s: Seq<STyped>, n: nat, sep: Seq<char>) -> Seq<char>
    decreases s, n,
{
    if n == 0 || n > s.len() {
        Seq::empty()
    } else if n == 1 {
        typed_text(s[0])
    } else {
        list_text(s, (n - 1) as nat, sep) + sep + typed_text(s[n - 1])
    }
}

/// The first `n` arguments of a call, each followed by a comma.
pub open spec fn args_text(s: Seq<STyped>, n: nat) -> Seq<char>
    decreases s, n,
{
    if n == 0 || n > s.len() {
        Seq::empty()
    } else {
        args_text(s, (n - 1) as nat) + typed_text(s[n - 1]) + ","@
    }
}

pub open spec fn lvalue_text(l: SLValue) -> Seq<char>
    decreases l, 0nat,
{
    match l {
        SLValue::Variable(n) => n,
        SLValue::Column(c) => "$"@ + typed_text(*c),
        SLValue::ArrayIndex(name, idx) => name + "["@ + list_text(idx, idx.len(), ","@) + "]"@,
    }
}

/// How an expression is written when a program is shown: a number by the
/// text it was written with.
pub open spec fn expr_text(e: SExpr) -> Seq<char>
    decreases e, 0nat,
{
    match e {
        SExpr::Call(target, args) => target + "("@ + args_text(args, args.len()) + ")"@,
        SExpr::ScalarAssign(var, v) => var + " = "@ + typed_text(*v),
        SExpr::NextLine => "check_if_there_is_another_line"@,
        SExpr::Variable(n) => n,
        SExpr::Str(s) => "\""@ + s + "\""@,
        SExpr::Regex(s) => "\""@ + s + "\""@,
        SExpr::Number(s) => s,
        SExpr::BinOp(l, op, r) => typed_text(*l) + bin_text(op) + typed_text(*r),
        SExpr::Ternary(c, a, b) => typed_text(*c) + " ? "@ + typed_text(*a) + " : "@ + typed_text(*b),
        SExpr::MathOp(l, op, r) => typed_text(*l) + math_text(op) + typed_text(*r),
        SExpr::LogicalOp(l, op, r) => typed_text(*l) + logical_text(op) + typed_text(*r),
        SExpr::Column(c) => "$"@ + typed_text(*c),
        SExpr::Concatenation(vals) => list_text(vals, vals.len(), " "@),
        SExpr::ArrayIndex(name, idx) => name + "["@ + list_text(idx, idx.len(), ","@) + "]"@,
        SExpr::InArray(name, idx) => "("@ + list_text(idx, idx.len(), ","@) + ") in "@ + name,
        SExpr::ArrayAssign(name, idx, v) =>
            name + "["@ + list_text(idx, idx.len(), ","@) + "] = "@ + typed_text(*v),
        SExpr::CallSub(a1, a2, a3, global) => (if global { "gsub"@ } else { "sub"@ }) + "("@
            + typed_text(*a1) + ","@ + typed_text(*a2) + ","@ + lvalue_text(a3) + ")"@,
    }
}

fn math_str(m: MathOp) -> (s: &'static str)
    ensures
        s@ == math_text(m),
{
    match m {
        MathOp::Minus => "-",
        MathOp::Plus => "+",
        MathOp::Slash => "/",
        MathOp::Star => "*",
        MathOp::Modulus => "%",
        MathOp::Exponent => "^",
    }
}

fn bin_str(b: BinOp) -> (s: &'static str)
    ensures
        s@ == bin_text(b),
{
    match b {
        BinOp::Greater => ">",
        BinOp::GreaterEq => ">=",
        BinOp::Less => "<",
        BinOp::LessEq => "<=",
        BinOp::BangEq => "!=",
        BinOp::EqEq => "==",
        BinOp::MatchedBy => "~",
        BinOp::NotMatchedBy => "!~",
    }
}

fn logical_str(l: LogicalOp) -> (s: &'static str)
    ensures
        s@ == logical_text(l),
{
    match l {
        LogicalOp::And => "&&",
        LogicalOp::Or => "||",
    }
}

/// Appends `s` to `out`.
fn put(out: &mut String, s: &str)
    ensures
        final(out)@ == old(out)@ + s@,
{
    out.append(s);
}

/// Appends how `t` is written to `out`.
fn write_typed(t: &TypedExpr, out: &mut String)
    ensures
        final(out)@ == old(out)@ + typed_text(typed_view(*t)),
    decreases *t, 2nat,
{
    let ghost start = out@;
    let prefix = match t.typ {
        ScalarType::String => "(s ",
        ScalarType::Float => "(f ",
        ScalarType::Variable => "(v ",
    };
    put(out, prefix);
    let ghost mid = out@;
    write_expr(&t.expr, out);
    let ghost after = out@;
    put(out, ")");
    assert(out@ =~= start + (prefix@ + expr_text(expr_view(t.expr)) + ")"@));
}

/// Appends the expressions of `v` with `sep` between them.
fn write_list(v: &Vec<TypedExpr>, sep: &str, out: &mut String)
    ensures
        final(out)@ == old(out)@ + list_text(tvs(*v), tvs(*v).len(), sep@),
    decreases *v, 1nat,
{
    proof {
        lemma_typed_seq_view(v@, v@.len());
    }
    let ghost s = tvs(*v);
    let ghost start = out@;
    let mut i: usize = 0;
    while i < v.len()
        invariant
            i <= v@.len(),
            s == tvs(*v),
            s.len() == v@.len(),
            forall|k: int| 0 <= k < v@.len() ==> #[trigger] s[k] == typed_view(v@[k]),
            out@ == start + list_text(s, i as nat, sep@),
        decreases v@.len() - i,
    {
        let ghost before = out@;
        if i > 0 {
            put(out, sep);
        }
        write_typed(&v[i], out);
        proof {
            if i > 0 {
                assert(list_text(s, (i + 1) as nat, sep@) == list_text(s, i as nat, sep@) + sep@ + typed_text(s[i as int]));
                assert(out@ =~= start + list_text(s, (i + 1) as nat, sep@));
            } else {
                assert(list_text(s, 1, sep@) == typed_text(s[0]));
                assert(list_text(s, 0, sep@) =~= Seq::<char>::empty());
                assert(out@ =~= start + list_text(s, 1, sep@));
            }
        }
        i = i + 1;
    }
}

/// Appends the arguments of a call, each followed by a comma.
fn write_args(v: &Vec<TypedExpr>, out: &mut String)
    ensures
        final(out)@ == old(out)@ + args_text(tvs(*v), tvs(*v).len()),
    decreases *v, 1nat,
{
    proof {
        lemma_typed_seq_view(v@, v@.len());
    }
    let ghost s = tvs(*v);
    let ghost start = out@;
    let mut i: usize = 0;
    while i < v.len()
        invariant
            i <= v@.len(),
            s == tvs(*v),
            s.len() == v@.len(),
            forall|k: int| 0 <= k < v@.len() ==> #[trigger] s[k] == typed_view(v@[k]),
            out@ == start + args_text(s, i as nat),
        decreases v@.len() - i,
    {
        write_typed(&v[i], out);
        put(out, ",");
        proof {
            assert(args_text(s, (i + 1) as nat) == args_text(s, i as nat) + typed_text(s[i as int]) + ","@);
            assert(out@ =~= start + args_text(s, (i + 1) as nat));
        }
        i = i + 1;
    }
}

fn write_lvalue(l: &LValue, out: &mut String)
    ensures
        final(out)@ == old(out)@ + lvalue_text(lvalue_view(*l)),
    decreases *l, 1nat,
{
    let ghost start = out@;
    match l {
        LValue::Variable(n) => put(out, n.to_str()),
        LValue::Column(c) => {
            put(out, "$");
            write_typed(c, out);
            assert(out@ =~= start + lvalue_text(lvalue_view(*l)));
        }
        LValue::ArrayIndex { name, indices } => {
            put(out, name.to_str());
            put(out, "[");
            write_list(indices, ",", out);
            put(out, "]");
            assert(out@ =~= start + lvalue_text(lvalue_view(*l)));
        }
    }
}

/// Appends how `e` is written to `out`.
#[verifier::spinoff_prover]
#[verifier::rlimit(100)]
fn write_expr(e: &Expr, out: &mut String)
    ensures
        final(out)@ == old(out)@ + expr_text(expr_view(*e)),
    decreases *e, 1nat,
{
    let ghost start = out@;
    match e {
        Expr::Call { target, args } => {
            put(out, target.to_str());
            put(out, "(");
            write_args(args, out);
            put(out, ")");
            assert(out@ =~= start + expr_text(expr_view(*e)));
        }
        Expr::ScalarAssign(var, v) => {
            put(out, var.to_str());
            put(out, " = ");
            write_typed(v, out);
            assert(out@ =~= start + expr_text(expr_view(*e)));
        }
        Expr::NextLine => {
            put(out, "check_if_there_is_another_line");
            assert(out@ =~= start + expr_text(expr_view(*e)));
        }
        Expr::Variable(n) => {
            put(out, n.to_str());
            assert(out@ =~= start + expr_text(expr_view(*e)));
        }
        Expr::String(s) => {
            put(out, "\"");
            put(out, s.as_str());
            put(out, "\"");
            assert(out@ =~= start + expr_text(expr_view(*e)));
        }
        Expr::Regex(s) => {
            put(out, "\"");
            put(out, s.as_str());
            put(out, "\"");
            assert(out@ =~= start + expr_text(expr_view(*e)));
        }
        Expr::Number(s) => {
            put(out, s.as_str());
            assert(out@ =~= start + expr_text(expr_view(*e)));
        }
        Expr::BinOp(l, op, r) => {
            write_typed(l, out);
            put(out, bin_str(*op));
            write_typed(r, out);
            assert(out@ =~= start + expr_text(expr_view(*e)));
        }
        Expr::Ternary(c, a, b) => {
            write_typed(c, out);
            put(out, " ? ");
            write_typed(a, out);
            put(out, " : ");
            write_typed(b, out);
            assert(out@ =~= start + expr_text(expr_view(*e)));
        }
        Expr::MathOp(l, op, r) => {
            write_typed(l, out);
            put(out, math_str(*op));
            write_typed(r, out);
            assert(out@ =~= start + expr_text(expr_view(*e)));
        }
        Expr::LogicalOp(l, op, r) => {
            write_typed(l, out);
            put(out, logical_str(*op));
            write_typed(r, out);
            assert(out@ =~= start + expr_text(expr_view(*e)));
        }
        Expr::Column(c) => {
            put(out, "$");
            write_typed(c, out);
            assert(out@ =~= start + expr_text(expr_view(*e)));
        }
        Expr::Concatenation(vals) => {
            write_list(vals, " ", out);
            assert(out@ =~= start + expr_text(expr_view(*e)));
        }
        Expr::ArrayIndex { name, indices } => {
            put(out, name.to_str());
            put(out, "[");
            write_list(indices, ",", out);
            put(out, "]");
            assert(out@ =~= start + expr_text(expr_view(*e)));
        }
        Expr::InArray { name, indices } => {
            put(out, "(");
            write_list(indices, ",", out);
            put(out, ") in ");
            put(out, name.to_str());
            assert(out@ =~= start + expr_text(expr_view(*e)));
        }
        Expr::ArrayAssign { name, indices, value } => {
            put(out, name.to_str());
            put(out, "[");
            write_list(indices, ",", out);
            put(out, "] = ");
            write_typed(value, out);
            assert(out@ =~= start + expr_text(expr_view(*e)));
        }
        Expr::CallSub { arg1, arg2, arg3, global } => {
            put(out, if *global { "gsub" } else { "sub" });
            put(out, "(");
            write_typed(arg1, out);
            put(out, ",");
            write_typed(arg2, out);
            put(out, ",");
            write_lvalue(arg3, out);
            put(out, ")");
            assert(out@ =~= start + expr_text(expr_view(*e)));
        }
    }
}

impl Expr {
    /// How the expression is written when a program is shown; numbers are
    /// written with the text they were read from.
    pub fn to_text(&self) -> (s: String)
        ensures
            s@ == expr_text(expr_view(*self)),
    {
        let mut out = String::new();
        write_expr(self, &mut out);
        assert(out@ =~= expr_text(expr_view(*self)));
        out
    }
}

impl TypedExpr {
    /// How the expression is written, with its type around it.
    pub fn to_text(&self) -> (s: String)
        ensures
            s@ == typed_text(typed_view(*self)),
    {
        let mut out = String::new();
        write_typed(self, &mut out);
        assert(out@ =~= typed_text(typed_view(*self)));
        out
    }
}


/// The kind of an operator token.
#[verifier::spinoff_prover]
proof fn lemma_operator_kinds(b: BinOp, m: MathOp)
    ensures
        tt(Lexeme::Plain(Token::BinOp(b))) == bin_tt(b),
        tt(Lexeme::Plain(Token::MathOp(m))) == math_tt(m),
        tt(Lexeme::Plain(Token::LogicalOp(LogicalOp::And))) == TokenType::And,
        tt(Lexeme::Plain(Token::LogicalOp(LogicalOp::Or))) == TokenType::Or,
        tt(Lexeme::Plain(Token::Bang)) == TokenType::Bang,
{
    reveal(tt);
}

/// `~` and `!~` keep their sense: when an operand `x` ends at a match
/// operator token and another operand `r` follows it, the expression read is
/// the test of `x` against `r` with the operator of that token.
#[verifier::spinoff_prover]
pub proof fn law_match_operator_kept(ts: Seq<Lexeme>, i: int, j: int, k: int, x: STyped, r: STyped, op: BinOp)
    requires
        op == BinOp::MatchedBy || op == BinOp::NotMatchedBy,
        0 <= i <= j < ts.len(),
        ts[j] == Lexeme::Plain(Token::BinOp(op)),
        p_compare(ts, i) == Parsed::Done(x, j),
        p_compare(ts, j + 1) == Parsed::Done(r, k),
        j + 1 <= k <= ts.len(),
        ty(ts, k) != TokenType::MatchedBy,
        ty(ts, k) != TokenType::NotMatchedBy,
    ensures
        p_regex(ts, i) == Parsed::Done(tv(SExpr::BinOp(Box::new(x), op, Box::new(r))), k),
{
    lemma_operator_kinds(op, MathOp::Plus);
    let e = tv(SExpr::BinOp(Box::new(x), op, Box::new(r)));
    lemma_regex_rest_end(ts, k, e);
    lemma_regex_rest_step(ts, j, k, x, r, op);
    assert(p_regex(ts, i) == p_regex_rest(ts, j, x));
}

#[verifier::spinoff_prover]
proof fn lemma_regex_rest_end(ts: Seq<Lexeme>, k: int, e: STyped)
    requires
        ty(ts, k) != TokenType::MatchedBy,
        ty(ts, k) != TokenType::NotMatchedBy,
    ensures
        p_regex_rest(ts, k, e) == Parsed::Done(e, k),
{
}

#[verifier::spinoff_prover]
proof fn lemma_regex_rest_step(ts: Seq<Lexeme>, j: int, k: int, x: STyped, r: STyped, op: BinOp)
    requires
        op == BinOp::MatchedBy || op == BinOp::NotMatchedBy,
        ty(ts, j) == bin_tt(op),
        p_compare(ts, j + 1) == Parsed::Done(r, k),
        j + 1 <= k <= ts.len(),
    ensures
        p_regex_rest(ts, j, x) == p_regex_rest(ts, k, tv(SExpr::BinOp(Box::new(x), op, Box::new(r)))),
{
    if op == BinOp::MatchedBy {
        assert(ty(ts, j) == TokenType::MatchedBy);
    } else {
        assert(ty(ts, j) == TokenType::NotMatchedBy);
    }
}

/// A comparison keeps its operator: when an operand `x` ends at a comparison
/// token and another operand `r` follows it, the expression read compares
/// `x` with `r` by the operator of that token.
#[verifier::spinoff_prover]
pub proof fn law_comparison_operator_kept(ts: Seq<Lexeme>, i: int, j: int, k: int, x: STyped, r: STyped, op: BinOp)
    requires
        op != BinOp::MatchedBy && op != BinOp::NotMatchedBy,
        0 <= i <= j < ts.len(),
        ts[j] == Lexeme::Plain(Token::BinOp(op)),
        p_string_concat(ts, i) == Parsed::Done(x, j),
        p_string_concat(ts, j + 1) == Parsed::Done(r, k),
        j + 1 <= k <= ts.len(),
        !compare_op(ty(ts, k)),
    ensures
        p_compare(ts, i) == Parsed::Done(tv(SExpr::BinOp(Box::new(x), op, Box::new(r))), k),
{
    lemma_operator_kinds(op, MathOp::Plus);
    reveal_with_fuel(p_compare, 1);
    let e = tv(SExpr::BinOp(Box::new(x), op, Box::new(r)));
    assert(ty(ts, j) == bin_tt(op));
    assert(compare_op(ty(ts, j)));
    assert(lex_bin(tk(ts, j)) == op);
    assert(p_compare_rest(ts, k, e) == Parsed::Done(e, k));
    assert(p_compare_rest(ts, j, x) == p_compare_rest(ts, k, e));
    assert(p_compare(ts, i) == p_compare_rest(ts, j, x));
}

/// `*`, `/` and `%` keep their operator: when a factor `x` ends at one of
/// these tokens and another factor `r` follows, the term read applies the
/// operator of that token to `x` and `r`.
#[verifier::spinoff_prover]
pub proof fn law_product_operator_kept(ts: Seq<Lexeme>, i: int, j: int, k: int, x: STyped, r: STyped, op: MathOp)
    requires
        op == MathOp::Star || op == MathOp::Slash || op == MathOp::Modulus,
        0 <= i <= j < ts.len(),
        ts[j] == Lexeme::Plain(Token::MathOp(op)),
        p_unary(ts, i) == Parsed::Done(x, j),
        p_unary(ts, j + 1) == Parsed::Done(r, k),
        j + 1 <= k <= ts.len(),
        ty(ts, k) != TokenType::Star && ty(ts, k) != TokenType::Slash && ty(ts, k) != TokenType::Modulo,
    ensures
        p_term(ts, i) == Parsed::Done(tv(SExpr::MathOp(Box::new(x), op, Box::new(r))), k),
{
    lemma_operator_kinds(BinOp::EqEq, op);
    let e = tv(SExpr::MathOp(Box::new(x), op, Box::new(r)));
    assert(lex_math(tk(ts, j)) == op);
    assert(p_term_rest(ts, k, e) == Parsed::Done(e, k));
    assert(p_term_rest(ts, j, x) == p_term_rest(ts, k, e));
}

/// `+` and `-` keep their operator: when a term `x` ends at one of these
/// tokens and the rest `r` follows, the sum read applies the operator of
/// that token to `x` and `r`.
#[verifier::spinoff_prover]
pub proof fn law_sum_operator_kept(ts: Seq<Lexeme>, i: int, j: int, k: int, x: STyped, r: STyped, op: MathOp)
    requires
        op == MathOp::Plus || op == MathOp::Minus,
        0 <= i <= j < ts.len(),
        ts[j] == Lexeme::Plain(Token::MathOp(op)),
        p_term(ts, i) == Parsed::Done(x, j),
        p_plus_minus(ts, j + 1) == Parsed::Done(r, k),
        j + 1 <= k <= ts.len(),
        ty(ts, k) != TokenType::Plus && ty(ts, k) != TokenType::Minus,
    ensures
        p_plus_minus(ts, i) == Parsed::Done(tv(SExpr::MathOp(Box::new(x), op, Box::new(r))), k),
{
    lemma_operator_kinds(BinOp::EqEq, op);
    let e = tv(SExpr::MathOp(Box::new(x), op, Box::new(r)));
    assert(lex_math(tk(ts, j)) == op);
    assert(p_pm_rest(ts, k, e) == Parsed::Done(e, k));
    assert(p_pm_rest(ts, j, x) == p_pm_rest(ts, k, e));
}

/// Lexing a text that is one token long.
#[verifier::spinoff_prover]
proof fn lemma_one_token(src: Seq<char>, l: Lexeme)
    requires
        src.len() >= 1,
        scan_step(src, 0, 0) == ScanStep::Emit(seq![l], src.len() as int, 0),
    ensures
        lex_spec(src) == LexOutcome::Tokens(seq![l, Lexeme::Plain(Token::EOF)]),
{
    reveal_with_fuel(lex_from, 2);
    assert(seq![l] + seq![Lexeme::Plain(Token::EOF)] =~= seq![l, Lexeme::Plain(Token::EOF)]);
}

/// Each comparison and match operator is written the way the lexer reads
/// it: lexing `bin_text(b)` gives back the one token `b`.
#[verifier::spinoff_prover]
pub proof fn law_comparison_text_lexes_back(b: BinOp)
    ensures
        lex_spec(bin_text(b)) == LexOutcome::Tokens(seq![Lexeme::Plain(Token::BinOp(b)), Lexeme::Plain(Token::EOF)]),
{
    let l = Lexeme::Plain(Token::BinOp(b));
    match b {
        BinOp::Greater => { reveal_strlit(">"); }
        BinOp::GreaterEq => { reveal_strlit(">="); }
        BinOp::Less => { reveal_strlit("<"); }
        BinOp::LessEq => { reveal_strlit("<="); }
        BinOp::BangEq => { reveal_strlit("!="); }
        BinOp::EqEq => { reveal_strlit("=="); }
        BinOp::MatchedBy => { reveal_strlit("~"); }
        BinOp::NotMatchedBy => { reveal_strlit("!~"); }
    }
    lemma_one_token(bin_text(b), l);
}

/// Each arithmetic operator is written the way the lexer reads it: lexing
/// `math_text(m)` gives back the one token `m`.
#[verifier::spinoff_prover]
pub proof fn law_arithmetic_text_lexes_back(m: MathOp)
    ensures
        lex_spec(math_text(m)) == LexOutcome::Tokens(seq![Lexeme::Plain(Token::MathOp(m)), Lexeme::Plain(Token::EOF)]),
{
    let l = Lexeme::Plain(Token::MathOp(m));
    match m {
        MathOp::Minus => { reveal_strlit("-"); }
        MathOp::Plus => { reveal_strlit("+"); }
        MathOp::Slash => { reveal_strlit("/"); }
        MathOp::Star => { reveal_strlit("*"); }
        MathOp::Modulus => { reveal_strlit("%"); }
        MathOp::Exponent => { reveal_strlit("^"); }
    }
    lemma_one_token(math_text(m), l);
}

/// Each logical operator is written the way the lexer reads it: lexing
/// `logical_text(o)` gives back the one token `o`.
#[verifier::spinoff_prover]
pub proof fn law_logical_text_lexes_back(o: LogicalOp)
    ensures
        lex_spec(logical_text(o)) == LexOutcome::Tokens(seq![Lexeme::Plain(Token::LogicalOp(o)), Lexeme::Plain(Token::EOF)]),
{
    let l = Lexeme::Plain(Token::LogicalOp(o));
    match o {
        LogicalOp::And => { reveal_strlit("&&"); }
        LogicalOp::Or => { reveal_strlit("||"); }
    }
    lemma_one_token(logical_text(o), l);
}

/// `&&` joins its operands: when an operand `x` ends at `&&` and another
/// operand `r` follows it, the conjunction read is `x && r`.
#[verifier::spinoff_prover]
pub proof fn law_and_kept(ts: Seq<Lexeme>, i: int, j: int, k: int, x: STyped, r: STyped)
    requires
        0 <= i <= j < ts.len(),
        ts[j] == Lexeme::Plain(Token::LogicalOp(LogicalOp::And)),
        p_array_membership(ts, i) == Parsed::Done(x, j),
        p_array_membership(ts, j + 1) == Parsed::Done(r, k),
        j + 1 <= k <= ts.len(),
        ty(ts, k) != TokenType::And,
    ensures
        p_logical_and(ts, i) == Parsed::Done(tv(SExpr::LogicalOp(Box::new(x), LogicalOp::And, Box::new(r))), k),
{
    lemma_operator_kinds(BinOp::EqEq, MathOp::Plus);
    reveal_with_fuel(p_logical_and, 1);
    let e = tv(SExpr::LogicalOp(Box::new(x), LogicalOp::And, Box::new(r)));
    assert(p_and_rest(ts, k, e) == Parsed::Done(e, k));
    assert(p_and_rest(ts, j, x) == p_and_rest(ts, k, e));
}

/// `||` joins its operands: when an operand `x` ends at `||` and another
/// operand `r` follows it, the disjunction read is `x || r`.
#[verifier::spinoff_prover]
pub proof fn law_or_kept(ts: Seq<Lexeme>, i: int, j: int, k: int, x: STyped, r: STyped)
    requires
        0 <= i <= j < ts.len(),
        ts[j] == Lexeme::Plain(Token::LogicalOp(LogicalOp::Or)),
        p_logical_and(ts, i) == Parsed::Done(x, j),
        p_logical_and(ts, j + 1) == Parsed::Done(r, k),
        j + 1 <= k <= ts.len(),
        ty(ts, k) != TokenType::Or,
    ensures
        p_logical_or(ts, i) == Parsed::Done(tv(SExpr::LogicalOp(Box::new(x), LogicalOp::Or, Box::new(r))), k),
{
    lemma_operator_kinds(BinOp::EqEq, MathOp::Plus);
    let e = tv(SExpr::LogicalOp(Box::new(x), LogicalOp::Or, Box::new(r)));
    assert(p_or_rest(ts, k, e) == Parsed::Done(e, k));
    assert(p_or_rest(ts, j, x) == p_or_rest(ts, k, e));
}

/// `^` raises its left operand to the power of its right one.
#[verifier::spinoff_prover]
pub proof fn law_exponent_kept(ts: Seq<Lexeme>, i: int, j: int, k: int, x: STyped, r: STyped)
    requires
        0 <= i <= j < ts.len(),
        ts[j] == Lexeme::Plain(Token::MathOp(MathOp::Exponent)),
        p_pre_op(ts, i) == Parsed::Done(x, j),
        p_pre_op(ts, j + 1) == Parsed::Done(r, k),
        j + 1 <= k <= ts.len(),
        ty(ts, k) != TokenType::Exponent,
    ensures
        p_exp(ts, i) == Parsed::Done(tv(SExpr::MathOp(Box::new(x), MathOp::Exponent, Box::new(r))), k),
{
    lemma_operator_kinds(BinOp::EqEq, MathOp::Exponent);
    let e = tv(SExpr::MathOp(Box::new(x), MathOp::Exponent, Box::new(r)));
    assert(p_exp_rest(ts, k, e) == Parsed::Done(e, k));
    assert(p_exp_rest(ts, j, x) == p_exp_rest(ts, k, e));
}

/// A prefix `-` negates (`0 - r`), a prefix `+` keeps the value (`0 + r`)
/// and a prefix `!` tests the operand against one (`1 != r`), each applied
/// to the unary expression after it.
#[verifier::spinoff_prover]
pub proof fn law_prefix_operators(ts: Seq<Lexeme>, i: int, j: int, r: STyped)
    requires
        0 <= i < ts.len(),
        ty(ts, i + 1) != ty(ts, i),
        p_unary(ts, i + 1) == Parsed::Done(r, j),
    ensures
        ts[i] == Lexeme::Plain(Token::MathOp(MathOp::Minus)) ==>
            p_unary(ts, i) == Parsed::Done(tv(SExpr::MathOp(Box::new(num("0"@)), MathOp::Minus, Box::new(r))), j),
        ts[i] == Lexeme::Plain(Token::MathOp(MathOp::Plus)) ==>
            p_unary(ts, i) == Parsed::Done(tv(SExpr::MathOp(Box::new(num("0"@)), MathOp::Plus, Box::new(r))), j),
        ts[i] == Lexeme::Plain(Token::Bang) ==>
            p_unary(ts, i) == Parsed::Done(tv(SExpr::BinOp(Box::new(num("1"@)), BinOp::BangEq, Box::new(r))), j),
{
    lemma_operator_kinds(BinOp::EqEq, MathOp::Minus);
    lemma_operator_kinds(BinOp::EqEq, MathOp::Plus);
}

/// The name of each operator and punctuation token kind, as error messages
/// show it, is the text of a token of that kind: lexing it gives back one
/// token, of kind `t`.
#[verifier::spinoff_prover]
#[verifier::rlimit(50)]
pub proof fn law_token_names_lex_back(t: TokenType)
    requires
        t == TokenType::Bang || t == TokenType::Eq || t == TokenType::Minus || t == TokenType::Plus || t == TokenType::Slash || t == TokenType::Star || t == TokenType::Modulo || t == TokenType::Exponent || t == TokenType::Greater || t == TokenType::GreaterEq || t == TokenType::Less || t == TokenType::LessEq || t == TokenType::BangEq || t == TokenType::EqEq || t == TokenType::MatchedBy || t == TokenType::NotMatchedBy || t == TokenType::And || t == TokenType::Or || t == TokenType::Column || t == TokenType::LeftBrace || t == TokenType::RightBrace || t == TokenType::LeftParen || t == TokenType::RightParen || t == TokenType::LeftBracket || t == TokenType::RightBracket || t == TokenType::Question || t == TokenType::Colon || t == TokenType::Comma || t == TokenType::Semicolon,
    ensures
        lex_spec(tt_name(t)) matches LexOutcome::Tokens(ls) && ls.len() == 2 && tt(ls[0]) == t
            && ls[1] == Lexeme::Plain(Token::EOF),
{
    reveal(tt);
    match t {
        TokenType::Bang => {
            reveal_strlit("!");
            lemma_one_token(tt_name(t), Lexeme::Plain(Token::Bang));
        }
        TokenType::Eq => {
            reveal_strlit("=");
            lemma_one_token(tt_name(t), Lexeme::Plain(Token::Eq));
        }
        TokenType::Minus => {
            reveal_strlit("-");
            lemma_one_token(tt_name(t), Lexeme::Plain(Token::MathOp(MathOp::Minus)));
        }
        TokenType::Plus => {
            reveal_strlit("+");
            lemma_one_token(tt_name(t), Lexeme::Plain(Token::MathOp(MathOp::Plus)));
        }
        TokenType::Slash => {
            reveal_strlit("/");
            lemma_one_token(tt_name(t), Lexeme::Plain(Token::MathOp(MathOp::Slash)));
        }
        TokenType::Star => {
            reveal_strlit("*");
            lemma_one_token(tt_name(t), Lexeme::Plain(Token::MathOp(MathOp::Star)));
        }
        TokenType::Modulo => {
            reveal_strlit("%");
            lemma_one_token(tt_name(t), Lexeme::Plain(Token::MathOp(MathOp::Modulus)));
        }
        TokenType::Exponent => {
            reveal_strlit("^");
            lemma_one_token(tt_name(t), Lexeme::Plain(Token::MathOp(MathOp::Exponent)));
        }
        TokenType::Greater => {
            reveal_strlit(">");
            lemma_one_token(tt_name(t), Lexeme::Plain(Token::BinOp(BinOp::Greater)));
        }
        TokenType::GreaterEq => {
            reveal_strlit(">=");
            lemma_one_token(tt_name(t), Lexeme::Plain(Token::BinOp(BinOp::GreaterEq)));
        }
        TokenType::Less => {
            reveal_strlit("<");
            lemma_one_token(tt_name(t), Lexeme::Plain(Token::BinOp(BinOp::Less)));
        }
        TokenType::LessEq => {
            reveal_strlit("<=");
            lemma_one_token(tt_name(t), Lexeme::Plain(Token::BinOp(BinOp::LessEq)));
        }
        TokenType::BangEq => {
            reveal_strlit("!=");
            lemma_one_token(tt_name(t), Lexeme::Plain(Token::BinOp(BinOp::BangEq)));
        }
        TokenType::EqEq => {
            reveal_strlit("==");
            lemma_one_token(tt_name(t), Lexeme::Plain(Token::BinOp(BinOp::EqEq)));
        }
        TokenType::MatchedBy => {
            reveal_strlit("~");
            lemma_one_token(tt_name(t), Lexeme::Plain(Token::BinOp(BinOp::MatchedBy)));
        }
        TokenType::NotMatchedBy => {
            reveal_strlit("!~");
            lemma_one_token(tt_name(t), Lexeme::Plain(Token::BinOp(BinOp::NotMatchedBy)));
        }
        TokenType::And => {
            reveal_strlit("&&");
            lemma_one_token(tt_name(t), Lexeme::Plain(Token::LogicalOp(LogicalOp::And)));
        }
        TokenType::Or => {
            reveal_strlit("||");
            lemma_one_token(tt_name(t), Lexeme::Plain(Token::LogicalOp(LogicalOp::Or)));
        }
        TokenType::Column => {
            reveal_strlit("$");
            lemma_one_token(tt_name(t), Lexeme::Plain(Token::Column));
        }
        TokenType::LeftBrace => {
            reveal_strlit("{");
            lemma_one_token(tt_name(t), Lexeme::Plain(Token::LeftBrace));
        }
        TokenType::RightBrace => {
            reveal_strlit("}");
            lemma_one_token(tt_name(t), Lexeme::Plain(Token::RightBrace));
        }
        TokenType::LeftParen => {
            reveal_strlit("(");
            lemma_one_token(tt_name(t), Lexeme::Plain(Token::LeftParen));
        }
        TokenType::RightParen => {
            reveal_strlit(")");
            lemma_one_token(tt_name(t), Lexeme::Plain(Token::RightParen));
        }
        TokenType::LeftBracket => {
            reveal_strlit("[");
            lemma_one_token(tt_name(t), Lexeme::Plain(Token::LeftBracket));
        }
        TokenType::RightBracket => {
            reveal_strlit("]");
            lemma_one_token(tt_name(t), Lexeme::Plain(Token::RightBracket));
        }
        TokenType::Question => {
            reveal_strlit("?");
            lemma_one_token(tt_name(t), Lexeme::Plain(Token::Question));
        }
        TokenType::Colon => {
            reveal_strlit(":");
            lemma_one_token(tt_name(t), Lexeme::Plain(Token::Colon));
        }
        TokenType::Comma => {
            reveal_strlit(",");
            lemma_one_token(tt_name(t), Lexeme::Plain(Token::Comma));
        }
        TokenType::Semicolon => {
            reveal_strlit(";");
            lemma_one_token(tt_name(t), Lexeme::Plain(Token::Semicolon));
        }
        _ => {}
    }
}

} // verus!
