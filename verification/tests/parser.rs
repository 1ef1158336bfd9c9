use jawk::lexer::{lex, BinOp, LogicalOp, MathOp};
use jawk::parser::{parse, Expr, Function, LValue, PatternAction, Program, Stmt, TypedExpr};
use jawk::symbolizer::Symbolizer;

// Numbers keep the text they were written with; the expected trees below
// give them as values, so both sides are compared with each number written
// the way `f64` prints it.
fn fnum(x: f64) -> String {
    format!("{}", x)
}

fn canon_typed(t: TypedExpr) -> TypedExpr {
    TypedExpr { typ: t.typ, expr: canon_expr(t.expr) }
}

fn canon_all(v: Vec<TypedExpr>) -> Vec<TypedExpr> {
    v.into_iter().map(canon_typed).collect()
}

fn canon_box(b: Box<TypedExpr>) -> Box<TypedExpr> {
    Box::new(canon_typed(*b))
}

fn canon_lvalue(l: LValue) -> LValue {
    match l {
        LValue::Variable(n) => LValue::Variable(n),
        LValue::ArrayIndex { name, indices } => LValue::ArrayIndex { name, indices: canon_all(indices) },
        LValue::Column(c) => LValue::Column(canon_box(c)),
    }
}

fn canon_expr(e: Expr) -> Expr {
    match e {
        Expr::Number(s) => Expr::Number(fnum(s.parse::<f64>().unwrap())),
        Expr::ScalarAssign(n, v) => Expr::ScalarAssign(n, canon_box(v)),
        Expr::ArrayAssign { name, indices, value } =>
            Expr::ArrayAssign { name, indices: canon_all(indices), value: canon_box(value) },
        Expr::Concatenation(v) => Expr::Concatenation(canon_all(v)),
        Expr::BinOp(l, o, r) => Expr::BinOp(canon_box(l), o, canon_box(r)),
        Expr::MathOp(l, o, r) => Expr::MathOp(canon_box(l), o, canon_box(r)),
        Expr::LogicalOp(l, o, r) => Expr::LogicalOp(canon_box(l), o, canon_box(r)),
        Expr::Column(c) => Expr::Column(canon_box(c)),
        Expr::Ternary(a, b, c) => Expr::Ternary(canon_box(a), canon_box(b), canon_box(c)),
        Expr::ArrayIndex { name, indices } => Expr::ArrayIndex { name, indices: canon_all(indices) },
        Expr::InArray { name, indices } => Expr::InArray { name, indices: canon_all(indices) },
        Expr::Call { target, args } => Expr::Call { target, args: canon_all(args) },
        Expr::CallSub { arg1, arg2, arg3, global } =>
            Expr::CallSub { arg1: canon_box(arg1), arg2: canon_box(arg2), arg3: canon_lvalue(arg3), global },
        other => other,
    }
}

fn canon_stmt(s: Stmt) -> Stmt {
    match s {
        Stmt::Expr(e) => Stmt::Expr(canon_typed(e)),
        Stmt::Print(e) => Stmt::Print(canon_typed(e)),
        Stmt::Group(v) => Stmt::Group(v.into_iter().map(canon_stmt).collect()),
        Stmt::If(c, t, e) => Stmt::If(canon_typed(c), Box::new(canon_stmt(*t)), e.map(|b| Box::new(canon_stmt(*b)))),
        Stmt::While(c, b) => Stmt::While(canon_typed(c), Box::new(canon_stmt(*b))),
        Stmt::Printf { fstring, args } => Stmt::Printf { fstring: canon_typed(fstring), args: canon_all(args) },
        Stmt::Break => Stmt::Break,
        Stmt::Return(e) => Stmt::Return(e.map(canon_typed)),
    }
}

fn canon_program(p: Program) -> Program {
    Program {
        name: p.name,
        begins: p.begins.into_iter().map(canon_stmt).collect(),
        ends: p.ends.into_iter().map(canon_stmt).collect(),
        pattern_actions: p.pattern_actions.into_iter()
            .map(|pa| PatternAction { pattern: pa.pattern.map(canon_typed), action: canon_stmt(pa.action) })
            .collect(),
        functions: p.functions.into_iter()
            .map(|f| Function { name: f.name, args: f.args, body: canon_stmt(f.body) })
            .collect(),
    }
}

fn num(x: f64) -> TypedExpr {
    TypedExpr::new(Expr::Number(fnum(x)))
}

fn bnum(x: f64) -> Box<TypedExpr> {
    Box::new(num(x))
}

fn texpr(e: Expr) -> TypedExpr {
    TypedExpr::new(e)
}

fn btexpr(e: Expr) -> Box<TypedExpr> {
    Box::new(texpr(e))
}

fn mathop(a: Box<TypedExpr>, op: MathOp, b: Box<TypedExpr>) -> TypedExpr {
    texpr(Expr::MathOp(a, op, b))
}

fn binop(a: Box<TypedExpr>, op: BinOp, b: Box<TypedExpr>) -> TypedExpr {
    texpr(Expr::BinOp(a, op, b))
}

fn sprogram(body: Stmt, symbolizer: &mut Symbolizer) -> Program {
    Program::new(symbolizer.get("main function"), vec![], vec![], vec![PatternAction::new_action_only(body)], vec![])
}

fn parse_unwrap(tokens: Vec<jawk::lexer::Token>, symbolizer: &mut Symbolizer) -> Program {
    canon_program(parse(tokens, symbolizer).unwrap())
}

fn parse_it(input: &str, symbolizer: &mut Symbolizer) -> Program {
    parse_unwrap(lex(input, symbolizer).unwrap(), symbolizer)
}

#[test]
fn test_ast_number() {
    let mut symbolizer = Symbolizer::new();

    let prog = Program::new(
        symbolizer.get("main function"), vec![], vec![], vec![PatternAction::new_action_only(Stmt::Expr(mathop(
                    bnum(1.0),
                    MathOp::Plus,
                    bnum(2.0)
                )))], vec![]);
    assert_eq!(
        parse_it("{1+2}", &mut symbolizer),
        prog
    );
}


#[test]
fn test_ast_oop() {
    let mut symbolizer = Symbolizer::new();
    let left = bnum(1.0);
    let right = Box::new(mathop(bnum(3.0), MathOp::Star, bnum(2.0)));
    let expected = Program::new_action_only(symbolizer.get("main function"), Stmt::Expr(mathop(left, MathOp::Plus, right)));
    let actual = parse_it("{1 + 3 * 2;}", &mut symbolizer);
    assert_eq!(
        actual,
        expected, "\nactual {:?} expected {:?}", actual, expected
    );
}

#[test]
fn test_ast_oop_2() {
    let mut symbolizer = Symbolizer::new();
    let left = Box::new(num(2.0));
    let right = Box::new(texpr(Expr::MathOp(
    Box::new(num(1.0)),
    MathOp::Star,
    Box::new(num(3.0))
)));
    let mult = Stmt::Expr(texpr(Expr::MathOp(right, MathOp::Plus, left)));
    assert_eq!(
        parse_it("{1 * 3 + 2;}", &mut symbolizer),
        Program::new_action_only(symbolizer.get("main function"), mult)
    );
}

#[test]
fn test_ast_assign() {
    let mut symbolizer = Symbolizer::new();
    let stmt = Stmt::Expr(texpr(Expr::ScalarAssign(symbolizer.get("abc"), bnum(2.0))));
    assert_eq!(
        parse_it("{abc = 2.0; }", &mut symbolizer),
        Program::new_action_only(symbolizer.get("main function"), stmt)
    );
}

#[test]
fn test_mathop_exponent() {
    let mut symbolizer = Symbolizer::new();

    assert_eq!(
        parse_it("{2 ^ 2;}", &mut symbolizer),
        Program::new(
            symbolizer.get("main function"),
            vec![],
            vec![],
            vec![PatternAction::new_action_only(Stmt::Expr(mathop(
            bnum(2.0),
            MathOp::Exponent,
            bnum(2.0)
        )))], vec![],
        )
    );
}

#[test]
fn test_mathop_exponent_2() {
    let mut symbolizer = Symbolizer::new();
    let right = Box::new(num(3.0));
    let left = Box::new(texpr(Expr::MathOp(
    Box::new(num(2.0)),
    MathOp::Exponent,
    Box::new(num(2.0))
)));
    let expo = Stmt::Expr(texpr(Expr::MathOp(left, MathOp::Star, right)));

    assert_eq!(
        parse_it("{2 ^ 2 * 3;}", &mut symbolizer),
        Program::new_action_only(symbolizer.get("main function"), expo)
    );
}

#[test]
fn test_unary_op() {
    let mut symbolizer = Symbolizer::new();
    let initial = Box::new(num(1.0));
    let first = Box::new(texpr(Expr::MathOp(
    Box::new(num(0.0)),
    MathOp::Plus,
    initial
)));
    let second = Box::new(texpr(Expr::MathOp(
    Box::new(num(0.0)),
    MathOp::Minus,
    first
)));
    let third = Box::new(texpr(Expr::MathOp(
    Box::new(num(0.0)),
    MathOp::Plus,
    second
)));

    let fourth = Stmt::Expr(texpr(Expr::MathOp(
    Box::new(num(0.0)),
    MathOp::Minus,
    third
)));

    assert_eq!(
        parse_it("{-+-+1;}", &mut symbolizer),
        Program::new_action_only(symbolizer.get("main function"), fourth)
    );
}

#[test]
fn test_unary_op2() {
    let mut symbolizer = Symbolizer::new();
    let initial = Box::new(num(1.0));
    let first = Box::new(texpr(Expr::BinOp(
    Box::new(num(1.0)),
    BinOp::BangEq,
    initial
)));
    let second = Box::new(texpr(Expr::MathOp(
    Box::new(num(0.0)),
    MathOp::Plus,
    first
)));
    let third = Box::new(texpr(Expr::BinOp(
    Box::new(num(1.0)),
    BinOp::BangEq,
    second
)));

    let fourth = Stmt::Expr(texpr(Expr::MathOp(
    Box::new(num(0.0)),
    MathOp::Minus,
    third
)));

    let expected = parse_it("{-!+!1;}", &mut symbolizer);
    let actual = Program::new_action_only(symbolizer.get("main function"), fourth);
    assert_eq!(actual, expected);
}

#[test]
fn test_if_else() {
    let mut symbolizer = Symbolizer::new();
    let str = "{ if (1) { print 2; } else { print 3; }}";
    let actual = parse_it(str, &mut symbolizer);
    assert_eq!(
        actual,
        Program::new_action_only(
            symbolizer.get("main function"), Stmt::If(
                num(1.0),
                Box::new(Stmt::Print(num(2.0))),
                Some(Box::new(Stmt::Print(num(3.0)))),
            ))
    );
}

#[test]
fn test_if_only() {
    let mut symbolizer = Symbolizer::new();
    let str = "{if (1) { print 2; }}";
    assert_eq!(
        parse_it(str, &mut symbolizer),
        Program::new_action_only(symbolizer.get("main function"), Stmt::If(num(1.0), Box::new(Stmt::Print(num(2.0))), None))
    );
}

#[test]
fn test_print() {
    let mut symbolizer = Symbolizer::new();
    let str = "{print 1;}";
    assert_eq!(
        parse_it(str, &mut symbolizer),
        Program::new_action_only(symbolizer.get("main function"), Stmt::Print(num(1.0)))
    );
}

#[test]
fn test_group() {
    let mut symbolizer = Symbolizer::new();
    let str = "{{print 1; print 2;}}";
    assert_eq!(
        parse_it(str, &mut symbolizer),
        Program::new_action_only(
            symbolizer.get("main function"), Stmt::Group(vec![
                Stmt::Print(num(1.0)),
                Stmt::Print(num(2.0)),
            ]))
    );
}

#[test]
fn test_if_else_continues() {
    let mut symbolizer = Symbolizer::new();
    let str = "{if (1) { print 2; } else { print 3; } 4.0;}";
    let actual = parse_it(str, &mut symbolizer);
    assert_eq!(
        actual,
        Program::new_action_only(
            symbolizer.get("main function"), Stmt::Group(vec![
                Stmt::If(
                    num(1.0),
                    Box::new(Stmt::Print(num(2.0))),
                    Some(Box::new(Stmt::Print(num(3.0)))),
                ),
                Stmt::Expr(num(4.0)),
            ]))
    );
}

#[test]
fn test_paser_begin_end() {
    let mut symbolizer = Symbolizer::new();
    let a = symbolizer.get("a");
    let str =
        "a { print 5; } BEGIN { print 1; } begin { print 2; } END { print 3; } end { print 4; }";
    let actual = parse_it(str, &mut symbolizer);
    let begins = vec![Stmt::Print(num(1.0)), Stmt::Print(num(2.0))];
    let ends = vec![Stmt::Print(num(3.0)), Stmt::Print(num(4.0))];
    let generic = PatternAction::new(
        Some(texpr(Expr::Variable(a))),
        Stmt::Print(num(5.0)),
    );
    assert_eq!(actual, Program::new(symbolizer.get("main function"), begins, ends, vec![generic], vec![]));
}

#[test]
fn test_pattern_only() {
    let mut symbolizer = Symbolizer::new();
    let str = "test";
    let actual = parse_it(str, &mut symbolizer);
    assert_eq!(
        actual,
        Program::new(
            symbolizer.get("main function"),
            vec![],
            vec![],
            vec![PatternAction::new_pattern_only(texpr(Expr::Variable(
            symbolizer.get("test")
        )))], vec![],
        )
    );
}

#[test]
fn test_print_no_semicolon() {
    let mut symbolizer = Symbolizer::new();
    let str = "{ print 1 }";
    let actual = parse_it(str, &mut symbolizer);
    assert_eq!(
        actual,
        Program::new(
            symbolizer.get("main function"),
            vec![],
            vec![],
            vec![PatternAction::new_action_only(Stmt::Print(num(1.0)))], vec![])
    );
}

#[test]
fn test_column() {
    let mut symbolizer = Symbolizer::new();
    let str = "$0+2 { print a; }";
    let actual = parse_it(str, &mut symbolizer);
    let body = Stmt::Print(texpr(Expr::Variable(symbolizer.get("a"))));

    let col = Expr::Column(bnum(0.0));
    let binop = texpr(Expr::MathOp(btexpr(col), MathOp::Plus, bnum(2.0)));

    let pa = PatternAction::new(Some(binop), body);
    assert_eq!(actual, Program::new(symbolizer.get("main function"), vec![], vec![], vec![pa], vec![]));
}

#[test]
fn test_nested_column() {
    let mut symbolizer = Symbolizer::new();
    let str = "$$0 { print a; }";
    let actual = parse_it(str, &mut symbolizer);
    let body = Stmt::Print(texpr(Expr::Variable(symbolizer.get("a"))));

    let col = Expr::Column(bnum(0.0));
    let col = Expr::Column(btexpr(col));

    let pa = PatternAction::new(Some(texpr(col)), body);
    assert_eq!(actual, Program::new(symbolizer.get("main function"), vec![], vec![], vec![pa], vec![]));
}

#[test]
fn test_while_l00p() {
    let mut symbolizer = Symbolizer::new();
    let str = "{ while (123) { print 1; } }";
    let actual = parse_it(str, &mut symbolizer);
    let body = Stmt::While(num(123.0), Box::new(Stmt::Print(num(1.0))));
    assert_eq!(
        actual,
        Program::new(symbolizer.get("main function"), vec![], vec![], vec![PatternAction::new_action_only(body)], vec![])
    );
}

#[test]
fn test_lt() {
    let mut symbolizer = Symbolizer::new();
    let actual = parse_it("{ 1 < 3 }", &mut symbolizer);
    let body = Stmt::Expr(texpr(Expr::BinOp(bnum(1.0), BinOp::Less, bnum(3.0))));
    assert_eq!(actual, sprogram(body, &mut symbolizer));
}

#[test]
fn test_gt() {
    let mut symbolizer = Symbolizer::new();
    let actual = parse_it("{ 1 > 3 }", &mut symbolizer);
    let body = Stmt::Expr(texpr(Expr::BinOp(bnum(1.0), BinOp::Greater, bnum(3.0))));
    assert_eq!(actual, sprogram(body, &mut symbolizer));
}

// test lteq
#[test]
fn test_lteq() {
    let mut symbolizer = Symbolizer::new();
    let actual = parse_it("{ 1 <= 3 }", &mut symbolizer);
    let body = Stmt::Expr(texpr(Expr::BinOp(bnum(1.0), BinOp::LessEq, bnum(3.0))));
    assert_eq!(actual, sprogram(body, &mut symbolizer));
}

#[test]
fn test_gteq() {
    let mut symbolizer = Symbolizer::new();
    let actual = parse_it("{ 1 >= 3 }", &mut symbolizer);
    let body = Stmt::Expr(texpr(Expr::BinOp(
    bnum(1.0),
    BinOp::GreaterEq,
    bnum(3.0)
)));
    assert_eq!(actual, sprogram(body, &mut symbolizer));
}

#[test]
fn test_eqeq() {
    let mut symbolizer = Symbolizer::new();
    let actual = parse_it("{ 1 == 3 }", &mut symbolizer);
    let body = Stmt::Expr(texpr(Expr::BinOp(bnum(1.0), BinOp::EqEq, bnum(3.0))));
    assert_eq!(actual, sprogram(body, &mut symbolizer));
}

#[test]
fn test_bangeq() {
    let mut symbolizer = Symbolizer::new();
    let actual = parse_it("{ 1 != 3 }", &mut symbolizer);
    let body = Stmt::Expr(texpr(Expr::BinOp(bnum(1.0), BinOp::BangEq, bnum(3.0))));
    assert_eq!(actual, sprogram(body, &mut symbolizer));
}

#[test]
fn test_bangeq_oo() {
    let mut symbolizer = Symbolizer::new();
    let actual = parse_it("{ 1 != 3*4 }", &mut symbolizer);
    let body = Stmt::Expr(texpr(Expr::BinOp(
    bnum(1.0),
    BinOp::BangEq,
    Box::new(texpr(Expr::MathOp(bnum(3.0), MathOp::Star, bnum(4.0))))
)));
    assert_eq!(actual, sprogram(body, &mut symbolizer));
}

#[test]
fn test_cmp_oop1() {
    let mut symbolizer = Symbolizer::new();
    let actual = parse_it("{ 3*3 == 9 }", &mut symbolizer);
    let left = mathop(bnum(3.0), MathOp::Star, bnum(3.0));
    let body = Stmt::Expr(binop(Box::new(left), BinOp::EqEq, bnum(9.0)));
    assert_eq!(actual, sprogram(body, &mut symbolizer));
}

#[test]
fn test_cmp_oop2() {
    let mut symbolizer = Symbolizer::new();
    let actual = parse_it("{ a = 1*3 == 4 }", &mut symbolizer);

    let left = texpr(Expr::MathOp(bnum(1.0), MathOp::Star, bnum(3.0)));
    let body = btexpr(Expr::BinOp(Box::new(left), BinOp::EqEq, bnum(4.0)));
    let stmt = Stmt::Expr(texpr(Expr::ScalarAssign(symbolizer.get("a"), body)));
    assert_eq!(actual, sprogram(stmt, &mut symbolizer));
}

#[test]
fn test_for_loop() {
    let mut symbolizer = Symbolizer::new();
    let actual = parse_it("{ for (a = 0; a < 1000; a = a + 1) { print a; } }", &mut symbolizer);
    let a = symbolizer.get("a");
    let init = texpr(Expr::ScalarAssign(a.clone(), btexpr(Expr::Number(fnum(0.0)))));
    let test = texpr(Expr::BinOp(
    btexpr(Expr::Variable(a.clone())),
    BinOp::Less,
    bnum(1000.0)
));
    let incr = texpr(Expr::ScalarAssign(
    a.clone(),
    btexpr(Expr::MathOp(
        btexpr(Expr::Variable(a.clone())),
        MathOp::Plus,
        btexpr(Expr::Number(fnum(1.0)))
    ))
));
    let body = Stmt::Print(texpr(Expr::Variable(a.clone())));
    let expected = Stmt::Group(vec![
        Stmt::Expr(init),
        Stmt::While(test, Box::new(Stmt::Group(vec![body, Stmt::Expr(incr)]))),
    ]);
    assert_eq!(actual, sprogram(expected, &mut symbolizer))
}

#[test]
fn test_logical_and() {
    let mut symbolizer = Symbolizer::new();
    let actual = parse_it("{ a && b && c }", &mut symbolizer);
    let a = btexpr(Expr::Variable(symbolizer.get("a")));
    let b = btexpr(Expr::Variable(symbolizer.get("b")));
    let c = btexpr(Expr::Variable(symbolizer.get("c")));
    let a_and_b = btexpr(Expr::LogicalOp(a, LogicalOp::And, b));
    let expected = Stmt::Expr(texpr(Expr::LogicalOp(a_and_b, LogicalOp::And, c)));
    assert_eq!(actual, sprogram(expected,  &mut symbolizer))
}

#[test]
fn test_logical_or() {
    let mut symbolizer = Symbolizer::new();
    let actual = parse_it("{ a || b || c }", &mut symbolizer);
    let a = btexpr(Expr::Variable(symbolizer.get("a")));
    let b = btexpr(Expr::Variable(symbolizer.get("b")));
    let c = btexpr(Expr::Variable(symbolizer.get("c")));
    let a_and_b = btexpr(Expr::LogicalOp(a, LogicalOp::Or, b));
    let expected = Stmt::Expr(texpr(Expr::LogicalOp(a_and_b, LogicalOp::Or, c)));
    assert_eq!(actual, sprogram(expected, &mut symbolizer))
}

#[test]
fn string_concat() {
    let mut symbolizer = Symbolizer::new();
    let actual = parse_it("{ print (a b) } ", &mut symbolizer);
    let a = texpr(Expr::Variable(symbolizer.get("a")));
    let b = texpr(Expr::Variable(symbolizer.get("b")));
    let print = Stmt::Print(texpr(Expr::Concatenation(vec![a, b])));
    assert_eq!(actual, sprogram(print, &mut symbolizer));
}

#[test]
fn string_concat2() {
    let mut symbolizer = Symbolizer::new();
    let actual = parse_it("{ print (\"a\" \"b\") } ", &mut symbolizer);
    let a = texpr(Expr::String(String::from("a")));
    let b = texpr(Expr::String(String::from("b")));
    let print = Stmt::Print(texpr(Expr::Concatenation(vec![a, b])));
    assert_eq!(actual, sprogram(print, &mut symbolizer));
}

#[test]
fn string_concat_ooo() {
    let mut symbolizer = Symbolizer::new();
    let actual = parse_it("{ print (a b - c) } ", &mut symbolizer);
    let a = texpr(Expr::Variable(symbolizer.get("a")));
    let b = btexpr(Expr::Variable(symbolizer.get("b")));
    let c = btexpr(Expr::Variable(symbolizer.get("c")));
    let b_minus_c = texpr(Expr::MathOp(b, MathOp::Minus, c));
    let expected = Stmt::Print(texpr(Expr::Concatenation(vec![a, b_minus_c])));
    assert_eq!(actual, sprogram(expected, &mut symbolizer));
}

#[test]
fn string_concat_ooo_2() {
    let mut symbolizer = Symbolizer::new();
    let actual = parse_it("{ print (a - c b ) } ", &mut symbolizer);
    let a = btexpr(Expr::Variable(symbolizer.get("a")));
    let b = texpr(Expr::Variable(symbolizer.get("b")));
    let c = btexpr(Expr::Variable(symbolizer.get("c")));
    let a_minus_c = texpr(Expr::MathOp(a, MathOp::Minus, c));
    let expected = Stmt::Print(texpr(Expr::Concatenation(vec![a_minus_c, b])));
    assert_eq!(actual, sprogram(expected, &mut symbolizer));
}

#[test]
fn string_concat_ooo_3() {
    let mut symbolizer = Symbolizer::new();
    let actual = parse_it("{ print (a < b c ) } ", &mut symbolizer);
    let a = btexpr(Expr::Variable(symbolizer.get("a")));
    let b = texpr(Expr::Variable(symbolizer.get("b")));
    let c = texpr(Expr::Variable(symbolizer.get("c")));
    let b_concat_c = btexpr(Expr::Concatenation(vec![b, c]));
    let expected = Stmt::Print(texpr(Expr::BinOp(a, BinOp::Less, b_concat_c)));
    assert_eq!(actual, sprogram(expected, &mut symbolizer));
}

#[test]
fn string_concat_ooo_4() {
    let mut symbolizer = Symbolizer::new();
    let actual = parse_it("{ print (a b < c ) } ", &mut symbolizer);
    let a = texpr(Expr::Variable(symbolizer.get("a")));
    let b = texpr(Expr::Variable(symbolizer.get("b")));
    let c = btexpr(Expr::Variable(symbolizer.get("c")));
    let a_concat_b = btexpr(Expr::Concatenation(vec![a, b]));
    let expected = Stmt::Print(texpr(Expr::BinOp(a_concat_b, BinOp::Less, c)));
    assert_eq!(actual, sprogram(expected, &mut symbolizer));
}

#[test]
fn string_concat_two_cols() {
    let mut symbolizer = Symbolizer::new();
    let actual = parse_it("{ print $1 $2 } ", &mut symbolizer);
    let one = texpr(Expr::Column(bnum(1.0)));
    let two = texpr(Expr::Column(bnum(2.0)));
    let concat = texpr(Expr::Concatenation(vec![one, two]));
    let print = Stmt::Print(concat);
    assert_eq!(actual, sprogram(print, &mut symbolizer));
}


#[test]
fn array_membership() {
    let mut symbolizer = Symbolizer::new();
    let actual = parse_it("{ 1 in a } ", &mut symbolizer);
    let expr = texpr(Expr::InArray{name: symbolizer.get("a"),  indices: vec![num(1.0)]});
    let print = Stmt::Expr(expr);
    assert_eq!(actual, sprogram(print, &mut symbolizer));
}

#[test]
fn multi_dim_array_membership() {
    let mut symbolizer = Symbolizer::new();
    let actual = parse_it("{ (1,2,3) in a } ", &mut symbolizer);
    let expr = texpr(Expr::InArray{name: symbolizer.get("a"),  indices: vec![num(1.0),num(2.0),num(3.0)]});
    let print = Stmt::Expr(expr);
    assert_eq!(actual, sprogram(print, &mut symbolizer));
}

#[test]
fn multi_multi_dim_array_membership() {
    let mut symbolizer = Symbolizer::new();
    let actual = parse_it("{ (1,2,3) in a in b} ", &mut symbolizer);
    let expr = texpr(
    Expr::InArray{name: symbolizer.get("b"),
        indices: vec![
            Expr::InArray{name: symbolizer.get("a"),  indices: vec![num(1.0),num(2.0),num(3.0)]}.into()]});
    let print = Stmt::Expr(expr);
    assert_eq!(actual, sprogram(print, &mut symbolizer));
}

#[test]
fn array_access() {
    let mut symbolizer = Symbolizer::new();
    let actual = parse_it("{ a[0] }", &mut symbolizer);
    let expr = texpr(Expr::ArrayIndex{name: symbolizer.get("a"),indices: vec![Expr::Number(fnum(0.0)).into()]});
    let stmt = Stmt::Expr(expr);
    assert_eq!(actual, sprogram(stmt, &mut symbolizer));
}


#[test]
fn array_access_multi() {
    let mut symbolizer = Symbolizer::new();
    let actual = parse_it("{ a[0,1,2,3] }", &mut symbolizer);
    let expr = texpr(Expr::ArrayIndex{name: symbolizer.get("a"),indices: vec![num(0.0), num(1.0),num(2.0),num(3.0)]});
    let stmt = Stmt::Expr(expr);
    assert_eq!(actual, sprogram(stmt, &mut symbolizer));
}

#[test]
fn array_access_multi_expr() {
    let mut symbolizer = Symbolizer::new();
    let actual = parse_it("{ a[0+1] }", &mut symbolizer);
    let zero = bnum(0.0);
    let one = bnum(1.0);
    let op = Expr::MathOp(zero, MathOp::Plus, one).into();
    let expr = texpr(Expr::ArrayIndex{name: symbolizer.get("a"),indices: vec![op]});
    let stmt = Stmt::Expr(expr);
    assert_eq!(actual, sprogram(stmt, &mut symbolizer));
}

#[test]
fn array_access_nested() {
    let mut symbolizer = Symbolizer::new();
    let actual = parse_it("{ a[a[0]] }", &mut symbolizer);
    let expr = texpr(Expr::ArrayIndex{name: symbolizer.get("a"),indices: vec![Expr::Number(fnum(0.0)).into()]});
    let outer = texpr(Expr::ArrayIndex {name: symbolizer.get("a"), indices: vec![expr]});
    assert_eq!(actual, sprogram(Stmt::Expr(outer), &mut symbolizer));
}

#[test]
fn array_access_assign() {
    let mut symbolizer = Symbolizer::new();
    let actual = parse_it("{ a[0] = 1 }", &mut symbolizer);
    let expr = texpr(Expr::ArrayAssign{name: symbolizer.get("a"),indices: vec![Expr::Number(fnum(0.0)).into()], value: bnum(1.0)});
    assert_eq!(actual, sprogram(Stmt::Expr(expr), &mut symbolizer));
}


#[test]
fn array_access_assign_multi_dim() {
    let mut symbolizer = Symbolizer::new();
    let actual = parse_it("{ a[0,2] = 1 }", &mut symbolizer);
    let a = symbolizer.get("a");
    let expr = Expr::ArrayAssign { name: a, indices: vec![num(0.0), num(2.0)], value: Box::new(num(1.0)) }.into();
    assert_eq!(actual, sprogram(Stmt::Expr(expr), &mut symbolizer));
}

#[test]
fn test_expr_call_nonary() {
    let mut symbolizer = Symbolizer::new();
    let actual = parse_it("{ a() }", &mut symbolizer);
    let a = symbolizer.get("a");
    let expr = Expr::Call { target: a, args: vec![] };
    assert_eq!(actual, sprogram(Stmt::Expr(expr.into()), &mut symbolizer));
}

#[test]
fn test_expr_call_unary() {
    let mut symbolizer = Symbolizer::new();
    let actual = parse_it("{ a(1) }", &mut symbolizer);
    let a = symbolizer.get("a");
    let expr = Expr::Call { target: a, args: vec![num(1.0)] };
    assert_eq!(actual, sprogram(Stmt::Expr(expr.into()), &mut symbolizer));
}

#[test]
fn test_expr_call_many() {
    let mut symbolizer = Symbolizer::new();
    let actual = parse_it("{ a(1,3,5) }", &mut symbolizer);
    let a = symbolizer.get("a");
    let expr = Expr::Call { target: a, args: vec![num(1.0), num(3.0), num(5.0)] }.into();
    assert_eq!(actual, sprogram(Stmt::Expr(expr), &mut symbolizer));
}

#[test]
fn array_assign_multi_expr() {
    let mut symbolizer = Symbolizer::new();
    let actual = parse_it("{ a[0+1, a[0]] }", &mut symbolizer);
    let a = symbolizer.get("a");
    let zero = bnum(0.0);
    let one = bnum(1.0);
    let op = Expr::MathOp(zero, MathOp::Plus, one).into();
    let a_zero = Expr::ArrayIndex { name: a, indices: vec![num(0.0)] }.into();
    let expr = texpr(Expr::ArrayIndex{name: symbolizer.get("a"),indices: vec![op, a_zero]});
    let stmt = Stmt::Expr(expr);
    assert_eq!(actual, sprogram(stmt, &mut symbolizer));
}

#[test]
fn test_printf_simple() {
    let mut symbolizer = Symbolizer::new();
    let actual = parse_it("{ printf 1 }", &mut symbolizer);
    let stmt = Stmt::Printf { fstring: num(1.0), args: vec![] }.into();
    assert_eq!(actual, sprogram(stmt, &mut symbolizer));
}

#[test]
fn test_printf_multi() {
    let mut symbolizer = Symbolizer::new();
    let actual = parse_it("{ printf \"%s%s%s\", 1, 2, 3 }", &mut symbolizer);
    let stmt = Stmt::Printf { fstring: Expr::String(String::from("%s%s%s")).into(), args: vec![num(1.0), num(2.0), num(3.0)] }.into();
    assert_eq!(actual, sprogram(stmt, &mut symbolizer));
}

#[test]
fn test_function() {
    let mut symbolizer = Symbolizer::new();
    let actual = parse_it("function abc(a,b,c) { print 1; } BEGIN { print 1 }", &mut symbolizer);
    let a = symbolizer.get("a");
    let b = symbolizer.get("b");
    let c = symbolizer.get("c");
    let body = Stmt::Print(Expr::Number(fnum(1.0)).into());
    let function = Function::new(symbolizer.get("abc"), vec![a, b, c], body);
    let begin = Stmt::Print(Expr::Number(fnum(1.0)).into());
    assert_eq!(actual, Program::new(symbolizer.get("main function"), vec![begin], vec![], vec![], vec![function]))
}

#[test]
fn test_call() {
    let mut symbolizer = Symbolizer::new();
    let actual = parse_it("BEGIN { a(1,\"2\"); }", &mut symbolizer);
    let a = symbolizer.get("a");
    let args = vec![
        Expr::Number(fnum(1.0)).into(),
        Expr::String(String::from("2")).into(),
    ];
    let begin = Stmt::Expr(Expr::Call { target: a, args }.into());
    assert_eq!(actual, Program::new(symbolizer.get("main function"), vec![begin], vec![], vec![], vec![]))
}


fn parse_error(input: &str) -> String {
    let mut symbolizer = Symbolizer::new();
    let tokens = lex(input, &mut symbolizer).unwrap();
    match parse(tokens, &mut symbolizer) {
        Ok(p) => panic!("parsed {:?}", p),
        Err(e) => e.msg,
    }
}

fn first_action_text(input: &str) -> String {
    let mut symbolizer = Symbolizer::new();
    let program = parse(lex(input, &mut symbolizer).unwrap(), &mut symbolizer).unwrap();
    match &program.pattern_actions[0].action {
        Stmt::Expr(e) => e.expr.to_text(),
        Stmt::Print(e) => e.to_text(),
        other => panic!("not an expression: {:?}", other),
    }
}

#[test]
fn group_without_closing_paren_is_an_error() {
    assert_eq!(
        parse_error("{ print (1 }"),
        "Missing closing ')' after group - didn't find a `)` as expected. Found `}`"
    );
}

#[test]
fn paren_without_any_closing_paren_is_an_error_not_a_hang() {
    assert_eq!(
        parse_error("{ (1 }"),
        "Missing closing ')' after group - didn't find a `)` as expected. Found `}`"
    );
}

#[test]
fn begin_needs_a_brace() {
    assert_eq!(
        parse_error("BEGIN print 1"),
        "Expected a `{` after a begin - didn't find a `{` as expected. Found `print`"
    );
}

#[test]
fn unexpected_token_is_named() {
    assert_eq!(parse_error("{ print ; }"), "Unexpected token `;`");
}

#[test]
fn end_of_input_inside_an_action() {
    assert_eq!(parse_error("{ print "), "Unexpected end of input");
}

#[test]
fn sub_takes_two_or_three_arguments() {
    assert_eq!(parse_error("{ sub(1) }"), "Builtin function sub can only be called with 2 or 3 arguments");
    assert_eq!(
        parse_error("{ gsub(1, 2, 3) }"),
        "Argument #3 to the gsub builtin function must be an lvalue: a variable `B`, an index into an array `B[1]`, or a column `$3`."
    );
}

#[test]
fn sub_with_two_arguments_assigns_the_record() {
    assert_eq!(first_action_text("{ sub(\"a\", \"b\") }"), "sub((v \"a\"),(v \"b\"),$(v 0))");
    assert_eq!(first_action_text("{ gsub(\"a\", \"b\", x) }"), "gsub((v \"a\"),(v \"b\"),x)");
}

#[test]
fn expressions_are_written_with_their_types() {
    assert_eq!(first_action_text("{ a[1,2] = x + 1 }"), "a[(v 1),(v 2)] = (v (v x)+(v 1))");
    assert_eq!(first_action_text("{ print $1 $2 }"), "(v (v $(v 1)) (v $(v 2)))");
    assert_eq!(first_action_text("{ f(1, y) }"), "f((v 1),(v y),)");
    assert_eq!(first_action_text("{ (1,2) in a }"), "((v 1),(v 2)) in a");
    assert_eq!(first_action_text("{ x ? 1.5 : 2 }"), "(v x) ? (v 1.5) : (v 2)");
    assert_eq!(first_action_text("{ a && b || !c }"), "(v (v a)&&(v b))||(v (v 1)!=(v c))");
}

#[test]
fn program_is_named_main_function() {
    let mut symbolizer = Symbolizer::new();
    let program = parse(lex("{ print 1 }", &mut symbolizer).unwrap(), &mut symbolizer).unwrap();
    assert_eq!(program.name.to_str(), "main function");
    assert_eq!(program.name, symbolizer.get("main function"));
}

#[test]
fn parse_interns_sub_and_gsub_first() {
    let mut symbolizer = Symbolizer::new();
    let tokens = lex("{ print 1 }", &mut symbolizer).unwrap();
    parse(tokens, &mut symbolizer).unwrap();
    assert_eq!(symbolizer.get("sub").id_value(), 0);
    assert_eq!(symbolizer.get("gsub").id_value(), 1);
    assert_eq!(symbolizer.get("main function").id_value(), 2);
}

#[test]
fn return_and_break_statements() {
    let mut symbolizer = Symbolizer::new();
    let actual = parse_it("function f(a) { return a } { while (1) { break } }", &mut symbolizer);
    let a = symbolizer.get("a");
    let ret = Stmt::Return(Some(texpr(Expr::Variable(a.clone()))));
    let f = Function::new(symbolizer.get("f"), vec![a], ret);
    let body = Stmt::While(num(1.0), Box::new(Stmt::Break));
    assert_eq!(actual, Program::new(symbolizer.get("main function"), vec![], vec![], vec![PatternAction::new_action_only(body)], vec![f]));
}
