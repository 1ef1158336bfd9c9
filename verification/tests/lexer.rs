use jawk::lexer::{lex, try_lex, BinOp, LogicalOp, MathOp, Token};
use jawk::symbolizer::Symbolizer;

/// An expected token; a number is expected by its value.
#[derive(Debug)]
enum Want {
    T(Token),
    N(f64),
}

use Want::{N, T};

fn lex_test(str: &str, symbolizer: &mut Symbolizer) -> Result<Vec<Token>, (String, usize)> {
    lex(str, symbolizer)
}

fn assert_tokens(got: Vec<Token>, want: Vec<Want>) {
    assert_eq!(got.len(), want.len(), "got {:?}, want {:?}", got, want);
    for (g, w) in got.iter().zip(want.iter()) {
        match w {
            T(t) => assert_eq!(g, t),
            N(x) => match g {
                Token::Number(lexeme) => assert_eq!(lexeme.parse::<f64>().unwrap(), *x),
                other => panic!("expected the number {}, got {:?}", x, other),
            },
        }
    }
}

#[test]
fn test_braces() {
    let mut symbolizer = Symbolizer::new();
    assert_tokens(
        lex_test("{ } ( ) (( )) {{ }}", &mut symbolizer).unwrap(),
        vec![
            T(Token::LeftBrace),
            T(Token::RightBrace),
            T(Token::LeftParen),
            T(Token::RightParen),
            T(Token::LeftParen),
            T(Token::LeftParen),
            T(Token::RightParen),
            T(Token::RightParen),
            T(Token::LeftBrace),
            T(Token::LeftBrace),
            T(Token::RightBrace),
            T(Token::RightBrace),
            T(Token::EOF),
        ],
    );
}

#[test]
fn test_eq_eq() {
    let mut symbolizer = Symbolizer::new();
    assert_tokens(
        lex_test("== 2.2", &mut symbolizer).unwrap(),
        vec![
            T(Token::BinOp(BinOp::EqEq)),
            N(2.2),
            T(Token::EOF),
        ],
    )
}

#[test]
fn test_column_simple() {
    let mut symbolizer = Symbolizer::new();
    let str = "$1";
    let tokens = lex_test(str, &mut symbolizer).unwrap();
    assert_tokens(
        tokens,
        vec![
            T(Token::Column),
            N(1.0),
            T(Token::EOF),
        ],
    );
}

#[test]
fn test_columns() {
    let mut symbolizer = Symbolizer::new();
    let str = "$1 + $2000 $0";
    let tokens = lex_test(str, &mut symbolizer).unwrap();
    assert_tokens(
        tokens,
        vec![
            T(Token::Column),
            N(1.0),
            T(Token::MathOp(MathOp::Plus)),
            T(Token::Column),
            N(2000.0),
            T(Token::Column),
            N(0.0),
            T(Token::EOF),
        ],
    );
}

#[test]
fn test_lex_binops_and_true_false() {
    let mut symbolizer = Symbolizer::new();
    let str = "4*2+1-2+false/true";
    let tokens = lex_test(str, &mut symbolizer).unwrap();
    assert_tokens(
        tokens,
        vec![
            N(4.0),
            T(Token::MathOp(MathOp::Star)),
            N(2.0),
            T(Token::MathOp(MathOp::Plus)),
            N(1.0),
            T(Token::MathOp(MathOp::Minus)),
            N(2.0),
            T(Token::MathOp(MathOp::Plus)),
            T(Token::False),
            T(Token::MathOp(MathOp::Slash)),
            T(Token::True),
            T(Token::EOF),
        ],
    );
}

#[test]
fn test_lex_decimals() {
    let mut symbolizer = Symbolizer::new();
    let str = "4.123-123.123";
    assert_tokens(
        lex_test(str, &mut symbolizer).unwrap(),
        vec![
            N(4.123),
            T(Token::MathOp(MathOp::Minus)),
            N(123.123),
            T(Token::EOF),
        ],
    );
}

#[test]
fn test_lex_equality() {
    let mut symbolizer = Symbolizer::new();
    let str = "4 != 5 == 6";
    assert_tokens(
        lex_test(str, &mut symbolizer).unwrap(),
        vec![
            N(4.0),
            T(Token::BinOp(BinOp::BangEq)),
            N(5.0),
            T(Token::BinOp(BinOp::EqEq)),
            N(6.0),
            T(Token::EOF),
        ],
    );
}

#[test]
fn test_lex_logical_op() {
    let mut symbolizer = Symbolizer::new();
    let str = "4 && 5 || 6";
    assert_tokens(
        lex_test(str, &mut symbolizer).unwrap(),
        vec![
            N(4.0),
            T(Token::LogicalOp(LogicalOp::And)),
            N(5.0),
            T(Token::LogicalOp(LogicalOp::Or)),
            N(6.0),
            T(Token::EOF),
        ],
    );
}

#[test]
fn test_lex_assignment() {
    let mut symbolizer = Symbolizer::new();
    let str = "abc = 4";
    assert_tokens(
        lex_test(str, &mut symbolizer).unwrap(),
        vec![
            T(Token::Ident(symbolizer.get("abc"))),
            T(Token::Eq),
            N(4.0),
            T(Token::EOF),
        ],
    );
}

#[test]
fn test_ret() {
    let mut symbolizer = Symbolizer::new();
    let str = "return 1 return abc";
    assert_tokens(
        lex_test(str, &mut symbolizer).unwrap(),
        vec![
            T(Token::Ret),
            N(1.0),
            T(Token::Ret),
            T(Token::Ident(symbolizer.get("abc"))),
            T(Token::EOF),
        ],
    );
}

#[test]
fn mod_test_if_else() {
    let mut symbolizer = Symbolizer::new();
    let str = "if (1) { 2 } else { 3 }";
    assert_tokens(
        lex_test(str, &mut symbolizer).unwrap(),
        vec![
            T(Token::If),
            T(Token::LeftParen),
            N(1.0),
            T(Token::RightParen),
            T(Token::LeftBrace),
            N(2.0),
            T(Token::RightBrace),
            T(Token::Else),
            T(Token::LeftBrace),
            N(3.0),
            T(Token::RightBrace),
            T(Token::EOF),
        ],
    );
}

#[test]
fn mod_test_if_only() {
    let mut symbolizer = Symbolizer::new();
    let str = "if (1) { 2 }";
    assert_tokens(
        lex_test(str, &mut symbolizer).unwrap(),
        vec![
            T(Token::If),
            T(Token::LeftParen),
            N(1.0),
            T(Token::RightParen),
            T(Token::LeftBrace),
            N(2.0),
            T(Token::RightBrace),
            T(Token::EOF),
        ],
    );
}

#[test]
fn test_begin_end() {
    let mut symbolizer = Symbolizer::new();
    let str = "BEGIN begin END end";
    assert_tokens(
        lex_test(str, &mut symbolizer).unwrap(),
        vec![
            T(Token::Begin),
            T(Token::Begin),
            T(Token::End),
            T(Token::End),
            T(Token::EOF),
        ],
    );
}

#[test]
fn test_ident() {
    let mut symbolizer = Symbolizer::new();
    let str = "{ x }";
    assert_tokens(
        lex_test(str, &mut symbolizer).unwrap(),
        vec![
            T(Token::LeftBrace),
            T(Token::Ident(symbolizer.get("x"))),
            T(Token::RightBrace),
            T(Token::EOF),
        ],
    );
}

#[test]
fn test_string() {
    let mut symbolizer = Symbolizer::new();
    let str = "{ \"x\" }";
    assert_tokens(
        lex_test(str, &mut symbolizer).unwrap(),
        vec![
            T(Token::LeftBrace),
            T(Token::String("x".to_string())),
            T(Token::RightBrace),
            T(Token::EOF),
        ],
    );
}

#[test]
fn test_string_2() {
    let mut symbolizer = Symbolizer::new();
    let str = "{ \"abc123 444\" }";
    assert_tokens(
        lex_test(str, &mut symbolizer).unwrap(),
        vec![
            T(Token::LeftBrace),
            T(Token::String("abc123 444".to_string())),
            T(Token::RightBrace),
            T(Token::EOF),
        ],
    );
}

#[test]
fn test_lex_while_l00p() {
    let mut symbolizer = Symbolizer::new();
    let str = " while ( x ) { }";
    assert_tokens(
        lex_test(str, &mut symbolizer).unwrap(),
        vec![
            T(Token::While),
            T(Token::LeftParen),
            T(Token::Ident(symbolizer.get("x"))),
            T(Token::RightParen),
            T(Token::LeftBrace),
            T(Token::RightBrace),
            T(Token::EOF),
        ],
    );
}

#[test]
fn test_lex_do_while_l00p() {
    let mut symbolizer = Symbolizer::new();
    let str = " do print 1 while (132)";
    assert_tokens(
        lex_test(str, &mut symbolizer).unwrap(),
        vec![
            T(Token::Do),
            T(Token::Print),
            N(1.0),
            T(Token::While),
            T(Token::LeftParen),
            N(132.0),
            T(Token::RightParen),
            T(Token::EOF),
        ],
    );
}

#[test]
fn test_lex_for_l00p() {
    let mut symbolizer = Symbolizer::new();
    let str = "for (a = 0;";
    let a = Token::Ident(symbolizer.get("a"));
    assert_tokens(
        lex_test(str, &mut symbolizer).unwrap(),
        vec![
            T(Token::For),
            T(Token::LeftParen),
            T(a.clone()),
            T(Token::Eq),
            N(0.0),
            T(Token::Semicolon),
            T(Token::EOF),
        ],
    );
}

#[test]
fn test_lt_gt_eq() {
    let mut symbolizer = Symbolizer::new();
    let str = "< <= >= >";
    assert_tokens(
        lex_test(str, &mut symbolizer).unwrap(),
        vec![
            T(Token::BinOp(BinOp::Less)),
            T(Token::BinOp(BinOp::LessEq)),
            T(Token::BinOp(BinOp::GreaterEq)),
            T(Token::BinOp(BinOp::Greater)),
            T(Token::EOF),
        ],
    );
}

#[test]
fn test_op_eq() {
    let str = "^= %= *= /= += -=";
    let mut symbolizer = Symbolizer::new();
    assert_tokens(
        lex_test(str, &mut symbolizer).unwrap(),
        vec![
            T(Token::InplaceEq(MathOp::Exponent)),
            T(Token::InplaceEq(MathOp::Modulus)),
            T(Token::InplaceEq(MathOp::Star)),
            T(Token::InplaceEq(MathOp::Slash)),
            T(Token::InplaceEq(MathOp::Plus)),
            T(Token::InplaceEq(MathOp::Minus)),
            T(Token::EOF),
        ],
    );
}

#[test]
fn test_regex() {
    let str = "a ~ b a !~ b";
    let mut symbolizer = Symbolizer::new();
    assert_tokens(
        lex_test(str, &mut symbolizer).unwrap(),
        vec![
            T(Token::Ident(symbolizer.get("a"))),
            T(Token::BinOp(BinOp::MatchedBy)),
            T(Token::Ident(symbolizer.get("b"))),
            T(Token::Ident(symbolizer.get("a"))),
            T(Token::BinOp(BinOp::NotMatchedBy)),
            T(Token::Ident(symbolizer.get("b"))),
            T(Token::EOF),
        ],
    );
}

#[test]
fn test_regex_slash() {
    let str = "a ~ /match/";
    let mut symbolizer = Symbolizer::new();
    assert_tokens(
        lex_test(str, &mut symbolizer).unwrap(),
        vec![
            T(Token::Ident(symbolizer.get("a"))),
            T(Token::BinOp(BinOp::MatchedBy)),
            T(Token::Regex(String::from("match"))),
            T(Token::EOF),
        ],
    );
}


#[test]
fn test_regex_slash_not() {
    let str = "a !~ /match/";
    let mut symbolizer = Symbolizer::new();
    assert_tokens(
        lex_test(str, &mut symbolizer).unwrap(),
        vec![
            T(Token::Ident(symbolizer.get("a"))),
            T(Token::BinOp(BinOp::NotMatchedBy)),
            T(Token::Regex("match".to_string())),
            T(Token::EOF),
        ],
    );
}


#[test]
fn test_array_ops_slash_not() {
    let mut symbolizer = Symbolizer::new();
    let str = "a[0] = 1; a[1,2,3,4] = 5; 6 in a";
    let a = Token::Ident(symbolizer.get("a"));
    assert_tokens(
        lex_test(str, &mut symbolizer).unwrap(),
        vec![
            T(a.clone()),
            T(Token::LeftBracket),
            N(0.0),
            T(Token::RightBracket),
            T(Token::Eq),
            N(1.0),
            T(Token::Semicolon),
            T(a.clone()),
            T(Token::LeftBracket),
            N(1.0),
            T(Token::Comma),
            N(2.0),
            T(Token::Comma),
            N(3.0),
            T(Token::Comma),
            N(4.0),
            T(Token::RightBracket),
            T(Token::Eq),
            N(5.0),
            T(Token::Semicolon),
            N(6.0),
            T(Token::In),
            T(a),
            T(Token::EOF),
        ],
    );
}


#[test]
fn mod_test_function() {
    let mut symbolizer = Symbolizer::new();
    let str = "function a() { print 1 }";
    assert_tokens(
        lex_test(str, &mut symbolizer).unwrap(),
        vec![
            T(Token::Function),
            T(Token::Ident(symbolizer.get("a"))),
            T(Token::LeftParen),
            T(Token::RightParen),
            T(Token::LeftBrace),
            T(Token::Print),
            N(1.0),
            T(Token::RightBrace),
            T(Token::EOF),
        ],
    );
}


#[test]
fn lone_pipe_is_an_error() {
    let mut symbolizer = Symbolizer::new();
    assert_eq!(lex("a | b", &mut symbolizer), Err(("| must be followed by ||".to_string(), 0)));
}

#[test]
fn lone_ampersand_is_an_error() {
    let mut symbolizer = Symbolizer::new();
    assert_eq!(lex("a & b", &mut symbolizer), Err(("| must be followed by &".to_string(), 0)));
}

#[test]
fn unexpected_character_reports_its_line() {
    let mut symbolizer = Symbolizer::new();
    assert_eq!(lex("\n\n@", &mut symbolizer), Err(("Unexpected token: `@`".to_string(), 2)));
}

#[test]
fn new_lines_inside_strings_are_counted() {
    let mut symbolizer = Symbolizer::new();
    assert_eq!(lex("a\nb\n\"x\ny\"\n@", &mut symbolizer), Err(("Unexpected token: `@`".to_string(), 4)));
}

#[test]
fn unterminated_string_message_takes_the_odd_slice() {
    let mut symbolizer = Symbolizer::new();
    assert_eq!(lex("\"abcdef", &mut symbolizer), Err(("Unterminated String: \"abcdef".to_string(), 0)));
    assert_eq!(lex("x = \"abc", &mut symbolizer), Err(("Unterminated String: ".to_string(), 0)));
}

#[test]
fn unterminated_string_late_in_the_source_has_no_answer() {
    let mut symbolizer = Symbolizer::new();
    assert_eq!(try_lex("abcdef \"x", &mut symbolizer), None);
    assert_eq!(try_lex("{ }", &mut symbolizer), Some(Ok(vec![Token::LeftBrace, Token::RightBrace, Token::EOF])));
}

#[test]
fn unterminated_regex_is_an_error() {
    let mut symbolizer = Symbolizer::new();
    assert_eq!(lex("a ~ /ab", &mut symbolizer), Err(("Unterminated regex: /ab".to_string(), 0)));
}

#[test]
fn regex_after_spaces() {
    let mut symbolizer = Symbolizer::new();
    let tokens = lex("a ~   /x y/", &mut symbolizer).unwrap();
    assert_tokens(
        tokens,
        vec![
            T(Token::Ident(symbolizer.get("a"))),
            T(Token::BinOp(BinOp::MatchedBy)),
            T(Token::Regex("x y".to_string())),
            T(Token::EOF),
        ],
    );
}

#[test]
fn comments_run_to_the_end_of_the_line() {
    let mut symbolizer = Symbolizer::new();
    let tokens = lex("1 // two three\n2", &mut symbolizer).unwrap();
    assert_tokens(tokens, vec![N(1.0), N(2.0), T(Token::EOF)]);
}

#[test]
fn keywords_and_names_ignore_ascii_case() {
    let mut symbolizer = Symbolizer::new();
    let tokens = lex("IF Else WHILE foo_bar1 Foo PrintF", &mut symbolizer).unwrap();
    assert_tokens(
        tokens,
        vec![
            T(Token::If),
            T(Token::Else),
            T(Token::While),
            T(Token::Ident(symbolizer.get("foo_bar1"))),
            T(Token::Ident(symbolizer.get("foo"))),
            T(Token::Printf),
            T(Token::EOF),
        ],
    );
}

#[test]
fn non_ascii_letters_make_names() {
    let mut symbolizer = Symbolizer::new();
    let tokens = lex("\u{e9}t\u{e9} = 1", &mut symbolizer).unwrap();
    assert_tokens(
        tokens,
        vec![T(Token::Ident(symbolizer.get("\u{e9}t\u{e9}"))), T(Token::Eq), N(1.0), T(Token::EOF)],
    );
}

#[test]
fn a_dot_without_digits_is_not_part_of_a_number() {
    let mut symbolizer = Symbolizer::new();
    assert_eq!(lex("1.", &mut symbolizer), Err(("Unexpected token: `.`".to_string(), 0)));
    assert_eq!(lex("1.5.3", &mut symbolizer), Err(("Unexpected token: `.`".to_string(), 0)));
}

#[test]
fn numbers_keep_their_text() {
    let mut symbolizer = Symbolizer::new();
    let tokens = lex("007 3.250", &mut symbolizer).unwrap();
    assert_eq!(tokens, vec![Token::Number("007".to_string()), Token::Number("3.250".to_string()), Token::EOF]);
}

#[test]
fn bang_and_bang_eq() {
    let mut symbolizer = Symbolizer::new();
    let tokens = lex("!x != y", &mut symbolizer).unwrap();
    assert_tokens(
        tokens,
        vec![
            T(Token::Bang),
            T(Token::Ident(symbolizer.get("x"))),
            T(Token::BinOp(BinOp::BangEq)),
            T(Token::Ident(symbolizer.get("y"))),
            T(Token::EOF),
        ],
    );
}

#[test]
fn empty_source_is_just_eof() {
    let mut symbolizer = Symbolizer::new();
    assert_eq!(lex("", &mut symbolizer), Ok(vec![Token::EOF]));
    assert_eq!(lex(" \t\r\n", &mut symbolizer), Ok(vec![Token::EOF]));
}

#[test]
fn operators_with_and_without_assignment() {
    let mut symbolizer = Symbolizer::new();
    let tokens = lex("- + * % ^ / = ? : , ; [ ]", &mut symbolizer).unwrap();
    assert_tokens(
        tokens,
        vec![
            T(Token::MathOp(MathOp::Minus)),
            T(Token::MathOp(MathOp::Plus)),
            T(Token::MathOp(MathOp::Star)),
            T(Token::MathOp(MathOp::Modulus)),
            T(Token::MathOp(MathOp::Exponent)),
            T(Token::MathOp(MathOp::Slash)),
            T(Token::Eq),
            T(Token::Question),
            T(Token::Colon),
            T(Token::Comma),
            T(Token::Semicolon),
            T(Token::LeftBracket),
            T(Token::RightBracket),
            T(Token::EOF),
        ],
    );
    let tokens = lex("a && b", &mut symbolizer).unwrap();
    assert_eq!(tokens[1], Token::LogicalOp(LogicalOp::And));
}
