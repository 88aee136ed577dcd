//! Lexer, parser and code-generator tests.

use tinyc_in_rust::codegen::compile;
use tinyc_in_rust::codegen::CodegenError;
use tinyc_in_rust::codegen::Insn;
use tinyc_in_rust::lexer::ErrorKind;
use tinyc_in_rust::lexer::Lexer;
use tinyc_in_rust::lexer::Token;
use tinyc_in_rust::parser::parse;
use tinyc_in_rust::parser::Node;
use tinyc_in_rust::parser::Parser;

fn bx(n: Node) -> Box<Node> {
    Box::new(n)
}

fn var(s: &str) -> Node {
    Node::Var(String::from(s))
}

fn cst(v: isize) -> Node {
    Node::Cst(v)
}

fn assign(l: Node, r: Node) -> Node {
    Node::Assign(bx(l), bx(r))
}

// *** Lexer testing ***

#[test]
fn test_lexer() {
    let mut lex = Lexer::new("2 3 alpha beta ={}");
    assert!(matches!(lex.get_token().unwrap().1, Token::Int(2)));
    assert!(matches!(lex.get_token().unwrap().1, Token::Int(3)));
    assert!(match lex.get_token().unwrap().1 {
        Token::Id(v) => v == "alpha",
        _ => false,
    });
    assert!(match lex.get_token().unwrap().1 {
        Token::Id(v) => v == "beta",
        _ => false,
    });
    assert!(matches!(lex.get_token().unwrap().1, Token::Equal));
    assert!(matches!(lex.get_token().unwrap().1, Token::Lbra));
    assert!(matches!(lex.get_token().unwrap().1, Token::Rbra));
    assert!(matches!(lex.get_token().unwrap().1, Token::Eoi));
    assert!(matches!(lex.get_token().unwrap().1, Token::Eoi));
}

#[test]
fn test_lexer_keywords_and_ids() {
    let mut lex = Lexer::new("do doo if iff while else else_ x_y");
    assert_eq!(lex.get_token().unwrap().1, Token::DoSym);
    assert_eq!(lex.get_token().unwrap().1, Token::Id(String::from("doo")));
    assert_eq!(lex.get_token().unwrap().1, Token::IfSym);
    assert_eq!(lex.get_token().unwrap().1, Token::Id(String::from("iff")));
    assert_eq!(lex.get_token().unwrap().1, Token::WhileSym);
    assert_eq!(lex.get_token().unwrap().1, Token::ElseSym);
    assert_eq!(lex.get_token().unwrap().1, Token::Id(String::from("else_")));
    assert_eq!(lex.get_token().unwrap().1, Token::Id(String::from("x_y")));
    assert_eq!(lex.get_token().unwrap().1, Token::Eoi);
}

#[test]
fn test_lexer_positions() {
    let mut lex = Lexer::new("  ab\n $");
    let (pos, tok) = lex.get_token().unwrap();
    assert_eq!(tok, Token::Id(String::from("ab")));
    assert_eq!((pos.line, pos.col), (1, 3));
    let err = lex.get_token().unwrap_err();
    assert_eq!(err.kind, ErrorKind::IllegalToken);
    assert_eq!((err.pos.line, err.pos.col), (2, 2));
}

#[test]
fn test_lexer_illegal_char() {
    let mut lex = Lexer::new("$");
    let err = lex.get_token().unwrap_err();
    assert_eq!(err.kind, ErrorKind::IllegalToken);
    assert_eq!((err.pos.line, err.pos.col), (1, 1));
}

#[test]
fn test_lexer_int_boundaries() {
    let mut lex = Lexer::new("9223372036854775807");
    assert_eq!(lex.get_token().unwrap().1, Token::Int(isize::MAX));
    let mut lex = Lexer::new("9223372036854775808");
    let err = lex.get_token().unwrap_err();
    assert_eq!(err.kind, ErrorKind::IntegerOverflow);
}

// *** Parser testing ***

#[test]
fn test_term() {
    let mut parse = Parser::new("2 alpha").unwrap();
    let n = parse.term().unwrap();
    assert!(matches!(n, Node::Cst(2)));
    let n = parse.term().unwrap();
    assert!(match n {
        Node::Var(v) => v == "alpha",
        _ => false,
    });
}

#[test]
fn test_sum() {
    assert_eq!(
        Parser::new("2+3-4").unwrap().sum().unwrap(),
        Node::Sub(bx(Node::Add(bx(cst(2)), bx(cst(3)))), bx(cst(4))),
    );
    assert_eq!(
        Parser::new("a-b-c").unwrap().sum().unwrap(),
        Node::Sub(bx(Node::Sub(bx(var("a")), bx(var("b")))), bx(var("c"))),
    );
}

#[test]
fn test_cond() {
    assert_eq!(
        Parser::new("2 < 4").unwrap().cond().unwrap(),
        Node::Lt(bx(cst(2)), bx(cst(4))),
    );
    assert_eq!(Parser::new("a").unwrap().cond().unwrap(), var("a"));
}

#[test]
fn test_expr() {
    assert_eq!(
        Parser::new("2 < 4").unwrap().expr().unwrap(),
        Node::Lt(bx(cst(2)), bx(cst(4))),
    );
    assert_eq!(
        Parser::new("a = 42 - 666").unwrap().expr().unwrap(),
        assign(var("a"), Node::Sub(bx(cst(42)), bx(cst(666)))),
    );
}

#[test]
fn test_paren_expr() {
    assert_eq!(
        Parser::new("(2-(3-4))").unwrap().paren_expr().unwrap(),
        Node::Sub(bx(cst(2)), bx(Node::Sub(bx(cst(3)), bx(cst(4))))),
    );
    assert_eq!(
        Parser::new(" (x < 7) y;").unwrap().paren_expr().unwrap(),
        Node::Lt(bx(var("x")), bx(cst(7))),
    );
}

#[test]
fn test_statement() {
    assert_eq!(Parser::new(";").unwrap().statement().unwrap(), Node::Empty);
    assert_eq!(
        Parser::new("a;").unwrap().statement().unwrap(),
        Node::Expr(bx(var("a"))),
    );
    assert_eq!(
        Parser::new("if (2 < 3) b = 42;").unwrap().statement().unwrap(),
        Node::If1(
            bx(Node::Lt(bx(cst(2)), bx(cst(3)))),
            bx(Node::Expr(bx(assign(var("b"), cst(42))))),
        ),
    );
}

#[test]
fn test_statement2() {
    assert_eq!(
        Parser::new("if (2) b = 42; else b = 666;").unwrap().statement().unwrap(),
        Node::If2(
            bx(cst(2)),
            bx(Node::Expr(bx(assign(var("b"), cst(42))))),
            bx(Node::Expr(bx(assign(var("b"), cst(666))))),
        ),
    );
}

#[test]
fn test_statement3() {
    assert_eq!(
        Parser::new("{ b = 666; c = 3; d = b; }").unwrap().statement().unwrap(),
        Node::Sequence(
            bx(Node::Sequence(
                bx(Node::Expr(bx(assign(var("b"), cst(666))))),
                bx(Node::Expr(bx(assign(var("c"), cst(3))))),
            )),
            bx(Node::Expr(bx(assign(var("d"), var("b"))))),
        ),
    );
}

#[test]
fn test_statement4() {
    assert_eq!(
        Parser::new("while (x < 7) y;").unwrap().statement().unwrap(),
        Node::While(
            bx(Node::Lt(bx(var("x")), bx(cst(7)))),
            bx(Node::Expr(bx(var("y")))),
        ),
    );
    assert_eq!(
        Parser::new("while (x < 7) { b = b - 1; c = c + b; }").unwrap().statement().unwrap(),
        Node::While(
            bx(Node::Lt(bx(var("x")), bx(cst(7)))),
            bx(Node::Sequence(
                bx(Node::Expr(bx(assign(var("b"), Node::Sub(bx(var("b")), bx(cst(1))))))),
                bx(Node::Expr(bx(assign(var("c"), Node::Add(bx(var("c")), bx(var("b"))))))),
            )),
        ),
    );
}

#[test]
fn test_program() {
    assert_eq!(
        parse("a = 42;").unwrap(),
        Node::Prog(bx(Node::Expr(bx(assign(var("a"), cst(42)))))),
    );
}

#[test]
fn test_parse_chained_assignment() {
    assert_eq!(
        parse("a=b=2;").unwrap(),
        Node::Prog(bx(Node::Expr(bx(assign(var("a"), assign(var("b"), cst(2))))))),
    );
}

#[test]
fn test_parse_errors() {
    assert_eq!(parse("if x y;").unwrap_err().kind, ErrorKind::ExpectedLparen);
    assert_eq!(parse("(1;").unwrap_err().kind, ErrorKind::ExpectedRparen);
    assert_eq!(parse("do a=1; 5;").unwrap_err().kind, ErrorKind::ExpectedWhile);
    assert_eq!(parse("a=1").unwrap_err().kind, ErrorKind::ExpectedSemi);
    assert_eq!(parse("a=1; b=2;").unwrap_err().kind, ErrorKind::UnexpectedEnd);
    assert_eq!(parse("{}").unwrap_err().kind, ErrorKind::ExpectedLparen);
    let err = parse("a = $;").unwrap_err();
    assert_eq!(err.kind, ErrorKind::IllegalToken);
    assert_eq!((err.pos.line, err.pos.col), (1, 5));
}

// *** Code generator testing ***

fn examples() -> Vec<&'static str> {
    vec![
        "a=b=c=2<3;",
        "{ i=1; while (i<100) i=i+i; }",
        "{ i=125; j=100; while (i-j) if (i<j) j=j-i; else i=i-j; }",
        "{ i=1; do i=i+10; while (i<50); }",
        "{ i=1; while ((i=i+10)<50) ; }",
        "{ i=7; if (i<5) x=1; if (i<10) y=2; }",
        "{ m=n=1;k=10; while (0 < k) { t = m; m = n; n = t + n; k = k - 1; }}",
    ]
}

#[test]
fn test_cg_assignment() {
    let code = compile(parse("a = 42;").unwrap()).unwrap();
    assert_eq!(
        code,
        vec![
            Insn::Push,
            Insn::Integer(42),
            Insn::Store,
            Insn::Address(0),
            Insn::Pop,
            Insn::Halt,
        ],
    );
}

#[test]
fn test_cg_while() {
    let code = compile(parse("while (x) y;").unwrap()).unwrap();
    assert_eq!(
        code,
        vec![
            Insn::Fetch,
            Insn::Address(23),
            Insn::Jz,
            Insn::Address(9),
            Insn::Fetch,
            Insn::Address(24),
            Insn::Pop,
            Insn::Jmp,
            Insn::Address(0),
            Insn::Halt,
        ],
    );
}

#[test]
fn test_cg_examples() {
    for ex in examples() {
        let code = compile(parse(ex).unwrap()).unwrap();
        assert!(!code.is_empty());
        assert!(matches!(code.last(), Some(Insn::Halt)));
    }
}

#[test]
fn test_cg_unsupported_variable() {
    assert_eq!(
        compile(parse("alpha = 1;").unwrap()).unwrap_err(),
        CodegenError::UnsupportedVariable,
    );
    assert_eq!(
        compile(parse("x_y;").unwrap()).unwrap_err(),
        CodegenError::UnsupportedVariable,
    );
}

#[test]
fn test_cg_expected_variable() {
    let ast = Node::Assign(bx(cst(1)), bx(cst(2)));
    assert_eq!(compile(ast).unwrap_err(), CodegenError::ExpectedVariable);
}

#[test]
fn test_empty_input_is_an_error() {
    // A program must consist of one statement; empty input fails where
    // the expression statement looks for a parenthesized term.
    assert_eq!(parse("").unwrap_err().kind, ErrorKind::ExpectedLparen);
}

#[test]
fn test_empty_statement_program() {
    assert_eq!(parse(";").unwrap(), Node::Prog(bx(Node::Empty)));
}

#[test]
fn test_do_with_empty_body() {
    assert_eq!(
        parse("do ; while (x);").unwrap(),
        Node::Prog(bx(Node::Do(bx(Node::Empty), bx(var("x"))))),
    );
}

#[test]
fn test_nested_blocks() {
    assert_eq!(
        parse("{ { a = 1; } }").unwrap(),
        Node::Prog(bx(Node::Expr(bx(assign(var("a"), cst(1)))))),
    );
}

#[test]
fn test_cg_if_else() {
    let code = compile(parse("if (a) b=1; else c=2;").unwrap()).unwrap();
    assert_eq!(
        code,
        vec![
            Insn::Fetch,
            Insn::Address(0),
            Insn::Jz,
            Insn::Address(11),
            Insn::Push,
            Insn::Integer(1),
            Insn::Store,
            Insn::Address(1),
            Insn::Pop,
            Insn::Jmp,
            Insn::Address(16),
            Insn::Push,
            Insn::Integer(2),
            Insn::Store,
            Insn::Address(2),
            Insn::Pop,
            Insn::Halt,
        ],
    );
}
