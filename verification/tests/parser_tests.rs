use pipeline::error::PipelineError;
use pipeline::v1::expr::{Expr, Op};
use pipeline::v1::lexer::{Lexer, TokenStream};
use pipeline::v1::parser::{PipelineParser, VariableDeclaration};
use pipeline::v1::position::Position;
use pipeline::v1::stmt::Stmt;
use pipeline::v1::token::Token;

fn parser_of(script: &str) -> PipelineParser {
    let mut parser = PipelineParser::new();
    parser.set_lexer(Lexer::from_script(script)).expect("the script has only valid tokens");
    parser
}

fn expr_of(script: &str) -> Expr {
    parser_of(script).parse_expr().expect("the script is an expression")
}

fn program_of(script: &str) -> Vec<Stmt> {
    parser_of(script).compile_from_token_stream().expect("the script is a program").body
}

fn error_of(script: &str) -> PipelineError {
    parser_of(script).compile_from_token_stream().expect_err("the script is no program")
}

/// The expression in a form without positions.
fn shape(e: &Expr) -> String {
    match e {
        Expr::StringConstant(s, _) => format!("{:?}", s),
        Expr::IntConstant(i, _) => format!("{}", i),
        Expr::FloatConstant(f, _) => format!("{}f", f),
        Expr::Variable(n, _) => n.clone(),
        Expr::FnClosure(c, _) => format!("{{{}}}", c.def.body.len()),
        Expr::FnCall(c, _) => {
            format!("{}({})", c.name, c.args.iter().map(shape).collect::<Vec<_>>().join(","))
        }
        Expr::BinaryExpr(op, l, r, _) => format!("({} {:?} {})", shape(l), op, shape(r)),
        Expr::Array(items, _) => format!("[{}]", items.iter().map(shape).collect::<Vec<_>>().join(",")),
        Expr::MapLiteral(entries, _) => format!(
            "map({})",
            entries.iter().map(|(k, v)| format!("{}:{}", shape(k), shape(v))).collect::<Vec<_>>().join(",")
        ),
        Expr::Index(b, i, _) => format!("{}[{}]", shape(b), shape(i)),
        Expr::Struct(s, _) => format!(
            "{}{{{}}}",
            s.get_name(),
            s.get_props().iter().map(|(k, v)| format!("{}:{}", k, shape(v))).collect::<Vec<_>>().join(",")
        ),
        Expr::MemberAccess(b, n, _) => format!("{}.{}", shape(b), n),
        Expr::Empty(_) => "empty".to_string(),
    }
}

#[test]
fn precedence_and_grouping_from_the_left() {
    assert_eq!(shape(&expr_of("a*b+1")), "((a Mul b) Plus 1)");
    assert_eq!(shape(&expr_of("1+a*b")), "(1 Plus (a Mul b))");
    assert_eq!(shape(&expr_of("10 - 2 - 3")), "((10 Minus 2) Minus 3)");
    assert_eq!(shape(&expr_of("8 / 4 % 3 * 2")), "(((8 Div 4) Mod 3) Mul 2)");
    assert_eq!(shape(&expr_of("a + 1 > b * 2")), "((a Plus 1) Greater (b Mul 2))");
    assert_eq!(shape(&expr_of("a == b")), "(a Equal b)");
    assert_eq!(shape(&expr_of("a != b")), "(a NotEqual b)");
    assert_eq!(shape(&expr_of("a < b")), "(a Less b)");
}

#[test]
fn literals_and_their_positions() {
    match expr_of("  42") {
        Expr::IntConstant(42, p) => assert_eq!(p, Position::new(2, 2)),
        other => panic!("{:?}", other),
    }
    match expr_of("\"hi\"") {
        Expr::StringConstant(s, p) => {
            assert_eq!(s, "hi");
            assert_eq!(p, Position::new(0, 4));
        }
        other => panic!("{:?}", other),
    }
    match expr_of("2.50") {
        Expr::FloatConstant(s, _) => assert_eq!(s, "2.50"),
        other => panic!("{:?}", other),
    }
    match expr_of("a + bc") {
        Expr::BinaryExpr(Op::Plus, _, _, p) => assert_eq!(p, Position::new(0, 6)),
        other => panic!("{:?}", other),
    }
}

#[test]
fn calls_members_and_indices() {
    assert_eq!(shape(&expr_of("f(1, x)")), "f(1,x)");
    assert_eq!(shape(&expr_of("f()")), "f()");
    assert_eq!(shape(&expr_of("m::f(1)")), "m::f(1)");
    assert_eq!(shape(&expr_of("p.hello()")), "hello(p)");
    assert_eq!(shape(&expr_of("p.add(1).n")), "add(p,1).n");
    assert_eq!(shape(&expr_of("a.b.c")), "a.b.c");
    assert_eq!(shape(&expr_of("a[1][2]")), "a[1][2]");
    assert_eq!(shape(&expr_of("s.x[i + 1]")), "s.x[(i Plus 1)]");
    assert_eq!(shape(&expr_of("f(x) { g() h() }")), "f(x,{2})");
    assert_eq!(shape(&expr_of("f() { }")), "f({0})");
}

#[test]
fn collection_literals() {
    assert_eq!(shape(&expr_of("[1, a, [2]]")), "[1,a,[2]]");
    assert_eq!(shape(&expr_of("[]")), "[]");
    assert_eq!(shape(&expr_of("(name: \"a\", v: 42)")), "map(\"name\":\"a\",\"v\":42)");
    assert_eq!(shape(&expr_of("(1: 2)")), "map(1:2)");
    assert_eq!(shape(&expr_of("()")), "map()");
    assert_eq!(shape(&expr_of("P(n: \"kai\", m: 1)")), "P{n:\"kai\",m:1}");
    assert_eq!(shape(&expr_of("P(n)")), "P(n)");
}

#[test]
fn statements() {
    let program = program_of(
        "let a = 1; var b = 2; val c = 3; a = b; a[0] = c; s.x = 1; f(a); return a; break; continue; import m",
    );
    let kinds: Vec<&str> = program
        .iter()
        .map(|s| match s {
            Stmt::FnCall(..) => "call",
            Stmt::Let(..) => "let",
            Stmt::Assign(..) => "assign",
            Stmt::Return(..) => "return",
            Stmt::If(..) => "if",
            Stmt::While(..) => "while",
            Stmt::ForIn(..) => "for",
            Stmt::IndexAssign(..) => "index-assign",
            Stmt::Break(..) => "break",
            Stmt::Continue(..) => "continue",
            Stmt::Import(..) => "import",
            Stmt::Noop => "noop",
        })
        .collect();
    assert_eq!(
        kinds,
        vec![
            "let", "let", "let", "assign", "index-assign", "assign", "call", "return", "break",
            "continue", "import"
        ]
    );
    match &program[0] {
        Stmt::Let(l, p) => {
            assert_eq!(l.0, "a");
            assert_eq!(shape(&l.1), "1");
            assert_eq!(*p, Position::new(0, 9));
        }
        other => panic!("{:?}", other),
    }
    assert_eq!(program[0].position(), Position::new(0, 9));
    assert!(!program[0].is_noop());
    assert!(Stmt::Noop.is_noop());
    assert_eq!(Stmt::Noop.position(), Position::new(0, 0));
}

#[test]
fn if_while_and_for() {
    let program = program_of(
        "if a > 1 { f() } else if b { g() } else { h() } while i < 3 { i = i + 1 } for k in xs { f(k) } for i, v in xs { }",
    );
    match &program[0] {
        Stmt::If(s, _) => {
            assert_eq!(s.get_branches().len(), 2);
            assert_eq!(shape(s.get_branches()[0].get_condition()), "(a Greater 1)");
            assert_eq!(s.get_branches()[0].get_body().len(), 1);
            assert_eq!(s.get_else_body().map(|b| b.len()), Some(1));
        }
        other => panic!("{:?}", other),
    }
    match &program[1] {
        Stmt::While(c, body, _) => {
            assert_eq!(shape(c), "(i Less 3)");
            assert_eq!(body.len(), 1);
        }
        other => panic!("{:?}", other),
    }
    match &program[2] {
        Stmt::ForIn(one, other, items, body, _) => {
            assert_eq!(one, "k");
            assert_eq!(*other, None);
            assert_eq!(shape(items), "xs");
            assert_eq!(body.len(), 1);
        }
        other => panic!("{:?}", other),
    }
    match &program[3] {
        Stmt::ForIn(one, other, _, body, _) => {
            assert_eq!(one, "i");
            assert_eq!(other.as_deref(), Some("v"));
            assert!(body.is_empty());
        }
        other => panic!("{:?}", other),
    }
}

#[test]
fn a_block_behind_a_condition_is_the_body() {
    let program = program_of("if ready(x) { go() } while more() { step() }");
    match &program[0] {
        Stmt::If(s, _) => {
            assert_eq!(shape(s.get_branches()[0].get_condition()), "ready(x)");
            match &s.get_branches()[0].get_body()[0] {
                Stmt::FnCall(c, _) => assert_eq!(c.name, "go"),
                other => panic!("{:?}", other),
            }
        }
        other => panic!("{:?}", other),
    }
    let program = program_of("if a { pipeline(\"x\") { f() } }");
    match &program[0] {
        Stmt::If(s, _) => match &s.get_branches()[0].get_body()[0] {
            Stmt::FnCall(c, _) => assert_eq!(c.args.len(), 2),
            other => panic!("{:?}", other),
        },
        other => panic!("{:?}", other),
    }
}

#[test]
fn functions_and_classes_are_collected() {
    let mut parser = parser_of(
        "fn add(a: Int, b) { return a + b } fun twice(x: Int): Int { return x * 2 } class P(n: String, m: Int) fun P.hello(): Unit { println(this.n) } let x = 1",
    );
    let ast = parser.compile_from_token_stream().unwrap();
    assert_eq!(ast.body.len(), 1);
    let lib = parser.get_fn_lib();
    assert_eq!(lib.len(), 2);
    assert_eq!(lib[0].name, "add");
    assert_eq!(lib[0].return_type, "Any");
    assert_eq!(lib[0].args.len(), 2);
    assert_eq!(lib[0].args[0].name, "a");
    assert_eq!(lib[0].args[0].declaration_type, "Int");
    assert_eq!(lib[0].args[1].declaration_type, "Any");
    assert_eq!(lib[0].body.len(), 1);
    assert_eq!(lib[1].name, "twice");
    assert_eq!(lib[1].return_type, "Int");
    let classes = parser.get_classes();
    assert_eq!(classes.len(), 1);
    assert_eq!(classes[0].0, "P");
    assert_eq!(classes[0].1.fields.len(), 2);
    assert!(classes[0].1.get_method("hello").is_some());
    assert!(classes[0].1.get_method("other").is_none());
}

#[test]
fn imports_are_collected() {
    let mut parser = parser_of("import pipe; import math");
    parser.compile_from_token_stream().unwrap();
    assert_eq!(parser.get_imports(), &vec!["pipe".to_string(), "math".to_string()]);
}

#[test]
fn a_method_of_an_undeclared_class_is_an_error() {
    assert_eq!(
        error_of("fun Q.hello(): Unit { }"),
        PipelineError::UnexpectedToken(Token::Identifier("Q".to_string()))
    );
}

#[test]
fn unexpected_tokens() {
    assert_eq!(error_of("let = 1"), PipelineError::UnexpectedToken(Token::Assign));
    assert_eq!(error_of("let a 1"), PipelineError::UnexpectedToken(Token::Int(1)));
    assert_eq!(error_of("f(1"), PipelineError::UnexpectedToken(Token::EOF));
    assert_eq!(error_of("f(1 2)"), PipelineError::UnexpectedToken(Token::Int(2)));
    assert_eq!(error_of("a + "), PipelineError::UnexpectedToken(Token::Plus));
    assert_eq!(
        parser_of("a + ").parse_expr().unwrap_err(),
        PipelineError::UnexpectedToken(Token::EOF)
    );
    assert_eq!(error_of("}"), PipelineError::UnexpectedToken(Token::ParenthesisRight));
    assert_eq!(error_of("x"), PipelineError::UnexpectedToken(Token::EOF));
    assert_eq!(error_of("1 = 2"), PipelineError::UnexpectedToken(Token::Assign));
    assert_eq!(error_of("if a { f() "), PipelineError::UnexpectedToken(Token::EOF));
    assert_eq!(error_of("5()"), PipelineError::UnexpectedToken(Token::BraceLeft));
}

#[test]
fn unused_keywords() {
    assert_eq!(error_of("else { }"), PipelineError::UnusedKeyword("else".to_string()));
    assert_eq!(error_of("in"), PipelineError::UnusedKeyword("in".to_string()));
    assert_eq!(error_of("for a of b { }"), PipelineError::UnexpectedToken(Token::Identifier("of".to_string())));
    assert_eq!(error_of("for a if b { }"), PipelineError::UnusedKeyword("if".to_string()));
}

#[test]
fn an_invalid_character_is_reported_by_set_lexer() {
    let mut parser = PipelineParser::new();
    assert_eq!(
        parser.set_lexer(Lexer::from_script("a ~ b")),
        Err(PipelineError::UnexpectedChar('~', Position::new(2, 1)))
    );
}

#[test]
fn parse_stmt_at_the_end_gives_noop() {
    let mut parser = parser_of("");
    assert!(matches!(parser.parse_stmt(), Ok(Stmt::Noop)));
    let mut parser = parser_of("}");
    assert!(matches!(parser.parse_stmt(), Ok(Stmt::Noop)));
    assert!(parser.try_parse_special_token(&Token::ParenthesisRight));
    assert!(!parser.try_parse_special_token(&Token::ParenthesisRight));
}

#[test]
fn return_without_a_value() {
    let mut parser = parser_of("fn f() { return }");
    parser.compile_from_token_stream().unwrap();
    match &parser.get_fn_lib()[0].body[0] {
        Stmt::Return(e, _) => assert_eq!(shape(e), "empty"),
        other => panic!("{:?}", other),
    }
}

#[test]
fn expression_helpers() {
    let e = expr_of("a.b");
    assert!(!e.is_fn_call());
    assert_eq!(e.try_get_variable_name(), None);
    let (base, name) = e.try_get_member_access().unwrap();
    assert_eq!(shape(base), "a");
    assert_eq!(name, "b");
    assert_eq!(e.position(), Position::new(0, 3));
    let e = expr_of("f(1)");
    assert!(e.is_fn_call());
    assert!(e.try_get_member_access().is_none());
    assert_eq!(expr_of("abc").try_get_variable_name(), Some("abc".to_string()));
    let d = VariableDeclaration::new("a".to_string(), "Int".to_string());
    assert_eq!(d.name, "a");
    assert_eq!(d.declaration_type, "Int");
}

#[test]
fn a_parser_of_given_tokens() {
    let tokens = vec![
        (Token::Int(1), Position::new(0, 1)),
        (Token::Plus, Position::new(2, 1)),
        (Token::Int(2), Position::new(4, 1)),
    ];
    let mut parser = PipelineParser::from_token_stream(TokenStream::from_tokens(tokens));
    match parser.parse_expr().unwrap() {
        Expr::BinaryExpr(op, lhs, rhs, pos) => {
            assert_eq!(op, Op::Plus);
            assert!(matches!(*lhs, Expr::IntConstant(1, _)));
            assert!(matches!(*rhs, Expr::IntConstant(2, _)));
            assert_eq!(pos, Position::new(0, 5));
        },
        other => panic!("expected a sum, got {:?}", other),
    }
    assert!(parser.get_fn_lib().is_empty());
    assert!(parser.get_imports().is_empty());
}
