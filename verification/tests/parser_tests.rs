use expr_lang::ast::{Expr, Op, UnaryOp};
use expr_lang::parser::parse_source;

fn n(s: &str) -> Expr {
    Expr::Number(s.to_string())
}

fn var(s: &str) -> Expr {
    Expr::Variable(s.to_string())
}

fn bin(op: Op, l: Expr, r: Expr) -> Expr {
    Expr::Binary { op, left: Box::new(l), right: Box::new(r) }
}

fn assign(name: &str, e: Expr) -> Expr {
    Expr::Assign { name: name.to_string(), expr: Box::new(e) }
}

#[test]
fn test_precedence() {
    assert_eq!(
        parse_source("3 + 4 * 2"),
        Ok(bin(Op::Add, n("3"), bin(Op::Mul, n("4"), n("2"))))
    );
    assert_eq!(
        parse_source("(3 + 4) * 2"),
        Ok(bin(Op::Mul, bin(Op::Add, n("3"), n("4")), n("2")))
    );
    assert_eq!(
        parse_source("10 / 2 - 3"),
        Ok(bin(Op::Sub, bin(Op::Div, n("10"), n("2")), n("3")))
    );
    assert_eq!(
        parse_source("1 - 2 - 3"),
        Ok(bin(Op::Sub, bin(Op::Sub, n("1"), n("2")), n("3")))
    );
    assert_eq!(
        parse_source("-3 + 5"),
        Ok(bin(Op::Add, Expr::Unary { op: UnaryOp::Neg, expr: Box::new(n("3")) }, n("5")))
    );
}

#[test]
fn test_logic_and_comparison() {
    assert_eq!(
        parse_source("1 && 0 || 1"),
        Ok(bin(Op::Or, bin(Op::And, n("1"), n("0")), n("1")))
    );
    assert_eq!(
        parse_source("!(3 > 2)"),
        Ok(Expr::Unary { op: UnaryOp::Not, expr: Box::new(bin(Op::Greater, n("3"), n("2"))) })
    );
    assert_eq!(parse_source("5 <= 5"), Ok(bin(Op::LessEqual, n("5"), n("5"))));
    assert_eq!(parse_source("2 != 2"), Ok(bin(Op::NotEqual, n("2"), n("2"))));
    assert_eq!(
        parse_source("1 + 2 < 4"),
        Ok(bin(Op::Less, bin(Op::Add, n("1"), n("2")), n("4")))
    );
}

#[test]
fn test_let_and_sequence() {
    assert_eq!(
        parse_source("let x = 10; x * 2 + 1"),
        Ok(Expr::Sequence(vec![
            assign("x", n("10")),
            bin(Op::Add, bin(Op::Mul, var("x"), n("2")), n("1")),
        ]))
    );
    assert_eq!(parse_source("x = 10"), parse_source("let x = 10"));
    assert_eq!(parse_source("x = 1;"), Ok(assign("x", n("1"))));
    assert_eq!(parse_source(""), Ok(Expr::Sequence(vec![])));
}

#[test]
fn test_if_elif_else_parse() {
    assert_eq!(
        parse_source("if 1 then 10 elif 2 then 20 else 30"),
        Ok(Expr::If {
            branches: vec![
                (Box::new(n("1")), Box::new(n("10"))),
                (Box::new(n("2")), Box::new(n("20"))),
            ],
            else_branch: Some(Box::new(n("30"))),
        })
    );
    assert_eq!(
        parse_source("if x then break"),
        Ok(Expr::If { branches: vec![(Box::new(var("x")), Box::new(Expr::Break))], else_branch: None })
    );
    assert_eq!(parse_source("if 1 10"), Err("Expected 'then'".to_string()));
}

#[test]
fn test_loops_parse() {
    assert_eq!(
        parse_source("while i <= 10 do (sum = sum + i; i = i + 1)"),
        Ok(Expr::While {
            cond: Box::new(bin(Op::LessEqual, var("i"), n("10"))),
            body: Box::new(Expr::Sequence(vec![
                assign("sum", bin(Op::Add, var("sum"), var("i"))),
                assign("i", bin(Op::Add, var("i"), n("1"))),
            ])),
        })
    );
    assert_eq!(
        parse_source("for i in 1..10 step 2 do continue"),
        Ok(Expr::For {
            var: "i".to_string(),
            start: Box::new(n("1")),
            end: Box::new(n("10")),
            step: Some(Box::new(n("2"))),
            body: Box::new(Expr::Continue),
        })
    );
    assert_eq!(
        parse_source("for i in 10..1 step -1 do 0"),
        Ok(Expr::For {
            var: "i".to_string(),
            start: Box::new(n("10")),
            end: Box::new(n("1")),
            step: Some(Box::new(Expr::Unary { op: UnaryOp::Neg, expr: Box::new(n("1")) })),
            body: Box::new(n("0")),
        })
    );
    assert_eq!(parse_source("while 1 2"), Err("Expected 'do'".to_string()));
    assert_eq!(parse_source("for 1"), Err("Expected loop variable after 'for'".to_string()));
    assert_eq!(parse_source("for i 1"), Err("Expected 'in'".to_string()));
    assert_eq!(parse_source("for i in 1 10"), Err("Expected '..'".to_string()));
}

#[test]
fn test_function_definition_parse() {
    assert_eq!(
        parse_source("fn fact(n) = if n <= 1 then 1 else n * fact(n - 1); fact(5)"),
        Ok(Expr::Sequence(vec![
            Expr::FunctionDef {
                name: "fact".to_string(),
                params: vec!["n".to_string()],
                body: Box::new(Expr::If {
                    branches: vec![(
                        Box::new(bin(Op::LessEqual, var("n"), n("1"))),
                        Box::new(n("1")),
                    )],
                    else_branch: Some(Box::new(bin(
                        Op::Mul,
                        var("n"),
                        Expr::Call {
                            name: "fact".to_string(),
                            args: vec![bin(Op::Sub, var("n"), n("1"))],
                        },
                    ))),
                }),
            },
            Expr::Call { name: "fact".to_string(), args: vec![n("5")] },
        ]))
    );
    assert_eq!(
        parse_source("fn f() = x"),
        Ok(Expr::FunctionDef { name: "f".to_string(), params: vec![], body: Box::new(var("x")) })
    );
    assert_eq!(parse_source("fn (x) = 1"), Err("Expected function name".to_string()));
    assert_eq!(parse_source("fn f x = 1"), Err("Expected '('".to_string()));
    assert_eq!(parse_source("fn f(x y) = 1"), Err("Expected ',' or ')'".to_string()));
    assert_eq!(parse_source("fn f(1) = 1"), Err("Expected parameter name".to_string()));
    assert_eq!(parse_source("fn f(x) 1"), Err("Expected '='".to_string()));
}

#[test]
fn test_arrays_and_slices_parse() {
    assert_eq!(parse_source("[]"), Ok(Expr::Array(vec![])));
    assert_eq!(
        parse_source("[1, 2, 3][1]"),
        Ok(Expr::Index {
            array: Box::new(Expr::Array(vec![n("1"), n("2"), n("3")])),
            index: Box::new(n("1")),
        })
    );
    assert_eq!(
        parse_source("[1, 2, 3, 4, 5][1:4]"),
        Ok(Expr::Slice {
            array: Box::new(Expr::Array(vec![n("1"), n("2"), n("3"), n("4"), n("5")])),
            start: Some(Box::new(n("1"))),
            end: Some(Box::new(n("4"))),
        })
    );
    assert_eq!(
        parse_source("a[:2]"),
        Ok(Expr::Slice { array: Box::new(var("a")), start: None, end: Some(Box::new(n("2"))) })
    );
    assert_eq!(
        parse_source("a[1:]"),
        Ok(Expr::Slice { array: Box::new(var("a")), start: Some(Box::new(n("1"))), end: None })
    );
    assert_eq!(
        parse_source("[[1,2],[3,4]][0][1]"),
        Ok(Expr::Index {
            array: Box::new(Expr::Index {
                array: Box::new(Expr::Array(vec![
                    Expr::Array(vec![n("1"), n("2")]),
                    Expr::Array(vec![n("3"), n("4")]),
                ])),
                index: Box::new(n("0")),
            }),
            index: Box::new(n("1")),
        })
    );
    assert_eq!(parse_source("[1, 2"), Err("Expected ']'".to_string()));
}

#[test]
fn test_strings_parse() {
    assert_eq!(
        parse_source("\"hello, \" + \"world!\""),
        Ok(bin(
            Op::Add,
            Expr::String("hello, ".to_string()),
            Expr::String("world!".to_string())
        ))
    );
    assert_eq!(
        parse_source("concat(\"a\", \"b\")"),
        Ok(Expr::Call {
            name: "concat".to_string(),
            args: vec![Expr::String("a".to_string()), Expr::String("b".to_string())],
        })
    );
}

#[test]
fn test_parenthesised_sequence() {
    assert_eq!(parse_source("(1; 2;)"), Ok(Expr::Sequence(vec![n("1"), n("2")])));
    assert_eq!(parse_source("(7)"), Ok(n("7")));
}

#[test]
fn test_parse_errors() {
    assert_eq!(parse_source("3 = 4"), Err("Assignment target must be a variable".to_string()));
    assert_eq!(parse_source("(1 + 2"), Err("Expected ')'".to_string()));
    assert_eq!(parse_source("1 + + 2"), Err("Unexpected token: Plus".to_string()));
    assert_eq!(parse_source("let 3 = 4"), Err("Expected variable name after let".to_string()));
    assert_eq!(parse_source("let x 4"), Err("Expected '=' after let".to_string()));
    assert_eq!(parse_source(")"), Err("Unexpected token: RParen".to_string()));
}

#[test]
fn test_lone_dot_is_error() {
    assert!(parse_source(".").is_err());
    assert!(parse_source(". + 1").is_err());
    assert!(parse_source("3 + .").is_err());
    assert!(parse_source("[1,2,3][.]").is_err());
    assert!(parse_source(".a").is_err());
}

#[test]
fn test_undefined_character_in_program() {
    let err = parse_source("3 + {").unwrap_err();
    assert!(err.contains("Unexpected character: {"));
    assert!(parse_source("@").is_err());
    assert!(parse_source("3 $ 4").is_err());
}

#[test]
fn test_comments_in_program() {
    let plain = parse_source("3 + 4");
    assert_eq!(parse_source("3 + 4  # comment\n"), plain);
    assert_eq!(parse_source("3 /* comment */ + 4"), plain);
    assert_eq!(parse_source("3 /* outer /* inner */ outer */ + 4"), plain);
    assert_eq!(parse_source("# only comment\n 5"), Ok(n("5")));
}

#[test]
fn test_clone_is_deep_copy() {
    let e = parse_source("fn f(a, b) = if a then [a, b][0:1] elif b then -a else x = (1; 2)")
        .unwrap();
    let c = e.clone();
    assert_eq!(c, e);
}
