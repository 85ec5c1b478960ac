use lib::ast::{BinOp, Expr, Program, Stmt, TypeExpr, UnOp};
use lib::lexer::Lexer;
use lib::parser::Parser;

fn parse(src: &str) -> Program {
    let mut p = match Parser::new(Lexer::new(src)) {
        Ok(p) => p,
        Err(e) => panic!("unexpected lexing error: {}", e),
    };
    match p.parse_program() {
        Ok(prog) => prog,
        Err(e) => panic!("unexpected parse error: {}", e),
    }
}

fn parse_err(src: &str) -> String {
    let mut p = match Parser::new(Lexer::new(src)) {
        Ok(p) => p,
        Err(e) => return e,
    };
    match p.parse_program() {
        Ok(_) => panic!("expected a parse error for {:?}", src),
        Err(e) => e,
    }
}

fn only_expr(prog: &Program) -> &Expr {
    assert_eq!(prog.stmts.len(), 1);
    match &prog.stmts[0] {
        Stmt::Expr(e) => e,
        _ => panic!("expected an expression statement"),
    }
}

fn is_int(e: &Expr, n: i64) -> bool {
    matches!(e, Expr::Int(m) if *m == n)
}

fn is_ident(e: &Expr, n: &str) -> bool {
    matches!(e, Expr::Ident(m) if m == n)
}

#[test]
fn multiplication_binds_tighter_than_addition() {
    let prog = parse("1 + 2 * 3");
    match only_expr(&prog) {
        Expr::Binary(l, BinOp::Add, r) => {
            assert!(is_int(l, 1));
            match &**r {
                Expr::Binary(a, BinOp::Mul, b) => {
                    assert!(is_int(a, 2));
                    assert!(is_int(b, 3));
                },
                _ => panic!("expected 2 * 3 on the right"),
            }
        },
        _ => panic!("expected an addition at the top"),
    }
}

#[test]
fn subtraction_groups_to_the_left() {
    let prog = parse("a - b - c");
    match only_expr(&prog) {
        Expr::Binary(l, BinOp::Sub, r) => {
            assert!(is_ident(r, "c"));
            match &**l {
                Expr::Binary(a, BinOp::Sub, b) => {
                    assert!(is_ident(a, "a"));
                    assert!(is_ident(b, "b"));
                },
                _ => panic!("expected a - b on the left"),
            }
        },
        _ => panic!("expected a subtraction at the top"),
    }
}

#[test]
fn comparison_below_arithmetic_and_logic_below_comparison() {
    let prog = parse("x + 1 < y and z");
    match only_expr(&prog) {
        Expr::Binary(l, BinOp::And, r) => {
            assert!(is_ident(r, "z"));
            assert!(matches!(&**l, Expr::Binary(_, BinOp::Lt, _)));
        },
        _ => panic!("expected `and` at the top"),
    }
}

#[test]
fn pipe_and_calls() {
    let prog = parse("x |> f");
    match only_expr(&prog) {
        Expr::Pipe(l, r) => {
            assert!(is_ident(l, "x"));
            assert!(is_ident(r, "f"));
        },
        _ => panic!("expected a pipe"),
    }
    let prog = parse("f(1, 2).g(3)[0]");
    match only_expr(&prog) {
        Expr::Index(obj, idx) => {
            assert!(is_int(idx, 0));
            match &**obj {
                Expr::MethodCall(recv, name, args) => {
                    assert_eq!(name, "g");
                    assert_eq!(args.len(), 1);
                    assert!(matches!(&**recv, Expr::Call(_, a) if a.len() == 2));
                },
                _ => panic!("expected a method call"),
            }
        },
        _ => panic!("expected an index"),
    }
}

#[test]
fn function_definition_body_becomes_its_expression() {
    let prog = parse("fn add(a: Int, b: Int) -> Int {\n    a + b\n}\n");
    assert_eq!(prog.stmts.len(), 1);
    match &prog.stmts[0] {
        Stmt::Fn { name, pub_visible, params, return_type, body } => {
            assert_eq!(name, "add");
            assert!(!pub_visible);
            assert_eq!(params.len(), 2);
            assert_eq!(params[0].name, "a");
            assert!(matches!(&params[1].type_expr, Some(TypeExpr::Named(t)) if t == "Int"));
            assert!(matches!(return_type, Some(TypeExpr::Named(t)) if t == "Int"));
            assert!(matches!(body, Expr::Binary(_, BinOp::Add, _)));
        },
        _ => panic!("expected a function"),
    }
}

#[test]
fn if_else_statement() {
    let prog = parse("if x {\n 1\n} else {\n 2\n}");
    match &prog.stmts[0] {
        Stmt::If(cond, then, Some(els)) => {
            assert!(is_ident(cond, "x"));
            assert_eq!(then.len(), 1);
            assert_eq!(els.len(), 1);
        },
        _ => panic!("expected if/else"),
    }
    let prog = parse("if a { 1 } elif b { 2 }");
    match &prog.stmts[0] {
        Stmt::If(_, _, Some(els)) => {
            assert_eq!(els.len(), 1);
            assert!(matches!(&els[0], Stmt::If(_, _, None)));
        },
        _ => panic!("expected if/elif"),
    }
}

#[test]
fn string_interpolation_is_split() {
    let prog = parse("\"Hello, {name}!\"");
    match only_expr(&prog) {
        Expr::Str(prefix, parts) => {
            assert_eq!(prefix, "Hello, ");
            assert_eq!(parts.len(), 2);
            assert!(is_ident(&parts[0], "name"));
            assert!(matches!(&parts[1], Expr::Str(s, v) if s == "!" && v.is_empty()));
        },
        _ => panic!("expected a string"),
    }
}

#[test]
fn struct_and_enum_types() {
    let prog = parse("type Point { x: Int, y: Int }\ntype Shape { Circle(r: Float), Empty }");
    match &prog.stmts[0] {
        Stmt::Type { name, variants, .. } => {
            assert_eq!(name, "Point");
            assert_eq!(variants.len(), 1);
            assert_eq!(variants[0].name, "Point");
            assert_eq!(variants[0].fields.len(), 2);
        },
        _ => panic!("expected a type"),
    }
    match &prog.stmts[1] {
        Stmt::Type { name, variants, .. } => {
            assert_eq!(name, "Shape");
            assert_eq!(variants.len(), 2);
            assert_eq!(variants[0].name, "Circle");
            assert_eq!(variants[1].fields.len(), 0);
        },
        _ => panic!("expected a type"),
    }
}

#[test]
fn loops_and_let() {
    let prog = parse("let mut n: Int = 0\nwhile n < 3 {\n n += 1\n}\nfor i in range(3) {\n break\n}");
    assert_eq!(prog.stmts.len(), 3);
    assert!(matches!(&prog.stmts[0], Stmt::Let { name, mutable: true, type_expr: Some(_), .. } if name == "n"));
    assert!(matches!(&prog.stmts[1], Stmt::While(_, b) if b.len() == 1));
    assert!(matches!(&prog.stmts[2], Stmt::For(n, Expr::Call(_, _), b) if n == "i" && b.len() == 1));
}

#[test]
fn empty_program() {
    let prog = parse("\n\n");
    assert_eq!(prog.stmts.len(), 0);
}

#[test]
fn parse_errors() {
    assert_eq!(parse_err("let = 5"), "expected variable name, got Eq");
    assert_eq!(parse_err("fn (x) {}"), "expected fn name, got LParen");
    assert_eq!(parse_err("fn f(a b) {}"), "expected RParen, got Ident(\"b\") at 1:9");
    assert_eq!(parse_err("\"open"), "unterminated string literal");
}

#[test]
fn word_and_symbol_negation() {
    let prog = parse("not x");
    assert!(matches!(only_expr(&prog), Expr::Unary(lib::ast::UnOp::Not, e) if is_ident(e, "x")));
    let prog = parse("!x");
    assert!(matches!(only_expr(&prog), Expr::Unary(lib::ast::UnOp::Not, e) if is_ident(e, "x")));
}

#[test]
fn match_arms_may_end_with_commas() {
    let prog = parse("match n {\n    1 => 10,\n    _ => 0,\n}");
    match only_expr(&prog) {
        Expr::Match(_, arms) => assert_eq!(arms.len(), 2),
        _ => panic!("expected a match"),
    }
}

#[test]
fn pipes_bind_loosest_and_group_to_the_left() {
    let prog = parse("x |> f |> g");
    match only_expr(&prog) {
        Expr::Pipe(l, r) => {
            assert!(is_ident(r, "g"));
            assert!(matches!(&**l, Expr::Pipe(a, b) if is_ident(a, "x") && is_ident(b, "f")));
        },
        _ => panic!("expected a pipe"),
    }
    let prog = parse("a + b |> f");
    match only_expr(&prog) {
        Expr::Pipe(l, r) => {
            assert!(is_ident(r, "f"));
            assert!(matches!(&**l, Expr::Binary(_, BinOp::Add, _)));
        },
        _ => panic!("expected a pipe at the top"),
    }
}

fn show(e: &Expr) -> String {
    match e {
        Expr::Int(n) => format!("{}", n),
        Expr::Bool(b) => format!("{}", b),
        Expr::Char(c) => format!("'{}'", c),
        Expr::Nil => "nil".to_string(),
        Expr::Unary(op, x) => format!("({:?} {})", op, show(x)),
        Expr::Binary(l, op, r) => format!("({:?} {} {})", op, show(l), show(r)),
        Expr::Pipe(l, r) => format!("(|> {} {})", show(l), show(r)),
        _ => panic!("unexpected expression form"),
    }
}

fn shown_statements(src: &str) -> Vec<String> {
    parse(src)
        .stmts
        .iter()
        .map(|s| match s {
            Stmt::Expr(e) => show(e),
            _ => panic!("expected an expression statement"),
        })
        .collect()
}

#[test]
fn operator_expressions_over_literals() {
    let got = shown_statements(
        "1 + 2 * 3 - -4\n!true || false && nil == 'c'\n\n5 |> 6 |> 7 + 8\nnot 1 < 2 4 % 5 / 6",
    );
    assert_eq!(
        got,
        vec![
            "(Sub (Add 1 (Mul 2 3)) (Neg 4))".to_string(),
            "(Or (Not true) (And false (Eq nil 'c')))".to_string(),
            "(|> (|> 5 6) (Add 7 8))".to_string(),
            "(Lt (Not 1) 2)".to_string(),
            "(Div (Mod 4 5) 6)".to_string(),
        ]
    );
}

#[test]
fn an_operator_on_the_next_line_continues_the_expression() {
    let got = shown_statements("1\n- 2\n3");
    assert_eq!(got, vec!["(Sub 1 2)".to_string(), "3".to_string()]);
    let unary = shown_statements("-1 * 2");
    assert_eq!(unary, vec!["(Mul (Neg 1) 2)".to_string()]);
    assert!(matches!(&parse("-1").stmts[0], Stmt::Expr(Expr::Unary(UnOp::Neg, _))));
}

#[test]
fn groups_stand_for_the_expression_inside() {
    let got = shown_statements("(1 + 2) * 3\n-(4 - 5)");
    assert_eq!(got, vec!["(Sub (Mul (Add 1 2) 3) (Sub 4 5))".to_string()]);
    let more = shown_statements("((6)) !(true)");
    assert_eq!(more, vec!["6".to_string(), "(Not true)".to_string()]);
    let call = parse("(1)\n(2)");
    assert_eq!(call.stmts.len(), 1);
    assert!(matches!(only_expr(&call), Expr::Call(_, args) if args.len() == 1));
}

#[test]
fn names_may_start_with_an_underscore() {
    let prog = parse("let _tmp = 1");
    assert!(matches!(&prog.stmts[0], Stmt::Let { name, .. } if name == "_tmp"));
}

#[test]
fn all_comparisons_share_one_level() {
    let got = shown_statements("1 == 2 < 3\n4 < 5 != true");
    assert_eq!(got, vec!["(Lt (Eq 1 2) 3)".to_string(), "(Neq (Lt 4 5) true)".to_string()]);
}

#[test]
fn let_and_var_statements() {
    let cases = [("let x = 1", false), ("let mut x = 1", true), ("var x = 1", true)];
    for (src, m) in cases.iter() {
        let prog = parse(src);
        assert!(matches!(&prog.stmts[0], Stmt::Let { name, mutable, type_expr: None, value: Expr::Int(1) }
            if name == "x" && *mutable == *m));
    }
    let typed = parse("var (Int) y = 2");
    assert!(matches!(&typed.stmts[0], Stmt::Let { name, mutable: true, type_expr: Some(TypeExpr::Named(t)), value: Expr::Int(2) }
        if name == "y" && t == "Int"));
}

#[test]
fn trait_definitions_are_statements() {
    let prog = parse("trait Show {\n    fn show() -> Str\n}");
    match &prog.stmts[0] {
        Stmt::Trait { name, methods } => {
            assert_eq!(name, "Show");
            assert_eq!(methods.len(), 1);
            assert_eq!(methods[0].name, "show");
        },
        _ => panic!("expected a trait"),
    }
}

#[test]
fn impl_for_a_trait_belongs_to_the_type() {
    let prog = parse("impl Show for P {\n}");
    assert!(matches!(&prog.stmts[0], Stmt::Impl { for_type, methods } if for_type == "P" && methods.is_empty()));
}

#[test]
fn variant_lists_without_fields() {
    let prog = parse("type Color { Red, Green(v: Int) }");
    match &prog.stmts[0] {
        Stmt::Type { name, variants, .. } => {
            assert_eq!(name, "Color");
            assert_eq!(variants.len(), 2);
            assert_eq!(variants[0].name, "Red");
            assert!(variants[0].fields.is_empty());
            assert_eq!(variants[1].name, "Green");
            assert_eq!(variants[1].fields.len(), 1);
        },
        _ => panic!("expected a type"),
    }
}

#[test]
fn alternative_and_range_patterns() {
    let prog = parse("match x {\n    1 | 2 => 3,\n    4 .. 9 => 5,\n    _ => 6\n}");
    match only_expr(&prog) {
        Expr::Match(_, arms) => {
            assert_eq!(arms.len(), 3);
            assert!(matches!(&arms[0].pattern, lib::ast::Pattern::Or(a, b)
                if matches!(**a, lib::ast::Pattern::Int(1)) && matches!(**b, lib::ast::Pattern::Int(2))));
            assert!(matches!(&arms[1].pattern, lib::ast::Pattern::Range(a, b)
                if matches!(**a, lib::ast::Pattern::Int(4)) && matches!(**b, lib::ast::Pattern::Int(9))));
            assert!(matches!(arms[2].pattern, lib::ast::Pattern::Wild));
        },
        _ => panic!("expected a match"),
    }
}

#[test]
fn match_arms_keep_their_order() {
    let prog = parse("match 1 { 1 => 2, _ => 3 }");
    match only_expr(&prog) {
        Expr::Match(sc, arms) => {
            assert!(is_int(sc, 1));
            assert_eq!(arms.len(), 2);
            assert!(matches!(arms[0].pattern, lib::ast::Pattern::Int(1)) && is_int(&arms[0].body, 2));
            assert!(matches!(arms[1].pattern, lib::ast::Pattern::Wild) && is_int(&arms[1].body, 3));
        },
        _ => panic!("expected a match"),
    }
}

#[test]
fn function_bodies_with_calls_and_names() {
    let prog = parse("fn main() { println(\"hi\") }\nlet y = not x\nz = 1 + 2 |> f");
    match &prog.stmts[0] {
        Stmt::Fn { name, pub_visible, params, return_type, body } => {
            assert_eq!(name, "main");
            assert!(!*pub_visible && params.is_empty() && return_type.is_none());
            assert!(matches!(body, Expr::Call(c, args) if is_ident(c, "println") && args.len() == 1
                && matches!(&args[0], Expr::Str(s, parts) if s == "hi" && parts.is_empty())));
        },
        _ => panic!("expected a function"),
    }
    assert!(matches!(&prog.stmts[1], Stmt::Let { value: Expr::Unary(lib::ast::UnOp::Not, x), .. } if is_ident(x, "x")));
    match &prog.stmts[2] {
        Stmt::Expr(Expr::Assign(_, _, rhs)) => {
            assert!(matches!(&**rhs, Expr::Pipe(l, r) if matches!(&**l, Expr::Binary(_, BinOp::Add, _)) && is_ident(r, "f")));
        },
        _ => panic!("expected an assignment"),
    }
}
