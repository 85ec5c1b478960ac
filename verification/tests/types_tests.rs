use lib::ast::{Program, TypeExpr};
use lib::lexer::Lexer;
use lib::parser::Parser;
use lib::types::{MiType, TypeChecker};

fn parse(src: &str) -> Program {
    let mut p = Parser::new(Lexer::new(src)).unwrap();
    p.parse_program().unwrap()
}

fn check(src: &str) -> Result<(), String> {
    let prog = parse(src);
    let mut tc = TypeChecker::new();
    tc.check_program(&prog)
}

#[test]
fn well_typed_program_passes() {
    let src = "fn add(a: Int, b: Int) -> Int {\n    a + b\n}\nfn main() {\n    let x = add(1, 2)\n    println(str(x))\n}\n";
    assert_eq!(check(src), Ok(()));
}

#[test]
fn annotation_mismatch_is_reported() {
    assert_eq!(check("let x: Int = \"s\""), Err("expected Int, got Str".to_string()));
}

#[test]
fn undefined_variable_is_reported() {
    assert_eq!(check("println(y)"), Err("undefined variable 'y'".to_string()));
}

#[test]
fn err_appends_position() {
    let tc = TypeChecker::new();
    assert_eq!(tc.err("bad", 0, 0), "bad");
    assert_eq!(tc.err("bad", 3, 14), "bad at 3:14");
}

#[test]
fn compatibility_rules() {
    let tc = TypeChecker::new();
    assert!(tc.types_compatible(&MiType::Int, &MiType::Int));
    assert!(tc.types_compatible(&MiType::Int, &MiType::Float));
    assert!(tc.types_compatible(&MiType::Float, &MiType::Int));
    assert!(tc.types_compatible(&MiType::Unknown, &MiType::Str));
    assert!(!tc.types_compatible(&MiType::Str, &MiType::Bool));
    assert!(tc.types_compatible(&MiType::Array(Box::new(MiType::Int)), &MiType::Array(Box::new(MiType::Float))));
    assert!(!tc.types_compatible(&MiType::Tuple(vec![MiType::Int]), &MiType::Tuple(vec![MiType::Int, MiType::Int])));
    assert!(tc.types_compatible(&MiType::Struct("P".to_string(), vec![]), &MiType::Struct("P".to_string(), vec![(
        "x".to_string(),
        MiType::Int,
    )])));
    assert!(!tc.types_compatible(&MiType::Struct("P".to_string(), vec![]), &MiType::Struct("Q".to_string(), vec![])));
}

#[test]
fn type_expressions_to_types() {
    let tc = TypeChecker::new();
    assert!(matches!(tc.type_expr_to_type(&TypeExpr::Named("Int".to_string())), MiType::Int));
    assert!(matches!(tc.type_expr_to_type(&TypeExpr::Named("Nope".to_string())), MiType::Unknown));
    let arr = tc.type_expr_to_type(&TypeExpr::Generic("Array".to_string(), vec![TypeExpr::Named("Str".to_string())]));
    assert!(matches!(arr, MiType::Array(ref t) if matches!(**t, MiType::Str)));
    let f = tc.type_expr_to_type(&TypeExpr::Fn(vec![TypeExpr::Named("Int".to_string())], Box::new(TypeExpr::Infer)));
    assert_eq!(f.to_text(), "(Int) -> ?");
}

#[test]
fn type_keys() {
    let tc = TypeChecker::new();
    assert_eq!(tc.type_key(&MiType::Str), Some("Str".to_string()));
    assert_eq!(tc.type_key(&MiType::Struct("P".to_string(), vec![])), Some("P".to_string()));
    assert_eq!(tc.type_key(&MiType::Unknown), None);
}

#[test]
fn type_text() {
    let t = MiType::Tuple(vec![MiType::Int, MiType::Array(Box::new(MiType::Char))]);
    assert_eq!(t.to_text(), "(Int, [Char])");
    let te = TypeExpr::Generic("Map".to_string(), vec![TypeExpr::Named("Str".to_string()), TypeExpr::Named("Int".to_string())]);
    assert_eq!(te.to_text(), "Map[Str, Int]");
}

#[test]
fn operator_type_errors() {
    assert_eq!(check("let x = 1 + \"a\""), Err("cannot apply + to Int and Str".to_string()));
    assert_eq!(check("let x = true * 2"), Err("cannot apply arithmetic to Bool and Int".to_string()));
    assert_eq!(check("let x = 1 < \"a\""), Err("cannot compare Int and Str".to_string()));
    assert_eq!(check("let x = true and 1"), Err("cannot apply logical operator to Bool and Int".to_string()));
    assert_eq!(check("let x = not 5"), Err("cannot apply 'not' to type Int".to_string()));
    assert_eq!(check("let x = -true"), Err("cannot negate type Bool".to_string()));
}

#[test]
fn operator_types() {
    assert_eq!(check("let x: Float = 1 + 2.5"), Ok(()));
    assert_eq!(check("let s: Str = \"a\" + \"b\""), Ok(()));
    assert_eq!(check("let b: Bool = 1 == 1.0"), Ok(()));
    assert_eq!(check("let x: Int = 1 + 2.5"), Ok(()));
    assert_eq!(check("let b: Bool = 1 + 2"), Err("expected Bool, got Int".to_string()));
}

#[test]
fn call_errors() {
    assert_eq!(
        check("fn f(a: Int) -> Int {\n    a\n}\nlet y = f(1, 2)"),
        Err("expected 1 arguments, got 2".to_string())
    );
    assert_eq!(check("let y = range(1, 2, 3)"), Err("expected 1 or 2 arguments, got 3".to_string()));
    assert_eq!(check("let n = 5\nlet y = n(1)"), Err("cannot call non-function type Int".to_string()));
    assert_eq!(
        check("fn f(a: Int) -> Int {\n    a\n}\nlet y = f(\"s\")"),
        Err("argument 1: expected Int, got Str".to_string())
    );
}

#[test]
fn assignment_errors() {
    assert_eq!(check("let x = 1\nx = 2"), Err("cannot assign to immutable variable 'x'".to_string()));
    assert_eq!(check("let mut x = 1\nx = 2"), Ok(()));
    assert_eq!(check("y = 2"), Err("undefined variable 'y'".to_string()));
}

#[test]
fn method_errors() {
    assert_eq!(check("let n = 5\nlet y = n.foo()"), Err("type 'Int' has no method 'foo'".to_string()));
    assert_eq!(check("let s = \"abc\"\nlet k: Int = s.len()"), Ok(()));
}

#[test]
fn expression_statements_stop_at_the_first_error() {
    assert_eq!(check("1 + 2\n-3 * 4"), Ok(()));
    assert_eq!(check("1 + 2\ntrue - 1\n'c' < 1"), Err("cannot apply arithmetic to Bool and Int".to_string()));
    assert_eq!(check("!nil"), Err("cannot apply 'not' to type Nil".to_string()));
}

#[test]
fn if_expressions_join_their_branches() {
    assert_eq!(check("let x: Int = if true { 1 } else { 2 }"), Ok(()));
    assert_eq!(check("let x: Int = if true { nil } else { 2 }"), Ok(()));
    assert_eq!(check("let x = if true { 1 } else { \"a\" }"),
        Err("if branches have incompatible types: then=Int, else=Str".to_string()));
    assert_eq!(check("let x = if 1 { 1 } else { 2 }"), Err("if condition must be Bool, got Int".to_string()));
    assert_eq!(check("if 1 { 2 }"), Err("if condition must be Bool, got Int".to_string()));
    assert_eq!(check("while \"s\" { 2 }"), Err("while condition must be Bool, got Str".to_string()));
}
