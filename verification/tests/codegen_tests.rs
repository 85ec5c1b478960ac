use lib::ast::{BinOp, Expr, Pattern, Program, TypeExpr};
use lib::codegen::Codegen;
use lib::lexer::Lexer;
use lib::parser::Parser;

fn parse(src: &str) -> Program {
    let mut p = Parser::new(Lexer::new(src)).unwrap();
    p.parse_program().unwrap()
}

fn generate(src: &str) -> String {
    let prog = parse(src);
    let mut cg = Codegen::new();
    cg.generate(&prog)
}

const PRELUDE: &str = "#include \"midori_runtime.h\"\n\n";

#[test]
fn hello_world() {
    let out = generate("fn main() {\n    println(\"hi\")\n}\n");
    let expected = format!(
        "{}\nint main(int argc, char** argv) {{\nmi_init_args(argc, argv);\n    return println(mi_str_lit(\"hi\"));\n    return 0;\n}}\n\n",
        PRELUDE
    );
    assert_eq!(out, expected);
}

#[test]
fn functions_get_prototypes() {
    let out = generate("fn add(a: Int, b: Int) -> Int {\n    a + b\n}\nfn main() {\n    println(str(add(1, 2)))\n}\n");
    let expected = format!(
        "{}mi_int add(mi_int, mi_int);\n\nmi_int add(mi_int a, mi_int b) {{\n    return (a + b);\n}}\n\nint main(int argc, char** argv) {{\nmi_init_args(argc, argv);\n    return println(str(add(1, 2)));\n    return 0;\n}}\n\n",
        PRELUDE
    );
    assert_eq!(out, expected);
}

#[test]
fn structs_come_after_the_structs_they_use() {
    let out = generate("type B { a: A }\ntype A { v: Int }\n");
    let expected = format!(
        "{}typedef struct {{\n    mi_int v;\n}} A;\n\ntypedef struct {{\n    A a;\n}} B;\n\n\n",
        PRELUDE
    );
    assert_eq!(out, expected);
}

#[test]
fn independent_structs_keep_declaration_order() {
    let out = generate("type P { x: Int }\ntype Q { y: Str }\n");
    let expected = format!(
        "{}typedef struct {{\n    mi_int x;\n}} P;\n\ntypedef struct {{\n    mi_str y;\n}} Q;\n\n\n",
        PRELUDE
    );
    assert_eq!(out, expected);
}

#[test]
fn cyclic_structs_keep_declaration_order() {
    let out = generate("type A { b: B }\ntype B { a: A }\n");
    let expected = format!(
        "{}typedef struct {{\n    B b;\n}} A;\n\ntypedef struct {{\n    A a;\n}} B;\n\n\n",
        PRELUDE
    );
    assert_eq!(out, expected);
}

#[test]
fn enums_become_tagged_unions() {
    let out = generate("type Shape { Circle(r: Int), Empty }\n");
    let expected = format!(
        "{}typedef enum {{\n    Shape_TAG_CIRCLE,\n    Shape_TAG_EMPTY,\n}} Shape_Tag;\n\ntypedef struct {{\n    Shape_Tag tag;\n    union {{\n        mi_int Circle_r;\n        int __empty_Empty_;\n    }} data;\n}} Shape;\n\n\n",
        PRELUDE
    );
    assert_eq!(out, expected);
}

#[test]
fn statements_in_a_function() {
    let out = generate("fn f(n: Int) {\n    let x = n * 2\n    if x > 3 {\n        return\n    }\n    while x < 10 {\n        x += 1\n    }\n    for i in range(1, 4) {\n        continue\n    }\n}\n");
    let expected = format!(
        "{}mi_int f(mi_int);\n\nmi_int f(mi_int n) {{\n    mi_int x = (n * 2);\n    if (((x > 3))) {{\n        return;\n    }}\n    while (((x < 10))) {{\n        x += 1;\n    }}\n    for (mi_int _i_0 = 1; _i_0 < 4; _i_0++) {{\n        mi_int i = _i_0;\n        continue;\n    }}\n}}\n\n",
        PRELUDE
    );
    assert_eq!(out, expected);
}

#[test]
fn string_operations_use_runtime_calls() {
    let out = generate("fn g(s: Str) -> Bool {\n    s == \"a\"\n}\n");
    let expected = format!(
        "{}mi_bool g(mi_str);\n\nmi_bool g(mi_str s) {{\n    return mi_str_eq(s, mi_str_lit(\"a\"));\n}}\n\n",
        PRELUDE
    );
    assert_eq!(out, expected);
}

#[test]
fn match_arms_become_if_chains() {
    let out = generate("fn h(n: Int) -> Int {\n    match n {\n        1 => 10,\n        _ => 0\n    }\n}\n");
    let expected = format!(
        "{}mi_int h(mi_int);\n\nmi_int h(mi_int n) {{\n    mi_int _mr_0 = 0;\n    if ((n == 1)) {{\n        return 10;\n    }} else if (1) {{\n        return 0;\n    }}\n}}\n\n",
        PRELUDE
    );
    assert_eq!(out, expected);
}

#[test]
fn c_types_of_type_names() {
    let cg = Codegen::new();
    assert_eq!(cg.mi_ctype(None), "mi_int");
    assert_eq!(cg.mi_ctype(Some("Unknown")), "mi_int");
    assert_eq!(cg.mi_ctype(Some("Int")), "mi_int");
    assert_eq!(cg.mi_ctype(Some("Float")), "mi_float");
    assert_eq!(cg.mi_ctype(Some("Bool")), "mi_bool");
    assert_eq!(cg.mi_ctype(Some("Str")), "mi_str");
    assert_eq!(cg.mi_ctype(Some("Char")), "mi_char");
    assert_eq!(cg.mi_ctype(Some("Nil")), "mi_nil_t");
    assert_eq!(cg.mi_ctype(Some("[Int]")), "mi_array");
    assert_eq!(cg.mi_ctype(Some("Array_T_Int")), "mi_array");
    assert_eq!(cg.mi_ctype(Some("Point")), "Point");
}

#[test]
fn type_expression_names() {
    let cg = Codegen::new();
    let arr = TypeExpr::Generic("Array".to_string(), vec![TypeExpr::Named("Int".to_string())]);
    assert_eq!(cg.te_string(&arr), "Array_T_Int");
    let map = TypeExpr::Generic("Map".to_string(), vec![TypeExpr::Named("Str".to_string()), TypeExpr::Named("Int".to_string())]);
    assert_eq!(cg.te_string(&map), "Map_T_Str_Int");
    assert_eq!(cg.te_string(&TypeExpr::Generic("List".to_string(), vec![])), "List");
    assert_eq!(cg.te_string(&TypeExpr::Tuple(vec![TypeExpr::Infer, TypeExpr::Infer])), "Tuple2");
    assert_eq!(cg.te_string(&TypeExpr::Fn(vec![], Box::new(TypeExpr::Infer))), "Fn");
    assert_eq!(cg.te_string(&TypeExpr::Infer), "Unknown");
}

#[test]
fn zero_values() {
    let cg = Codegen::new();
    assert_eq!(cg.c_literal(None), "0");
    assert_eq!(cg.c_literal(Some("Int")), "0");
    assert_eq!(cg.c_literal(Some("Float")), "0.0");
    assert_eq!(cg.c_literal(Some("Bool")), "0");
    assert_eq!(cg.c_literal(Some("Str")), "mi_str_empty()");
    assert_eq!(cg.c_literal(Some("Char")), "'\\0'");
    assert_eq!(cg.c_literal(Some("Nil")), "");
    assert_eq!(cg.c_literal(Some("Point")), "{0}");
}

#[test]
fn c_string_escaping() {
    let cg = Codegen::new();
    assert_eq!(cg.escape_c_string(&"a\"b\\c\nd".to_string()), "a\\\"b\\\\c\\nd");
    assert_eq!(cg.escape_c_string(&String::new()), "");
}

#[test]
fn operators() {
    let cg = Codegen::new();
    assert_eq!(cg.binop_to_c_op(&BinOp::And), "&&");
    assert_eq!(cg.binop_to_c_op(&BinOp::Or), "||");
    assert_eq!(cg.binop_to_c_op(&BinOp::Neq), "!=");
    assert_eq!(cg.binop_to_c_op(&BinOp::Mod), "%");
}

#[test]
fn method_calls() {
    let cg = Codegen::new();
    assert_eq!(cg.resolve_method_call("mi_str", "len", "s", &vec![]), "len_str(s)");
    assert_eq!(cg.resolve_method_call("mi_str", "is_empty", "s", &vec![]), "(len_str(s) == 0)");
    assert_eq!(cg.resolve_method_call("mi_array", "len", "a", &vec![]), "len(a)");
    assert_eq!(cg.resolve_method_call("mi_array", "is_empty", "a", &vec![]), "(len(a) == 0)");
    assert_eq!(cg.resolve_method_call("mi_str", "upper", "s", &vec!["x".to_string()]), "Str__upper(s, x)");
    assert_eq!(
        cg.resolve_method_call("mi_int", "foo", "n", &vec!["1".to_string(), "2".to_string()]),
        "__method_foo(n, 1, 2)"
    );
}

#[test]
fn fresh_names_count_up() {
    let mut cg = Codegen::new();
    assert_eq!(cg.fresh_var("_t"), "_t_0");
    assert_eq!(cg.fresh_var("_t"), "_t_1");
    assert_eq!(cg.fresh_var("_x"), "_x_2");
}

#[test]
fn no_structs_no_order() {
    let cg = Codegen::new();
    assert_eq!(cg.sorted_structs().len(), 0);
}

#[test]
fn guessed_expression_types() {
    let cg = Codegen::new();
    assert_eq!(cg.infer_ctype(&Expr::Int(1)), "mi_int");
    assert_eq!(cg.infer_ctype(&Expr::Str("a".to_string(), vec![])), "mi_str");
    assert_eq!(cg.infer_ctype(&Expr::Call(Box::new(Expr::Ident("os_args".to_string())), vec![])), "mi_array");
    assert_eq!(cg.infer_ctype(&Expr::StructLit("P".to_string(), vec![])), "P");
    assert_eq!(cg.infer_ctype(&Expr::Ident("unknown".to_string())), "mi_int");
    assert!(cg.is_string_expr(&Expr::MethodCall(Box::new(Expr::Nil), "m".to_string(), vec![])));
    assert!(!cg.is_string_expr(&Expr::Int(3)));
    let len = Expr::MethodCall(Box::new(Expr::Ident("s".to_string())), "len".to_string(), vec![]);
    assert!(!cg.is_string_expr(&len));
    let empty = Expr::MethodCall(Box::new(Expr::Ident("s".to_string())), "is_empty".to_string(), vec![]);
    assert!(!cg.is_string_expr(&empty));
}

#[test]
fn pattern_conditions() {
    let cg = Codegen::new();
    assert_eq!(cg.gen_pattern_cond(&Pattern::Int(3), "x"), "(x == 3)");
    assert_eq!(cg.gen_pattern_cond(&Pattern::Wild, "x"), "1");
    assert_eq!(cg.gen_pattern_cond(&Pattern::Str("a".to_string()), "s"), "mi_str_eq(s, mi_str_lit(\"a\"))");
    let or = Pattern::Or(Box::new(Pattern::Int(1)), Box::new(Pattern::Int(2)));
    assert_eq!(cg.gen_pattern_cond(&or, "x"), "((x == 1) || (x == 2))");
    let range = Pattern::Range(Box::new(Pattern::Int(1)), Box::new(Pattern::Int(5)));
    assert_eq!(cg.gen_pattern_cond(&range, "x"), "((x >= 1) && (x <= 5))");
    let chars = Pattern::Range(Box::new(Pattern::Char('a')), Box::new(Pattern::Char('z')));
    assert_eq!(cg.gen_pattern_cond(&chars, "c"), "((c >= 'a') && (c <= 'z'))");
}

#[test]
fn literal_indexing_reads_utf8_bytes() {
    let out = generate("fn main() {\n    let c = \"é\"[1]\n}\n");
    assert!(out.contains("mi_int c = ((mi_char)169);"));
    let out = generate("fn main() {\n    let c = \"ab\"[5]\n}\n");
    assert!(out.contains("mi_int c = ((mi_char)0);"));
}

#[test]
fn pipe_chains_become_nested_calls() {
    let out = generate("fn main() {\n    3 |> f |> g(1)\n}\n");
    assert!(out.contains("    return g(f(3), 1);\n"));
}

#[test]
fn trait_impl_methods_belong_to_the_type() {
    let out = generate("type P { x: Int }\nimpl Show for P {\n    fn show(p: P) -> Int {\n        1\n    }\n}\n");
    assert!(out.contains("mi_int P__show(P p) {"));
    assert!(!out.contains("Show"));
}
