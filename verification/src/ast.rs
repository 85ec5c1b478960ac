use vstd::prelude::*;
use crate::text::push_str;

verus! {

/// A type as written in source.
pub enum TypeExpr {
    Named(String),
    Generic(String, Vec<TypeExpr>),
    Fn(Vec<TypeExpr>, Box<TypeExpr>),
    Tuple(Vec<TypeExpr>),
    Infer,
}

/// Binary operators.
#[derive(PartialEq, Eq, Structural, Clone, Copy, Debug)]
pub enum BinOp {
    Add,
    Sub,
    Mul,
    Div,
    Mod,
    Eq,
    Neq,
    Lt,
    Gt,
    Le,
    Ge,
    And,
    Or,
}

/// Unary operators.
#[derive(PartialEq, Eq, Structural, Clone, Copy, Debug)]
pub enum UnOp {
    Neg,
    Not,
}

/// Assignment operators.
#[derive(PartialEq, Eq, Structural, Clone, Copy, Debug)]
pub enum AssignOp {
    Plain,
    Add,
    Sub,
    Mul,
    Div,
}

/// An expression. A float literal keeps its decimal text (digits and one dot).
pub enum Expr {
    Int(i64),
    Float(String),
    Bool(bool),
    Str(String, Vec<Expr>),
    Char(char),
    Nil,
    Ident(String),
    Field(Box<Expr>, String),
    Index(Box<Expr>, Box<Expr>),
    Call(Box<Expr>, Vec<Expr>),
    MethodCall(Box<Expr>, String, Vec<Expr>),
    Unary(UnOp, Box<Expr>),
    Binary(Box<Expr>, BinOp, Box<Expr>),
    Assign(Box<Expr>, AssignOp, Box<Expr>),
    If(Box<Expr>, Box<Expr>, Option<Box<Expr>>),
    Match(Box<Expr>, Vec<MatchArm>),
    Block(Vec<Stmt>),
    Fn(Vec<FnParam>, Option<TypeExpr>, Box<Expr>),
    Pipe(Box<Expr>, Box<Expr>),
    Array(Vec<Expr>),
    Tuple(Vec<Expr>),
    StructLit(String, Vec<(String, Expr)>),
    Import(String, Option<String>),
}

/// One arm of a `match`.
pub struct MatchArm {
    pub pattern: Pattern,
    pub body: Box<Expr>,
}

/// A pattern of a `match` arm. A float pattern keeps its decimal text.
pub enum Pattern {
    Wild,
    Int(i64),
    Float(String),
    Bool(bool),
    Str(String),
    Char(char),
    Ident(String),
    Binding(String, Box<Pattern>),
    Tuple(Vec<Pattern>),
    Struct(String, Vec<(String, Pattern)>),
    Or(Box<Pattern>, Box<Pattern>),
    Range(Box<Pattern>, Box<Pattern>),
}

/// A function parameter.
pub struct FnParam {
    pub name: String,
    pub type_expr: Option<TypeExpr>,
    pub default: Option<Box<Expr>>,
}

/// A statement.
#[allow(inconsistent_fields)]
pub enum Stmt {
    Expr(Expr),
    Let { name: String, mutable: bool, type_expr: Option<TypeExpr>, value: Expr },
    Fn {
        name: String,
        pub_visible: bool,
        params: Vec<FnParam>,
        return_type: Option<TypeExpr>,
        body: Expr,
    },
    Return(Option<Expr>),
    If(Expr, Vec<Stmt>, Option<Vec<Stmt>>),
    While(Expr, Vec<Stmt>),
    For(String, Expr, Vec<Stmt>),
    Loop(Vec<Stmt>),
    Break(Option<Expr>),
    Continue,
    Type { name: String, params: Vec<String>, variants: Vec<TypeVariant> },
    Impl { for_type: String, methods: Vec<Stmt> },
    Trait { name: String, methods: Vec<TraitMethod> },
    Extern { name: String, params: Vec<FnParam>, return_type: Option<TypeExpr> },
    Empty,
}

/// One variant of a `type` definition.
pub struct TypeVariant {
    pub name: String,
    pub fields: Vec<TypeField>,
}

/// A named field of a variant.
pub struct TypeField {
    pub name: String,
    pub type_expr: TypeExpr,
}

/// A method signature of a trait.
pub struct TraitMethod {
    pub name: String,
    pub params: Vec<FnParam>,
    pub return_type: Option<TypeExpr>,
}

/// A whole source file.
pub struct Program {
    pub stmts: Vec<Stmt>,
}

/// The text of a list of types, separated by `", "`.
pub open spec fn type_list_text(s: Seq<TypeExpr>) -> Seq<char>
    decreases s,
{
    if s.len() == 0 {
        Seq::empty()
    } else if s.len() == 1 {
        s[0].text()
    } else {
        type_list_text(s.drop_last()) + ", "@ + s.last().text()
    }
}

impl TypeExpr {
    /// How a type expression reads when printed.
    pub open spec fn text(&self) -> Seq<char>
        decreases self,
    {
        match self {
            TypeExpr::Named(n) => n@,
            TypeExpr::Generic(n, args) => n@ + "["@ + type_list_text(args@) + "]"@,
            TypeExpr::Fn(params, ret) => "("@ + type_list_text(params@) + ") -> "@ + ret.text(),
            TypeExpr::Tuple(ts) => "("@ + type_list_text(ts@) + ")"@,
            TypeExpr::Infer => "_"@,
        }
    }

    /// Appends the printed form of the type.
    #[verifier::loop_isolation(false)]
    pub fn write_to(&self, out: &mut String)
        ensures
            final(out)@ == old(out)@ + self.text(),
        decreases self, 1nat,
    {
        broadcast use vstd::std_specs::vec::group_vec_axioms;
        match self {
            TypeExpr::Named(n) => {
                push_str(out, n.as_str());
            },
            TypeExpr::Generic(n, args) => {
                push_str(out, n.as_str());
                push_str(out, "[");
                write_type_list(args, out);
                push_str(out, "]");
                assert(final(out)@ =~= old(out)@ + self.text());
            },
            TypeExpr::Fn(params, ret) => {
                push_str(out, "(");
                write_type_list(params, out);
                push_str(out, ") -> ");
                ret.write_to(out);
                assert(final(out)@ =~= old(out)@ + self.text());
            },
            TypeExpr::Tuple(ts) => {
                push_str(out, "(");
                write_type_list(ts, out);
                push_str(out, ")");
                assert(final(out)@ =~= old(out)@ + self.text());
            },
            TypeExpr::Infer => {
                push_str(out, "_");
            },
        }
    }

    /// The printed form of the type, such as `Array[Int]` or `(Int, Str) -> Bool`.
    pub fn to_text(&self) -> (r: String)
        ensures
            r@ == self.text(),
    {
        let mut out = String::new();
        self.write_to(&mut out);
        assert(out@ =~= self.text());
        out
    }
}

/// Appends the printed forms of `ts`, separated by `", "`.
fn write_type_list(ts: &Vec<TypeExpr>, out: &mut String)
    ensures
        final(out)@ == old(out)@ + type_list_text(ts@),
    decreases ts@, 0nat,
{
    let mut i: usize = 0;
    while i < ts.len()
        invariant
            i <= ts@.len(),
            out@ == old(out)@ + type_list_text(ts@.take(i as int)),
        decreases ts@.len() - i,
    {
        let ghost before = out@;
        if i > 0 {
            push_str(out, ", ");
        }
        proof {
            broadcast use vstd::std_specs::vec::group_vec_axioms;
            assert(decreases_to!(ts@ => ts@[i as int]));
        }
        ts[i].write_to(out);
        proof {
            let t = ts@.take(i + 1);
            assert(t.drop_last() =~= ts@.take(i as int));
            if i == 0 {
                assert(type_list_text(ts@.take(0)) =~= Seq::<char>::empty());
            }
        }
        i = i + 1;
    }
    assert(ts@.take(ts@.len() as int) =~= ts@);
}

} // verus!
