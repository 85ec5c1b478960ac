use vstd::prelude::*;
use crate::ast::{TypeExpr, Expr, Stmt, Pattern, FnParam, BinOp, UnOp, Program, TypeVariant};
use crate::text::{push_str, push_char, push_usize, eq_str, nat_text};

verus! {

/// A type of the language.
pub enum MiType {
    Int,
    Float,
    Bool,
    Str,
    Char,
    Nil,
    Fn(Vec<MiType>, Box<MiType>),
    Struct(String, Vec<(String, MiType)>),
    Enum(String, Vec<(String, Vec<(String, MiType)>)>),
    Generic(String),
    TypeVar(usize),
    Array(Box<MiType>),
    Tuple(Vec<MiType>),
    Unknown,
}

/// What a type stands for, with names as character sequences and lists as sequences.
pub enum Ty {
    Int,
    Float,
    Bool,
    Str,
    Char,
    Nil,
    Fn(Seq<Ty>, Box<Ty>),
    Struct(Seq<char>, Seq<(Seq<char>, Ty)>),
    Enum(Seq<char>, Seq<(Seq<char>, Seq<(Seq<char>, Ty)>)>),
    Generic(Seq<char>),
    TypeVar(nat),
    Array(Box<Ty>),
    Tuple(Seq<Ty>),
    Unknown,
}

/// The views of a list of types.
pub open spec fn tys(s: Seq<MiType>) -> Seq<Ty>
    decreases s,
{
    if s.len() == 0 {
        Seq::empty()
    } else {
        seq![s[0].v()] + tys(s.drop_first())
    }
}

/// The views of a list of named fields.
pub open spec fn fields_v(s: Seq<(String, MiType)>) -> Seq<(Seq<char>, Ty)>
    decreases s,
{
    if s.len() == 0 {
        Seq::empty()
    } else {
        seq![(s[0].0@, s[0].1.v())] + fields_v(s.drop_first())
    }
}

/// The views of a list of variants with their fields.
pub open spec fn variants_v(s: Seq<(String, Vec<(String, MiType)>)>) -> Seq<(Seq<char>, Seq<(Seq<char>, Ty)>)>
    decreases s,
{
    if s.len() == 0 {
        Seq::empty()
    } else {
        seq![(s[0].0@, fields_v(s[0].1@))] + variants_v(s.drop_first())
    }
}

impl MiType {
    /// What the type stands for.
    pub open spec fn v(&self) -> Ty
        decreases self,
    {
        match self {
            MiType::Int => Ty::Int,
            MiType::Float => Ty::Float,
            MiType::Bool => Ty::Bool,
            MiType::Str => Ty::Str,
            MiType::Char => Ty::Char,
            MiType::Nil => Ty::Nil,
            MiType::Fn(ps, r) => Ty::Fn(tys(ps@), Box::new(r.v())),
            MiType::Struct(n, fs) => Ty::Struct(n@, fields_v(fs@)),
            MiType::Enum(n, vs) => Ty::Enum(n@, variants_v(vs@)),
            MiType::Generic(n) => Ty::Generic(n@),
            MiType::TypeVar(i) => Ty::TypeVar(*i as nat),
            MiType::Array(e) => Ty::Array(Box::new(e.v())),
            MiType::Tuple(ts) => Ty::Tuple(tys(ts@)),
            MiType::Unknown => Ty::Unknown,
        }
    }
}

/// The views of a list of types, item by item.
pub proof fn lemma_tys(s: Seq<MiType>)
    ensures
        tys(s).len() == s.len(),
        forall|i: int| 0 <= i < s.len() ==> #[trigger] tys(s)[i] == s[i].v(),
    decreases s.len(),
{
    if s.len() > 0 {
        lemma_tys(s.drop_first());
        assert forall|i: int| 0 <= i < s.len() implies #[trigger] tys(s)[i] == s[i].v() by {
            if i > 0 {
                assert(s.drop_first()[i - 1] == s[i]);
            }
        }
    }
}

/// The views of a list of fields, item by item.
pub proof fn lemma_fields_v(s: Seq<(String, MiType)>)
    ensures
        fields_v(s).len() == s.len(),
        forall|i: int| 0 <= i < s.len() ==> #[trigger] fields_v(s)[i] == (s[i].0@, s[i].1.v()),
    decreases s.len(),
{
    if s.len() > 0 {
        lemma_fields_v(s.drop_first());
        assert forall|i: int| 0 <= i < s.len() implies #[trigger] fields_v(s)[i] == (s[i].0@, s[i].1.v()) by {
            if i > 0 {
                assert(s.drop_first()[i - 1] == s[i]);
            }
        }
    }
}

/// The views of a list of variants, item by item.
pub proof fn lemma_variants_v(s: Seq<(String, Vec<(String, MiType)>)>)
    ensures
        variants_v(s).len() == s.len(),
        forall|i: int| 0 <= i < s.len() ==> #[trigger] variants_v(s)[i] == (s[i].0@, fields_v(s[i].1@)),
    decreases s.len(),
{
    if s.len() > 0 {
        lemma_variants_v(s.drop_first());
        assert forall|i: int| 0 <= i < s.len() implies #[trigger] variants_v(s)[i] == (s[i].0@, fields_v(s[i].1@)) by {
            if i > 0 {
                assert(s.drop_first()[i - 1] == s[i]);
            }
        }
    }
}

/// A copy of a list of types.
fn copy_types(ts: &Vec<MiType>) -> (r: Vec<MiType>)
    ensures
        tys(r@) == tys(ts@),
    decreases ts, 1nat,
{
    let mut out: Vec<MiType> = Vec::new();
    let mut i: usize = 0;
    while i < ts.len()
        invariant
            i <= ts@.len(),
            out@.len() == i,
            forall|j: int| 0 <= j < i ==> #[trigger] out@[j].v() == ts@[j].v(),
        decreases ts@.len() - i,
    {
        proof {
            broadcast use vstd::std_specs::vec::group_vec_axioms;
            assert(decreases_to!(ts => ts@[i as int]));
        }
        let c = ts[i].copy();
        out.push(c);
        i = i + 1;
    }
    proof {
        lemma_tys(out@);
        lemma_tys(ts@);
        assert(tys(out@) =~= tys(ts@));
    }
    out
}

/// A copy of a list of named fields.
fn copy_fields(fs: &Vec<(String, MiType)>) -> (r: Vec<(String, MiType)>)
    ensures
        fields_v(r@) == fields_v(fs@),
    decreases fs, 1nat,
{
    let mut out: Vec<(String, MiType)> = Vec::new();
    let mut i: usize = 0;
    while i < fs.len()
        invariant
            i <= fs@.len(),
            out@.len() == i,
            forall|j: int| 0 <= j < i ==> #[trigger] out@[j].0@ == fs@[j].0@ && out@[j].1.v() == fs@[j].1.v(),
        decreases fs@.len() - i,
    {
        proof {
            broadcast use vstd::std_specs::vec::group_vec_axioms;
            assert(decreases_to!(fs => fs@[i as int]));
            assert(decreases_to!(fs@[i as int] => fs@[i as int].1));
        }
        let c = fs[i].1.copy();
        let n = fs[i].0.clone();
        out.push((n, c));
        i = i + 1;
    }
    proof {
        lemma_fields_v(out@);
        lemma_fields_v(fs@);
        assert(fields_v(out@) =~= fields_v(fs@));
    }
    out
}

/// A copy of a list of variants.
fn copy_variants(vs: &Vec<(String, Vec<(String, MiType)>)>) -> (r: Vec<(String, Vec<(String, MiType)>)>)
    ensures
        variants_v(r@) == variants_v(vs@),
    decreases vs, 1nat,
{
    let mut out: Vec<(String, Vec<(String, MiType)>)> = Vec::new();
    let mut i: usize = 0;
    while i < vs.len()
        invariant
            i <= vs@.len(),
            out@.len() == i,
            forall|j: int| 0 <= j < i ==> #[trigger] out@[j].0@ == vs@[j].0@ && fields_v(out@[j].1@) == fields_v(vs@[j].1@),
        decreases vs@.len() - i,
    {
        proof {
            broadcast use vstd::std_specs::vec::group_vec_axioms;
            assert(decreases_to!(vs => vs@[i as int]));
            assert(decreases_to!(vs@[i as int] => vs@[i as int].1));
        }
        let c = copy_fields(&vs[i].1);
        let n = vs[i].0.clone();
        out.push((n, c));
        i = i + 1;
    }
    proof {
        lemma_variants_v(out@);
        lemma_variants_v(vs@);
        assert(variants_v(out@) =~= variants_v(vs@));
    }
    out
}

impl MiType {
    /// A copy of the type.
    pub fn copy(&self) -> (r: MiType)
        ensures
            r.v() == self.v(),
        decreases self, 0nat,
    {
        match self {
            MiType::Int => MiType::Int,
            MiType::Float => MiType::Float,
            MiType::Bool => MiType::Bool,
            MiType::Str => MiType::Str,
            MiType::Char => MiType::Char,
            MiType::Nil => MiType::Nil,
            MiType::Fn(ps, r) => MiType::Fn(copy_types(ps), Box::new(r.copy())),
            MiType::Struct(n, fs) => MiType::Struct(n.clone(), copy_fields(fs)),
            MiType::Enum(n, vs) => MiType::Enum(n.clone(), copy_variants(vs)),
            MiType::Generic(n) => MiType::Generic(n.clone()),
            MiType::TypeVar(i) => MiType::TypeVar(*i),
            MiType::Array(e) => MiType::Array(Box::new(e.copy())),
            MiType::Tuple(ts) => MiType::Tuple(copy_types(ts)),
            MiType::Unknown => MiType::Unknown,
        }
    }
}

} // verus!

verus! {

/// Whether two lists of types are the same, item by item.
fn same_types(a: &Vec<MiType>, b: &Vec<MiType>) -> (r: bool)
    ensures
        r == (tys(a@) == tys(b@)),
    decreases a, 1nat,
{
    proof {
        lemma_tys(a@);
        lemma_tys(b@);
    }
    if a.len() != b.len() {
        return false;
    }
    let mut i: usize = 0;
    while i < a.len()
        invariant
            i <= a@.len(),
            a@.len() == b@.len(),
            tys(a@).len() == a@.len(),
            tys(b@).len() == b@.len(),
            forall|j: int| 0 <= j < a@.len() ==> #[trigger] tys(a@)[j] == a@[j].v(),
            forall|j: int| 0 <= j < b@.len() ==> #[trigger] tys(b@)[j] == b@[j].v(),
            forall|j: int| 0 <= j < i ==> #[trigger] a@[j].v() == b@[j].v(),
        decreases a@.len() - i,
    {
        proof {
            broadcast use vstd::std_specs::vec::group_vec_axioms;
            assert(decreases_to!(a => a@[i as int]));
        }
        if !a[i].same(&b[i]) {
            assert(tys(a@)[i as int] != tys(b@)[i as int]);
            return false;
        }
        i = i + 1;
    }
    assert(tys(a@) =~= tys(b@));
    true
}

/// Whether two lists of named fields are the same, item by item.
fn same_fields(a: &Vec<(String, MiType)>, b: &Vec<(String, MiType)>) -> (r: bool)
    ensures
        r == (fields_v(a@) == fields_v(b@)),
    decreases a, 1nat,
{
    proof {
        lemma_fields_v(a@);
        lemma_fields_v(b@);
    }
    if a.len() != b.len() {
        return false;
    }
    let mut i: usize = 0;
    while i < a.len()
        invariant
            i <= a@.len(),
            a@.len() == b@.len(),
            fields_v(a@).len() == a@.len(),
            fields_v(b@).len() == b@.len(),
            forall|j: int| 0 <= j < a@.len() ==> #[trigger] fields_v(a@)[j] == (a@[j].0@, a@[j].1.v()),
            forall|j: int| 0 <= j < b@.len() ==> #[trigger] fields_v(b@)[j] == (b@[j].0@, b@[j].1.v()),
            forall|j: int| 0 <= j < i ==> #[trigger] fields_v(a@)[j] == fields_v(b@)[j],
        decreases a@.len() - i,
    {
        proof {
            broadcast use vstd::std_specs::vec::group_vec_axioms;
            assert(decreases_to!(a => a@[i as int]));
            assert(decreases_to!(a@[i as int] => a@[i as int].1));
        }
        if a[i].0 != b[i].0 || !a[i].1.same(&b[i].1) {
            assert(fields_v(a@)[i as int] != fields_v(b@)[i as int]);
            return false;
        }
        i = i + 1;
    }
    assert(fields_v(a@) =~= fields_v(b@));
    true
}

/// Whether two lists of variants are the same, item by item.
fn same_variants(a: &Vec<(String, Vec<(String, MiType)>)>, b: &Vec<(String, Vec<(String, MiType)>)>) -> (r: bool)
    ensures
        r == (variants_v(a@) == variants_v(b@)),
    decreases a, 1nat,
{
    proof {
        lemma_variants_v(a@);
        lemma_variants_v(b@);
    }
    if a.len() != b.len() {
        return false;
    }
    let mut i: usize = 0;
    while i < a.len()
        invariant
            i <= a@.len(),
            a@.len() == b@.len(),
            variants_v(a@).len() == a@.len(),
            variants_v(b@).len() == b@.len(),
            forall|j: int| 0 <= j < a@.len() ==> #[trigger] variants_v(a@)[j] == (a@[j].0@, fields_v(a@[j].1@)),
            forall|j: int| 0 <= j < b@.len() ==> #[trigger] variants_v(b@)[j] == (b@[j].0@, fields_v(b@[j].1@)),
            forall|j: int| 0 <= j < i ==> #[trigger] variants_v(a@)[j] == variants_v(b@)[j],
        decreases a@.len() - i,
    {
        proof {
            broadcast use vstd::std_specs::vec::group_vec_axioms;
            assert(decreases_to!(a => a@[i as int]));
            assert(decreases_to!(a@[i as int] => a@[i as int].1));
        }
        if a[i].0 != b[i].0 || !same_fields(&a[i].1, &b[i].1) {
            assert(variants_v(a@)[i as int] != variants_v(b@)[i as int]);
            return false;
        }
        i = i + 1;
    }
    assert(variants_v(a@) =~= variants_v(b@));
    true
}

impl MiType {
    /// Whether two types are the same type.
    pub fn same(&self, other: &MiType) -> (r: bool)
        ensures
            r == (self.v() == other.v()),
        decreases self, 0nat,
    {
        match (self, other) {
            (MiType::Int, MiType::Int) => true,
            (MiType::Float, MiType::Float) => true,
            (MiType::Bool, MiType::Bool) => true,
            (MiType::Str, MiType::Str) => true,
            (MiType::Char, MiType::Char) => true,
            (MiType::Nil, MiType::Nil) => true,
            (MiType::Unknown, MiType::Unknown) => true,
            (MiType::Fn(p1, r1), MiType::Fn(p2, r2)) => same_types(p1, p2) && r1.same(r2),
            (MiType::Struct(n1, f1), MiType::Struct(n2, f2)) => *n1 == *n2 && same_fields(f1, f2),
            (MiType::Enum(n1, v1), MiType::Enum(n2, v2)) => *n1 == *n2 && same_variants(v1, v2),
            (MiType::Generic(n1), MiType::Generic(n2)) => *n1 == *n2,
            (MiType::TypeVar(i1), MiType::TypeVar(i2)) => *i1 == *i2,
            (MiType::Array(e1), MiType::Array(e2)) => e1.same(e2),
            (MiType::Tuple(t1), MiType::Tuple(t2)) => same_types(t1, t2),
            _ => false,
        }
    }

    /// Whether the type is the unknown type.
    pub fn is_unknown(&self) -> (r: bool)
        ensures
            r == (self.v() == Ty::Unknown),
    {
        matches!(self, MiType::Unknown)
    }

    /// Whether the type is `Nil`.
    pub fn is_nil(&self) -> (r: bool)
        ensures
            r == (self.v() == Ty::Nil),
    {
        matches!(self, MiType::Nil)
    }
}

} // verus!

verus! {

/// The printed form of a list of types, separated by `", "`.
pub open spec fn ty_list_text(s: Seq<Ty>) -> Seq<char>
    decreases s,
{
    if s.len() == 0 {
        Seq::empty()
    } else if s.len() == 1 {
        s[0].text()
    } else {
        ty_list_text(s.drop_last()) + ", "@ + s.last().text()
    }
}

impl Ty {
    /// How a type reads in messages.
    pub open spec fn text(&self) -> Seq<char>
        decreases self,
    {
        match self {
            Ty::Int => "Int"@,
            Ty::Float => "Float"@,
            Ty::Bool => "Bool"@,
            Ty::Str => "Str"@,
            Ty::Char => "Char"@,
            Ty::Nil => "Nil"@,
            Ty::Fn(ps, r) => "("@ + ty_list_text(*ps) + ") -> "@ + r.text(),
            Ty::Struct(n, _) => *n,
            Ty::Enum(n, _) => *n,
            Ty::Generic(n) => *n,
            Ty::TypeVar(i) => "T"@ + nat_text(*i),
            Ty::Array(e) => "["@ + e.text() + "]"@,
            Ty::Tuple(ts) => "("@ + ty_list_text(*ts) + ")"@,
            Ty::Unknown => "?"@,
        }
    }
}

/// Appends the printed forms of the types, separated by `", "`.
fn write_type_list(ts: &Vec<MiType>, out: &mut String)
    ensures
        final(out)@ == old(out)@ + ty_list_text(tys(ts@)),
    decreases ts, 1nat,
{
    proof {
        lemma_tys(ts@);
    }
    let ghost x = tys(ts@);
    let mut i: usize = 0;
    while i < ts.len()
        invariant
            i <= ts@.len(),
            x == tys(ts@),
            x.len() == ts@.len(),
            forall|j: int| 0 <= j < ts@.len() ==> #[trigger] x[j] == ts@[j].v(),
            out@ == old(out)@ + ty_list_text(x.take(i as int)),
        decreases ts@.len() - i,
    {
        if i > 0 {
            push_str(out, ", ");
        }
        proof {
            broadcast use vstd::std_specs::vec::group_vec_axioms;
            assert(decreases_to!(ts => ts@[i as int]));
        }
        ts[i].write_to(out);
        proof {
            assert(x.take(i + 1).drop_last() =~= x.take(i as int));
            if i == 0 {
                assert(ty_list_text(x.take(0)) =~= Seq::<char>::empty());
            }
            assert(out@ =~= old(out)@ + ty_list_text(x.take(i + 1)));
        }
        i = i + 1;
    }
    assert(x.take(ts@.len() as int) =~= x);
}

impl MiType {
    /// Appends the printed form of the type.
    pub fn write_to(&self, out: &mut String)
        ensures
            final(out)@ == old(out)@ + self.v().text(),
        decreases self, 0nat,
    {
        match self {
            MiType::Int => push_str(out, "Int"),
            MiType::Float => push_str(out, "Float"),
            MiType::Bool => push_str(out, "Bool"),
            MiType::Str => push_str(out, "Str"),
            MiType::Char => push_str(out, "Char"),
            MiType::Nil => push_str(out, "Nil"),
            MiType::Fn(ps, r) => {
                push_str(out, "(");
                write_type_list(ps, out);
                push_str(out, ") -> ");
                r.write_to(out);
                assert(final(out)@ =~= old(out)@ + self.v().text());
            },
            MiType::Struct(n, _) => push_str(out, n.as_str()),
            MiType::Enum(n, _) => push_str(out, n.as_str()),
            MiType::Generic(n) => push_str(out, n.as_str()),
            MiType::TypeVar(i) => {
                push_str(out, "T");
                push_usize(out, *i);
                assert(final(out)@ =~= old(out)@ + self.v().text());
            },
            MiType::Array(e) => {
                push_str(out, "[");
                e.write_to(out);
                push_str(out, "]");
                assert(final(out)@ =~= old(out)@ + self.v().text());
            },
            MiType::Tuple(ts) => {
                push_str(out, "(");
                write_type_list(ts, out);
                push_str(out, ")");
                assert(final(out)@ =~= old(out)@ + self.v().text());
            },
            MiType::Unknown => push_str(out, "?"),
        }
    }

    /// How the type reads in messages, such as `[Int]` or `(Int) -> Str`.
    pub fn to_text(&self) -> (r: String)
        ensures
            r@ == self.v().text(),
    {
        let mut out = String::new();
        self.write_to(&mut out);
        assert(out@ =~= self.v().text());
        out
    }
}

/// When a value of type `a` may stand where `b` is expected: equal types; the
/// unknown type on either side; `Int` and `Float` either way; arrays and tuples
/// of the same length whose parts fit; structs and enums of the same name.
pub open spec fn compat(a: Ty, b: Ty) -> bool
    decreases a,
{
    if a == b || a == Ty::Unknown || b == Ty::Unknown {
        true
    } else {
        match a {
            Ty::Int => b == Ty::Float,
            Ty::Float => b == Ty::Int,
            Ty::Array(x) => match b {
                Ty::Array(y) => compat(*x, *y),
                _ => false,
            },
            Ty::Tuple(xs) => match b {
                Ty::Tuple(ys) => xs.len() == ys.len() && compat_all(xs, ys),
                _ => false,
            },
            Ty::Struct(n, _) => match b {
                Ty::Struct(m, _) => n == m,
                _ => false,
            },
            Ty::Enum(n, _) => match b {
                Ty::Enum(m, _) => n == m,
                _ => false,
            },
            _ => false,
        }
    }
}

/// Among the primitive types `Int`, `Float`, `Bool`, `Str`, `Char` and `Nil`,
/// a type fits only itself, except that `Int` and `Float` fit each other.
pub proof fn lemma_compat_primitives(a: Ty, b: Ty)
    requires
        a == Ty::Int || a == Ty::Float || a == Ty::Bool || a == Ty::Str || a == Ty::Char || a == Ty::Nil,
        b == Ty::Int || b == Ty::Float || b == Ty::Bool || b == Ty::Str || b == Ty::Char || b == Ty::Nil,
    ensures
        compat(a, b) == (a == b || (a == Ty::Int && b == Ty::Float) || (a == Ty::Float && b == Ty::Int)),
{
}

/// Two array types fit exactly when their element types fit: an array of
/// one element type never stands in for an array of an unrelated one.
pub proof fn lemma_compat_arrays(x: Ty, y: Ty)
    ensures
        compat(Ty::Array(Box::new(x)), Ty::Array(Box::new(y))) == compat(x, y),
{
    if x == y {
        lemma_compat_reflexive(x);
    }
}

/// Two tuple types fit exactly when they have the same length and each
/// element type fits the one at the same place.
pub proof fn lemma_compat_tuples(xs: Seq<Ty>, ys: Seq<Ty>)
    ensures
        compat(Ty::Tuple(xs), Ty::Tuple(ys)) == (xs.len() == ys.len()
            && forall|i: int| 0 <= i < xs.len() ==> compat(#[trigger] xs[i], ys[i])),
{
    if xs.len() == ys.len() {
        lemma_compat_all(xs, ys);
    }
    if xs == ys {
        assert forall|i: int| 0 <= i < xs.len() implies compat(#[trigger] xs[i], ys[i]) by {
            lemma_compat_reflexive(xs[i]);
        }
    }
}

/// Whether each type of `xs` fits the type at the same place in `ys`.
pub open spec fn compat_all(xs: Seq<Ty>, ys: Seq<Ty>) -> bool
    decreases xs,
{
    if xs.len() == 0 {
        true
    } else {
        compat(xs[0], ys[0]) && compat_all(xs.drop_first(), ys.drop_first())
    }
}

/// Pairwise compatibility of two lists, item by item.
pub proof fn lemma_compat_all(xs: Seq<Ty>, ys: Seq<Ty>)
    requires
        xs.len() == ys.len(),
    ensures
        compat_all(xs, ys) <==> forall|i: int| 0 <= i < xs.len() ==> #[trigger] compat(xs[i], ys[i]),
    decreases xs.len(),
{
    if xs.len() > 0 {
        lemma_compat_all(xs.drop_first(), ys.drop_first());
        if compat_all(xs, ys) {
            assert forall|i: int| 0 <= i < xs.len() implies #[trigger] compat(xs[i], ys[i]) by {
                if i > 0 {
                    assert(xs.drop_first()[i - 1] == xs[i]);
                    assert(ys.drop_first()[i - 1] == ys[i]);
                }
            }
        }
        if forall|i: int| 0 <= i < xs.len() ==> #[trigger] compat(xs[i], ys[i]) {
            assert forall|i: int| 0 <= i < xs.drop_first().len() implies #[trigger] compat(xs.drop_first()[i], ys.drop_first()[i]) by {
                assert(compat(xs[i + 1], ys[i + 1]));
                assert(xs.drop_first()[i] == xs[i + 1]);
                assert(ys.drop_first()[i] == ys[i + 1]);
            }
            assert(compat(xs[0], ys[0]));
        }
    }
}

/// Every type fits itself.
pub proof fn lemma_compat_reflexive(a: Ty)
    ensures
        compat(a, a),
{
}

/// Fitting is symmetric: `a` fits where `b` is expected exactly when `b` fits
/// where `a` is expected.
pub proof fn lemma_compat_symmetric(a: Ty, b: Ty)
    ensures
        compat(a, b) == compat(b, a),
    decreases a,
{
    match a {
        Ty::Array(x) => match b {
            Ty::Array(y) => {
                lemma_compat_symmetric(*x, *y);
            },
            _ => {},
        },
        Ty::Tuple(xs) => match b {
            Ty::Tuple(ys) => {
                if xs.len() == ys.len() {
                    lemma_compat_all(xs, ys);
                    lemma_compat_all(ys, xs);
                    assert forall|i: int| 0 <= i < xs.len() implies compat(xs[i], ys[i]) == compat(ys[i], xs[i]) by {
                        lemma_compat_symmetric(xs[i], ys[i]);
                    }
                }
            },
            _ => {},
        },
        _ => {},
    }
}

/// The name under which methods of a type are found.
pub open spec fn type_key(t: Ty) -> Option<Seq<char>> {
    match t {
        Ty::Struct(n, _) => Some(n),
        Ty::Enum(n, _) => Some(n),
        Ty::Int => Some("Int"@),
        Ty::Float => Some("Float"@),
        Ty::Bool => Some("Bool"@),
        Ty::Str => Some("Str"@),
        Ty::Char => Some("Char"@),
        Ty::Array(_) => Some("Array"@),
        Ty::Tuple(_) => Some("Tuple"@),
        Ty::Nil => Some("Nil"@),
        _ => None,
    }
}

/// A message with its position appended, unless the position is 0:0.
pub open spec fn located(msg: Seq<char>, line: int, col: int) -> Seq<char> {
    if line == 0 && col == 0 {
        msg
    } else {
        msg + " at "@ + nat_text(line as nat) + seq![':'] + nat_text(col as nat)
    }
}

/// The first entry for key `k` in a list of named types.
pub open spec fn lookup_ty(m: Seq<(String, MiType)>, k: Seq<char>) -> Option<Ty>
    decreases m.len(),
{
    if m.len() == 0 {
        None
    } else if m[0].0@ == k {
        Some(m[0].1.v())
    } else {
        lookup_ty(m.drop_first(), k)
    }
}

/// The signatures of the first method table for the type named `k`.
pub open spec fn lookup_sigs(m: Seq<(String, Vec<(String, MiType)>)>, k: Seq<char>) -> Option<Seq<(String, MiType)>>
    decreases m.len(),
{
    if m.len() == 0 {
        None
    } else if m[0].0@ == k {
        Some(m[0].1@)
    } else {
        lookup_sigs(m.drop_first(), k)
    }
}

/// The first table for `k` stands at `i`.
pub proof fn lemma_lookup_sigs_at(m: Seq<(String, Vec<(String, MiType)>)>, k: Seq<char>, i: int)
    requires
        0 <= i < m.len(),
        m[i].0@ == k,
        forall|j: int| 0 <= j < i ==> m[j].0@ != k,
    ensures
        lookup_sigs(m, k) == Some(m[i].1@),
    decreases i,
{
    if i > 0 {
        assert(m[0].0@ != k);
        lemma_lookup_sigs_at(m.drop_first(), k, i - 1);
    }
}

/// No table is for `k`.
pub proof fn lemma_lookup_sigs_none(m: Seq<(String, Vec<(String, MiType)>)>, k: Seq<char>)
    requires
        forall|j: int| 0 <= j < m.len() ==> m[j].0@ != k,
    ensures
        lookup_sigs(m, k) is None,
    decreases m.len(),
{
    if m.len() > 0 {
        assert(m[0].0@ != k);
        lemma_lookup_sigs_none(m.drop_first(), k);
    }
}

/// The type that a type expression denotes, given the defined types `types`.
/// A generic with no argument is taken as unknown.
pub open spec fn te_type(types: Seq<(String, MiType)>, te: TypeExpr) -> Ty
    decreases te,
{
    match te {
        TypeExpr::Named(n) => if n@ == "Int"@ {
            Ty::Int
        } else if n@ == "Float"@ {
            Ty::Float
        } else if n@ == "Bool"@ {
            Ty::Bool
        } else if n@ == "Str"@ {
            Ty::Str
        } else if n@ == "Char"@ {
            Ty::Char
        } else if n@ == "Nil"@ {
            Ty::Nil
        } else {
            match lookup_ty(types, n@) {
                Some(t) => t,
                None => Ty::Unknown,
            }
        },
        TypeExpr::Generic(n, args) => if args@.len() > 0 && (n@ == "Array"@ || n@ == "List"@) {
            Ty::Array(Box::new(te_type(types, args@[0])))
        } else {
            Ty::Unknown
        },
        TypeExpr::Fn(ps, r) => Ty::Fn(te_types(types, ps@), Box::new(te_type(types, *r))),
        TypeExpr::Tuple(ts) => Ty::Tuple(te_types(types, ts@)),
        TypeExpr::Infer => Ty::Unknown,
    }
}

/// The types that a list of type expressions denotes.
pub open spec fn te_types(types: Seq<(String, MiType)>, s: Seq<TypeExpr>) -> Seq<Ty>
    decreases s,
{
    if s.len() == 0 {
        Seq::empty()
    } else {
        seq![te_type(types, s[0])] + te_types(types, s.drop_first())
    }
}

/// The types of a list of type expressions, item by item.
pub proof fn lemma_te_types(types: Seq<(String, MiType)>, s: Seq<TypeExpr>)
    ensures
        te_types(types, s).len() == s.len(),
        forall|i: int| 0 <= i < s.len() ==> #[trigger] te_types(types, s)[i] == te_type(types, s[i]),
    decreases s.len(),
{
    if s.len() > 0 {
        lemma_te_types(types, s.drop_first());
        assert forall|i: int| 0 <= i < s.len() implies #[trigger] te_types(types, s)[i] == te_type(types, s[i]) by {
            if i > 0 {
                assert(s.drop_first()[i - 1] == s[i]);
            }
        }
    }
}

} // verus!

verus! {

/// The view of a list of variables: name, type, and whether it is mutable.
pub open spec fn vars_v(s: Seq<(String, MiType, bool)>) -> Seq<(Seq<char>, Ty, bool)> {
    Seq::new(s.len(), |i: int| (s[i].0@, s[i].1.v(), s[i].2))
}

/// The first entry for `k` in a list of variables.
pub open spec fn lookup_var(s: Seq<(Seq<char>, Ty, bool)>, k: Seq<char>) -> Option<(Ty, bool)>
    decreases s.len(),
{
    if s.len() == 0 {
        None
    } else if s[0].0 == k {
        Some((s[0].1, s[0].2))
    } else {
        lookup_var(s.drop_first(), k)
    }
}

/// A function type `(ps) -> r`.
pub open spec fn fn_ty(ps: Seq<Ty>, r: Ty) -> Ty {
    Ty::Fn(ps, Box::new(r))
}

/// The built-in functions known before any program is read.
pub open spec fn builtins() -> Seq<(Seq<char>, Ty, bool)> {
    seq![
        ("print"@, fn_ty(seq![Ty::Str], Ty::Nil), false),
        ("println"@, fn_ty(seq![Ty::Str], Ty::Nil), false),
        ("len"@, fn_ty(seq![Ty::Array(Box::new(Ty::Unknown))], Ty::Int), false),
        ("str"@, fn_ty(seq![Ty::Int], Ty::Str), false),
        ("int"@, fn_ty(seq![Ty::Str], Ty::Int), false),
        ("len_str"@, fn_ty(seq![Ty::Str], Ty::Int), false),
        ("range"@, fn_ty(seq![Ty::Int], Ty::Array(Box::new(Ty::Int))), false),
        ("pi"@, fn_ty(seq![], Ty::Float), false),
        ("e"@, fn_ty(seq![], Ty::Float), false),
        ("sin"@, fn_ty(seq![Ty::Float], Ty::Float), false),
        ("cos"@, fn_ty(seq![Ty::Float], Ty::Float), false),
        ("tan"@, fn_ty(seq![Ty::Float], Ty::Float), false),
        ("sqrt"@, fn_ty(seq![Ty::Float], Ty::Float), false),
        ("pow"@, fn_ty(seq![Ty::Float, Ty::Float], Ty::Float), false),
        ("exp"@, fn_ty(seq![Ty::Float], Ty::Float), false),
        ("log"@, fn_ty(seq![Ty::Float], Ty::Float), false),
        ("log10"@, fn_ty(seq![Ty::Float], Ty::Float), false),
        ("abs"@, fn_ty(seq![Ty::Float], Ty::Float), false),
        ("floor"@, fn_ty(seq![Ty::Float], Ty::Float), false),
        ("ceil"@, fn_ty(seq![Ty::Float], Ty::Float), false),
        ("round"@, fn_ty(seq![Ty::Float], Ty::Float), false),
        ("atan2"@, fn_ty(seq![Ty::Float, Ty::Float], Ty::Float), false),
        ("read_file"@, fn_ty(seq![Ty::Str], Ty::Str), false),
        ("write_file"@, fn_ty(seq![Ty::Str, Ty::Str], Ty::Bool), false),
        ("file_exists"@, fn_ty(seq![Ty::Str], Ty::Bool), false),
        ("sb_new"@, fn_ty(seq![], Ty::Unknown), false),
        ("sb_append"@, fn_ty(seq![Ty::Unknown, Ty::Str], Ty::Nil), false),
        ("sb_build"@, fn_ty(seq![Ty::Unknown], Ty::Str), false),
        ("os_args"@, fn_ty(seq![], Ty::Array(Box::new(Ty::Str))), false),
        ("str_bool"@, fn_ty(seq![Ty::Bool], Ty::Str), false),
        ("str_float"@, fn_ty(seq![Ty::Float], Ty::Str), false),
        ("str_char"@, fn_ty(seq![Ty::Char], Ty::Str), false),
    ]
}

/// Adds a built-in function with parameter types `ps` and result `r`.
fn add_builtin(g: &mut Vec<(String, MiType, bool)>, name: &str, ps: Vec<MiType>, r: MiType)
    ensures
        vars_v(final(g)@) == vars_v(old(g)@).push((name@, Ty::Fn(tys(ps@), Box::new(r.v())), false)),
{
    let ghost before = g@;
    let t = MiType::Fn(ps, Box::new(r));
    g.push((String::from_str(name), t, false));
    assert(vars_v(g@) =~= vars_v(before).push((name@, Ty::Fn(tys(ps@), Box::new(r.v())), false)));
}

/// A vector of types.
fn types_of1(a: MiType) -> (r: Vec<MiType>)
    ensures
        tys(r@) == seq![a.v()],
{
    let mut v = Vec::new();
    v.push(a);
    proof {
        lemma_tys(v@);
        assert(tys(v@) =~= seq![a.v()]);
    }
    v
}

/// A vector of two types.
fn types_of2(a: MiType, b: MiType) -> (r: Vec<MiType>)
    ensures
        tys(r@) == seq![a.v(), b.v()],
{
    let mut v = Vec::new();
    v.push(a);
    v.push(b);
    proof {
        lemma_tys(v@);
        assert(tys(v@) =~= seq![a.v(), b.v()]);
    }
    v
}

/// The first index of `k` in a list of named types.
fn find_named(m: &Vec<(String, MiType)>, k: &String) -> (r: Option<usize>)
    ensures
        r matches Some(i) ==> i < m@.len() && m@[i as int].0@ == k@ && lookup_ty(m@, k@) == Some(m@[i as int].1.v())
            && forall|j: int| 0 <= j < i ==> m@[j].0@ != k@,
        r is None ==> lookup_ty(m@, k@) is None && forall|j: int| 0 <= j < m@.len() ==> m@[j].0@ != k@,
{
    let mut i: usize = 0;
    assert(m@.skip(0) =~= m@);
    while i < m.len()
        invariant
            i <= m@.len(),
            lookup_ty(m@, k@) == lookup_ty(m@.skip(i as int), k@),
            forall|j: int| 0 <= j < i ==> m@[j].0@ != k@,
        decreases m@.len() - i,
    {
        assert(m@.skip(i as int)[0] == m@[i as int]);
        if m[i].0 == *k {
            return Some(i);
        }
        assert(m@.skip(i as int).drop_first() =~= m@.skip(i + 1));
        i = i + 1;
    }
    None
}

/// Sets the entry for `k` (replacing the first one, or adding one at the end).
fn insert_named(m: &mut Vec<(String, MiType)>, k: String, v: MiType)
    ensures
        lookup_ty(final(m)@, k@) == Some(v.v()),
{
    let ghost kv = k@;
    let ghost vv = v.v();
    match find_named(m, &k) {
        Some(i) => {
            m.set(i, (k, v));
            assert(lookup_ty(final(m)@, kv) == Some(vv)) by {
                lemma_lookup_ty_first(final(m)@, kv, i as int);
            }
        },
        None => {
            let ghost before = m@;
            m.push((k, v));
            proof {
                lemma_lookup_ty_first(m@, kv, before.len() as int);
            }
        },
    }
}

/// The entry at `i` is the one found when no earlier entry has the key.
pub proof fn lemma_lookup_ty_first(m: Seq<(String, MiType)>, k: Seq<char>, i: int)
    requires
        0 <= i < m.len(),
        m[i].0@ == k,
        forall|j: int| 0 <= j < i ==> m[j].0@ != k,
    ensures
        lookup_ty(m, k) == Some(m[i].1.v()),
    decreases i,
{
    if i > 0 {
        lemma_lookup_ty_first(m.drop_first(), k, i - 1);
    }
}

/// The first index of `k` in a list of variables.
fn find_var(m: &Vec<(String, MiType, bool)>, k: &String) -> (r: Option<usize>)
    ensures
        r matches Some(i) ==> i < m@.len() && m@[i as int].0@ == k@
            && lookup_var(vars_v(m@), k@) == Some((m@[i as int].1.v(), m@[i as int].2))
            && forall|j: int| 0 <= j < i ==> m@[j].0@ != k@,
        r is None ==> lookup_var(vars_v(m@), k@) is None && forall|j: int| 0 <= j < m@.len() ==> m@[j].0@ != k@,
{
    let mut i: usize = 0;
    assert(vars_v(m@).skip(0) =~= vars_v(m@));
    while i < m.len()
        invariant
            i <= m@.len(),
            lookup_var(vars_v(m@), k@) == lookup_var(vars_v(m@).skip(i as int), k@),
            forall|j: int| 0 <= j < i ==> m@[j].0@ != k@,
        decreases m@.len() - i,
    {
        if m[i].0 == *k {
            return Some(i);
        }
        assert(vars_v(m@).skip(i as int).drop_first() =~= vars_v(m@).skip(i + 1));
        i = i + 1;
    }
    None
}

/// Sets the variable `k` (replacing the first entry, or adding one at the end).
fn insert_var(m: &mut Vec<(String, MiType, bool)>, k: String, t: MiType, mutable: bool)
    ensures
        lookup_var(vars_v(final(m)@), k@) == Some((t.v(), mutable)),
{
    let ghost kv = k@;
    let ghost tv = t.v();
    match find_var(m, &k) {
        Some(i) => {
            let ghost before = m@;
            m.set(i, (k, t, mutable));
            proof {
                lemma_lookup_var_first(vars_v(m@), kv, i as int);
            }
        },
        None => {
            let ghost before = m@;
            m.push((k, t, mutable));
            proof {
                lemma_lookup_var_none(vars_v(before), kv);
                lemma_lookup_var_first(vars_v(m@), kv, before.len() as int);
            }
        },
    }
}

/// A name that is not found has no entry.
pub proof fn lemma_lookup_var_none(s: Seq<(Seq<char>, Ty, bool)>, k: Seq<char>)
    requires
        lookup_var(s, k) is None,
    ensures
        forall|j: int| 0 <= j < s.len() ==> #[trigger] s[j].0 != k,
    decreases s.len(),
{
    if s.len() > 0 {
        lemma_lookup_var_none(s.drop_first(), k);
        assert forall|j: int| 0 <= j < s.len() implies #[trigger] s[j].0 != k by {
            if j > 0 {
                assert(s.drop_first()[j - 1] == s[j]);
            }
        }
    }
}

/// The first entry of a name is the one found.
pub proof fn lemma_lookup_var_first(s: Seq<(Seq<char>, Ty, bool)>, k: Seq<char>, i: int)
    requires
        0 <= i < s.len(),
        s[i].0 == k,
        forall|j: int| 0 <= j < i ==> s[j].0 != k,
    ensures
        lookup_var(s, k) == Some((s[i].1, s[i].2)),
    decreases i,
{
    if i > 0 {
        lemma_lookup_var_first(s.drop_first(), k, i - 1);
    }
}

} // verus!

verus! {

/// The first entry for `k` in a stack of scopes, innermost (last) first.
pub open spec fn scopes_lookup(scopes: Seq<Vec<(String, MiType, bool)>>, k: Seq<char>) -> Option<(Ty, bool)>
    decreases scopes.len(),
{
    if scopes.len() == 0 {
        None
    } else {
        match lookup_var(vars_v(scopes.last()@), k) {
            Some(x) => Some(x),
            None => scopes_lookup(scopes.drop_last(), k),
        }
    }
}

/// The number that a text denotes as a `usize`: an optional `+`, then at
/// least one ASCII digit, with a value that fits.
pub open spec fn usize_text(s: Seq<char>) -> Option<nat> {
    let d = if s.len() > 0 && s[0] == '+' { s.drop_first() } else { s };
    if d.len() > 0 && crate::lexer::all_digits(d) && crate::lexer::digits_value(d) <= usize::MAX {
        Some(crate::lexer::digits_value(d) as nat)
    } else {
        None
    }
}

/// Parses a decimal number of `usize` with an optional leading `+`.
fn parse_usize(cs: &Vec<char>, from: usize) -> (r: Option<usize>)
    requires
        from <= cs@.len(),
    ensures
        r matches Some(v) ==> usize_text(cs@.skip(from as int)) == Some(v as nat),
        r is None ==> usize_text(cs@.skip(from as int)) is None,
{
    let ghost s = cs@.skip(from as int);
    let mut st = from;
    if st < cs.len() && cs[st] == '+' {
        st = st + 1;
    }
    let ghost d = if s.len() > 0 && s[0] == '+' { s.drop_first() } else { s };
    assert(d =~= cs@.skip(st as int));
    if st >= cs.len() {
        return None;
    }
    let mut v: usize = 0;
    let mut i = st;
    assert(d.take(0) =~= Seq::<char>::empty());
    while i < cs.len()
        invariant
            st <= i <= cs@.len(),
            d == cs@.skip(st as int),
            s == cs@.skip(from as int),
            d == (if s.len() > 0 && s[0] == '+' { s.drop_first() } else { s }),
            crate::lexer::all_digits(d.take(i - st)),
            v as int == crate::lexer::digits_value(d.take(i - st)),
        decreases cs@.len() - i,
    {
        let c = cs[i];
        assert(d[i - st] == c);
        if !('0' <= c && c <= '9') {
            assert(!crate::lexer::is_digit(d[i - st]));
            assert(!crate::lexer::all_digits(d));
            return None;
        }
        let dg: usize = (c as u32 - 48) as usize;
        assert(d.take(i - st + 1).drop_last() =~= d.take(i - st));
        assert(crate::lexer::digits_value(d.take(i - st + 1)) == v * 10 + dg);
        if v > (usize::MAX - dg) / 10 {
            proof {
                assert(v * 10 + dg > usize::MAX) by (nonlinear_arith)
                    requires
                        v > (usize::MAX - dg) / 10,
                        dg <= 9,
                ;
                if crate::lexer::all_digits(d) {
                    crate::codegen::lemma_digits_prefix(d, i - st + 1);
                }
            }
            return None;
        }
        v = v * 10 + dg;
        i = i + 1;
        assert(crate::lexer::all_digits(d.take(i - st))) by {
            assert forall|k: int| 0 <= k < d.take(i - st).len() implies #[trigger] crate::lexer::is_digit(d.take(i - st)[k]) by {
                if k < i - 1 - st {
                    assert(d.take(i - st)[k] == d.take(i - 1 - st)[k]);
                }
            }
        }
    }
    assert(d.take(cs@.len() - st) =~= d);
    Some(v)
}

/// Whether a type is a number type.
pub open spec fn numeric(t: Ty) -> bool {
    t == Ty::Int || t == Ty::Float
}

/// The type of a binary operation: arithmetic gives `Int` on two `Int`s and
/// `Float` on any other two numbers, `+` also joins two strings, equality
/// needs compatible operands, ordering needs two numbers or two strings, and
/// `and`/`or` need two booleans; `None` when the operands do not fit.
pub open spec fn binary_ty(op: BinOp, l: Ty, r: Ty) -> Option<Ty> {
    match op {
        BinOp::Add => if l == Ty::Int && r == Ty::Int {
            Some(Ty::Int)
        } else if numeric(l) && numeric(r) {
            Some(Ty::Float)
        } else if l == Ty::Str && r == Ty::Str {
            Some(Ty::Str)
        } else {
            None
        },
        BinOp::Sub | BinOp::Mul | BinOp::Div | BinOp::Mod => if l == Ty::Int && r == Ty::Int {
            Some(Ty::Int)
        } else if numeric(l) && numeric(r) {
            Some(Ty::Float)
        } else {
            None
        },
        BinOp::Eq | BinOp::Neq => if compat(l, r) { Some(Ty::Bool) } else { None },
        BinOp::Lt | BinOp::Gt | BinOp::Le | BinOp::Ge => if (numeric(l) && numeric(r)) || (l == Ty::Str && r == Ty::Str) {
            Some(Ty::Bool)
        } else {
            None
        },
        BinOp::And | BinOp::Or => if l == Ty::Bool && r == Ty::Bool { Some(Ty::Bool) } else { None },
    }
}

/// The message for operands that a binary operation does not accept.
pub open spec fn binary_err(op: BinOp, l: Ty, r: Ty) -> Seq<char> {
    let what = match op {
        BinOp::Add => "cannot apply + to "@,
        BinOp::Sub | BinOp::Mul | BinOp::Div | BinOp::Mod => "cannot apply arithmetic to "@,
        BinOp::And | BinOp::Or => "cannot apply logical operator to "@,
        _ => "cannot compare "@,
    };
    what + l.text() + " and "@ + r.text()
}

/// The result of checking an expression built from literals, names, unary
/// and binary operators and `if` expressions (whose condition must be
/// compatible with `Bool`), which changes nothing in the checker: its type,
/// or the first error met from left to right; `None` for other expressions.
pub open spec fn simple_ty(tc: TypeChecker, e: Expr, line: int, col: int) -> Option<Result<Ty, Seq<char>>>
    decreases e,
{
    match e {
        Expr::Int(_) => Some(Ok(Ty::Int)),
        Expr::Float(_) => Some(Ok(Ty::Float)),
        Expr::Bool(_) => Some(Ok(Ty::Bool)),
        Expr::Str(_, _) => Some(Ok(Ty::Str)),
        Expr::Char(_) => Some(Ok(Ty::Char)),
        Expr::Nil => Some(Ok(Ty::Nil)),
        Expr::Import(_, _) => Some(Ok(Ty::Nil)),
        Expr::Ident(n) => match tc.resolve(n@) {
            Some(t) => Some(Ok(t)),
            None => Some(Err(located("undefined variable '"@ + n@ + "'"@, line, col))),
        },
        Expr::Unary(op, x) => match simple_ty(tc, *x, line, col) {
            Some(Ok(t)) => Some(match op {
                UnOp::Neg => if numeric(t) {
                    Ok(t)
                } else {
                    Err(located("cannot negate type "@ + t.text(), line, col))
                },
                UnOp::Not => if t == Ty::Bool {
                    Ok(Ty::Bool)
                } else {
                    Err(located("cannot apply 'not' to type "@ + t.text(), line, col))
                },
            }),
            other => other,
        },
        Expr::Binary(l, op, r) => match simple_ty(tc, *l, line, col) {
            Some(Ok(a)) => match simple_ty(tc, *r, line, col) {
                Some(Ok(b)) => Some(match binary_ty(op, a, b) {
                    Some(t) => Ok(t),
                    None => Err(located(binary_err(op, a, b), line, col)),
                }),
                other => other,
            },
            other => other,
        },
        Expr::If(c, t, el) => match simple_ty(tc, *c, line, col) {
            Some(Ok(ct)) => if !compat(ct, Ty::Bool) {
                Some(Err(located("if condition must be Bool, got "@ + ct.text(), line, col)))
            } else {
                match simple_ty(tc, *t, line, col) {
                    Some(Ok(tt)) => match el {
                        None => Some(Ok(tt)),
                        Some(e) => match simple_ty(tc, *e, line, col) {
                            Some(Ok(et)) => Some(if_join(tt, et, line, col)),
                            other => other,
                        },
                    },
                    other => other,
                }
            },
            other => other,
        },
        _ => None,
    }
}

/// Every statement is an expression statement.
pub open spec fn all_exprs(ss: Seq<Stmt>) -> bool {
    forall|k: int| 0 <= k < ss.len() ==> (#[trigger] ss[k]) is Expr
}

/// The outcome of checking expression statements of the kinds that `simple_ty`
/// covers, in order: the first error, or `Ok` when none has one; `None` where a
/// statement before the first error is of another kind.
pub open spec fn simple_stmts(tc: TypeChecker, ss: Seq<Stmt>) -> Option<Result<(), Seq<char>>>
    decreases ss.len(),
{
    if ss.len() == 0 {
        Some(Ok(()))
    } else {
        match ss[0] {
            Stmt::Expr(e) => match simple_ty(tc, e, 0, 0) {
                Some(Ok(_)) => simple_stmts(tc, ss.drop_first()),
                Some(Err(m)) => Some(Err(m)),
                None => None,
            },
            _ => None,
        }
    }
}

/// The type of an `if` expression from the types of its branches: equal
/// types, or the other branch's where one is unknown or `Nil`; otherwise an error.
pub open spec fn if_join(tt: Ty, et: Ty, line: int, col: int) -> Result<Ty, Seq<char>> {
    if tt == et {
        Ok(tt)
    } else if tt == Ty::Unknown {
        Ok(et)
    } else if et == Ty::Unknown {
        Ok(tt)
    } else if tt == Ty::Nil {
        Ok(et)
    } else if et == Ty::Nil {
        Ok(tt)
    } else {
        Err(located("if branches have incompatible types: then="@ + tt.text() + ", else="@ + et.text(), line, col))
    }
}

/// A type checker: built-in and user functions, user types and methods, a
/// stack of local scopes, and the errors found so far.
pub struct TypeChecker {
    pub globals: Vec<(String, MiType, bool)>,
    pub functions: Vec<(String, MiType)>,
    pub types: Vec<(String, MiType)>,
    methods: Vec<(String, Vec<(String, MiType)>)>,
    locals: Vec<Vec<(String, MiType, bool)>>,
    errors: Vec<String>,
}

impl TypeChecker {
    /// There is always a scope to define locals in.
    pub closed spec fn wf(&self) -> bool {
        self.locals@.len() >= 1
    }

    /// The built-in and global variables.
    pub closed spec fn globals_v(&self) -> Seq<(Seq<char>, Ty, bool)> {
        vars_v(self.globals@)
    }

    /// The declared functions.
    pub closed spec fn functions_v(&self) -> Seq<(String, MiType)> {
        self.functions@
    }

    /// The defined types.
    pub closed spec fn types_v(&self) -> Seq<(String, MiType)> {
        self.types@
    }

    /// Whether an `impl` block gave methods to the type of that name.
    pub closed spec fn has_methods(&self, tn: Seq<char>) -> bool {
        exists|i: int| 0 <= i < self.methods@.len() && self.methods@[i].0@ == tn
    }

    /// The signature of method `m` of the type named `tn`: the entry named `m`
    /// in the first method table of `tn`.
    pub closed spec fn method_ty(&self, tn: Seq<char>, m: Seq<char>) -> Option<Ty> {
        match lookup_sigs(self.methods@, tn) {
            Some(t) => lookup_ty(t, m),
            None => None,
        }
    }

    /// How many local scopes are open.
    pub closed spec fn depth(&self) -> nat {
        self.locals@.len()
    }

    /// The locals of each open scope, outermost first: name, type and mutability.
    pub closed spec fn scopes(&self) -> Seq<Seq<(Seq<char>, Ty, bool)>> {
        Seq::new(self.locals@.len(), |i: int| vars_v(self.locals@[i]@))
    }

    /// What a name resolves to with its mutability: the innermost local, else a global.
    pub closed spec fn resolve_var(&self, k: Seq<char>) -> Option<(Ty, bool)> {
        match scopes_lookup(self.locals@, k) {
            Some(x) => Some(x),
            None => lookup_var(vars_v(self.globals@), k),
        }
    }

    /// The errors recorded so far.
    pub closed spec fn errs(&self) -> Seq<Seq<char>> {
        Seq::new(self.errors@.len(), |i: int| self.errors@[i]@)
    }

    /// What a name resolves to: the innermost local, else a global, else a function.
    pub closed spec fn resolve(&self, k: Seq<char>) -> Option<Ty> {
        match scopes_lookup(self.locals@, k) {
            Some(x) => Some(x.0),
            None => match lookup_var(vars_v(self.globals@), k) {
                Some(x) => Some(x.0),
                None => lookup_ty(self.functions@, k),
            },
        }
    }

    /// `after` has the same globals, functions, types and methods, is well
    /// formed, and its errors extend these.
    pub closed spec fn kept(&self, after: &TypeChecker) -> bool {
        &&& after.wf()
        &&& after.globals == self.globals
        &&& after.functions == self.functions
        &&& after.types == self.types
        &&& after.methods == self.methods
        &&& after.errors@.len() >= self.errors@.len()
        &&& forall|i: int| 0 <= i < self.errors@.len() ==> #[trigger] after.errors@[i]@ == self.errors@[i]@
    }

    /// A checker that knows the built-in functions, with one empty scope and no errors.
    #[verifier::rlimit(40)]
    pub fn new() -> (r: Self)
        ensures
            r.wf(),
            r.depth() == 1,
            r.scopes() == seq![Seq::<(Seq<char>, Ty, bool)>::empty()],
            forall|tn: Seq<char>| !r.has_methods(tn),
            r.errs().len() == 0,
            r.globals_v() == builtins(),
            r.functions_v().len() == 0,
            r.types_v().len() == 0,
    {
        let mut globals: Vec<(String, MiType, bool)> = Vec::new();
        add_builtin(&mut globals, "print", types_of1(MiType::Str), MiType::Nil);
        add_builtin(&mut globals, "println", types_of1(MiType::Str), MiType::Nil);
        add_builtin(&mut globals, "len", types_of1(MiType::Array(Box::new(MiType::Unknown))), MiType::Int);
        add_builtin(&mut globals, "str", types_of1(MiType::Int), MiType::Str);
        add_builtin(&mut globals, "int", types_of1(MiType::Str), MiType::Int);
        add_builtin(&mut globals, "len_str", types_of1(MiType::Str), MiType::Int);
        add_builtin(&mut globals, "range", types_of1(MiType::Int), MiType::Array(Box::new(MiType::Int)));
        add_builtin(&mut globals, "pi", Vec::new(), MiType::Float);
        add_builtin(&mut globals, "e", Vec::new(), MiType::Float);
        add_builtin(&mut globals, "sin", types_of1(MiType::Float), MiType::Float);
        add_builtin(&mut globals, "cos", types_of1(MiType::Float), MiType::Float);
        add_builtin(&mut globals, "tan", types_of1(MiType::Float), MiType::Float);
        add_builtin(&mut globals, "sqrt", types_of1(MiType::Float), MiType::Float);
        add_builtin(&mut globals, "pow", types_of2(MiType::Float, MiType::Float), MiType::Float);
        add_builtin(&mut globals, "exp", types_of1(MiType::Float), MiType::Float);
        add_builtin(&mut globals, "log", types_of1(MiType::Float), MiType::Float);
        add_builtin(&mut globals, "log10", types_of1(MiType::Float), MiType::Float);
        add_builtin(&mut globals, "abs", types_of1(MiType::Float), MiType::Float);
        add_builtin(&mut globals, "floor", types_of1(MiType::Float), MiType::Float);
        add_builtin(&mut globals, "ceil", types_of1(MiType::Float), MiType::Float);
        add_builtin(&mut globals, "round", types_of1(MiType::Float), MiType::Float);
        add_builtin(&mut globals, "atan2", types_of2(MiType::Float, MiType::Float), MiType::Float);
        add_builtin(&mut globals, "read_file", types_of1(MiType::Str), MiType::Str);
        add_builtin(&mut globals, "write_file", types_of2(MiType::Str, MiType::Str), MiType::Bool);
        add_builtin(&mut globals, "file_exists", types_of1(MiType::Str), MiType::Bool);
        add_builtin(&mut globals, "sb_new", Vec::new(), MiType::Unknown);
        add_builtin(&mut globals, "sb_append", types_of2(MiType::Unknown, MiType::Str), MiType::Nil);
        add_builtin(&mut globals, "sb_build", types_of1(MiType::Unknown), MiType::Str);
        add_builtin(&mut globals, "os_args", Vec::new(), MiType::Array(Box::new(MiType::Str)));
        add_builtin(&mut globals, "str_bool", types_of1(MiType::Bool), MiType::Str);
        add_builtin(&mut globals, "str_float", types_of1(MiType::Float), MiType::Str);
        add_builtin(&mut globals, "str_char", types_of1(MiType::Char), MiType::Str);
        proof {
            assert(vars_v(globals@) =~= builtins());
        }
        let mut locals: Vec<Vec<(String, MiType, bool)>> = Vec::new();
        let first: Vec<(String, MiType, bool)> = Vec::new();
        locals.push(first);
        proof {
            assert(vars_v(locals@[0]@) =~= Seq::<(Seq<char>, Ty, bool)>::empty());
        }
        let r = TypeChecker {
            globals,
            functions: Vec::new(),
            types: Vec::new(),
            methods: Vec::new(),
            locals,
            errors: Vec::new(),
        };
        assert(r.errs() =~= Seq::<Seq<char>>::empty());
        assert(r.scopes() =~= seq![Seq::<(Seq<char>, Ty, bool)>::empty()]);
        r
    }

    /// The type a type expression denotes: the primitive types by name, a
    /// defined type by its name, `Array[T]` and `List[T]` as arrays, function
    /// and tuple types part by part, and anything else unknown.
    pub fn type_expr_to_type(&self, te: &TypeExpr) -> (r: MiType)
        ensures
            r.v() == te_type(self.types_v(), *te),
        decreases te,
    {
        match te {
            TypeExpr::Named(n) => {
                if eq_str(n, "Int") {
                    MiType::Int
                } else if eq_str(n, "Float") {
                    MiType::Float
                } else if eq_str(n, "Bool") {
                    MiType::Bool
                } else if eq_str(n, "Str") {
                    MiType::Str
                } else if eq_str(n, "Char") {
                    MiType::Char
                } else if eq_str(n, "Nil") {
                    MiType::Nil
                } else {
                    match find_named(&self.types, n) {
                        Some(i) => self.types[i].1.copy(),
                        None => MiType::Unknown,
                    }
                }
            },
            TypeExpr::Generic(n, args) => {
                if args.len() == 0 {
                    return MiType::Unknown;
                }
                proof {
                    broadcast use vstd::std_specs::vec::group_vec_axioms;
                    assert(decreases_to!(te => args@[0]));
                }
                let elem = self.type_expr_to_type(&args[0]);
                if eq_str(n, "Array") || eq_str(n, "List") {
                    MiType::Array(Box::new(elem))
                } else {
                    MiType::Unknown
                }
            },
            TypeExpr::Fn(params, ret) => {
                let ps = self.type_exprs_to_types(params);
                let r = self.type_expr_to_type(ret);
                MiType::Fn(ps, Box::new(r))
            },
            TypeExpr::Tuple(ts) => MiType::Tuple(self.type_exprs_to_types(ts)),
            TypeExpr::Infer => MiType::Unknown,
        }
    }

    /// The types that a list of type expressions denotes.
    #[verifier::loop_isolation(false)]
    fn type_exprs_to_types(&self, ts: &Vec<TypeExpr>) -> (r: Vec<MiType>)
        ensures
            tys(r@) == te_types(self.types@, ts@),
        decreases ts,
    {
        let mut out: Vec<MiType> = Vec::new();
        let mut i: usize = 0;
        while i < ts.len()
            invariant
                i <= ts@.len(),
                out@.len() == i,
                forall|j: int| 0 <= j < i ==> #[trigger] out@[j].v() == te_type(self.types@, ts@[j]),
            decreases ts@.len() - i,
        {
            proof {
                broadcast use vstd::std_specs::vec::group_vec_axioms;
                assert(decreases_to!(ts => ts@[i as int]));
            }
            let t = self.type_expr_to_type(&ts[i]);
            out.push(t);
            i = i + 1;
        }
        proof {
            lemma_tys(out@);
            lemma_te_types(self.types@, ts@);
            assert(tys(out@) =~= te_types(self.types@, ts@));
        }
        out
    }

    /// The type of an optional annotation: unknown when absent.
    fn opt_type(&self, te: &Option<TypeExpr>) -> (r: MiType)
        ensures
            te matches Some(t) ==> r.v() == te_type(self.types@, *t),
            te is None ==> r.v() == Ty::Unknown,
    {
        match te {
            Some(t) => self.type_expr_to_type(t),
            None => MiType::Unknown,
        }
    }

    /// The name under which the methods of a type are found.
    pub fn type_key(&self, t: &MiType) -> (r: Option<String>)
        ensures
            match type_key(t.v()) {
                Some(k) => r matches Some(s) && s@ == k,
                None => r is None,
            },
    {
        match t {
            MiType::Struct(n, _) => Some(n.clone()),
            MiType::Enum(n, _) => Some(n.clone()),
            MiType::Int => Some(String::from_str("Int")),
            MiType::Float => Some(String::from_str("Float")),
            MiType::Bool => Some(String::from_str("Bool")),
            MiType::Str => Some(String::from_str("Str")),
            MiType::Char => Some(String::from_str("Char")),
            MiType::Array(_) => Some(String::from_str("Array")),
            MiType::Tuple(_) => Some(String::from_str("Tuple")),
            MiType::Nil => Some(String::from_str("Nil")),
            _ => None,
        }
    }

    /// Whether a value of type `a` may stand where `b` is expected.
    #[verifier::loop_isolation(false)]
    pub fn types_compatible(&self, a: &MiType, b: &MiType) -> (r: bool)
        ensures
            r == compat(a.v(), b.v()),
        decreases a,
    {
        if a.same(b) {
            return true;
        }
        if a.is_unknown() || b.is_unknown() {
            return true;
        }
        match (a, b) {
            (MiType::Int, MiType::Float) => true,
            (MiType::Float, MiType::Int) => true,
            (MiType::Array(x), MiType::Array(y)) => self.types_compatible(x, y),
            (MiType::Tuple(xs), MiType::Tuple(ys)) => {
                proof {
                    lemma_tys(xs@);
                    lemma_tys(ys@);
                }
                if xs.len() != ys.len() {
                    return false;
                }
                proof {
                    lemma_compat_all(tys(xs@), tys(ys@));
                }
                let mut i: usize = 0;
                while i < xs.len()
                    invariant
                        i <= xs@.len(),
                        xs@.len() == ys@.len(),
                        tys(xs@).len() == xs@.len(),
                        tys(ys@).len() == ys@.len(),
                        forall|j: int| 0 <= j < xs@.len() ==> #[trigger] tys(xs@)[j] == xs@[j].v(),
                        forall|j: int| 0 <= j < ys@.len() ==> #[trigger] tys(ys@)[j] == ys@[j].v(),
                        forall|j: int| 0 <= j < i ==> #[trigger] compat(tys(xs@)[j], tys(ys@)[j]),
                    decreases xs@.len() - i,
                {
                    proof {
                        broadcast use vstd::std_specs::vec::group_vec_axioms;
                        assert(decreases_to!(a => xs@[i as int]));
                    }
                    if !self.types_compatible(&xs[i], &ys[i]) {
                        assert(!compat(tys(xs@)[i as int], tys(ys@)[i as int]));
                        return false;
                    }
                    i = i + 1;
                }
                true
            },
            (MiType::Struct(n, _), MiType::Struct(m, _)) => *n == *m,
            (MiType::Enum(n, _), MiType::Enum(m, _)) => *n == *m,
            _ => false,
        }
    }

    /// The message, with ` at line:col` appended unless the position is 0:0.
    pub fn err(&self, msg: &str, line: usize, col: usize) -> (r: String)
        ensures
            r@ == located(msg@, line as int, col as int),
    {
        if line == 0 && col == 0 {
            String::from_str(msg)
        } else {
            let mut out = String::from_str(msg);
            push_str(&mut out, " at ");
            push_usize(&mut out, line);
            push_char(&mut out, ':');
            push_usize(&mut out, col);
            assert(out@ =~= located(msg@, line as int, col as int));
            out
        }
    }
}

} // verus!

verus! {

impl TypeChecker {
    /// Opens a scope.
    fn push_scope(&mut self)
        requires
            old(self).wf(),
        ensures
            old(self).kept(final(self)),
            final(self).depth() == old(self).depth() + 1,
            final(self).errs() == old(self).errs(),
    {
        self.locals.push(Vec::new());
    }

    /// Closes the innermost scope (the outermost one stays).
    fn pop_scope(&mut self)
        requires
            old(self).wf(),
        ensures
            old(self).kept(final(self)),
            old(self).depth() > 1 ==> final(self).depth() == old(self).depth() - 1,
            final(self).errs() == old(self).errs(),
    {
        if self.locals.len() > 1 {
            self.locals.pop();
        }
    }

    /// Defines a variable in the innermost scope.
    fn define(&mut self, name: String, t: MiType, mutable: bool)
        requires
            old(self).wf(),
        ensures
            old(self).kept(final(self)),
            final(self).depth() == old(self).depth(),
            final(self).errs() == old(self).errs(),
            final(self).resolve(name@) == Some(t.v()),
    {
        let ghost k = name@;
        let ghost tv = t.v();
        let mut top = self.locals.pop().unwrap();
        insert_var(&mut top, name, t, mutable);
        self.locals.push(top);
        assert(self.locals@.last() == top);
        assert(scopes_lookup(self.locals@, k) == Some((tv, mutable)));
    }

    /// Records an error that does not stop checking.
    fn record(&mut self, e: String)
        requires
            old(self).wf(),
        ensures
            old(self).kept(final(self)),
            final(self).depth() == old(self).depth(),
            final(self).errs() == old(self).errs().push(e@),
    {
        self.errors.push(e);
        assert(self.errs() =~= old(self).errs().push(e@));
    }

    /// What a name resolves to: the innermost local, else a global, else a function.
    #[verifier::loop_isolation(false)]
    fn lookup_name(&self, name: &String) -> (r: Option<MiType>)
        ensures
            match self.resolve(name@) {
                Some(t) => r matches Some(x) && x.v() == t,
                None => r is None,
            },
    {
        let mut i = self.locals.len();
        assert(self.locals@.take(i as int) =~= self.locals@);
        while i > 0
            invariant
                i <= self.locals@.len(),
                scopes_lookup(self.locals@, name@) == scopes_lookup(self.locals@.take(i as int), name@),
            decreases i,
        {
            let ghost pre = self.locals@.take(i as int);
            assert(pre.last() == self.locals@[i - 1]);
            assert(pre.drop_last() =~= self.locals@.take(i - 1));
            match find_var(&self.locals[i - 1], name) {
                Some(j) => {
                    return Some(self.locals[i - 1][j].1.copy());
                },
                None => {},
            }
            i = i - 1;
        }
        match find_var(&self.globals, name) {
            Some(j) => Some(self.globals[j].1.copy()),
            None => match find_named(&self.functions, name) {
                Some(j) => Some(self.functions[j].1.copy()),
                None => None,
            },
        }
    }

    /// Whether the variable `name` may be assigned: the innermost local of that
    /// name, else the global, must be mutable; otherwise the error says which
    /// (immutable variable, immutable global, or undefined).
    #[verifier::loop_isolation(false)]
    fn check_assignable(&self, name: &String, line: usize, col: usize) -> (r: Result<(), String>)
        ensures
            match scopes_lookup(self.locals@, name@) {
                Some((_, m)) => if m {
                    r is Ok
                } else {
                    r matches Err(e) && e@ == located("cannot assign to immutable variable '"@ + name@ + "'"@, line as int, col as int)
                },
                None => match lookup_var(vars_v(self.globals@), name@) {
                    Some((_, m)) => if m {
                        r is Ok
                    } else {
                        r matches Err(e) && e@ == located("cannot assign to immutable global '"@ + name@ + "'"@, line as int, col as int)
                    },
                    None => r matches Err(e) && e@ == located("undefined variable '"@ + name@ + "' in assignment"@, line as int, col as int),
                },
            },
    {
        let mut i = self.locals.len();
        assert(self.locals@.take(i as int) =~= self.locals@);
        while i > 0
            invariant
                i <= self.locals@.len(),
                scopes_lookup(self.locals@, name@) == scopes_lookup(self.locals@.take(i as int), name@),
            decreases i,
        {
            let ghost t = self.locals@.take(i as int);
            assert(t.last() == self.locals@[i - 1]);
            assert(t.drop_last() =~= self.locals@.take(i - 1));
            match find_var(&self.locals[i - 1], name) {
                Some(j) => {
                    if !self.locals[i - 1][j].2 {
                        let mut m = String::from_str("cannot assign to immutable variable '");
                        push_str(&mut m, name.as_str());
                        push_str(&mut m, "'");
                        assert(m@ =~= "cannot assign to immutable variable '"@ + name@ + "'"@);
                        return Err(self.err(m.as_str(), line, col));
                    }
                    return Ok(());
                },
                None => {},
            }
            i = i - 1;
        }
        match find_var(&self.globals, name) {
            Some(j) => {
                if !self.globals[j].2 {
                    let mut m = String::from_str("cannot assign to immutable global '");
                    push_str(&mut m, name.as_str());
                    push_str(&mut m, "'");
                    assert(m@ =~= "cannot assign to immutable global '"@ + name@ + "'"@);
                    Err(self.err(m.as_str(), line, col))
                } else {
                    Ok(())
                }
            },
            None => {
                let mut m = String::from_str("undefined variable '");
                push_str(&mut m, name.as_str());
                push_str(&mut m, "' in assignment");
                assert(m@ =~= "undefined variable '"@ + name@ + "' in assignment"@);
                Err(self.err(m.as_str(), line, col))
            },
        }
    }

    /// The index of the method table of a type.
    #[verifier::loop_isolation(false)]
    fn find_methods(&self, tn: &String) -> (r: Option<usize>)
        ensures
            r matches Some(i) ==> i < self.methods@.len() && self.methods@[i as int].0@ == tn@
                && forall|j: int| 0 <= j < i ==> self.methods@[j].0@ != tn@,
            r is None ==> !self.has_methods(tn@),
    {
        let mut i: usize = 0;
        while i < self.methods.len()
            invariant
                i <= self.methods@.len(),
                forall|j: int| 0 <= j < i ==> self.methods@[j].0@ != tn@,
            decreases self.methods@.len() - i,
        {
            if self.methods[i].0 == *tn {
                return Some(i);
            }
            i = i + 1;
        }
        None
    }

    /// Sets the method table of a type.
    fn insert_methods(&mut self, tn: String, sigs: Vec<(String, MiType)>)
        requires
            old(self).wf(),
        ensures
            final(self).wf(),
            final(self).depth() == old(self).depth(),
            final(self).errs() == old(self).errs(),
            final(self).types == old(self).types,
            final(self).functions == old(self).functions,
            final(self).globals == old(self).globals,
    {
        match self.find_methods(&tn) {
            Some(i) => {
                self.methods.set(i, (tn, sigs));
            },
            None => {
                self.methods.push((tn, sigs));
            },
        }
    }

    /// The types of the annotated parameters (unknown where not annotated).
    #[verifier::loop_isolation(false)]
    fn param_types(&self, params: &Vec<FnParam>) -> (r: Vec<MiType>)
        ensures
            r@.len() == params@.len(),
    {
        let mut out: Vec<MiType> = Vec::new();
        let mut i: usize = 0;
        while i < params.len()
            invariant
                i <= params@.len(),
                out@.len() == i,
            decreases params@.len() - i,
        {
            let t = self.opt_type(&params[i].type_expr);
            out.push(t);
            i = i + 1;
        }
        out
    }

    /// The fields of a variant with their types.
    #[verifier::loop_isolation(false)]
    fn field_types(&self, v: &TypeVariant) -> (r: Vec<(String, MiType)>)
        ensures
            r@.len() == v.fields@.len(),
    {
        let mut out: Vec<(String, MiType)> = Vec::new();
        let mut i: usize = 0;
        while i < v.fields.len()
            invariant
                i <= v.fields@.len(),
                out@.len() == i,
            decreases v.fields@.len() - i,
        {
            let t = self.type_expr_to_type(&v.fields[i].type_expr);
            out.push((v.fields[i].name.clone(), t));
            i = i + 1;
        }
        out
    }

    /// Records the signature of a function, extern, type or impl block.
    #[verifier::loop_isolation(false)]
    fn collect_signature(&mut self, stmt: &Stmt)
        requires
            old(self).wf(),
        ensures
            final(self).wf(),
            final(self).depth() == old(self).depth(),
            final(self).errs() == old(self).errs(),
            final(self).globals == old(self).globals,
            stmt matches Stmt::Fn { name, params, return_type, .. } ==>
                lookup_ty(final(self).functions@, name@) is Some,
            stmt matches Stmt::Extern { name, params, return_type } ==>
                lookup_ty(final(self).functions@, name@) is Some,
            stmt matches Stmt::Type { name, .. } ==> lookup_ty(final(self).types@, name@) is Some,
            stmt is Expr ==> *final(self) == *old(self),
    {
        match stmt {
            Stmt::Fn { name, params, return_type, .. } => {
                let ps = self.param_types(params);
                let ret = self.opt_type(return_type);
                insert_named(&mut self.functions, name.clone(), MiType::Fn(ps, Box::new(ret)));
            },
            Stmt::Extern { name, params, return_type } => {
                let ps = self.param_types(params);
                let ret = self.opt_type(return_type);
                insert_named(&mut self.functions, name.clone(), MiType::Fn(ps, Box::new(ret)));
            },
            Stmt::Type { name, variants, .. } => {
                if variants.len() == 1 && variants[0].name == *name {
                    let fields = self.field_types(&variants[0]);
                    let t = MiType::Struct(name.clone(), fields);
                    insert_named(&mut self.types, name.clone(), t);
                } else {
                    let mut vs: Vec<(String, Vec<(String, MiType)>)> = Vec::new();
                    let mut i: usize = 0;
                    while i < variants.len()
                        invariant
                            i <= variants@.len(),
                        decreases variants@.len() - i,
                    {
                        let fs = self.field_types(&variants[i]);
                        vs.push((variants[i].name.clone(), fs));
                        i = i + 1;
                    }
                    let t = MiType::Enum(name.clone(), vs);
                    insert_named(&mut self.types, name.clone(), t);
                }
            },
            Stmt::Impl { for_type, methods } => {
                let mut sigs: Vec<(String, MiType)> = Vec::new();
                let mut i: usize = 0;
                while i < methods.len()
                    invariant
                        i <= methods@.len(),
                    decreases methods@.len() - i,
                {
                    match &methods[i] {
                        Stmt::Fn { name, params, return_type, .. } => {
                            let ps = self.param_types(params);
                            let ret = self.opt_type(return_type);
                            insert_named(&mut sigs, name.clone(), MiType::Fn(ps, Box::new(ret)));
                        },
                        _ => {},
                    }
                    i = i + 1;
                }
                self.insert_methods(for_type.clone(), sigs);
            },
            _ => {},
        }
    }

    /// Checks a whole program: first every signature is collected, then every
    /// statement is checked. The first hard error stops checking; otherwise the
    /// recorded errors, joined by newlines, make the result an error. For a
    /// program of expression statements that `simple_ty` covers, the result is
    /// that of `simple_stmts`.
    #[verifier::loop_isolation(false)]
    pub fn check_program(&mut self, program: &Program) -> (r: Result<(), String>)
        requires
            old(self).wf(),
        ensures
            final(self).wf(),
            r is Ok ==> final(self).errs().len() == 0,
            old(self).errs().len() > 0 ==> r is Err,
            all_exprs(program.stmts@) ==> (simple_stmts(*old(self), program.stmts@) matches Some(res) ==> match res {
                Ok(_) => (r is Ok <==> old(self).errs().len() == 0),
                Err(m) => r matches Err(e) && e@ == m,
            }),
    {
        let ghost target = simple_stmts(*old(self), program.stmts@);
        let ghost plain = all_exprs(program.stmts@);
        let mut i: usize = 0;
        while i < program.stmts.len()
            invariant
                i <= program.stmts@.len(),
                self.wf(),
                self.errs() == old(self).errs(),
                plain == all_exprs(program.stmts@),
                plain ==> *self == *old(self),
            decreases program.stmts@.len() - i,
        {
            self.collect_signature(&program.stmts[i]);
            i = i + 1;
        }
        let ghost mid = *self;
        assert(program.stmts@.skip(0) =~= program.stmts@);
        let mut i: usize = 0;
        while i < program.stmts.len()
            invariant
                i <= program.stmts@.len(),
                mid.kept(self),
                mid.errs() == old(self).errs(),
                plain == all_exprs(program.stmts@),
                plain && target is Some ==> *self == *old(self)
                    && simple_stmts(*old(self), program.stmts@.skip(i as int)) == target,
            decreases program.stmts@.len() - i,
        {
            proof {
                if plain && target is Some {
                    assert(program.stmts@.skip(i as int).drop_first() =~= program.stmts@.skip(i + 1));
                    assert(program.stmts@.skip(i as int)[0] == program.stmts@[i as int]);
                }
            }
            self.check_stmt(&program.stmts[i], 0, 0)?;
            i = i + 1;
        }
        if self.errors.len() > 0 {
            let mut out = String::new();
            let mut j: usize = 0;
            while j < self.errors.len()
                invariant
                    j <= self.errors@.len(),
                decreases self.errors@.len() - j,
            {
                if j > 0 {
                    push_char(&mut out, '\n');
                }
                push_str(&mut out, self.errors[j].as_str());
                j = j + 1;
            }
            Err(out)
        } else {
            Ok(())
        }
    }
}

} // verus!

verus! {

/// Joins the types of the two branches of an `if` statement.
fn join_branches(then_type: MiType, else_type: MiType) -> (r: MiType)
    ensures
        then_type.v() == else_type.v() ==> r.v() == then_type.v(),
        r.v() == then_type.v() || r.v() == else_type.v(),
{
    if then_type.same(&else_type) {
        then_type
    } else if then_type.is_unknown() {
        else_type
    } else if else_type.is_unknown() {
        then_type
    } else if else_type.is_nil() {
        then_type
    } else if then_type.is_nil() {
        else_type
    } else {
        then_type
    }
}

impl TypeChecker {
    /// Checks the statements of a block in a new scope; the type of the last
    /// one (or `Nil`) is the block's type.
    #[verifier::loop_isolation(false)]
    fn check_body(&mut self, stmts: &Vec<Stmt>, line: usize, col: usize) -> (r: Result<MiType, String>)
        requires
            old(self).wf(),
        ensures
            old(self).kept(final(self)),
            r is Ok ==> final(self).depth() == old(self).depth(),
            stmts@.len() == 0 ==> (r matches Ok(t) && t.v() == Ty::Nil),
        decreases stmts, 1nat,
    {
        self.push_scope();
        let mut last_type = MiType::Nil;
        let mut i: usize = 0;
        while i < stmts.len()
            invariant
                i <= stmts@.len(),
                old(self).kept(self),
                self.depth() == old(self).depth() + 1,
                stmts@.len() == 0 ==> last_type.v() == Ty::Nil,
            decreases stmts@.len() - i,
        {
            proof {
                broadcast use vstd::std_specs::vec::group_vec_axioms;
                assert(decreases_to!(stmts => stmts@[i as int]));
            }
            last_type = self.check_stmt(&stmts[i], line, col)?;
            i = i + 1;
        }
        self.pop_scope();
        Ok(last_type)
    }

    /// Checks a statement and gives its type (`Nil` for most statements). A
    /// `let` defines its name in the innermost scope; conditions must fit `Bool`;
    /// a function's default values and body are checked against its annotations.
    #[verifier::loop_isolation(false)]
    fn check_stmt(&mut self, stmt: &Stmt, line: usize, col: usize) -> (r: Result<MiType, String>)
        requires
            old(self).wf(),
        ensures
            old(self).kept(final(self)),
            r is Ok ==> final(self).depth() == old(self).depth(),
            (stmt is Continue || stmt is Type || stmt is Trait || stmt is Empty || stmt is Loop
                || stmt is While || stmt is For || stmt is Let || stmt is Fn || stmt is Extern
                || stmt is Impl || stmt is Break) ==> (r matches Ok(t) ==> t.v() == Ty::Nil),
            stmt == Stmt::Return(None) ==> (r matches Ok(t) && t.v() == Ty::Nil),
            *stmt matches Stmt::Let { name, type_expr, value, .. } ==> (simple_ty(*old(self), value, line as int, col as int)
                matches Some(res) ==> match res {
                    Err(m) => r matches Err(e) && e@ == m,
                    Ok(vt) => match type_expr {
                        Some(te) => if compat(vt, te_type(old(self).types_v(), te)) {
                            r is Ok && final(self).resolve(name@) == Some(vt)
                        } else {
                            r matches Err(e) && e@ == located("expected "@ + te_type(old(self).types_v(), te).text()
                                + ", got "@ + vt.text(), line as int, col as int)
                        },
                        None => r is Ok && final(self).resolve(name@) == Some(vt),
                    },
                }),
            *stmt matches Stmt::If(c, _, _) ==> (simple_ty(*old(self), c, line as int, col as int) matches Some(res) ==>
                match res {
                    Err(m) => r matches Err(e) && e@ == m,
                    Ok(t) => !compat(t, Ty::Bool) ==> (r matches Err(e)
                        && e@ == located("if condition must be Bool, got "@ + t.text(), line as int, col as int)),
                }),
            *stmt matches Stmt::While(c, _) ==> (simple_ty(*old(self), c, line as int, col as int) matches Some(res) ==>
                match res {
                    Err(m) => r matches Err(e) && e@ == m,
                    Ok(t) => !compat(t, Ty::Bool) ==> (r matches Err(e)
                        && e@ == located("while condition must be Bool, got "@ + t.text(), line as int, col as int)),
                }),
            *stmt matches Stmt::Return(Some(v)) ==> (simple_ty(*old(self), v, line as int, col as int) matches Some(res) ==> {
                &&& *final(self) == *old(self)
                &&& match res {
                    Ok(t) => r matches Ok(x) && x.v() == t,
                    Err(m) => r matches Err(e) && e@ == m,
                }
            }),
            *stmt matches Stmt::Expr(e) ==> (simple_ty(*old(self), e, line as int, col as int) matches Some(res) ==> {
                &&& *final(self) == *old(self)
                &&& match res {
                    Ok(t) => r matches Ok(x) && x.v() == t,
                    Err(m) => r matches Err(e) && e@ == m,
                }
            }),
        decreases stmt, 0nat,
    {
        broadcast use vstd::std_specs::vec::group_vec_axioms;
        match stmt {
            Stmt::Expr(e) => self.check_expr(e, line, col),
            Stmt::Let { name, mutable, type_expr, value } => {
                let val_type = self.check_expr(value, line, col)?;
                match type_expr {
                    Some(te) => {
                        let ann_type = self.type_expr_to_type(te);
                        if !self.types_compatible(&val_type, &ann_type) {
                            let mut m = String::from_str("expected ");
                            ann_type.write_to(&mut m);
                            push_str(&mut m, ", got ");
                            val_type.write_to(&mut m);
                            return Err(self.err(m.as_str(), line, col));
                        }
                    },
                    None => {},
                }
                self.define(name.clone(), val_type, *mutable);
                Ok(MiType::Nil)
            },
            Stmt::Fn { name, params, return_type, body, .. } => {
                self.push_scope();
                let mut i: usize = 0;
                while i < params.len()
                    invariant
                        i <= params@.len(),
                        old(self).kept(self),
                        self.depth() == old(self).depth() + 1,
                    decreases params@.len() - i,
                {
                    let param = &params[i];
                    let pt = self.opt_type(&param.type_expr);
                    self.define(param.name.clone(), pt.copy(), false);
                    match &param.default {
                        Some(default) => {
                            proof {
                                assert(decreases_to!(*stmt => *params));
                                assert(decreases_to!(*params => params@[i as int]));
                                assert(decreases_to!(params@[i as int] => params@[i as int].default));
                            }
                            let dt = self.check_expr(default, line, col)?;
                            if !self.types_compatible(&dt, &pt) {
                                let mut m = String::from_str("parameter '");
                                push_str(&mut m, param.name.as_str());
                                push_str(&mut m, "': default value type ");
                                dt.write_to(&mut m);
                                push_str(&mut m, " does not match declared type ");
                                pt.write_to(&mut m);
                                let e = self.err(m.as_str(), line, col);
                                self.record(e);
                            }
                        },
                        None => {},
                    }
                    i = i + 1;
                }
                let body_type = self.check_expr(body, line, col)?;
                match return_type {
                    Some(rt) => {
                        let ret_type = self.type_expr_to_type(rt);
                        if !self.types_compatible(&body_type, &ret_type) {
                            let mut m = String::from_str("function '");
                            push_str(&mut m, name.as_str());
                            push_str(&mut m, "': expected return type ");
                            ret_type.write_to(&mut m);
                            push_str(&mut m, ", got body type ");
                            body_type.write_to(&mut m);
                            let e = self.err(m.as_str(), line, col);
                            self.record(e);
                        }
                    },
                    None => {},
                }
                self.pop_scope();
                Ok(MiType::Nil)
            },
            Stmt::Extern { .. } => Ok(MiType::Nil),
            Stmt::Return(opt) => match opt {
                Some(e) => self.check_expr(e, line, col),
                None => Ok(MiType::Nil),
            },
            Stmt::If(cond, then, else_opt) => {
                let cond_type = self.check_expr(cond, line, col)?;
                if !self.types_compatible(&cond_type, &MiType::Bool) {
                    let mut m = String::from_str("if condition must be Bool, got ");
                    cond_type.write_to(&mut m);
                    return Err(self.err(m.as_str(), line, col));
                }
                let then_type = self.check_body(then, line, col)?;
                let else_type = match else_opt {
                    Some(else_stmts) => {
                        proof {
                            assert(decreases_to!(*stmt => *else_opt));
                        }
                        self.check_body(else_stmts, line, col)?
                    },
                    None => MiType::Nil,
                };
                Ok(join_branches(then_type, else_type))
            },
            Stmt::While(cond, body) => {
                let cond_type = self.check_expr(cond, line, col)?;
                if !self.types_compatible(&cond_type, &MiType::Bool) {
                    let mut m = String::from_str("while condition must be Bool, got ");
                    cond_type.write_to(&mut m);
                    return Err(self.err(m.as_str(), line, col));
                }
                self.check_body(body, line, col)?;
                Ok(MiType::Nil)
            },
            Stmt::For(name, iter, body) => {
                let iter_type = self.check_expr(iter, line, col)?;
                let elem_type = match &iter_type {
                    MiType::Array(elem) => elem.copy(),
                    MiType::Str => MiType::Char,
                    MiType::Tuple(ts) => {
                        if ts.len() > 0 {
                            ts[0].copy()
                        } else {
                            let mut m = String::from_str("cannot iterate over type ");
                            iter_type.write_to(&mut m);
                            return Err(self.err(m.as_str(), line, col));
                        }
                    },
                    MiType::Unknown => MiType::Unknown,
                    _ => {
                        let mut m = String::from_str("cannot iterate over type ");
                        iter_type.write_to(&mut m);
                        return Err(self.err(m.as_str(), line, col));
                    },
                };
                self.push_scope();
                self.define(name.clone(), elem_type, false);
                let mut i: usize = 0;
                while i < body.len()
                    invariant
                        i <= body@.len(),
                        old(self).kept(self),
                        self.depth() == old(self).depth() + 1,
                    decreases body@.len() - i,
                {
                    proof {
                        assert(decreases_to!(*stmt => *body));
                        assert(decreases_to!(*body => body@[i as int]));
                    }
                    self.check_stmt(&body[i], line, col)?;
                    i = i + 1;
                }
                self.pop_scope();
                Ok(MiType::Nil)
            },
            Stmt::Loop(body) => {
                self.check_body(body, line, col)?;
                Ok(MiType::Nil)
            },
            Stmt::Break(v) => {
                match v {
                    Some(e) => {
                        self.check_expr(e, line, col)?;
                    },
                    None => {},
                }
                Ok(MiType::Nil)
            },
            Stmt::Continue => Ok(MiType::Nil),
            Stmt::Type { .. } => Ok(MiType::Nil),
            Stmt::Impl { methods, .. } => {
                let mut i: usize = 0;
                while i < methods.len()
                    invariant
                        i <= methods@.len(),
                        old(self).kept(self),
                        self.depth() == old(self).depth(),
                    decreases methods@.len() - i,
                {
                    if matches!(methods[i], Stmt::Fn { .. }) {
                        proof {
                            assert(decreases_to!(*stmt => *methods));
                            assert(decreases_to!(*methods => methods@[i as int]));
                        }
                        self.check_stmt(&methods[i], line, col)?;
                    }
                    i = i + 1;
                }
                Ok(MiType::Nil)
            },
            Stmt::Trait { .. } => Ok(MiType::Nil),
            Stmt::Empty => Ok(MiType::Nil),
        }
    }
}

} // verus!

verus! {

/// The index of the field named `n`.
#[verifier::loop_isolation(false)]
fn find_field(fs: &Vec<(String, MiType)>, n: &String) -> (r: Option<usize>)
    ensures
        r matches Some(i) ==> i < fs@.len() && fs@[i as int].0@ == n@ && forall|j: int| 0 <= j < i ==> fs@[j].0@ != n@,
        r is None <==> forall|j: int| 0 <= j < fs@.len() ==> fs@[j].0@ != n@,
{
    let mut i: usize = 0;
    while i < fs.len()
        invariant
            i <= fs@.len(),
            forall|j: int| 0 <= j < i ==> fs@[j].0@ != n@,
        decreases fs@.len() - i,
    {
        if fs[i].0 == *n {
            return Some(i);
        }
        i = i + 1;
    }
    None
}

impl TypeChecker {
    /// Whether a literal pattern of type `lit` fits `expected`; the error names the pattern kind.
    fn check_literal_pattern(&self, lit: MiType, kind: &str, expected: &MiType, line: usize, col: usize) -> (r: Result<(), String>)
        ensures
            r is Ok <==> compat(lit.v(), expected.v()),
    {
        if !self.types_compatible(&lit, expected) {
            let mut m = String::from_str("expected ");
            push_str(&mut m, kind);
            push_str(&mut m, " pattern, matching ");
            expected.write_to(&mut m);
            Err(self.err(m.as_str(), line, col))
        } else {
            Ok(())
        }
    }

    /// Checks that a pattern can match a value of type `expected`.
    #[verifier::loop_isolation(false)]
    fn check_pattern(&self, pattern: &Pattern, expected: &MiType, line: usize, col: usize) -> (r: Result<(), String>)
        ensures
            pattern is Wild || pattern is Ident ==> r is Ok,
            pattern is Int ==> (r is Ok <==> compat(Ty::Int, expected.v())),
            pattern is Float ==> (r is Ok <==> compat(Ty::Float, expected.v())),
            pattern is Bool ==> (r is Ok <==> compat(Ty::Bool, expected.v())),
            pattern is Str ==> (r is Ok <==> compat(Ty::Str, expected.v())),
            pattern is Char ==> (r is Ok <==> compat(Ty::Char, expected.v())),
        decreases pattern,
    {
        broadcast use vstd::std_specs::vec::group_vec_axioms;
        match pattern {
            Pattern::Wild => Ok(()),
            Pattern::Int(_) => self.check_literal_pattern(MiType::Int, "Int", expected, line, col),
            Pattern::Float(_) => self.check_literal_pattern(MiType::Float, "Float", expected, line, col),
            Pattern::Bool(_) => self.check_literal_pattern(MiType::Bool, "Bool", expected, line, col),
            Pattern::Str(_) => self.check_literal_pattern(MiType::Str, "Str", expected, line, col),
            Pattern::Char(_) => self.check_literal_pattern(MiType::Char, "Char", expected, line, col),
            Pattern::Ident(_) => Ok(()),
            Pattern::Binding(_, pat) => self.check_pattern(pat, expected, line, col),
            Pattern::Tuple(pats) => match expected {
                MiType::Tuple(ts) => {
                    if ts.len() == pats.len() {
                        let mut i: usize = 0;
                        while i < pats.len()
                            invariant
                                i <= pats@.len(),
                                ts@.len() == pats@.len(),
                            decreases pats@.len() - i,
                        {
                            proof {
                                assert(decreases_to!(*pattern => *pats));
                                assert(decreases_to!(*pats => pats@[i as int]));
                            }
                            self.check_pattern(&pats[i], &ts[i], line, col)?;
                            i = i + 1;
                        }
                        Ok(())
                    } else {
                        let mut m = String::from_str("expected tuple pattern with ");
                        push_usize(&mut m, pats.len());
                        push_str(&mut m, " fields, got ");
                        expected.write_to(&mut m);
                        Err(self.err(m.as_str(), line, col))
                    }
                },
                MiType::Unknown => Ok(()),
                _ => {
                    let mut m = String::from_str("expected tuple pattern with ");
                    push_usize(&mut m, pats.len());
                    push_str(&mut m, " fields, got ");
                    expected.write_to(&mut m);
                    Err(self.err(m.as_str(), line, col))
                },
            },
            Pattern::Struct(name, fields) => {
                let ok_struct = match expected {
                    MiType::Struct(sname, _) => *sname == *name,
                    _ => false,
                };
                if ok_struct {
                    match expected {
                        MiType::Struct(_, def_fields) => {
                            let mut i: usize = 0;
                            while i < fields.len()
                                invariant
                                    i <= fields@.len(),
                                decreases fields@.len() - i,
                            {
                                match find_field(def_fields, &fields[i].0) {
                                    Some(j) => {
                                        proof {
                                            assert(decreases_to!(*pattern => *fields));
                                            assert(decreases_to!(*fields => fields@[i as int]));
                                            assert(decreases_to!(fields@[i as int] => fields@[i as int].1));
                                        }
                                        self.check_pattern(&fields[i].1, &def_fields[j].1, line, col)?;
                                    },
                                    None => {
                                        let mut m = String::from_str("struct '");
                                        push_str(&mut m, name.as_str());
                                        push_str(&mut m, "' has no field '");
                                        push_str(&mut m, fields[i].0.as_str());
                                        push_str(&mut m, "'");
                                        return Err(self.err(m.as_str(), line, col));
                                    },
                                }
                                i = i + 1;
                            }
                            Ok(())
                        },
                        _ => Ok(()),
                    }
                } else if expected.is_unknown() {
                    Ok(())
                } else {
                    let mut m = String::from_str("expected struct '");
                    push_str(&mut m, name.as_str());
                    push_str(&mut m, "', got ");
                    expected.write_to(&mut m);
                    Err(self.err(m.as_str(), line, col))
                }
            },
            Pattern::Or(p1, p2) => {
                self.check_pattern(p1, expected, line, col)?;
                self.check_pattern(p2, expected, line, col)?;
                Ok(())
            },
            Pattern::Range(p1, p2) => {
                self.check_pattern(p1, expected, line, col)?;
                self.check_pattern(p2, expected, line, col)?;
                Ok(())
            },
        }
    }

    /// Defines the names that a pattern binds, with the types of the parts they match.
    #[verifier::loop_isolation(false)]
    fn bind_pattern(&mut self, pattern: &Pattern, matched_type: &MiType)
        requires
            old(self).wf(),
        ensures
            old(self).kept(final(self)),
            final(self).depth() == old(self).depth(),
            final(self).errs() == old(self).errs(),
        decreases pattern,
    {
        broadcast use vstd::std_specs::vec::group_vec_axioms;
        match pattern {
            Pattern::Ident(name) => {
                self.define(name.clone(), matched_type.copy(), false);
            },
            Pattern::Binding(name, pat) => {
                self.define(name.clone(), matched_type.copy(), false);
                self.bind_pattern(pat, matched_type);
            },
            Pattern::Tuple(pats) => match matched_type {
                MiType::Tuple(ts) => {
                    let mut i: usize = 0;
                    while i < pats.len() && i < ts.len()
                        invariant
                            i <= pats@.len(),
                            old(self).kept(self),
                            self.depth() == old(self).depth(),
                            self.errs() == old(self).errs(),
                        decreases pats@.len() - i,
                    {
                        proof {
                            assert(decreases_to!(*pattern => *pats));
                            assert(decreases_to!(*pats => pats@[i as int]));
                        }
                        self.bind_pattern(&pats[i], &ts[i]);
                        i = i + 1;
                    }
                },
                _ => {},
            },
            Pattern::Struct(_, fields) => match matched_type {
                MiType::Struct(_, def_fields) => {
                    let mut i: usize = 0;
                    while i < fields.len()
                        invariant
                            i <= fields@.len(),
                            old(self).kept(self),
                            self.depth() == old(self).depth(),
                            self.errs() == old(self).errs(),
                        decreases fields@.len() - i,
                    {
                        match find_field(def_fields, &fields[i].0) {
                            Some(j) => {
                                proof {
                                    assert(decreases_to!(*pattern => *fields));
                                    assert(decreases_to!(*fields => fields@[i as int]));
                                    assert(decreases_to!(fields@[i as int] => fields@[i as int].1));
                                }
                                self.bind_pattern(&fields[i].1, &def_fields[j].1);
                            },
                            None => {},
                        }
                        i = i + 1;
                    }
                },
                _ => {},
            },
            Pattern::Or(p1, p2) => {
                self.bind_pattern(p1, matched_type);
                self.bind_pattern(p2, matched_type);
            },
            _ => {},
        }
    }
}

} // verus!

verus! {

impl TypeChecker {
    /// Checks each expression and gives their types.
    #[verifier::loop_isolation(false)]
    fn check_exprs(&mut self, es: &Vec<Expr>, line: usize, col: usize) -> (r: Result<Vec<MiType>, String>)
        requires
            old(self).wf(),
        ensures
            old(self).kept(final(self)),
            r is Ok ==> final(self).depth() == old(self).depth(),
            r matches Ok(v) ==> v@.len() == es@.len(),
        decreases es, 1nat,
    {
        let mut out: Vec<MiType> = Vec::new();
        let mut i: usize = 0;
        while i < es.len()
            invariant
                i <= es@.len(),
                out@.len() == i,
                old(self).kept(self),
                self.depth() == old(self).depth(),
            decreases es@.len() - i,
        {
            proof {
                broadcast use vstd::std_specs::vec::group_vec_axioms;
                assert(decreases_to!(es => es@[i as int]));
            }
            let t = self.check_expr(&es[i], line, col)?;
            out.push(t);
            i = i + 1;
        }
        Ok(out)
    }

    /// Checks arguments against parameter types, pairwise up to the shorter list;
    /// the first mismatch is reported with its position counted from one.
    #[verifier::loop_isolation(false)]
    fn check_args(&self, params: &Vec<MiType>, args: &Vec<MiType>, what: &str, line: usize, col: usize) -> (r: Result<(), String>)
        ensures
            r is Ok <==> forall|i: int| 0 <= i < params@.len() && i < args@.len()
                ==> compat(#[trigger] args@[i].v(), params@[i].v()),
            r matches Err(e) ==> exists|i: int| 0 <= i < params@.len() && i < args@.len()
                && !compat(#[trigger] args@[i].v(), params@[i].v())
                && (forall|j: int| 0 <= j < i ==> compat(#[trigger] args@[j].v(), params@[j].v()))
                && e@ == located(what@ + nat_text((i + 1) as nat) + ": expected "@ + params@[i].v().text() + ", got "@
                    + args@[i].v().text(), line as int, col as int),
    {
        let mut i: usize = 0;
        while i < params.len() && i < args.len()
            invariant
                i <= params@.len(),
                i <= args@.len(),
                forall|j: int| 0 <= j < i ==> compat(#[trigger] args@[j].v(), params@[j].v()),
            decreases params@.len() - i,
        {
            if !self.types_compatible(&args[i], &params[i]) {
                let mut m = String::from_str(what);
                push_usize(&mut m, i + 1);
                push_str(&mut m, ": expected ");
                params[i].write_to(&mut m);
                push_str(&mut m, ", got ");
                args[i].write_to(&mut m);
                assert(m@ =~= what@ + nat_text((i + 1) as nat) + ": expected "@ + params@[i as int].v().text() + ", got "@
                    + args@[i as int].v().text());
                return Err(self.err(m.as_str(), line, col));
            }
            i = i + 1;
        }
        Ok(())
    }

    /// Checks a call of a value of type `callee_type` with arguments of types
    /// `arg_types`. A function needs as many arguments as parameters (`range`
    /// takes one or two), each compatible with its parameter, and gives its
    /// return type; a struct or enum name builds a value of that type (an enum
    /// variant's fields are checked); anything else cannot be called.
    #[verifier::loop_isolation(false)]
    fn check_call(&self, callee: &Expr, callee_type: MiType, arg_types: &Vec<MiType>, line: usize, col: usize) -> (r: Result<MiType, String>)
        ensures
            callee_type matches MiType::Fn(ps, ret) ==> {
                let is_range = callee matches Expr::Ident(n) && n@ == "range"@;
                let counts_ok = if is_range { 1 <= arg_types@.len() <= 2 } else { ps@.len() == arg_types@.len() };
                &&& (!is_range && !counts_ok) ==> (r matches Err(e) && e@ == located("expected "@ + nat_text(ps@.len())
                    + " arguments, got "@ + nat_text(arg_types@.len()), line as int, col as int))
                &&& (is_range && !counts_ok) ==> (r matches Err(e) && e@ == located("expected 1 or 2 arguments, got "@
                    + nat_text(arg_types@.len()), line as int, col as int))
                &&& counts_ok ==> (r is Ok <==> forall|i: int| 0 <= i < ps@.len() && i < arg_types@.len()
                    ==> compat(#[trigger] arg_types@[i].v(), ps@[i].v()))
                &&& r matches Ok(t) ==> t.v() == ret.v()
            },
            !(callee_type is Fn) ==> (r matches Ok(t) ==> t.v() == callee_type.v()),
            (!(callee_type is Fn) && !(callee_type is Struct) && !(callee_type is Enum)
                && !(callee matches Expr::Ident(n) && lookup_ty(self.types@, n@) is Some))
                ==> (r matches Err(e) && e@ == located("cannot call non-function type "@ + callee_type.v().text(),
                    line as int, col as int)),
    {
        match callee_type {
            MiType::Fn(param_types, ret_type) => {
                let is_range = match callee {
                    Expr::Ident(n) => eq_str(n, "range"),
                    _ => false,
                };
                if !is_range && param_types.len() != arg_types.len() {
                    let mut m = String::from_str("expected ");
                    push_usize(&mut m, param_types.len());
                    push_str(&mut m, " arguments, got ");
                    push_usize(&mut m, arg_types.len());
                    assert(m@ =~= "expected "@ + nat_text(param_types@.len()) + " arguments, got "@ + nat_text(arg_types@.len()));
                    return Err(self.err(m.as_str(), line, col));
                }
                if is_range && (arg_types.len() < 1 || arg_types.len() > 2) {
                    let mut m = String::from_str("expected 1 or 2 arguments, got ");
                    push_usize(&mut m, arg_types.len());
                    return Err(self.err(m.as_str(), line, col));
                }
                self.check_args(&param_types, arg_types, "argument ", line, col)?;
                Ok(*ret_type)
            },
            _ => {
                let key_name: Option<String> = match &callee_type {
                    MiType::Struct(n, _) => Some(n.clone()),
                    MiType::Enum(n, _) => Some(n.clone()),
                    _ => match callee {
                        Expr::Ident(name) => match find_named(&self.types, name) {
                            Some(_) => Some(name.clone()),
                            None => None,
                        },
                        _ => None,
                    },
                };
                match key_name {
                    Some(tn) => {
                        match find_named(&self.types, &tn) {
                            Some(ti) => match &self.types[ti].1 {
                                MiType::Enum(_, variants) => {
                                    let mut k: usize = 0;
                                    let mut found: Option<usize> = None;
                                    while k < variants.len()
                                        invariant
                                            k <= variants@.len(),
                                            found matches Some(x) ==> x < variants@.len(),
                                        decreases variants@.len() - k,
                                    {
                                        if variants[k].0 == tn {
                                            found = Some(k);
                                            break;
                                        }
                                        k = k + 1;
                                    }
                                    match found {
                                        Some(vi) => {
                                            let fields = &variants[vi].1;
                                            if fields.len() == arg_types.len() {
                                                let mut i: usize = 0;
                                                while i < fields.len()
                                                    invariant
                                                        i <= fields@.len(),
                                                        fields@.len() == arg_types@.len(),
                                                    decreases fields@.len() - i,
                                                {
                                                    if !self.types_compatible(&arg_types[i], &fields[i].1) {
                                                        let mut m = String::from_str("field ");
                                                        push_usize(&mut m, i + 1);
                                                        push_str(&mut m, ": expected ");
                                                        fields[i].1.write_to(&mut m);
                                                        push_str(&mut m, ", got ");
                                                        arg_types[i].write_to(&mut m);
                                                        return Err(self.err(m.as_str(), line, col));
                                                    }
                                                    i = i + 1;
                                                }
                                            }
                                        },
                                        None => {},
                                    }
                                },
                                _ => {},
                            },
                            None => {},
                        }
                        Ok(callee_type)
                    },
                    None => {
                        let mut m = String::from_str("cannot call non-function type ");
                        callee_type.write_to(&mut m);
                        Err(self.err(m.as_str(), line, col))
                    },
                }
            },
        }
    }

    /// Checks a method call on a value of type `obj_type`: a method of its
    /// `impl` block, or the built-in `len` and `is_empty` of strings and arrays.
    #[verifier::loop_isolation(false)]
    fn check_method(&self, obj_type: &MiType, method: &String, arg_types: &Vec<MiType>, line: usize, col: usize) -> (r: Result<MiType, String>)
        ensures
            (match type_key(obj_type.v()) {
                Some(k) => !self.has_methods(k),
                None => true,
            }) ==> {
                let builtin = obj_type is Str || obj_type is Array;
                if builtin && method@ == "len"@ {
                    r matches Ok(t) && t.v() == Ty::Int
                } else if builtin && method@ == "is_empty"@ {
                    r matches Ok(t) && t.v() == Ty::Bool
                } else {
                    r matches Err(e) && e@ == match type_key(obj_type.v()) {
                        Some(k) => located("type '"@ + k + "' has no method '"@ + method@ + "'"@, line as int, col as int),
                        None => located("type "@ + obj_type.v().text() + " has no methods"@, line as int, col as int),
                    }
                }
            },
            type_key(obj_type.v()) matches Some(k) ==> (self.method_ty(k, method@) matches Some(Ty::Fn(ps, ret)) ==> (
                ps.len() >= 1 ==> ({
                    &&& r is Ok <==> (ps.len() - 1 == arg_types@.len() && compat(obj_type.v(), ps[0])
                        && forall|i: int| 0 <= i < arg_types@.len() ==> compat(#[trigger] arg_types@[i].v(), ps[i + 1]))
                    &&& r matches Ok(t) ==> t.v() == *ret
                }))),
    {
        let key_name = self.type_key(obj_type);
        match &key_name {
            Some(tn) => match self.find_methods(tn) {
                Some(mi) => {
                    let table = &self.methods[mi].1;
                    proof {
                        lemma_lookup_sigs_at(self.methods@, tn@, mi as int);
                    }
                    match find_named(table, method) {
                        Some(fi) => match &table[fi].1 {
                            MiType::Fn(param_types, ret_type) => {
                                proof {
                                    lemma_tys(param_types@);
                                }
                                if param_types.len() == 0 {
                                    let mut m = String::from_str("method '");
                                    push_str(&mut m, method.as_str());
                                    push_str(&mut m, "' takes no receiver");
                                    return Err(self.err(m.as_str(), line, col));
                                }
                                let n = param_types.len() - 1;
                                if n != arg_types.len() {
                                    let mut m = String::from_str("method '");
                                    push_str(&mut m, method.as_str());
                                    push_str(&mut m, "': expected ");
                                    push_usize(&mut m, n);
                                    push_str(&mut m, " arguments, got ");
                                    push_usize(&mut m, arg_types.len());
                                    return Err(self.err(m.as_str(), line, col));
                                }
                                if !self.types_compatible(obj_type, &param_types[0]) {
                                    let mut m = String::from_str("method '");
                                    push_str(&mut m, method.as_str());
                                    push_str(&mut m, "': receiver type mismatch, expected ");
                                    param_types[0].write_to(&mut m);
                                    push_str(&mut m, ", got ");
                                    obj_type.write_to(&mut m);
                                    return Err(self.err(m.as_str(), line, col));
                                }
                                let mut i: usize = 0;
                                while i < n
                                    invariant
                                        n == param_types@.len() - 1,
                                        n == arg_types@.len(),
                                        i <= n,
                                        forall|j: int| 0 <= j < i ==> compat(#[trigger] arg_types@[j].v(), param_types@[j + 1].v()),
                                    decreases n - i,
                                {
                                    if !self.types_compatible(&arg_types[i], &param_types[i + 1]) {
                                        let mut m = String::from_str("method '");
                                        push_str(&mut m, method.as_str());
                                        push_str(&mut m, "' argument ");
                                        push_usize(&mut m, i + 1);
                                        push_str(&mut m, ": expected ");
                                        param_types[i + 1].write_to(&mut m);
                                        push_str(&mut m, ", got ");
                                        arg_types[i].write_to(&mut m);
                                        return Err(self.err(m.as_str(), line, col));
                                    }
                                    i = i + 1;
                                }
                                return Ok(ret_type.copy());
                            },
                            _ => {},
                        },
                        None => {},
                    }
                    let mut m = String::from_str("type '");
                    push_str(&mut m, tn.as_str());
                    push_str(&mut m, "' has no method '");
                    push_str(&mut m, method.as_str());
                    push_str(&mut m, "'");
                    return Err(self.err(m.as_str(), line, col));
                },
                None => {
                    proof {
                        assert forall|j: int| 0 <= j < self.methods@.len() implies self.methods@[j].0@ != tn@ by {
                            if self.methods@[j].0@ == tn@ {
                                assert(self.has_methods(tn@));
                            }
                        }
                        lemma_lookup_sigs_none(self.methods@, tn@);
                    }
                },
            },
            None => {},
        }
        let is_str = matches!(obj_type, MiType::Str);
        let is_arr = matches!(obj_type, MiType::Array(_));
        if (is_str || is_arr) && eq_str(method, "len") {
            Ok(MiType::Int)
        } else if (is_str || is_arr) && eq_str(method, "is_empty") {
            Ok(MiType::Bool)
        } else {
            match &key_name {
                Some(tn) => {
                    let mut m = String::from_str("type '");
                    push_str(&mut m, tn.as_str());
                    push_str(&mut m, "' has no method '");
                    push_str(&mut m, method.as_str());
                    push_str(&mut m, "'");
                    Err(self.err(m.as_str(), line, col))
                },
                None => {
                    let mut m = String::from_str("type ");
                    obj_type.write_to(&mut m);
                    push_str(&mut m, " has no methods");
                    Err(self.err(m.as_str(), line, col))
                },
            }
        }
    }

    /// The type of a binary operation on operands of types `l` and `r` (see
    /// `binary_ty`), or the error naming both types (see `binary_err`).
    fn check_binary(&self, op: BinOp, l: &MiType, r: &MiType, line: usize, col: usize) -> (res: Result<MiType, String>)
        ensures
            match binary_ty(op, l.v(), r.v()) {
                Some(t) => res matches Ok(x) && x.v() == t,
                None => res matches Err(e) && e@ == located(binary_err(op, l.v(), r.v()), line as int, col as int),
            },
    {
        let li = matches!(l, MiType::Int);
        let lf = matches!(l, MiType::Float);
        let ri = matches!(r, MiType::Int);
        let rf = matches!(r, MiType::Float);
        let ls = matches!(l, MiType::Str);
        let rs = matches!(r, MiType::Str);
        match op {
            BinOp::Add => {
                if li && ri {
                    Ok(MiType::Int)
                } else if (lf && rf) || (li && rf) || (lf && ri) {
                    Ok(MiType::Float)
                } else if ls && rs {
                    Ok(MiType::Str)
                } else {
                    let mut m = String::from_str("cannot apply + to ");
                    l.write_to(&mut m);
                    push_str(&mut m, " and ");
                    r.write_to(&mut m);
                    Err(self.err(m.as_str(), line, col))
                }
            },
            BinOp::Sub | BinOp::Mul | BinOp::Div | BinOp::Mod => {
                if li && ri {
                    Ok(MiType::Int)
                } else if (lf && rf) || (li && rf) || (lf && ri) {
                    Ok(MiType::Float)
                } else {
                    let mut m = String::from_str("cannot apply arithmetic to ");
                    l.write_to(&mut m);
                    push_str(&mut m, " and ");
                    r.write_to(&mut m);
                    Err(self.err(m.as_str(), line, col))
                }
            },
            BinOp::Eq | BinOp::Neq => {
                if self.types_compatible(l, r) {
                    Ok(MiType::Bool)
                } else {
                    let mut m = String::from_str("cannot compare ");
                    l.write_to(&mut m);
                    push_str(&mut m, " and ");
                    r.write_to(&mut m);
                    Err(self.err(m.as_str(), line, col))
                }
            },
            BinOp::Lt | BinOp::Gt | BinOp::Le | BinOp::Ge => {
                if ((li || lf) && (ri || rf)) || (ls && rs) {
                    Ok(MiType::Bool)
                } else {
                    let mut m = String::from_str("cannot compare ");
                    l.write_to(&mut m);
                    push_str(&mut m, " and ");
                    r.write_to(&mut m);
                    Err(self.err(m.as_str(), line, col))
                }
            },
            BinOp::And | BinOp::Or => {
                if matches!(l, MiType::Bool) && matches!(r, MiType::Bool) {
                    Ok(MiType::Bool)
                } else {
                    let mut m = String::from_str("cannot apply logical operator to ");
                    l.write_to(&mut m);
                    push_str(&mut m, " and ");
                    r.write_to(&mut m);
                    Err(self.err(m.as_str(), line, col))
                }
            },
        }
    }
}

} // verus!

verus! {

impl TypeChecker {
    /// Checks an expression and gives its type.
    #[verifier::loop_isolation(false)]
    fn check_expr(&mut self, expr: &Expr, line: usize, col: usize) -> (r: Result<MiType, String>)
        requires
            old(self).wf(),
        ensures
            old(self).kept(final(self)),
            r is Ok ==> final(self).depth() == old(self).depth(),
            (expr matches Expr::Array(items) && items@.len() == 0) ==> (r matches Ok(t) && t.v() == Ty::Array(Box::new(Ty::Unknown))),
            simple_ty(*old(self), *expr, line as int, col as int) matches Some(res) ==> {
                &&& *final(self) == *old(self)
                &&& match res {
                    Ok(t) => r matches Ok(x) && x.v() == t,
                    Err(m) => r matches Err(e) && e@ == m,
                }
            },
        decreases expr, 1nat,
    {
        broadcast use vstd::std_specs::vec::group_vec_axioms;
        match expr {
            Expr::Int(_) => Ok(MiType::Int),
            Expr::Float(_) => Ok(MiType::Float),
            Expr::Bool(_) => Ok(MiType::Bool),
            Expr::Str(_, _) => Ok(MiType::Str),
            Expr::Char(_) => Ok(MiType::Char),
            Expr::Nil => Ok(MiType::Nil),
            Expr::Ident(name) => {
                match self.lookup_name(name) {
                    Some(t) => Ok(t),
                    None => {
                        let mut m = String::from_str("undefined variable '");
                        push_str(&mut m, name.as_str());
                        push_str(&mut m, "'");
                        Err(self.err(m.as_str(), line, col))
                    },
                }
            },
            Expr::Field(obj, field) => {
                let obj_type = self.check_expr(obj, line, col)?;
                match &obj_type {
                    MiType::Struct(_, fields) => {
                        match find_field(fields, field) {
                            Some(i) => Ok(fields[i].1.copy()),
                            None => {
                                let mut m = String::from_str("struct has no field '");
                                push_str(&mut m, field.as_str());
                                push_str(&mut m, "'");
                                Err(self.err(m.as_str(), line, col))
                            },
                        }
                    },
                    MiType::Tuple(ts) => {
                        let cs = crate::text::chars_of(field.as_str());
                        if cs.len() > 0 && cs[0] == 'f' {
                            match parse_usize(&cs, 1) {
                                Some(idx) => {
                                    if idx < ts.len() {
                                        return Ok(ts[idx].copy());
                                    }
                                },
                                None => {},
                            }
                        }
                        let mut m = String::from_str("tuple has no field '");
                        push_str(&mut m, field.as_str());
                        push_str(&mut m, "'");
                        Err(self.err(m.as_str(), line, col))
                    },
                    _ => {
                        let mut m = String::from_str("cannot access field '");
                        push_str(&mut m, field.as_str());
                        push_str(&mut m, "' on type ");
                        obj_type.write_to(&mut m);
                        Err(self.err(m.as_str(), line, col))
                    },
                }
            },
            Expr::Index(arr, idx) => {
                let arr_type = self.check_expr(arr, line, col)?;
                let idx_type = self.check_expr(idx, line, col)?;
                if !self.types_compatible(&idx_type, &MiType::Int) {
                    let mut m = String::from_str("index must be Int, got ");
                    idx_type.write_to(&mut m);
                    return Err(self.err(m.as_str(), line, col));
                }
                match &arr_type {
                    MiType::Array(elem) => Ok(elem.copy()),
                    MiType::Str => Ok(MiType::Char),
                    MiType::Tuple(ts) => {
                        if ts.len() > 0 {
                            Ok(ts[0].copy())
                        } else {
                            Err(self.err("cannot index empty tuple", line, col))
                        }
                    },
                    _ => {
                        let mut m = String::from_str("cannot index type ");
                        arr_type.write_to(&mut m);
                        Err(self.err(m.as_str(), line, col))
                    },
                }
            },
            Expr::Call(callee, args) => {
                let callee_type = self.check_expr(callee, line, col)?;
                proof {
                    assert(decreases_to!(*expr => *args));
                }
                let arg_types = self.check_exprs(args, line, col)?;
                self.check_call(callee, callee_type, &arg_types, line, col)
            },
            Expr::MethodCall(obj, method, args) => {
                let obj_type = self.check_expr(obj, line, col)?;
                proof {
                    assert(decreases_to!(*expr => *args));
                }
                let arg_types = self.check_exprs(args, line, col)?;
                self.check_method(&obj_type, method, &arg_types, line, col)
            },
            Expr::Unary(op, rhs) => {
                let rhs_type = self.check_expr(rhs, line, col)?;
                match op {
                    UnOp::Neg => match &rhs_type {
                        MiType::Int | MiType::Float => Ok(rhs_type),
                        _ => {
                            let mut m = String::from_str("cannot negate type ");
                            rhs_type.write_to(&mut m);
                            Err(self.err(m.as_str(), line, col))
                        },
                    },
                    UnOp::Not => match &rhs_type {
                        MiType::Bool => Ok(MiType::Bool),
                        _ => {
                            let mut m = String::from_str("cannot apply 'not' to type ");
                            rhs_type.write_to(&mut m);
                            Err(self.err(m.as_str(), line, col))
                        },
                    },
                }
            },
            Expr::Binary(lhs, op, rhs) => {
                let lhs_type = self.check_expr(lhs, line, col)?;
                let rhs_type = self.check_expr(rhs, line, col)?;
                self.check_binary(*op, &lhs_type, &rhs_type, line, col)
            },
            Expr::Assign(target, _op, value) => {
                let val_type = self.check_expr(value, line, col)?;
                let target_type = self.check_expr(target, line, col)?;
                match &**target {
                    Expr::Ident(name) => {
                        self.check_assignable(name, line, col)?;
                    },
                    Expr::Field(_, _) | Expr::Index(_, _) => {},
                    _ => {
                        return Err(self.err("invalid assignment target", line, col));
                    },
                }
                if !self.types_compatible(&val_type, &target_type) {
                    let mut m = String::from_str("cannot assign ");
                    val_type.write_to(&mut m);
                    push_str(&mut m, " to variable of type ");
                    target_type.write_to(&mut m);
                    return Err(self.err(m.as_str(), line, col));
                }
                Ok(val_type)
            },
            Expr::If(cond, then, else_opt) => {
                let cond_type = self.check_expr(cond, line, col)?;
                if !self.types_compatible(&cond_type, &MiType::Bool) {
                    let mut m = String::from_str("if condition must be Bool, got ");
                    cond_type.write_to(&mut m);
                    return Err(self.err(m.as_str(), line, col));
                }
                let then_type = self.check_expr(then, line, col)?;
                match else_opt {
                    Some(el) => {
                        proof {
                            assert(decreases_to!(*expr => *else_opt));
                        }
                        let else_type = self.check_expr(el, line, col)?;
                        if then_type.same(&else_type) {
                            Ok(then_type)
                        } else if then_type.is_unknown() {
                            Ok(else_type)
                        } else if else_type.is_unknown() {
                            Ok(then_type)
                        } else if then_type.is_nil() {
                            Ok(else_type)
                        } else if else_type.is_nil() {
                            Ok(then_type)
                        } else {
                            let mut m = String::from_str("if branches have incompatible types: then=");
                            then_type.write_to(&mut m);
                            push_str(&mut m, ", else=");
                            else_type.write_to(&mut m);
                            Err(self.err(m.as_str(), line, col))
                        }
                    },
                    None => Ok(then_type),
                }
            },
            Expr::Match(scrutinee, arms) => {
                let match_type = self.check_expr(scrutinee, line, col)?;
                let mut i: usize = 0;
                while i < arms.len()
                    invariant
                        i <= arms@.len(),
                        old(self).kept(self),
                        self.depth() == old(self).depth(),
                    decreases arms@.len() - i,
                {
                    self.check_pattern(&arms[i].pattern, &match_type, line, col)?;
                    i = i + 1;
                }
                let mut arm_types: Vec<MiType> = Vec::new();
                let mut i: usize = 0;
                while i < arms.len()
                    invariant
                        i <= arms@.len(),
                        arm_types@.len() == i,
                        old(self).kept(self),
                        self.depth() == old(self).depth(),
                    decreases arms@.len() - i,
                {
                    self.push_scope();
                    self.bind_pattern(&arms[i].pattern, &match_type);
                    proof {
                        assert(decreases_to!(*expr => *arms));
                        assert(decreases_to!(*arms => arms@[i as int]));
                        assert(decreases_to!(arms@[i as int] => arms@[i as int].body));
                    }
                    let body_type = self.check_expr(&arms[i].body, line, col)?;
                    self.pop_scope();
                    arm_types.push(body_type);
                    i = i + 1;
                }
                if arm_types.len() == 0 {
                    Ok(MiType::Nil)
                } else {
                    let mut result = arm_types[0].copy();
                    let mut k: usize = 1;
                    while k < arm_types.len()
                        invariant
                            1 <= k <= arm_types@.len(),
                        decreases arm_types@.len() - k,
                    {
                        let t = &arm_types[k];
                        if !result.same(t) {
                            if result.is_unknown() {
                                result = t.copy();
                            } else if !t.is_unknown() && !t.is_nil() {
                                if result.is_nil() {
                                    result = t.copy();
                                }
                            }
                        }
                        k = k + 1;
                    }
                    Ok(result)
                }
            },
            Expr::Block(stmts) => {
                proof {
                    assert(decreases_to!(*expr => *stmts));
                }
                self.check_body(stmts, line, col)
            },
            Expr::Fn(params, return_type, body) => {
                self.push_scope();
                let mut i: usize = 0;
                while i < params.len()
                    invariant
                        i <= params@.len(),
                        old(self).kept(self),
                        self.depth() == old(self).depth() + 1,
                    decreases params@.len() - i,
                {
                    let pt = self.opt_type(&params[i].type_expr);
                    self.define(params[i].name.clone(), pt, false);
                    i = i + 1;
                }
                let body_type = self.check_expr(body, line, col)?;
                let ret_type = match return_type {
                    Some(t) => self.type_expr_to_type(t),
                    None => body_type.copy(),
                };
                match return_type {
                    Some(rt) => {
                        let declared_ret = self.type_expr_to_type(rt);
                        if !self.types_compatible(&body_type, &declared_ret) {
                            let mut m = String::from_str("anonymous function: expected return type ");
                            declared_ret.write_to(&mut m);
                            push_str(&mut m, ", got ");
                            body_type.write_to(&mut m);
                            let e = self.err(m.as_str(), line, col);
                            self.record(e);
                        }
                    },
                    None => {},
                }
                let param_types = self.param_types(params);
                self.pop_scope();
                Ok(MiType::Fn(param_types, Box::new(ret_type)))
            },
            Expr::Pipe(lhs, rhs) => {
                let lhs_type = self.check_expr(lhs, line, col)?;
                let rhs_type = self.check_expr(rhs, line, col)?;
                match &rhs_type {
                    MiType::Fn(params, ret_type) => {
                        if params.len() != 1 {
                            let mut m = String::from_str("pipe requires single-argument function, got ");
                            push_usize(&mut m, params.len());
                            push_str(&mut m, " parameters");
                            return Err(self.err(m.as_str(), line, col));
                        }
                        if !self.types_compatible(&lhs_type, &params[0]) {
                            let mut m = String::from_str("pipe: expected argument type ");
                            params[0].write_to(&mut m);
                            push_str(&mut m, ", got ");
                            lhs_type.write_to(&mut m);
                            return Err(self.err(m.as_str(), line, col));
                        }
                        Ok(ret_type.copy())
                    },
                    _ => {
                        let mut m = String::from_str("pipe requires function on right side, got ");
                        rhs_type.write_to(&mut m);
                        Err(self.err(m.as_str(), line, col))
                    },
                }
            },
            Expr::Array(items) => {
                if items.len() == 0 {
                    assert(MiType::Unknown.v() == Ty::Unknown);
                    Ok(MiType::Array(Box::new(MiType::Unknown)))
                } else {
                    proof {
                        assert(decreases_to!(*expr => *items));
                    }
                    let elem_types = self.check_exprs(items, line, col)?;
                    let mut unified = elem_types[0].copy();
                    let mut k: usize = 1;
                    while k < elem_types.len()
                        invariant
                            1 <= k <= elem_types@.len(),
                        decreases elem_types@.len() - k,
                    {
                        let t = &elem_types[k];
                        if !t.same(&unified) {
                            if unified.is_unknown() {
                                unified = t.copy();
                            } else if !t.is_unknown() {
                                let mut m = String::from_str("array elements must have the same type, got ");
                                unified.write_to(&mut m);
                                push_str(&mut m, " and ");
                                t.write_to(&mut m);
                                return Err(self.err(m.as_str(), line, col));
                            }
                        }
                        k = k + 1;
                    }
                    Ok(MiType::Array(Box::new(unified)))
                }
            },
            Expr::Tuple(items) => {
                proof {
                    assert(decreases_to!(*expr => *items));
                }
                let types = self.check_exprs(items, line, col)?;
                Ok(MiType::Tuple(types))
            },
            Expr::StructLit(name, fields) => self.check_struct_lit(expr, name, fields, line, col),
            Expr::Import(_, _) => Ok(MiType::Nil),
        }
    }

    /// Checks a struct literal `name { field: value, ... }` against the definition of `name`.
    #[verifier::loop_isolation(false)]
    fn check_struct_lit(&mut self, expr: &Expr, name: &String, fields: &Vec<(String, Expr)>, line: usize, col: usize) -> (r: Result<MiType, String>)
        requires
            old(self).wf(),
            *expr == Expr::StructLit(*name, *fields),
        ensures
            old(self).kept(final(self)),
            r is Ok ==> final(self).depth() == old(self).depth(),
        decreases expr, 0nat,
    {
        broadcast use vstd::std_specs::vec::group_vec_axioms;
        let type_def = match find_named(&self.types, name) {
            Some(i) => Some(self.types[i].1.copy()),
            None => None,
        };
        match type_def {
            Some(MiType::Struct(_, def_fields)) => {
                let mut i: usize = 0;
                while i < def_fields.len()
                    invariant
                        i <= def_fields@.len(),
                        old(self).kept(self),
                        self.depth() == old(self).depth(),
                    decreases def_fields@.len() - i,
                {
                    match find_field_expr(fields, &def_fields[i].0) {
                        Some(j) => {
                            proof {
                                assert(decreases_to!(*expr => expr->StructLit_1));
                                assert(expr->StructLit_1 == *fields);
                                assert(decreases_to!(*fields => fields@[j as int]));
                                assert(decreases_to!(fields@[j as int] => fields@[j as int].1));
                            }
                            let val_type = self.check_expr(&fields[j].1, line, col)?;
                            if !self.types_compatible(&val_type, &def_fields[i].1) {
                                let mut m = String::from_str("field '");
                                push_str(&mut m, def_fields[i].0.as_str());
                                push_str(&mut m, "': expected ");
                                def_fields[i].1.write_to(&mut m);
                                push_str(&mut m, ", got ");
                                val_type.write_to(&mut m);
                                return Err(self.err(m.as_str(), line, col));
                            }
                        },
                        None => {
                            let mut m = String::from_str("missing field '");
                            push_str(&mut m, def_fields[i].0.as_str());
                            push_str(&mut m, "' in struct literal for '");
                            push_str(&mut m, name.as_str());
                            push_str(&mut m, "'");
                            return Err(self.err(m.as_str(), line, col));
                        },
                    }
                    i = i + 1;
                }
                let mut i: usize = 0;
                while i < fields.len()
                    invariant
                        i <= fields@.len(),
                        old(self).kept(self),
                        self.depth() == old(self).depth(),
                    decreases fields@.len() - i,
                {
                    if find_field(&def_fields, &fields[i].0).is_none() {
                        let mut m = String::from_str("struct '");
                        push_str(&mut m, name.as_str());
                        push_str(&mut m, "' has no field '");
                        push_str(&mut m, fields[i].0.as_str());
                        push_str(&mut m, "'");
                        let e = self.err(m.as_str(), line, col);
                        self.record(e);
                    }
                    i = i + 1;
                }
                Ok(MiType::Struct(name.clone(), def_fields))
            },
            Some(MiType::Enum(_, variants)) => {
                if variants.len() == 1 && variants[0].0 == *name {
                    let def_fields = &variants[0].1;
                    let mut i: usize = 0;
                    while i < def_fields.len()
                        invariant
                            i <= def_fields@.len(),
                            old(self).kept(self),
                            self.depth() == old(self).depth(),
                        decreases def_fields@.len() - i,
                    {
                        match find_field_expr(fields, &def_fields[i].0) {
                            Some(j) => {
                                proof {
                                    assert(decreases_to!(*expr => expr->StructLit_1));
                                assert(expr->StructLit_1 == *fields);
                                    assert(decreases_to!(*fields => fields@[j as int]));
                                    assert(decreases_to!(fields@[j as int] => fields@[j as int].1));
                                }
                                let val_type = self.check_expr(&fields[j].1, line, col)?;
                                if !self.types_compatible(&val_type, &def_fields[i].1) {
                                    let mut m = String::from_str("field '");
                                    push_str(&mut m, def_fields[i].0.as_str());
                                    push_str(&mut m, "': expected ");
                                    def_fields[i].1.write_to(&mut m);
                                    push_str(&mut m, ", got ");
                                    val_type.write_to(&mut m);
                                    return Err(self.err(m.as_str(), line, col));
                                }
                            },
                            None => {
                                let mut m = String::from_str("missing field '");
                                push_str(&mut m, def_fields[i].0.as_str());
                                push_str(&mut m, "' in variant '");
                                push_str(&mut m, name.as_str());
                                push_str(&mut m, "'");
                                return Err(self.err(m.as_str(), line, col));
                            },
                        }
                        i = i + 1;
                    }
                    Ok(MiType::Enum(name.clone(), variants))
                } else {
                    let mut m = String::from_str("type '");
                    push_str(&mut m, name.as_str());
                    push_str(&mut m, "' is an enum with multiple variants; use a named variant");
                    Err(self.err(m.as_str(), line, col))
                }
            },
            _ => {
                let mut m = String::from_str("undefined type '");
                push_str(&mut m, name.as_str());
                push_str(&mut m, "'");
                Err(self.err(m.as_str(), line, col))
            },
        }
    }
}

/// The index of the field named `n` in a struct literal.
#[verifier::loop_isolation(false)]
fn find_field_expr(fs: &Vec<(String, Expr)>, n: &String) -> (r: Option<usize>)
    ensures
        r matches Some(i) ==> i < fs@.len() && fs@[i as int].0@ == n@ && forall|j: int| 0 <= j < i ==> fs@[j].0@ != n@,
        r is None <==> forall|j: int| 0 <= j < fs@.len() ==> fs@[j].0@ != n@,
{
    let mut i: usize = 0;
    while i < fs.len()
        invariant
            i <= fs@.len(),
            forall|j: int| 0 <= j < i ==> fs@[j].0@ != n@,
        decreases fs@.len() - i,
    {
        if fs[i].0 == *n {
            return Some(i);
        }
        i = i + 1;
    }
    None
}

} // verus!
