use vstd::prelude::*;
use crate::ast::{TypeExpr, Expr, Stmt, Pattern, FnParam, BinOp, UnOp, AssignOp, Program, MatchArm, TypeField};
use crate::text::{push_str, push_char, push_i64, push_u64, push_usize, eq_str, chars_of, nat_text, int_text};
use crate::lexer::{all_digits, digits_value, is_digit};

verus! {

/// The printed name of a type expression used to pick its C type: names as
/// they are, `G[A, B]` as `G_T_A_B`, any function type as `Fn`, a tuple of n
/// types as `Tuple<n>`, and `_` as `Unknown`.
pub open spec fn te_str(te: TypeExpr) -> Seq<char>
    decreases te,
{
    match te {
        TypeExpr::Named(n) => n@,
        TypeExpr::Generic(n, args) => if args@.len() == 0 {
            n@
        } else {
            n@ + "_T_"@ + te_join(args@)
        },
        TypeExpr::Fn(_, _) => "Fn"@,
        TypeExpr::Tuple(ts) => "Tuple"@ + nat_text(ts@.len()),
        TypeExpr::Infer => "Unknown"@,
    }
}

/// The names of a list of type expressions joined by `_`.
pub open spec fn te_join(s: Seq<TypeExpr>) -> Seq<char>
    decreases s,
{
    if s.len() == 0 {
        Seq::empty()
    } else if s.len() == 1 {
        te_str(s[0])
    } else {
        te_join(s.drop_last()) + "_"@ + te_str(s.last())
    }
}

/// Whether `p` starts `s`.
pub open spec fn starts_with(s: Seq<char>, p: Seq<char>) -> bool {
    p.len() <= s.len() && s.subrange(0, p.len() as int) == p
}

/// Whether `p` starts `s`.
fn has_prefix(s: &str, p: &str) -> (r: bool)
    ensures
        r == starts_with(s@, p@),
{
    let cs = chars_of(s);
    let ps = chars_of(p);
    if ps.len() > cs.len() {
        return false;
    }
    let mut i: usize = 0;
    while i < ps.len()
        invariant
            i <= ps@.len() <= cs@.len(),
            cs@ == s@,
            ps@ == p@,
            forall|j: int| 0 <= j < i ==> cs@[j] == ps@[j],
        decreases ps@.len() - i,
    {
        if cs[i] != ps[i] {
            assert(s@.subrange(0, p@.len() as int)[i as int] != p@[i as int]);
            return false;
        }
        i = i + 1;
    }
    assert(s@.subrange(0, p@.len() as int) =~= p@);
    true
}

/// The keys of an association list.
pub open spec fn keys_of<V>(m: Seq<(String, V)>) -> Seq<Seq<char>> {
    Seq::new(m.len(), |i: int| m[i].0@)
}

/// The C type for a type name, given the struct and enum names: primitives
/// map to the runtime's types (unknown or absent to `mi_int`), struct and enum
/// names stay, other names starting with `[` or `Array` become `mi_array`, and
/// any other name stays.
pub open spec fn ctype_of(structs: Seq<Seq<char>>, enums: Seq<Seq<char>>, t: Option<Seq<char>>) -> Seq<char> {
    match t {
        None => "mi_int"@,
        Some(s) => if s == "Unknown"@ || s == "Int"@ {
            "mi_int"@
        } else if s == "Float"@ {
            "mi_float"@
        } else if s == "Bool"@ {
            "mi_bool"@
        } else if s == "Str"@ {
            "mi_str"@
        } else if s == "Char"@ {
            "mi_char"@
        } else if s == "Nil"@ {
            "mi_nil_t"@
        } else if structs.contains(s) || enums.contains(s) {
            s
        } else if starts_with(s, "["@) || starts_with(s, "Array"@) {
            "mi_array"@
        } else {
            s
        }
    }
}

/// The C zero value for a type name.
pub open spec fn c_zero(t: Option<Seq<char>>) -> Seq<char> {
    match t {
        None => "0"@,
        Some(s) => if s == "Int"@ || s == "Bool"@ {
            "0"@
        } else if s == "Float"@ {
            "0.0"@
        } else if s == "Str"@ {
            "mi_str_empty()"@
        } else if s == "Char"@ {
            "'\\0'"@
        } else if s == "Nil"@ {
            ""@
        } else {
            "{0}"@
        },
    }
}

/// A string escaped for a C string literal: backslash, double quote and newline.
pub open spec fn escape_c(s: Seq<char>) -> Seq<char>
    decreases s.len(),
{
    if s.len() == 0 {
        s
    } else {
        escape_c(s.drop_last()) + escape_c_char(s.last())
    }
}

/// A character escaped for a C string literal.
pub open spec fn escape_c_char(c: char) -> Seq<char> {
    if c == '\\' {
        seq!['\\', '\\']
    } else if c == '"' {
        seq!['\\', '"']
    } else if c == '\n' {
        seq!['\\', 'n']
    } else {
        seq![c]
    }
}

/// A string with double quotes and newlines escaped (backslashes kept as they are).
pub open spec fn escape_quotes(s: Seq<char>) -> Seq<char>
    decreases s.len(),
{
    if s.len() == 0 {
        s
    } else {
        escape_quotes(s.drop_last()) + (if s.last() == '\\' {
            seq!['\\']
        } else {
            escape_c_char(s.last())
        })
    }
}

/// The C operator for a binary operator.
pub open spec fn c_op(op: BinOp) -> Seq<char> {
    match op {
        BinOp::Add => "+"@,
        BinOp::Sub => "-"@,
        BinOp::Mul => "*"@,
        BinOp::Div => "/"@,
        BinOp::Mod => "%"@,
        BinOp::Eq => "=="@,
        BinOp::Neq => "!="@,
        BinOp::Lt => "<"@,
        BinOp::Gt => ">"@,
        BinOp::Le => "<="@,
        BinOp::Ge => ">="@,
        BinOp::And => "&&"@,
        BinOp::Or => "||"@,
    }
}

/// Each binary operator is written as its own C operator.
pub proof fn lemma_c_ops()
    ensures
        c_op(BinOp::Add) == seq!['+'],
        c_op(BinOp::Sub) == seq!['-'],
        c_op(BinOp::Mul) == seq!['*'],
        c_op(BinOp::Div) == seq!['/'],
        c_op(BinOp::Mod) == seq!['%'],
        c_op(BinOp::Eq) == seq!['=', '='],
        c_op(BinOp::Neq) == seq!['!', '='],
        c_op(BinOp::Lt) == seq!['<'],
        c_op(BinOp::Gt) == seq!['>'],
        c_op(BinOp::Le) == seq!['<', '='],
        c_op(BinOp::Ge) == seq!['>', '='],
        c_op(BinOp::And) == seq!['&', '&'],
        c_op(BinOp::Or) == seq!['|', '|'],
{
    reveal_strlit("+");
    reveal_strlit("-");
    reveal_strlit("*");
    reveal_strlit("/");
    reveal_strlit("%");
    reveal_strlit("==");
    reveal_strlit("!=");
    reveal_strlit("<");
    reveal_strlit(">");
    reveal_strlit("<=");
    reveal_strlit(">=");
    reveal_strlit("&&");
    reveal_strlit("||");
    assert(c_op(BinOp::Add) =~= seq!['+']);
    assert(c_op(BinOp::Sub) =~= seq!['-']);
    assert(c_op(BinOp::Mul) =~= seq!['*']);
    assert(c_op(BinOp::Div) =~= seq!['/']);
    assert(c_op(BinOp::Mod) =~= seq!['%']);
    assert(c_op(BinOp::Eq) =~= seq!['=', '=']);
    assert(c_op(BinOp::Neq) =~= seq!['!', '=']);
    assert(c_op(BinOp::Lt) =~= seq!['<']);
    assert(c_op(BinOp::Gt) =~= seq!['>']);
    assert(c_op(BinOp::Le) =~= seq!['<', '=']);
    assert(c_op(BinOp::Ge) =~= seq!['>', '=']);
    assert(c_op(BinOp::And) =~= seq!['&', '&']);
    assert(c_op(BinOp::Or) =~= seq!['|', '|']);
}

/// Whether an expression is taken to give a string: string literals, calls of
/// the string-making built-ins, a `+` with a string side, an `if` whose then
/// branch does, and a method call other than the built-in `len` and
/// `is_empty`, which give a number and a boolean.
pub open spec fn is_string_expr(e: Expr) -> bool
    decreases e,
{
    match e {
        Expr::Str(_, _) => true,
        Expr::Call(callee, _) => match *callee {
            Expr::Ident(n) => n@ == "str"@ || n@ == "str_char"@ || n@ == "str_bool"@ || n@ == "str_float"@
                || n@ == "read_file"@,
            _ => false,
        },
        Expr::Binary(l, op, r) => op == BinOp::Add && (is_string_expr(*l) || is_string_expr(*r)),
        Expr::If(_, t, _) => is_string_expr(*t),
        Expr::MethodCall(_, m, _) => !(m@ == "len"@ || m@ == "is_empty"@),
        _ => false,
    }
}

/// Whether a function body returns explicitly: a block with a `return`
/// statement at its top level, or an `if` one of whose branches does.
pub open spec fn has_return(e: Expr) -> bool
    decreases e,
{
    match e {
        Expr::Block(stmts) => exists|i: int| 0 <= i < stmts@.len() && #[trigger] stmts@[i] is Return,
        Expr::If(_, t, el) => has_return(*t) || match el {
            Some(b) => has_return(*b),
            None => false,
        },
        _ => false,
    }
}

/// The first value for key `k` in an association list of texts.
pub open spec fn lookup_text(m: Seq<(String, String)>, k: Seq<char>) -> Option<Seq<char>>
    decreases m.len(),
{
    if m.len() == 0 {
        None
    } else if m[0].0@ == k {
        Some(m[0].1@)
    } else {
        lookup_text(m.drop_first(), k)
    }
}

/// The Unicode `White_Space` property.
pub open spec fn is_white(c: char) -> bool {
    ('\t' <= c && c <= '\r') || c == ' ' || c == '\u{85}' || c == '\u{a0}' || c == '\u{1680}'
        || ('\u{2000}' <= c && c <= '\u{200a}') || c == '\u{2028}' || c == '\u{2029}' || c == '\u{202f}'
        || c == '\u{205f}' || c == '\u{3000}'
}

/// The uppercase form of a text, as `str::to_uppercase` gives it.
pub uninterp spec fn upper_text(s: Seq<char>) -> Seq<char>;

/// The ASCII uppercase of a character.
pub open spec fn ascii_upper(c: char) -> char {
    if 'a' <= c && c <= 'z' {
        ((c as u32) - 32) as char
    } else {
        c
    }
}

/// Calls `str::to_uppercase`. Its result is named by `upper_text`; the
/// documentation's ASCII case is stated: an all-ASCII text keeps its length and
/// has each lowercase letter replaced by its capital.
#[verifier::external_body]
fn to_uppercase(s: &String) -> (r: String)
    ensures
        r@ == upper_text(s@),
        (forall|i: int| 0 <= i < s@.len() ==> (s@[i] as u32) < 128) ==> (r@.len() == s@.len()
            && forall|i: int| 0 <= i < s@.len() ==> #[trigger] r@[i] == ascii_upper(s@[i])),
{
    s.as_str().to_uppercase()
}

/// Whether the character is white space.
fn is_white_char(c: char) -> (r: bool)
    ensures
        r == is_white(c),
{
    ('\t' <= c && c <= '\r') || c == ' ' || c == '\u{85}' || c == '\u{a0}' || c == '\u{1680}'
        || ('\u{2000}' <= c && c <= '\u{200a}') || c == '\u{2028}' || c == '\u{2029}' || c == '\u{202f}'
        || c == '\u{205f}' || c == '\u{3000}'
}

/// The text without the white space at its start.
pub open spec fn trim_start(s: Seq<char>) -> Seq<char>
    decreases s.len(),
{
    if s.len() > 0 && is_white(s[0]) {
        trim_start(s.drop_first())
    } else {
        s
    }
}

/// The text without the white space at its end.
pub open spec fn trim_end(s: Seq<char>) -> Seq<char>
    decreases s.len(),
{
    if s.len() > 0 && is_white(s.last()) {
        trim_end(s.drop_last())
    } else {
        s
    }
}

/// The text without white space at either end.
pub open spec fn trim(s: Seq<char>) -> Seq<char> {
    trim_end(trim_start(s))
}

/// The text without white space at either end.
fn trim_text(s: &String) -> (r: String)
    ensures
        r@ == trim(s@),
{
    let cs = chars_of(s.as_str());
    let n = cs.len();
    let mut a: usize = 0;
    assert(cs@.subrange(0, n as int) =~= cs@);
    while a < n && is_white_char(cs[a])
        invariant
            a <= n == cs@.len(),
            cs@ == s@,
            trim_start(s@) == trim_start(cs@.subrange(a as int, n as int)),
        decreases n - a,
    {
        assert(cs@.subrange(a as int, n as int).drop_first() =~= cs@.subrange(a + 1, n as int));
        a = a + 1;
    }
    assert(trim_start(s@) == cs@.subrange(a as int, n as int));
    let mut b: usize = n;
    while b > a && is_white_char(cs[b - 1])
        invariant
            a <= b <= n == cs@.len(),
            trim(s@) == trim_end(cs@.subrange(a as int, b as int)),
        decreases b,
    {
        assert(cs@.subrange(a as int, b as int).drop_last() =~= cs@.subrange(a as int, b - 1));
        b = b - 1;
    }
    assert(trim(s@) == cs@.subrange(a as int, b as int));
    let mut out = String::new();
    let mut i = a;
    while i < b
        invariant
            a <= i <= b,
            b <= cs@.len(),
            out@ == cs@.subrange(a as int, i as int),
        decreases b - i,
    {
        push_char(&mut out, cs[i]);
        assert(out@ =~= cs@.subrange(a as int, i + 1));
        i = i + 1;
    }
    out
}

/// Appends `s` escaped for a C string literal.
fn push_escaped_c(out: &mut String, s: &String)
    ensures
        final(out)@ == old(out)@ + escape_c(s@),
{
    let cs = chars_of(s.as_str());
    let mut i: usize = 0;
    while i < cs.len()
        invariant
            i <= cs@.len(),
            cs@ == s@,
            out@ == old(out)@ + escape_c(s@.take(i as int)),
        decreases cs@.len() - i,
    {
        let c = cs[i];
        assert(s@.take(i + 1).drop_last() =~= s@.take(i as int));
        if c == '\\' {
            push_char(out, '\\');
            push_char(out, '\\');
        } else if c == '"' {
            push_char(out, '\\');
            push_char(out, '"');
        } else if c == '\n' {
            push_char(out, '\\');
            push_char(out, 'n');
        } else {
            push_char(out, c);
        }
        assert(out@ =~= old(out)@ + escape_c(s@.take(i + 1)));
        i = i + 1;
    }
    assert(s@.take(s@.len() as int) =~= s@);
}

/// Appends `s` with double quotes and newlines escaped.
fn push_escaped_quotes(out: &mut String, s: &String)
    ensures
        final(out)@ == old(out)@ + escape_quotes(s@),
{
    let cs = chars_of(s.as_str());
    let mut i: usize = 0;
    while i < cs.len()
        invariant
            i <= cs@.len(),
            cs@ == s@,
            out@ == old(out)@ + escape_quotes(s@.take(i as int)),
        decreases cs@.len() - i,
    {
        let c = cs[i];
        assert(s@.take(i + 1).drop_last() =~= s@.take(i as int));
        if c == '"' {
            push_char(out, '\\');
            push_char(out, '"');
        } else if c == '\n' {
            push_char(out, '\\');
            push_char(out, 'n');
        } else {
            push_char(out, c);
        }
        assert(out@ =~= old(out)@ + escape_quotes(s@.take(i + 1)));
        i = i + 1;
    }
    assert(s@.take(s@.len() as int) =~= s@);
}

/// The first index of `k` in an association list of texts.
fn find_text(m: &Vec<(String, String)>, k: &String) -> (r: Option<usize>)
    ensures
        r matches Some(i) ==> i < m@.len() && lookup_text(m@, k@) == Some(m@[i as int].1@)
            && m@[i as int].0@ == k@ && forall|j: int| 0 <= j < i ==> m@[j].0@ != k@,
        r is None ==> lookup_text(m@, k@) is None,
{
    let mut i: usize = 0;
    assert(m@.skip(0) =~= m@);
    while i < m.len()
        invariant
            i <= m@.len(),
            lookup_text(m@, k@) == lookup_text(m@.skip(i as int), k@),
            forall|j: int| 0 <= j < i ==> m@[j].0@ != k@,
        decreases m@.len() - i,
    {
        assert(m@.skip(i as int)[0] == m@[i as int]);
        if m[i].0 == *k {
            return Some(i);
        }
        assert(m@.skip(i as int).drop_first() =~= m@.skip(i + 1));
        i = i + 1;
    }
    None
}

/// Sets the value for `k` (replacing the first entry, or adding one at the end).
fn insert_text(m: &mut Vec<(String, String)>, k: String, v: String)
    ensures
        lookup_text(final(m)@, k@) == Some(v@),
        forall|k2: Seq<char>| k2 != k@ ==> lookup_text(final(m)@, k2) == lookup_text(old(m)@, k2),
{
    let ghost before = m@;
    match find_text(m, &k) {
        Some(i) => {
            m.set(i, (k, v));
            proof {
                lemma_lookup_update(before, i as int, m@[i as int]);
            }
        },
        None => {
            m.push((k, v));
            proof {
                lemma_lookup_push(before, m@[before.len() as int]);
                assert(m@ == before.push(m@[before.len() as int]));
            }
        },
    }
}

/// Replacing the first entry of a key changes the lookup of that key only.
proof fn lemma_lookup_update(m: Seq<(String, String)>, i: int, e: (String, String))
    requires
        0 <= i < m.len(),
        m[i].0@ == e.0@,
        forall|j: int| 0 <= j < i ==> m[j].0@ != e.0@,
    ensures
        lookup_text(m.update(i, e), e.0@) == Some(e.1@),
        forall|k2: Seq<char>| k2 != e.0@ ==> lookup_text(m.update(i, e), k2) == lookup_text(m, k2),
    decreases m.len(),
{
    let u = m.update(i, e);
    if i == 0 {
        assert(u.drop_first() =~= m.drop_first());
    } else {
        lemma_lookup_update(m.drop_first(), i - 1, e);
        assert(u.drop_first() =~= m.drop_first().update(i - 1, e));
    }
    assert forall|k2: Seq<char>| k2 != e.0@ implies lookup_text(u, k2) == lookup_text(m, k2) by {
        assert(lookup_text(u, k2) == if u[0].0@ == k2 { Some(u[0].1@) } else { lookup_text(u.drop_first(), k2) });
        assert(lookup_text(m, k2) == if m[0].0@ == k2 { Some(m[0].1@) } else { lookup_text(m.drop_first(), k2) });
    }
}

/// Adding an entry for an absent key gives it that value and changes nothing else.
proof fn lemma_lookup_push(m: Seq<(String, String)>, e: (String, String))
    requires
        lookup_text(m, e.0@) is None,
    ensures
        lookup_text(m.push(e), e.0@) == Some(e.1@),
        forall|k2: Seq<char>| k2 != e.0@ ==> lookup_text(m.push(e), k2) == lookup_text(m, k2),
    decreases m.len(),
{
    let p = m.push(e);
    if m.len() > 0 {
        lemma_lookup_push(m.drop_first(), e);
        assert(p.drop_first() =~= m.drop_first().push(e));
    } else {
        assert(p.drop_first() =~= Seq::<(String, String)>::empty());
    }
    assert forall|k2: Seq<char>| k2 != e.0@ implies lookup_text(p, k2) == lookup_text(m, k2) by {
        assert(lookup_text(p, k2) == if p[0].0@ == k2 { Some(p[0].1@) } else { lookup_text(p.drop_first(), k2) });
        if m.len() > 0 {
            assert(lookup_text(m, k2) == if m[0].0@ == k2 { Some(m[0].1@) } else { lookup_text(m.drop_first(), k2) });
        }
    }
}

/// Whether a text is the decimal form of an `i64`: an optional `+` or `-`,
/// then at least one ASCII digit, with a value in the range of `i64`.
pub open spec fn i64_text(s: Seq<char>) -> bool {
    let signed = s.len() > 0 && (s[0] == '+' || s[0] == '-');
    let d = if signed { s.drop_first() } else { s };
    let limit: int = if s.len() > 0 && s[0] == '-' { 9223372036854775808 } else { 9223372036854775807 };
    d.len() > 0 && all_digits(d) && digits_value(d) <= limit
}

/// The value of a digit string is at least that of each of its prefixes.
pub proof fn lemma_digits_prefix(t: Seq<char>, j: int)
    requires
        all_digits(t),
        0 <= j <= t.len(),
    ensures
        0 <= digits_value(t.take(j)) <= digits_value(t),
    decreases t.len(),
{
    if j == t.len() {
        assert(t.take(j) =~= t);
        if t.len() > 0 {
            lemma_digits_prefix(t.drop_last(), j - 1);
            assert(t.drop_last().take(j - 1) =~= t.drop_last());
            assert(is_digit(t[t.len() - 1]));
        }
    } else {
        assert(forall|i: int| 0 <= i < t.drop_last().len() ==> t.drop_last()[i] == t[i]);
        lemma_digits_prefix(t.drop_last(), j);
        assert(t.drop_last().take(j) =~= t.take(j));
        lemma_digits_prefix(t.drop_last(), t.len() - 1);
        assert(t.drop_last().take(t.len() - 1) =~= t.drop_last());
        assert(is_digit(t[t.len() - 1]));
    }
}

/// Whether a text is the decimal form of an `i64` (with an optional sign).
fn parses_as_i64(s: &String) -> (r: bool)
    ensures
        r == i64_text(s@),
{
    let cs = chars_of(s.as_str());
    let n = cs.len();
    let mut st: usize = 0;
    let mut neg = false;
    if n > 0 && (cs[0] == '+' || cs[0] == '-') {
        neg = cs[0] == '-';
        st = 1;
    }
    let ghost d = if st == 1 { s@.drop_first() } else { s@ };
    assert(d =~= cs@.subrange(st as int, n as int));
    if st >= n {
        return false;
    }
    let mut v: u64 = 0;
    let limit: u64 = if neg { 9223372036854775808u64 } else { 9223372036854775807u64 };
    let mut i: usize = st;
    assert(d.take(0) =~= Seq::<char>::empty());
    while i < n
        invariant
            st <= i <= n == cs@.len(),
            cs@ == s@,
            d == cs@.subrange(st as int, n as int),
            d == (if s@.len() > 0 && (s@[0] == '+' || s@[0] == '-') { s@.drop_first() } else { s@ }),
            limit as int == (if s@.len() > 0 && s@[0] == '-' { 9223372036854775808int } else { 9223372036854775807int }),
            all_digits(d.take(i - st)),
            v as int == digits_value(d.take(i - st)),
            v <= limit,
        decreases n - i,
    {
        let c = cs[i];
        assert(d[i - st] == c);
        if !('0' <= c && c <= '9') {
            assert(!is_digit(d[i - st]));
            assert(!all_digits(d));
            return false;
        }
        let dg: u64 = (c as u32 - 48) as u64;
        assert(d.take(i - st + 1).drop_last() =~= d.take(i - st));
        assert(digits_value(d.take(i - st + 1)) == v * 10 + dg);
        if dg > limit || v > (limit - dg) / 10 {
            proof {
                if dg <= limit {
                    assert(v * 10 + dg > limit) by (nonlinear_arith)
                        requires
                            v > (limit - dg) / 10,
                            dg <= limit,
                    ;
                }
                if all_digits(d) {
                    lemma_digits_prefix(d, i - st + 1);
                }
                assert(!i64_text(s@));
            }
            return false;
        }
        v = v * 10 + dg;
        i = i + 1;
        assert(all_digits(d.take(i - st))) by {
            assert forall|k: int| 0 <= k < d.take(i - st).len() implies #[trigger] is_digit(d.take(i - st)[k]) by {
                if k < i - 1 - st {
                    assert(d.take(i - st)[k] == d.take(i - 1 - st)[k]);
                }
            }
        }
    }
    assert(d.take(n - st) =~= d);
    true
}

/// How a character reads inside a C char literal, as `char::escape_default` writes it.
pub open spec fn escape_default(c: char) -> Seq<char> {
    if c == '\t' {
        "\\t"@
    } else if c == '\r' {
        "\\r"@
    } else if c == '\n' {
        "\\n"@
    } else if c == '\\' || c == '\'' || c == '"' {
        seq!['\\', c]
    } else if ' ' <= c && c <= '~' {
        seq![c]
    } else {
        "\\u{"@ + crate::lexer::hex_text(c as u32 as nat) + "}"@
    }
}

/// Appends the hexadecimal digits of `n`.
fn push_hex(out: &mut String, n: u32)
    ensures
        final(out)@ == old(out)@ + crate::lexer::hex_text(n as nat),
    decreases n,
{
    if n >= 16 {
        push_hex(out, n / 16);
    }
    let d: u32 = n % 16;
    let c: char = if d < 10 { ((48 + d) as u8) as char } else { ((87 + d) as u8) as char };
    push_char(out, c);
}

/// Appends a character escaped as `char::escape_default` writes it.
fn push_escape_default(out: &mut String, c: char)
    ensures
        final(out)@ == old(out)@ + escape_default(c),
{
    if c == '\t' {
        push_str(out, "\\t");
    } else if c == '\r' {
        push_str(out, "\\r");
    } else if c == '\n' {
        push_str(out, "\\n");
    } else if c == '\\' || c == '\'' || c == '"' {
        push_char(out, '\\');
        push_char(out, c);
        assert(final(out)@ =~= old(out)@ + seq!['\\', c]);
    } else if ' ' <= c && c <= '~' {
        push_char(out, c);
        assert(final(out)@ =~= old(out)@ + seq![c]);
    } else {
        push_str(out, "\\u{");
        push_hex(out, c as u32);
        push_str(out, "}");
        assert(final(out)@ =~= old(out)@ + ("\\u{"@ + crate::lexer::hex_text(c as u32 as nat) + "}"@));
    }
}

} // verus!

verus! {

/// Texts joined by `sep`.
pub open spec fn join_texts(s: Seq<Seq<char>>, sep: Seq<char>) -> Seq<char>
    decreases s.len(),
{
    if s.len() == 0 {
        Seq::empty()
    } else if s.len() == 1 {
        s[0]
    } else {
        join_texts(s.drop_last(), sep) + sep + s.last()
    }
}

/// The views of a list of strings.
pub open spec fn texts(v: Seq<String>) -> Seq<Seq<char>> {
    Seq::new(v.len(), |i: int| v[i]@)
}

/// Appends the strings joined by `sep`.
fn push_joined(out: &mut String, parts: &Vec<String>, sep: &str)
    ensures
        final(out)@ == old(out)@ + join_texts(texts(parts@), sep@),
{
    let ghost t = texts(parts@);
    let mut i: usize = 0;
    while i < parts.len()
        invariant
            i <= parts@.len(),
            t == texts(parts@),
            out@ == old(out)@ + join_texts(t.take(i as int), sep@),
        decreases parts@.len() - i,
    {
        if i > 0 {
            push_str(out, sep);
        }
        push_str(out, parts[i].as_str());
        proof {
            assert(t.take(i + 1).drop_last() =~= t.take(i as int));
            if i == 0 {
                assert(join_texts(t.take(0), sep@) =~= Seq::<char>::empty());
            }
            assert(out@ =~= old(out)@ + join_texts(t.take(i + 1), sep@));
        }
        i = i + 1;
    }
    assert(t.take(parts@.len() as int) =~= t);
}

/// The C value of a literal pattern, used as a bound of a range pattern; `0`
/// for a pattern that is not a number, boolean or character literal.
pub open spec fn pattern_value(p: Pattern) -> Seq<char> {
    match p {
        Pattern::Int(n) => int_text(n as int),
        Pattern::Float(f) => f@,
        Pattern::Bool(b) => if b { "1"@ } else { "0"@ },
        Pattern::Char(c) => "'"@ + seq![c] + "'"@,
        _ => "0"@,
    }
}

/// The C condition that tests whether the value `m` matches a pattern. Only
/// literals, alternatives and ranges test anything; names, tuples and struct
/// patterns always match.
pub open spec fn pattern_cond(p: Pattern, m: Seq<char>) -> Seq<char>
    decreases p,
{
    match p {
        Pattern::Wild => "1"@,
        Pattern::Int(n) => "("@ + m + " == "@ + int_text(n as int) + ")"@,
        Pattern::Float(f) => "("@ + m + " == "@ + f@ + ")"@,
        Pattern::Bool(b) => "("@ + m + " == "@ + (if b { "1"@ } else { "0"@ }) + ")"@,
        Pattern::Str(s) => "mi_str_eq("@ + m + ", mi_str_lit(\""@ + s@ + "\"))"@,
        Pattern::Char(c) => "("@ + m + " == '"@ + seq![c] + "')"@,
        Pattern::Ident(_) => "1"@,
        Pattern::Binding(_, inner) => pattern_cond(*inner, m),
        Pattern::Tuple(_) => "1"@,
        Pattern::Or(p1, p2) => "("@ + pattern_cond(*p1, m) + " || "@ + pattern_cond(*p2, m) + ")"@,
        Pattern::Range(p1, p2) => "(("@ + m + " >= "@ + pattern_value(*p1) + ") && ("@ + m + " <= "@
            + pattern_value(*p2) + "))"@,
        Pattern::Struct(_, _) => "1"@,
    }
}

/// The C type guessed for an expression, given the C types of variables and
/// the C return types of functions.
pub open spec fn infer_c(vars: Seq<(String, String)>, fns: Seq<(String, String)>, e: Expr) -> Seq<char> {
    match e {
        Expr::Int(_) => "mi_int"@,
        Expr::Float(_) => "mi_float"@,
        Expr::Bool(_) => "mi_bool"@,
        Expr::Str(_, _) => "mi_str"@,
        Expr::Char(_) => "mi_char"@,
        Expr::Nil => "mi_nil_t"@,
        Expr::Ident(n) => match lookup_text(vars, n@) {
            Some(t) => t,
            None => "mi_int"@,
        },
        Expr::Call(callee, _) => match *callee {
            Expr::Ident(n) => if n@ == "range"@ || n@ == "len"@ || n@ == "len_str"@ {
                "mi_int"@
            } else if n@ == "str"@ || n@ == "str_bool"@ || n@ == "str_char"@ || n@ == "read_file"@
                || n@ == "str_float"@ {
                "mi_str"@
            } else if n@ == "print"@ || n@ == "println"@ {
                "mi_nil_t"@
            } else if n@ == "os_args"@ {
                "mi_array"@
            } else {
                match lookup_text(fns, n@) {
                    Some(t) => t,
                    None => "mi_int"@,
                }
            },
            _ => "mi_int"@,
        },
        Expr::Array(_) => "mi_array"@,
        Expr::StructLit(n, _) => n@,
        _ => "mi_int"@,
    }
}

/// The C call for `receiver.method(args)` given the receiver's C type: the
/// built-in `len` and `is_empty` of strings and arrays, `Type__method(receiver,
/// args)` for strings, arrays and structs, and `__method_name(receiver, args)`
/// otherwise.
pub open spec fn method_call_c(structs: Seq<Seq<char>>, rt: Seq<char>, method: Seq<char>, recv: Seq<char>, args: Seq<Seq<char>>) -> Seq<char> {
    let tn: Option<Seq<char>> = if rt == "mi_str"@ {
        Some("Str"@)
    } else if rt == "mi_array"@ {
        Some("Array"@)
    } else if structs.contains(rt) {
        Some(rt)
    } else {
        None
    };
    let rest = if args.len() == 0 { Seq::<char>::empty() } else { ", "@ + join_texts(args, ", "@) };
    match tn {
        Some(t) => if t == "Str"@ && method == "len"@ {
            "len_str("@ + recv + ")"@
        } else if t == "Str"@ && method == "is_empty"@ {
            "(len_str("@ + recv + ") == 0)"@
        } else if t == "Array"@ && method == "len"@ {
            "len("@ + recv + ")"@
        } else if t == "Array"@ && method == "is_empty"@ {
            "(len("@ + recv + ") == 0)"@
        } else {
            let self_arg = if t == "mi_array"@ { "&"@ + recv } else { recv };
            t + "__"@ + method + "("@ + self_arg + rest + ")"@
        },
        None => "__method_"@ + method + "("@ + recv + rest + ")"@,
    }
}

/// Temporaries made with the same prefix at different counts have different
/// names, so the names that `fresh_var` hands out while its count grows are
/// all distinct.
pub proof fn lemma_fresh_names_differ(prefix: Seq<char>, a: nat, b: nat)
    requires
        a != b,
    ensures
        prefix + "_"@ + nat_text(a) != prefix + "_"@ + nat_text(b),
{
    reveal_strlit("_");
    let x = prefix + "_"@ + nat_text(a);
    let y = prefix + "_"@ + nat_text(b);
    if x == y {
        assert(x.skip(prefix.len() + 1int) =~= nat_text(a));
        assert(y.skip(prefix.len() + 1int) =~= nat_text(b));
        crate::text::lemma_nat_text_injective(a, b);
    }
}

/// Indentation for `n` levels: four spaces each.
pub open spec fn spaces(n: nat) -> Seq<char>
    decreases n,
{
    if n == 0 {
        Seq::empty()
    } else {
        spaces((n - 1) as nat) + "    "@
    }
}

/// The view of a list of fields: names with C types.
pub open spec fn field_table(fs: Seq<(String, String)>) -> Seq<(Seq<char>, Seq<char>)> {
    Seq::new(fs.len(), |k: int| (fs[k].0@, fs[k].1@))
}

/// The view of a struct table.
pub open spec fn struct_table(st: Seq<(String, Vec<(String, String)>)>) -> Seq<(Seq<char>, Seq<(Seq<char>, Seq<char>)>)> {
    Seq::new(st.len(), |i: int| (st[i].0@, field_table(st[i].1@)))
}

/// Struct `a` uses struct `b`: `b` is the first struct of its name, has another
/// name than `a`, and is the type of one of `a`'s fields (white space aside).
pub open spec fn struct_dep(defs: Seq<(Seq<char>, Seq<(Seq<char>, Seq<char>)>)>, a: int, b: int) -> bool {
    &&& 0 <= a < defs.len()
    &&& 0 <= b < defs.len()
    &&& defs[b].0 != defs[a].0
    &&& forall|j: int| 0 <= j < b ==> defs[j].0 != defs[b].0
    &&& exists|k: int| 0 <= k < defs[a].1.len() && trim(#[trigger] defs[a].1[k].1) == defs[b].0
}

/// A non-empty set of structs each of which uses another struct of the set.
pub open spec fn closed_deps(defs: Seq<(Seq<char>, Seq<(Seq<char>, Seq<char>)>)>, c: Set<int>) -> bool {
    &&& exists|m: int| c.contains(m)
    &&& forall|m: int| #[trigger] c.contains(m) ==> 0 <= m < defs.len()
        && exists|b: int| c.contains(b) && struct_dep(defs, m, b)
}

/// The structs use each other in a cycle.
pub open spec fn dep_cycle(defs: Seq<(Seq<char>, Seq<(Seq<char>, Seq<char>)>)>) -> bool {
    exists|c: Set<int>| closed_deps(defs, c)
}

/// Whether `m` occurs in `s`.
pub open spec fn occurs(s: Seq<int>, m: int) -> bool {
    exists|i: int| 0 <= i < s.len() && s[i] == m
}

/// `perm` lists every struct index once, each after the structs it uses.
pub open spec fn dep_order(defs: Seq<(Seq<char>, Seq<(Seq<char>, Seq<char>)>)>, perm: Seq<int>) -> bool {
    &&& perm.len() == defs.len()
    &&& forall|i: int| 0 <= i < perm.len() ==> 0 <= #[trigger] perm[i] < defs.len()
    &&& forall|i: int, j: int| 0 <= i < j < perm.len() ==> perm[i] != perm[j]
    &&& forall|m: int| 0 <= m < defs.len() ==> #[trigger] occurs(perm, m)
    &&& forall|p: int, b: int| 0 <= p < perm.len() && #[trigger] struct_dep(defs, perm[p], b)
        ==> exists|q: int| 0 <= q < p && perm[q] == b
}

/// `names` is an order in which the structs can be defined: where no structs
/// use each other in a cycle, their names in an order that puts every struct
/// after the structs it uses; otherwise their names in declaration order.
pub open spec fn struct_order(defs: Seq<(Seq<char>, Seq<(Seq<char>, Seq<char>)>)>, names: Seq<Seq<char>>) -> bool {
    if dep_cycle(defs) {
        names == Seq::new(defs.len(), |i: int| defs[i].0)
    } else {
        exists|perm: Seq<int>| dep_order(defs, perm) && names.len() == perm.len()
            && forall|i: int| 0 <= i < names.len() ==> #[trigger] names[i] == defs[perm[i]].0
    }
}

/// Structs that use each other in a cycle admit no order that puts every
/// struct after the structs it uses.
pub proof fn lemma_order_excludes_cycle(defs: Seq<(Seq<char>, Seq<(Seq<char>, Seq<char>)>)>, perm: Seq<int>)
    requires
        dep_order(defs, perm),
    ensures
        !dep_cycle(defs),
{
    if dep_cycle(defs) {
        let c = choose|c: Set<int>| closed_deps(defs, c);
        let m = choose|m: int| c.contains(m);
        lemma_prefix_outside(defs, perm, c, perm.len() as int);
        assert(occurs(perm, m));
        let i = choose|i: int| 0 <= i < perm.len() && perm[i] == m;
        assert(!c.contains(perm[i]));
    }
}

/// No position before `p` of an order holds a member of a closed set.
proof fn lemma_prefix_outside(defs: Seq<(Seq<char>, Seq<(Seq<char>, Seq<char>)>)>, perm: Seq<int>, c: Set<int>, p: int)
    requires
        dep_order(defs, perm),
        closed_deps(defs, c),
        0 <= p <= perm.len(),
    ensures
        forall|q: int| 0 <= q < p ==> !c.contains(#[trigger] perm[q]),
    decreases p,
{
    if p > 0 {
        lemma_prefix_outside(defs, perm, c, p - 1);
        if c.contains(perm[p - 1]) {
            let b = choose|b: int| c.contains(b) && struct_dep(defs, perm[p - 1], b);
            let q = choose|q: int| 0 <= q < p - 1 && perm[q] == b;
            assert(!c.contains(perm[q]));
        }
    }
}

/// Whether `x` occurs in `v`.
fn vec_has(v: &Vec<usize>, x: usize) -> (r: bool)
    ensures
        r == exists|i: int| 0 <= i < v@.len() && v@[i] == x,
{
    let mut i: usize = 0;
    while i < v.len()
        invariant
            i <= v@.len(),
            forall|j: int| 0 <= j < i ==> v@[j] != x,
        decreases v@.len() - i,
    {
        if v[i] == x {
            return true;
        }
        i = i + 1;
    }
    false
}

/// Whether every index in `v` is marked in `done`.
fn all_done(v: &Vec<usize>, done: &Vec<bool>) -> (r: bool)
    requires
        forall|i: int| 0 <= i < v@.len() ==> #[trigger] v@[i] < done@.len(),
    ensures
        r == forall|i: int| 0 <= i < v@.len() ==> done@[#[trigger] v@[i] as int],
{
    let mut i: usize = 0;
    while i < v.len()
        invariant
            i <= v@.len(),
            forall|i: int| 0 <= i < v@.len() ==> #[trigger] v@[i] < done@.len(),
            forall|j: int| 0 <= j < i ==> done@[#[trigger] v@[j] as int],
        decreases v@.len() - i,
    {
        if !done[v[i]] {
            return false;
        }
        i = i + 1;
    }
    true
}

/// The number of `false` entries.
pub open spec fn count_false(s: Seq<bool>) -> nat
    decreases s.len(),
{
    if s.len() == 0 {
        0
    } else {
        count_false(s.drop_last()) + (if s.last() { 0nat } else { 1nat })
    }
}

/// Setting a `false` entry to `true` lowers the count by one.
proof fn lemma_count_false_set(s: Seq<bool>, i: int)
    requires
        0 <= i < s.len(),
        !s[i],
    ensures
        count_false(s.update(i, true)) + 1 == count_false(s),
    decreases s.len(),
{
    if i < s.len() - 1 {
        assert(s.update(i, true).drop_last() =~= s.drop_last().update(i, true));
        lemma_count_false_set(s.drop_last(), i);
    } else {
        assert(s.update(i, true).drop_last() =~= s.drop_last());
    }
}

/// A positive count has a `false` entry.
proof fn lemma_count_false_some(s: Seq<bool>)
    requires
        count_false(s) > 0,
    ensures
        exists|i: int| 0 <= i < s.len() && !s[i],
    decreases s.len(),
{
    if !s.last() {
        assert(!s[s.len() - 1]);
    } else {
        lemma_count_false_some(s.drop_last());
        let i = choose|i: int| 0 <= i < s.drop_last().len() && !s.drop_last()[i];
        assert(!s[i]);
    }
}

/// `deps[a]` lists exactly the structs that struct `a` uses.
pub open spec fn deps_ok(defs: Seq<(Seq<char>, Seq<(Seq<char>, Seq<char>)>)>, deps: Seq<Vec<usize>>) -> bool {
    &&& deps.len() == defs.len()
    &&& forall|a: int, x: int| 0 <= a < deps.len() && 0 <= x < deps[a]@.len()
        ==> struct_dep(defs, a, #[trigger] deps[a]@[x] as int)
    &&& forall|a: int, b: int| #[trigger] struct_dep(defs, a, b)
        ==> exists|x: int| 0 <= x < deps[a]@.len() && deps[a]@[x] == b
}

/// `users[b]` lists exactly the structs that use struct `b`.
pub open spec fn users_ok(defs: Seq<(Seq<char>, Seq<(Seq<char>, Seq<char>)>)>, users: Seq<Vec<usize>>) -> bool {
    &&& users.len() == defs.len()
    &&& forall|b: int, x: int| 0 <= b < users.len() && 0 <= x < users[b]@.len()
        ==> struct_dep(defs, #[trigger] users[b]@[x] as int, b)
    &&& forall|a: int, b: int| #[trigger] struct_dep(defs, a, b)
        ==> exists|x: int| 0 <= x < users[b]@.len() && users[b]@[x] == a
}

/// Whether `m` occurs in `s`.
pub open spec fn occurs_u(s: Seq<usize>, m: int) -> bool {
    exists|i: int| 0 <= i < s.len() && s[i] == m
}

/// The state of the ordering: `order` holds the placed structs, each after
/// the structs it uses; `stack` holds ready structs not yet placed; a struct
/// is queued once it was pushed; a struct never queued waits for some struct
/// not yet placed (unless it uses `fresh`, the struct placed last, whose users
/// are still to be looked at).
pub open spec fn kahn(defs: Seq<(Seq<char>, Seq<(Seq<char>, Seq<char>)>)>, placed: Seq<bool>, queued: Seq<bool>,
    stack: Seq<usize>, order: Seq<usize>, fresh: Option<int>) -> bool {
    let n = defs.len();
    &&& placed.len() == n
    &&& queued.len() == n
    &&& forall|x: int| 0 <= x < order.len() ==> #[trigger] order[x] < n
    &&& forall|x: int, y: int| 0 <= x < y < order.len() ==> order[x] != order[y]
    &&& forall|m: int| 0 <= m < n ==> (#[trigger] placed[m] <==> occurs_u(order, m))
    &&& forall|x: int| 0 <= x < stack.len() ==> #[trigger] stack[x] < n && !placed[stack[x] as int]
    &&& forall|x: int, y: int| 0 <= x < y < stack.len() ==> stack[x] != stack[y]
    &&& forall|m: int| 0 <= m < n ==> (#[trigger] queued[m] <==> placed[m] || occurs_u(stack, m))
    &&& forall|x: int, b: int| 0 <= x < stack.len() && #[trigger] struct_dep(defs, stack[x] as int, b) ==> placed[b]
    &&& forall|p: int, b: int| 0 <= p < order.len() && #[trigger] struct_dep(defs, order[p] as int, b)
        ==> exists|q: int| 0 <= q < p && order[q] == b
    &&& forall|m: int| 0 <= m < n && !queued[m] ==> (exists|b: int| #[trigger] struct_dep(defs, m, b) && !placed[b])
        || (fresh matches Some(f) && struct_dep(defs, m, f))
    &&& count_false(placed) + order.len() == n
}

/// Marks every struct unplaced, and stacks those that use no other struct,
/// the last declared first so that they come out in declaration order.
fn initial_stack(Ghost(defs): Ghost<Seq<(Seq<char>, Seq<(Seq<char>, Seq<char>)>)>>, deps: &Vec<Vec<usize>>)
    -> (r: (Vec<bool>, Vec<bool>, Vec<usize>))
    requires
        deps_ok(defs, deps@),
    ensures
        kahn(defs, r.0@, r.1@, r.2@, Seq::empty(), None),
{
    let n = deps.len();
    let mut placed: Vec<bool> = Vec::new();
    let mut queued: Vec<bool> = Vec::new();
    let mut i: usize = 0;
    while i < n
        invariant
            i <= n,
            placed@.len() == i,
            queued@.len() == i,
            forall|m: int| 0 <= m < i ==> !placed@[m] && !queued@[m],
            count_false(placed@) == i,
        decreases n - i,
    {
        let ghost before = placed@;
        placed.push(false);
        queued.push(false);
        assert(placed@.drop_last() =~= before);
        i = i + 1;
    }
    let mut stack: Vec<usize> = Vec::new();
    let mut j: usize = n;
    while j > 0
        invariant
            j <= n == defs.len(),
            deps_ok(defs, deps@),
            placed@.len() == n,
            queued@.len() == n,
            forall|m: int| 0 <= m < n ==> !placed@[m],
            count_false(placed@) == n,
            forall|x: int| 0 <= x < stack@.len() ==> j <= #[trigger] stack@[x] < n,
            forall|x: int, y: int| 0 <= x < y < stack@.len() ==> stack@[x] > stack@[y],
            forall|m: int| 0 <= m < n ==> (#[trigger] queued@[m] <==> occurs_u(stack@, m)),
            forall|x: int, b: int| 0 <= x < stack@.len() && #[trigger] struct_dep(defs, stack@[x] as int, b) ==> placed@[b],
            forall|m: int| j <= m < n && !queued@[m] ==> exists|b: int| #[trigger] struct_dep(defs, m, b) && !placed@[b],
            forall|m: int| 0 <= m < j ==> !queued@[m],
        decreases j,
    {
        j = j - 1;
        if deps[j].len() == 0 {
            let ghost before = stack@;
            stack.push(j);
            queued.set(j, true);
            proof {
                assert forall|m: int| 0 <= m < n implies (#[trigger] queued@[m] <==> occurs_u(stack@, m)) by {
                    if m == j {
                        assert(stack@[stack@.len() - 1] == m);
                    } else if occurs_u(before, m) {
                        let x = choose|x: int| 0 <= x < before.len() && before[x] == m;
                        assert(stack@[x] == m);
                    } else if occurs_u(stack@, m) {
                        let x = choose|x: int| 0 <= x < stack@.len() && stack@[x] == m;
                        assert(before[x] == m);
                    }
                }
                assert forall|x: int, b: int| 0 <= x < stack@.len() && #[trigger] struct_dep(defs, stack@[x] as int, b)
                    implies placed@[b] by {
                    if x == stack@.len() - 1 {
                        let y = choose|y: int| 0 <= y < deps@[j as int]@.len() && deps@[j as int]@[y] == b;
                    } else {
                        assert(before[x] == stack@[x]);
                    }
                }
            }
        } else {
            proof {
                let b = deps@[j as int]@[0] as int;
                assert(struct_dep(defs, j as int, b));
            }
        }
    }
    assert forall|x: int, y: int| 0 <= x < y < stack@.len() implies stack@[x] != stack@[y] by {}
    assert forall|m: int| 0 <= m < n implies (#[trigger] placed@[m] <==> occurs_u(Seq::<usize>::empty(), m)) by {}
    (placed, queued, stack)
}

/// Placing the top of the stack keeps the state, with that struct fresh.
proof fn lemma_place(defs: Seq<(Seq<char>, Seq<(Seq<char>, Seq<char>)>)>, placed: Seq<bool>, queued: Seq<bool>, stack: Seq<usize>, order: Seq<usize>)
    requires
        kahn(defs, placed, queued, stack, order, None),
        stack.len() > 0,
    ensures
        kahn(defs, placed.update(stack.last() as int, true), queued, stack.drop_last(), order.push(stack.last()),
            Some(stack.last() as int)),
{
    let n = defs.len();
    let m = stack.last();
    let placed2 = placed.update(m as int, true);
    let stack2 = stack.drop_last();
    let order2 = order.push(m);
    lemma_count_false_set(placed, m as int);
    assert(occurs_u(stack, m as int));
    assert forall|m2: int| 0 <= m2 < n implies (#[trigger] placed2[m2] <==> occurs_u(order2, m2)) by {
        if m2 == m {
            assert(order2[order2.len() - 1] == m2);
        } else if placed[m2] {
            assert(occurs_u(order, m2));
            let x = choose|x: int| 0 <= x < order.len() && order[x] == m2;
            assert(order2[x] == m2);
        } else if occurs_u(order2, m2) {
            let x = choose|x: int| 0 <= x < order2.len() && order2[x] == m2;
            assert(order[x] == m2);
            assert(occurs_u(order, m2));
        }
    }
    assert forall|x: int, y: int| 0 <= x < y < order2.len() implies order2[x] != order2[y] by {
        if y == order2.len() - 1 && order2[x] == m {
            assert(occurs_u(order, m as int));
        }
    }
    assert forall|p: int, b: int| 0 <= p < order2.len() && #[trigger] struct_dep(defs, order2[p] as int, b)
        implies exists|q: int| 0 <= q < p && order2[q] == b by {
        if p == order2.len() - 1 {
            assert(placed[b]);
            assert(occurs_u(order, b));
            let x = choose|x: int| 0 <= x < order.len() && order[x] == b;
            assert(order2[x] == b);
        } else {
            let q = choose|q: int| 0 <= q < p && order[q] == b;
            assert(order2[q] == b);
        }
    }
    assert forall|m2: int| 0 <= m2 < n implies (#[trigger] queued[m2] <==> placed2[m2] || occurs_u(stack2, m2)) by {
        assert(queued[m2] <==> placed[m2] || occurs_u(stack, m2));
        if occurs_u(stack, m2) && m2 != m {
            let x = choose|x: int| 0 <= x < stack.len() && stack[x] == m2;
            assert(x != stack.len() - 1);
            assert(stack2[x] == m2);
        }
        if occurs_u(stack2, m2) {
            let x = choose|x: int| 0 <= x < stack2.len() && stack2[x] == m2;
            assert(stack[x] == m2);
        }
    }
    assert forall|x: int| 0 <= x < stack2.len() implies #[trigger] stack2[x] < n && !placed2[stack2[x] as int] by {
        assert(stack[x] == stack2[x]);
        assert(stack[x] != stack[stack.len() - 1]);
    }
    assert forall|x: int, b: int| 0 <= x < stack2.len() && #[trigger] struct_dep(defs, stack2[x] as int, b)
        implies placed2[b] by {
        assert(stack[x] == stack2[x]);
    }
    assert forall|m2: int| 0 <= m2 < n && !queued[m2] implies (exists|b: int| #[trigger] struct_dep(defs, m2, b) && !placed2[b])
        || struct_dep(defs, m2, m as int) by {
        let b = choose|b: int| #[trigger] struct_dep(defs, m2, b) && !placed[b];
        if b != m {
            assert(!placed2[b]);
        }
    }
}

/// Takes the top of the stack and places it after the structs placed so far.
fn place_top(Ghost(defs): Ghost<Seq<(Seq<char>, Seq<(Seq<char>, Seq<char>)>)>>, placed: &mut Vec<bool>,
    queued: &Vec<bool>, stack: &mut Vec<usize>, order: &mut Vec<usize>) -> (m: usize)
    requires
        kahn(defs, old(placed)@, queued@, old(stack)@, old(order)@, None),
        old(stack)@.len() > 0,
    ensures
        kahn(defs, final(placed)@, queued@, final(stack)@, final(order)@, Some(m as int)),
        final(stack)@.len() + 1 == old(stack)@.len(),
        m < defs.len(),
{
    proof {
        lemma_place(defs, placed@, queued@, stack@, order@);
    }
    let ghost before_stack = stack@;
    let ghost before_placed = placed@;
    let ghost before_order = order@;
    let m = stack.pop().unwrap();
    order.push(m);
    placed.set(m, true);
    assert(stack@ =~= before_stack.drop_last());
    assert(order@ =~= before_order.push(before_stack.last()));
    assert(placed@ =~= before_placed.update(before_stack.last() as int, true));
    m
}

/// Pushing a ready user of the fresh struct keeps the state.
proof fn lemma_release_push(defs: Seq<(Seq<char>, Seq<(Seq<char>, Seq<char>)>)>, placed: Seq<bool>, queued: Seq<bool>, stack: Seq<usize>, order: Seq<usize>,
    f: int, w: usize)
    requires
        kahn(defs, placed, queued, stack, order, Some(f)),
        0 <= w < defs.len(),
        !placed[w as int],
        !queued[w as int],
        forall|b: int| #[trigger] struct_dep(defs, w as int, b) ==> placed[b],
    ensures
        kahn(defs, placed, queued.update(w as int, true), stack.push(w), order, Some(f)),
        count_false(queued.update(w as int, true)) + 1 == count_false(queued),
{
    let n = defs.len();
    let q2 = queued.update(w as int, true);
    let s2 = stack.push(w);
    lemma_count_false_set(queued, w as int);
    assert forall|m2: int| 0 <= m2 < n implies (#[trigger] q2[m2] <==> placed[m2] || occurs_u(s2, m2)) by {
        assert(queued[m2] <==> placed[m2] || occurs_u(stack, m2));
        if m2 == w {
            assert(s2[s2.len() - 1] == m2);
        } else if occurs_u(stack, m2) {
            let x = choose|x: int| 0 <= x < stack.len() && stack[x] == m2;
            assert(s2[x] == m2);
        } else if occurs_u(s2, m2) {
            let x = choose|x: int| 0 <= x < s2.len() && s2[x] == m2;
            assert(stack[x] == m2);
        }
    }
    assert forall|x: int, y: int| 0 <= x < y < s2.len() implies s2[x] != s2[y] by {
        if y == s2.len() - 1 && s2[x] == w {
            assert(stack[x] == w);
            assert(occurs_u(stack, w as int));
        }
    }
    assert forall|x: int| 0 <= x < s2.len() implies #[trigger] s2[x] < n && !placed[s2[x] as int] by {
        if x < stack.len() {
            assert(stack[x] == s2[x]);
        }
    }
    assert forall|x: int, b: int| 0 <= x < s2.len() && #[trigger] struct_dep(defs, s2[x] as int, b)
        implies placed[b] by {
        if x < stack.len() {
            assert(stack[x] == s2[x]);
        }
    }
}

/// Looks at the users of the struct `m` placed last, and stacks those that
/// are now ready.
fn release(Ghost(defs): Ghost<Seq<(Seq<char>, Seq<(Seq<char>, Seq<char>)>)>>, deps: &Vec<Vec<usize>>,
    ws: &Vec<usize>, m: usize, placed: &Vec<bool>, queued: &mut Vec<bool>, stack: &mut Vec<usize>, order: &Vec<usize>)
    requires
        deps_ok(defs, deps@),
        m < defs.len(),
        forall|x: int| 0 <= x < ws@.len() ==> struct_dep(defs, #[trigger] ws@[x] as int, m as int),
        forall|a: int| #[trigger] struct_dep(defs, a, m as int) ==> exists|x: int| 0 <= x < ws@.len() && ws@[x] == a,
        kahn(defs, placed@, old(queued)@, old(stack)@, order@, Some(m as int)),
    ensures
        kahn(defs, placed@, final(queued)@, final(stack)@, order@, None),
        2 * count_false(final(queued)@) + final(stack)@.len() <= 2 * count_false(old(queued)@) + old(stack)@.len(),
{
    let n = deps.len();
    let mut k: usize = 0;
    while k < ws.len()
        invariant
            k <= ws@.len(),
            n == defs.len(),
            deps_ok(defs, deps@),
            m < n,
            forall|x: int| 0 <= x < ws@.len() ==> struct_dep(defs, #[trigger] ws@[x] as int, m as int),
            forall|a: int| #[trigger] struct_dep(defs, a, m as int) ==> exists|x: int| 0 <= x < ws@.len() && ws@[x] == a,
            kahn(defs, placed@, queued@, stack@, order@, Some(m as int)),
            forall|m2: int| 0 <= m2 < n && !queued@[m2] ==> (exists|b: int| #[trigger] struct_dep(defs, m2, b) && !placed@[b])
                || (exists|x: int| k <= x < ws@.len() && ws@[x] == m2),
            2 * count_false(queued@) + stack@.len() <= 2 * count_false(old(queued)@) + old(stack)@.len(),
        decreases ws@.len() - k,
    {
        let w = ws[k];
        let ghost before = stack@;
        let ghost before_q = queued@;
        if !placed[w] && !queued[w] && all_done(&deps[w], placed) {
            proof {
                assert forall|b: int| #[trigger] struct_dep(defs, w as int, b) implies placed@[b] by {
                    let y = choose|y: int| 0 <= y < deps@[w as int]@.len() && deps@[w as int]@[y] == b;
                    assert(placed@[deps@[w as int]@[y] as int]);
                }
                lemma_release_push(defs, placed@, queued@, stack@, order@, m as int, w);
            }
            stack.push(w);
            queued.set(w, true);
            assert(queued@ =~= before_q.update(w as int, true));
        } else {
            proof {
                if !queued@[w as int] && !placed@[w as int] {
                    let y = choose|y: int| 0 <= y < deps@[w as int]@.len() && !placed@[#[trigger] deps@[w as int]@[y] as int];
                    assert(struct_dep(defs, w as int, deps@[w as int]@[y] as int));
                }
            }
        }
        k = k + 1;
    }
    proof {
        lemma_release_done(defs, placed@, queued@, stack@, order@, m as int);
    }
}

/// Once no struct waits only on the fresh one, the fresh mark can go.
proof fn lemma_release_done(defs: Seq<(Seq<char>, Seq<(Seq<char>, Seq<char>)>)>, placed: Seq<bool>, queued: Seq<bool>, stack: Seq<usize>, order: Seq<usize>, f: int)
    requires
        kahn(defs, placed, queued, stack, order, Some(f)),
        forall|m2: int| 0 <= m2 < defs.len() && !queued[m2] ==> exists|b: int| #[trigger] struct_dep(defs, m2, b) && !placed[b],
    ensures
        kahn(defs, placed, queued, stack, order, None),
{
}

/// When every struct is placed, the placing order is an order of the structs.
proof fn lemma_kahn_done(defs: Seq<(Seq<char>, Seq<(Seq<char>, Seq<char>)>)>, placed: Seq<bool>, queued: Seq<bool>, order: Seq<usize>)
    requires
        kahn(defs, placed, queued, Seq::empty(), order, None),
        order.len() == defs.len(),
    ensures
        dep_order(defs, Seq::new(order.len(), |i: int| order[i] as int)),
{
    let perm = Seq::new(order.len(), |i: int| order[i] as int);
    let n = defs.len();
    assert forall|m2: int| 0 <= m2 < n implies #[trigger] occurs(perm, m2) by {
        if !placed[m2] {
            assert(count_false(placed) == 0);
            lemma_count_false_some_all(placed, m2);
        }
        assert(occurs_u(order, m2));
        let x = choose|x: int| 0 <= x < order.len() && order[x] == m2;
        assert(perm[x] == m2);
    }
    assert forall|p: int, b: int| 0 <= p < perm.len() && #[trigger] struct_dep(defs, perm[p], b)
        implies exists|q: int| 0 <= q < p && perm[q] == b by {
        assert(struct_dep(defs, order[p] as int, b));
        let q = choose|q: int| 0 <= q < p && order[q] == b;
        assert(perm[q] == b);
    }
    assert forall|i: int| 0 <= i < perm.len() implies 0 <= #[trigger] perm[i] < defs.len() by {
        assert(order[i] < n);
    }
    assert forall|i: int, j: int| 0 <= i < j < perm.len() implies perm[i] != perm[j] by {
        assert(order[i] != order[j]);
    }
}

/// A `false` entry makes the count positive.
proof fn lemma_count_false_some_all(s: Seq<bool>, i: int)
    requires
        0 <= i < s.len(),
        !s[i],
    ensures
        count_false(s) > 0,
    decreases s.len(),
{
    if i < s.len() - 1 {
        lemma_count_false_some_all(s.drop_last(), i);
    }
}

/// When the stack runs empty before every struct is placed, the structs not
/// placed use each other in a cycle.
#[verifier::rlimit(30)]
proof fn lemma_kahn_stuck(defs: Seq<(Seq<char>, Seq<(Seq<char>, Seq<char>)>)>, placed: Seq<bool>, queued: Seq<bool>, order: Seq<usize>)
    requires
        kahn(defs, placed, queued, Seq::empty(), order, None),
        order.len() != defs.len(),
    ensures
        dep_cycle(defs),
{
    let n = defs.len();
    let c = Set::new(|m: int| 0 <= m < n && !placed[m]);
    lemma_count_false_some(placed);
    let m0 = choose|i: int| 0 <= i < placed.len() && !placed[i];
    assert(c.contains(m0));
    assert forall|m2: int| #[trigger] c.contains(m2) implies 0 <= m2 < defs.len()
        && exists|b: int| c.contains(b) && struct_dep(defs, m2, b) by {
        assert(!occurs_u(Seq::<usize>::empty(), m2));
        assert(!queued[m2]);
        let b = choose|b: int| #[trigger] struct_dep(defs, m2, b) && !placed[b];
        assert(c.contains(b));
    }
    assert(closed_deps(defs, c));
}

/// The view of the variants of an enum.
pub open spec fn variant_table(vs: Seq<(String, Vec<(String, String)>)>) -> Seq<(Seq<char>, Seq<(Seq<char>, Seq<char>)>)> {
    Seq::new(vs.len(), |v: int| (vs[v].0@, field_table(vs[v].1@)))
}

/// The view of an enum table.
pub open spec fn enum_table(et: Seq<(String, Vec<(String, Vec<(String, String)>)>)>)
    -> Seq<(Seq<char>, Seq<(Seq<char>, Seq<(Seq<char>, Seq<char>)>)>)> {
    Seq::new(et.len(), |i: int| (et[i].0@, variant_table(et[i].1@)))
}

/// The keys of a table.
pub open spec fn def_keys<V>(t: Seq<(Seq<char>, V)>) -> Seq<Seq<char>> {
    Seq::new(t.len(), |i: int| t[i].0)
}

/// Whether `i` is the first index of key `k`.
pub open spec fn first_key<V>(t: Seq<(Seq<char>, V)>, k: Seq<char>, i: int) -> bool {
    0 <= i < t.len() && t[i].0 == k && forall|j: int| 0 <= j < i ==> t[j].0 != k
}

/// The table with the value of key `k` set to `v`: the first entry of that key
/// is replaced, or an entry is added at the end.
pub open spec fn set_entry<V>(t: Seq<(Seq<char>, V)>, k: Seq<char>, v: V) -> Seq<(Seq<char>, V)> {
    if exists|i: int| first_key(t, k, i) {
        t.update(choose|i: int| first_key(t, k, i), (k, v))
    } else {
        t.push((k, v))
    }
}

/// The fields of a variant with their C types.
pub open spec fn field_ctypes(sk: Seq<Seq<char>>, ek: Seq<Seq<char>>, fs: Seq<crate::ast::TypeField>)
    -> Seq<(Seq<char>, Seq<char>)> {
    Seq::new(fs.len(), |k: int| (fs[k].name@, ctype_of(sk, ek, Some(te_str(fs[k].type_expr)))))
}

/// The struct and enum tables after one statement: a `type` with a single
/// variant of its own name is a struct, any other `type` an enum.
pub open spec fn collect_step(
    st: Seq<(Seq<char>, Seq<(Seq<char>, Seq<char>)>)>,
    en: Seq<(Seq<char>, Seq<(Seq<char>, Seq<(Seq<char>, Seq<char>)>)>)>,
    s: Stmt,
) -> (Seq<(Seq<char>, Seq<(Seq<char>, Seq<char>)>)>, Seq<(Seq<char>, Seq<(Seq<char>, Seq<(Seq<char>, Seq<char>)>)>)>) {
    match s {
        Stmt::Type { name, variants, .. } => if variants@.len() == 1 && variants@[0].name@ == name@ {
            (set_entry(st, name@, field_ctypes(def_keys(st), def_keys(en), variants@[0].fields@)), en)
        } else {
            (st, set_entry(en, name@, Seq::new(variants@.len(), |v: int| (variants@[v].name@,
                field_ctypes(def_keys(st), def_keys(en), variants@[v].fields@)))))
        },
        _ => (st, en),
    }
}

/// The struct and enum tables after a list of statements.
pub open spec fn collect(
    st: Seq<(Seq<char>, Seq<(Seq<char>, Seq<char>)>)>,
    en: Seq<(Seq<char>, Seq<(Seq<char>, Seq<(Seq<char>, Seq<char>)>)>)>,
    stmts: Seq<Stmt>,
) -> (Seq<(Seq<char>, Seq<(Seq<char>, Seq<char>)>)>, Seq<(Seq<char>, Seq<(Seq<char>, Seq<(Seq<char>, Seq<char>)>)>)>)
    decreases stmts.len(),
{
    if stmts.len() == 0 {
        (st, en)
    } else {
        let p = collect(st, en, stmts.drop_last());
        collect_step(p.0, p.1, stmts.last())
    }
}

/// A generator of C code from a program.
pub struct Codegen {
    output: String,
    indent: usize,
    var_count: usize,
    current_fn: Option<String>,
    struct_types: Vec<(String, Vec<(String, String)>)>,
    enum_types: Vec<(String, Vec<(String, Vec<(String, String)>)>)>,
    fn_types: Vec<(String, String)>,
    var_types: Vec<(String, String)>,
}

impl Codegen {
    /// The code emitted so far.
    pub closed spec fn out(&self) -> Seq<char> {
        self.output@
    }

    /// The number of temporary names handed out.
    pub closed spec fn counter(&self) -> nat {
        self.var_count as nat
    }

    /// The current indentation depth.
    pub closed spec fn depth(&self) -> nat {
        self.indent as nat
    }

    /// The names of the structs known.
    pub closed spec fn structs(&self) -> Seq<Seq<char>> {
        keys_of(self.struct_types@)
    }

    /// The structs known: each name with its fields' names and C types.
    pub closed spec fn struct_defs(&self) -> Seq<(Seq<char>, Seq<(Seq<char>, Seq<char>)>)> {
        struct_table(self.struct_types@)
    }

    /// The enums known: each name with its variants, each with its fields'
    /// names and C types.
    pub closed spec fn enum_defs(&self) -> Seq<(Seq<char>, Seq<(Seq<char>, Seq<(Seq<char>, Seq<char>)>)>)> {
        enum_table(self.enum_types@)
    }

    /// The names of the enums known.
    pub closed spec fn enums(&self) -> Seq<Seq<char>> {
        keys_of(self.enum_types@)
    }

    /// The C types of variables.
    pub closed spec fn vars(&self) -> Seq<(String, String)> {
        self.var_types@
    }

    /// The name of the function whose body is being generated, if any.
    pub closed spec fn current(&self) -> Option<Seq<char>> {
        match self.current_fn {
            Some(f) => Some(f@),
            None => None,
        }
    }

    /// The C return types of functions.
    pub closed spec fn fns(&self) -> Seq<(String, String)> {
        self.fn_types@
    }

    /// `after` extends the code emitted here and knows the same types and functions.
    pub closed spec fn grew(&self, after: &Codegen) -> bool {
        &&& after.output@.len() >= self.output@.len()
        &&& forall|i: int| 0 <= i < self.output@.len() ==> #[trigger] after.output@[i] == self.output@[i]
        &&& after.struct_types == self.struct_types
        &&& after.enum_types == self.enum_types
        &&& after.fn_types == self.fn_types
        &&& after.var_count >= self.var_count
    }

    /// A generator with no code, no types and no temporaries.
    pub fn new() -> (r: Self)
        ensures
            r.out().len() == 0,
            r.counter() == 0,
            r.depth() == 0,
            r.structs().len() == 0,
            r.enums().len() == 0,
            r.vars().len() == 0,
            r.fns().len() == 0,
            r.current() is None,
    {
        Codegen {
            output: String::new(),
            indent: 0,
            var_count: 0,
            current_fn: None,
            struct_types: Vec::new(),
            enum_types: Vec::new(),
            fn_types: Vec::new(),
            var_types: Vec::new(),
        }
    }

    /// Appends text to the output.
    pub fn emit(&mut self, s: &str)
        ensures
            final(self).out() == old(self).out() + s@,
            old(self).grew(final(self)),
            final(self).depth() == old(self).depth(),
            final(self).vars() == old(self).vars(),
    {
        push_str(&mut self.output, s);
    }

    /// Appends a line: four spaces per indentation level, the text, and a newline.
    pub fn emit_line(&mut self, s: &str)
        ensures
            final(self).out() == old(self).out() + spaces(old(self).depth()) + s@ + seq!['\n'],
            old(self).grew(final(self)),
            final(self).depth() == old(self).depth(),
            final(self).vars() == old(self).vars(),
    {
        let mut k: usize = 0;
        while k < self.indent
            invariant
                k <= self.indent,
                self.indent == old(self).indent,
                self.output@ == old(self).output@ + spaces(k as nat),
                self.struct_types == old(self).struct_types,
                self.enum_types == old(self).enum_types,
                self.fn_types == old(self).fn_types,
                self.var_types == old(self).var_types,
                self.var_count == old(self).var_count,
            decreases self.indent - k,
        {
            push_str(&mut self.output, "    ");
            assert(self.output@ =~= old(self).output@ + spaces((k + 1) as nat));
            k = k + 1;
        }
        push_str(&mut self.output, s);
        push_char(&mut self.output, '\n');
        assert(self.output@ =~= old(self).out() + spaces(old(self).depth()) + s@ + seq!['\n']);
    }

    /// One level deeper.
    fn indent_in(&mut self)
        ensures
            old(self).grew(final(self)),
            final(self).out() == old(self).out(),
            final(self).vars() == old(self).vars(),
            old(self).depth() < usize::MAX ==> final(self).depth() == old(self).depth() + 1,
    {
        if self.indent < usize::MAX {
            self.indent = self.indent + 1;
        }
    }

    /// One level shallower.
    fn indent_out(&mut self)
        ensures
            old(self).grew(final(self)),
            final(self).out() == old(self).out(),
            final(self).vars() == old(self).vars(),
            old(self).depth() > 0 ==> final(self).depth() == old(self).depth() - 1,
    {
        if self.indent > 0 {
            self.indent = self.indent - 1;
        }
    }

    /// The name used to pick the C type of a type expression.
    pub fn te_string(&self, te: &TypeExpr) -> (r: String)
        ensures
            r@ == te_str(*te),
        decreases te, 1nat,
    {
        match te {
            TypeExpr::Named(n) => n.clone(),
            TypeExpr::Generic(n, args) => {
                if args.len() == 0 {
                    return n.clone();
                }
                let mut out = n.clone();
                push_str(&mut out, "_T_");
                self.push_te_join(&mut out, args);
                out
            },
            TypeExpr::Fn(_, _) => String::from_str("Fn"),
            TypeExpr::Tuple(ts) => {
                let mut out = String::from_str("Tuple");
                push_usize(&mut out, ts.len());
                out
            },
            TypeExpr::Infer => String::from_str("Unknown"),
        }
    }

    /// Appends the names of the type expressions joined by `_`.
    fn push_te_join(&self, out: &mut String, args: &Vec<TypeExpr>)
        ensures
            final(out)@ == old(out)@ + te_join(args@),
        decreases args@, 0nat,
    {
        let mut i: usize = 0;
        while i < args.len()
            invariant
                i <= args@.len(),
                out@ == old(out)@ + te_join(args@.take(i as int)),
            decreases args@.len() - i,
        {
            if i > 0 {
                push_str(out, "_");
            }
            proof {
                broadcast use vstd::std_specs::vec::group_vec_axioms;
                assert(decreases_to!(args@ => args@[i as int]));
            }
            let part = self.te_string(&args[i]);
            push_str(out, part.as_str());
            proof {
                assert(args@.take(i + 1).drop_last() =~= args@.take(i as int));
                if i == 0 {
                    assert(te_join(args@.take(0)) =~= Seq::<char>::empty());
                }
                assert(out@ =~= old(out)@ + te_join(args@.take(i + 1)));
            }
            i = i + 1;
        }
        assert(args@.take(args@.len() as int) =~= args@);
    }

    /// The index of a struct name.
    fn find_struct(&self, s: &str) -> (r: Option<usize>)
        ensures
            r matches Some(i) ==> i < self.struct_types@.len() && self.structs()[i as int] == s@
                && forall|j: int| 0 <= j < i ==> self.structs()[j] != s@,
            r is Some <==> self.structs().contains(s@),
    {
        let mut i: usize = 0;
        while i < self.struct_types.len()
            invariant
                i <= self.struct_types@.len(),
                forall|j: int| 0 <= j < i ==> self.struct_types@[j].0@ != s@,
            decreases self.struct_types@.len() - i,
        {
            if eq_str(&self.struct_types[i].0, s) {
                assert(self.structs()[i as int] == s@);
                return Some(i);
            }
            i = i + 1;
        }
        assert(!self.structs().contains(s@)) by {
            if self.structs().contains(s@) {
                let j = choose|j: int| 0 <= j < self.structs().len() && self.structs()[j] == s@;
                assert(self.struct_types@[j].0@ == s@);
            }
        }
        None
    }

    /// The structs that struct `a` uses (see `struct_dep`).
    #[verifier::loop_isolation(false)]
    fn struct_dep_row(&self, a: usize) -> (row: Vec<usize>)
        requires
            a < self.struct_defs().len(),
        ensures
            forall|x: int| 0 <= x < row@.len() ==> struct_dep(self.struct_defs(), a as int, #[trigger] row@[x] as int),
            forall|b: int| #[trigger] struct_dep(self.struct_defs(), a as int, b)
                ==> exists|x: int| 0 <= x < row@.len() && row@[x] == b,
    {
        let ghost defs = self.struct_defs();
        let fields = &self.struct_types[a].1;
        assert(defs[a as int].1.len() == fields@.len());
        assert(forall|i: int| 0 <= i < defs.len() ==> #[trigger] defs[i].0 == self.structs()[i]);
        let mut row: Vec<usize> = Vec::new();
        let mut k: usize = 0;
        while k < fields.len()
            invariant
                k <= fields@.len(),
                forall|x: int| 0 <= x < row@.len() ==> struct_dep(defs, a as int, #[trigger] row@[x] as int),
                forall|b: int| #[trigger] struct_dep(defs, a as int, b)
                    && (exists|k2: int| 0 <= k2 < k && trim(#[trigger] defs[a as int].1[k2].1) == defs[b].0)
                    ==> exists|x: int| 0 <= x < row@.len() && row@[x] == b,
            decreases fields@.len() - k,
        {
            let t = trim_text(&fields[k].1);
            assert(defs[a as int].1[k as int].1 == fields@[k as int].1@);
            let ghost before = row@;
            match self.find_struct(t.as_str()) {
                Some(j) => {
                    if !eq_str(&self.struct_types[j].0, self.struct_types[a].0.as_str()) {
                        row.push(j);
                        assert(defs[j as int].0 == t@);
                        assert(trim(defs[a as int].1[k as int].1) == defs[j as int].0);
                        assert(struct_dep(defs, a as int, j as int));
                    }
                },
                None => {},
            }
            proof {
                assert forall|b: int| #[trigger] struct_dep(defs, a as int, b)
                    && (exists|k2: int| 0 <= k2 < k + 1 && trim(#[trigger] defs[a as int].1[k2].1) == defs[b].0)
                    implies exists|x: int| 0 <= x < row@.len() && row@[x] == b by {
                    let k2 = choose|k2: int| 0 <= k2 < k + 1 && trim(#[trigger] defs[a as int].1[k2].1) == defs[b].0;
                    if k2 == k {
                        assert(self.structs()[b] == defs[b].0);
                        assert(self.structs().contains(t@));
                        let x = (row@.len() - 1) as int;
                        assert(row@[x] == b);
                    } else {
                        let x = choose|x: int| 0 <= x < before.len() && before[x] == b;
                        assert(row@[x] == b);
                    }
                }
            }
            k = k + 1;
        }
        proof {
            assert forall|b: int| #[trigger] struct_dep(defs, a as int, b)
                implies exists|x: int| 0 <= x < row@.len() && row@[x] == b by {
                let k2 = choose|k2: int| 0 <= k2 < defs[a as int].1.len() && trim(#[trigger] defs[a as int].1[k2].1) == defs[b].0;
                assert(0 <= k2 < k);
            }
        }
        row
    }

    /// For each struct, the structs it uses (see `struct_dep`).
    fn struct_deps(&self) -> (deps: Vec<Vec<usize>>)
        ensures
            deps@.len() == self.struct_defs().len(),
            forall|a: int, x: int| 0 <= a < deps@.len() && 0 <= x < deps@[a]@.len()
                ==> struct_dep(self.struct_defs(), a, #[trigger] deps@[a]@[x] as int),
            forall|a: int, b: int| #[trigger] struct_dep(self.struct_defs(), a, b)
                ==> exists|x: int| 0 <= x < deps@[a]@.len() && deps@[a]@[x] == b,
    {
        let ghost defs = self.struct_defs();
        let n = self.struct_types.len();
        let mut deps: Vec<Vec<usize>> = Vec::new();
        let mut a: usize = 0;
        while a < n
            invariant
                a <= n == defs.len(),
                defs == self.struct_defs(),
                deps@.len() == a,
                forall|a2: int, x: int| 0 <= a2 < a && 0 <= x < deps@[a2]@.len()
                    ==> struct_dep(defs, a2, #[trigger] deps@[a2]@[x] as int),
                forall|a2: int, b: int| 0 <= a2 < a && #[trigger] struct_dep(defs, a2, b)
                    ==> exists|x: int| 0 <= x < deps@[a2]@.len() && deps@[a2]@[x] == b,
            decreases n - a,
        {
            let row = self.struct_dep_row(a);
            let ghost before = deps@;
            deps.push(row);
            proof {
                assert forall|a2: int, b: int| 0 <= a2 < a + 1 && #[trigger] struct_dep(defs, a2, b)
                    implies exists|x: int| 0 <= x < deps@[a2]@.len() && deps@[a2]@[x] == b by {
                    assert(deps@[a2] == (if a2 < a { before[a2] } else { row }));
                }
            }
            a = a + 1;
        }
        deps
    }

    /// For each struct, the structs that use it.
    #[verifier::loop_isolation(false)]
    fn struct_users(&self, deps: &Vec<Vec<usize>>) -> (users: Vec<Vec<usize>>)
        requires
            deps@.len() == self.struct_defs().len(),
            forall|a: int, x: int| 0 <= a < deps@.len() && 0 <= x < deps@[a]@.len()
                ==> struct_dep(self.struct_defs(), a, #[trigger] deps@[a]@[x] as int),
            forall|a: int, b: int| #[trigger] struct_dep(self.struct_defs(), a, b)
                ==> exists|x: int| 0 <= x < deps@[a]@.len() && deps@[a]@[x] == b,
        ensures
            users@.len() == deps@.len(),
            forall|b: int, x: int| 0 <= b < users@.len() && 0 <= x < users@[b]@.len()
                ==> struct_dep(self.struct_defs(), #[trigger] users@[b]@[x] as int, b),
            forall|a: int, b: int| #[trigger] struct_dep(self.struct_defs(), a, b)
                ==> exists|x: int| 0 <= x < users@[b]@.len() && users@[b]@[x] == a,
    {
        let ghost defs = self.struct_defs();
        let n = deps.len();
        let mut users: Vec<Vec<usize>> = Vec::new();
        let mut b: usize = 0;
        while b < n
            invariant
                b <= n,
                users@.len() == b,
                forall|b2: int, x: int| 0 <= b2 < b && 0 <= x < users@[b2]@.len()
                    ==> struct_dep(defs, #[trigger] users@[b2]@[x] as int, b2),
                forall|a: int, b2: int| 0 <= b2 < b && #[trigger] struct_dep(defs, a, b2)
                    ==> exists|x: int| 0 <= x < users@[b2]@.len() && users@[b2]@[x] == a,
            decreases n - b,
        {
            let mut row: Vec<usize> = Vec::new();
            let mut a: usize = 0;
            while a < n
                invariant
                    a <= n,
                    forall|x: int| 0 <= x < row@.len() ==> struct_dep(defs, #[trigger] row@[x] as int, b as int),
                    forall|a2: int| 0 <= a2 < a && #[trigger] struct_dep(defs, a2, b as int)
                        ==> exists|x: int| 0 <= x < row@.len() && row@[x] == a2,
                decreases n - a,
            {
                let ghost before = row@;
                if vec_has(&deps[a], b) {
                    row.push(a);
                }
                proof {
                    assert forall|a2: int| 0 <= a2 < a + 1 && #[trigger] struct_dep(defs, a2, b as int)
                        implies exists|x: int| 0 <= x < row@.len() && row@[x] == a2 by {
                        if a2 < a {
                            let x = choose|x: int| 0 <= x < before.len() && before[x] == a2;
                            assert(row@[x] == a2);
                        } else {
                            assert(row@[row@.len() - 1] == a2);
                        }
                    }
                }
                a = a + 1;
            }
            proof {
                assert forall|a2: int| #[trigger] struct_dep(defs, a2, b as int)
                    implies exists|x: int| 0 <= x < row@.len() && row@[x] == a2 by {
                    assert(0 <= a2 < n);
                }
            }
            let ghost before = users@;
            users.push(row);
            proof {
                assert forall|a2: int, b2: int| 0 <= b2 < b + 1 && #[trigger] struct_dep(defs, a2, b2)
                    implies exists|x: int| 0 <= x < users@[b2]@.len() && users@[b2]@[x] == a2 by {
                    assert(users@[b2] == (if b2 < b { before[b2] } else { row }));
                }
            }
            b = b + 1;
        }
        users
    }

    /// Orders the structs so that each comes after the structs it uses, by
    /// Kahn's algorithm: a struct is ready once all the structs it uses are
    /// placed; ready structs wait on a stack. `None` when the structs use each
    /// other in a cycle.
    fn dep_sort(&self) -> (r: Option<Vec<usize>>)
        ensures
            r matches Some(order) ==> dep_order(self.struct_defs(), Seq::new(order@.len(), |i: int| order@[i] as int)),
            r is None ==> dep_cycle(self.struct_defs()),
    {
        let ghost defs = self.struct_defs();
        let n = self.struct_types.len();
        let deps = self.struct_deps();
        let users = self.struct_users(&deps);
        let (mut placed, mut queued, mut stack) = initial_stack(Ghost(defs), &deps);
        let mut order: Vec<usize> = Vec::new();
        while stack.len() > 0
            invariant
                deps_ok(defs, deps@),
                users_ok(defs, users@),
                kahn(defs, placed@, queued@, stack@, order@, None),
            decreases 2 * count_false(queued@) + stack@.len(),
        {
            let m = place_top(Ghost(defs), &mut placed, &queued, &mut stack, &mut order);
            release(Ghost(defs), &deps, &users[m], m, &placed, &mut queued, &mut stack, &order);
        }
        assert(stack@ =~= Seq::<usize>::empty());
        if order.len() == n {
            proof {
                lemma_kahn_done(defs, placed@, queued@, order@);
            }
            Some(order)
        } else {
            proof {
                lemma_kahn_stuck(defs, placed@, queued@, order@);
            }
            None
        }
    }

    /// The struct names in the order their C definitions must come: each
    /// struct after the structs its fields use. When the structs use each
    /// other in a cycle, no such order exists and the names come in
    /// declaration order.
    pub fn sorted_structs(&self) -> (r: Vec<String>)
        ensures
            !dep_cycle(self.struct_defs()) ==> exists|perm: Seq<int>| dep_order(self.struct_defs(), perm)
                && r@.len() == perm.len()
                && forall|i: int| 0 <= i < r@.len() ==> #[trigger] r@[i]@ == self.struct_defs()[perm[i]].0,
            dep_cycle(self.struct_defs()) ==> r@.len() == self.struct_defs().len()
                && forall|i: int| 0 <= i < r@.len() ==> #[trigger] r@[i]@ == self.struct_defs()[i].0,
    {
        let ghost defs = self.struct_defs();
        let mut names: Vec<String> = Vec::new();
        match self.dep_sort() {
            Some(order) => {
                let ghost perm = Seq::new(order@.len(), |i: int| order@[i] as int);
                proof {
                    lemma_order_excludes_cycle(defs, perm);
                }
                let mut i: usize = 0;
                while i < order.len()
                    invariant
                        i <= order@.len(),
                        defs == self.struct_defs(),
                        dep_order(defs, perm),
                        perm == Seq::new(order@.len(), |i: int| order@[i] as int),
                        names@.len() == i,
                        forall|j: int| 0 <= j < i ==> #[trigger] names@[j]@ == defs[perm[j]].0,
                    decreases order@.len() - i,
                {
                    assert(perm[i as int] == order@[i as int]);
                    assert(0 <= perm[i as int] < defs.len());
                    names.push(self.struct_types[order[i]].0.clone());
                    i = i + 1;
                }
            },
            None => {
                let mut i: usize = 0;
                while i < self.struct_types.len()
                    invariant
                        i <= self.struct_types@.len(),
                        defs == self.struct_defs(),
                        names@.len() == i,
                        forall|j: int| 0 <= j < i ==> #[trigger] names@[j]@ == defs[j].0,
                    decreases self.struct_types@.len() - i,
                {
                    names.push(self.struct_types[i].0.clone());
                    i = i + 1;
                }
            },
        }
        names
    }

    /// The struct and enum names are the keys of their tables.
    proof fn lemma_keys(&self)
        ensures
            self.structs() == def_keys(self.struct_defs()),
            self.enums() == def_keys(self.enum_defs()),
    {
        assert(self.structs() =~= def_keys(self.struct_defs()));
        assert(self.enums() =~= def_keys(self.enum_defs()));
    }

    /// The fields with their C types.
    fn field_ctype_list(&self, fs: &Vec<TypeField>) -> (r: Vec<(String, String)>)
        ensures
            field_table(r@) == field_ctypes(def_keys(self.struct_defs()), def_keys(self.enum_defs()), fs@),
    {
        proof {
            self.lemma_keys();
        }
        let mut r: Vec<(String, String)> = Vec::new();
        let mut k: usize = 0;
        while k < fs.len()
            invariant
                k <= fs@.len(),
                self.structs() == def_keys(self.struct_defs()),
                self.enums() == def_keys(self.enum_defs()),
                r@.len() == k,
                field_table(r@) == field_ctypes(def_keys(self.struct_defs()), def_keys(self.enum_defs()), fs@.take(k as int)),
            decreases fs@.len() - k,
        {
            let t = self.te_string(&fs[k].type_expr);
            let c = self.mi_ctype(Some(t.as_str()));
            let nm = fs[k].name.clone();
            let ghost before = r@;
            r.push((nm, c));
            assert(field_table(r@)[k as int] == (fs@[k as int].name@, ctype_of(def_keys(self.struct_defs()), def_keys(self.enum_defs()), Some(te_str(fs@[k as int].type_expr)))));
            assert forall|j: int| 0 <= j < k implies field_table(r@)[j] == field_table(before)[j] by {
                assert(r@[j] == before[j]);
            }
            let ghost sk = def_keys(self.struct_defs());
            let ghost ek = def_keys(self.enum_defs());
            assert forall|j: int| 0 <= j < k + 1 implies #[trigger] field_table(r@)[j] == field_ctypes(sk, ek, fs@.take(k + 1))[j] by {
                if j < k {
                    assert(field_table(before)[j] == field_ctypes(sk, ek, fs@.take(k as int))[j]);
                    assert(fs@.take(k as int)[j] == fs@[j]);
                    assert(fs@.take(k + 1)[j] == fs@[j]);
                } else {
                    assert(fs@.take(k + 1)[j] == fs@[j]);
                }
            }
            assert(field_table(r@) =~= field_ctypes(sk, ek, fs@.take(k + 1)));
            k = k + 1;
        }
        assert(fs@.take(fs@.len() as int) =~= fs@);
        r
    }

    /// Sets the fields of the struct `name`.
    fn set_struct(&mut self, name: String, fields: Vec<(String, String)>)
        ensures
            final(self).struct_defs() == set_entry(old(self).struct_defs(), name@, field_table(fields@)),
            final(self).enum_defs() == old(self).enum_defs(),
            final(self).out() == old(self).out(),
            final(self).counter() == old(self).counter(),
            final(self).depth() == old(self).depth(),
            final(self).vars() == old(self).vars(),
            final(self).fns() == old(self).fns(),
    {
        let ghost t = self.struct_defs();
        proof {
            self.lemma_keys();
        }
        assert(forall|j: int| 0 <= j < t.len() ==> #[trigger] t[j].0 == self.structs()[j]);
        match self.find_struct(name.as_str()) {
            Some(i) => {
                assert(first_key(t, name@, i as int));
                self.struct_types.set(i, (name, fields));
                assert(self.struct_defs() =~= t.update(i as int, (name@, field_table(fields@))));
            },
            None => {
                assert(!exists|i: int| first_key(t, name@, i)) by {
                    if exists|i: int| first_key(t, name@, i) {
                        let i = choose|i: int| first_key(t, name@, i);
                        assert(old(self).structs()[i] == name@);
                    }
                }
                self.struct_types.push((name, fields));
                assert(self.struct_defs() =~= t.push((name@, field_table(fields@))));
            },
        }
    }

    /// Sets the variants of the enum `name`.
    fn set_enum(&mut self, name: String, variants: Vec<(String, Vec<(String, String)>)>)
        ensures
            final(self).enum_defs() == set_entry(old(self).enum_defs(), name@, variant_table(variants@)),
            final(self).struct_defs() == old(self).struct_defs(),
            final(self).out() == old(self).out(),
            final(self).counter() == old(self).counter(),
            final(self).depth() == old(self).depth(),
            final(self).vars() == old(self).vars(),
            final(self).fns() == old(self).fns(),
    {
        let ghost t = self.enum_defs();
        proof {
            self.lemma_keys();
        }
        assert(forall|j: int| 0 <= j < t.len() ==> #[trigger] t[j].0 == self.enums()[j]);
        match self.find_enum(name.as_str()) {
            Some(i) => {
                assert(first_key(t, name@, i as int));
                self.enum_types.set(i, (name, variants));
                assert(self.enum_defs() =~= t.update(i as int, (name@, variant_table(variants@))));
            },
            None => {
                assert(!exists|i: int| first_key(t, name@, i)) by {
                    if exists|i: int| first_key(t, name@, i) {
                        let i = choose|i: int| first_key(t, name@, i);
                        assert(old(self).enums()[i] == name@);
                    }
                }
                self.enum_types.push((name, variants));
                assert(self.enum_defs() =~= t.push((name@, variant_table(variants@))));
            },
        }
    }

    /// Records the structs and enums that the program's `type` statements define.
    fn collect_types(&mut self, program: &Program)
        ensures
            (final(self).struct_defs(), final(self).enum_defs())
                == collect(old(self).struct_defs(), old(self).enum_defs(), program.stmts@),
            final(self).out() == old(self).out(),
            final(self).counter() == old(self).counter(),
            final(self).depth() == old(self).depth(),
            final(self).vars() == old(self).vars(),
            final(self).fns() == old(self).fns(),
    {
        let stmts = &program.stmts;
        let mut i: usize = 0;
        assert(stmts@.take(0) =~= Seq::<Stmt>::empty());
        while i < stmts.len()
            invariant
                i <= stmts@.len(),
                stmts@ == program.stmts@,
                (self.struct_defs(), self.enum_defs()) == collect(old(self).struct_defs(), old(self).enum_defs(), stmts@.take(i as int)),
                self.out() == old(self).out(),
                self.counter() == old(self).counter(),
                self.depth() == old(self).depth(),
                self.vars() == old(self).vars(),
                self.fns() == old(self).fns(),
            decreases stmts@.len() - i,
        {
            let ghost st = self.struct_defs();
            let ghost en = self.enum_defs();
            assert(stmts@.take(i + 1).drop_last() =~= stmts@.take(i as int));
            match &stmts[i] {
                Stmt::Type { name, variants, .. } => {
                    if variants.len() == 1 && variants[0].name == *name {
                        let fields = self.field_ctype_list(&variants[0].fields);
                        self.set_struct(name.clone(), fields);
                    } else {
                        let mut vs: Vec<(String, Vec<(String, String)>)> = Vec::new();
                        let mut v: usize = 0;
                        while v < variants.len()
                            invariant
                                v <= variants@.len(),
                                self.struct_defs() == st,
                                self.enum_defs() == en,
                                vs@.len() == v,
                                variant_table(vs@) == Seq::new(v as nat, |x: int| (variants@[x].name@,
                                    field_ctypes(def_keys(st), def_keys(en), variants@[x].fields@))),
                            decreases variants@.len() - v,
                        {
                            let fields = self.field_ctype_list(&variants[v].fields);
                            let vn = variants[v].name.clone();
                            let ghost before = vs@;
                            vs.push((vn, fields));
                            assert forall|j: int| 0 <= j < v implies variant_table(vs@)[j] == variant_table(before)[j] by {
                                assert(vs@[j] == before[j]);
                            }
                            assert forall|j: int| 0 <= j < v + 1 implies #[trigger] variant_table(vs@)[j] == (variants@[j].name@,
                                field_ctypes(def_keys(st), def_keys(en), variants@[j].fields@)) by {
                                if j < v {
                                    assert(variant_table(before)[j] == Seq::new(v as nat, |x: int| (variants@[x].name@,
                                        field_ctypes(def_keys(st), def_keys(en), variants@[x].fields@)))[j]);
                                }
                            }
                            assert(variant_table(vs@) =~= Seq::new((v + 1) as nat, |x: int| (variants@[x].name@,
                                field_ctypes(def_keys(st), def_keys(en), variants@[x].fields@))));
                            v = v + 1;
                        }
                        self.set_enum(name.clone(), vs);
                        assert(variant_table(vs@) =~= Seq::new(variants@.len(), |x: int| (variants@[x].name@,
                            field_ctypes(def_keys(st), def_keys(en), variants@[x].fields@))));
                    }
                },
                _ => {},
            }
            i = i + 1;
        }
        assert(stmts@.take(stmts@.len() as int) =~= stmts@);
    }

    /// The index of an enum name.
    fn find_enum(&self, s: &str) -> (r: Option<usize>)
        ensures
            r matches Some(i) ==> i < self.enum_types@.len() && self.enums()[i as int] == s@
                && forall|j: int| 0 <= j < i ==> self.enums()[j] != s@,
            r is Some <==> self.enums().contains(s@),
    {
        let mut i: usize = 0;
        while i < self.enum_types.len()
            invariant
                i <= self.enum_types@.len(),
                forall|j: int| 0 <= j < i ==> self.enum_types@[j].0@ != s@,
            decreases self.enum_types@.len() - i,
        {
            if eq_str(&self.enum_types[i].0, s) {
                assert(self.enums()[i as int] == s@);
                return Some(i);
            }
            i = i + 1;
        }
        assert(!self.enums().contains(s@)) by {
            if self.enums().contains(s@) {
                let j = choose|j: int| 0 <= j < self.enums().len() && self.enums()[j] == s@;
                assert(self.enum_types@[j].0@ == s@);
            }
        }
        None
    }

    /// The C type for a type name (see `ctype_of`).
    pub fn mi_ctype(&self, midori_type: Option<&str>) -> (r: String)
        ensures
            r@ == ctype_of(self.structs(), self.enums(), match midori_type {
                Some(s) => Some(s@),
                None => None,
            }),
    {
        match midori_type {
            None => String::from_str("mi_int"),
            Some(s) => {
                let owned = String::from_str(s);
                if eq_str(&owned, "Unknown") || eq_str(&owned, "Int") {
                    String::from_str("mi_int")
                } else if eq_str(&owned, "Float") {
                    String::from_str("mi_float")
                } else if eq_str(&owned, "Bool") {
                    String::from_str("mi_bool")
                } else if eq_str(&owned, "Str") {
                    String::from_str("mi_str")
                } else if eq_str(&owned, "Char") {
                    String::from_str("mi_char")
                } else if eq_str(&owned, "Nil") {
                    String::from_str("mi_nil_t")
                } else if self.find_struct(s).is_some() || self.find_enum(s).is_some() {
                    owned
                } else {
                    let arr = has_prefix(s, "[") || has_prefix(s, "Array");
                    if arr {
                        String::from_str("mi_array")
                    } else {
                        owned
                    }
                }
            },
        }
    }

    /// The C type of an optional type annotation.
    fn annotation_ctype(&self, te: &Option<TypeExpr>) -> (r: String)
        ensures
            r@ == ctype_of(self.structs(), self.enums(), match te {
                Some(t) => Some(te_str(*t)),
                None => None,
            }),
    {
        match te {
            Some(t) => {
                let s = self.te_string(t);
                self.mi_ctype(Some(s.as_str()))
            },
            None => self.mi_ctype(None),
        }
    }

    /// The C zero value for a type name.
    pub fn c_literal(&self, midori_type: Option<&str>) -> (r: String)
        ensures
            r@ == c_zero(match midori_type {
                Some(s) => Some(s@),
                None => None,
            }),
    {
        match midori_type {
            None => String::from_str("0"),
            Some(s) => {
                let owned = String::from_str(s);
                if eq_str(&owned, "Int") || eq_str(&owned, "Bool") {
                    String::from_str("0")
                } else if eq_str(&owned, "Float") {
                    String::from_str("0.0")
                } else if eq_str(&owned, "Str") {
                    String::from_str("mi_str_empty()")
                } else if eq_str(&owned, "Char") {
                    String::from_str("'\\0'")
                } else if eq_str(&owned, "Nil") {
                    String::from_str("")
                } else {
                    String::from_str("{0}")
                }
            },
        }
    }

    /// The C type guessed for an expression (see `infer_c`).
    pub fn infer_ctype(&self, expr: &Expr) -> (r: String)
        ensures
            r@ == infer_c(self.vars(), self.fns(), *expr),
    {
        match expr {
            Expr::Int(_) => String::from_str("mi_int"),
            Expr::Float(_) => String::from_str("mi_float"),
            Expr::Bool(_) => String::from_str("mi_bool"),
            Expr::Str(_, _) => String::from_str("mi_str"),
            Expr::Char(_) => String::from_str("mi_char"),
            Expr::Nil => String::from_str("mi_nil_t"),
            Expr::Ident(name) => match find_text(&self.var_types, name) {
                Some(i) => self.var_types[i].1.clone(),
                None => String::from_str("mi_int"),
            },
            Expr::Call(callee, _) => match &**callee {
                Expr::Ident(n) => {
                    if eq_str(n, "range") || eq_str(n, "len") || eq_str(n, "len_str") {
                        String::from_str("mi_int")
                    } else if eq_str(n, "str") || eq_str(n, "str_bool") || eq_str(n, "str_char")
                        || eq_str(n, "read_file") || eq_str(n, "str_float") {
                        String::from_str("mi_str")
                    } else if eq_str(n, "print") || eq_str(n, "println") {
                        String::from_str("mi_nil_t")
                    } else if eq_str(n, "os_args") {
                        String::from_str("mi_array")
                    } else {
                        match find_text(&self.fn_types, n) {
                            Some(i) => self.fn_types[i].1.clone(),
                            None => String::from_str("mi_int"),
                        }
                    }
                },
                _ => String::from_str("mi_int"),
            },
            Expr::Array(_) => String::from_str("mi_array"),
            Expr::StructLit(n, _) => n.clone(),
            _ => String::from_str("mi_int"),
        }
    }

    /// The C call for a method call (see `method_call_c`).
    pub fn resolve_method_call(&self, receiver_ctype: &str, method: &str, receiver_c: &str, args: &Vec<String>) -> (r: String)
        ensures
            r@ == method_call_c(self.structs(), receiver_ctype@, method@, receiver_c@, texts(args@)),
    {
        let rt = String::from_str(receiver_ctype);
        let m = String::from_str(method);
        let tn: Option<String> = if eq_str(&rt, "mi_str") {
            Some(String::from_str("Str"))
        } else if eq_str(&rt, "mi_array") {
            Some(String::from_str("Array"))
        } else if self.find_struct(receiver_ctype).is_some() {
            Some(rt)
        } else {
            None
        };
        let mut rest = String::new();
        if args.len() > 0 {
            push_str(&mut rest, ", ");
            push_joined(&mut rest, args, ", ");
        }
        assert(args@.len() == 0 ==> texts(args@).len() == 0);
        match tn {
            Some(t) => {
                if eq_str(&t, "Str") && eq_str(&m, "len") {
                    let mut out = String::from_str("len_str(");
                    push_str(&mut out, receiver_c);
                    push_str(&mut out, ")");
                    out
                } else if eq_str(&t, "Str") && eq_str(&m, "is_empty") {
                    let mut out = String::from_str("(len_str(");
                    push_str(&mut out, receiver_c);
                    push_str(&mut out, ") == 0)");
                    out
                } else if eq_str(&t, "Array") && eq_str(&m, "len") {
                    let mut out = String::from_str("len(");
                    push_str(&mut out, receiver_c);
                    push_str(&mut out, ")");
                    out
                } else if eq_str(&t, "Array") && eq_str(&m, "is_empty") {
                    let mut out = String::from_str("(len(");
                    push_str(&mut out, receiver_c);
                    push_str(&mut out, ") == 0)");
                    out
                } else {
                    let mut out = t.clone();
                    push_str(&mut out, "__");
                    push_str(&mut out, method);
                    push_str(&mut out, "(");
                    if eq_str(&t, "mi_array") {
                        push_str(&mut out, "&");
                    }
                    push_str(&mut out, receiver_c);
                    push_str(&mut out, rest.as_str());
                    push_str(&mut out, ")");
                    out
                }
            },
            None => {
                let mut out = String::from_str("__method_");
                push_str(&mut out, method);
                push_str(&mut out, "(");
                push_str(&mut out, receiver_c);
                push_str(&mut out, rest.as_str());
                push_str(&mut out, ")");
                out
            },
        }
    }

    /// A new temporary name `prefix_n`, where n counts the names handed out.
    pub fn fresh_var(&mut self, prefix: &str) -> (r: String)
        ensures
            r@ == prefix@ + "_"@ + nat_text(old(self).counter()),
            old(self).counter() < usize::MAX ==> final(self).counter() == old(self).counter() + 1,
            old(self).grew(final(self)),
            final(self).out() == old(self).out(),
            final(self).depth() == old(self).depth(),
            final(self).vars() == old(self).vars(),
    {
        let n = self.var_count;
        if self.var_count < usize::MAX {
            self.var_count = self.var_count + 1;
        }
        let mut out = String::from_str(prefix);
        push_str(&mut out, "_");
        push_usize(&mut out, n);
        out
    }

    /// A string escaped for a C string literal.
    pub fn escape_c_string(&self, s: &String) -> (r: String)
        ensures
            r@ == escape_c(s@),
    {
        let mut out = String::new();
        push_escaped_c(&mut out, s);
        assert(out@ =~= escape_c(s@));
        out
    }

    /// Whether an expression is taken to give a string (see `is_string_expr`).
    pub fn is_string_expr(&self, expr: &Expr) -> (r: bool)
        ensures
            r == is_string_expr(*expr),
        decreases expr,
    {
        match expr {
            Expr::Str(_, _) => true,
            Expr::Call(callee, _) => match &**callee {
                Expr::Ident(name) => eq_str(name, "str") || eq_str(name, "str_char") || eq_str(name, "str_bool")
                    || eq_str(name, "str_float") || eq_str(name, "read_file"),
                _ => false,
            },
            Expr::Binary(l, op, r) => {
                if matches!(op, BinOp::Add) {
                    self.is_string_expr(l) || self.is_string_expr(r)
                } else {
                    false
                }
            },
            Expr::If(_, t, _) => self.is_string_expr(t),
            Expr::MethodCall(_, m, _) => !(eq_str(m, "len") || eq_str(m, "is_empty")),
            _ => false,
        }
    }

    /// The C operator for a binary operator.
    pub fn binop_to_c_op(&self, op: &BinOp) -> (r: &'static str)
        ensures
            r@ == c_op(*op),
    {
        match op {
            BinOp::Add => "+",
            BinOp::Sub => "-",
            BinOp::Mul => "*",
            BinOp::Div => "/",
            BinOp::Mod => "%",
            BinOp::Eq => "==",
            BinOp::Neq => "!=",
            BinOp::Lt => "<",
            BinOp::Gt => ">",
            BinOp::Le => "<=",
            BinOp::Ge => ">=",
            BinOp::And => "&&",
            BinOp::Or => "||",
        }
    }

    /// The C value of a range bound (see `pattern_value`).
    fn gen_pattern_value(p: &Pattern) -> (r: String)
        ensures
            r@ == pattern_value(*p),
    {
        match p {
            Pattern::Int(n) => {
                let mut o = String::new();
                push_i64(&mut o, *n);
                o
            },
            Pattern::Float(f) => f.clone(),
            Pattern::Bool(b) => String::from_str(if *b { "1" } else { "0" }),
            Pattern::Char(c) => {
                let mut o = String::from_str("'");
                push_char(&mut o, *c);
                push_str(&mut o, "'");
                assert(o@ =~= pattern_value(*p));
                o
            },
            _ => String::from_str("0"),
        }
    }

    /// The condition that tests whether `matched` matches a pattern (see `pattern_cond`).
    pub fn gen_pattern_cond(&self, pattern: &Pattern, matched: &str) -> (r: String)
        ensures
            r@ == pattern_cond(*pattern, matched@),
        decreases pattern,
    {
        match pattern {
            Pattern::Wild => String::from_str("1"),
            Pattern::Int(n) => {
                let mut o = String::from_str("(");
                push_str(&mut o, matched);
                push_str(&mut o, " == ");
                push_i64(&mut o, *n);
                push_str(&mut o, ")");
                o
            },
            Pattern::Float(f) => {
                let mut o = String::from_str("(");
                push_str(&mut o, matched);
                push_str(&mut o, " == ");
                push_str(&mut o, f.as_str());
                push_str(&mut o, ")");
                o
            },
            Pattern::Bool(b) => {
                let mut o = String::from_str("(");
                push_str(&mut o, matched);
                push_str(&mut o, " == ");
                push_str(&mut o, if *b { "1" } else { "0" });
                push_str(&mut o, ")");
                o
            },
            Pattern::Str(s) => {
                let mut o = String::from_str("mi_str_eq(");
                push_str(&mut o, matched);
                push_str(&mut o, ", mi_str_lit(\"");
                push_str(&mut o, s.as_str());
                push_str(&mut o, "\"))");
                o
            },
            Pattern::Char(c) => {
                let mut o = String::from_str("(");
                push_str(&mut o, matched);
                push_str(&mut o, " == '");
                push_char(&mut o, *c);
                push_str(&mut o, "')");
                assert(o@ =~= pattern_cond(*pattern, matched@));
                o
            },
            Pattern::Ident(_) => String::from_str("1"),
            Pattern::Binding(_, inner) => self.gen_pattern_cond(inner, matched),
            Pattern::Tuple(_) => String::from_str("1"),
            Pattern::Or(p1, p2) => {
                let c1 = self.gen_pattern_cond(p1, matched);
                let c2 = self.gen_pattern_cond(p2, matched);
                let mut o = String::from_str("(");
                push_str(&mut o, c1.as_str());
                push_str(&mut o, " || ");
                push_str(&mut o, c2.as_str());
                push_str(&mut o, ")");
                o
            },
            Pattern::Range(p1, p2) => {
                let l = Self::gen_pattern_value(p1);
                let r = Self::gen_pattern_value(p2);
                let mut o = String::from_str("((");
                push_str(&mut o, matched);
                push_str(&mut o, " >= ");
                push_str(&mut o, l.as_str());
                push_str(&mut o, ") && (");
                push_str(&mut o, matched);
                push_str(&mut o, " <= ");
                push_str(&mut o, r.as_str());
                push_str(&mut o, "))");
                o
            },
            Pattern::Struct(_, _) => String::from_str("1"),
        }
    }
}

/// Whether a function body returns explicitly (see `has_return`).
#[verifier::loop_isolation(false)]
fn body_has_return(body: &Expr) -> (r: bool)
    ensures
        r == has_return(*body),
    decreases body,
{
    match body {
        Expr::Block(stmts) => {
            let mut i: usize = 0;
            while i < stmts.len()
                invariant
                    i <= stmts@.len(),
                    forall|j: int| 0 <= j < i ==> !(#[trigger] stmts@[j] is Return),
                decreases stmts@.len() - i,
            {
                if matches!(stmts[i], Stmt::Return(_)) {
                    assert(stmts@[i as int] is Return);
                    return true;
                }
                i = i + 1;
            }
            false
        },
        Expr::If(_, then, else_opt) => {
            if body_has_return(then) {
                return true;
            }
            match else_opt {
                Some(e) => body_has_return(e),
                None => false,
            }
        },
        _ => false,
    }
}

} // verus!

verus! {

/// The C text of an expression that needs no statements before it: literals,
/// names and imports.
pub open spec fn leaf_c(e: Expr) -> Option<Seq<char>> {
    match e {
        Expr::Int(n) => Some(int_text(n as int)),
        Expr::Float(f) => Some(f@),
        Expr::Bool(b) => Some(if b { "1"@ } else { "0"@ }),
        Expr::Str(s, interps) => if interps@.len() == 0 {
            Some("mi_str_lit(\""@ + escape_c(s@) + "\")"@)
        } else {
            None
        },
        Expr::Char(c) => Some("'"@ + escape_default(c) + "'"@),
        Expr::Nil => Some("mi_nil()"@),
        Expr::Ident(n) => Some(n@),
        Expr::Import(_, _) => Some("/* import */"@),
        _ => None,
    }
}

/// The text with each occurrence of `pat` (taken from the left) replaced by `rep`.
pub open spec fn replace_all(s: Seq<char>, pat: Seq<char>, rep: Seq<char>) -> Seq<char>
    decreases s.len(),
{
    if pat.len() == 0 || s.len() == 0 {
        s
    } else if starts_with(s, pat) {
        rep + replace_all(s.skip(pat.len() as int), pat, rep)
    } else {
        seq![s[0]] + replace_all(s.drop_first(), pat, rep)
    }
}

/// The text with each occurrence of `pat` replaced by `rep`.
fn replace_text(s: &String, pat: &str, rep: &str) -> (r: String)
    requires
        pat@.len() > 0,
    ensures
        r@ == replace_all(s@, pat@, rep@),
{
    let cs = chars_of(s.as_str());
    let ps = chars_of(pat);
    let n = cs.len();
    let mut out = String::new();
    let mut i: usize = 0;
    assert(cs@.skip(0) =~= s@);
    while i < n
        invariant
            i <= n == cs@.len(),
            cs@ == s@,
            ps@ == pat@,
            ps@.len() > 0,
            out@ + replace_all(cs@.skip(i as int), pat@, rep@) == replace_all(s@, pat@, rep@),
        decreases n - i,
    {
        let ghost rest = cs@.skip(i as int);
        let mut m = ps.len() <= n - i;
        let mut j: usize = 0;
        while m && j < ps.len()
            invariant
                j <= ps@.len(),
                m ==> ps@.len() <= n - i,
                m ==> forall|k: int| 0 <= k < j ==> cs@[i + k] == ps@[k],
                !m ==> !starts_with(rest, pat@),
                rest == cs@.skip(i as int),
                ps@ == pat@,
                i < n == cs@.len(),
            decreases ps@.len() - j,
        {
            if cs[i + j] != ps[j] {
                assert(rest.subrange(0, ps@.len() as int)[j as int] != pat@[j as int]);
                m = false;
                j = ps.len();
            } else {
                j = j + 1;
            }
        }
        if m {
            assert(rest.subrange(0, pat@.len() as int) =~= pat@);
            push_str(&mut out, rep);
            assert(rest.skip(pat@.len() as int) =~= cs@.skip(i + ps@.len()));
            assert(out@ + replace_all(cs@.skip(i + ps@.len()), pat@, rep@) == replace_all(s@, pat@, rep@)) by {
                assert(replace_all(rest, pat@, rep@) == rep@ + replace_all(rest.skip(pat@.len() as int), pat@, rep@));
            }
            i = i + ps.len();
        } else {
            let ghost before = out@;
            push_char(&mut out, cs[i]);
            assert(rest.drop_first() =~= cs@.skip(i + 1));
            assert(replace_all(rest, pat@, rep@) == seq![rest[0]] + replace_all(rest.drop_first(), pat@, rep@));
            assert(out@ + replace_all(cs@.skip(i + 1), pat@, rep@) =~= before + replace_all(rest, pat@, rep@));
            i = i + 1;
        }
    }
    assert(cs@.skip(n as int) =~= Seq::<char>::empty());
    assert(out@ + Seq::<char>::empty() =~= out@);
    out
}

} // verus!


verus! {

impl Codegen {
    /// Emits a line built from a string.
    fn emit_owned(&mut self, s: String)
        ensures
            final(self).out() == old(self).out() + spaces(old(self).depth()) + s@ + seq!['\n'],
            old(self).grew(final(self)),
            final(self).depth() == old(self).depth(),
            final(self).vars() == old(self).vars(),
    {
        self.emit_line(s.as_str());
    }

    /// Emits the C code of each statement in turn.
    fn gen_stmts(&mut self, stmts: &Vec<Stmt>)
        ensures
            old(self).grew(final(self)),
        decreases stmts@, 0nat,
    {
        let mut i: usize = 0;
        while i < stmts.len()
            invariant
                i <= stmts@.len(),
                old(self).grew(self),
            decreases stmts@.len() - i,
        {
            proof {
                broadcast use vstd::std_specs::vec::group_vec_axioms;
                assert(decreases_to!(stmts@ => stmts@[i as int]));
            }
            self.gen_stmt(&stmts[i]);
            i = i + 1;
        }
    }

    /// The C text of each expression in turn (statements they need are emitted).
    fn gen_exprs(&mut self, items: &Vec<Expr>) -> (r: Vec<String>)
        ensures
            old(self).grew(final(self)),
            r@.len() == items@.len(),
            pure_list(old(self).vars(), old(self).fns(), old(self).structs(), items@) matches Some(vs)
                ==> texts(r@) == vs && *final(self) == *old(self),
        decreases items@, 0nat,
    {
        let ghost vars = self.vars();
        let ghost fns = self.fns();
        let ghost structs = self.structs();
        let ghost all = pure_list(vars, fns, structs, items@) is Some;
        let mut out: Vec<String> = Vec::new();
        let mut i: usize = 0;
        assert(items@.take(0) =~= Seq::<Expr>::empty());
        while i < items.len()
            invariant
                i <= items@.len(),
                out@.len() == i,
                old(self).grew(self),
                all == (pure_list(vars, fns, structs, items@) is Some),
                vars == old(self).vars(),
                fns == old(self).fns(),
                structs == old(self).structs(),
                all ==> *self == *old(self) && pure_list(vars, fns, structs, items@.take(i as int)) == Some(texts(out@)),
            decreases items@.len() - i,
        {
            proof {
                broadcast use vstd::std_specs::vec::group_vec_axioms;
                assert(decreases_to!(items@ => items@[i as int]));
                if all {
                    lemma_pure_list_prefix(vars, fns, structs, items@, i as int);
                    lemma_pure_list_prefix(vars, fns, structs, items@, i + 1);
                }
            }
            let ghost before = out@;
            let v = self.gen_expr(&items[i]);
            out.push(v);
            proof {
                if all {
                    let t = items@.take(i + 1);
                    assert(t.drop_last() =~= items@.take(i as int));
                    assert(t.last() == items@[i as int]);
                    assert(texts(out@) =~= texts(before).push(out@[i as int]@));
                }
            }
            i = i + 1;
        }
        assert(items@.take(items@.len() as int) =~= items@);
        out
    }

    /// The C condition for an expression: `and`, `or` and `not` become the C
    /// operators on the conditions of their operands; anything else is
    /// parenthesized.
    fn expr_as_condition(&mut self, expr: &Expr) -> (r: String)
        ensures
            old(self).grew(final(self)),
            cond_c(old(self).vars(), old(self).fns(), old(self).structs(), *expr) matches Some(t)
                ==> r@ == t && *final(self) == *old(self),
        decreases expr, 1nat,
    {
        match expr {
            Expr::Binary(l, op, r) => {
                if matches!(op, BinOp::And) || matches!(op, BinOp::Or) {
                    let lc = self.expr_as_condition(l);
                    let rc = self.expr_as_condition(r);
                    let mut o = String::from_str("(");
                    push_str(&mut o, lc.as_str());
                    push_str(&mut o, if matches!(op, BinOp::And) { " && " } else { " || " });
                    push_str(&mut o, rc.as_str());
                    push_str(&mut o, ")");
                    return o;
                }
            },
            Expr::Unary(op, r) => {
                if matches!(op, UnOp::Not) {
                    let rc = self.expr_as_condition(r);
                    let mut o = String::from_str("!(");
                    push_str(&mut o, rc.as_str());
                    push_str(&mut o, ")");
                    return o;
                }
            },
            _ => {},
        }
        let v = self.gen_expr(expr);
        let mut o = String::from_str("(");
        push_str(&mut o, v.as_str());
        push_str(&mut o, ")");
        o
    }

    /// Appends the interpolated parts of a string literal to `result`: each
    /// part that is not a string is passed through `str()`, and the pieces
    /// are joined with `mi_str_concat`.
    fn gen_interpolations(&mut self, result: String, interps: &Vec<Expr>) -> (r: String)
        ensures
            old(self).grew(final(self)),
            pure_list(old(self).vars(), old(self).fns(), old(self).structs(), interps@) matches Some(vs)
                ==> r@ == str_fold(old(self).vars(), old(self).fns(), result@, interps@, vs) && *final(self) == *old(self),
        decreases interps@, 0nat,
    {
        let ghost vars = self.vars();
        let ghost fns = self.fns();
        let ghost structs = self.structs();
        let ghost all = pure_list(vars, fns, structs, interps@) is Some;
        let ghost acc = result@;
        let mut result = result;
        let mut i: usize = 0;
        assert(interps@.take(0) =~= Seq::<Expr>::empty());
        while i < interps.len()
            invariant
                i <= interps@.len(),
                old(self).grew(self),
                all == (pure_list(vars, fns, structs, interps@) is Some),
                vars == old(self).vars(),
                fns == old(self).fns(),
                structs == old(self).structs(),
                all ==> *self == *old(self) && pure_list(vars, fns, structs, interps@.take(i as int)) is Some
                    && result@ == str_fold(vars, fns, acc, interps@.take(i as int),
                        pure_list(vars, fns, structs, interps@.take(i as int)).unwrap()),
            decreases interps@.len() - i,
        {
            proof {
                broadcast use vstd::std_specs::vec::group_vec_axioms;
                assert(decreases_to!(interps@ => interps@[i as int]));
                if all {
                    lemma_pure_list_prefix(vars, fns, structs, interps@, i as int);
                    lemma_pure_list_prefix(vars, fns, structs, interps@, i + 1);
                    let t = interps@.take(i + 1);
                    assert(t.drop_last() =~= interps@.take(i as int));
                    assert(t.last() == interps@[i as int]);
                }
            }
            let ghost prev = result@;
            let val = self.gen_expr(&interps[i]);
            let ct = self.infer_ctype(&interps[i]);
            let mut o = String::from_str("mi_str_concat(");
            push_str(&mut o, result.as_str());
            push_str(&mut o, ", ");
            if eq_str(&ct, "mi_str") {
                push_str(&mut o, val.as_str());
            } else {
                push_str(&mut o, "str(");
                push_str(&mut o, val.as_str());
                push_str(&mut o, ")");
            }
            push_str(&mut o, ")");
            proof {
                if all {
                    let vs_i = pure_list(vars, fns, structs, interps@.take(i as int)).unwrap();
                    let v_i = pure_c(vars, fns, structs, interps@[i as int]).unwrap();
                    let t = interps@.take(i + 1);
                    assert(pure_list(vars, fns, structs, t) == Some(vs_i.push(v_i)));
                    assert(vs_i.push(v_i).drop_last() =~= vs_i);
                    assert(o@ =~= "mi_str_concat("@ + prev + ", "@ + str_part(infer_c(vars, fns, interps@[i as int]), v_i) + ")"@);
                    assert(o@ == str_fold(vars, fns, acc, t, vs_i.push(v_i)));
                }
            }
            result = o;
            i = i + 1;
        }
        assert(interps@.take(interps@.len() as int) =~= interps@);
        result
    }

    /// The C text of a block used as a value: its one expression, `0` when
    /// empty, or a temporary that the statements fill.
    fn gen_block_value(&mut self, stmts: &Vec<Stmt>) -> (r: String)
        ensures
            old(self).grew(final(self)),
            stmts@.len() == 0 ==> r@ == "0"@ && *final(self) == *old(self),
            stmts@.len() == 1 ==> (stmts@[0] matches Stmt::Expr(x) ==> (pure_c(old(self).vars(), old(self).fns(),
                old(self).structs(), x) matches Some(t) ==> r@ == t && *final(self) == *old(self))),
        decreases stmts@, 1nat,
    {
        broadcast use vstd::std_specs::vec::group_vec_axioms;
        let n = stmts.len();
        if n == 1 {
            match &stmts[0] {
                Stmt::Expr(e) => {
                    assert(decreases_to!(stmts@ => stmts@[0]));
                    return self.gen_expr(e);
                },
                _ => {},
            }
        }
        if n == 0 {
            return String::from_str("0");
        }
        let rv = self.fresh_var("_block");
        let mut l = String::from_str("mi_int ");
        push_str(&mut l, rv.as_str());
        push_str(&mut l, " = 0;");
        self.emit_owned(l);
        let mut i: usize = 0;
        while i < n
            invariant
                i <= n == stmts@.len(),
                old(self).grew(self),
            decreases n - i,
        {
            assert(decreases_to!(stmts@ => stmts@[i as int]));
            let mut done = false;
            if i == n - 1 {
                match &stmts[i] {
                    Stmt::Expr(e) => {
                        let v = self.gen_expr(e);
                        let mut l = rv.clone();
                        push_str(&mut l, " = ");
                        push_str(&mut l, v.as_str());
                        push_str(&mut l, ";");
                        self.emit_owned(l);
                        done = true;
                    },
                    _ => {},
                }
            }
            if !done {
                self.gen_stmt(&stmts[i]);
            }
            i = i + 1;
        }
        rv
    }

    /// Emits the test of one match arm, `if (cond) {` for the first arm and
    /// `} else if (cond) {` for the others, and the line storing its value in `rv`.
    fn gen_match_arm(&mut self, m: &String, arm: &MatchArm, rv: &String, first: bool)
        ensures
            old(self).grew(final(self)),
            old(self).depth() < usize::MAX ==> (pure_c(old(self).vars(), old(self).fns(), old(self).structs(), *arm.body)
                matches Some(b) ==> (final(self).out() == old(self).out() + spaces(old(self).depth())
                + (if first { "if ("@ } else { "} else if ("@ }) + pattern_cond(arm.pattern, m@) + ") {"@ + seq!['\n']
                + spaces(old(self).depth() + 1) + rv@ + " = "@ + b + ";"@ + seq!['\n']
                && final(self).vars() == old(self).vars() && final(self).depth() == old(self).depth())),
        decreases arm, 0nat,
    {
        let cond = self.gen_pattern_cond(&arm.pattern, m.as_str());
        let body = self.gen_expr(&arm.body);
        let mut l = if first { String::from_str("if (") } else { String::from_str("} else if (") };
        push_str(&mut l, cond.as_str());
        push_str(&mut l, ") {");
        self.emit_owned(l);
        self.indent_in();
        let mut l2 = rv.clone();
        push_str(&mut l2, " = ");
        push_str(&mut l2, body.as_str());
        push_str(&mut l2, ";");
        self.emit_owned(l2);
        self.indent_out();
    }

    /// Emits one `if` / `else if` test per arm, each storing the arm's value
    /// in `result_var`.
    #[verifier::loop_isolation(false)]
    #[verifier::rlimit(60)]
    fn gen_match_arms(&mut self, m: &String, arms: &Vec<MatchArm>, result_var: &String)
        ensures
            old(self).grew(final(self)),
            old(self).depth() < usize::MAX ==> (arm_lines(old(self).vars(), old(self).fns(), old(self).structs(),
                old(self).depth(), m@, result_var@, arms@) matches Some(t) ==> final(self).out() == old(self).out() + t
                + (if arms@.len() > 0 { spaces(old(self).depth()) + "}"@ + seq!['\n'] } else { Seq::<char>::empty() })),
        decreases arms@, 0nat,
    {
        let ghost vars = self.vars();
        let ghost fns = self.fns();
        let ghost structs = self.structs();
        let ghost d = self.depth();
        let ghost all = d < usize::MAX && arm_lines(vars, fns, structs, d, m@, result_var@, arms@) is Some;
        proof {
            if all {
                lemma_arm_lines_prefix(vars, fns, structs, d, m@, result_var@, arms@, 0);
                assert(arms@.take(0) =~= Seq::<MatchArm>::empty());
                assert(old(self).out() + Seq::<char>::empty() =~= old(self).out());
            }
        }
        let mut i: usize = 0;
        while i < arms.len()
            invariant
                i <= arms@.len(),
                old(self).grew(self),
                vars == old(self).vars(),
                fns == old(self).fns(),
                structs == old(self).structs(),
                d == old(self).depth(),
                all == (d < usize::MAX && arm_lines(vars, fns, structs, d, m@, result_var@, arms@) is Some),
                all ==> (self.vars() == vars && self.depth() == d && arm_lines(vars, fns, structs, d, m@, result_var@,
                    arms@.take(i as int)) is Some && self.out() == old(self).out() + arm_lines(vars, fns, structs, d, m@,
                    result_var@, arms@.take(i as int)).unwrap()),
            decreases arms@.len() - i,
        {
            proof {
                broadcast use vstd::std_specs::vec::group_vec_axioms;
                assert(decreases_to!(arms@ => arms@[i as int]));
                if all {
                    lemma_arm_lines_prefix(vars, fns, structs, d, m@, result_var@, arms@, i as int);
                    lemma_arm_lines_prefix(vars, fns, structs, d, m@, result_var@, arms@, i + 1);
                    assert(arms@.take(i + 1).drop_last() =~= arms@.take(i as int));
                    assert(arms@.take(i + 1).last() == arms@[i as int]);
                }
            }
            self.gen_match_arm(m, &arms[i], result_var, i == 0);
            proof {
                if all {
                    assert(self.out() =~= old(self).out() + arm_lines(vars, fns, structs, d, m@, result_var@,
                        arms@.take(i + 1)).unwrap());
                }
            }
            i = i + 1;
        }
        proof {
            if all {
                assert(arms@.take(i as int) =~= arms@);
            }
        }
        if arms.len() > 0 {
            self.emit_line("}");
        }
    }

    /// The designated initializers of a struct literal.
    fn gen_field_inits(&mut self, fields: &Vec<(String, Expr)>) -> (r: Vec<String>)
        ensures
            old(self).grew(final(self)),
            pure_fields(old(self).vars(), old(self).fns(), old(self).structs(), fields@) matches Some(fs)
                ==> texts(r@) == fs && *final(self) == *old(self),
        decreases fields@, 0nat,
    {
        let ghost vars = self.vars();
        let ghost fns = self.fns();
        let ghost structs = self.structs();
        let ghost all = pure_fields(vars, fns, structs, fields@) is Some;
        let mut out: Vec<String> = Vec::new();
        let mut i: usize = 0;
        assert(fields@.take(0) =~= Seq::<(String, Expr)>::empty());
        while i < fields.len()
            invariant
                i <= fields@.len(),
                out@.len() == i,
                old(self).grew(self),
                all == (pure_fields(vars, fns, structs, fields@) is Some),
                vars == old(self).vars(),
                fns == old(self).fns(),
                structs == old(self).structs(),
                all ==> *self == *old(self) && pure_fields(vars, fns, structs, fields@.take(i as int)) == Some(texts(out@)),
            decreases fields@.len() - i,
        {
            proof {
                broadcast use vstd::std_specs::vec::group_vec_axioms;
                assert(decreases_to!(fields@ => fields@[i as int]));
                if all {
                    lemma_pure_fields_prefix(vars, fns, structs, fields@, i as int);
                    lemma_pure_fields_prefix(vars, fns, structs, fields@, i + 1);
                }
            }
            let ghost before = out@;
            let v = self.gen_expr(&fields[i].1);
            let mut o = String::from_str(".");
            push_str(&mut o, fields[i].0.as_str());
            push_str(&mut o, " = ");
            push_str(&mut o, v.as_str());
            out.push(o);
            proof {
                if all {
                    let t = fields@.take(i + 1);
                    assert(t.drop_last() =~= fields@.take(i as int));
                    assert(t.last() == fields@[i as int]);
                    assert(texts(out@) =~= texts(before).push(out@[i as int]@));
                }
            }
            i = i + 1;
        }
        assert(fields@.take(fields@.len() as int) =~= fields@);
        out
    }

    /// The call `rhs(lhs, ...)` of a pipe whose right side is a call.
    fn gen_pipe_call(&mut self, l: String, rhs: &Expr) -> (r: String)
        ensures
            old(self).grew(final(self)),
            ({
                let vars = old(self).vars();
                let fns = old(self).fns();
                let structs = old(self).structs();
                match *rhs {
                    Expr::Call(callee, args) => match (pure_c(vars, fns, structs, *callee), pure_list(vars, fns, structs, args@)) {
                        (Some(c), Some(vs)) => r@ == c + "("@ + join_texts(seq![l@] + vs, ", "@) + ")"@ && *final(self) == *old(self),
                        _ => true,
                    },
                    _ => match pure_c(vars, fns, structs, *rhs) {
                        Some(b) => r@ == "("@ + b + ")("@ + l@ + ")"@ && *final(self) == *old(self),
                        None => true,
                    },
                }
            }),
        decreases rhs, 1nat,
    {
        match rhs {
            Expr::Call(callee, args) => {
                let c = self.gen_expr(callee);
                let a = self.gen_exprs(args);
                let ghost lv = l@;
                let mut all: Vec<String> = Vec::new();
                all.push(l);
                let mut i: usize = 0;
                assert(texts(all@) =~= seq![lv] + texts(a@).take(0));
                while i < a.len()
                    invariant
                        i <= a@.len(),
                        texts(all@) == seq![lv] + texts(a@).take(i as int),
                    decreases a@.len() - i,
                {
                    let ghost before = all@;
                    all.push(a[i].clone());
                    assert(texts(all@) =~= texts(before).push(a@[i as int]@));
                    assert(texts(a@).take(i + 1) =~= texts(a@).take(i as int).push(a@[i as int]@));
                    assert(texts(all@) =~= seq![lv] + texts(a@).take(i + 1));
                    i = i + 1;
                }
                assert(texts(a@).take(a@.len() as int) =~= texts(a@));
                let mut o = c;
                push_str(&mut o, "(");
                push_joined(&mut o, &all, ", ");
                push_str(&mut o, ")");
                o
            },
            _ => {
                let v = self.gen_expr(rhs);
                let mut o = String::from_str("(");
                push_str(&mut o, v.as_str());
                push_str(&mut o, ")(");
                push_str(&mut o, l.as_str());
                push_str(&mut o, ")");
                o
            },
        }
    }

    /// Fills a fresh array variable with the values of `items` (as `mi_int`)
    /// and returns its name.
    fn gen_array_literal(&mut self, items: &Vec<Expr>) -> (r: String)
        ensures
            old(self).grew(final(self)),
        decreases items@, 1nat,
    {
        let elem_var = self.fresh_var("_arr");
        let vals = self.gen_exprs(items);
        let mut l1 = String::from_str("mi_int ");
        push_str(&mut l1, elem_var.as_str());
        push_str(&mut l1, "_data[] = {};");
        self.emit_owned(l1);
        let mut l2 = String::from_str("mi_array ");
        push_str(&mut l2, elem_var.as_str());
        push_str(&mut l2, " = mi_array_new(sizeof(mi_int), ");
        push_usize(&mut l2, items.len());
        push_str(&mut l2, ");");
        self.emit_owned(l2);
        let mut i: usize = 0;
        while i < vals.len()
            invariant
                i <= vals@.len(),
                old(self).grew(self),
            decreases vals@.len() - i,
        {
            let tv = self.fresh_var("_tv");
            let mut l3 = String::from_str("mi_int ");
            push_str(&mut l3, tv.as_str());
            push_str(&mut l3, " = ");
            push_str(&mut l3, vals[i].as_str());
            push_str(&mut l3, ";");
            self.emit_owned(l3);
            let mut l4 = String::from_str("mi_array_set(&");
            push_str(&mut l4, elem_var.as_str());
            push_str(&mut l4, ", ");
            push_usize(&mut l4, i);
            push_str(&mut l4, ", &");
            push_str(&mut l4, tv.as_str());
            push_str(&mut l4, ");");
            self.emit_owned(l4);
            i = i + 1;
        }
        elem_var
    }
}

} // verus!

verus! {

/// The UTF-8 bytes of a character.
pub open spec fn utf8_char(c: char) -> Seq<u8> {
    let v = c as u32 as int;
    if v < 0x80 {
        seq![v as u8]
    } else if v < 0x800 {
        seq![(0xC0 + v / 64) as u8, (0x80 + v % 64) as u8]
    } else if v < 0x10000 {
        seq![(0xE0 + v / 4096) as u8, (0x80 + (v / 64) % 64) as u8, (0x80 + v % 64) as u8]
    } else {
        seq![(0xF0 + v / 262144) as u8, (0x80 + (v / 4096) % 64) as u8, (0x80 + (v / 64) % 64) as u8,
            (0x80 + v % 64) as u8]
    }
}

/// The UTF-8 bytes of a text.
pub open spec fn utf8(s: Seq<char>) -> Seq<u8>
    decreases s.len(),
{
    if s.len() == 0 {
        Seq::empty()
    } else {
        utf8(s.drop_last()) + utf8_char(s.last())
    }
}

/// The UTF-8 bytes of a string.
fn utf8_bytes(s: &String) -> (r: Vec<u8>)
    ensures
        r@ == utf8(s@),
{
    let cs = chars_of(s.as_str());
    let mut out: Vec<u8> = Vec::new();
    let mut i: usize = 0;
    while i < cs.len()
        invariant
            i <= cs@.len(),
            cs@ == s@,
            out@ == utf8(s@.take(i as int)),
        decreases cs@.len() - i,
    {
        let v: u32 = cs[i] as u32;
        let ghost before = out@;
        if v < 0x80 {
            out.push(v as u8);
        } else if v < 0x800 {
            out.push((0xC0 + v / 64) as u8);
            out.push((0x80 + v % 64) as u8);
        } else if v < 0x10000 {
            out.push((0xE0 + v / 4096) as u8);
            out.push((0x80 + (v / 64) % 64) as u8);
            out.push((0x80 + v % 64) as u8);
        } else {
            out.push((0xF0 + v / 262144) as u8);
            out.push((0x80 + (v / 4096) % 64) as u8);
            out.push((0x80 + (v / 64) % 64) as u8);
            out.push((0x80 + v % 64) as u8);
        }
        assert(s@.take(i + 1).drop_last() =~= s@.take(i as int));
        assert(out@ =~= before + utf8_char(cs@[i as int]));
        i = i + 1;
    }
    assert(s@.take(cs@.len() as int) =~= s@);
    out
}

} // verus!

verus! {

/// The C type for an annotation, or for a missing one.
pub open spec fn ann_ctype(structs: Seq<Seq<char>>, enums: Seq<Seq<char>>, te: Option<TypeExpr>) -> Seq<char> {
    ctype_of(structs, enums, match te {
        Some(t) => Some(te_str(t)),
        None => None,
    })
}

/// The C types of parameters.
pub open spec fn param_ctype_texts(structs: Seq<Seq<char>>, enums: Seq<Seq<char>>, ps: Seq<FnParam>) -> Seq<Seq<char>> {
    Seq::new(ps.len(), |i: int| ann_ctype(structs, enums, ps[i].type_expr))
}

/// The C declarations `type name` of parameters.
pub open spec fn param_decl_texts(structs: Seq<Seq<char>>, enums: Seq<Seq<char>>, ps: Seq<FnParam>) -> Seq<Seq<char>> {
    Seq::new(ps.len(), |i: int| ann_ctype(structs, enums, ps[i].type_expr) + " "@ + ps[i].name@)
}

impl Codegen {
    /// The parameters as C declarations `type name`.
    fn param_decls(&self, params: &Vec<FnParam>) -> (r: Vec<String>)
        ensures
            r@.len() == params@.len(),
            texts(r@) == param_decl_texts(self.structs(), self.enums(), params@),
    {
        broadcast use vstd::std_specs::vec::group_vec_axioms;
        let mut out: Vec<String> = Vec::new();
        let mut i: usize = 0;
        while i < params.len()
            invariant
                i <= params@.len(),
                out@.len() == i,
                texts(out@) == param_decl_texts(self.structs(), self.enums(), params@.take(i as int)),
            decreases params@.len() - i,
        {
            let mut d = self.annotation_ctype(&params[i].type_expr);
            push_str(&mut d, " ");
            push_str(&mut d, params[i].name.as_str());
            let ghost prev = out@;
            out.push(d);
            proof {
                let ps = params@.take(i + 1);
                assert forall|k: int| 0 <= k < i + 1 implies #[trigger] texts(out@)[k]
                    == param_decl_texts(self.structs(), self.enums(), ps)[k] by {
                    if k < i {
                        assert(texts(prev)[k] == param_decl_texts(self.structs(), self.enums(), params@.take(i as int))[k]);
                    }
                }
            }
            i = i + 1;
            assert(texts(out@) =~= param_decl_texts(self.structs(), self.enums(), params@.take(i as int)));
        }
        assert(params@.take(i as int) =~= params@);
        out
    }

    /// The C types of the parameters.
    fn param_ctypes(&self, params: &Vec<FnParam>) -> (r: Vec<String>)
        ensures
            r@.len() == params@.len(),
            texts(r@) == param_ctype_texts(self.structs(), self.enums(), params@),
    {
        broadcast use vstd::std_specs::vec::group_vec_axioms;
        let mut out: Vec<String> = Vec::new();
        let mut i: usize = 0;
        while i < params.len()
            invariant
                i <= params@.len(),
                out@.len() == i,
                texts(out@) == param_ctype_texts(self.structs(), self.enums(), params@.take(i as int)),
            decreases params@.len() - i,
        {
            let ghost prev = out@;
            out.push(self.annotation_ctype(&params[i].type_expr));
            proof {
                let ps = params@.take(i + 1);
                assert forall|k: int| 0 <= k < i + 1 implies #[trigger] texts(out@)[k]
                    == param_ctype_texts(self.structs(), self.enums(), ps)[k] by {
                    if k < i {
                        assert(texts(prev)[k] == param_ctype_texts(self.structs(), self.enums(), params@.take(i as int))[k]);
                    }
                }
            }
            i = i + 1;
            assert(texts(out@) =~= param_ctype_texts(self.structs(), self.enums(), params@.take(i as int)));
        }
        assert(params@.take(i as int) =~= params@);
        out
    }

    /// The line opening a C function: `rt name(params) {`.
    fn fn_header(rt: &String, name: &str, ps: &Vec<String>) -> (r: String)
        ensures
            r@ == rt@ + " "@ + name@ + "("@ + join_texts(texts(ps@), ", "@) + ") {"@,
    {
        let mut h = rt.clone();
        push_str(&mut h, " ");
        push_str(&mut h, name);
        push_str(&mut h, "(");
        push_joined(&mut h, ps, ", ");
        push_str(&mut h, ") {");
        h
    }

    /// The C text of an expression. Statements that the value needs (for a
    /// `match`, a block or an array literal) are emitted first; an expression
    /// that needs none gives `pure_c` and leaves the generator as it was.
    fn gen_expr(&mut self, expr: &Expr) -> (r: String)
        ensures
            old(self).grew(final(self)),
            pure_c(old(self).vars(), old(self).fns(), old(self).structs(), *expr) matches Some(t)
                ==> r@ == t && *final(self) == *old(self),
        decreases expr, 0nat,
    {
        broadcast use vstd::std_specs::vec::group_vec_axioms;
        let ghost vars = self.vars();
        let ghost fns = self.fns();
        let ghost structs = self.structs();
        let ghost pure = pure_c(vars, fns, structs, *expr) is Some;
        match expr {
            Expr::Int(n) => {
                let mut o = String::new();
                push_i64(&mut o, *n);
                assert(o@ =~= int_text(*n as int));
                o
            },
            Expr::Float(f) => f.clone(),
            Expr::Bool(b) => if *b { String::from_str("1") } else { String::from_str("0") },
            Expr::Str(s, interps) => {
                let mut o = String::from_str("mi_str_lit(\"");
                push_escaped_c(&mut o, s);
                push_str(&mut o, "\")");
                assert(o@ =~= "mi_str_lit(\""@ + escape_c(s@) + "\")"@);
                if interps.len() == 0 {
                    assert(pure_list(vars, fns, structs, interps@) == Some(Seq::<Seq<char>>::empty()));
                    o
                } else {
                    self.gen_interpolations(o, interps)
                }
            },
            Expr::Char(c) => {
                let mut o = String::from_str("'");
                push_escape_default(&mut o, *c);
                push_str(&mut o, "'");
                o
            },
            Expr::Nil => String::from_str("mi_nil()"),
            Expr::Ident(name) => name.clone(),
            Expr::Field(obj, field) => {
                let mut o = self.gen_expr(obj);
                if parses_as_i64(field) {
                    push_str(&mut o, ".f");
                } else {
                    push_str(&mut o, ".");
                }
                push_str(&mut o, field.as_str());
                o
            },
            Expr::Index(arr, idx) => {
                let i = self.gen_expr(idx);
                let is_array = match &**arr {
                    Expr::Ident(name) => match find_text(&self.var_types, name) {
                        Some(k) => has_prefix(self.var_types[k].1.as_str(), "mi_array"),
                        None => false,
                    },
                    _ => false,
                };
                match &**arr {
                    Expr::Str(s, _) => {
                        match &**idx {
                            Expr::Int(n) => {
                                let bytes = utf8_bytes(s);
                                let c: u8 = if *n >= 0 && (*n as u64) < (bytes.len() as u64) {
                                    bytes[*n as usize]
                                } else {
                                    0
                                };
                                assert(c as nat == literal_byte(s@, *n as int));
                                let mut o = String::from_str("((mi_char)");
                                push_u64(&mut o, c as u64);
                                push_str(&mut o, ")");
                                o
                            },
                            _ => {
                                let mut o = String::from_str("(mi_char)(mi_str_lit(\"");
                                push_escaped_quotes(&mut o, s);
                                push_str(&mut o, "\").data[");
                                push_str(&mut o, i.as_str());
                                push_str(&mut o, "])");
                                o
                            },
                        }
                    },
                    _ => {
                        let a = self.gen_expr(arr);
                        let mut o = if is_array {
                            String::from_str("mi_array_get_int(&")
                        } else {
                            String::from_str("mi_str_at(")
                        };
                        push_str(&mut o, a.as_str());
                        push_str(&mut o, ", ");
                        push_str(&mut o, i.as_str());
                        push_str(&mut o, ")");
                        o
                    },
                }
            },
            Expr::Call(callee, args) => {
                let callee_str = self.gen_expr(callee);
                assert(decreases_to!(*expr => *args));
                let args_s = self.gen_exprs(args);
                let mut o = match &**callee {
                    Expr::Ident(n) => {
                        if eq_str(n, "sin") || eq_str(n, "cos") || eq_str(n, "tan") || eq_str(n, "sqrt")
                            || eq_str(n, "pow") || eq_str(n, "exp") || eq_str(n, "log") || eq_str(n, "log10")
                            || eq_str(n, "abs") || eq_str(n, "floor") || eq_str(n, "ceil") || eq_str(n, "round")
                            || eq_str(n, "atan2") {
                            let mut f = String::from_str("mi_");
                            push_str(&mut f, n.as_str());
                            f
                        } else {
                            callee_str
                        }
                    },
                    _ => callee_str,
                };
                push_str(&mut o, "(");
                push_joined(&mut o, &args_s, ", ");
                push_str(&mut o, ")");
                o
            },
            Expr::MethodCall(obj, method, args) => {
                let o = self.gen_expr(obj);
                let args_s = self.gen_exprs(args);
                let ct = self.infer_ctype(obj);
                self.resolve_method_call(ct.as_str(), method.as_str(), o.as_str(), &args_s)
            },
            Expr::Unary(op, rhs) => {
                let r = self.gen_expr(rhs);
                let mut o = if matches!(op, UnOp::Neg) { String::from_str("(-") } else { String::from_str("(!") };
                push_str(&mut o, r.as_str());
                push_str(&mut o, ")");
                o
            },
            Expr::Binary(lhs, op, rhs) => {
                let l = self.gen_expr(lhs);
                let r = self.gen_expr(rhs);
                let is_str = self.is_string_expr(lhs) || self.is_string_expr(rhs);
                let func: Option<&str> = if is_str {
                    match op {
                        BinOp::Add => Some("mi_str_concat"),
                        BinOp::Eq => Some("mi_str_eq"),
                        BinOp::Neq => Some("mi_str_ne"),
                        BinOp::Lt => Some("mi_str_lt"),
                        BinOp::Le => Some("mi_str_le"),
                        BinOp::Gt => Some("mi_str_gt"),
                        BinOp::Ge => Some("mi_str_ge"),
                        _ => None,
                    }
                } else {
                    None
                };
                assert(match func {
                    Some(f) => (if is_str { str_op_fn(*op) } else { None }) == Some(f@),
                    None => (if is_str { str_op_fn(*op) } else { None }) is None,
                });
                match func {
                    Some(f) => {
                        let mut o = String::from_str(f);
                        push_str(&mut o, "(");
                        push_str(&mut o, l.as_str());
                        push_str(&mut o, ", ");
                        push_str(&mut o, r.as_str());
                        push_str(&mut o, ")");
                        o
                    },
                    None => {
                        let mut o = String::from_str("(");
                        push_str(&mut o, l.as_str());
                        push_str(&mut o, " ");
                        push_str(&mut o, self.binop_to_c_op(op));
                        push_str(&mut o, " ");
                        push_str(&mut o, r.as_str());
                        push_str(&mut o, ")");
                        o
                    },
                }
            },
            Expr::Assign(target, op, value) => {
                let t = self.gen_expr(target);
                let v = self.gen_expr(value);
                let c_op = match op {
                    AssignOp::Plain => "=",
                    AssignOp::Add => "+=",
                    AssignOp::Sub => "-=",
                    AssignOp::Mul => "*=",
                    AssignOp::Div => "/=",
                };
                assert(c_op@ == assign_c(*op));
                let mut o = t;
                push_str(&mut o, " ");
                push_str(&mut o, c_op);
                push_str(&mut o, " ");
                push_str(&mut o, v.as_str());
                o
            },
            Expr::If(cond, then, else_opt) => {
                let cc = self.expr_as_condition(cond);
                let t = self.gen_expr(then);
                let mut o = String::from_str("(");
                push_str(&mut o, cc.as_str());
                push_str(&mut o, " ? ");
                push_str(&mut o, t.as_str());
                push_str(&mut o, " : ");
                match else_opt {
                    Some(el) => {
                        assert(decreases_to!(*expr => *else_opt));
                        let e = self.gen_expr(el);
                        push_str(&mut o, e.as_str());
                    },
                    None => {
                        push_str(&mut o, "mi_nil()");
                    },
                }
                push_str(&mut o, ")");
                o
            },
            Expr::Match(scrutinee, arms) => {
                let m = self.gen_expr(scrutinee);
                let result_var = self.fresh_var("_match");
                let mut l = String::from_str("mi_int ");
                push_str(&mut l, result_var.as_str());
                push_str(&mut l, " = 0;");
                self.emit_owned(l);
                assert(decreases_to!(*expr => *arms));
                self.gen_match_arms(&m, arms, &result_var);
                result_var
            },
            Expr::Block(stmts) => {
                assert(decreases_to!(*expr => *stmts));
                self.gen_block_value(stmts)
            },
            Expr::Fn(_, _, body) => self.gen_expr(body),
            Expr::Pipe(lhs, rhs) => {
                let l = self.gen_expr(lhs);
                match &**rhs {
                    Expr::Ident(fname) => {
                        let mut o = fname.clone();
                        push_str(&mut o, "(");
                        push_str(&mut o, l.as_str());
                        push_str(&mut o, ")");
                        o
                    },
                    _ => self.gen_pipe_call(l, rhs),
                }
            },
            Expr::Array(items) => {
                if items.len() == 0 {
                    String::from_str("mi_array_new(sizeof(mi_int), 0)")
                } else {
                    assert(decreases_to!(*expr => *items));
                    self.gen_array_literal(items)
                }
            },
            Expr::Tuple(items) => {
                if items.len() == 0 {
                    String::from_str("0")
                } else if items.len() == 1 {
                    assert(decreases_to!(*expr => *items));
                    assert(decreases_to!(*items => items@));
                    assert(decreases_to!(items@ => items@[0]));
                    self.gen_expr(&items[0])
                } else {
                    let mut decls: Vec<String> = Vec::new();
                    let mut i: usize = 0;
                    while i < items.len()
                        invariant
                            i <= items@.len(),
                            decls@.len() == i,
                            forall|j: int| 0 <= j < i ==> #[trigger] decls@[j]@ == infer_c(self.vars(), self.fns(), items@[j])
                                + " f"@ + nat_text(j as nat),
                        decreases items@.len() - i,
                    {
                        let mut d = self.infer_ctype(&items[i]);
                        push_str(&mut d, " f");
                        push_usize(&mut d, i);
                        decls.push(d);
                        i = i + 1;
                    }
                    assert(texts(decls@) =~= tuple_decls(vars, fns, items@));
                    assert(decreases_to!(*expr => *items));
                    let vals = self.gen_exprs(items);
                    let mut o = String::from_str("((struct { ");
                    push_joined(&mut o, &decls, "; ");
                    push_str(&mut o, " }){ ");
                    push_joined(&mut o, &vals, ", ");
                    push_str(&mut o, " })");
                    o
                }
            },
            Expr::StructLit(name, fields) => {
                assert(decreases_to!(*expr => *fields));
                let fs = self.gen_field_inits(fields);
                let mut o = String::from_str("(");
                push_str(&mut o, name.as_str());
                push_str(&mut o, "){");
                push_joined(&mut o, &fs, ", ");
                push_str(&mut o, "}");
                o
            },
            Expr::Import(_, _) => String::from_str("/* import */"),
        }
    }
}

} // verus!

verus! {

impl Codegen {
    /// Emits the C code of a statement.
    #[verifier::rlimit(100)]
    fn gen_stmt(&mut self, stmt: &Stmt)
        ensures
            old(self).grew(final(self)),
            *stmt matches Stmt::Expr(e) ==> (pure_c(old(self).vars(), old(self).fns(), old(self).structs(), e) matches Some(t)
                ==> final(self).out() == old(self).out() + spaces(old(self).depth()) + t + ";"@ + seq!['\n']
                && final(self).vars() == old(self).vars() && final(self).depth() == old(self).depth()),
            *stmt matches Stmt::Return(Some(e)) ==> (pure_c(old(self).vars(), old(self).fns(), old(self).structs(), e)
                matches Some(t) ==> final(self).out() == old(self).out() + spaces(old(self).depth()) + "return "@ + t + ";"@
                + seq!['\n']),
            *stmt matches Stmt::Let { name, type_expr, value, .. } ==> ({
                let tuple = type_expr is None && (value matches Expr::Tuple(items) && items@.len() > 1);
                let ct = match type_expr {
                    Some(te) => ctype_of(old(self).structs(), old(self).enums(), Some(te_str(te))),
                    None => infer_c(old(self).vars(), old(self).fns(), value),
                };
                (!tuple && pure_c(old(self).vars(), old(self).fns(), old(self).structs(), value) is Some) ==> {
                    &&& final(self).out() == old(self).out() + spaces(old(self).depth()) + ct + " "@ + name@ + " = "@
                        + pure_c(old(self).vars(), old(self).fns(), old(self).structs(), value).unwrap() + ";"@ + seq!['\n']
                    &&& lookup_text(final(self).vars(), name@) == Some(ct)
                }
            }),
            stmt is Break ==> final(self).out() == old(self).out() + spaces(old(self).depth()) + "break;"@ + seq!['\n'],
            stmt is Continue ==> final(self).out() == old(self).out() + spaces(old(self).depth()) + "continue;"@
                + seq!['\n'],
            (stmt is Type || stmt is Trait || stmt is Empty) ==> final(self).out() == old(self).out(),
            *stmt matches Stmt::For(name, iter, _) ==> ((iter matches Expr::Call(f, _) && *f matches Expr::Ident(fname)
                && fname@ == "range"@) ==> (range_bounds(old(self).vars(), old(self).fns(), old(self).structs(), iter)
                matches Some(b) ==> (old(self).depth() < usize::MAX ==> ({
                    let h = old(self).out() + for_range_head(old(self).depth(), "_i"@ + "_"@ + nat_text(old(self).counter()),
                        b, name@);
                    final(self).out().len() >= h.len() && final(self).out().subrange(0, h.len() as int) == h
                })))),
        decreases stmt, 0nat,
    {
        broadcast use vstd::std_specs::vec::group_vec_axioms;
        match stmt {
            Stmt::Expr(e) => {
                let mut c = self.gen_expr(e);
                push_str(&mut c, ";");
                self.emit_owned(c);
            },
            Stmt::Let { name, type_expr, value, .. } => {
                let tuple_items = match value {
                    Expr::Tuple(items) => items.len(),
                    _ => 0,
                };
                if type_expr.is_none() && tuple_items > 1 {
                    self.gen_let_tuple(name, value);
                } else {
                    let val = self.gen_expr(value);
                    let ct = match type_expr {
                        Some(_) => self.annotation_ctype(type_expr),
                        None => self.infer_ctype(value),
                    };
                    insert_text(&mut self.var_types, name.clone(), ct.clone());
                    let mut l = ct;
                    push_str(&mut l, " ");
                    push_str(&mut l, name.as_str());
                    push_str(&mut l, " = ");
                    push_str(&mut l, val.as_str());
                    push_str(&mut l, ";");
                    self.emit_owned(l);
                }
            },
            Stmt::Fn { name, params, return_type, body, .. } => {
                self.current_fn = Some(name.clone());
                let is_main = eq_str(name, "main");
                let rt = if is_main { String::from_str("int") } else { self.annotation_ctype(return_type) };
                let ps = self.param_decls(params);
                let mut i: usize = 0;
                while i < params.len()
                    invariant
                        i <= params@.len(),
                        old(self).grew(self),
                    decreases params@.len() - i,
                {
                    let pt = self.annotation_ctype(&params[i].type_expr);
                    insert_text(&mut self.var_types, params[i].name.clone(), pt);
                    i = i + 1;
                }
                if is_main {
                    self.emit_line("int main(int argc, char** argv) {");
                    self.emit_line("mi_init_args(argc, argv);");
                } else {
                    let h = Self::fn_header(&rt, name.as_str(), &ps);
                    self.emit_owned(h);
                }
                self.indent_in();
                self.gen_block_body(body, !eq_str(&rt, "void"));
                if is_main && !body_has_return(body) {
                    self.emit_line("return 0;");
                }
                self.indent_out();
                self.emit_line("}");
                self.emit_line("");
            },
            Stmt::Return(opt) => {
                match opt {
                    Some(e) => {
                        assert(decreases_to!(*stmt => *opt));
                        let val = self.gen_expr(e);
                        let mut l = String::from_str("return ");
                        push_str(&mut l, val.as_str());
                        push_str(&mut l, ";");
                        self.emit_owned(l);
                    },
                    None => {
                        let in_main = match &self.current_fn {
                            Some(f) => eq_str(f, "main"),
                            None => false,
                        };
                        if in_main {
                            self.emit_line("return 0;");
                        } else {
                            self.emit_line("return;");
                        }
                    },
                }
            },
            Stmt::If(cond, then, else_opt) => {
                let cc = self.expr_as_condition(cond);
                let mut l = String::from_str("if (");
                push_str(&mut l, cc.as_str());
                push_str(&mut l, ") {");
                self.emit_owned(l);
                self.indent_in();
                assert(decreases_to!(*stmt => *then));
                self.gen_stmts(then);
                self.indent_out();
                match else_opt {
                    Some(els) => {
                        proof {
                            assert(decreases_to!(*stmt => *else_opt));
                            assert(decreases_to!(*else_opt => *els));
                            assert(decreases_to!(*els => els@));
                        }
                        let else_if = els.len() == 1 && matches!(els[0], Stmt::If(..));
                        if else_if {
                            self.emit_line("} else ");
                            assert(decreases_to!(els@ => els@[0]));
                            self.gen_stmt(&els[0]);
                            return;
                        }
                        self.emit_line("} else {");
                        self.indent_in();
                        self.gen_stmts(els);
                        self.indent_out();
                    },
                    None => {},
                }
                self.emit_line("}");
            },
            Stmt::While(cond, body) => {
                let cc = self.expr_as_condition(cond);
                let mut l = String::from_str("while (");
                push_str(&mut l, cc.as_str());
                push_str(&mut l, ") {");
                self.emit_owned(l);
                self.indent_in();
                assert(decreases_to!(*stmt => *body));
                self.gen_stmts(body);
                self.indent_out();
                self.emit_line("}");
            },
            Stmt::For(name, iter, body) => {
                let iv = self.fresh_var("_i");
                assert(decreases_to!(*stmt => *body));
                let is_range = match iter {
                    Expr::Call(callee, _) => match &**callee {
                        Expr::Ident(f) => eq_str(f, "range"),
                        _ => false,
                    },
                    _ => false,
                };
                if is_range {
                    let ghost s1 = *self;
                    let (start, end) = self.gen_range_bounds(iter);
                    let mut l = String::from_str("for (mi_int ");
                    push_str(&mut l, iv.as_str());
                    push_str(&mut l, " = ");
                    push_str(&mut l, start.as_str());
                    push_str(&mut l, "; ");
                    push_str(&mut l, iv.as_str());
                    push_str(&mut l, " < ");
                    push_str(&mut l, end.as_str());
                    push_str(&mut l, "; ");
                    push_str(&mut l, iv.as_str());
                    push_str(&mut l, "++) {");
                    self.emit_owned(l);
                    self.indent_in();
                    let mut l2 = String::from_str("mi_int ");
                    push_str(&mut l2, name.as_str());
                    push_str(&mut l2, " = ");
                    push_str(&mut l2, iv.as_str());
                    push_str(&mut l2, ";");
                    self.emit_owned(l2);
                    let ghost h = self.out();
                    self.gen_stmts(body);
                    self.indent_out();
                    self.emit_line("}");
                    proof {
                        assert(self.out().subrange(0, h.len() as int) =~= h);
                    }
                } else {
                    match iter {
                        Expr::Array(items) => {
                            assert(decreases_to!(*stmt => *iter));
                            assert(decreases_to!(*iter => *items));
                            let arr_var = self.gen_array_literal(items);
                            let mut l = String::from_str("for (mi_int ");
                            push_str(&mut l, iv.as_str());
                            push_str(&mut l, " = 0; ");
                            push_str(&mut l, iv.as_str());
                            push_str(&mut l, " < ");
                            push_str(&mut l, arr_var.as_str());
                            push_str(&mut l, ".len; ");
                            push_str(&mut l, iv.as_str());
                            push_str(&mut l, "++) {");
                            self.emit_owned(l);
                            self.indent_in();
                            let mut l2 = String::from_str("mi_int ");
                            push_str(&mut l2, name.as_str());
                            push_str(&mut l2, " = mi_array_get_int(&");
                            push_str(&mut l2, arr_var.as_str());
                            push_str(&mut l2, ", ");
                            push_str(&mut l2, iv.as_str());
                            push_str(&mut l2, ");");
                            self.emit_owned(l2);
                            self.gen_stmts(body);
                            self.indent_out();
                            self.emit_line("}");
                            let mut l3 = String::from_str("mi_array_free(&");
                            push_str(&mut l3, arr_var.as_str());
                            push_str(&mut l3, ");");
                            self.emit_owned(l3);
                        },
                        _ => {
                            let iter_s = self.gen_expr(iter);
                            let mut l = String::from_str("for (mi_int ");
                            push_str(&mut l, iv.as_str());
                            push_str(&mut l, " = 0; ");
                            push_str(&mut l, iv.as_str());
                            push_str(&mut l, " < ");
                            push_str(&mut l, iter_s.as_str());
                            push_str(&mut l, "; ");
                            push_str(&mut l, iv.as_str());
                            push_str(&mut l, "++) {");
                            self.emit_owned(l);
                            self.indent_in();
                            let mut l2 = String::from_str("mi_int ");
                            push_str(&mut l2, name.as_str());
                            push_str(&mut l2, " = ");
                            push_str(&mut l2, iv.as_str());
                            push_str(&mut l2, ";");
                            self.emit_owned(l2);
                            self.gen_stmts(body);
                            self.indent_out();
                            self.emit_line("}");
                        },
                    }
                }
            },
            Stmt::Loop(body) => {
                self.emit_line("for (;;) {");
                self.indent_in();
                assert(decreases_to!(*stmt => *body));
                self.gen_stmts(body);
                self.indent_out();
                self.emit_line("}");
            },
            Stmt::Break(_) => self.emit_line("break;"),
            Stmt::Continue => self.emit_line("continue;"),
            Stmt::Type { .. } => {},
            Stmt::Impl { for_type, methods } => {
                proof {
                    reveal_strlit(" for ");
                }
                let prefix = replace_text(for_type, " for ", "__");
                assert(decreases_to!(*stmt => *methods));
                self.gen_impl_methods(&prefix, methods);
            },
            Stmt::Trait { .. } => {},
            Stmt::Extern { name, params, return_type } => {
                let rt = self.annotation_ctype(return_type);
                let ps = self.param_decls(params);
                let mut l = rt;
                push_str(&mut l, " ");
                push_str(&mut l, name.as_str());
                push_str(&mut l, "(");
                push_joined(&mut l, &ps, ", ");
                push_str(&mut l, ");");
                self.emit_owned(l);
            },
            Stmt::Empty => {},
        }
    }

    /// The start and end of a `for` over `range(...)`: `range(a, b)` gives
    /// `a` and `b`, `range(n)` gives `0` and `n`, `range()` gives `0` and `0`.
    fn gen_range_bounds(&mut self, iter: &Expr) -> (r: (String, String))
        ensures
            old(self).grew(final(self)),
            range_bounds(old(self).vars(), old(self).fns(), old(self).structs(), *iter) matches Some(b) ==> (
                r.0@ == b.0 && r.1@ == b.1 && *final(self) == *old(self)),
        decreases iter, 1nat,
    {
        broadcast use vstd::std_specs::vec::group_vec_axioms;
        match iter {
            Expr::Call(_, args) => {
                proof {
                    assert(decreases_to!(*iter => *args));
                    assert(decreases_to!(*args => args@));
                }
                if args.len() >= 2 {
                    assert(decreases_to!(args@ => args@[0]));
                    assert(decreases_to!(args@ => args@[1]));
                    let start = self.gen_expr(&args[0]);
                    let end = self.gen_expr(&args[1]);
                    (start, end)
                } else if args.len() == 1 {
                    assert(decreases_to!(args@ => args@[0]));
                    let end = self.gen_expr(&args[0]);
                    (String::from_str("0"), end)
                } else {
                    (String::from_str("0"), String::from_str("0"))
                }
            },
            _ => (String::from_str("0"), String::from_str("0")),
        }
    }

    /// Declares a C struct variable for a tuple `let` without a type: one
    /// field `f<i>` per item, of the item's guessed C type.
    fn gen_let_tuple(&mut self, name: &String, value: &Expr)
        ensures
            old(self).grew(final(self)),
        decreases value, 1nat,
    {
        broadcast use vstd::std_specs::vec::group_vec_axioms;
        match value {
            Expr::Tuple(items) => {
                let mut fields: Vec<String> = Vec::new();
                let mut i: usize = 0;
                while i < items.len()
                    invariant
                        i <= items@.len(),
                    decreases items@.len() - i,
                {
                    let mut d = self.infer_ctype(&items[i]);
                    push_str(&mut d, " f");
                    push_usize(&mut d, i);
                    fields.push(d);
                    i = i + 1;
                }
                assert(decreases_to!(*value => *items));
                let vals = self.gen_exprs(items);
                let mut struct_type = String::from_str("struct { ");
                push_joined(&mut struct_type, &fields, "; ");
                push_str(&mut struct_type, " }");
                insert_text(&mut self.var_types, name.clone(), struct_type.clone());
                let mut l = struct_type;
                push_str(&mut l, " ");
                push_str(&mut l, name.as_str());
                push_str(&mut l, " = {");
                self.emit_owned(l);
                self.indent_in();
                let mut k: usize = 0;
                while k < vals.len()
                    invariant
                        k <= vals@.len(),
                        old(self).grew(self),
                    decreases vals@.len() - k,
                {
                    let mut v = vals[k].clone();
                    if k + 1 < vals.len() {
                        push_str(&mut v, ",");
                    }
                    self.emit_owned(v);
                    k = k + 1;
                }
                self.indent_out();
                self.emit_line("};");
            },
            _ => {},
        }
    }

    /// Emits each method of an `impl` as a C function `Prefix__name`.
    fn gen_impl_methods(&mut self, prefix: &String, methods: &Vec<Stmt>)
        ensures
            old(self).grew(final(self)),
        decreases methods@, 0nat,
    {
        broadcast use vstd::std_specs::vec::group_vec_axioms;
        let mut i: usize = 0;
        while i < methods.len()
            invariant
                i <= methods@.len(),
                old(self).grew(self),
            decreases methods@.len() - i,
        {
            match &methods[i] {
                Stmt::Fn { name, params, return_type, body, .. } => {
                    let mut fn_name = prefix.clone();
                    push_str(&mut fn_name, "__");
                    push_str(&mut fn_name, name.as_str());
                    let rt = self.annotation_ctype(return_type);
                    let ps = self.param_decls(params);
                    let h = Self::fn_header(&rt, fn_name.as_str(), &ps);
                    self.emit_owned(h);
                    self.indent_in();
                    assert(decreases_to!(methods@ => methods@[i as int]));
                    self.gen_block_body(body, !eq_str(&rt, "void"));
                    self.indent_out();
                    self.emit_line("}");
                    self.emit_line("");
                },
                _ => {},
            }
            i = i + 1;
        }
    }

    /// Emits a function body; with `needs_return` its value is returned.
    #[verifier::loop_isolation(false)]
    fn gen_block_body(&mut self, body: &Expr, needs_return: bool)
        ensures
            old(self).grew(final(self)),
            !(body is Block || body is If || body is Match) ==> (pure_c(old(self).vars(), old(self).fns(),
                old(self).structs(), *body) matches Some(t) ==> final(self).out() == old(self).out()
                + spaces(old(self).depth()) + (if needs_return { "return "@ } else { Seq::<char>::empty() }) + t + ";"@
                + seq!['\n']),
            *body matches Expr::Block(stmts) ==> (block_lines(old(self).vars(), old(self).fns(), old(self).structs(),
                old(self).depth(), stmts@, needs_return) matches Some(t) ==> final(self).out() == old(self).out() + t),
        decreases body, 1nat,
    {
        broadcast use vstd::std_specs::vec::group_vec_axioms;
        match body {
            Expr::Block(stmts) => {
                proof {
                    assert(decreases_to!(*body => *stmts));
                    assert(decreases_to!(*stmts => stmts@));
                }
                let ghost vars = self.vars();
                let ghost fns = self.fns();
                let ghost structs = self.structs();
                let ghost d = self.depth();
                let ghost all = block_lines(vars, fns, structs, d, stmts@, needs_return) is Some;
                let len = stmts.len();
                let mut i: usize = 0;
                proof {
                    if all {
                        lemma_block_lines_prefix(vars, fns, structs, d, stmts@, needs_return, 0);
                        assert(stmts@.take(0) =~= Seq::<Stmt>::empty());
                        assert(old(self).out() + Seq::<char>::empty() =~= old(self).out());
                    }
                }
                while i < len
                    invariant
                        i <= len == stmts@.len(),
                        old(self).grew(self),
                        vars == old(self).vars(),
                        fns == old(self).fns(),
                        structs == old(self).structs(),
                        d == old(self).depth(),
                        all == (block_lines(vars, fns, structs, d, stmts@, needs_return) is Some),
                        all ==> (self.vars() == vars && self.depth() == d && (i < len ==> (block_lines(vars, fns,
                            structs, d, stmts@.take(i as int), false) is Some && self.out() == old(self).out()
                            + block_lines(vars, fns, structs, d, stmts@.take(i as int), false).unwrap()))),
                        all && i == len ==> self.out() == old(self).out() + block_lines(vars, fns, structs, d, stmts@,
                            needs_return).unwrap(),
                    decreases len - i,
                {
                    assert(decreases_to!(stmts@ => stmts@[i as int]));
                    let ghost before = self.out();
                    proof {
                        if all {
                            lemma_block_lines_prefix(vars, fns, structs, d, stmts@, needs_return, i as int);
                            lemma_block_lines_prefix(vars, fns, structs, d, stmts@, needs_return, i + 1);
                            assert(stmts@.take(i + 1).drop_last() =~= stmts@.take(i as int));
                            assert(stmts@.take(i + 1).last() == stmts@[i as int]);
                            assert(stmts@.take(len as int) =~= stmts@);
                        }
                    }
                    if i == len - 1 && needs_return {
                        self.gen_last_stmt(&stmts[i]);
                    } else {
                        self.gen_stmt(&stmts[i]);
                    }
                    proof {
                        if all {
                            assert(self.out() =~= old(self).out() + block_lines(vars, fns, structs, d,
                                stmts@.take(i + 1), i + 1 == len && needs_return).unwrap());
                        }
                    }
                    i = i + 1;
                }
            },
            Expr::If(cond, then, else_opt) => {
                let cc = self.expr_as_condition(cond);
                let t = self.gen_expr(then);
                let mut l = String::from_str("if (");
                push_str(&mut l, cc.as_str());
                match else_opt {
                    Some(el) => {
                        assert(decreases_to!(*body => *else_opt));
                        let e = self.gen_expr(el);
                        push_str(&mut l, ") { return ");
                        push_str(&mut l, t.as_str());
                        push_str(&mut l, "; } else { return ");
                        push_str(&mut l, e.as_str());
                        push_str(&mut l, "; }");
                    },
                    None => {
                        push_str(&mut l, ") { ");
                        push_str(&mut l, t.as_str());
                        push_str(&mut l, "; }");
                    },
                }
                self.emit_owned(l);
            },
            Expr::Match(scrutinee, arms) => {
                let m = self.gen_expr(scrutinee);
                let rv = self.fresh_var("_mr");
                let mut l = String::from_str("mi_int ");
                push_str(&mut l, rv.as_str());
                push_str(&mut l, " = 0;");
                self.emit_owned(l);
                assert(decreases_to!(*body => *arms));
                self.gen_return_arms(&m, arms, &rv, needs_return);
                if !needs_return {
                    let mut l2 = String::from_str("return ");
                    push_str(&mut l2, rv.as_str());
                    push_str(&mut l2, ";");
                    self.emit_owned(l2);
                }
            },
            _ => {
                let v = self.gen_expr(body);
                let mut l = if needs_return { String::from_str("return ") } else { String::new() };
                push_str(&mut l, v.as_str());
                push_str(&mut l, ";");
                self.emit_owned(l);
            },
        }
    }

    /// Emits the arms of a `match` that ends a function body: each arm
    /// returns its value, or (without `needs_return`) stores it in `rv`.
    fn gen_return_arms(&mut self, m: &String, arms: &Vec<MatchArm>, rv: &String, needs_return: bool)
        ensures
            old(self).grew(final(self)),
        decreases arms@, 0nat,
    {
        let mut i: usize = 0;
        while i < arms.len()
            invariant
                i <= arms@.len(),
                old(self).grew(self),
            decreases arms@.len() - i,
        {
            proof {
                broadcast use vstd::std_specs::vec::group_vec_axioms;
                assert(decreases_to!(arms@ => arms@[i as int]));
            }
            let cond = self.gen_pattern_cond(&arms[i].pattern, m.as_str());
            let b = self.gen_expr(&arms[i].body);
            let mut l = if i == 0 { String::from_str("if (") } else { String::from_str("} else if (") };
            push_str(&mut l, cond.as_str());
            push_str(&mut l, ") {");
            self.emit_owned(l);
            self.indent_in();
            let mut l2 = if needs_return {
                String::from_str("return ")
            } else {
                let mut t = rv.clone();
                push_str(&mut t, " = ");
                t
            };
            push_str(&mut l2, b.as_str());
            push_str(&mut l2, ";");
            self.emit_owned(l2);
            self.indent_out();
            i = i + 1;
        }
        if arms.len() > 0 {
            self.emit_line("}");
        }
    }

    /// Emits the last statement of a body whose value is returned: an
    /// expression is returned, an `if` returns from its branches.
    #[verifier::loop_isolation(false)]
    fn gen_last_stmt(&mut self, s: &Stmt)
        ensures
            old(self).grew(final(self)),
            *s matches Stmt::Expr(e) ==> (pure_c(old(self).vars(), old(self).fns(), old(self).structs(), e) matches Some(t)
                ==> final(self).out() == old(self).out() + spaces(old(self).depth()) + "return "@ + t + ";"@ + seq!['\n']
                && final(self).vars() == old(self).vars() && final(self).depth() == old(self).depth()),
        decreases s, 1nat,
    {
        broadcast use vstd::std_specs::vec::group_vec_axioms;
        match s {
            Stmt::Expr(e) => {
                let v = self.gen_expr(e);
                let mut l = String::from_str("return ");
                push_str(&mut l, v.as_str());
                push_str(&mut l, ";");
                self.emit_owned(l);
            },
            Stmt::If(cond, then_body, else_body) => {
                let cc = self.expr_as_condition(cond);
                let mut l = String::from_str("if (");
                push_str(&mut l, cc.as_str());
                push_str(&mut l, ") {");
                self.emit_owned(l);
                self.indent_in();
                proof {
                    assert(decreases_to!(*s => *then_body));
                    assert(decreases_to!(*then_body => then_body@));
                }
                let mut single = false;
                if then_body.len() == 1 {
                    match &then_body[0] {
                        Stmt::Expr(e) => {
                            assert(decreases_to!(then_body@ => then_body@[0]));
                            let v = self.gen_expr(e);
                            let mut l2 = String::from_str("return ");
                            push_str(&mut l2, v.as_str());
                            push_str(&mut l2, ";");
                            self.emit_owned(l2);
                            single = true;
                        },
                        _ => {},
                    }
                }
                if !single {
                    self.gen_stmts(then_body);
                }
                self.indent_out();
                match else_body {
                    Some(els) => {
                        proof {
                            assert(decreases_to!(*s => *else_body));
                            assert(decreases_to!(*else_body => *els));
                            assert(decreases_to!(*els => els@));
                        }
                        let else_if = els.len() == 1 && matches!(els[0], Stmt::If(..));
                        if else_if {
                            self.emit_line("} else ");
                            assert(decreases_to!(els@ => els@[0]));
                            self.gen_stmt(&els[0]);
                        } else {
                            self.emit_line("} else {");
                            self.indent_in();
                            let mut k: usize = 0;
                            while k < els.len()
                                invariant
                                    k <= els@.len(),
                                    old(self).grew(self),
                                decreases els@.len() - k,
                            {
                                assert(decreases_to!(els@ => els@[k as int]));
                                match &els[k] {
                                    Stmt::Expr(e) => {
                                        let v = self.gen_expr(e);
                                        let mut l3 = String::from_str("return ");
                                        push_str(&mut l3, v.as_str());
                                        push_str(&mut l3, ";");
                                        self.emit_owned(l3);
                                    },
                                    _ => {
                                        self.gen_stmt(&els[k]);
                                    },
                                }
                                k = k + 1;
                            }
                            self.indent_out();
                            self.emit_line("}");
                        }
                    },
                    None => {
                        self.emit_line("}");
                    },
                }
            },
            _ => self.gen_stmt(s),
        }
    }
}

} // verus!

verus! {

/// The lines of a block of expression statements that need no statements
/// before them (see `pure_c`), at indentation `d`: `text;` each, the last
/// one returned where `ret` holds; `None` for a block with anything else.
pub open spec fn block_lines(vars: Seq<(String, String)>, fns: Seq<(String, String)>, structs: Seq<Seq<char>>, d: nat,
    ss: Seq<Stmt>, ret: bool) -> Option<Seq<char>>
    decreases ss.len(),
{
    if ss.len() == 0 {
        Some(Seq::empty())
    } else {
        match (block_lines(vars, fns, structs, d, ss.drop_last(), false), ss.last()) {
            (Some(pre), Stmt::Expr(e)) => match pure_c(vars, fns, structs, e) {
                Some(t) => Some(pre + spaces(d) + (if ret { "return "@ } else { Seq::<char>::empty() }) + t + ";"@
                    + seq!['\n']),
                None => None,
            },
            _ => None,
        }
    }
}

/// Where a block has lines, so has each of its prefixes (without `return`).
pub proof fn lemma_block_lines_prefix(vars: Seq<(String, String)>, fns: Seq<(String, String)>, structs: Seq<Seq<char>>,
    d: nat, ss: Seq<Stmt>, ret: bool, i: int)
    requires
        block_lines(vars, fns, structs, d, ss, ret) is Some,
        0 <= i <= ss.len(),
    ensures
        i < ss.len() ==> block_lines(vars, fns, structs, d, ss.take(i), false) is Some,
        i < ss.len() ==> ss[i] is Expr && pure_c(vars, fns, structs, ss[i]->Expr_0) is Some,
    decreases ss.len(),
{
    if i < ss.len() {
        if i == ss.len() - 1 {
            assert(ss.take(i) =~= ss.drop_last());
        } else {
            lemma_block_lines_prefix(vars, fns, structs, d, ss.drop_last(), false, i);
            assert(ss.drop_last().take(i) =~= ss.take(i));
            assert(ss.drop_last()[i] == ss[i]);
        }
    }
}

/// The C start and end of a `for` over `range(...)` whose arguments need no
/// statements before them: `range(a, b, ...)` gives `a` and `b`, `range(n)`
/// gives `0` and `n`, `range()` and anything but a call give `0` and `0`.
pub open spec fn range_bounds(vars: Seq<(String, String)>, fns: Seq<(String, String)>, structs: Seq<Seq<char>>,
    iter: Expr) -> Option<(Seq<char>, Seq<char>)>
{
    match iter {
        Expr::Call(_, args) => if args@.len() >= 2 {
            match (pure_c(vars, fns, structs, args@[0]), pure_c(vars, fns, structs, args@[1])) {
                (Some(a), Some(b)) => Some((a, b)),
                _ => None,
            }
        } else if args@.len() == 1 {
            match pure_c(vars, fns, structs, args@[0]) {
                Some(b) => Some(("0"@, b)),
                None => None,
            }
        } else {
            Some(("0"@, "0"@))
        },
        _ => Some(("0"@, "0"@)),
    }
}

/// The first two lines of a `for` over a range: the C loop header with the
/// counter `iv` and the bounds, and the declaration of the loop variable `name`.
pub open spec fn for_range_head(d: nat, iv: Seq<char>, b: (Seq<char>, Seq<char>), name: Seq<char>) -> Seq<char> {
    spaces(d) + "for (mi_int "@ + iv + " = "@ + b.0 + "; "@ + iv + " < "@ + b.1 + "; "@ + iv + "++) {"@ + seq!['\n']
        + spaces(d + 1) + "mi_int "@ + name + " = "@ + iv + ";"@ + seq!['\n']
}

/// The C lines that test the arms of a match on `m`, at indentation `d`, each
/// storing its arm's value (an expression that needs no statements, see
/// `pure_c`) in `rv`: the first arm opens `if (cond) {` and every later arm
/// continues the same chain with `} else if (cond) {`, so that exactly the
/// first arm whose pattern holds is run. `None` where an arm's value needs
/// statements.
pub open spec fn arm_lines(vars: Seq<(String, String)>, fns: Seq<(String, String)>, structs: Seq<Seq<char>>, d: nat,
    m: Seq<char>, rv: Seq<char>, arms: Seq<MatchArm>) -> Option<Seq<char>>
    decreases arms.len(),
{
    if arms.len() == 0 {
        Some(Seq::empty())
    } else {
        match (arm_lines(vars, fns, structs, d, m, rv, arms.drop_last()), pure_c(vars, fns, structs, *arms.last().body)) {
            (Some(pre), Some(b)) => Some(pre + spaces(d) + (if arms.len() == 1 { "if ("@ } else { "} else if ("@ })
                + pattern_cond(arms.last().pattern, m) + ") {"@ + seq!['\n'] + spaces(d + 1) + rv + " = "@ + b + ";"@
                + seq!['\n']),
            _ => None,
        }
    }
}

/// Where all arms have lines, so has each prefix, and each arm's value needs no statements.
pub proof fn lemma_arm_lines_prefix(vars: Seq<(String, String)>, fns: Seq<(String, String)>, structs: Seq<Seq<char>>,
    d: nat, m: Seq<char>, rv: Seq<char>, arms: Seq<MatchArm>, i: int)
    requires
        arm_lines(vars, fns, structs, d, m, rv, arms) is Some,
        0 <= i <= arms.len(),
    ensures
        arm_lines(vars, fns, structs, d, m, rv, arms.take(i)) is Some,
        i < arms.len() ==> pure_c(vars, fns, structs, *arms[i].body) is Some,
    decreases arms.len(),
{
    if i == arms.len() {
        assert(arms.take(i) =~= arms);
    } else {
        lemma_arm_lines_prefix(vars, fns, structs, d, m, rv, arms.drop_last(), i);
        assert(arms.drop_last().take(i) =~= arms.take(i));
        if i < arms.len() - 1 {
            assert(arms.drop_last()[i] == arms[i]);
        }
    }
}

/// The first line of every generated file.
pub open spec fn c_prelude() -> Seq<char> {
    "#include \"midori_runtime.h\"\n\n"@
}

/// The member lines of a C struct: `    <C type> <name>;` for each field.
pub open spec fn field_lines(fs: Seq<(Seq<char>, Seq<char>)>) -> Seq<char>
    decreases fs.len(),
{
    if fs.len() == 0 {
        Seq::empty()
    } else {
        field_lines(fs.drop_last()) + "    "@ + fs.last().1 + " "@ + fs.last().0 + ";\n"@
    }
}

/// The C typedef of a struct.
pub open spec fn struct_typedef(name: Seq<char>, fs: Seq<(Seq<char>, Seq<char>)>) -> Seq<char> {
    "typedef struct {\n"@ + field_lines(fs) + "} "@ + name + ";\n\n"@
}

/// The fields of the first struct named `n`.
pub open spec fn fields_of(defs: Seq<(Seq<char>, Seq<(Seq<char>, Seq<char>)>)>, n: Seq<char>)
    -> Option<Seq<(Seq<char>, Seq<char>)>>
    decreases defs.len(),
{
    if defs.len() == 0 {
        None
    } else if defs[0].0 == n {
        Some(defs[0].1)
    } else {
        fields_of(defs.drop_first(), n)
    }
}

/// The typedefs of the structs named in `names`, in that order.
pub open spec fn struct_typedefs(defs: Seq<(Seq<char>, Seq<(Seq<char>, Seq<char>)>)>, names: Seq<Seq<char>>)
    -> Seq<char>
    decreases names.len(),
{
    if names.len() == 0 {
        Seq::empty()
    } else {
        struct_typedefs(defs, names.drop_last()) + match fields_of(defs, names.last()) {
            Some(fs) => struct_typedef(names.last(), fs),
            None => Seq::empty(),
        }
    }
}

/// The tag constants of an enum's variants: `    <enum>_TAG_<VARIANT>,` for each.
pub open spec fn tag_lines(name: Seq<char>, vs: Seq<(Seq<char>, Seq<(Seq<char>, Seq<char>)>)>) -> Seq<char>
    decreases vs.len(),
{
    if vs.len() == 0 {
        Seq::empty()
    } else {
        tag_lines(name, vs.drop_last()) + "    "@ + name + "_TAG_"@ + upper_text(vs.last().0) + ",\n"@
    }
}

/// The union members of a variant with fields: `        <C type> <variant>_<field>;` for each.
pub open spec fn variant_members(vname: Seq<char>, fs: Seq<(Seq<char>, Seq<char>)>) -> Seq<char>
    decreases fs.len(),
{
    if fs.len() == 0 {
        Seq::empty()
    } else {
        variant_members(vname, fs.drop_last()) + "        "@ + fs.last().1 + " "@ + vname + "_"@ + fs.last().0 + ";\n"@
    }
}

/// The union members of an enum's variants; a variant without fields has a
/// placeholder `int` member.
pub open spec fn union_lines(vs: Seq<(Seq<char>, Seq<(Seq<char>, Seq<char>)>)>) -> Seq<char>
    decreases vs.len(),
{
    if vs.len() == 0 {
        Seq::empty()
    } else {
        union_lines(vs.drop_last()) + if vs.last().1.len() == 0 {
            "        int __empty_"@ + vs.last().0 + "_;\n"@
        } else {
            variant_members(vs.last().0, vs.last().1)
        }
    }
}

/// The C definition of an enum: a tag enum, then a struct of a tag and a union.
pub open spec fn enum_typedef(name: Seq<char>, vs: Seq<(Seq<char>, Seq<(Seq<char>, Seq<char>)>)>) -> Seq<char> {
    "typedef enum {\n"@ + tag_lines(name, vs) + "} "@ + name + "_Tag;\n\n"@ + "typedef struct {\n"@ + "    "@
        + name + "_Tag tag;\n"@ + "    union {\n"@ + union_lines(vs) + "    } data;\n"@ + "} "@ + name + ";\n\n"@
}

/// The C definitions of the enums, in the order given.
pub open spec fn enum_typedefs(defs: Seq<(Seq<char>, Seq<(Seq<char>, Seq<(Seq<char>, Seq<char>)>)>)>) -> Seq<char>
    decreases defs.len(),
{
    if defs.len() == 0 {
        Seq::empty()
    } else {
        enum_typedefs(defs.drop_last()) + enum_typedef(defs.last().0, defs.last().1)
    }
}

/// The prototypes of the top-level functions other than `main`:
/// `<C return type> <name>(<C parameter types>);` for each.
pub open spec fn forward_decls(structs: Seq<Seq<char>>, enums: Seq<Seq<char>>, ss: Seq<Stmt>) -> Seq<char>
    decreases ss.len(),
{
    if ss.len() == 0 {
        Seq::empty()
    } else {
        forward_decls(structs, enums, ss.drop_last()) + match ss.last() {
            Stmt::Fn { name, params, return_type, .. } => if name@ == "main"@ {
                Seq::empty()
            } else {
                ann_ctype(structs, enums, return_type) + " "@ + name@ + "("@
                    + join_texts(param_ctype_texts(structs, enums, params@), ", "@) + ");\n"@
            },
            _ => Seq::empty(),
        }
    }
}

/// The first struct named `n` stands at `k`.
pub proof fn lemma_fields_of(defs: Seq<(Seq<char>, Seq<(Seq<char>, Seq<char>)>)>, n: Seq<char>, k: int)
    requires
        0 <= k < defs.len(),
        defs[k].0 == n,
        forall|j: int| 0 <= j < k ==> defs[j].0 != n,
    ensures
        fields_of(defs, n) == Some(defs[k].1),
    decreases k,
{
    if k > 0 {
        assert(defs[0].0 != n);
        lemma_fields_of(defs.drop_first(), n, k - 1);
    }
}

/// No struct is named `n`.
pub proof fn lemma_fields_of_none(defs: Seq<(Seq<char>, Seq<(Seq<char>, Seq<char>)>)>, n: Seq<char>)
    requires
        forall|j: int| 0 <= j < defs.len() ==> defs[j].0 != n,
    ensures
        fields_of(defs, n) is None,
    decreases defs.len(),
{
    if defs.len() > 0 {
        assert(defs[0].0 != n);
        lemma_fields_of_none(defs.drop_first(), n);
    }
}

impl Codegen {
    /// Records the C return type of each top-level function.
    fn collect_fn_types(&mut self, program: &Program)
        ensures
            final(self).struct_defs() == old(self).struct_defs(),
            final(self).enum_defs() == old(self).enum_defs(),
            final(self).out() == old(self).out(),
            final(self).vars() == old(self).vars(),
    {
        let mut i: usize = 0;
        while i < program.stmts.len()
            invariant
                i <= program.stmts@.len(),
                self.struct_defs() == old(self).struct_defs(),
                self.enum_defs() == old(self).enum_defs(),
                self.out() == old(self).out(),
                self.vars() == old(self).vars(),
            decreases program.stmts@.len() - i,
        {
            match &program.stmts[i] {
                Stmt::Fn { name, return_type, .. } => {
                    let rt = self.annotation_ctype(return_type);
                    insert_text(&mut self.fn_types, name.clone(), rt);
                },
                _ => {},
            }
            i = i + 1;
        }
    }

    /// Appends the C typedef of each struct, in dependency order.
    #[verifier::rlimit(30)]
    fn push_struct_typedefs(&self, out: &mut String)
        ensures
            exists|names: Seq<Seq<char>>| struct_order(self.struct_defs(), names)
                && final(out)@ == old(out)@ + struct_typedefs(self.struct_defs(), names),
    {
        let order = self.sorted_structs();
        let ghost names = texts(order@);
        let ghost defs = self.struct_defs();
        proof {
            if dep_cycle(defs) {
                assert(names =~= Seq::new(defs.len(), |i: int| defs[i].0));
            } else {
                let perm = choose|perm: Seq<int>| dep_order(defs, perm) && order@.len() == perm.len()
                    && forall|i: int| 0 <= i < order@.len() ==> #[trigger] order@[i]@ == defs[perm[i]].0;
                assert(forall|i: int| 0 <= i < names.len() ==> #[trigger] names[i] == defs[perm[i]].0);
            }
            assert(struct_order(defs, names));
        }
        let mut i: usize = 0;
        assert(names.take(0) =~= Seq::<Seq<char>>::empty());
        assert(old(out)@ + Seq::<char>::empty() =~= old(out)@);
        while i < order.len()
            invariant
                i <= order@.len(),
                names == texts(order@),
                defs == self.struct_defs(),
                out@ == old(out)@ + struct_typedefs(defs, names.take(i as int)),
            decreases order@.len() - i,
        {
            let ghost before = out@;
            let ghost n = order@[i as int]@;
            assert(names.take(i + 1).drop_last() =~= names.take(i as int));
            assert(names.take(i + 1).last() == n);
            match self.find_struct(order[i].as_str()) {
                Some(k) => {
                    let fields = &self.struct_types[k].1;
                    let ghost fs = field_table(fields@);
                    proof {
                        assert forall|j: int| 0 <= j < k implies defs[j].0 != n by {
                            assert(self.structs()[j] == defs[j].0);
                        }
                        assert(self.structs()[k as int] == defs[k as int].0);
                        lemma_fields_of(defs, n, k as int);
                        assert(defs[k as int].1 == fs);
                    }
                    push_str(out, "typedef struct {\n");
                    let mut j: usize = 0;
                    assert(fs.take(0) =~= Seq::<(Seq<char>, Seq<char>)>::empty());
                    while j < fields.len()
                        invariant
                            j <= fields@.len(),
                            fs == field_table(fields@),
                            out@ == before + "typedef struct {\n"@ + field_lines(fs.take(j as int)),
                        decreases fields@.len() - j,
                    {
                        assert(fs.take(j + 1).drop_last() =~= fs.take(j as int));
                        push_str(out, "    ");
                        push_str(out, fields[j].1.as_str());
                        push_str(out, " ");
                        push_str(out, fields[j].0.as_str());
                        push_str(out, ";\n");
                        j = j + 1;
                        assert(out@ =~= before + "typedef struct {\n"@ + field_lines(fs.take(j as int)));
                    }
                    assert(fs.take(j as int) =~= fs);
                    push_str(out, "} ");
                    push_str(out, order[i].as_str());
                    push_str(out, ";\n\n");
                    assert(out@ =~= before + struct_typedef(n, fs));
                },
                None => {
                    proof {
                        assert forall|j: int| 0 <= j < defs.len() implies defs[j].0 != n by {
                            assert(self.structs()[j] == defs[j].0);
                            assert(!self.structs().contains(n));
                        }
                        lemma_fields_of_none(defs, n);
                    }
                    assert(out@ =~= before + Seq::<char>::empty());
                },
            }
            i = i + 1;
            assert(out@ =~= old(out)@ + struct_typedefs(defs, names.take(i as int)));
        }
        assert(names.take(i as int) =~= names);
    }

    /// Appends the C definition of each enum: a tag enum and a tagged union
    /// with one member per variant field.
    fn push_enum_typedefs(&self, out: &mut String)
        ensures
            final(out)@ == old(out)@ + enum_typedefs(self.enum_defs()),
    {
        let ghost edefs = self.enum_defs();
        let mut i: usize = 0;
        assert(edefs.take(0) =~= Seq::<(Seq<char>, Seq<(Seq<char>, Seq<(Seq<char>, Seq<char>)>)>)>::empty());
        assert(old(out)@ + Seq::<char>::empty() =~= old(out)@);
        while i < self.enum_types.len()
            invariant
                i <= self.enum_types@.len(),
                edefs == self.enum_defs(),
                out@ == old(out)@ + enum_typedefs(edefs.take(i as int)),
            decreases self.enum_types@.len() - i,
        {
            let ghost before = out@;
            let name = &self.enum_types[i].0;
            let variants = &self.enum_types[i].1;
            let ghost vt = variant_table(variants@);
            assert(edefs[i as int] == (name@, vt));
            let mut text = String::from_str("typedef enum {\n");
            let mut v: usize = 0;
            assert(vt.take(0) =~= Seq::<(Seq<char>, Seq<(Seq<char>, Seq<char>)>)>::empty());
            while v < variants.len()
                invariant
                    v <= variants@.len(),
                    vt == variant_table(variants@),
                    text@ == "typedef enum {\n"@ + tag_lines(name@, vt.take(v as int)),
                decreases variants@.len() - v,
            {
                assert(vt.take(v + 1).drop_last() =~= vt.take(v as int));
                push_str(&mut text, "    ");
                push_str(&mut text, name.as_str());
                push_str(&mut text, "_TAG_");
                let up = to_uppercase(&variants[v].0);
                push_str(&mut text, up.as_str());
                push_str(&mut text, ",\n");
                v = v + 1;
                assert(text@ =~= "typedef enum {\n"@ + tag_lines(name@, vt.take(v as int)));
            }
            assert(vt.take(v as int) =~= vt);
            push_str(&mut text, "} ");
            push_str(&mut text, name.as_str());
            push_str(&mut text, "_Tag;\n\n");
            push_str(&mut text, "typedef struct {\n");
            push_str(&mut text, "    ");
            push_str(&mut text, name.as_str());
            push_str(&mut text, "_Tag tag;\n");
            push_str(&mut text, "    union {\n");
            let ghost t0 = text@;
            assert(t0 =~= "typedef enum {\n"@ + tag_lines(name@, vt) + "} "@ + name@ + "_Tag;\n\n"@ + "typedef struct {\n"@
                + "    "@ + name@ + "_Tag tag;\n"@ + "    union {\n"@);
            let mut v: usize = 0;
            assert(t0 + union_lines(vt.take(0)) =~= t0);
            while v < variants.len()
                invariant
                    v <= variants@.len(),
                    vt == variant_table(variants@),
                    text@ == t0 + union_lines(vt.take(v as int)),
                decreases variants@.len() - v,
            {
                assert(vt.take(v + 1).drop_last() =~= vt.take(v as int));
                let ghost tv = text@;
                let vname = &variants[v].0;
                let fields = &variants[v].1;
                let ghost fs = field_table(fields@);
                assert(vt[v as int] == (vname@, fs));
                if fields.len() == 0 {
                    push_str(&mut text, "        int __empty_");
                    push_str(&mut text, vname.as_str());
                    push_str(&mut text, "_;\n");
                    assert(text@ =~= tv + ("        int __empty_"@ + vname@ + "_;\n"@));
                } else {
                    let mut j: usize = 0;
                    assert(fs.take(0) =~= Seq::<(Seq<char>, Seq<char>)>::empty());
                    assert(tv + variant_members(vname@, fs.take(0)) =~= tv);
                    while j < fields.len()
                        invariant
                            j <= fields@.len(),
                            fs == field_table(fields@),
                            text@ == tv + variant_members(vname@, fs.take(j as int)),
                        decreases fields@.len() - j,
                    {
                        assert(fs.take(j + 1).drop_last() =~= fs.take(j as int));
                        push_str(&mut text, "        ");
                        push_str(&mut text, fields[j].1.as_str());
                        push_str(&mut text, " ");
                        push_str(&mut text, vname.as_str());
                        push_str(&mut text, "_");
                        push_str(&mut text, fields[j].0.as_str());
                        push_str(&mut text, ";\n");
                        j = j + 1;
                        assert(text@ =~= tv + variant_members(vname@, fs.take(j as int)));
                    }
                    assert(fs.take(j as int) =~= fs);
                }
                v = v + 1;
                assert(text@ =~= t0 + union_lines(vt.take(v as int)));
            }
            assert(vt.take(v as int) =~= vt);
            push_str(&mut text, "    } data;\n");
            push_str(&mut text, "} ");
            push_str(&mut text, name.as_str());
            push_str(&mut text, ";\n\n");
            assert(text@ =~= enum_typedef(name@, vt));
            push_str(out, text.as_str());
            assert(edefs.take(i + 1).drop_last() =~= edefs.take(i as int));
            i = i + 1;
            assert(out@ =~= old(out)@ + enum_typedefs(edefs.take(i as int)));
        }
        assert(edefs.take(i as int) =~= edefs);
    }

    /// Appends a prototype for each top-level function other than `main`.
    #[verifier::rlimit(60)]
    fn push_forward_decls(&self, out: &mut String, program: &Program)
        ensures
            final(out)@ == old(out)@ + forward_decls(self.structs(), self.enums(), program.stmts@),
    {
        let ghost ss = program.stmts@;
        let mut i: usize = 0;
        assert(ss.take(0) =~= Seq::<Stmt>::empty());
        assert(old(out)@ + Seq::<char>::empty() =~= old(out)@);
        while i < program.stmts.len()
            invariant
                i <= program.stmts@.len(),
                ss == program.stmts@,
                out@ == old(out)@ + forward_decls(self.structs(), self.enums(), ss.take(i as int)),
            decreases program.stmts@.len() - i,
        {
            let ghost before = out@;
            assert(ss.take(i + 1).drop_last() =~= ss.take(i as int));
            assert(ss.take(i + 1).last() == ss[i as int]);
            match &program.stmts[i] {
                Stmt::Fn { name, params, return_type, .. } => {
                    if !eq_str(name, "main") {
                        let rt = self.annotation_ctype(return_type);
                        let ps = self.param_ctypes(params);
                        push_str(out, rt.as_str());
                        push_str(out, " ");
                        push_str(out, name.as_str());
                        push_str(out, "(");
                        push_joined(out, &ps, ", ");
                        push_str(out, ");\n");
                    }
                },
                _ => {},
            }
            i = i + 1;
            assert(out@ =~= old(out)@ + forward_decls(self.structs(), self.enums(), ss.take(i as int)));
        }
        assert(ss.take(i as int) =~= ss);
    }

    /// The C translation unit for a program: the runtime include, the struct
    /// typedefs in dependency order, the enum definitions, the function
    /// prototypes, and then the code of each statement.
    #[verifier::rlimit(40)]
    pub fn generate(&mut self, program: &Program) -> (r: String)
        ensures
            r@ == final(self).out(),
            r@.len() >= c_prelude().len(),
            r@.subrange(0, c_prelude().len() as int) == c_prelude(),
            (final(self).struct_defs(), final(self).enum_defs())
                == collect(old(self).struct_defs(), old(self).enum_defs(), program.stmts@),
            exists|names: Seq<Seq<char>>| struct_order(final(self).struct_defs(), names) && {
                let h = c_prelude() + struct_typedefs(final(self).struct_defs(), names)
                    + enum_typedefs(final(self).enum_defs())
                    + forward_decls(final(self).structs(), final(self).enums(), program.stmts@) + "\n"@;
                r@.len() >= h.len() && r@.subrange(0, h.len() as int) == h
            },
    {
        self.collect_types(program);
        let ghost defs = (self.struct_defs(), self.enum_defs());
        self.collect_fn_types(program);
        let mut out = String::from_str("#include \"midori_runtime.h\"\n\n");
        let ghost start = out@;
        self.push_struct_typedefs(&mut out);
        let ghost names = choose|names: Seq<Seq<char>>| struct_order(self.struct_defs(), names)
            && out@ == start + struct_typedefs(self.struct_defs(), names);
        self.push_enum_typedefs(&mut out);
        self.push_forward_decls(&mut out, program);
        push_str(&mut out, "\n");
        let ghost h = out@;
        assert(out@.subrange(0, h.len() as int) =~= h);
        assert(h.subrange(0, start.len() as int) =~= start);
        self.output = out;
        let ghost g0 = *self;
        let mut i: usize = 0;
        while i < program.stmts.len()
            invariant
                i <= program.stmts@.len(),
                g0.grew(self),
                g0.output@.subrange(0, h.len() as int) == h,
                g0.output@.len() >= h.len(),
                (g0.struct_defs(), g0.enum_defs()) == defs,
            decreases program.stmts@.len() - i,
        {
            self.gen_stmt(&program.stmts[i]);
            i = i + 1;
        }
        proof {
            assert(self.output@.subrange(0, h.len() as int) =~= h);
            assert(self.output@.subrange(0, start.len() as int) =~= h.subrange(0, start.len() as int));
            assert(struct_order(self.struct_defs(), names));
            assert(h == c_prelude() + struct_typedefs(self.struct_defs(), names) + enum_typedefs(self.enum_defs())
                + forward_decls(self.structs(), self.enums(), program.stmts@) + "\n"@);
        }
        self.output.clone()
    }
}

} // verus!

verus! {

/// The built-in math functions, which C calls with an `mi_` prefix.
pub open spec fn math_fn(n: Seq<char>) -> bool {
    n == "sin"@ || n == "cos"@ || n == "tan"@ || n == "sqrt"@ || n == "pow"@ || n == "exp"@ || n == "log"@
        || n == "log10"@ || n == "abs"@ || n == "floor"@ || n == "ceil"@ || n == "round"@ || n == "atan2"@
}

/// A value passed to `mi_str_concat`: strings as they are, others through `str()`.
pub open spec fn str_part(ct: Seq<char>, v: Seq<char>) -> Seq<char> {
    if ct == "mi_str"@ {
        v
    } else {
        "str("@ + v + ")"@
    }
}

/// The interpolated string built from `acc` and the texts `vs` of `parts`.
pub open spec fn str_fold(vars: Seq<(String, String)>, fns: Seq<(String, String)>, acc: Seq<char>, parts: Seq<Expr>,
    vs: Seq<Seq<char>>) -> Seq<char>
    decreases parts.len(),
{
    if parts.len() == 0 || vs.len() == 0 {
        acc
    } else {
        "mi_str_concat("@ + str_fold(vars, fns, acc, parts.drop_last(), vs.drop_last()) + ", "@
            + str_part(infer_c(vars, fns, parts.last()), vs.last()) + ")"@
    }
}

/// The C operator text of an assignment operator.
pub open spec fn assign_c(op: AssignOp) -> Seq<char> {
    match op {
        AssignOp::Plain => "="@,
        AssignOp::Add => "+="@,
        AssignOp::Sub => "-="@,
        AssignOp::Mul => "*="@,
        AssignOp::Div => "/="@,
    }
}

/// The runtime function for a string comparison or concatenation.
pub open spec fn str_op_fn(op: BinOp) -> Option<Seq<char>> {
    match op {
        BinOp::Add => Some("mi_str_concat"@),
        BinOp::Eq => Some("mi_str_eq"@),
        BinOp::Neq => Some("mi_str_ne"@),
        BinOp::Lt => Some("mi_str_lt"@),
        BinOp::Le => Some("mi_str_le"@),
        BinOp::Gt => Some("mi_str_gt"@),
        BinOp::Ge => Some("mi_str_ge"@),
        _ => None,
    }
}

/// The byte that indexing a string literal at `n` reads, or 0 past its end.
pub open spec fn literal_byte(s: Seq<char>, n: int) -> nat {
    if 0 <= n < utf8(s).len() {
        utf8(s)[n] as nat
    } else {
        0
    }
}

/// The C text of an expression that needs no statements before it, given
/// the C types of variables, the C return types of functions and the struct
/// names; `None` for expressions that need statements (a `match`, a block of
/// several statements, a non-empty array literal) or contain one.
pub open spec fn pure_c(vars: Seq<(String, String)>, fns: Seq<(String, String)>, structs: Seq<Seq<char>>, e: Expr)
    -> Option<Seq<char>>
    decreases e, 0nat,
{
    match e {
        Expr::Str(s, interps) => {
            let prefix = "mi_str_lit(\""@ + escape_c(s@) + "\")"@;
            match pure_list(vars, fns, structs, interps@) {
                Some(vs) => Some(str_fold(vars, fns, prefix, interps@, vs)),
                None => None,
            }
        },
        Expr::Field(obj, f) => match pure_c(vars, fns, structs, *obj) {
            Some(o) => Some(o + (if i64_text(f@) { ".f"@ } else { "."@ }) + f@),
            None => None,
        },
        Expr::Index(arr, idx) => match pure_c(vars, fns, structs, *idx) {
            Some(i) => match *arr {
                Expr::Str(s, _) => match *idx {
                    Expr::Int(n) => Some("((mi_char)"@ + nat_text(literal_byte(s@, n as int)) + ")"@),
                    _ => Some("(mi_char)(mi_str_lit(\""@ + escape_quotes(s@) + "\").data["@ + i + "])"@),
                },
                _ => match pure_c(vars, fns, structs, *arr) {
                    Some(a) => {
                        let is_array = match *arr {
                            Expr::Ident(n) => match lookup_text(vars, n@) {
                                Some(t) => starts_with(t, "mi_array"@),
                                None => false,
                            },
                            _ => false,
                        };
                        Some((if is_array { "mi_array_get_int(&"@ } else { "mi_str_at("@ }) + a + ", "@ + i + ")"@)
                    },
                    None => None,
                },
            },
            None => None,
        },
        Expr::Call(callee, args) => match (pure_c(vars, fns, structs, *callee), pure_list(vars, fns, structs, args@)) {
            (Some(c), Some(vs)) => {
                let f = match *callee {
                    Expr::Ident(n) => if math_fn(n@) { "mi_"@ + n@ } else { c },
                    _ => c,
                };
                Some(f + "("@ + join_texts(vs, ", "@) + ")"@)
            },
            _ => None,
        },
        Expr::MethodCall(obj, m, args) => match (pure_c(vars, fns, structs, *obj), pure_list(vars, fns, structs, args@)) {
            (Some(o), Some(vs)) => Some(method_call_c(structs, infer_c(vars, fns, *obj), m@, o, vs)),
            _ => None,
        },
        Expr::Unary(op, r) => match pure_c(vars, fns, structs, *r) {
            Some(x) => Some((if op == UnOp::Neg { "(-"@ } else { "(!"@ }) + x + ")"@),
            None => None,
        },
        Expr::Binary(l, op, r) => match (pure_c(vars, fns, structs, *l), pure_c(vars, fns, structs, *r)) {
            (Some(a), Some(b)) => {
                let is_str = is_string_expr(*l) || is_string_expr(*r);
                match (if is_str { str_op_fn(op) } else { None }) {
                    Some(f) => Some(f + "("@ + a + ", "@ + b + ")"@),
                    None => Some("("@ + a + " "@ + c_op(op) + " "@ + b + ")"@),
                }
            },
            _ => None,
        },
        Expr::Assign(t, op, v) => match (pure_c(vars, fns, structs, *t), pure_c(vars, fns, structs, *v)) {
            (Some(a), Some(b)) => Some(a + " "@ + assign_c(op) + " "@ + b),
            _ => None,
        },
        Expr::If(c, t, el) => match (cond_c(vars, fns, structs, *c), pure_c(vars, fns, structs, *t)) {
            (Some(cc), Some(tt)) => match el {
                Some(x) => match pure_c(vars, fns, structs, *x) {
                    Some(ee) => Some("("@ + cc + " ? "@ + tt + " : "@ + ee + ")"@),
                    None => None,
                },
                None => Some("("@ + cc + " ? "@ + tt + " : "@ + "mi_nil()"@ + ")"@),
            },
            _ => None,
        },
        Expr::Match(_, _) => None,
        Expr::Block(stmts) => if stmts@.len() == 0 {
            Some("0"@)
        } else if stmts@.len() == 1 {
            match stmts@[0] {
                Stmt::Expr(x) => {
                    proof {
                        assert(decreases_to!(e => stmts));
                        assert(decreases_to!(stmts => stmts@));
                        assert(decreases_to!(stmts@ => stmts@[0]));
                    }
                    pure_c(vars, fns, structs, x)
                },
                _ => None,
            }
        } else {
            None
        },
        Expr::Fn(_, _, body) => pure_c(vars, fns, structs, *body),
        Expr::Pipe(l, r) => match pure_c(vars, fns, structs, *l) {
            Some(a) => match *r {
                Expr::Ident(f) => Some(f@ + "("@ + a + ")"@),
                Expr::Call(callee, args) => match (pure_c(vars, fns, structs, *callee), pure_list(vars, fns, structs, args@)) {
                    (Some(c), Some(vs)) => Some(c + "("@ + join_texts(seq![a] + vs, ", "@) + ")"@),
                    _ => None,
                },
                _ => match pure_c(vars, fns, structs, *r) {
                    Some(b) => Some("("@ + b + ")("@ + a + ")"@),
                    None => None,
                },
            },
            None => None,
        },
        Expr::Array(items) => if items@.len() == 0 {
            Some("mi_array_new(sizeof(mi_int), 0)"@)
        } else {
            None
        },
        Expr::Tuple(items) => if items@.len() == 0 {
            Some("0"@)
        } else if items@.len() == 1 {
            proof {
                assert(decreases_to!(e => items));
                assert(decreases_to!(items => items@));
                assert(decreases_to!(items@ => items@[0]));
            }
            pure_c(vars, fns, structs, items@[0])
        } else {
            match pure_list(vars, fns, structs, items@) {
                Some(vs) => Some("((struct { "@ + join_texts(tuple_decls(vars, fns, items@), "; "@) + " }){ "@
                    + join_texts(vs, ", "@) + " })"@),
                None => None,
            }
        },
        Expr::StructLit(name, fields) => match pure_fields(vars, fns, structs, fields@) {
            Some(fs) => Some("("@ + name@ + "){"@ + join_texts(fs, ", "@) + "}"@),
            None => None,
        },
        _ => leaf_c(e),
    }
}

/// The member declarations of an anonymous tuple struct: each item's guessed
/// C type and the field name `f<i>`.
pub open spec fn tuple_decls(vars: Seq<(String, String)>, fns: Seq<(String, String)>, items: Seq<Expr>) -> Seq<Seq<char>> {
    Seq::new(items.len(), |i: int| infer_c(vars, fns, items[i]) + " f"@ + nat_text(i as nat))
}

/// The C texts of a list of expressions that need no statements.
pub open spec fn pure_list(vars: Seq<(String, String)>, fns: Seq<(String, String)>, structs: Seq<Seq<char>>, es: Seq<Expr>)
    -> Option<Seq<Seq<char>>>
    decreases es, 0nat,
{
    if es.len() == 0 {
        Some(Seq::empty())
    } else {
        match (pure_list(vars, fns, structs, es.drop_last()), pure_c(vars, fns, structs, es.last())) {
            (Some(vs), Some(v)) => Some(vs.push(v)),
            _ => None,
        }
    }
}

/// The designated initializers `.name = value` of a struct literal.
pub open spec fn pure_fields(vars: Seq<(String, String)>, fns: Seq<(String, String)>, structs: Seq<Seq<char>>,
    fs: Seq<(String, Expr)>) -> Option<Seq<Seq<char>>>
    decreases fs, 0nat,
{
    if fs.len() == 0 {
        Some(Seq::empty())
    } else {
        match (pure_fields(vars, fns, structs, fs.drop_last()), pure_c(vars, fns, structs, fs.last().1)) {
            (Some(vs), Some(v)) => Some(vs.push("."@ + fs.last().0@ + " = "@ + v)),
            _ => None,
        }
    }
}

/// The C condition of an expression that needs no statements: `and`, `or`
/// and `not` map to the C operators on the conditions of their operands, and
/// anything else is parenthesized.
pub open spec fn cond_c(vars: Seq<(String, String)>, fns: Seq<(String, String)>, structs: Seq<Seq<char>>, e: Expr)
    -> Option<Seq<char>>
    decreases e, 1nat,
{
    match e {
        Expr::Binary(l, op, r) => if op == BinOp::And || op == BinOp::Or {
            match (cond_c(vars, fns, structs, *l), cond_c(vars, fns, structs, *r)) {
                (Some(a), Some(b)) => Some("("@ + a + (if op == BinOp::And { " && "@ } else { " || "@ }) + b + ")"@),
                _ => None,
            }
        } else {
            match pure_c(vars, fns, structs, e) {
                Some(v) => Some("("@ + v + ")"@),
                None => None,
            }
        },
        Expr::Unary(op, r) => if op == UnOp::Not {
            match cond_c(vars, fns, structs, *r) {
                Some(a) => Some("!("@ + a + ")"@),
                None => None,
            }
        } else {
            match pure_c(vars, fns, structs, e) {
                Some(v) => Some("("@ + v + ")"@),
                None => None,
            }
        },
        _ => match pure_c(vars, fns, structs, e) {
            Some(v) => Some("("@ + v + ")"@),
            None => None,
        },
    }
}

/// Every prefix of a list of expressions that need no statements needs none,
/// and neither does each item.
pub proof fn lemma_pure_list_prefix(vars: Seq<(String, String)>, fns: Seq<(String, String)>, structs: Seq<Seq<char>>,
    es: Seq<Expr>, i: int)
    requires
        pure_list(vars, fns, structs, es) is Some,
        0 <= i <= es.len(),
    ensures
        pure_list(vars, fns, structs, es.take(i)) is Some,
        i < es.len() ==> pure_c(vars, fns, structs, es[i]) is Some,
    decreases es.len(),
{
    if i == es.len() {
        assert(es.take(i) =~= es);
    } else {
        lemma_pure_list_prefix(vars, fns, structs, es.drop_last(), i);
        assert(es.drop_last().take(i) =~= es.take(i));
        if i == es.len() - 1 {
            assert(es[i] == es.last());
        } else {
            assert(es.drop_last()[i] == es[i]);
        }
    }
}

/// The same for the fields of a struct literal.
pub proof fn lemma_pure_fields_prefix(vars: Seq<(String, String)>, fns: Seq<(String, String)>, structs: Seq<Seq<char>>,
    fs: Seq<(String, Expr)>, i: int)
    requires
        pure_fields(vars, fns, structs, fs) is Some,
        0 <= i <= fs.len(),
    ensures
        pure_fields(vars, fns, structs, fs.take(i)) is Some,
        i < fs.len() ==> pure_c(vars, fns, structs, fs[i].1) is Some,
    decreases fs.len(),
{
    if i == fs.len() {
        assert(fs.take(i) =~= fs);
    } else {
        lemma_pure_fields_prefix(vars, fns, structs, fs.drop_last(), i);
        assert(fs.drop_last().take(i) =~= fs.take(i));
        if i == fs.len() - 1 {
            assert(fs[i] == fs.last());
        } else {
            assert(fs.drop_last()[i] == fs[i]);
        }
    }
}

} // verus!
