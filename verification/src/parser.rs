use vstd::prelude::*;
use crate::ast::{Expr, Stmt, Pattern, TypeExpr, FnParam, MatchArm, TypeVariant, TypeField, TraitMethod, Program, BinOp, UnOp, AssignOp};
use crate::lexer::{Lexer, Token, TokenV, token_list, lex_all, list_weight, tok_weight, start_pos, lemma_lex_all_weight};
use crate::text::{push_str, push_char, push_usize, chars_of};

verus! {

/// The message `msg` followed by the debug form of `t`.
fn msg_got(msg: &str, t: &Token) -> (r: String)
    ensures
        r@ == msg@ + t@.debug_text(),
{
    let mut out = String::from_str(msg);
    let d = t.debug_text();
    push_str(&mut out, d.as_str());
    out
}

/// Appends ` at line:col`.
fn push_at(out: &mut String, line: usize, col: usize)
    ensures
        final(out)@ == old(out)@ + " at "@ + crate::text::nat_text(line as nat) + ":"@ + crate::text::nat_text(col as nat),
{
    push_str(out, " at ");
    push_usize(out, line);
    push_str(out, ":");
    push_usize(out, col);
}

/// The characters `cs[from..to]` as a string.
fn string_of(cs: &Vec<char>, from: usize, to: usize) -> (r: String)
    requires
        from <= to <= cs@.len(),
    ensures
        r@ == cs@.subrange(from as int, to as int),
{
    let mut out = String::new();
    let mut i = from;
    while i < to
        invariant
            from <= i <= to,
            to <= cs@.len(),
            out@ == cs@.subrange(from as int, i as int),
        decreases to - i,
    {
        push_char(&mut out, cs[i]);
        assert(out@ =~= cs@.subrange(from as int, i + 1));
        i = i + 1;
    }
    out
}

/// Binary operators bind in this order, loosest first: `or`, `and`,
/// comparisons (equality and order alike), addition and subtraction,
/// multiplication, division and remainder. Each level binds its right operand
/// one step tighter, so operators of one level group to the left.
pub proof fn lemma_precedence_order()
    ensures
        TokenV::Or.precedence() == TokenV::OrOr.precedence(),
        TokenV::And.precedence() == TokenV::AndAnd.precedence(),
        TokenV::OrOr.precedence() < TokenV::AndAnd.precedence(),
        TokenV::AndAnd.precedence() < TokenV::EqEq.precedence(),
        TokenV::EqEq.precedence() == TokenV::BangEq.precedence(),
        TokenV::EqEq.precedence() == TokenV::Lt.precedence(),
        TokenV::Lt.precedence() == TokenV::Gt.precedence(),
        TokenV::Lt.precedence() == TokenV::LtEq.precedence(),
        TokenV::Lt.precedence() == TokenV::GtEq.precedence(),
        TokenV::Lt.precedence() < TokenV::Plus.precedence(),
        TokenV::Plus.precedence() == TokenV::Minus.precedence(),
        TokenV::Plus.precedence() < TokenV::Star.precedence(),
        TokenV::Star.precedence() == TokenV::Slash.precedence(),
        TokenV::Star.precedence() == TokenV::Percent.precedence(),
        forall|t: TokenV| #[trigger] t.is_binop() ==> t.precedence() > 0,
{
}

/// Moving forward in the token list does not increase the weight left.
pub proof fn lemma_weight_skip(ts: Seq<(TokenV, int, int)>, i: int, j: int)
    requires
        0 <= i <= j <= ts.len(),
    ensures
        list_weight(ts.skip(j)) <= list_weight(ts.skip(i)),
        i < j ==> list_weight(ts.skip(j)) < list_weight(ts.skip(i)),
        list_weight(ts.skip(j)) >= 0,
        i < ts.len() ==> list_weight(ts.skip(i)) == tok_weight(ts[i].0) + list_weight(ts.skip(i + 1)),
    decreases j - i,
{
    if i < ts.len() {
        assert(ts.skip(i).drop_first() =~= ts.skip(i + 1));
    }
    if i < j {
        lemma_weight_skip(ts, i + 1, j);
    } else {
        lemma_weight_nonneg(ts.skip(j));
    }
}

/// The weight of a token list is not negative.
pub proof fn lemma_weight_nonneg(ts: Seq<(TokenV, int, int)>)
    ensures
        list_weight(ts) >= 0,
    decreases ts.len(),
{
    if ts.len() > 0 {
        lemma_weight_nonneg(ts.drop_first());
    }
}

/// The index of the first token at or after `i` that is not a newline.
pub open spec fn skip_nl(ts: Seq<(TokenV, int, int)>, i: int) -> int
    decreases ts.len() - i,
{
    if 0 <= i < ts.len() - 1 && ts[i].0 == TokenV::Newline {
        skip_nl(ts, i + 1)
    } else {
        i
    }
}

/// Skipping newlines stops on a token that is not a newline, within the list.
pub proof fn lemma_skip_nl(ts: Seq<(TokenV, int, int)>, i: int)
    requires
        0 <= i < ts.len(),
    ensures
        i <= skip_nl(ts, i) < ts.len(),
    decreases ts.len() - i,
{
    if 0 <= i < ts.len() - 1 && ts[i].0 == TokenV::Newline {
        lemma_skip_nl(ts, i + 1);
    }
}

/// The binary operator that a token stands for.
pub open spec fn binop_of(t: TokenV) -> BinOp {
    match t {
        TokenV::Plus => BinOp::Add,
        TokenV::Minus => BinOp::Sub,
        TokenV::Star => BinOp::Mul,
        TokenV::Slash => BinOp::Div,
        TokenV::Percent => BinOp::Mod,
        TokenV::EqEq => BinOp::Eq,
        TokenV::BangEq => BinOp::Neq,
        TokenV::Lt => BinOp::Lt,
        TokenV::Gt => BinOp::Gt,
        TokenV::LtEq => BinOp::Le,
        TokenV::GtEq => BinOp::Ge,
        TokenV::AndAnd | TokenV::And => BinOp::And,
        _ => BinOp::Or,
    }
}

/// The assignment operator that a token stands for.
pub open spec fn assignop_of(t: TokenV) -> AssignOp {
    match t {
        TokenV::Eq => AssignOp::Plain,
        TokenV::PlusEq => AssignOp::Add,
        TokenV::MinusEq => AssignOp::Sub,
        TokenV::StarEq => AssignOp::Mul,
        _ => AssignOp::Div,
    }
}

/// Skipping newlines from where a skip stopped stays there.
pub proof fn lemma_skip_nl_idem(ts: Seq<(TokenV, int, int)>, i: int)
    requires
        0 <= i < ts.len(),
    ensures
        skip_nl(ts, skip_nl(ts, i)) == skip_nl(ts, i),
    decreases ts.len() - i,
{
    if 0 <= i < ts.len() - 1 && ts[i].0 == TokenV::Newline {
        lemma_skip_nl_idem(ts, i + 1);
    }
}

/// The expression that a literal token stands for: an integer, a character,
/// `true`, `false` or `nil`.
pub open spec fn literal_expr(t: TokenV) -> Option<Expr> {
    match t {
        TokenV::IntLiteral(n) => Some(Expr::Int(n)),
        TokenV::CharLiteral(c) => Some(Expr::Char(c)),
        TokenV::True => Some(Expr::Bool(true)),
        TokenV::False => Some(Expr::Bool(false)),
        TokenV::Nil => Some(Expr::Nil),
        _ => None,
    }
}

/// An operator expression over literals and parenthesized groups, read from
/// token `i` with binding strength `min_bp`: the expression, and the index of
/// the token where reading stops. A group stands for the expression inside it. Prefix `-`, `!` and `not` bind tighter than every infix operator; an
/// infix operator of precedence p is taken where p >= min_bp and its right
/// operand is read at strength p + 1, so operators of equal precedence group
/// to the left; `|>` is taken only at strength 0, with its right operand read
/// at strength 1; an assignment operator (`=`, `+=`, `-=`, `*=`, `/=`, see
/// `assignop_of`) takes the whole expression on its right. `None` where the
/// tokens hold anything else (a name, a string, a call, an index, a field).
pub open spec fn op_expr(ts: Seq<(TokenV, int, int)>, i: int, min_bp: int) -> Option<(Expr, int)>
    decreases ts.len() - i, 1int,
{
    let k = skip_nl(ts, i);
    if !(0 <= i <= k && k + 1 < ts.len()) {
        None
    } else if literal_expr(ts[k].0) is Some {
        op_rest(ts, k + 1, min_bp, literal_expr(ts[k].0)->0)
    } else if ts[k].0 == TokenV::Minus || ts[k].0 == TokenV::Bang || ts[k].0 == TokenV::Not {
        let op = if ts[k].0 == TokenV::Minus { UnOp::Neg } else { UnOp::Not };
        match op_expr(ts, k + 1, 7) {
            Some(x) => if k < x.1 < ts.len() {
                op_rest(ts, x.1, min_bp, Expr::Unary(op, Box::new(x.0)))
            } else {
                None
            },
            None => None,
        }
    } else if ts[k].0 == TokenV::LParen {
        match op_expr(ts, k + 1, 0) {
            Some(x) => if k < x.1 < ts.len() - 1 && ts[x.1].0 == TokenV::RParen {
                op_rest(ts, x.1 + 1, min_bp, x.0)
            } else {
                None
            },
            None => None,
        }
    } else {
        None
    }
}

/// The rest of an operator expression whose left operand `lhs` was read up to
/// token `j` (see `op_expr`).
pub open spec fn op_rest(ts: Seq<(TokenV, int, int)>, j: int, min_bp: int, lhs: Expr) -> Option<(Expr, int)>
    decreases ts.len() - j, 0int,
{
    let k = skip_nl(ts, j);
    if !(0 <= j <= k < ts.len()) {
        None
    } else {
        let t = ts[k].0;
        if t == TokenV::LParen || t == TokenV::LBracket || t == TokenV::Dot {
            None
        } else if t.is_assign() {
            match op_expr(ts, k + 1, 0) {
                Some(x) => if k < x.1 < ts.len() {
                    op_rest(ts, x.1, min_bp, Expr::Assign(Box::new(lhs), assignop_of(t), Box::new(x.0)))
                } else {
                    None
                },
                None => None,
            }
        } else if t == TokenV::Pipe {
            if min_bp > 0 {
                Some((lhs, k))
            } else {
                match op_expr(ts, k + 1, 1) {
                    Some(x) => if k < x.1 < ts.len() {
                        op_rest(ts, x.1, min_bp, Expr::Pipe(Box::new(lhs), Box::new(x.0)))
                    } else {
                        None
                    },
                    None => None,
                }
            }
        } else if t.precedence() != 0 {
            if t.precedence() < min_bp {
                Some((lhs, k))
            } else {
                match op_expr(ts, k + 1, t.precedence() + 1) {
                    Some(x) => if k < x.1 < ts.len() {
                        op_rest(ts, x.1, min_bp, Expr::Binary(Box::new(lhs), binop_of(t), Box::new(x.0)))
                    } else {
                        None
                    },
                    None => None,
                }
            }
        } else {
            Some((lhs, k))
        }
    }
}

/// A program whose statements are operator expressions over literals (see
/// `op_expr`), read from token `i` up to `Eof`; `None` where it holds anything else.
pub open spec fn op_program(ts: Seq<(TokenV, int, int)>, i: int) -> Option<Seq<Stmt>>
    decreases ts.len() - i,
{
    let k = skip_nl(ts, i);
    if !(0 <= i <= k < ts.len()) {
        None
    } else if ts[k].0 == TokenV::Eof {
        Some(Seq::empty())
    } else {
        match op_expr(ts, k, 0) {
            Some(x) => if k < x.1 < ts.len() {
                match op_program(ts, x.1) {
                    Some(rest) => Some(seq![Stmt::Expr(x.0)] + rest),
                    None => None,
                }
            } else {
                None
            },
            None => None,
        }
    }
}

/// Statements that are operator expressions (see `op_expr`), read from token
/// `i` up to a `}` or the end: the statements and the index of that token.
pub open spec fn op_block(ts: Seq<(TokenV, int, int)>, i: int) -> Option<(Seq<Stmt>, int)>
    decreases ts.len() - i,
{
    let k = skip_nl(ts, i);
    if !(0 <= i <= k < ts.len()) {
        None
    } else if ts[k].0 == TokenV::RBrace || ts[k].0 == TokenV::Eof {
        Some((Seq::empty(), k))
    } else {
        match op_expr(ts, k, 0) {
            Some(x) => if k < x.1 < ts.len() {
                match op_block(ts, x.1) {
                    Some(b) => Some((seq![Stmt::Expr(x.0)] + b.0, b.1)),
                    None => None,
                }
            } else {
                None
            },
            None => None,
        }
    }
}

/// The rest of a dotted path after `acc` was read up to token `j`: the path
/// and the index after it; `None` where a dot is not followed by a name.
pub open spec fn path_rest(ts: Seq<(TokenV, int, int)>, j: int, acc: Seq<char>) -> Option<(Seq<char>, int)>
    decreases ts.len() - j,
{
    if !(0 <= j < ts.len()) {
        None
    } else if ts[j].0 == TokenV::Dot {
        if j + 2 < ts.len() {
            match ts[j + 1].0 {
                TokenV::Ident(n) => path_rest(ts, j + 2, acc.push('.') + n),
                _ => None,
            }
        } else {
            None
        }
    } else {
        Some((acc, j))
    }
}

/// A dotted path of names at token `i`, such as `std.io`: its text and the
/// index after it; `None` where it does not start with a name or a dot is not
/// followed by one.
pub open spec fn ident_path(ts: Seq<(TokenV, int, int)>, i: int) -> Option<(Seq<char>, int)> {
    if 0 <= i && i + 1 < ts.len() {
        match ts[i].0 {
            TokenV::Ident(n) => path_rest(ts, i + 1, n),
            _ => None,
        }
    } else {
        None
    }
}

/// A type that is a plain name at token `i` (a name not followed by `[`).
pub open spec fn simple_type(ts: Seq<(TokenV, int, int)>, i: int) -> Option<Seq<char>> {
    if 0 <= i && i + 1 < ts.len() {
        match ts[i].0 {
            TokenV::Ident(n) => if ts[i + 1].0 != TokenV::LBracket { Some(n) } else { None },
            _ => None,
        }
    } else {
        None
    }
}

/// An annotation is the plain type name `t`, or absent where `t` is.
pub open spec fn names_type(te: Option<TypeExpr>, t: Option<Seq<char>>) -> bool {
    match t {
        None => te is None,
        Some(n) => te matches Some(TypeExpr::Named(m)) && m@ == n,
    }
}

/// A parameter `name` or `name: Type` (a plain type, no default) at token
/// `i`: its name and type, and the index after it.
pub open spec fn simple_param(ts: Seq<(TokenV, int, int)>, i: int) -> Option<((Seq<char>, Option<Seq<char>>), int)> {
    if 0 <= i && i + 1 < ts.len() {
        match ts[i].0 {
            TokenV::Ident(n) => if ts[i + 1].0 == TokenV::Colon {
                match simple_type(ts, i + 2) {
                    Some(t) => if ts[i + 3].0 != TokenV::Eq { Some(((n, Some(t)), i + 3)) } else { None },
                    None => None,
                }
            } else if ts[i + 1].0 != TokenV::Eq {
                Some(((n, None), i + 1))
            } else {
                None
            },
            _ => None,
        }
    } else {
        None
    }
}

/// Parameters from token `i`: one parameter (see `simple_param`), then, after
/// each comma, another, with an optional trailing comma before `)`; the names
/// and types, and the index where reading stops.
pub open spec fn params_from(ts: Seq<(TokenV, int, int)>, i: int) -> Option<(Seq<(Seq<char>, Option<Seq<char>>)>, int)>
    decreases ts.len() - i,
{
    match simple_param(ts, i) {
        Some(p) => if 0 <= i < p.1 < ts.len() {
            if ts[p.1].0 == TokenV::Comma && p.1 + 1 < ts.len() {
                if ts[p.1 + 1].0 == TokenV::RParen {
                    Some((seq![p.0], p.1 + 1))
                } else {
                    match params_from(ts, p.1 + 1) {
                        Some(r) => Some((seq![p.0] + r.0, r.1)),
                        None => None,
                    }
                }
            } else {
                Some((seq![p.0], p.1))
            }
        } else {
            None
        },
        None => None,
    }
}

/// A parameter list of plain parameters at token `i`, up to `)`: the names
/// and types, and the index where reading stops.
pub open spec fn params_at(ts: Seq<(TokenV, int, int)>, i: int) -> Option<(Seq<(Seq<char>, Option<Seq<char>>)>, int)> {
    if 0 <= i < ts.len() && ts[i].0 == TokenV::RParen {
        Some((Seq::empty(), i))
    } else {
        params_from(ts, i)
    }
}

/// A parameter has the name and plain type `x` and no default.
pub open spec fn param_is(p: FnParam, x: (Seq<char>, Option<Seq<char>>)) -> bool {
    p.name@ == x.0 && names_type(p.type_expr, x.1) && p.default is None
}

/// Parameters have the names and plain types `xs`, in order.
pub open spec fn params_are(ps: Seq<FnParam>, xs: Seq<(Seq<char>, Option<Seq<char>>)>) -> bool {
    ps.len() == xs.len() && forall|k: int| 0 <= k < ps.len() ==> param_is(#[trigger] ps[k], xs[k])
}

/// Call arguments from token `i`: an operator expression (see `op_expr`),
/// then, after each comma, another, with an optional trailing comma before
/// `)`; the arguments and the index where reading stops.
pub open spec fn args_from(ts: Seq<(TokenV, int, int)>, i: int) -> Option<(Seq<Expr>, int)>
    decreases ts.len() - i,
{
    match op_expr(ts, i, 0) {
        Some(x) => if 0 <= i < x.1 < ts.len() {
            if ts[x.1].0 == TokenV::Comma && x.1 + 1 < ts.len() {
                if ts[x.1 + 1].0 == TokenV::RParen {
                    Some((seq![x.0], x.1 + 1))
                } else {
                    match args_from(ts, x.1 + 1) {
                        Some(r) => Some((seq![x.0] + r.0, r.1)),
                        None => None,
                    }
                }
            } else {
                Some((seq![x.0], x.1))
            }
        } else {
            None
        },
        None => None,
    }
}

/// Call arguments at token `i`, up to `)`: the arguments and the index where
/// reading stops.
pub open spec fn args_at(ts: Seq<(TokenV, int, int)>, i: int) -> Option<(Seq<Expr>, int)> {
    if 0 <= i < ts.len() && ts[i].0 == TokenV::RParen {
        Some((Seq::empty(), i))
    } else {
        args_from(ts, i)
    }
}

/// The pattern that a literal token stands for: an integer, a character,
/// `true` or `false`; `nil` and `_` match anything.
pub open spec fn literal_pattern(t: TokenV) -> Option<Pattern> {
    match t {
        TokenV::IntLiteral(n) => Some(Pattern::Int(n)),
        TokenV::CharLiteral(c) => Some(Pattern::Char(c)),
        TokenV::True => Some(Pattern::Bool(true)),
        TokenV::False => Some(Pattern::Bool(false)),
        TokenV::Nil | TokenV::Underscore => Some(Pattern::Wild),
        _ => None,
    }
}

/// Fields `name: Type` (plain types) from token `i`, separated by commas, up
/// to `stop`, newlines before each skipped where `nl` holds: the names and
/// types, and the index where reading stops.
pub open spec fn fields_at(ts: Seq<(TokenV, int, int)>, i: int, stop: TokenV, nl: bool)
    -> Option<(Seq<(Seq<char>, Seq<char>)>, int)>
    decreases ts.len() - i,
{
    let k = if nl { skip_nl(ts, i) } else { i };
    if !(0 <= i <= k < ts.len()) {
        None
    } else if ts[k].0 == stop {
        Some((Seq::empty(), k))
    } else {
        match ts[k].0 {
            TokenV::Ident(f) => if ts[k + 1].0 == TokenV::Colon {
                match simple_type(ts, k + 2) {
                    Some(t) => if ts[k + 3].0 == TokenV::Comma && k + 4 < ts.len() {
                        match fields_at(ts, k + 4, stop, nl) {
                            Some(r) => Some((seq![(f, t)] + r.0, r.1)),
                            None => None,
                        }
                    } else {
                        Some((seq![(f, t)], k + 3))
                    },
                    None => None,
                }
            } else {
                None
            },
            _ => None,
        }
    }
}

/// A field has the name and plain type `x`.
pub open spec fn field_is(f: TypeField, x: (Seq<char>, Seq<char>)) -> bool {
    f.name@ == x.0 && (f.type_expr matches TypeExpr::Named(m) && m@ == x.1)
}

/// Fields have the names and plain types `xs`, in order.
pub open spec fn fields_are(fs: Seq<TypeField>, xs: Seq<(Seq<char>, Seq<char>)>) -> bool {
    fs.len() == xs.len() && forall|k: int| 0 <= k < fs.len() ==> field_is(#[trigger] fs[k], xs[k])
}

/// The rest of a `let` whose name stands at token `ni`: `name [: Type] [=]
/// value` with a plain type and an operator expression as value. Gives the
/// name, `mutable`, the type, the value and the index after it.
pub open spec fn let_rest(ts: Seq<(TokenV, int, int)>, ni: int, mutable: bool)
    -> Option<(Seq<char>, bool, Option<Seq<char>>, Expr, int)>
{
    match ts[ni].0 {
        TokenV::Ident(n) => {
            let colon = ts[ni + 1].0 == TokenV::Colon;
            let ty = if colon { simple_type(ts, ni + 2) } else { None };
            let vi0 = if colon { ni + 3 } else { ni + 1 };
            let vi = if ts[vi0].0 == TokenV::Eq { vi0 + 1 } else { vi0 };
            if colon && ty is None {
                None
            } else {
                match op_expr(ts, vi, 0) {
                    Some(x) => Some((n, mutable, ty, x.0, x.1)),
                    None => None,
                }
            }
        },
        _ => None,
    }
}

/// A `var` statement after its keyword at token `i`: `[(Type)] name = value`,
/// with a plain type and an operator expression as value; it is mutable.
pub open spec fn var_rest(ts: Seq<(TokenV, int, int)>, i: int)
    -> Option<(Seq<char>, bool, Option<Seq<char>>, Expr, int)>
{
    let paren = ts[i + 1].0 == TokenV::LParen;
    let ty = if paren { simple_type(ts, i + 2) } else { None };
    let ni = if paren { i + 4 } else { i + 1 };
    if paren && !(ty is Some && ts[i + 3].0 == TokenV::RParen) {
        None
    } else {
        match ts[ni].0 {
            TokenV::Ident(n) => if ts[ni + 1].0 == TokenV::Eq {
                match op_expr(ts, ni + 2, 0) {
                    Some(x) => Some((n, true, ty, x.0, x.1)),
                    None => None,
                }
            } else {
                None
            },
            _ => None,
        }
    }
}

/// A statement is the `let` that `x` describes.
pub open spec fn let_is(st: Stmt, x: (Seq<char>, bool, Option<Seq<char>>, Expr, int)) -> bool {
    st matches Stmt::Let { name, mutable, type_expr, value } && name@ == x.0 && mutable == x.1
        && names_type(type_expr, x.2) && value == x.3
}

/// Variants `Name` or `Name(field: Type, ...)` (plain field types) from token
/// `i`, separated by commas, newlines before each skipped, up to `}`: each
/// name with its fields, and the index where reading stops.
pub open spec fn variants_at(ts: Seq<(TokenV, int, int)>, i: int)
    -> Option<(Seq<(Seq<char>, Seq<(Seq<char>, Seq<char>)>)>, int)>
    decreases ts.len() - i,
{
    let k = skip_nl(ts, i);
    if !(0 <= i <= k && k + 1 < ts.len()) {
        None
    } else if ts[k].0 == TokenV::RBrace {
        Some((Seq::empty(), k))
    } else {
        match ts[k].0 {
            TokenV::Ident(v) => {
                let fs = if ts[k + 1].0 == TokenV::LParen {
                    match fields_at(ts, k + 2, TokenV::RParen, false) {
                        Some(f) => if ts[f.1].0 == TokenV::RParen && k + 1 < f.1 < ts.len() - 1 {
                            Some((f.0, f.1 + 1))
                        } else {
                            None
                        },
                        None => None,
                    }
                } else {
                    Some((Seq::empty(), k + 1))
                };
                match fs {
                    Some(f) => if ts[f.1].0 == TokenV::Comma && k < f.1 < ts.len() - 1 {
                        match variants_at(ts, f.1 + 1) {
                            Some(r) => Some((seq![(v, f.0)] + r.0, r.1)),
                            None => None,
                        }
                    } else {
                        Some((seq![(v, f.0)], f.1))
                    },
                    None => None,
                }
            },
            _ => None,
        }
    }
}

/// A variant has the name and fields `x`.
pub open spec fn variant_is(v: TypeVariant, x: (Seq<char>, Seq<(Seq<char>, Seq<char>)>)) -> bool {
    v.name@ == x.0 && fields_are(v.fields@, x.1)
}

/// A pattern of literals at token `i` (see `literal_pattern`): a literal, or
/// a range `lo .. hi` of two, then optionally `| pattern`; the pattern and the
/// index where reading stops.
pub open spec fn lit_pattern_at(ts: Seq<(TokenV, int, int)>, i: int) -> Option<(Pattern, int)>
    decreases ts.len() - i,
{
    let k = skip_nl(ts, i);
    if !(0 <= i <= k && k + 1 < ts.len()) {
        None
    } else {
        match literal_pattern(ts[k].0) {
            None => None,
            Some(lo) => {
                let first = if ts[k + 1].0 == TokenV::DotDot {
                    let h = skip_nl(ts, k + 2);
                    if k + 2 <= h && h + 1 < ts.len() {
                        match literal_pattern(ts[h].0) {
                            Some(hi) => Some((Pattern::Range(Box::new(lo), Box::new(hi)), h + 1)),
                            None => None,
                        }
                    } else {
                        None
                    }
                } else {
                    Some((lo, k + 1))
                };
                match first {
                    Some(f) => if ts[f.1].0 == TokenV::Pipe && k < f.1 && f.1 + 1 < ts.len() {
                        match lit_pattern_at(ts, f.1 + 1) {
                            Some(r) => Some((Pattern::Or(Box::new(f.0), Box::new(r.0)), r.1)),
                            None => None,
                        }
                    } else {
                        Some(f)
                    },
                    None => None,
                }
            },
        }
    }
}

/// Match arms `literal => expr [,]` (see `literal_pattern` and `op_expr`) from
/// token `i`, newlines before each skipped, up to `}` or the end: the arms and
/// the index where reading stops.
pub open spec fn arms_at(ts: Seq<(TokenV, int, int)>, i: int) -> Option<(Seq<MatchArm>, int)>
    decreases ts.len() - i,
{
    let k = skip_nl(ts, i);
    if !(0 <= i <= k && k + 2 < ts.len()) {
        if 0 <= i <= k < ts.len() && (ts[k].0 == TokenV::RBrace || ts[k].0 == TokenV::Eof) {
            Some((Seq::empty(), k))
        } else {
            None
        }
    } else if ts[k].0 == TokenV::RBrace || ts[k].0 == TokenV::Eof {
        Some((Seq::empty(), k))
    } else {
        match literal_pattern(ts[k].0) {
            Some(pat) => if ts[k + 1].0 == TokenV::FatArrow || ts[k + 1].0 == TokenV::Arrow {
                match op_expr(ts, k + 2, 0) {
                    Some(x) => if k + 2 < x.1 < ts.len() {
                        let end = if ts[x.1].0 == TokenV::Comma { x.1 + 1 } else { x.1 };
                        match arms_at(ts, end) {
                            Some(r) => Some((seq![MatchArm { pattern: pat, body: Box::new(x.0) }] + r.0, r.1)),
                            None => None,
                        }
                    } else {
                        None
                    },
                    None => None,
                }
            } else {
                None
            },
            None => None,
        }
    }
}

/// The value of a body whose statements are `ss`, as `block_to_expr` gives it
/// for expression statements: `nil` for none, the expression for one, else a block.
pub open spec fn body_is(body: Expr, ss: Seq<Stmt>) -> bool {
    if ss.len() == 0 {
        body == Expr::Nil
    } else if ss.len() == 1 && ss[0] is Expr {
        body == ss[0]->Expr_0
    } else {
        body matches Expr::Block(v) && v@ == ss
    }
}

/// Reading a program after the newlines in front of it gives the same result.
pub proof fn lemma_op_program_skip(ts: Seq<(TokenV, int, int)>, i: int)
    requires
        0 <= i < ts.len(),
    ensures
        op_program(ts, skip_nl(ts, i)) == op_program(ts, i),
{
    lemma_skip_nl(ts, i);
    lemma_skip_nl_idem(ts, i);
}

/// Reading a block after the newlines in front of it gives the same result.
pub proof fn lemma_op_block_skip(ts: Seq<(TokenV, int, int)>, i: int)
    requires
        0 <= i < ts.len(),
    ensures
        op_block(ts, skip_nl(ts, i)) == op_block(ts, i),
{
    lemma_skip_nl(ts, i);
    lemma_skip_nl_idem(ts, i);
}

/// Each operator token gives its own binary operator: `+` addition, `-`
/// subtraction, `*` multiplication, `/` division, `%` remainder, `==` and
/// `!=` (in)equality, `<`, `>`, `<=`, `>=` the orders, `&&`/`and` and
/// `||`/`or` the logical operators.
pub proof fn lemma_binary_ops()
    ensures
        binop_of(TokenV::Plus) == BinOp::Add,
        binop_of(TokenV::Minus) == BinOp::Sub,
        binop_of(TokenV::Star) == BinOp::Mul,
        binop_of(TokenV::Slash) == BinOp::Div,
        binop_of(TokenV::Percent) == BinOp::Mod,
        binop_of(TokenV::EqEq) == BinOp::Eq,
        binop_of(TokenV::BangEq) == BinOp::Neq,
        binop_of(TokenV::Lt) == BinOp::Lt,
        binop_of(TokenV::Gt) == BinOp::Gt,
        binop_of(TokenV::LtEq) == BinOp::Le,
        binop_of(TokenV::GtEq) == BinOp::Ge,
        binop_of(TokenV::AndAnd) == BinOp::And,
        binop_of(TokenV::And) == BinOp::And,
        binop_of(TokenV::OrOr) == BinOp::Or,
        binop_of(TokenV::Or) == BinOp::Or,
{
}

/// Each assignment token gives its own operator: `=` plain assignment, `+=`
/// addition, `-=` subtraction, `*=` multiplication and `/=` division.
pub proof fn lemma_assign_ops()
    ensures
        assignop_of(TokenV::Eq) == AssignOp::Plain,
        assignop_of(TokenV::PlusEq) == AssignOp::Add,
        assignop_of(TokenV::MinusEq) == AssignOp::Sub,
        assignop_of(TokenV::StarEq) == AssignOp::Mul,
        assignop_of(TokenV::SlashEq) == AssignOp::Div,
{
}

/// A recursive-descent parser over a token list.
pub struct Parser {
    tokens: Vec<(Token, usize, usize)>,
    pos: usize,
}

impl Parser {
    /// The tokens being parsed.
    pub closed spec fn toks(&self) -> Seq<(TokenV, int, int)> {
        token_list(self.tokens@)
    }

    /// The index of the current token.
    pub closed spec fn at(&self) -> int {
        self.pos as int
    }

    /// The token list ends with `Eof`, the parser stands inside it, and the
    /// list's weight fits in a `usize`.
    pub closed spec fn wf(&self) -> bool {
        &&& self.tokens@.len() >= 1
        &&& self.toks().last().0 == TokenV::Eof
        &&& self.pos < self.tokens@.len()
        &&& list_weight(self.toks()) <= usize::MAX
    }

    /// The current token.
    pub open spec fn cur(&self) -> TokenV {
        self.toks()[self.at()].0
    }

    /// The weight of the tokens not yet consumed.
    pub open spec fn rem(&self) -> int {
        list_weight(self.toks().skip(self.at()))
    }

    /// The index after the current token; the final `Eof` is never passed.
    pub open spec fn next_at(&self) -> int {
        if self.at() < self.toks().len() - 1 {
            self.at() + 1
        } else {
            self.at()
        }
    }

    /// `after` is a later state of the same parse: same tokens, not behind.
    pub open spec fn moved_on(&self, after: &Parser) -> bool {
        &&& after.wf()
        &&& after.toks() == self.toks()
        &&& after.at() >= self.at()
    }

    /// Facts that hold of every well-formed parser: the list ends with `Eof` and the position is inside it.
    pub proof fn lemma_facts(&self)
        requires
            self.wf(),
        ensures
            0 <= self.at() < self.toks().len(),
            self.toks().last().0 == TokenV::Eof,
            self.rem() >= tok_weight(self.cur()),
            self.rem() <= usize::MAX,
            self.cur() == TokenV::Eof && self.at() == self.toks().len() - 1 ==> self.next_at() == self.at(),
            self.at() < self.toks().len() - 1 ==> self.rem() >= tok_weight(self.cur()) + 1,
            self.rem() >= 0,
    {
        lemma_weight_skip(self.toks(), 0, self.at());
        if self.at() < self.toks().len() - 1 {
            lemma_weight_skip(self.toks(), self.at() + 1, self.at() + 2);
        }
        lemma_weight_skip(self.toks(), self.at(), self.at() + 1);
        assert(self.toks().skip(0) =~= self.toks());
    }

    /// Moving forward lowers the weight of what is left.
    pub proof fn lemma_rem_less(&self, after: &Parser)
        requires
            self.wf(),
            self.moved_on(after),
        ensures
            after.rem() <= self.rem(),
            after.at() > self.at() ==> after.rem() < self.rem(),
            after.rem() >= 0,
    {
        lemma_weight_skip(self.toks(), self.at(), after.at());
    }

    /// A parser over the tokens of the lexer's input.
    pub fn new(lexer: Lexer) -> (r: Result<Parser, String>)
        requires
            lexer.wf(),
        ensures
            match r {
                Ok(p) => p.wf() && p.at() == 0 && lex_all(lexer.input(), lexer.st()) == Ok::<Seq<(TokenV, int, int)>, Seq<char>>(p.toks()),
                Err(e) => lex_all(lexer.input(), lexer.st()) == Err::<Seq<(TokenV, int, int)>, Seq<char>>(e@),
            },
    {
        let mut lexer = lexer;
        proof {
            lexer.lemma_wf();
            lemma_lex_all_weight(lexer.input(), lexer.st());
        }
        let tokens = lexer.tokenize()?;
        Ok(Parser { tokens, pos: 0 })
    }

    /// Parses an expression from a text (the inside of a string interpolation).
    fn parse_expr_str(&self, text: &String) -> (r: Result<Expr, String>)
        requires
            text@.len() + 1 < usize::MAX,
        ensures
            lex_all(text@, start_pos()) matches Err(e) ==> (r matches Err(x) && x@ == e),
        decreases text@.len() + 1, 9nat,
    {
        let mut lexer = Lexer::new(text.as_str());
        proof {
            lexer.lemma_wf();
            lemma_lex_all_weight(lexer.input(), lexer.st());
        }
        let tokens = lexer.tokenize()?;
        let mut p = Parser { tokens, pos: 0 };
        proof {
            assert(p.toks().skip(0) =~= p.toks());
            lemma_weight_nonneg(p.toks());
        }
        p.parse_expr()
    }

    /// The current token.
    fn peek(&self) -> (r: &Token)
        requires
            self.wf(),
        ensures
            r@ == self.cur(),
    {
        &self.tokens[self.pos].0
    }

    /// The token `n` places ahead; `Eof` past the end.
    fn peek_n(&self, n: usize) -> (r: &Token)
        requires
            self.wf(),
        ensures
            r@ == if self.at() + n < self.toks().len() {
                self.toks()[self.at() + n].0
            } else {
                TokenV::Eof
            },
    {
        if n < self.tokens.len() - self.pos {
            &self.tokens[self.pos + n].0
        } else {
            &self.tokens[self.tokens.len() - 1].0
        }
    }

    /// Consumes the current token and gives a copy of it; the final `Eof` stays.
    fn advance(&mut self) -> (r: Token)
        requires
            old(self).wf(),
        ensures
            old(self).moved_on(final(self)),
            final(self).at() == old(self).next_at(),
            r@ == old(self).cur(),
    {
        let t = self.tokens[self.pos].0.copy();
        if self.pos < self.tokens.len() - 1 {
            self.pos = self.pos + 1;
        }
        t
    }

    /// Consumes `tok`, or fails when the current token is another.
    fn expect(&mut self, tok: Token) -> (r: Result<(), String>)
        requires
            old(self).wf(),
        ensures
            old(self).moved_on(final(self)),
            r is Ok <==> old(self).cur() == tok@,
            r is Ok ==> final(self).at() == old(self).next_at(),
            r is Err ==> final(self).at() == old(self).at(),
    {
        let line = self.tokens[self.pos].1;
        let col = self.tokens[self.pos].2;
        if !self.peek().same(&tok) {
            let mut m = msg_got("expected ", &tok);
            push_str(&mut m, ", got ");
            let d = self.peek().debug_text();
            push_str(&mut m, d.as_str());
            push_at(&mut m, line, col);
            return Err(m);
        }
        self.advance();
        Ok(())
    }

    /// Whether the current token is `tok`.
    fn check(&self, tok: &Token) -> (r: bool)
        requires
            self.wf(),
        ensures
            r == (self.cur() == tok@),
    {
        self.peek().same(tok)
    }

    /// Whether the current token is one of `toks`.
    #[verifier::loop_isolation(false)]
    fn check_one_of(&self, toks: &[Token]) -> (r: bool)
        requires
            self.wf(),
        ensures
            r == exists|i: int| 0 <= i < toks@.len() && #[trigger] toks@[i]@ == self.cur(),
    {
        let mut i: usize = 0;
        while i < toks.len()
            invariant
                i <= toks@.len(),
                self.wf(),
                forall|j: int| 0 <= j < i ==> #[trigger] toks@[j]@ != self.cur(),
            decreases toks@.len() - i,
        {
            if self.peek().same(&toks[i]) {
                return true;
            }
            i = i + 1;
        }
        false
    }

    /// Consumes `tok` when it is the current token.
    fn eat(&mut self, tok: &Token) -> (r: bool)
        requires
            old(self).wf(),
        ensures
            old(self).moved_on(final(self)),
            r == (old(self).cur() == tok@),
            r ==> final(self).at() == old(self).next_at(),
            !r ==> final(self).at() == old(self).at(),
    {
        if self.peek().same(tok) {
            self.advance();
            true
        } else {
            false
        }
    }

    /// The line of the current token.
    fn line(&self) -> (r: usize)
        requires
            self.wf(),
        ensures
            r == self.toks()[self.at()].1,
    {
        self.tokens[self.pos].1
    }

    /// The column of the current token.
    fn col(&self) -> (r: usize)
        requires
            self.wf(),
        ensures
            r == self.toks()[self.at()].2,
    {
        self.tokens[self.pos].2
    }

    /// Skips newline tokens.
    #[verifier::loop_isolation(false)]
    fn skip_newlines(&mut self)
        requires
            old(self).wf(),
        ensures
            old(self).moved_on(final(self)),
            final(self).at() == skip_nl(old(self).toks(), old(self).at()),
    {
        while matches!(self.tokens[self.pos].0, Token::Newline) && self.pos < self.tokens.len() - 1
            invariant
                old(self).moved_on(self),
                skip_nl(self.toks(), self.at()) == skip_nl(old(self).toks(), old(self).at()),
            decreases self.toks().len() - self.at(),
        {
            self.advance();
        }
    }

    /// Skips any number of newline tokens.
    fn parse_newlines(&mut self)
        requires
            old(self).wf(),
        ensures
            old(self).moved_on(final(self)),
            final(self).at() == skip_nl(old(self).toks(), old(self).at()),
    {
        self.skip_newlines();
    }
}


impl Parser {
    /// Parses the whole token list into a program. On success every statement
    /// has been read and the parser stands at `Eof`; a program of operator
    /// expressions over literals gives exactly the statements of `op_program`.
    #[verifier::loop_isolation(false)]
    pub fn parse_program(&mut self) -> (r: Result<Program, String>)
        requires
            old(self).wf(),
        ensures
            old(self).moved_on(final(self)),
            r is Ok ==> final(self).cur() == TokenV::Eof,
            r matches Ok(p) ==> (p.stmts@.len() == 0
                <==> old(self).toks()[skip_nl(old(self).toks(), old(self).at())].0 == TokenV::Eof),
            op_program(old(self).toks(), old(self).at()) matches Some(ss) ==> (r matches Ok(p) && p.stmts@ == ss),
    {
        let ghost target = op_program(old(self).toks(), old(self).at());
        let mut stmts: Vec<Stmt> = Vec::new();
        self.skip_newlines();
        proof {
            old(self).lemma_facts();
            lemma_op_program_skip(old(self).toks(), old(self).at());
            lemma_skip_nl_idem(old(self).toks(), old(self).at());
        }
        let ghost first = self.cur();
        assert(first == old(self).toks()[skip_nl(old(self).toks(), old(self).at())].0);
        while !self.check(&Token::Eof)
            invariant
                old(self).moved_on(self),
                stmts@.len() == 0 ==> self.cur() == first,
                first == TokenV::Eof ==> stmts@.len() == 0,
                skip_nl(self.toks(), self.at()) == self.at(),
                target is Some ==> (op_program(self.toks(), self.at()) matches Some(rest)
                    && stmts@ + rest == target->0),
            decreases self.toks().len() - self.at(),
        {
            let ghost before = *self;
            proof {
                before.lemma_facts();
            }
            proof {
                old(self).lemma_rem_less(self);
            }
            let st = self.parse_stmt()?;
            let ghost mid = *self;
            let ghost before_stmts = stmts@;
            stmts.push(st);
            self.skip_newlines();
            proof {
                mid.lemma_facts();
                lemma_op_program_skip(mid.toks(), mid.at());
                lemma_skip_nl_idem(mid.toks(), mid.at());
                if target is Some {
                    let rest = op_program(before.toks(), before.at())->0;
                    let rest2 = op_program(mid.toks(), mid.at())->0;
                    assert(rest == seq![st] + rest2);
                    assert(stmts@ + rest2 =~= before_stmts + rest);
                }
            }
        }
        proof {
            if target is Some {
                assert(stmts@ + Seq::<Stmt>::empty() =~= stmts@);
            }
        }
        Ok(Program { stmts })
    }

    /// Parses one statement. Newlines before it are skipped; the keyword that
    /// starts it decides its kind, and anything else is an expression statement.
    #[verifier::rlimit(60)]
    fn parse_stmt(&mut self) -> (r: Result<Stmt, String>)
        requires
            old(self).wf(),
        ensures
            old(self).moved_on(final(self)),
            r is Ok ==> final(self).at() > old(self).at(),
            ({
                let t = old(self).toks()[skip_nl(old(self).toks(), old(self).at())].0;
                &&& t == TokenV::Continue ==> (r matches Ok(Stmt::Continue))
                &&& t == TokenV::Break ==> (r is Ok ==> r->Ok_0 is Break)
                &&& t == TokenV::Return ==> (r is Ok ==> r->Ok_0 is Return)
                &&& t == TokenV::While ==> (r is Ok ==> r->Ok_0 is While)
                &&& t == TokenV::For ==> (r is Ok ==> r->Ok_0 is For)
                &&& t == TokenV::Loop ==> (r is Ok ==> r->Ok_0 is Loop)
                &&& (t == TokenV::If || t == TokenV::Elif) ==> (r is Ok ==> r->Ok_0 is If)
                &&& (t == TokenV::Let || t == TokenV::Var) ==> (r is Ok ==> r->Ok_0 is Let)
                &&& (t == TokenV::Fn || t == TokenV::Pub) ==> (r is Ok ==> r->Ok_0 is Fn)
                &&& t == TokenV::Extern ==> (r is Ok ==> r->Ok_0 is Extern)
                &&& t == TokenV::Type ==> (r is Ok ==> r->Ok_0 is Type)
                &&& t == TokenV::Impl ==> (r is Ok ==> r->Ok_0 is Impl)
                &&& t == TokenV::Import ==> (r is Ok ==> r->Ok_0 is Expr)
                &&& t == TokenV::Eof ==> r is Err
                &&& t == TokenV::Trait ==> (r is Ok ==> r->Ok_0 is Trait)
            }),
            op_expr(old(self).toks(), old(self).at(), 0) matches Some(x) ==> (
                r == Ok::<Stmt, String>(Stmt::Expr(x.0)) && final(self).at() == x.1),
            ({
                let ts = old(self).toks();
                let k = skip_nl(ts, old(self).at());
                let m = ts[k + 1].0 == TokenV::MutKw;
                let ni = if m { k + 2 } else { k + 1 };
                &&& ts[k].0 == TokenV::Let ==> (let_rest(ts, ni, m) matches Some(x) ==> (r matches Ok(st) && let_is(st, x)
                    && final(self).at() == x.4))
                &&& ts[k].0 == TokenV::Var ==> (var_rest(ts, k) matches Some(x) ==> (r matches Ok(st) && let_is(st, x)
                    && final(self).at() == x.4))
            }),
        decreases old(self).rem(), 5nat,
    {
        self.skip_newlines();
        let ghost s0 = *self;
        proof {
            s0.lemma_facts();
            lemma_skip_nl(old(self).toks(), old(self).at());
            lemma_skip_nl_idem(old(self).toks(), old(self).at());
            old(self).lemma_rem_less(&s0);
        }
        let t = self.peek().tag();
        if matches!(self.peek(), Token::Import) {
            self.parse_import()
        } else if matches!(self.peek(), Token::Pub) {
            self.advance();
            if matches!(self.peek(), Token::Fn) {
                proof {
                    s0.lemma_rem_less(self);
                }
                self.parse_fn(true)
            } else {
                let mut m = String::from_str("expected fn after pub");
                let (l, c) = (self.line(), self.col());
                push_at(&mut m, l, c);
                Err(m)
            }
        } else if matches!(self.peek(), Token::Fn) {
            self.parse_fn(false)
        } else if matches!(self.peek(), Token::Let) {
            self.parse_let()
        } else if matches!(self.peek(), Token::Var) {
            self.advance();
            proof {
                s0.lemma_rem_less(self);
            }
            let type_expr = if self.eat(&Token::LParen) {
                let te = self.parse_type()?;
                self.expect(Token::RParen)?;
                Some(te)
            } else {
                None
            };
            let name = match self.advance() {
                Token::Ident(s) => s,
                t => {
                    return Err(msg_got("expected variable name, got ", &t));
                },
            };
            self.expect(Token::Eq)?;
            let ghost s1 = *self;
            proof {
                s0.lemma_rem_less(&s1);
            }
            let value = self.parse_expr()?;
            Ok(Stmt::Let { name, mutable: true, type_expr, value })
        } else if matches!(self.peek(), Token::Extern) {
            self.advance();
            proof {
                s0.lemma_rem_less(self);
            }
            self.expect(Token::Fn)?;
            let name = match self.advance() {
                Token::Ident(s) => s,
                t => {
                    return Err(msg_got("expected function name, got ", &t));
                },
            };
            self.expect(Token::LParen)?;
            let ghost s1 = *self;
            proof {
                s0.lemma_rem_less(&s1);
            }
            let params = self.parse_fn_params()?;
            self.expect(Token::RParen)?;
            let return_type = if self.eat(&Token::Arrow) {
                let ghost s2 = *self;
                proof {
                    s0.lemma_rem_less(&s2);
                }
                Some(self.parse_type()?)
            } else {
                None
            };
            Ok(Stmt::Extern { name, params, return_type })
        } else if matches!(self.peek(), Token::Type) {
            self.parse_type_def()
        } else if matches!(self.peek(), Token::Impl) {
            self.parse_impl()
        } else if matches!(self.peek(), Token::Trait) {
            self.parse_trait()
        } else if matches!(self.peek(), Token::Return) {
            self.advance();
            if self.check(&Token::Newline) || self.check(&Token::Eof) || self.check(&Token::RBrace) {
                Ok(Stmt::Return(None))
            } else {
                proof {
                    s0.lemma_rem_less(self);
                }
                let expr = self.parse_expr()?;
                Ok(Stmt::Return(Some(expr)))
            }
        } else if matches!(self.peek(), Token::If) {
            self.advance();
            proof {
                s0.lemma_rem_less(self);
            }
            self.parse_if_tail(false)
        } else if matches!(self.peek(), Token::Elif) {
            self.advance();
            proof {
                s0.lemma_rem_less(self);
            }
            self.parse_if_tail(true)
        } else if matches!(self.peek(), Token::While) {
            self.advance();
            proof {
                s0.lemma_rem_less(self);
            }
            let cond = self.parse_expr()?;
            self.expect(Token::LBrace)?;
            let ghost s1 = *self;
            proof {
                s0.lemma_rem_less(&s1);
            }
            let body = self.parse_block_stmts()?;
            self.expect(Token::RBrace)?;
            Ok(Stmt::While(cond, body))
        } else if matches!(self.peek(), Token::For) {
            self.advance();
            let name = match self.advance() {
                Token::Ident(s) => s,
                t => {
                    return Err(msg_got("expected identifier in for, got ", &t));
                },
            };
            self.expect(Token::In)?;
            let ghost s1 = *self;
            proof {
                s0.lemma_rem_less(&s1);
            }
            let iter = self.parse_expr()?;
            self.expect(Token::LBrace)?;
            let ghost s2 = *self;
            proof {
                s0.lemma_rem_less(&s2);
            }
            let body = self.parse_block_stmts()?;
            self.expect(Token::RBrace)?;
            Ok(Stmt::For(name, iter, body))
        } else if matches!(self.peek(), Token::Loop) {
            self.advance();
            self.expect(Token::LBrace)?;
            let ghost s1 = *self;
            proof {
                s0.lemma_rem_less(&s1);
            }
            let body = self.parse_block_stmts()?;
            self.expect(Token::RBrace)?;
            Ok(Stmt::Loop(body))
        } else if matches!(self.peek(), Token::Break) {
            self.advance();
            let val = if self.check(&Token::Newline) || self.check(&Token::RBrace) || self.check(&Token::Eof) {
                None
            } else {
                proof {
                    s0.lemma_rem_less(self);
                }
                match self.parse_expr() {
                    Ok(e) => Some(e),
                    Err(e) => {
                        return Err(e);
                    },
                }
            };
            Ok(Stmt::Break(val))
        } else if matches!(self.peek(), Token::Continue) {
            self.advance();
            Ok(Stmt::Continue)
        } else {
            let expr = self.parse_expr()?;
            Ok(Stmt::Expr(expr))
        }
    }
}

impl Parser {
    /// Parses statements up to a closing `}` (or the end), which is not consumed.
    #[verifier::loop_isolation(false)]
    fn parse_block_stmts(&mut self) -> (r: Result<Vec<Stmt>, String>)
        requires
            old(self).wf(),
        ensures
            old(self).moved_on(final(self)),
            r is Ok ==> (final(self).cur() == TokenV::RBrace || final(self).cur() == TokenV::Eof),
            op_block(old(self).toks(), old(self).at()) matches Some(x) ==> (r matches Ok(v) && v@ == x.0
                && final(self).at() == x.1),
        decreases old(self).rem(), 6nat,
    {
        let ghost target = op_block(old(self).toks(), old(self).at());
        let mut stmts: Vec<Stmt> = Vec::new();
        self.skip_newlines();
        proof {
            old(self).lemma_rem_less(self);
            old(self).lemma_facts();
            lemma_op_block_skip(old(self).toks(), old(self).at());
            lemma_skip_nl_idem(old(self).toks(), old(self).at());
            assert(stmts@ =~= Seq::<Stmt>::empty());
        }
        while !self.check(&Token::RBrace) && !self.check(&Token::Eof)
            invariant
                old(self).moved_on(self),
                skip_nl(self.toks(), self.at()) == self.at(),
                target is Some ==> (op_block(self.toks(), self.at()) matches Some(rest)
                    && stmts@ + rest.0 == target.unwrap().0 && rest.1 == target.unwrap().1),
            decreases self.toks().len() - self.at(),
        {
            let ghost before = *self;
            proof {
                old(self).lemma_rem_less(self);
                before.lemma_facts();
            }
            let st = self.parse_stmt()?;
            let ghost mid = *self;
            let ghost before_stmts = stmts@;
            stmts.push(st);
            self.skip_newlines();
            proof {
                before.lemma_rem_less(self);
                old(self).lemma_rem_less(self);
                mid.lemma_facts();
                lemma_op_block_skip(mid.toks(), mid.at());
                lemma_skip_nl_idem(mid.toks(), mid.at());
                if target is Some {
                    let rest = op_block(before.toks(), before.at())->0;
                    let rest2 = op_block(mid.toks(), mid.at())->0;
                    assert(rest.0 == seq![st] + rest2.0);
                    assert(stmts@ + rest2.0 =~= before_stmts + rest.0);
                }
            }
        }
        proof {
            if target is Some {
                assert(stmts@ + Seq::<Stmt>::empty() =~= stmts@);
            }
        }
        Ok(stmts)
    }

    /// Parses `import a.b.c [as name]` into an import expression statement.
    fn parse_import(&mut self) -> (r: Result<Stmt, String>)
        requires
            old(self).wf(),
            old(self).cur() == TokenV::Import,
        ensures
            old(self).moved_on(final(self)),
            r is Ok ==> final(self).at() > old(self).at(),
            r matches Ok(s) ==> (s matches Stmt::Expr(e) && e is Import),
            ({
                let ts = old(self).toks();
                r is Ok <==> (ident_path(ts, old(self).at() + 1) is Some && {
                    let x = ident_path(ts, old(self).at() + 1)->0;
                    ts[x.1].0 == TokenV::As ==> ts[x.1 + 1].0 is Ident
                })
            }),
            ({
                let ts = old(self).toks();
                ident_path(ts, old(self).at() + 1) matches Some(x) ==> if ts[x.1].0 == TokenV::As {
                    ts[x.1 + 1].0 matches TokenV::Ident(n) ==> (r matches Ok(Stmt::Expr(Expr::Import(p, a)))
                        && p@ == x.0 && (a matches Some(m) && m@ == n) && final(self).at() == x.1 + 2)
                } else {
                    r matches Ok(Stmt::Expr(Expr::Import(p, a))) && p@ == x.0 && a is None && final(self).at() == x.1
                }
            }),
        decreases old(self).rem(), 4nat,
    {
        proof {
            old(self).lemma_facts();
        }
        self.advance();
        proof {
            self.lemma_facts();
        }
        let path = self.parse_ident_path()?;
        let alias = if self.eat(&Token::As) {
            match self.advance() {
                Token::Ident(s) => Some(s),
                t => {
                    return Err(msg_got("expected identifier after as, got ", &t));
                },
            }
        } else {
            None
        };
        Ok(Stmt::Expr(Expr::Import(path, alias)))
    }

    /// Parses identifiers joined by dots, such as `std.io`, into one text.
    #[verifier::loop_isolation(false)]
    fn parse_ident_path(&mut self) -> (r: Result<String, String>)
        requires
            old(self).wf(),
        ensures
            old(self).moved_on(final(self)),
            r is Ok ==> final(self).at() > old(self).at(),
            r is Ok ==> old(self).cur() is Ident,
            r is Ok <==> ident_path(old(self).toks(), old(self).at()) is Some,
            ident_path(old(self).toks(), old(self).at()) matches Some(x) ==> (r matches Ok(p) && p@ == x.0
                && final(self).at() == x.1),
    {
        proof {
            old(self).lemma_facts();
        }
        let ghost ts = old(self).toks();
        let mut path = match self.advance() {
            Token::Ident(s) => s,
            t => {
                return Err(msg_got("expected identifier, got ", &t));
            },
        };
        while self.eat(&Token::Dot)
            invariant
                old(self).moved_on(self),
                self.at() > old(self).at(),
                ts == self.toks(),
                ident_path(ts, old(self).at()) == path_rest(ts, self.at(), path@),
            decreases self.toks().len() - self.at(),
        {
            proof {
                self.lemma_facts();
            }
            match self.advance() {
                Token::Ident(s) => {
                    push_char(&mut path, '.');
                    push_str(&mut path, s.as_str());
                },
                t => {
                    return Err(msg_got("expected identifier after ., got ", &t));
                },
            }
        }
        Ok(path)
    }

    /// Parses the rest of an `if` or `elif` statement after its keyword: the
    /// condition, the block, and any `else`, `else if`, `else elif` or `elif` tail.
    #[verifier::rlimit(60)]
    fn parse_if_tail(&mut self, _is_elif: bool) -> (r: Result<Stmt, String>)
        requires
            old(self).wf(),
        ensures
            old(self).moved_on(final(self)),
            r is Ok ==> final(self).at() > old(self).at(),
            r matches Ok(s) ==> s is If,
            ({
                let ts = old(self).toks();
                op_expr(ts, old(self).at(), 0) matches Some(c) ==> (ts[c.1].0 == TokenV::LBrace ==> (
                    op_block(ts, c.1 + 1) matches Some(b) ==> (ts[b.1].0 == TokenV::RBrace ==> ({
                        let e = b.1 + 1;
                        &&& !(ts[e].0 == TokenV::Else || ts[e].0 == TokenV::Elif) ==> (r matches Ok(Stmt::If(cond, then, els))
                            && cond == c.0 && then@ == b.0 && els is None && final(self).at() == e)
                        &&& (ts[e].0 == TokenV::Else && ts[e + 1].0 == TokenV::LBrace) ==> (op_block(ts, e + 2) matches Some(b2)
                            ==> (ts[b2.1].0 == TokenV::RBrace ==> (r matches Ok(Stmt::If(cond, then, els)) && cond == c.0
                            && then@ == b.0 && (els matches Some(w) && w@ == b2.0) && final(self).at() == b2.1 + 1)))
                    }))))
            }),
        decreases old(self).rem(), 5nat,
    {
        proof {
            old(self).lemma_facts();
        }
        let cond = self.parse_expr()?;
        self.expect(Token::LBrace)?;
        let ghost s1 = *self;
        proof {
            old(self).lemma_rem_less(&s1);
        }
        let then = self.parse_block_stmts()?;
        self.expect(Token::RBrace)?;
        let ghost s2 = *self;
        proof {
            old(self).lemma_rem_less(&s2);
        }
        let else_opt = if self.eat(&Token::Else) {
            if self.eat(&Token::If) {
                proof {
                    old(self).lemma_rem_less(self);
                }
                let nested = self.parse_if_tail(false)?;
                let mut v = Vec::new();
                v.push(nested);
                Some(v)
            } else if self.eat(&Token::Elif) {
                proof {
                    old(self).lemma_rem_less(self);
                }
                let nested = self.parse_if_tail(true)?;
                let mut v = Vec::new();
                v.push(nested);
                Some(v)
            } else {
                self.expect(Token::LBrace)?;
                proof {
                    old(self).lemma_rem_less(self);
                }
                let body = self.parse_block_stmts()?;
                self.expect(Token::RBrace)?;
                Some(body)
            }
        } else if self.eat(&Token::Elif) {
            proof {
                old(self).lemma_rem_less(self);
            }
            let nested = self.parse_if_tail(true)?;
            let mut v = Vec::new();
            v.push(nested);
            Some(v)
        } else {
            None
        };
        Ok(Stmt::If(cond, then, else_opt))
    }

    /// Parses a function definition starting at `fn`. The body block becomes an
    /// expression whose last statement gives the value.
    #[verifier::rlimit(40)]
    fn parse_fn(&mut self, pub_visible: bool) -> (r: Result<Stmt, String>)
        requires
            old(self).wf(),
            old(self).cur() == TokenV::Fn,
        ensures
            old(self).moved_on(final(self)),
            r is Ok ==> final(self).at() > old(self).at(),
            r matches Ok(s) ==> (s matches Stmt::Fn { pub_visible: p, .. } && p == pub_visible),
            ({
                let ts = old(self).toks();
                let i = old(self).at();
                &&& !(ts[i + 1].0 is Ident) ==> r is Err
                &&& ts[i + 1].0 matches TokenV::Ident(n) ==> (ts[i + 2].0 == TokenV::LParen ==> (
                    params_at(ts, i + 3) matches Some(ps) ==> (ts[ps.1].0 == TokenV::RParen ==> ({
                        let arrow = ts[ps.1 + 1].0 == TokenV::Arrow;
                        let ty = if arrow { simple_type(ts, ps.1 + 2) } else { None };
                        let bi = if arrow { ps.1 + 3 } else { ps.1 + 1 };
                        ((arrow ==> ty is Some) && ts[bi].0 == TokenV::LBrace) ==> (op_block(ts, bi + 1) matches Some(b) ==> (
                            ts[b.1].0 == TokenV::RBrace ==> (r matches Ok(Stmt::Fn { name, pub_visible: pv, params, return_type, body })
                                && name@ == n && pv == pub_visible && params_are(params@, ps.0) && names_type(return_type, ty)
                                && body_is(body, b.0) && final(self).at() == b.1 + 1)))
                    }))))
            }),
        decreases old(self).rem(), 4nat,
    {
        proof {
            old(self).lemma_facts();
        }
        self.advance();
        proof {
            self.lemma_facts();
        }
        let name = match self.advance() {
            Token::Ident(s) => s,
            t => {
                return Err(msg_got("expected fn name, got ", &t));
            },
        };
        self.expect(Token::LParen)?;
        proof {
            old(self).lemma_rem_less(self);
        }
        let params = self.parse_fn_params()?;
        self.expect(Token::RParen)?;
        let return_type = if self.eat(&Token::Arrow) {
            proof {
                old(self).lemma_rem_less(self);
            }
            Some(self.parse_type()?)
        } else {
            None
        };
        self.expect(Token::LBrace)?;
        proof {
            old(self).lemma_rem_less(self);
        }
        let body_stmts = self.parse_block_stmts()?;
        self.expect(Token::RBrace)?;
        let body = self.block_to_expr(body_stmts);
        Ok(Stmt::Fn { name, pub_visible, params, return_type, body })
    }

    /// Parses parameters separated by commas, up to (not including) `)`;
    /// a trailing comma is allowed.
    #[verifier::loop_isolation(false)]
    fn parse_fn_params(&mut self) -> (r: Result<Vec<FnParam>, String>)
        requires
            old(self).wf(),
        ensures
            old(self).moved_on(final(self)),
            old(self).cur() == TokenV::RParen ==> (r matches Ok(v) && v@.len() == 0),
            params_at(old(self).toks(), old(self).at()) matches Some(x) ==> (r matches Ok(v) && params_are(v@, x.0)
                && final(self).at() == x.1),
        decreases old(self).rem(), 5nat,
    {
        let ghost target = params_at(old(self).toks(), old(self).at());
        let ghost ts = old(self).toks();
        let mut params: Vec<FnParam> = Vec::new();
        proof {
            old(self).lemma_facts();
        }
        if self.check(&Token::RParen) {
            return Ok(params);
        }
        loop
            invariant
                old(self).moved_on(self),
                ts == self.toks(),
                target is Some ==> (params_from(ts, self.at()) matches Some(rest) && {
                    let t = target.unwrap().0;
                    &&& params@.len() + rest.0.len() == t.len()
                    &&& rest.1 == target.unwrap().1
                    &&& forall|k: int| 0 <= k < params@.len() ==> param_is(#[trigger] params@[k], t[k])
                    &&& forall|k: int| 0 <= k < rest.0.len() ==> #[trigger] rest.0[k] == t[params@.len() + k]
                }),
            decreases self.toks().len() - self.at(),
        {
            let ghost before = *self;
            let ghost prev = params@;
            proof {
                old(self).lemma_rem_less(self);
                before.lemma_facts();
            }
            let p = self.parse_fn_param()?;
            params.push(p);
            proof {
                before.lemma_rem_less(self);
                if target is Some {
                    let t = target.unwrap().0;
                    let rest = params_from(ts, before.at())->0;
                    assert(params@[prev.len() as int] == p);
                    assert(rest.0[0] == t[prev.len() as int]);
                    assert forall|k: int| 0 <= k < params@.len() implies param_is(#[trigger] params@[k], t[k]) by {
                        if k < prev.len() {
                            assert(params@[k] == prev[k]);
                        }
                    }
                    if self.cur() == TokenV::Comma && self.at() + 1 < ts.len() && ts[self.at() + 1].0 != TokenV::RParen {
                        let r2 = params_from(ts, self.at() + 1)->0;
                        assert(rest.0 == seq![rest.0[0]] + r2.0);
                        assert forall|k: int| 0 <= k < r2.0.len() implies #[trigger] r2.0[k] == t[params@.len() + k] by {
                            assert(r2.0[k] == rest.0[k + 1]);
                        }
                    }
                }
            }
            if !self.eat(&Token::Comma) {
                break;
            }
            if self.check(&Token::RParen) {
                break;
            }
        }
        Ok(params)
    }

    /// Parses `name [: Type] [= default]`.
    fn parse_fn_param(&mut self) -> (r: Result<FnParam, String>)
        requires
            old(self).wf(),
        ensures
            old(self).moved_on(final(self)),
            r is Ok ==> final(self).at() > old(self).at(),
            r is Ok ==> old(self).cur() is Ident,
            simple_param(old(self).toks(), old(self).at()) matches Some(x) ==> (r matches Ok(p) && param_is(p, x.0)
                && final(self).at() == x.1),
        decreases old(self).rem(), 4nat,
    {
        proof {
            old(self).lemma_facts();
        }
        let name = match self.advance() {
            Token::Ident(s) => s,
            t => {
                return Err(msg_got("expected parameter name, got ", &t));
            },
        };
        proof {
            self.lemma_facts();
        }
        proof {
            old(self).lemma_rem_less(self);
        }
        let type_expr = if self.eat(&Token::Colon) {
            proof {
                old(self).lemma_rem_less(self);
            }
            Some(self.parse_type()?)
        } else {
            None
        };
        let default = if self.eat(&Token::Eq) {
            proof {
                old(self).lemma_rem_less(self);
            }
            Some(Box::new(self.parse_expr()?))
        } else {
            None
        };
        Ok(FnParam { name, type_expr, default })
    }

    /// Parses `let [mut] name [: Type] [=] value`.
    fn parse_let(&mut self) -> (r: Result<Stmt, String>)
        requires
            old(self).wf(),
            old(self).cur() == TokenV::Let,
        ensures
            old(self).moved_on(final(self)),
            r is Ok ==> final(self).at() > old(self).at(),
            r matches Ok(s) ==> s is Let,
            ({
                let ts = old(self).toks();
                let i = old(self).at();
                let m = ts[i + 1].0 == TokenV::MutKw;
                let ni = if m { i + 2 } else { i + 1 };
                &&& !(ts[ni].0 is Ident) ==> r is Err
                &&& let_rest(ts, ni, m) matches Some(x) ==> (r matches Ok(st) && let_is(st, x) && final(self).at() == x.4)
            }),
        decreases old(self).rem(), 4nat,
    {
        proof {
            old(self).lemma_facts();
        }
        self.advance();
        proof {
            self.lemma_facts();
        }
        let mutable = self.eat(&Token::MutKw);
        proof {
            self.lemma_facts();
        }
        let name = match self.advance() {
            Token::Ident(s) => s,
            t => {
                return Err(msg_got("expected variable name, got ", &t));
            },
        };
        proof {
            old(self).lemma_rem_less(self);
        }
        let type_expr = if self.eat(&Token::Colon) {
            proof {
                old(self).lemma_rem_less(self);
            }
            Some(self.parse_type()?)
        } else {
            None
        };
        let value;
        if self.eat(&Token::Eq) {
            proof {
                old(self).lemma_rem_less(self);
            }
            value = self.parse_expr()?;
        } else {
            proof {
                old(self).lemma_rem_less(self);
            }
            value = self.parse_expr()?;
        }
        Ok(Stmt::Let { name, mutable, type_expr, value })
    }
}

impl Parser {
    /// Parses `Name: Type` pairs separated by commas inside a struct-style or
    /// variant definition, up to (not including) `stop`.
    #[verifier::loop_isolation(false)]
    fn parse_fields(&mut self, stop: &Token, skip_nl_first: bool) -> (r: Result<Vec<TypeField>, String>)
        requires
            old(self).wf(),
        ensures
            old(self).moved_on(final(self)),
            fields_at(old(self).toks(), old(self).at(), stop@, skip_nl_first) matches Some(x) ==> (r matches Ok(v)
                && fields_are(v@, x.0) && final(self).at() == x.1),
        decreases old(self).rem(), 3nat,
    {
        let ghost target = fields_at(old(self).toks(), old(self).at(), stop@, skip_nl_first);
        let ghost ts = old(self).toks();
        let mut fields: Vec<TypeField> = Vec::new();
        loop
            invariant
                old(self).moved_on(self),
                ts == self.toks(),
                target is Some ==> (fields_at(ts, self.at(), stop@, skip_nl_first) matches Some(rest) && {
                    let t = target.unwrap().0;
                    &&& fields@.len() + rest.0.len() == t.len()
                    &&& rest.1 == target.unwrap().1
                    &&& forall|k: int| 0 <= k < fields@.len() ==> field_is(#[trigger] fields@[k], t[k])
                    &&& forall|k: int| 0 <= k < rest.0.len() ==> #[trigger] rest.0[k] == t[fields@.len() + k]
                }),
            decreases self.toks().len() - self.at(),
        {
            let ghost before = *self;
            let ghost prev = fields@;
            proof {
                before.lemma_facts();
            }
            if skip_nl_first {
                self.skip_newlines();
            }
            proof {
                self.lemma_facts();
            }
            if self.check(stop) {
                proof {
                    if target is Some {
                        let rest = fields_at(ts, before.at(), stop@, skip_nl_first)->0;
                        assert(rest.0.len() == 0);
                        assert forall|k: int| 0 <= k < fields@.len() implies field_is(#[trigger] fields@[k],
                            target.unwrap().0[k]) by {}
                    }
                }
                break;
            }
            let fname = match self.advance() {
                Token::Ident(s) => s,
                t => {
                    return Err(msg_got("expected field name, got ", &t));
                },
            };
            self.expect(Token::Colon)?;
            proof {
                before.lemma_facts();
                old(self).lemma_rem_less(self);
            }
            let ftype = self.parse_type()?;
            fields.push(TypeField { name: fname, type_expr: ftype });
            proof {
                before.lemma_rem_less(self);
                self.lemma_facts();
                if target is Some {
                    let t = target.unwrap().0;
                    let rest = fields_at(ts, before.at(), stop@, skip_nl_first)->0;
                    assert(rest.0[0] == t[prev.len() as int]);
                    assert forall|k: int| 0 <= k < fields@.len() implies field_is(#[trigger] fields@[k], t[k]) by {
                        if k < prev.len() {
                            assert(fields@[k] == prev[k]);
                        }
                    }
                    if self.cur() == TokenV::Comma && self.at() + 1 < ts.len() {
                        let r2 = fields_at(ts, self.at() + 1, stop@, skip_nl_first)->0;
                        assert forall|k: int| 0 <= k < r2.0.len() implies #[trigger] r2.0[k] == t[fields@.len() + k] by {
                            assert(r2.0[k] == rest.0[k + 1]);
                        }
                    }
                }
            }
            if !self.eat(&Token::Comma) {
                break;
            }
        }
        Ok(fields)
    }

    /// Parses a `type` definition: either one struct-style variant named like
    /// the type (`type P { x: Int }`), or a list of variants (`type O { A(v: Int), B }`).
    #[verifier::loop_isolation(false)]
    #[verifier::rlimit(80)]
    fn parse_type_def(&mut self) -> (r: Result<Stmt, String>)
        requires
            old(self).wf(),
            old(self).cur() == TokenV::Type,
        ensures
            old(self).moved_on(final(self)),
            r is Ok ==> final(self).at() > old(self).at(),
            r matches Ok(s) ==> s is Type,
            ({
                let ts = old(self).toks();
                let i = old(self).at();
                &&& !(ts[i + 1].0 is Ident) ==> r is Err
                &&& ts[i + 1].0 matches TokenV::Ident(n) ==> (ts[i + 2].0 == TokenV::LBrace ==> ({
                    let k = skip_nl(ts, i + 3);
                    &&& ts[k].0 == TokenV::RBrace ==> (r matches Ok(Stmt::Type { name, params, variants }) && name@ == n
                        && params@.len() == 0 && variants@.len() == 0 && final(self).at() == k + 1)
                    &&& (ts[k].0 != TokenV::RBrace && ts[k + 1].0 == TokenV::Colon) ==> (fields_at(ts, k, TokenV::RBrace, true) matches Some(f) ==> (
                        ts[f.1].0 == TokenV::RBrace ==> (r matches Ok(Stmt::Type { name, params, variants }) && name@ == n
                        && params@.len() == 0 && variants@.len() == 1 && variants@[0].name@ == n
                        && fields_are(variants@[0].fields@, f.0) && final(self).at() == f.1 + 1)))
                    &&& (ts[k].0 != TokenV::RBrace && ts[k + 1].0 != TokenV::Colon) ==> (variants_at(ts, k) matches Some(vs)
                        ==> (ts[vs.1].0 == TokenV::RBrace ==> (r matches Ok(Stmt::Type { name, params, variants })
                        && name@ == n && params@.len() == 0 && variants@.len() == vs.0.len()
                        && (forall|j: int| 0 <= j < variants@.len() ==> variant_is(#[trigger] variants@[j], vs.0[j]))
                        && final(self).at() == vs.1 + 1)))
                }))
            }),
        decreases old(self).rem(), 4nat,
    {
        proof {
            old(self).lemma_facts();
        }
        self.advance();
        proof {
            self.lemma_facts();
        }
        let name = match self.advance() {
            Token::Ident(s) => s,
            t => {
                return Err(msg_got("expected type name, got ", &t));
            },
        };
        let params = if self.eat(&Token::LBracket) {
            let mut ps: Vec<String> = Vec::new();
            match self.advance() {
                Token::Ident(s) => ps.push(s),
                t => {
                    return Err(msg_got("expected type parameter, got ", &t));
                },
            }
            while self.eat(&Token::Comma)
                invariant
                    old(self).moved_on(self),
                decreases self.toks().len() - self.at(),
            {
                match self.advance() {
                    Token::Ident(s) => ps.push(s),
                    t => {
                        return Err(msg_got("expected type parameter, got ", &t));
                    },
                }
            }
            self.expect(Token::RBracket)?;
            ps
        } else {
            Vec::new()
        };
        self.expect(Token::LBrace)?;
        let ghost s1 = *self;
        self.skip_newlines();
        proof {
            old(self).lemma_rem_less(self);
            s1.lemma_facts();
            self.lemma_facts();
            lemma_skip_nl_idem(s1.toks(), s1.at());
        }
        let mut variants: Vec<TypeVariant> = Vec::new();
        if !self.check(&Token::RBrace) {
            if matches!(self.peek_n(1), Token::Colon) {
                let fields = self.parse_fields(&Token::RBrace, true)?;
                variants.push(TypeVariant { name: name.clone(), fields });
            } else {
                let ghost ts = self.toks();
                let ghost vtarget = variants_at(ts, self.at());
                loop
                    invariant
                        old(self).moved_on(self),
                        ts == self.toks(),
                        vtarget is Some ==> (variants_at(ts, self.at()) matches Some(rest) && {
                            let t = vtarget.unwrap().0;
                            &&& variants@.len() + rest.0.len() == t.len()
                            &&& rest.1 == vtarget.unwrap().1
                            &&& forall|j: int| 0 <= j < variants@.len() ==> variant_is(#[trigger] variants@[j], t[j])
                            &&& forall|j: int| 0 <= j < rest.0.len() ==> #[trigger] rest.0[j] == t[variants@.len() + j]
                        }),
                    decreases self.toks().len() - self.at(),
                {
                    let ghost before = *self;
                    let ghost prev = variants@;
                    proof {
                        before.lemma_facts();
                    }
                    self.skip_newlines();
                    proof {
                        self.lemma_facts();
                    }
                    if self.check(&Token::RBrace) {
                        proof {
                            if vtarget is Some {
                                let rest = variants_at(ts, before.at())->0;
                                assert(rest.0.len() == 0);
                            }
                        }
                        break;
                    }
                    let vname = match self.advance() {
                        Token::Ident(s) => s,
                        t => {
                            return Err(msg_got("expected variant name, got ", &t));
                        },
                    };
                    proof {
                        before.lemma_facts();
                        before.lemma_rem_less(self);
                    }
                    let mut fields: Vec<TypeField> = Vec::new();
                    if self.eat(&Token::LParen) {
                        proof {
                            before.lemma_rem_less(self);
                        }
                        fields = self.parse_fields(&Token::RParen, false)?;
                        self.expect(Token::RParen)?;
                    }
                    variants.push(TypeVariant { name: vname, fields });
                    proof {
                        before.lemma_rem_less(self);
                        self.lemma_facts();
                        if vtarget is Some {
                            let t = vtarget.unwrap().0;
                            let rest = variants_at(ts, before.at())->0;
                            assert(rest.0[0] == t[prev.len() as int]);
                            assert forall|j: int| 0 <= j < variants@.len() implies variant_is(#[trigger] variants@[j], t[j]) by {
                                if j < prev.len() {
                                    assert(variants@[j] == prev[j]);
                                }
                            }
                            if self.cur() == TokenV::Comma && self.at() + 1 < ts.len() {
                                let r2 = variants_at(ts, self.at() + 1)->0;
                                assert forall|j: int| 0 <= j < r2.0.len() implies #[trigger] r2.0[j] == t[variants@.len() + j] by {
                                    assert(r2.0[j] == rest.0[j + 1]);
                                }
                            }
                        }
                    }
                    if !self.eat(&Token::Comma) {
                        break;
                    }
                }
            }
        }
        self.expect(Token::RBrace)?;
        Ok(Stmt::Type { name, params, variants })
    }

    /// Parses the `fn` items of an impl body up to (not including) `}`.
    #[verifier::loop_isolation(false)]
    fn parse_impl_methods(&mut self) -> (r: Result<Vec<Stmt>, String>)
        requires
            old(self).wf(),
        ensures
            old(self).moved_on(final(self)),
            (old(self).cur() == TokenV::RBrace || old(self).cur() == TokenV::Eof) ==> (r matches Ok(v) && v@.len() == 0
                && final(self).at() == old(self).at()),
            !(old(self).cur() == TokenV::RBrace || old(self).cur() == TokenV::Eof || old(self).cur() == TokenV::Fn)
                ==> r is Err,
            r is Ok ==> (final(self).cur() == TokenV::RBrace || final(self).cur() == TokenV::Eof),
            r matches Ok(v) ==> forall|k: int| 0 <= k < v@.len() ==>
                (#[trigger] v@[k] matches Stmt::Fn { pub_visible, .. } && !pub_visible),
        decreases old(self).rem(), 5nat,
    {
        let mut methods: Vec<Stmt> = Vec::new();
        while !self.check(&Token::RBrace) && !self.check(&Token::Eof)
            invariant
                old(self).moved_on(self),
                methods@.len() == 0 ==> self.at() == old(self).at(),
                methods@.len() > 0 ==> old(self).cur() == TokenV::Fn,
                (old(self).cur() == TokenV::RBrace || old(self).cur() == TokenV::Eof) ==> (self.at() == old(self).at()
                    && methods@.len() == 0),
                forall|k: int| 0 <= k < methods@.len() ==>
                    (#[trigger] methods@[k] matches Stmt::Fn { pub_visible, .. } && !pub_visible),
            decreases self.toks().len() - self.at(),
        {
            let ghost before = *self;
            if self.check(&Token::Fn) {
                proof {
                    old(self).lemma_rem_less(self);
                }
                let m = self.parse_fn(false)?;
                methods.push(m);
            } else {
                let d = self.peek().debug_text();
                let mut msg = String::from_str("expected fn in impl, got ");
                push_str(&mut msg, d.as_str());
                return Err(msg);
            }
            self.skip_newlines();
            proof {
                before.lemma_rem_less(self);
                old(self).lemma_rem_less(self);
            }
        }
        Ok(methods)
    }

    /// Parses `impl Type { fn ... }` or `impl Trait for Type { fn ... }`; either
    /// way the methods belong to `Type`, so that calls on its values find them.
    #[verifier::rlimit(60)]
    fn parse_impl(&mut self) -> (r: Result<Stmt, String>)
        requires
            old(self).wf(),
            old(self).cur() == TokenV::Impl,
        ensures
            old(self).moved_on(final(self)),
            r is Ok ==> final(self).at() > old(self).at(),
            r matches Ok(s) ==> s is Impl,
            r matches Ok(Stmt::Impl { methods, .. }) ==> forall|k: int| 0 <= k < methods@.len() ==>
                (#[trigger] methods@[k] matches Stmt::Fn { pub_visible, .. } && !pub_visible),
            ({
                let ts = old(self).toks();
                let i = old(self).at();
                &&& !(ts[i + 1].0 is Ident) ==> r is Err
                &&& ts[i + 1].0 matches TokenV::Ident(n) ==> ({
                    let k = skip_nl(ts, i + 2);
                    &&& ts[k].0 == TokenV::LBrace ==> (ts[skip_nl(ts, k + 1)].0 == TokenV::RBrace ==> (
                        r matches Ok(Stmt::Impl { for_type, methods }) && for_type@ == n && methods@.len() == 0
                        && final(self).at() == skip_nl(ts, k + 1) + 1))
                    &&& ts[k].0 == TokenV::For ==> (ts[k + 1].0 matches TokenV::Ident(t) ==> ((ts[k + 2].0 == TokenV::LBrace
                        && ts[skip_nl(ts, k + 3)].0 == TokenV::RBrace) ==> (r matches Ok(Stmt::Impl { for_type, methods })
                        && for_type@ == t && methods@.len() == 0 && final(self).at() == skip_nl(ts, k + 3) + 1)))
                })
            }),
        decreases old(self).rem(), 4nat,
    {
        proof {
            old(self).lemma_facts();
        }
        self.advance();
        proof {
            self.lemma_facts();
        }
        let first = match self.advance() {
            Token::Ident(s) => s,
            t => {
                return Err(msg_got("expected type name in impl, got ", &t));
            },
        };
        self.skip_newlines();
        if self.eat(&Token::For) {
            let target_name = match self.advance() {
                Token::Ident(s) => s,
                t => {
                    return Err(msg_got("expected type name after for, got ", &t));
                },
            };
            self.expect(Token::LBrace)?;
            self.skip_newlines();
            proof {
                old(self).lemma_rem_less(self);
            }
            let methods = self.parse_impl_methods()?;
            self.expect(Token::RBrace)?;
            Ok(Stmt::Impl { for_type: target_name, methods })
        } else {
            self.expect(Token::LBrace)?;
            self.skip_newlines();
            proof {
                old(self).lemma_rem_less(self);
            }
            let methods = self.parse_impl_methods()?;
            self.expect(Token::RBrace)?;
            Ok(Stmt::Impl { for_type: first, methods })
        }
    }

    /// Parses `trait Name { fn m(params) [-> Type] ... }`.
    #[verifier::loop_isolation(false)]
    #[verifier::rlimit(60)]
    fn parse_trait(&mut self) -> (r: Result<Stmt, String>)
        requires
            old(self).wf(),
        ensures
            old(self).moved_on(final(self)),
            r is Ok ==> final(self).at() > old(self).at(),
            r matches Ok(s) ==> s is Trait,
            ({
                let ts = old(self).toks();
                let i = old(self).at();
                &&& (i + 1 < ts.len() && !(ts[i + 1].0 is Ident)) ==> r is Err
                &&& (i + 2 < ts.len() && ts[i + 2].0 == TokenV::LBrace) ==> (ts[i + 1].0 matches TokenV::Ident(n) ==> (
                    ts[skip_nl(ts, i + 3)].0 == TokenV::RBrace ==> (r matches Ok(Stmt::Trait { name, methods }) && name@ == n
                    && methods@.len() == 0 && final(self).at() == skip_nl(ts, i + 3) + 1)))
            }),
        decreases old(self).rem(), 4nat,
    {
        proof {
            old(self).lemma_facts();
        }
        self.advance();
        proof {
            self.lemma_facts();
        }
        let name = match self.advance() {
            Token::Ident(s) => s,
            t => {
                return Err(msg_got("expected trait name, got ", &t));
            },
        };
        self.expect(Token::LBrace)?;
        self.skip_newlines();
        let ghost s1 = *self;
        let mut methods: Vec<TraitMethod> = Vec::new();
        while !self.check(&Token::RBrace) && !self.check(&Token::Eof)
            invariant
                old(self).moved_on(self),
                s1.cur() == TokenV::RBrace ==> (self.at() == s1.at() && methods@.len() == 0),
                s1.toks() == self.toks(),
                self.at() > old(self).at(),
            decreases self.toks().len() - self.at(),
        {
            let ghost before = *self;
            if self.check(&Token::Fn) {
                self.advance();
                let mname = match self.advance() {
                    Token::Ident(s) => s,
                    t => {
                        return Err(msg_got("expected method name, got ", &t));
                    },
                };
                self.expect(Token::LParen)?;
                proof {
                    before.lemma_facts();
                    old(self).lemma_rem_less(self);
                }
                let params = self.parse_fn_params()?;
                self.expect(Token::RParen)?;
                let return_type = if self.eat(&Token::Arrow) {
                    proof {
                        old(self).lemma_rem_less(self);
                    }
                    Some(self.parse_type()?)
                } else {
                    None
                };
                methods.push(TraitMethod { name: mname, params, return_type });
                self.skip_newlines();
                proof {
                    before.lemma_rem_less(self);
                }
            } else {
                let d = self.peek().debug_text();
                let mut msg = String::from_str("expected fn in trait, got ");
                push_str(&mut msg, d.as_str());
                return Err(msg);
            }
        }
        self.expect(Token::RBrace)?;
        Ok(Stmt::Trait { name, methods })
    }
}

impl Parser {
    /// Parses an expression.
    fn parse_expr(&mut self) -> (r: Result<Expr, String>)
        requires
            old(self).wf(),
        ensures
            old(self).moved_on(final(self)),
            r is Ok ==> final(self).at() > old(self).at(),
            old(self).toks()[skip_nl(old(self).toks(), old(self).at())].0 == TokenV::Eof ==> r is Err,
            op_expr(old(self).toks(), old(self).at(), 0) matches Some(x) ==> (
                r == Ok::<Expr, String>(x.0) && final(self).at() == x.1),
        decreases old(self).rem(), 4nat,
    {
        self.parse_expr_bp(0)
    }

    /// Parses an expression whose infix operators bind at least as strongly as
    /// `min_bp`. Calls, indexing, fields and method calls apply to the left
    /// operand at any strength; an operator of precedence p groups to the left
    /// (its right operand is parsed at strength p + 1); `|>` binds loosest and
    /// groups to the left, so it is taken only at strength 0; an assignment
    /// takes the whole expression on its right.
    #[verifier::loop_isolation(false)]
    fn parse_expr_bp(&mut self, min_bp: u8) -> (r: Result<Expr, String>)
        requires
            old(self).wf(),
        ensures
            old(self).moved_on(final(self)),
            r is Ok ==> final(self).at() > old(self).at(),
            old(self).toks()[skip_nl(old(self).toks(), old(self).at())].0 == TokenV::Eof ==> r is Err,
            op_expr(old(self).toks(), old(self).at(), min_bp as int) matches Some(x) ==> (
                r == Ok::<Expr, String>(x.0) && final(self).at() == x.1),
        decreases old(self).rem(), 3nat,
    {
        let ghost target = op_expr(old(self).toks(), old(self).at(), min_bp as int);
        let mut lhs = self.parse_prefix()?;
        loop
            invariant
                old(self).moved_on(self),
                self.at() > old(self).at(),
                target is Some ==> op_rest(self.toks(), self.at(), min_bp as int, lhs) == target,
            decreases self.toks().len() - self.at(),
        {
            let ghost before = *self;
            self.skip_newlines();
            proof {
                old(self).lemma_rem_less(self);
                before.lemma_rem_less(self);
                self.lemma_facts();
            }
            if matches!(self.peek(), Token::LParen) {
                self.advance();
                proof {
                    old(self).lemma_rem_less(self);
                }
                let args = self.parse_call_args()?;
                self.expect(Token::RParen)?;
                lhs = Expr::Call(Box::new(lhs), args);
            } else if matches!(self.peek(), Token::LBracket) {
                self.advance();
                proof {
                    old(self).lemma_rem_less(self);
                }
                let idx = self.parse_expr()?;
                self.expect(Token::RBracket)?;
                lhs = Expr::Index(Box::new(lhs), Box::new(idx));
            } else if matches!(self.peek(), Token::Dot) {
                self.advance();
                let name = match self.advance() {
                    Token::Ident(s) => s,
                    t => {
                        return Err(msg_got("expected field/method name, got ", &t));
                    },
                };
                if self.check(&Token::LParen) {
                    self.advance();
                    proof {
                        old(self).lemma_rem_less(self);
                    }
                    let args = self.parse_call_args()?;
                    self.expect(Token::RParen)?;
                    lhs = Expr::MethodCall(Box::new(lhs), name, args);
                } else {
                    lhs = Expr::Field(Box::new(lhs), name);
                }
            } else if matches!(self.peek(), Token::Pipe) {
                if min_bp > 0 {
                    break;
                }
                self.advance();
                proof {
                    old(self).lemma_rem_less(self);
                }
                let rhs = self.parse_expr_bp(1)?;
                lhs = Expr::Pipe(Box::new(lhs), Box::new(rhs));
            } else {
                match self.infix_binding_power() {
                    Some((l_bp, r_bp)) => {
                        if l_bp < min_bp {
                            break;
                        }
                        let op_tok = self.advance();
                        let op = self.token_to_binop(&op_tok);
                        proof {
                            old(self).lemma_rem_less(self);
                        }
                        let rhs = self.parse_expr_bp(r_bp)?;
                        lhs = Expr::Binary(Box::new(lhs), op, Box::new(rhs));
                    },
                    None => {
                        if self.peek().is_assign() {
                            let op_tok = self.advance();
                            let assign_op = self.token_to_assignop(&op_tok);
                            proof {
                                old(self).lemma_rem_less(self);
                            }
                            let rhs = self.parse_expr()?;
                            lhs = Expr::Assign(Box::new(lhs), assign_op, Box::new(rhs));
                        } else {
                            break;
                        }
                    },
                }
            }
            proof {
                before.lemma_rem_less(self);
            }
        }
        Ok(lhs)
    }

    /// Parses an interpolated string literal's text: the part before the first
    /// mark is the prefix; after each mark, the text up to the first `}` is an
    /// expression (`nil` when empty) and the rest, when not empty, a plain string.
    #[verifier::loop_isolation(false)]
    fn parse_interpolated(&self, s: String) -> (r: Result<Expr, String>)
        requires
            s@.len() + 2 <= usize::MAX,
        ensures
            r matches Ok(e) ==> e is Str,
            (forall|k: int| 0 <= k < s@.len() ==> s@[k] != '\x01') ==> (r matches Ok(Expr::Str(t, v)) && t == s
                && v@.len() == 0),
        decreases s@.len() + 1, 8nat,
    {
        let cs = chars_of(s.as_str());
        let n = cs.len();
        let mut k: usize = 0;
        while k < n && cs[k] != '\x01'
            invariant
                k <= n,
                n == cs@.len(),
            decreases n - k,
        {
            k = k + 1;
        }
        if k == n {
            return Ok(Expr::Str(s, Vec::new()));
        }
        let prefix = string_of(&cs, 0, k);
        let mut interp: Vec<Expr> = Vec::new();
        let mut start = k + 1;
        loop
            invariant
                1 <= start <= n,
                n == cs@.len(),
                n == s@.len(),
                n + 2 <= usize::MAX,
            decreases n - start,
        {
            let mut e = start;
            while e < n && cs[e] != '\x01'
                invariant
                    start <= e <= n,
                    n == cs@.len(),
                decreases n - e,
            {
                e = e + 1;
            }
            let mut q = start;
            while q < e && cs[q] != '}'
                invariant
                    start <= q <= e,
                    e <= n,
                    n == cs@.len(),
                decreases e - q,
            {
                q = q + 1;
            }
            if q < e {
                let expr = if q == start {
                    Expr::Nil
                } else {
                    let text = string_of(&cs, start, q);
                    self.parse_expr_str(&text)?
                };
                interp.push(expr);
                if q + 1 < e {
                    let suffix = string_of(&cs, q + 1, e);
                    interp.push(Expr::Str(suffix, Vec::new()));
                }
            }
            if e == n {
                break;
            }
            start = e + 1;
        }
        Ok(Expr::Str(prefix, interp))
    }

    /// Parses the expression that starts at the current token: a literal, a
    /// unary operator (`-`, `!` or `not`), a group, tuple or one-parameter function in parentheses,
    /// a block, an array, an anonymous `fn`, an `if` or `match` expression, an
    /// identifier or struct literal, or an `import`.
    #[verifier::loop_isolation(false)]
    fn parse_prefix(&mut self) -> (r: Result<Expr, String>)
        requires
            old(self).wf(),
        ensures
            old(self).moved_on(final(self)),
            r is Ok ==> final(self).at() > old(self).at(),
            ({
                let t = old(self).toks()[skip_nl(old(self).toks(), old(self).at())].0;
                &&& t matches TokenV::IntLiteral(n) ==> r == Ok::<Expr, String>(Expr::Int(n))
                &&& t matches TokenV::CharLiteral(c) ==> r == Ok::<Expr, String>(Expr::Char(c))
                &&& t == TokenV::True ==> r == Ok::<Expr, String>(Expr::Bool(true))
                &&& t == TokenV::False ==> r == Ok::<Expr, String>(Expr::Bool(false))
                &&& t == TokenV::Nil ==> r == Ok::<Expr, String>(Expr::Nil)
                &&& t matches TokenV::FloatLiteral(x) ==> (r matches Ok(Expr::Float(y)) && y@ == x)
                &&& t matches TokenV::StrLiteral(_) ==> (r matches Ok(e) ==> e is Str)
                &&& t == TokenV::Minus ==> (r matches Ok(e) ==> (e matches Expr::Unary(op, _) && op == UnOp::Neg))
                &&& (t == TokenV::Bang || t == TokenV::Not) ==> (r matches Ok(e) ==> (e matches Expr::Unary(op, _) && op == UnOp::Not))
                &&& t == TokenV::LBracket ==> (r matches Ok(e) ==> e is Array)
                &&& t == TokenV::LBrace ==> (r matches Ok(e) ==> e is Block)
                &&& t == TokenV::Match ==> (r matches Ok(e) ==> e is Match)
                &&& t == TokenV::If ==> (r matches Ok(e) ==> e is If)
                &&& t == TokenV::Fn ==> (r matches Ok(e) ==> e is Fn)
                &&& t == TokenV::Import ==> (r matches Ok(e) ==> e is Import)
                &&& t matches TokenV::Ident(_) ==> (r matches Ok(e) ==> (e is Ident || e is StructLit))
                &&& t == TokenV::Eof ==> r is Err
            }),
            ({
                let ts = old(self).toks();
                let k = skip_nl(ts, old(self).at());
                &&& literal_expr(ts[k].0) matches Some(e) ==> (r == Ok::<Expr, String>(e) && final(self).at() == k + 1)
                &&& (ts[k].0 == TokenV::Minus || ts[k].0 == TokenV::Bang || ts[k].0 == TokenV::Not) ==> (
                    op_expr(ts, k + 1, 7) matches Some(x) ==> (final(self).at() == x.1 && r == Ok::<Expr, String>(
                        Expr::Unary(if ts[k].0 == TokenV::Minus { UnOp::Neg } else { UnOp::Not }, Box::new(x.0)))))
                &&& ts[k].0 == TokenV::Match ==> (op_expr(ts, k + 1, 0) matches Some(c) ==> (ts[c.1].0 == TokenV::LBrace ==> (
                    arms_at(ts, c.1 + 1) matches Some(a) ==> (ts[a.1].0 == TokenV::RBrace ==> (
                        r matches Ok(Expr::Match(sc, arms)) && *sc == c.0 && arms@ == a.0 && final(self).at() == a.1 + 1)))))
                &&& ts[k].0 == TokenV::LParen ==> (op_expr(ts, k + 1, 0) matches Some(x) ==> (
                    x.1 < ts.len() - 1 && ts[x.1].0 == TokenV::RParen ==> (
                        final(self).at() == x.1 + 1 && r == Ok::<Expr, String>(x.0))))
            }),
        decreases old(self).rem(), 2nat,
    {
        self.skip_newlines();
        let ghost s0 = *self;
        proof {
            lemma_skip_nl(old(self).toks(), old(self).at());
            s0.lemma_facts();
            old(self).lemma_rem_less(&s0);
        }
        let tok = self.advance();
        proof {
            s0.lemma_rem_less(self);
            if s0.cur() != TokenV::Eof {
                assert(s0.at() < s0.toks().len() - 1);
            }
        }
        match tok {
            Token::IntLiteral(n) => Ok(Expr::Int(n)),
            Token::FloatLiteral(f) => Ok(Expr::Float(f)),
            Token::True => Ok(Expr::Bool(true)),
            Token::False => Ok(Expr::Bool(false)),
            Token::Nil => Ok(Expr::Nil),
            Token::StrLiteral(s) => self.parse_interpolated(s),
            Token::CharLiteral(c) => Ok(Expr::Char(c)),
            Token::Minus => {
                let rhs = self.parse_expr_bp(7)?;
                Ok(Expr::Unary(UnOp::Neg, Box::new(rhs)))
            },
            Token::Bang | Token::Not => {
                let rhs = self.parse_expr_bp(7)?;
                Ok(Expr::Unary(UnOp::Not, Box::new(rhs)))
            },
            Token::LParen => self.parse_paren_rest(),
            Token::LBrace => {
                let stmts = self.parse_block_stmts()?;
                self.expect(Token::RBrace)?;
                Ok(Expr::Block(stmts))
            },
            Token::LBracket => {
                let mut exprs: Vec<Expr> = Vec::new();
                if !self.check(&Token::RBracket) {
                    loop
                        invariant
                            old(self).moved_on(self),
                            self.at() > old(self).at(),
                        decreases self.toks().len() - self.at(),
                    {
                        let ghost before = *self;
                        proof {
                            old(self).lemma_rem_less(self);
                        }
                        let e = self.parse_expr()?;
                        exprs.push(e);
                        proof {
                            before.lemma_rem_less(self);
                        }
                        if !self.eat(&Token::Comma) {
                            break;
                        }
                        proof {
                            before.lemma_rem_less(self);
                        }
                    }
                }
                self.expect(Token::RBracket)?;
                Ok(Expr::Array(exprs))
            },
            Token::Fn => {
                self.expect(Token::LParen)?;
                proof {
                    old(self).lemma_rem_less(self);
                }
                let params = self.parse_fn_params()?;
                self.expect(Token::RParen)?;
                let return_type = if self.eat(&Token::Arrow) {
                    proof {
                        old(self).lemma_rem_less(self);
                    }
                    Some(self.parse_type()?)
                } else {
                    None
                };
                proof {
                    old(self).lemma_rem_less(self);
                }
                if self.check(&Token::LBrace) {
                    self.advance();
                    proof {
                        old(self).lemma_rem_less(self);
                    }
                    let stmts = self.parse_block_stmts()?;
                    self.expect(Token::RBrace)?;
                    let body = self.block_to_expr(stmts);
                    Ok(Expr::Fn(params, return_type, Box::new(body)))
                } else {
                    let body = self.parse_expr()?;
                    Ok(Expr::Fn(params, return_type, Box::new(body)))
                }
            },
            Token::If => self.parse_if_expr_rest(),
            Token::Match => self.parse_match_rest(),
            Token::Ident(s) => {
                if self.check(&Token::LBrace) && !self.check(&Token::Eof) && !matches!(self.peek_n(1), Token::RBrace)
                    && !matches!(self.peek_n(1), Token::Newline) && matches!(self.peek_n(2), Token::Colon) {
                    self.advance();
                    let mut fields: Vec<(String, Expr)> = Vec::new();
                    loop
                        invariant
                            old(self).moved_on(self),
                            self.at() > old(self).at(),
                        decreases self.toks().len() - self.at(),
                    {
                        let ghost before = *self;
                        self.skip_newlines();
                        if self.check(&Token::RBrace) {
                            break;
                        }
                        let fname = match self.advance() {
                            Token::Ident(n) => n,
                            t => {
                                return Err(msg_got("expected field name, got ", &t));
                            },
                        };
                        self.expect(Token::Colon)?;
                        proof {
                            old(self).lemma_rem_less(self);
                        }
                        let val = self.parse_expr()?;
                        fields.push((fname, val));
                        proof {
                            before.lemma_rem_less(self);
                        }
                        if !self.eat(&Token::Comma) {
                            break;
                        }
                    }
                    self.expect(Token::RBrace)?;
                    Ok(Expr::StructLit(s, fields))
                } else {
                    Ok(Expr::Ident(s))
                }
            },
            Token::Import => {
                let path = self.parse_ident_path()?;
                let alias = if self.eat(&Token::As) {
                    match self.advance() {
                        Token::Ident(s) => Some(s),
                        t => {
                            return Err(msg_got("expected identifier after as, got ", &t));
                        },
                    }
                } else {
                    None
                };
                Ok(Expr::Import(path, alias))
            },
            Token::Eof => Err(String::from_str("unexpected end of file")),
            t => {
                let mut m = msg_got("unexpected token ", &t);
                let (l, c) = (self.line(), self.col());
                push_at(&mut m, l, c);
                Err(m)
            },
        }
    }
}

impl Parser {
    /// The rest of a `match` expression after `match`: the scrutinee, then the
    /// arms in braces.
    #[verifier::loop_isolation(false)]
    fn parse_match_rest(&mut self) -> (r: Result<Expr, String>)
        requires
            old(self).wf(),
        ensures
            old(self).moved_on(final(self)),
            r is Ok ==> final(self).at() > old(self).at(),
            r matches Ok(e) ==> e is Match,
            ({
                let ts = old(self).toks();
                op_expr(ts, old(self).at(), 0) matches Some(c) ==> (ts[c.1].0 == TokenV::LBrace ==> (
                    arms_at(ts, c.1 + 1) matches Some(a) ==> (ts[a.1].0 == TokenV::RBrace ==> (
                        r matches Ok(Expr::Match(sc, arms)) && *sc == c.0 && arms@ == a.0 && final(self).at() == a.1 + 1))))
            }),
        decreases old(self).rem(), 5nat,
    {
        proof {
            old(self).lemma_facts();
        }
        let expr = self.parse_expr()?;
        self.expect(Token::LBrace)?;
        let ghost ts = self.toks();
        let ghost target = arms_at(ts, self.at());
        let ghost s1 = *self;
        self.skip_newlines();
        let mut arms: Vec<MatchArm> = Vec::new();
        proof {
            old(self).lemma_rem_less(self);
            s1.lemma_facts();
            lemma_skip_nl_idem(ts, s1.at());
            assert(arms@ =~= Seq::<MatchArm>::empty());
        }
        while !self.check(&Token::RBrace) && !self.check(&Token::Eof)
            invariant
                old(self).moved_on(self),
                self.at() > old(self).at(),
                ts == self.toks(),
                skip_nl(ts, self.at()) == self.at(),
                target is Some ==> (arms_at(ts, self.at()) matches Some(rest) && arms@ + rest.0 == target.unwrap().0
                    && rest.1 == target.unwrap().1),
            decreases self.toks().len() - self.at(),
        {
            let ghost before = *self;
            let ghost prev = arms@;
            proof {
                old(self).lemma_rem_less(self);
                before.lemma_facts();
            }
            let arm = self.parse_match_arm()?;
            let ghost mid = *self;
            arms.push(arm);
            self.skip_newlines();
            proof {
                before.lemma_rem_less(self);
                mid.lemma_facts();
                lemma_skip_nl_idem(ts, mid.at());
                if target is Some {
                    let rest = arms_at(ts, before.at())->0;
                    let rest2 = arms_at(ts, mid.at())->0;
                    assert(arms_at(ts, self.at()) == arms_at(ts, mid.at()));
                    assert(rest.0 == seq![arm] + rest2.0);
                    assert(arms@ + rest2.0 =~= prev + rest.0);
                }
            }
        }
        proof {
            if target is Some {
                assert(arms@ + Seq::<MatchArm>::empty() =~= arms@);
            }
        }
        self.expect(Token::RBrace)?;
        Ok(Expr::Match(Box::new(expr), arms))
    }

    /// The rest of a parenthesized form after `(`: `()`, a tuple, a
    /// one-parameter function `(x) -> body`, or a grouped expression.
    #[verifier::loop_isolation(false)]
    fn parse_paren_rest(&mut self) -> (r: Result<Expr, String>)
        requires
            old(self).wf(),
        ensures
            old(self).moved_on(final(self)),
            op_expr(old(self).toks(), old(self).at(), 0) matches Some(x) ==> (
                x.1 < old(self).toks().len() - 1 && old(self).toks()[x.1].0 == TokenV::RParen ==> (
                    final(self).at() == x.1 + 1 && r == Ok::<Expr, String>(x.0))),
        decreases old(self).rem(), 5nat,
    {
        if self.check(&Token::RParen) {
            assert(skip_nl(self.toks(), self.at()) == self.at());
            assert(op_expr(self.toks(), self.at(), 0) is None);
            self.advance();
            return Ok(Expr::Tuple(Vec::new()));
        }
        let first = self.parse_expr()?;
        if self.eat(&Token::Comma) {
            let mut exprs: Vec<Expr> = Vec::new();
            exprs.push(first);
            loop
                invariant
                    old(self).moved_on(self),
                    self.at() > old(self).at(),
                decreases self.toks().len() - self.at(),
            {
                let ghost before = *self;
                if self.check(&Token::RParen) {
                    break;
                }
                proof {
                    old(self).lemma_rem_less(self);
                }
                proof {
                    old(self).lemma_rem_less(self);
                }
                let e = self.parse_expr()?;
                exprs.push(e);
                proof {
                    before.lemma_rem_less(self);
                }
                if !self.eat(&Token::Comma) {
                    break;
                }
            }
            self.expect(Token::RParen)?;
            Ok(Expr::Tuple(exprs))
        } else if self.eat(&Token::Arrow) {
            let param_name = match first {
                Expr::Ident(s) => s,
                _ => {
                    return Err(String::from_str("expected parameter name"));
                },
            };
            proof {
                old(self).lemma_rem_less(self);
            }
            let param = if self.check(&Token::Colon) {
                self.parse_fn_param_in_parens(param_name)?
            } else {
                FnParam { name: param_name, type_expr: None, default: None }
            };
            let mut params: Vec<FnParam> = Vec::new();
            params.push(param);
            self.expect(Token::RParen)?;
            proof {
                old(self).lemma_rem_less(self);
            }
            let body = self.parse_expr()?;
            Ok(Expr::Fn(params, None, Box::new(body)))
        } else {
            self.expect(Token::RParen)?;
            Ok(first)
        }
    }

    /// The rest of an `if` expression after `if`: the condition, the block, and
    /// an optional `else` block or one level of `else if`.
    #[verifier::rlimit(60)]
    fn parse_if_expr_rest(&mut self) -> (r: Result<Expr, String>)
        requires
            old(self).wf(),
        ensures
            old(self).moved_on(final(self)),
            r matches Ok(e) ==> e is If,
            ({
                let ts = old(self).toks();
                op_expr(ts, old(self).at(), 0) matches Some(c) ==> (ts[c.1].0 == TokenV::LBrace ==> (
                    op_block(ts, c.1 + 1) matches Some(b) ==> (ts[b.1].0 == TokenV::RBrace ==> ({
                        let e = b.1 + 1;
                        &&& ts[e].0 != TokenV::Else ==> (r matches Ok(Expr::If(cond, then, els))
                            && *cond == c.0 && body_is(*then, b.0) && els is None && final(self).at() == e)
                        &&& (ts[e].0 == TokenV::Else && ts[e + 1].0 == TokenV::LBrace) ==> (op_block(ts, e + 2) matches Some(b2)
                            ==> (ts[b2.1].0 == TokenV::RBrace ==> (r matches Ok(Expr::If(cond, then, els)) && *cond == c.0
                            && body_is(*then, b.0) && (els matches Some(w) && (*w matches Expr::Block(v) && v@ == b2.0))
                            && final(self).at() == b2.1 + 1)))
                    }))))
            }),
        decreases old(self).rem(), 5nat,
    {
        proof {
            old(self).lemma_facts();
        }
        let cond = self.parse_expr()?;
        self.expect(Token::LBrace)?;
        proof {
            old(self).lemma_rem_less(self);
        }
        let then = self.parse_block_stmts()?;
        self.expect(Token::RBrace)?;
        let else_expr = if self.eat(&Token::Else) {
            if self.eat(&Token::If) {
                proof {
                    old(self).lemma_rem_less(self);
                }
                let cond2 = self.parse_expr()?;
                self.expect(Token::LBrace)?;
                proof {
                    old(self).lemma_rem_less(self);
                }
                let then2 = self.parse_block_stmts()?;
                self.expect(Token::RBrace)?;
                let mark = self.pos;
                let else_inner = if self.eat(&Token::Else) {
                    if self.check(&Token::If) {
                        self.pos = mark;
                        None
                    } else {
                        self.expect(Token::LBrace)?;
                        proof {
                            old(self).lemma_rem_less(self);
                        }
                        let body = self.parse_block_stmts()?;
                        self.expect(Token::RBrace)?;
                        Some(Box::new(Expr::Block(body)))
                    }
                } else {
                    None
                };
                let then2_expr = self.block_to_expr(then2);
                Some(Box::new(Expr::If(Box::new(cond2), Box::new(then2_expr), else_inner)))
            } else {
                self.expect(Token::LBrace)?;
                proof {
                    old(self).lemma_rem_less(self);
                }
                let body = self.parse_block_stmts()?;
                self.expect(Token::RBrace)?;
                Some(Box::new(Expr::Block(body)))
            }
        } else {
            None
        };
        let then_expr = self.block_to_expr(then);
        Ok(Expr::If(Box::new(cond), Box::new(then_expr), else_expr))
    }

    /// Parses `: Type [= default]` for a parameter written inside parentheses.
    fn parse_fn_param_in_parens(&mut self, name: String) -> (r: Result<FnParam, String>)
        requires
            old(self).wf(),
        ensures
            old(self).moved_on(final(self)),
            r matches Ok(p) ==> p.name == name && p.type_expr is Some,
            ({
                let ts = old(self).toks();
                let i = old(self).at();
                simple_type(ts, i) matches Some(t) ==> if ts[i + 1].0 == TokenV::Eq {
                    op_expr(ts, i + 2, 0) matches Some(x) ==> (r matches Ok(p) && p.name == name
                        && names_type(p.type_expr, Some(t)) && p.default == Some(Box::new(x.0)) && final(self).at() == x.1)
                } else {
                    r matches Ok(p) && p.name == name && names_type(p.type_expr, Some(t)) && p.default is None
                        && final(self).at() == i + 1
                }
            }),
        decreases old(self).rem(), 5nat,
    {
        proof {
            old(self).lemma_facts();
        }
        let te = self.parse_type()?;
        let type_expr = Some(te);
        let default = if self.eat(&Token::Eq) {
            proof {
                old(self).lemma_rem_less(self);
            }
            Some(Box::new(self.parse_expr()?))
        } else {
            None
        };
        Ok(FnParam { name, type_expr, default })
    }

    /// Parses call arguments separated by commas, up to (not including) `)`;
    /// a trailing comma is allowed.
    #[verifier::loop_isolation(false)]
    fn parse_call_args(&mut self) -> (r: Result<Vec<Expr>, String>)
        requires
            old(self).wf(),
        ensures
            old(self).moved_on(final(self)),
            old(self).cur() == TokenV::RParen ==> (r matches Ok(v) && v@.len() == 0),
            args_at(old(self).toks(), old(self).at()) matches Some(x) ==> (r matches Ok(v) && v@ == x.0
                && final(self).at() == x.1),
        decreases old(self).rem(), 5nat,
    {
        let ghost target = args_at(old(self).toks(), old(self).at());
        let mut args: Vec<Expr> = Vec::new();
        proof {
            old(self).lemma_facts();
        }
        if self.check(&Token::RParen) {
            return Ok(args);
        }
        loop
            invariant
                old(self).moved_on(self),
                target is Some ==> (args_from(self.toks(), self.at()) matches Some(rest)
                    && args@ + rest.0 == target.unwrap().0 && rest.1 == target.unwrap().1),
            decreases self.toks().len() - self.at(),
        {
            let ghost before = *self;
            let ghost before_args = args@;
            proof {
                old(self).lemma_rem_less(self);
                before.lemma_facts();
            }
            let a = self.parse_expr()?;
            args.push(a);
            proof {
                if target is Some {
                    assert(args@ =~= before_args.push(a));
                    let x = op_expr(before.toks(), before.at(), 0)->0;
                    let rest = args_from(before.toks(), before.at())->0;
                    if !(self.cur() == TokenV::Comma && self.at() + 1 < self.toks().len()) {
                        assert(rest.0 =~= seq![x.0]);
                        assert(args@ + Seq::<Expr>::empty() =~= args@);
                    } else if self.toks()[self.at() + 1].0 == TokenV::RParen {
                        assert(rest.0 =~= seq![x.0]);
                    } else {
                        let r2 = args_from(before.toks(), self.at() + 1)->0;
                        assert(args@ + r2.0 =~= before_args + rest.0);
                    }
                }
            }
            proof {
                before.lemma_rem_less(self);
                old(self).lemma_rem_less(self);
            }
            if !self.eat(&Token::Comma) {
                break;
            }
            if self.check(&Token::RParen) {
                break;
            }
            proof {
                before.lemma_rem_less(self);
                old(self).lemma_rem_less(self);
            }
        }
        Ok(args)
    }

    /// Parses `pattern [if guard] => body [,]` (or `->`); a guard is read and dropped.
    fn parse_match_arm(&mut self) -> (r: Result<MatchArm, String>)
        requires
            old(self).wf(),
        ensures
            old(self).moved_on(final(self)),
            r is Ok ==> final(self).at() > old(self).at(),
            ({
                let ts = old(self).toks();
                let k = skip_nl(ts, old(self).at());
                literal_pattern(ts[k].0) matches Some(pat) ==> ((ts[k + 1].0 == TokenV::FatArrow
                    || ts[k + 1].0 == TokenV::Arrow) ==> (op_expr(ts, k + 2, 0) matches Some(x) ==> (r matches Ok(arm)
                    && arm.pattern == pat && *arm.body == x.0
                    && final(self).at() == if ts[x.1].0 == TokenV::Comma { x.1 + 1 } else { x.1 })))
            }),
        decreases old(self).rem(), 5nat,
    {
        proof {
            old(self).lemma_facts();
            lemma_skip_nl(old(self).toks(), old(self).at());
        }
        let pattern = self.parse_pattern()?;
        proof {
            self.lemma_facts();
        }
        proof {
            old(self).lemma_rem_less(self);
        }
        if self.eat(&Token::If) {
            proof {
                old(self).lemma_rem_less(self);
            }
            self.parse_expr()?;
        }
        if matches!(self.peek(), Token::FatArrow) || matches!(self.peek(), Token::Arrow) {
            self.advance();
        } else {
            self.expect(Token::FatArrow)?;
        }
        proof {
            old(self).lemma_rem_less(self);
        }
        let body = self.parse_expr()?;
        proof {
            old(self).lemma_rem_less(self);
        }
        self.eat(&Token::Comma);
        Ok(MatchArm { pattern, body: Box::new(body) })
    }

    /// Parses a pattern: a simple pattern (see `parse_pattern_primary`), then
    /// `.. hi` for a range, then `| pattern` for an alternative.
    fn parse_pattern(&mut self) -> (r: Result<Pattern, String>)
        requires
            old(self).wf(),
        ensures
            old(self).moved_on(final(self)),
            r is Ok ==> final(self).at() > old(self).at(),
            ({
                let t = old(self).toks()[skip_nl(old(self).toks(), old(self).at())].0;
                !(t is IntLiteral || t is FloatLiteral || t is True || t is False || t is StrLiteral
                    || t is CharLiteral || t is Nil || t is Ident || t is Underscore) ==> r is Err
            }),
            lit_pattern_at(old(self).toks(), old(self).at()) matches Some(x) ==> (r == Ok::<Pattern, String>(x.0)
                && final(self).at() == x.1),
        decreases old(self).rem(), 2nat,
    {
        proof {
            old(self).lemma_facts();
            lemma_skip_nl(old(self).toks(), old(self).at());
        }
        let first = self.parse_pattern_primary()?;
        proof {
            self.lemma_facts();
        }
        let p = if self.check(&Token::DotDot) {
            self.advance();
            proof {
                old(self).lemma_rem_less(self);
                lemma_skip_nl(self.toks(), self.at());
            }
            let hi = self.parse_pattern_primary()?;
            Pattern::Range(Box::new(first), Box::new(hi))
        } else {
            first
        };
        proof {
            self.lemma_facts();
        }
        if self.check(&Token::Pipe) {
            self.advance();
            proof {
                old(self).lemma_rem_less(self);
            }
            let rest = self.parse_pattern()?;
            Ok(Pattern::Or(Box::new(p), Box::new(rest)))
        } else {
            Ok(p)
        }
    }

    /// Parses a simple pattern: a literal, `_` or `nil` (both match anything), a name,
    /// `Name(p, ...)`, or `Name { field: p, ... }`.
    fn parse_pattern_primary(&mut self) -> (r: Result<Pattern, String>)
        requires
            old(self).wf(),
        ensures
            old(self).moved_on(final(self)),
            r is Ok ==> final(self).at() > old(self).at(),
            ({
                let t = old(self).toks()[skip_nl(old(self).toks(), old(self).at())].0;
                &&& t matches TokenV::IntLiteral(n) ==> r == Ok::<Pattern, String>(Pattern::Int(n))
                &&& t matches TokenV::CharLiteral(c) ==> r == Ok::<Pattern, String>(Pattern::Char(c))
                &&& t == TokenV::True ==> r == Ok::<Pattern, String>(Pattern::Bool(true))
                &&& t == TokenV::False ==> r == Ok::<Pattern, String>(Pattern::Bool(false))
                &&& (t == TokenV::Nil || t == TokenV::Underscore) ==> r == Ok::<Pattern, String>(Pattern::Wild)
                &&& t matches TokenV::StrLiteral(x) ==> (r matches Ok(Pattern::Str(y)) && y@ == x)
                &&& t matches TokenV::FloatLiteral(x) ==> (r matches Ok(Pattern::Float(y)) && y@ == x)
                &&& !(t is IntLiteral || t is FloatLiteral || t is True || t is False || t is StrLiteral
                    || t is CharLiteral || t is Nil || t is Ident || t is Underscore) ==> r is Err
                &&& (t is IntLiteral || t is FloatLiteral || t is True || t is False || t is StrLiteral
                    || t is CharLiteral || t is Nil || t is Underscore) ==> final(self).at()
                    == skip_nl(old(self).toks(), old(self).at()) + 1
            }),
        decreases old(self).rem(), 1nat,
    {
        self.skip_newlines();
        let ghost s0 = *self;
        proof {
            lemma_skip_nl(old(self).toks(), old(self).at());
            s0.lemma_facts();
            old(self).lemma_rem_less(&s0);
        }
        if matches!(self.peek(), Token::IntLiteral(..)) || matches!(self.peek(), Token::FloatLiteral(..))
            || matches!(self.peek(), Token::True) || matches!(self.peek(), Token::False)
            || matches!(self.peek(), Token::StrLiteral(..)) || matches!(self.peek(), Token::CharLiteral(..))
            || matches!(self.peek(), Token::Nil) || matches!(self.peek(), Token::Underscore) {
            let t = self.advance();
            return match t {
                Token::IntLiteral(n) => Ok(Pattern::Int(n)),
                Token::FloatLiteral(f) => Ok(Pattern::Float(f)),
                Token::True => Ok(Pattern::Bool(true)),
                Token::StrLiteral(s) => Ok(Pattern::Str(s)),
                Token::CharLiteral(c) => Ok(Pattern::Char(c)),
                Token::False => Ok(Pattern::Bool(false)),
                _ => Ok(Pattern::Wild),
            };
        }
        if !matches!(self.peek(), Token::Ident(..)) {
            let d = self.peek().debug_text();
            let mut msg = String::from_str("unexpected token in pattern ");
            push_str(&mut msg, d.as_str());
            return Err(msg);
        }
        let name = match self.advance() {
            Token::Ident(s) => s,
            _ => String::new(),
        };
        proof {
            s0.lemma_rem_less(self);
        }
        if self.check(&Token::LParen) {
            self.advance();
            let mut patterns: Vec<Pattern> = Vec::new();
            loop
                invariant
                    old(self).moved_on(self),
                    self.at() > old(self).at(),
                    old(self).toks()[skip_nl(old(self).toks(), old(self).at())].0 is Ident,
                decreases self.toks().len() - self.at(),
            {
                let ghost before = *self;
                if self.check(&Token::RParen) {
                    break;
                }
                proof {
                    old(self).lemma_rem_less(self);
                }
                let p = self.parse_pattern()?;
                patterns.push(p);
                proof {
                    before.lemma_rem_less(self);
                }
                if !self.eat(&Token::Comma) {
                    break;
                }
            }
            self.expect(Token::RParen)?;
            Ok(Pattern::Tuple(patterns))
        } else if self.check(&Token::LBrace) {
            self.advance();
            let mut fields: Vec<(String, Pattern)> = Vec::new();
            loop
                invariant
                    old(self).moved_on(self),
                    self.at() > old(self).at(),
                    old(self).toks()[skip_nl(old(self).toks(), old(self).at())].0 is Ident,
                decreases self.toks().len() - self.at(),
            {
                let ghost before = *self;
                self.skip_newlines();
                if self.check(&Token::RBrace) {
                    break;
                }
                let fname = match self.advance() {
                    Token::Ident(n) => n,
                    t => {
                        return Err(msg_got("expected field name, got ", &t));
                    },
                };
                self.expect(Token::Colon)?;
                proof {
                    old(self).lemma_rem_less(self);
                }
                let pat = self.parse_pattern()?;
                fields.push((fname, pat));
                proof {
                    before.lemma_rem_less(self);
                }
                if !self.eat(&Token::Comma) {
                    break;
                }
            }
            self.expect(Token::RBrace)?;
            Ok(Pattern::Struct(name, fields))
        } else if crate::text::eq_str(&name, "_") {
            Ok(Pattern::Wild)
        } else {
            Ok(Pattern::Ident(name))
        }
    }

    /// Parses a type: `(T, ...)` (one type in parentheses is that type, several
    /// a tuple) optionally followed by `-> R` for a function type, `Name`,
    /// `Name[T, ...]`, or `_`.
    fn parse_type(&mut self) -> (r: Result<TypeExpr, String>)
        requires
            old(self).wf(),
        ensures
            old(self).moved_on(final(self)),
            r is Ok ==> final(self).at() > old(self).at(),
            old(self).cur() == TokenV::Underscore ==> r matches Ok(TypeExpr::Infer),
            !(old(self).cur() is LParen || old(self).cur() is Ident || old(self).cur() is Underscore) ==> r is Err,
            old(self).cur() matches TokenV::Ident(n) ==> (old(self).toks()[old(self).at() + 1].0 != TokenV::LBracket
                ==> (r matches Ok(TypeExpr::Named(m)) && m@ == n && final(self).at() == old(self).at() + 1)),
        decreases old(self).rem(), 1nat,
    {
        proof {
            old(self).lemma_facts();
        }
        if matches!(self.peek(), Token::LParen) {
            self.advance();
            let mut types: Vec<TypeExpr> = Vec::new();
            if !self.check(&Token::RParen) {
                loop
                    invariant
                        old(self).moved_on(self),
                        self.at() > old(self).at(),
                        old(self).cur() == TokenV::LParen,
                    decreases self.toks().len() - self.at(),
                {
                    let ghost before = *self;
                    proof {
                        old(self).lemma_rem_less(self);
                    }
                    let t = self.parse_type()?;
                    types.push(t);
                    proof {
                        before.lemma_rem_less(self);
                    }
                    if !self.eat(&Token::Comma) {
                        break;
                    }
                }
            }
            self.expect(Token::RParen)?;
            if self.eat(&Token::Arrow) {
                proof {
                    old(self).lemma_rem_less(self);
                }
                let ret = self.parse_type()?;
                Ok(TypeExpr::Fn(types, Box::new(ret)))
            } else if types.len() == 1 {
                let t = types.pop().unwrap();
                Ok(t)
            } else {
                Ok(TypeExpr::Tuple(types))
            }
        } else if matches!(self.peek(), Token::Ident(..)) {
            let name = match self.advance() {
                Token::Ident(s) => s,
                _ => String::new(),
            };
            if self.check(&Token::LBracket) {
                self.advance();
                let mut args: Vec<TypeExpr> = Vec::new();
                loop
                    invariant
                        old(self).moved_on(self),
                        self.at() > old(self).at(),
                        old(self).cur() is Ident,
                        old(self).toks()[old(self).at() + 1].0 == TokenV::LBracket,
                    decreases self.toks().len() - self.at(),
                {
                    let ghost before = *self;
                    proof {
                        old(self).lemma_rem_less(self);
                    }
                    let t = self.parse_type()?;
                    args.push(t);
                    proof {
                        before.lemma_rem_less(self);
                    }
                    if !self.eat(&Token::Comma) {
                        break;
                    }
                }
                self.expect(Token::RBracket)?;
                Ok(TypeExpr::Generic(name, args))
            } else {
                Ok(TypeExpr::Named(name))
            }
        } else if matches!(self.peek(), Token::Underscore) {
            self.advance();
            Ok(TypeExpr::Infer)
        } else {
            Err(msg_got("expected type, got ", self.peek()))
        }
    }

    /// The binding strengths `(p, p + 1)` of the current token when it is an
    /// infix operator of precedence p.
    fn infix_binding_power(&self) -> (r: Option<(u8, u8)>)
        requires
            self.wf(),
        ensures
            self.cur().precedence() == 0 ==> r is None,
            self.cur().precedence() != 0 ==> r == Some((self.cur().precedence(), (self.cur().precedence() + 1) as u8)),
    {
        let prec = self.peek().precedence();
        if prec == 0 {
            None
        } else {
            Some((prec, prec + 1))
        }
    }

    /// The binary operator of a binary operator token.
    fn token_to_binop(&self, tok: &Token) -> (r: BinOp)
        requires
            tok@.is_binop(),
        ensures
            r == binop_of(tok@),
    {
        match tok {
            Token::Plus => BinOp::Add,
            Token::Minus => BinOp::Sub,
            Token::Star => BinOp::Mul,
            Token::Slash => BinOp::Div,
            Token::Percent => BinOp::Mod,
            Token::EqEq => BinOp::Eq,
            Token::BangEq => BinOp::Neq,
            Token::Lt => BinOp::Lt,
            Token::Gt => BinOp::Gt,
            Token::LtEq => BinOp::Le,
            Token::GtEq => BinOp::Ge,
            Token::AndAnd | Token::And => BinOp::And,
            _ => BinOp::Or,
        }
    }

    /// The assignment operator of an assignment token.
    fn token_to_assignop(&self, tok: &Token) -> (r: AssignOp)
        requires
            tok@.is_assign(),
        ensures
            r == assignop_of(tok@),
            tok@ == TokenV::Eq ==> r == AssignOp::Plain,
            tok@ == TokenV::PlusEq ==> r == AssignOp::Add,
            tok@ == TokenV::MinusEq ==> r == AssignOp::Sub,
            tok@ == TokenV::StarEq ==> r == AssignOp::Mul,
            tok@ == TokenV::SlashEq ==> r == AssignOp::Div,
    {
        match tok {
            Token::Eq => AssignOp::Plain,
            Token::PlusEq => AssignOp::Add,
            Token::MinusEq => AssignOp::Sub,
            Token::StarEq => AssignOp::Mul,
            _ => AssignOp::Div,
        }
    }

    /// The expression a block of statements stands for: `nil` when empty; the
    /// expression itself when it is a single expression statement; an `if`
    /// expression (whose else part is converted the same way) when it is a single
    /// `if` statement; otherwise the block.
    pub fn block_to_expr(&self, stmts: Vec<Stmt>) -> (r: Expr)
        ensures
            stmts@.len() == 0 ==> r == Expr::Nil,
            stmts@.len() == 1 && stmts@[0] is Expr ==> r == stmts@[0]->Expr_0,
            stmts@.len() == 1 && stmts@[0] is If ==> (r matches Expr::If(c, t, e) && *c == stmts@[0]->If_0
                && (*t matches Expr::Block(b) && b == stmts@[0]->If_1) && (e is Some <==> stmts@[0]->If_2 is Some)),
            !(stmts@.len() == 0 || (stmts@.len() == 1 && (stmts@[0] is Expr || stmts@[0] is If))) ==> r == Expr::Block(stmts),
        decreases stmts,
    {
        if stmts.len() == 0 {
            return Expr::Nil;
        }
        if stmts.len() == 1 && (matches!(stmts[0], Stmt::Expr(..)) || matches!(stmts[0], Stmt::If(..))) {
            let mut stmts = stmts;
            let ghost orig = stmts@;
            let last = stmts.pop().unwrap();
            assert(last == orig[0]);
            return match last {
                Stmt::Expr(e) => e,
                Stmt::If(cond, then_body, else_body) => {
                    let else_expr = match else_body {
                        Some(b) => {
                            proof {
                                broadcast use vstd::std_specs::vec::group_vec_axioms;
                                assert(decreases_to!(orig => orig[0]));
                            }
                            Some(Box::new(self.block_to_expr(b)))
                        },
                        None => None,
                    };
                    Expr::If(Box::new(cond), Box::new(Expr::Block(then_body)), else_expr)
                },
                _ => Expr::Nil,
            };
        }
        Expr::Block(stmts)
    }
}

} // verus!
