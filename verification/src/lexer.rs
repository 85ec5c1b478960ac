use vstd::prelude::*;
use crate::text::{push_char, push_str, push_i64, eq_str, chars_of, int_text};

verus! {

/// A lexical token. A float literal keeps its decimal text with the `_` separators removed.
pub enum Token {
    // Keywords
    Fn, Let, Mut, If, Else, Elif, Match, For, While, Loop, Break, Continue, Return, Type, Trait, Impl, Pub, Import, As, Var, Extern, True, False, Nil, In, And, Or, Not, Where, MutKw, Self_,
    IntLiteral(i64),
    FloatLiteral(String),
    StrLiteral(String),
    CharLiteral(char),
    BoolLiteral(bool),
    Ident(String),
    Plus, Minus, Star, Slash, Percent, Eq, EqEq, BangEq, Lt, Gt, LtEq, GtEq, PlusEq, MinusEq, StarEq, SlashEq, Arrow, FatArrow, Pipe, DotDot, AndAnd, OrOr, Bang, LParen, RParen, LBrace, RBrace, LBracket, RBracket, Comma, Colon, Semicolon, Dot, Hash, At, Newline, Eof, Underscore,
}

/// What a token stands for, with its text payloads as character sequences.
pub enum TokenV {
    // Keywords
    Fn, Let, Mut, If, Else, Elif, Match, For, While, Loop, Break, Continue, Return, Type, Trait, Impl, Pub, Import, As, Var, Extern, True, False, Nil, In, And, Or, Not, Where, MutKw, Self_,
    IntLiteral(i64),
    FloatLiteral(Seq<char>),
    StrLiteral(Seq<char>),
    CharLiteral(char),
    BoolLiteral(bool),
    Ident(Seq<char>),
    Plus, Minus, Star, Slash, Percent, Eq, EqEq, BangEq, Lt, Gt, LtEq, GtEq, PlusEq, MinusEq, StarEq, SlashEq, Arrow, FatArrow, Pipe, DotDot, AndAnd, OrOr, Bang, LParen, RParen, LBrace, RBrace, LBracket, RBracket, Comma, Colon, Semicolon, Dot, Hash, At, Newline, Eof, Underscore,
}

impl View for Token {
    type V = TokenV;

    /// The token with its text payloads as character sequences.
    open spec fn view(&self) -> TokenV {
        match self {
            Token::Fn => TokenV::Fn,
            Token::Let => TokenV::Let,
            Token::Mut => TokenV::Mut,
            Token::If => TokenV::If,
            Token::Else => TokenV::Else,
            Token::Elif => TokenV::Elif,
            Token::Match => TokenV::Match,
            Token::For => TokenV::For,
            Token::While => TokenV::While,
            Token::Loop => TokenV::Loop,
            Token::Break => TokenV::Break,
            Token::Continue => TokenV::Continue,
            Token::Return => TokenV::Return,
            Token::Type => TokenV::Type,
            Token::Trait => TokenV::Trait,
            Token::Impl => TokenV::Impl,
            Token::Pub => TokenV::Pub,
            Token::Import => TokenV::Import,
            Token::As => TokenV::As,
            Token::Var => TokenV::Var,
            Token::Extern => TokenV::Extern,
            Token::True => TokenV::True,
            Token::False => TokenV::False,
            Token::Nil => TokenV::Nil,
            Token::In => TokenV::In,
            Token::And => TokenV::And,
            Token::Or => TokenV::Or,
            Token::Not => TokenV::Not,
            Token::Where => TokenV::Where,
            Token::MutKw => TokenV::MutKw,
            Token::Self_ => TokenV::Self_,
            Token::Plus => TokenV::Plus,
            Token::Minus => TokenV::Minus,
            Token::Star => TokenV::Star,
            Token::Slash => TokenV::Slash,
            Token::Percent => TokenV::Percent,
            Token::Eq => TokenV::Eq,
            Token::EqEq => TokenV::EqEq,
            Token::BangEq => TokenV::BangEq,
            Token::Lt => TokenV::Lt,
            Token::Gt => TokenV::Gt,
            Token::LtEq => TokenV::LtEq,
            Token::GtEq => TokenV::GtEq,
            Token::PlusEq => TokenV::PlusEq,
            Token::MinusEq => TokenV::MinusEq,
            Token::StarEq => TokenV::StarEq,
            Token::SlashEq => TokenV::SlashEq,
            Token::Arrow => TokenV::Arrow,
            Token::FatArrow => TokenV::FatArrow,
            Token::Pipe => TokenV::Pipe,
            Token::DotDot => TokenV::DotDot,
            Token::AndAnd => TokenV::AndAnd,
            Token::OrOr => TokenV::OrOr,
            Token::Bang => TokenV::Bang,
            Token::LParen => TokenV::LParen,
            Token::RParen => TokenV::RParen,
            Token::LBrace => TokenV::LBrace,
            Token::RBrace => TokenV::RBrace,
            Token::LBracket => TokenV::LBracket,
            Token::RBracket => TokenV::RBracket,
            Token::Comma => TokenV::Comma,
            Token::Colon => TokenV::Colon,
            Token::Semicolon => TokenV::Semicolon,
            Token::Dot => TokenV::Dot,
            Token::Hash => TokenV::Hash,
            Token::At => TokenV::At,
            Token::Newline => TokenV::Newline,
            Token::Eof => TokenV::Eof,
            Token::Underscore => TokenV::Underscore,
            Token::IntLiteral(x) => TokenV::IntLiteral(*x),
            Token::FloatLiteral(s) => TokenV::FloatLiteral(s@),
            Token::StrLiteral(s) => TokenV::StrLiteral(s@),
            Token::CharLiteral(x) => TokenV::CharLiteral(*x),
            Token::BoolLiteral(x) => TokenV::BoolLiteral(*x),
            Token::Ident(s) => TokenV::Ident(s@),
        }
    }
}

impl TokenV {
    /// A number for each variant, distinct between variants.
    pub open spec fn tag(&self) -> int {
        match self {
            TokenV::Fn => 0,
            TokenV::Let => 1,
            TokenV::Mut => 2,
            TokenV::If => 3,
            TokenV::Else => 4,
            TokenV::Elif => 5,
            TokenV::Match => 6,
            TokenV::For => 7,
            TokenV::While => 8,
            TokenV::Loop => 9,
            TokenV::Break => 10,
            TokenV::Continue => 11,
            TokenV::Return => 12,
            TokenV::Type => 13,
            TokenV::Trait => 14,
            TokenV::Impl => 15,
            TokenV::Pub => 16,
            TokenV::Import => 17,
            TokenV::As => 18,
            TokenV::Var => 19,
            TokenV::Extern => 20,
            TokenV::True => 21,
            TokenV::False => 22,
            TokenV::Nil => 23,
            TokenV::In => 24,
            TokenV::And => 25,
            TokenV::Or => 26,
            TokenV::Not => 27,
            TokenV::Where => 28,
            TokenV::MutKw => 29,
            TokenV::Self_ => 30,
            TokenV::IntLiteral(..) => 31,
            TokenV::FloatLiteral(..) => 32,
            TokenV::StrLiteral(..) => 33,
            TokenV::CharLiteral(..) => 34,
            TokenV::BoolLiteral(..) => 35,
            TokenV::Ident(..) => 36,
            TokenV::Plus => 37,
            TokenV::Minus => 38,
            TokenV::Star => 39,
            TokenV::Slash => 40,
            TokenV::Percent => 41,
            TokenV::Eq => 42,
            TokenV::EqEq => 43,
            TokenV::BangEq => 44,
            TokenV::Lt => 45,
            TokenV::Gt => 46,
            TokenV::LtEq => 47,
            TokenV::GtEq => 48,
            TokenV::PlusEq => 49,
            TokenV::MinusEq => 50,
            TokenV::StarEq => 51,
            TokenV::SlashEq => 52,
            TokenV::Arrow => 53,
            TokenV::FatArrow => 54,
            TokenV::Pipe => 55,
            TokenV::DotDot => 56,
            TokenV::AndAnd => 57,
            TokenV::OrOr => 58,
            TokenV::Bang => 59,
            TokenV::LParen => 60,
            TokenV::RParen => 61,
            TokenV::LBrace => 62,
            TokenV::RBrace => 63,
            TokenV::LBracket => 64,
            TokenV::RBracket => 65,
            TokenV::Comma => 66,
            TokenV::Colon => 67,
            TokenV::Semicolon => 68,
            TokenV::Dot => 69,
            TokenV::Hash => 70,
            TokenV::At => 71,
            TokenV::Newline => 72,
            TokenV::Eof => 73,
            TokenV::Underscore => 74,
        }
    }

    /// Whether this is a binary operator token.
    pub open spec fn is_binop(&self) -> bool {
        match self {
            TokenV::Plus | TokenV::Minus | TokenV::Star | TokenV::Slash | TokenV::Percent
            | TokenV::EqEq | TokenV::BangEq | TokenV::Lt | TokenV::Gt | TokenV::LtEq
            | TokenV::GtEq | TokenV::AndAnd | TokenV::OrOr | TokenV::And | TokenV::Or => true,
            _ => false,
        }
    }

    /// Whether this is an assignment token.
    pub open spec fn is_assign(&self) -> bool {
        match self {
            TokenV::Eq | TokenV::PlusEq | TokenV::MinusEq | TokenV::StarEq | TokenV::SlashEq => true,
            _ => false,
        }
    }

    /// The binding strength of an infix operator; 0 for every other token.
    pub open spec fn precedence(&self) -> u8 {
        match self {
            TokenV::OrOr | TokenV::Or => 1,
            TokenV::AndAnd | TokenV::And => 2,
            TokenV::EqEq | TokenV::BangEq | TokenV::Lt | TokenV::Gt | TokenV::LtEq | TokenV::GtEq => 3,
            TokenV::Plus | TokenV::Minus => 4,
            TokenV::Star | TokenV::Slash | TokenV::Percent => 5,
            TokenV::Pipe => 6,
            _ => 0,
        }
    }
}

impl Token {
    /// The variant number of the token.
    pub fn tag(&self) -> (r: u8)
        ensures
            r as int == self@.tag(),
    {
        match self {
            Token::Fn => 0,
            Token::Let => 1,
            Token::Mut => 2,
            Token::If => 3,
            Token::Else => 4,
            Token::Elif => 5,
            Token::Match => 6,
            Token::For => 7,
            Token::While => 8,
            Token::Loop => 9,
            Token::Break => 10,
            Token::Continue => 11,
            Token::Return => 12,
            Token::Type => 13,
            Token::Trait => 14,
            Token::Impl => 15,
            Token::Pub => 16,
            Token::Import => 17,
            Token::As => 18,
            Token::Var => 19,
            Token::Extern => 20,
            Token::True => 21,
            Token::False => 22,
            Token::Nil => 23,
            Token::In => 24,
            Token::And => 25,
            Token::Or => 26,
            Token::Not => 27,
            Token::Where => 28,
            Token::MutKw => 29,
            Token::Self_ => 30,
            Token::IntLiteral(..) => 31,
            Token::FloatLiteral(..) => 32,
            Token::StrLiteral(..) => 33,
            Token::CharLiteral(..) => 34,
            Token::BoolLiteral(..) => 35,
            Token::Ident(..) => 36,
            Token::Plus => 37,
            Token::Minus => 38,
            Token::Star => 39,
            Token::Slash => 40,
            Token::Percent => 41,
            Token::Eq => 42,
            Token::EqEq => 43,
            Token::BangEq => 44,
            Token::Lt => 45,
            Token::Gt => 46,
            Token::LtEq => 47,
            Token::GtEq => 48,
            Token::PlusEq => 49,
            Token::MinusEq => 50,
            Token::StarEq => 51,
            Token::SlashEq => 52,
            Token::Arrow => 53,
            Token::FatArrow => 54,
            Token::Pipe => 55,
            Token::DotDot => 56,
            Token::AndAnd => 57,
            Token::OrOr => 58,
            Token::Bang => 59,
            Token::LParen => 60,
            Token::RParen => 61,
            Token::LBrace => 62,
            Token::RBrace => 63,
            Token::LBracket => 64,
            Token::RBracket => 65,
            Token::Comma => 66,
            Token::Colon => 67,
            Token::Semicolon => 68,
            Token::Dot => 69,
            Token::Hash => 70,
            Token::At => 71,
            Token::Newline => 72,
            Token::Eof => 73,
            Token::Underscore => 74,
        }
    }

    /// A copy of the token.
    pub fn copy(&self) -> (r: Token)
        ensures
            r@ == self@,
    {
        match self {
            Token::Fn => Token::Fn,
            Token::Let => Token::Let,
            Token::Mut => Token::Mut,
            Token::If => Token::If,
            Token::Else => Token::Else,
            Token::Elif => Token::Elif,
            Token::Match => Token::Match,
            Token::For => Token::For,
            Token::While => Token::While,
            Token::Loop => Token::Loop,
            Token::Break => Token::Break,
            Token::Continue => Token::Continue,
            Token::Return => Token::Return,
            Token::Type => Token::Type,
            Token::Trait => Token::Trait,
            Token::Impl => Token::Impl,
            Token::Pub => Token::Pub,
            Token::Import => Token::Import,
            Token::As => Token::As,
            Token::Var => Token::Var,
            Token::Extern => Token::Extern,
            Token::True => Token::True,
            Token::False => Token::False,
            Token::Nil => Token::Nil,
            Token::In => Token::In,
            Token::And => Token::And,
            Token::Or => Token::Or,
            Token::Not => Token::Not,
            Token::Where => Token::Where,
            Token::MutKw => Token::MutKw,
            Token::Self_ => Token::Self_,
            Token::Plus => Token::Plus,
            Token::Minus => Token::Minus,
            Token::Star => Token::Star,
            Token::Slash => Token::Slash,
            Token::Percent => Token::Percent,
            Token::Eq => Token::Eq,
            Token::EqEq => Token::EqEq,
            Token::BangEq => Token::BangEq,
            Token::Lt => Token::Lt,
            Token::Gt => Token::Gt,
            Token::LtEq => Token::LtEq,
            Token::GtEq => Token::GtEq,
            Token::PlusEq => Token::PlusEq,
            Token::MinusEq => Token::MinusEq,
            Token::StarEq => Token::StarEq,
            Token::SlashEq => Token::SlashEq,
            Token::Arrow => Token::Arrow,
            Token::FatArrow => Token::FatArrow,
            Token::Pipe => Token::Pipe,
            Token::DotDot => Token::DotDot,
            Token::AndAnd => Token::AndAnd,
            Token::OrOr => Token::OrOr,
            Token::Bang => Token::Bang,
            Token::LParen => Token::LParen,
            Token::RParen => Token::RParen,
            Token::LBrace => Token::LBrace,
            Token::RBrace => Token::RBrace,
            Token::LBracket => Token::LBracket,
            Token::RBracket => Token::RBracket,
            Token::Comma => Token::Comma,
            Token::Colon => Token::Colon,
            Token::Semicolon => Token::Semicolon,
            Token::Dot => Token::Dot,
            Token::Hash => Token::Hash,
            Token::At => Token::At,
            Token::Newline => Token::Newline,
            Token::Eof => Token::Eof,
            Token::Underscore => Token::Underscore,
            Token::IntLiteral(x) => Token::IntLiteral(*x),
            Token::FloatLiteral(s) => Token::FloatLiteral(s.clone()),
            Token::StrLiteral(s) => Token::StrLiteral(s.clone()),
            Token::CharLiteral(x) => Token::CharLiteral(*x),
            Token::BoolLiteral(x) => Token::BoolLiteral(*x),
            Token::Ident(s) => Token::Ident(s.clone()),
        }
    }

    /// Whether two tokens are the same variant with the same payload.
    pub fn same(&self, other: &Token) -> (r: bool)
        ensures
            r == (self@ == other@),
    {
        match (self, other) {
            (Token::IntLiteral(a), Token::IntLiteral(b)) => *a == *b,
            (Token::FloatLiteral(a), Token::FloatLiteral(b)) => *a == *b,
            (Token::StrLiteral(a), Token::StrLiteral(b)) => *a == *b,
            (Token::CharLiteral(a), Token::CharLiteral(b)) => *a == *b,
            (Token::BoolLiteral(a), Token::BoolLiteral(b)) => *a == *b,
            (Token::Ident(a), Token::Ident(b)) => *a == *b,
            _ => {
                let t1 = self.tag();
                let t2 = other.tag();
                t1 == t2 && !matches!(self, Token::IntLiteral(..) | Token::FloatLiteral(..)
                    | Token::StrLiteral(..) | Token::CharLiteral(..) | Token::BoolLiteral(..)
                    | Token::Ident(..))
            },
        }
    }

    /// Whether the token is a binary operator.
    pub fn is_binop(&self) -> (r: bool)
        ensures
            r == self@.is_binop(),
    {
        matches!(self, Token::Plus | Token::Minus | Token::Star | Token::Slash
            | Token::Percent | Token::EqEq | Token::BangEq
            | Token::Lt | Token::Gt | Token::LtEq | Token::GtEq
            | Token::AndAnd | Token::OrOr | Token::And | Token::Or)
    }

    /// Whether the token is `=`, `+=`, `-=`, `*=` or `/=`.
    pub fn is_assign(&self) -> (r: bool)
        ensures
            r == self@.is_assign(),
    {
        matches!(self, Token::Eq | Token::PlusEq | Token::MinusEq
            | Token::StarEq | Token::SlashEq)
    }

    /// The binding strength of an infix operator, from 1 (`||`) to 6 (`|>`); 0 otherwise.
    pub fn precedence(&self) -> (r: u8)
        ensures
            r == self@.precedence(),
    {
        match self {
            Token::OrOr | Token::Or => 1,
            Token::AndAnd | Token::And => 2,
            Token::EqEq | Token::BangEq | Token::Lt | Token::Gt | Token::LtEq | Token::GtEq => 3,
            Token::Plus | Token::Minus => 4,
            Token::Star | Token::Slash | Token::Percent => 5,
            Token::Pipe => 6,
            _ => 0,
        }
    }
}

} // verus!

verus! {

/// An ASCII letter: identifiers start with one of these (or `_`).
pub open spec fn ascii_letter(c: char) -> bool {
    ('a' <= c && c <= 'z') || ('A' <= c && c <= 'Z')
}

/// An ASCII letter or decimal digit: identifiers continue with these (or `_`).
pub open spec fn ascii_alnum(c: char) -> bool {
    ascii_letter(c) || ('0' <= c && c <= '9')
}

/// Whether `c` is an ASCII letter.
fn is_ascii_letter(c: char) -> (r: bool)
    ensures
        r == ascii_letter(c),
{
    ('a' <= c && c <= 'z') || ('A' <= c && c <= 'Z')
}

/// Whether `c` is an ASCII letter or decimal digit.
fn is_ascii_alnum(c: char) -> (r: bool)
    ensures
        r == ascii_alnum(c),
{
    is_ascii_letter(c) || ('0' <= c && c <= '9')
}

/// Where the lexer stands: the index of the next character, and its line and column.
pub struct LexPos {
    pub pos: int,
    pub line: int,
    pub col: int,
}

/// The position at the start of the input.
pub open spec fn start_pos() -> LexPos {
    LexPos { pos: 0, line: 1, col: 1 }
}

/// The character at the position, if any.
pub open spec fn at(s: Seq<char>, p: LexPos) -> Option<char> {
    if 0 <= p.pos < s.len() {
        Some(s[p.pos])
    } else {
        None
    }
}

/// The position after consuming one character: a newline moves to column 1 of
/// the next line, any other character one column right. At the end nothing moves.
pub open spec fn step(s: Seq<char>, p: LexPos) -> LexPos {
    if 0 <= p.pos < s.len() {
        if s[p.pos] == '\n' {
            LexPos { pos: p.pos + 1, line: p.line + 1, col: 1 }
        } else {
            LexPos { pos: p.pos + 1, line: p.line, col: p.col + 1 }
        }
    } else {
        p
    }
}

/// Blanks between tokens: space, tab and carriage return.
pub open spec fn is_blank(c: char) -> bool {
    c == ' ' || c == '\t' || c == '\r'
}

/// Whether a character is an ASCII decimal digit.
pub open spec fn is_digit(c: char) -> bool {
    '0' <= c && c <= '9'
}

/// The position after the blanks that start at `p`.
pub open spec fn skip_blank(s: Seq<char>, p: LexPos) -> LexPos
    decreases s.len() - p.pos,
{
    if 0 <= p.pos < s.len() && is_blank(s[p.pos]) {
        skip_blank(s, step(s, p))
    } else {
        p
    }
}

/// The position of the next newline (or the end), from `p`.
pub open spec fn skip_line(s: Seq<char>, p: LexPos) -> LexPos
    decreases s.len() - p.pos,
{
    if 0 <= p.pos < s.len() && s[p.pos] != '\n' {
        skip_line(s, step(s, p))
    } else {
        p
    }
}

/// The position after the newlines that start at `p`.
pub open spec fn skip_newlines(s: Seq<char>, p: LexPos) -> LexPos
    decreases s.len() - p.pos,
{
    if 0 <= p.pos < s.len() && s[p.pos] == '\n' {
        skip_newlines(s, step(s, p))
    } else {
        p
    }
}

/// The rest of a block comment from `p`: the position after the first `*/`,
/// or `None` with the end position when the input ends first.
pub open spec fn skip_block(s: Seq<char>, p: LexPos) -> (bool, LexPos)
    decreases s.len() - p.pos,
{
    if 0 <= p.pos < s.len() {
        let r = step(s, p);
        if s[p.pos] == '*' && at(s, r) == Some('/') {
            (true, step(s, r))
        } else {
            skip_block(s, r)
        }
    } else {
        (false, p)
    }
}

/// What an escape `\e` stands for inside a string literal.
pub open spec fn string_escape(e: char) -> Seq<char> {
    if e == 'n' {
        seq!['\n']
    } else if e == 't' {
        seq!['\t']
    } else if e == 'r' {
        seq!['\r']
    } else if e == '\\' {
        seq!['\\']
    } else if e == '"' {
        seq!['"']
    } else if e == '\'' {
        seq!['\'']
    } else if e == '{' {
        seq!['{']
    } else {
        seq!['\\', e]
    }
}

/// The character that marks where an interpolation `{` stood in a string literal.
pub open spec fn interp_mark() -> char {
    '\x01'
}

/// The rest of a string literal from `p`, up to the closing `delim`, with `acc`
/// read so far: escapes are decoded and each unescaped `{` becomes the mark.
pub open spec fn read_str(s: Seq<char>, p: LexPos, delim: char, acc: Seq<char>) -> (Result<Seq<char>, Seq<char>>, LexPos)
    decreases s.len() - p.pos,
{
    if 0 <= p.pos < s.len() {
        let c = s[p.pos];
        let r = step(s, p);
        if c == delim {
            (Ok(acc), r)
        } else if c == '\\' {
            if 0 <= r.pos < s.len() {
                read_str(s, step(s, r), delim, acc + string_escape(s[r.pos]))
            } else {
                (Err("unterminated escape sequence"@), r)
            }
        } else if c == '{' {
            read_str(s, r, delim, acc.push(interp_mark()))
        } else {
            read_str(s, r, delim, acc.push(c))
        }
    } else {
        (Err("unterminated string literal"@), p)
    }
}

/// In a string literal each of the escapes `\n`, `\t`, `\r`, `\\`, `\"`, `\'`
/// and `\{` stands for exactly one character: a line break, a tab, a carriage
/// return, a backslash, a double quote, a single quote and a plain brace; any
/// other escape keeps its backslash. Reading on from an escape is reading the
/// rest of the literal with those characters added.
pub proof fn lemma_string_escapes(s: Seq<char>, p: LexPos, delim: char, acc: Seq<char>)
    requires
        0 <= p.pos,
        p.pos + 1 < s.len(),
        s[p.pos] == '\\',
        delim != '\\',
    ensures
        ({
            let rest = step(s, step(s, p));
            let e = s[p.pos + 1];
            &&& e == 'n' ==> read_str(s, p, delim, acc) == read_str(s, rest, delim, acc.push('\n'))
            &&& e == 't' ==> read_str(s, p, delim, acc) == read_str(s, rest, delim, acc.push('\t'))
            &&& e == 'r' ==> read_str(s, p, delim, acc) == read_str(s, rest, delim, acc.push('\r'))
            &&& e == '\\' ==> read_str(s, p, delim, acc) == read_str(s, rest, delim, acc.push('\\'))
            &&& e == '"' ==> read_str(s, p, delim, acc) == read_str(s, rest, delim, acc.push('"'))
            &&& e == '\'' ==> read_str(s, p, delim, acc) == read_str(s, rest, delim, acc.push('\''))
            &&& e == '{' ==> read_str(s, p, delim, acc) == read_str(s, rest, delim, acc.push('{'))
            &&& !(e == 'n' || e == 't' || e == 'r' || e == '\\' || e == '"' || e == '\'' || e == '{') ==>
                read_str(s, p, delim, acc) == read_str(s, rest, delim, acc.push('\\').push(e))
        }),
{
    let e = s[p.pos + 1];
    assert(acc + seq![e] =~= acc.push(e));
    assert(acc + seq!['\n'] =~= acc.push('\n'));
    assert(acc + seq!['\t'] =~= acc.push('\t'));
    assert(acc + seq!['\r'] =~= acc.push('\r'));
    assert(acc + seq!['\\', e] =~= acc.push('\\').push(e));
}

/// The rest of a number from `p`, with `text` read so far: digits and `_`, and
/// a `.` that is not the start of `..`, which makes it a float.
pub open spec fn scan_number(s: Seq<char>, p: LexPos, text: Seq<char>, is_float: bool) -> (Seq<char>, bool, LexPos)
    decreases s.len() - p.pos,
{
    if 0 <= p.pos < s.len() {
        let c = s[p.pos];
        if is_digit(c) || c == '_' {
            scan_number(s, step(s, p), text.push(c), is_float)
        } else if c == '.' {
            if p.pos + 1 < s.len() && s[p.pos + 1] == '.' {
                (text, is_float, p)
            } else {
                scan_number(s, step(s, p), text.push(c), true)
            }
        } else {
            (text, is_float, p)
        }
    } else {
        (text, is_float, p)
    }
}

/// The text with every `_` removed.
pub open spec fn drop_underscores(t: Seq<char>) -> Seq<char>
    decreases t.len(),
{
    if t.len() == 0 {
        t
    } else if t.last() == '_' {
        drop_underscores(t.drop_last())
    } else {
        drop_underscores(t.drop_last()).push(t.last())
    }
}

/// Whether every character is a decimal digit.
pub open spec fn all_digits(t: Seq<char>) -> bool {
    forall|i: int| 0 <= i < t.len() ==> #[trigger] is_digit(t[i])
}

/// The number that a string of decimal digits denotes.
pub open spec fn digits_value(t: Seq<char>) -> int
    decreases t.len(),
{
    if t.len() == 0 {
        0
    } else {
        digits_value(t.drop_last()) * 10 + (t.last() as int - 48)
    }
}

/// The `i64` that the text parses to, and 0 when it does not parse (empty,
/// not all digits, or too large).
pub open spec fn parse_int(t: Seq<char>) -> i64 {
    if t.len() > 0 && all_digits(t) && digits_value(t) <= i64::MAX {
        digits_value(t) as i64
    } else {
        0
    }
}

/// The token for a number whose text is `text`.
pub open spec fn number_token(text: Seq<char>, is_float: bool) -> TokenV {
    if is_float {
        TokenV::FloatLiteral(drop_underscores(text))
    } else {
        TokenV::IntLiteral(parse_int(drop_underscores(text)))
    }
}

/// The rest of a word from `p`: letters, digits and `_`.
pub open spec fn scan_word(s: Seq<char>, p: LexPos, text: Seq<char>) -> (Seq<char>, LexPos)
    decreases s.len() - p.pos,
{
    if 0 <= p.pos < s.len() && (ascii_alnum(s[p.pos]) || s[p.pos] == '_') {
        scan_word(s, step(s, p), text.push(s[p.pos]))
    } else {
        (text, p)
    }
}

/// The token for a word: a keyword, or an identifier.
pub open spec fn word_token(t: Seq<char>) -> TokenV {
    if t == "fn"@ { TokenV::Fn }
    else if t == "let"@ { TokenV::Let }
    else if t == "mut"@ { TokenV::MutKw }
    else if t == "if"@ { TokenV::If }
    else if t == "else"@ { TokenV::Else }
    else if t == "match"@ { TokenV::Match }
    else if t == "for"@ { TokenV::For }
    else if t == "while"@ { TokenV::While }
    else if t == "loop"@ { TokenV::Loop }
    else if t == "break"@ { TokenV::Break }
    else if t == "continue"@ { TokenV::Continue }
    else if t == "return"@ { TokenV::Return }
    else if t == "type"@ { TokenV::Type }
    else if t == "trait"@ { TokenV::Trait }
    else if t == "impl"@ { TokenV::Impl }
    else if t == "pub"@ { TokenV::Pub }
    else if t == "import"@ { TokenV::Import }
    else if t == "as"@ { TokenV::As }
    else if t == "var"@ { TokenV::Var }
    else if t == "extern"@ { TokenV::Extern }
    else if t == "true"@ { TokenV::True }
    else if t == "false"@ { TokenV::False }
    else if t == "nil"@ { TokenV::Nil }
    else if t == "in"@ { TokenV::In }
    else if t == "and"@ { TokenV::And }
    else if t == "or"@ { TokenV::Or }
    else if t == "not"@ { TokenV::Not }
    else if t == "elif"@ { TokenV::Elif }
    else if t == "self"@ { TokenV::Self_ }
    else if t == "where"@ { TokenV::Where }
    else { TokenV::Ident(t) }
}

/// The character that an escape `\e` stands for in a char literal.
pub open spec fn char_escape(e: char) -> Option<char> {
    if e == 'n' {
        Some('\n')
    } else if e == 't' {
        Some('\t')
    } else if e == 'r' {
        Some('\r')
    } else if e == '\\' {
        Some('\\')
    } else if e == '\'' {
        Some('\'')
    } else {
        None
    }
}

/// The rest of a char literal after its opening quote, at `r`.
pub open spec fn char_literal(s: Seq<char>, r: LexPos) -> (Result<TokenV, Seq<char>>, LexPos) {
    match at(s, r) {
        None => (Err("empty char literal"@), r),
        Some(c) => {
            let r2 = step(s, r);
            if c != '\\' {
                if at(s, r2) == Some('\'') {
                    (Ok(TokenV::CharLiteral(c)), step(s, r2))
                } else {
                    (Err("unterminated char literal"@), r2)
                }
            } else {
                match at(s, r2) {
                    None => (Err("unterminated char literal"@), r2),
                    Some(e) => {
                        let r3 = step(s, r2);
                        match char_escape(e) {
                            None => (Err("invalid escape \\"@.push(e)), r3),
                            Some(ch) => if at(s, r3) == Some('\'') {
                                (Ok(TokenV::CharLiteral(ch)), step(s, r3))
                            } else {
                                (Err("unterminated char literal"@), r3)
                            },
                        }
                    },
                }
            }
        },
    }
}

/// A token of one character, or of two when the second is `second`.
pub open spec fn one_or_two(s: Seq<char>, r: LexPos, second: char, two: TokenV, one: TokenV) -> (Result<TokenV, Seq<char>>, LexPos) {
    if at(s, r) == Some(second) {
        (Ok(two), step(s, r))
    } else {
        (Ok(one), r)
    }
}

/// The token for an operator or delimiter character `c`, whose next position is `r`;
/// `None` when `c` is none of them.
pub open spec fn punct(s: Seq<char>, c: char, r: LexPos) -> Option<(Result<TokenV, Seq<char>>, LexPos)> {
    let n = at(s, r);
    if c == '+' {
        Some(one_or_two(s, r, '=', TokenV::PlusEq, TokenV::Plus))
    } else if c == '-' {
        if n == Some('=') {
            Some((Ok(TokenV::MinusEq), step(s, r)))
        } else if n == Some('>') {
            Some((Ok(TokenV::Arrow), step(s, r)))
        } else {
            Some((Ok(TokenV::Minus), r))
        }
    } else if c == '*' {
        Some(one_or_two(s, r, '=', TokenV::StarEq, TokenV::Star))
    } else if c == '/' {
        Some(one_or_two(s, r, '=', TokenV::SlashEq, TokenV::Slash))
    } else if c == '%' {
        Some((Ok(TokenV::Percent), r))
    } else if c == '=' {
        if n == Some('=') {
            Some((Ok(TokenV::EqEq), step(s, r)))
        } else if n == Some('>') {
            Some((Ok(TokenV::FatArrow), step(s, r)))
        } else {
            Some((Ok(TokenV::Eq), r))
        }
    } else if c == '!' {
        Some(one_or_two(s, r, '=', TokenV::BangEq, TokenV::Bang))
    } else if c == '<' {
        Some(one_or_two(s, r, '=', TokenV::LtEq, TokenV::Lt))
    } else if c == '>' {
        Some(one_or_two(s, r, '=', TokenV::GtEq, TokenV::Gt))
    } else if c == '|' {
        if n == Some('|') {
            Some((Ok(TokenV::OrOr), step(s, r)))
        } else if n == Some('>') {
            Some((Ok(TokenV::Pipe), step(s, r)))
        } else {
            Some((Ok(TokenV::Pipe), r))
        }
    } else if c == '&' {
        Some(one_or_two(s, r, '&', TokenV::AndAnd, TokenV::And))
    } else if c == '(' {
        Some((Ok(TokenV::LParen), r))
    } else if c == ')' {
        Some((Ok(TokenV::RParen), r))
    } else if c == '{' {
        Some((Ok(TokenV::LBrace), r))
    } else if c == '}' {
        Some((Ok(TokenV::RBrace), r))
    } else if c == '[' {
        Some((Ok(TokenV::LBracket), r))
    } else if c == ']' {
        Some((Ok(TokenV::RBracket), r))
    } else if c == ',' {
        Some((Ok(TokenV::Comma), r))
    } else if c == ':' {
        if n == Some(':') {
            Some((Err(":: operator not supported, use . or module.path"@), r))
        } else {
            Some((Ok(TokenV::Colon), r))
        }
    } else if c == ';' {
        Some((Ok(TokenV::Semicolon), r))
    } else if c == '.' {
        if n == Some('.') {
            let r2 = step(s, r);
            if at(s, r2) == Some('=') {
                Some((Err("..= is not supported, use .."@), r2))
            } else {
                Some((Ok(TokenV::DotDot), r2))
            }
        } else {
            Some((Ok(TokenV::Dot), r))
        }
    } else if c == '#' {
        Some((Ok(TokenV::Hash), r))
    } else if c == '@' {
        Some((Ok(TokenV::At), r))
    } else {
        None
    }
}

/// The next token from `p` and the position after it; comments and blanks are
/// skipped, a run of newlines is one `Newline` token, and at the end of the
/// input the token is `Eof`. A word starts with a letter or `_`; a `_` that
/// no letter, digit or `_` follows is the wildcard token `Underscore`.
pub open spec fn lex_next(s: Seq<char>, p: LexPos) -> (Result<TokenV, Seq<char>>, LexPos)
    decreases s.len() - p.pos,
{
    let q = skip_blank(s, p);
    if !(0 <= q.pos < s.len()) {
        (Ok(TokenV::Eof), q)
    } else {
        let c = s[q.pos];
        let r = step(s, q);
        if c == '\n' {
            (Ok(TokenV::Newline), skip_newlines(s, r))
        } else if c == '/' && at(s, r) == Some('/') {
            proof {
                if p.pos >= 0 {
                    lemma_skip_blank_forward(s, p);
                } else {
                    assert(skip_blank(s, p) == p);
                }
                assert(q.pos >= p.pos);
                assert(r.pos == q.pos + 1);
                lemma_skip_line_forward(s, r);
                assert(skip_line(s, r).pos > p.pos);
            }
            lex_next(s, skip_line(s, r))
        } else if c == '/' && at(s, r) == Some('*') {
            let b = skip_block(s, step(s, r));
            if b.0 {
                proof {
                    if p.pos >= 0 {
                        lemma_skip_blank_forward(s, p);
                    } else {
                        assert(skip_blank(s, p) == p);
                    }
                    assert(q.pos >= p.pos);
                    assert(r.pos == q.pos + 1);
                    lemma_skip_block_forward(s, step(s, r));
                    assert(b.1.pos > p.pos);
                }
                lex_next(s, b.1)
            } else {
                (Err("unterminated block comment"@), b.1)
            }
        } else if punct(s, c, r) is Some {
            punct(s, c, r)->0
        } else if c == '"' {
            let rs = read_str(s, r, '"', Seq::empty());
            match rs.0 {
                Ok(t) => (Ok(TokenV::StrLiteral(t)), rs.1),
                Err(e) => (Err(e), rs.1),
            }
        } else if c == '\'' {
            char_literal(s, r)
        } else if is_digit(c) {
            let n = scan_number(s, r, seq![c], false);
            (Ok(number_token(n.0, n.1)), n.2)
        } else if ascii_letter(c) {
            let w = scan_word(s, r, seq![c]);
            (Ok(word_token(w.0)), w.1)
        } else if c == '_' {
            if 0 <= r.pos < s.len() && (ascii_alnum(s[r.pos]) || s[r.pos] == '_') {
                let w = scan_word(s, r, seq![c]);
                (Ok(word_token(w.0)), w.1)
            } else {
                (Ok(TokenV::Underscore), r)
            }
        } else {
            (Err("unexpected character '"@.push(c) + "'"@), r)
        }
    }
}

/// How many line breaks a text holds.
pub open spec fn newlines(t: Seq<char>) -> nat
    decreases t.len(),
{
    if t.len() == 0 {
        0
    } else {
        newlines(t.drop_last()) + if t.last() == '\n' { 1nat } else { 0nat }
    }
}

/// A position that a lexer of `s` can stand at: its line is one more than
/// the line breaks before it.
pub open spec fn pos_ok(s: Seq<char>, p: LexPos) -> bool {
    &&& 0 <= p.pos <= s.len()
    &&& 1 <= p.line <= p.pos + 1
    &&& 1 <= p.col <= p.pos + 1
    &&& p.line == 1 + newlines(s.take(p.pos))
}

/// One step stays a valid position and moves forward by one character, unless at the end.
pub proof fn lemma_step(s: Seq<char>, p: LexPos)
    requires
        pos_ok(s, p),
    ensures
        pos_ok(s, step(s, p)),
        step(s, p).pos >= p.pos,
        p.pos < s.len() ==> step(s, p).pos == p.pos + 1,
{
    if 0 <= p.pos < s.len() {
        assert(s.take(p.pos + 1).drop_last() =~= s.take(p.pos));
        assert(s.take(p.pos + 1).last() == s[p.pos]);
    }
}

/// Skipping blanks moves forward, within the input.
pub proof fn lemma_skip_blank_forward(s: Seq<char>, p: LexPos)
    requires
        0 <= p.pos,
    ensures
        skip_blank(s, p).pos >= p.pos,
        p.pos <= s.len() ==> skip_blank(s, p).pos <= s.len(),
        pos_ok(s, p) ==> pos_ok(s, skip_blank(s, p)),
    decreases s.len() - p.pos,
{
    if 0 <= p.pos < s.len() && is_blank(s[p.pos]) {
        if pos_ok(s, p) {
            lemma_step(s, p);
        }
        lemma_skip_blank_forward(s, step(s, p));
    }
}

/// Skipping a line comment moves forward, within the input.
pub proof fn lemma_skip_line_forward(s: Seq<char>, p: LexPos)
    requires
        0 <= p.pos,
    ensures
        skip_line(s, p).pos >= p.pos,
        p.pos <= s.len() ==> skip_line(s, p).pos <= s.len(),
        pos_ok(s, p) ==> pos_ok(s, skip_line(s, p)),
    decreases s.len() - p.pos,
{
    if 0 <= p.pos < s.len() && s[p.pos] != '\n' {
        if pos_ok(s, p) {
            lemma_step(s, p);
        }
        lemma_skip_line_forward(s, step(s, p));
    }
}

/// Skipping a block comment moves forward, within the input.
pub proof fn lemma_skip_block_forward(s: Seq<char>, p: LexPos)
    requires
        0 <= p.pos,
    ensures
        skip_block(s, p).1.pos >= p.pos,
        p.pos <= s.len() ==> skip_block(s, p).1.pos <= s.len(),
        pos_ok(s, p) ==> pos_ok(s, skip_block(s, p).1),
    decreases s.len() - p.pos,
{
    if 0 <= p.pos < s.len() {
        let r = step(s, p);
        if pos_ok(s, p) {
            lemma_step(s, p);
            lemma_step(s, r);
        }
        if s[p.pos] == '*' && at(s, r) == Some('/') {
        } else {
            lemma_skip_block_forward(s, r);
        }
    }
}

/// Whether a lexing result is what `t` views as.
pub open spec fn tok_result(r: Result<Token, String>) -> Result<TokenV, Seq<char>> {
    match r {
        Ok(t) => Ok(t@),
        Err(e) => Err(e@),
    }
}

/// The tokens of `s` from `p` on, each with the line and column where the lexer
/// stood after reading it; the list ends with `Eof`.
pub open spec fn lex_all(s: Seq<char>, p: LexPos) -> Result<Seq<(TokenV, int, int)>, Seq<char>>
    decreases s.len() - p.pos,
{
    let n = lex_next(s, p);
    let q = n.1;
    match n.0 {
        Err(e) => Err(e),
        Ok(t) => {
            if t == TokenV::Eof {
                Ok(seq![(t, q.line, q.col)])
            } else if pos_ok(s, p) {
                proof {
                    lemma_lex_next_forward(s, p);
                }
                match lex_all(s, q) {
                    Ok(rest) => Ok(seq![(t, q.line, q.col)] + rest),
                    Err(e) => Err(e),
                }
            } else {
                Err(Seq::empty())
            }
        },
    }
}

/// The view of a token list.
pub open spec fn token_list(v: Seq<(Token, usize, usize)>) -> Seq<(TokenV, int, int)> {
    Seq::new(v.len(), |i: int| (v[i].0@, v[i].1 as int, v[i].2 as int))
}

/// Reading a string literal moves forward to a valid position.
pub proof fn lemma_read_str_forward(s: Seq<char>, p: LexPos, delim: char, acc: Seq<char>)
    requires
        pos_ok(s, p),
    ensures
        pos_ok(s, read_str(s, p, delim, acc).1),
        read_str(s, p, delim, acc).1.pos >= p.pos,
    decreases s.len() - p.pos,
{
    if 0 <= p.pos < s.len() {
        let c = s[p.pos];
        let r = step(s, p);
        lemma_step(s, p);
        if c == delim {
        } else if c == '\\' {
            if 0 <= r.pos < s.len() {
                lemma_step(s, r);
                lemma_read_str_forward(s, step(s, r), delim, acc + string_escape(s[r.pos]));
            }
        } else if c == '{' {
            lemma_read_str_forward(s, r, delim, acc.push(interp_mark()));
        } else {
            lemma_read_str_forward(s, r, delim, acc.push(c));
        }
    }
}

/// Reading a number moves forward to a valid position.
pub proof fn lemma_scan_number_forward(s: Seq<char>, p: LexPos, text: Seq<char>, is_float: bool)
    requires
        pos_ok(s, p),
    ensures
        pos_ok(s, scan_number(s, p, text, is_float).2),
        scan_number(s, p, text, is_float).2.pos >= p.pos,
    decreases s.len() - p.pos,
{
    if 0 <= p.pos < s.len() {
        let c = s[p.pos];
        lemma_step(s, p);
        if is_digit(c) || c == '_' {
            lemma_scan_number_forward(s, step(s, p), text.push(c), is_float);
        } else if c == '.' {
            if !(p.pos + 1 < s.len() && s[p.pos + 1] == '.') {
                lemma_scan_number_forward(s, step(s, p), text.push(c), true);
            }
        }
    }
}

/// Reading a word moves forward to a valid position.
pub proof fn lemma_scan_word_forward(s: Seq<char>, p: LexPos, text: Seq<char>)
    requires
        pos_ok(s, p),
    ensures
        pos_ok(s, scan_word(s, p, text).1),
        scan_word(s, p, text).1.pos >= p.pos,
    decreases s.len() - p.pos,
{
    if 0 <= p.pos < s.len() && (ascii_alnum(s[p.pos]) || s[p.pos] == '_') {
        lemma_step(s, p);
        lemma_scan_word_forward(s, step(s, p), text.push(s[p.pos]));
    }
}

/// Skipping newlines moves forward to a valid position.
pub proof fn lemma_skip_newlines_forward(s: Seq<char>, p: LexPos)
    requires
        pos_ok(s, p),
    ensures
        pos_ok(s, skip_newlines(s, p)),
        skip_newlines(s, p).pos >= p.pos,
    decreases s.len() - p.pos,
{
    if 0 <= p.pos < s.len() && s[p.pos] == '\n' {
        lemma_step(s, p);
        lemma_skip_newlines_forward(s, step(s, p));
    }
}

/// The lexer only moves forward; a token other than `Eof` consumes input.
pub proof fn lemma_lex_next_forward(s: Seq<char>, p: LexPos)
    requires
        pos_ok(s, p),
    ensures
        pos_ok(s, lex_next(s, p).1),
        lex_next(s, p).1.pos >= p.pos,
        lex_next(s, p).0 is Ok && lex_next(s, p).0 != Ok::<TokenV, Seq<char>>(TokenV::Eof)
            ==> lex_next(s, p).1.pos > p.pos,
    decreases s.len() - p.pos,
{
    lemma_skip_blank_forward(s, p);
    let q = skip_blank(s, p);
    if 0 <= q.pos < s.len() {
        let c = s[q.pos];
        let r = step(s, q);
        lemma_step(s, q);
        if c == '\n' {
            lemma_skip_newlines_forward(s, r);
        } else if c == '/' && at(s, r) == Some('/') {
            lemma_skip_line_forward(s, r);
            lemma_lex_next_forward(s, skip_line(s, r));
        } else if c == '/' && at(s, r) == Some('*') {
            lemma_step(s, r);
            lemma_skip_block_forward(s, step(s, r));
            let b = skip_block(s, step(s, r));
            if b.0 {
                lemma_lex_next_forward(s, b.1);
            }
        } else if punct(s, c, r) is Some {
            lemma_step(s, r);
            lemma_step(s, step(s, r));
        } else if c == '"' {
            lemma_read_str_forward(s, r, '"', Seq::empty());
        } else if c == '\'' {
            lemma_step(s, r);
            lemma_step(s, step(s, r));
            lemma_step(s, step(s, step(s, r)));
            lemma_step(s, step(s, step(s, step(s, r))));
        } else if is_digit(c) {
            lemma_scan_number_forward(s, r, seq![c], false);
        } else if ascii_letter(c) || c == '_' {
            lemma_scan_word_forward(s, r, seq![c]);
        }
    }
}

/// A lexer over the characters of a source text.
pub struct Lexer {
    chars: Vec<char>,
    pos: usize,
    line: usize,
    col: usize,
}

impl Lexer {
    /// The characters being read.
    pub closed spec fn input(&self) -> Seq<char> {
        self.chars@
    }

    /// Where the lexer stands.
    pub closed spec fn st(&self) -> LexPos {
        LexPos { pos: self.pos as int, line: self.line as int, col: self.col as int }
    }

    /// The lexer stands at a reachable position of an input whose length fits.
    pub closed spec fn wf(&self) -> bool {
        &&& pos_ok(self.chars@, self.st())
        &&& self.chars@.len() < usize::MAX
    }

    /// What well-formedness gives to other modules.
    pub proof fn lemma_wf(&self)
        requires
            self.wf(),
        ensures
            pos_ok(self.input(), self.st()),
            self.input().len() < usize::MAX,
    {
    }

    /// A lexer at the start (line 1, column 1) of `input`.
    pub fn new(input: &str) -> (r: Lexer)
        requires
            input@.len() < usize::MAX,
        ensures
            r.wf(),
            r.input() == input@,
            r.st() == start_pos(),
    {
        Lexer { chars: chars_of(input), pos: 0, line: 1, col: 1 }
    }

    /// The current line, counted from 1: one more than the line breaks read so far.
    pub fn line(&self) -> (r: usize)
        ensures
            r == self.st().line,
            self.wf() ==> r == 1 + newlines(self.input().take(self.st().pos)),
    {
        self.line
    }

    /// The current column, counted from 1.
    pub fn col(&self) -> (r: usize)
        ensures
            r == self.st().col,
    {
        self.col
    }

    /// Takes the next character, moving to the next line after a newline.
    pub fn advance(&mut self) -> (r: Option<char>)
        requires
            old(self).wf(),
        ensures
            final(self).wf(),
            final(self).input() == old(self).input(),
            final(self).st() == step(old(self).input(), old(self).st()),
            r == at(old(self).input(), old(self).st()),
    {
        proof {
            lemma_step(old(self).input(), old(self).st());
        }
        if self.pos < self.chars.len() {
            let c = self.chars[self.pos];
            if c == '\n' {
                self.line = self.line + 1;
                self.col = 1;
            } else {
                self.col = self.col + 1;
            }
            self.pos = self.pos + 1;
            Some(c)
        } else {
            None
        }
    }

    /// The next character, if any, without taking it.
    pub fn peek(&self) -> (r: Option<char>)
        requires
            self.wf(),
        ensures
            r == at(self.input(), self.st()),
    {
        if self.pos < self.chars.len() {
            Some(self.chars[self.pos])
        } else {
            None
        }
    }

    /// Whether the next character is `c`.
    fn next_is(&self, c: char) -> (r: bool)
        requires
            self.wf(),
        ensures
            r == (at(self.input(), self.st()) == Some(c)),
    {
        self.pos < self.chars.len() && self.chars[self.pos] == c
    }

    /// Skips spaces, tabs and carriage returns.
    pub fn skip_whitespace(&mut self)
        requires
            old(self).wf(),
        ensures
            final(self).wf(),
            final(self).input() == old(self).input(),
            final(self).st() == skip_blank(old(self).input(), old(self).st()),
    {
        while self.pos < self.chars.len() && (self.chars[self.pos] == ' ' || self.chars[self.pos] == '\t'
            || self.chars[self.pos] == '\r')
            invariant
                self.wf(),
                self.input() == old(self).input(),
                skip_blank(self.input(), self.st()) == skip_blank(old(self).input(), old(self).st()),
            decreases self.input().len() - self.st().pos,
        {
            self.advance();
        }
    }

    /// Skips to the end of the line (the newline stays).
    pub fn skip_line_comment(&mut self)
        requires
            old(self).wf(),
        ensures
            final(self).wf(),
            final(self).input() == old(self).input(),
            final(self).st() == skip_line(old(self).input(), old(self).st()),
    {
        while self.pos < self.chars.len() && self.chars[self.pos] != '\n'
            invariant
                self.wf(),
                self.input() == old(self).input(),
                skip_line(self.input(), self.st()) == skip_line(old(self).input(), old(self).st()),
            decreases self.input().len() - self.st().pos,
        {
            self.advance();
        }
    }

    /// Skips past the next `*/`; `None` when the input ends first.
    pub fn skip_block_comment(&mut self) -> (r: Option<()>)
        requires
            old(self).wf(),
        ensures
            final(self).wf(),
            final(self).input() == old(self).input(),
            (r is Some, final(self).st()) == skip_block(old(self).input(), old(self).st()),
    {
        loop
            invariant
                self.wf(),
                self.input() == old(self).input(),
                skip_block(self.input(), self.st()) == skip_block(old(self).input(), old(self).st()),
            decreases self.input().len() - self.st().pos,
        {
            match self.advance() {
                None => {
                    return None;
                },
                Some(c) => {
                    if c == '*' && self.next_is('/') {
                        self.advance();
                        return Some(());
                    }
                },
            }
        }
    }

    /// Reads a string literal up to `delim`, resolving escapes and marking each
    /// `{` that starts an interpolation.
    pub fn read_string(&mut self, delim: char) -> (r: Result<String, String>)
        requires
            old(self).wf(),
        ensures
            final(self).wf(),
            final(self).input() == old(self).input(),
            (match r {
                Ok(v) => Ok::<Seq<char>, Seq<char>>(v@),
                Err(e) => Err(e@),
            }, final(self).st()) == read_str(old(self).input(), old(self).st(), delim, Seq::empty()),
    {
        let mut s = String::new();
        loop
            invariant
                self.wf(),
                self.input() == old(self).input(),
                read_str(self.input(), self.st(), delim, s@) == read_str(
                    old(self).input(),
                    old(self).st(),
                    delim,
                    Seq::empty(),
                ),
            decreases self.input().len() - self.st().pos,
        {
            match self.advance() {
                None => {
                    return Err(String::from_str("unterminated string literal"));
                },
                Some(c) => {
                    if c == delim {
                        return Ok(s);
                    } else if c == '\\' {
                        match self.advance() {
                            Some(e) => {
                                let ghost before = s@;
                                if e == 'n' {
                                    push_char(&mut s, '\n');
                                } else if e == 't' {
                                    push_char(&mut s, '\t');
                                } else if e == 'r' {
                                    push_char(&mut s, '\r');
                                } else if e == '\\' {
                                    push_char(&mut s, '\\');
                                } else if e == '"' {
                                    push_char(&mut s, '"');
                                } else if e == '\'' {
                                    push_char(&mut s, '\'');
                                } else if e == '{' {
                                    push_char(&mut s, '{');
                                } else {
                                    push_char(&mut s, '\\');
                                    push_char(&mut s, e);
                                }
                                assert(s@ =~= before + string_escape(e));
                            },
                            None => {
                                return Err(String::from_str("unterminated escape sequence"));
                            },
                        }
                    } else if c == '{' {
                        push_char(&mut s, '\x01');
                    } else {
                        push_char(&mut s, c);
                    }
                },
            }
        }
    }

    /// Reads the rest of a number that starts with `first`.
    fn read_number(&mut self, first: char) -> (r: Token)
        requires
            old(self).wf(),
        ensures
            final(self).wf(),
            final(self).input() == old(self).input(),
            ({
                let n = scan_number(old(self).input(), old(self).st(), seq![first], false);
                r@ == number_token(n.0, n.1) && final(self).st() == n.2
            }),
    {
        let mut text: Vec<char> = Vec::new();
        text.push(first);
        let mut is_float = false;
        loop
            invariant
                self.wf(),
                self.input() == old(self).input(),
                scan_number(self.input(), self.st(), text@, is_float) == scan_number(
                    old(self).input(),
                    old(self).st(),
                    seq![first],
                    false,
                ),
            ensures
                self.wf(),
                self.input() == old(self).input(),
                scan_number(old(self).input(), old(self).st(), seq![first], false) == (
                    text@,
                    is_float,
                    self.st(),
                ),
            decreases self.input().len() - self.st().pos,
        {
            if self.pos >= self.chars.len() {
                break;
            }
            let c = self.chars[self.pos];
            if ('0' <= c && c <= '9') || c == '_' {
                text.push(c);
                self.advance();
            } else if c == '.' {
                if self.pos + 1 < self.chars.len() && self.chars[self.pos + 1] == '.' {
                    break;
                }
                is_float = true;
                text.push(c);
                self.advance();
            } else {
                break;
            }
        }
        let ghost t = text@;
        let mut digits = String::new();
        let mut value: i64 = 0;
        let mut over = false;
        let mut all_dig = true;
        let mut i: usize = 0;
        let mut nd: usize = 0;
        while i < text.len()
            invariant
                i <= text@.len(),
                nd <= i,
                nd == digits@.len(),
                t == text@,
                digits@ == drop_underscores(t.take(i as int)),
                all_dig == all_digits(digits@),
                all_dig && !over ==> value as int == digits_value(digits@),
                all_dig && over ==> digits_value(digits@) > i64::MAX,
                value >= 0,
            decreases text@.len() - i,
        {
            let c = text[i];
            proof {
                assert(t.take(i + 1).drop_last() =~= t.take(i as int));
            }
            if c != '_' {
                let ghost prev = digits@;
                push_char(&mut digits, c);
                nd = nd + 1;
                proof {
                    assert(digits@.drop_last() =~= prev);
                }
                if '0' <= c && c <= '9' {
                    if all_dig {
                        let d: i64 = (c as u32 - 48) as i64;
                        if !over {
                            if value > (i64::MAX - d) / 10 {
                                over = true;
                            } else {
                                value = value * 10 + d;
                            }
                        }
                        assert(all_digits(digits@)) by {
                            assert forall|j: int| 0 <= j < digits@.len() implies #[trigger] is_digit(digits@[j]) by {
                                if j < prev.len() {
                                    assert(digits@[j] == prev[j]);
                                }
                            }
                        }
                    }
                } else {
                    all_dig = false;
                    assert(!is_digit(digits@[digits@.len() - 1]));
                }
                if !all_dig {
                    assert(!all_digits(digits@)) by {
                        if !all_digits(prev) {
                            let j = choose|j: int| 0 <= j < prev.len() && !#[trigger] is_digit(prev[j]);
                            assert(digits@[j] == prev[j]);
                        }
                    }
                }
            }
            i = i + 1;
        }
        proof {
            assert(t.take(t.len() as int) =~= t);
        }
        if is_float {
            Token::FloatLiteral(digits)
        } else if nd > 0 && all_dig && !over {
            Token::IntLiteral(value)
        } else {
            Token::IntLiteral(0)
        }
    }

    /// Reads the rest of a word that starts with `first`: a keyword or an identifier.
    fn read_ident(&mut self, first: char) -> (r: Token)
        requires
            old(self).wf(),
        ensures
            final(self).wf(),
            final(self).input() == old(self).input(),
            ({
                let w = scan_word(old(self).input(), old(self).st(), seq![first]);
                r@ == word_token(w.0) && final(self).st() == w.1
            }),
    {
        let mut s = String::new();
        push_char(&mut s, first);
        loop
            invariant
                self.wf(),
                self.input() == old(self).input(),
                scan_word(self.input(), self.st(), s@) == scan_word(
                    old(self).input(),
                    old(self).st(),
                    seq![first],
                ),
            ensures
                self.wf(),
                self.input() == old(self).input(),
                scan_word(old(self).input(), old(self).st(), seq![first]) == (s@, self.st()),
            decreases self.input().len() - self.st().pos,
        {
            if self.pos >= self.chars.len() {
                break;
            }
            let c = self.chars[self.pos];
            if is_ascii_alnum(c) || c == '_' {
                push_char(&mut s, c);
                self.advance();
            } else {
                break;
            }
        }
        keyword_or_ident(s)
    }

    /// The token for an operator or delimiter character `c` that was just read.
    fn punct(&mut self, c: char) -> (r: Option<Result<Token, String>>)
        requires
            old(self).wf(),
        ensures
            final(self).wf(),
            final(self).input() == old(self).input(),
            match punct(old(self).input(), c, old(self).st()) {
                None => r is None && final(self).st() == old(self).st(),
                Some(p) => r matches Some(x) && tok_result(x) == p.0 && final(self).st() == p.1,
            },
    {
        if c == '+' {
            if self.next_is('=') { self.advance(); Some(Ok(Token::PlusEq)) } else { Some(Ok(Token::Plus)) }
        } else if c == '-' {
            if self.next_is('=') {
                self.advance();
                Some(Ok(Token::MinusEq))
            } else if self.next_is('>') {
                self.advance();
                Some(Ok(Token::Arrow))
            } else {
                Some(Ok(Token::Minus))
            }
        } else if c == '*' {
            if self.next_is('=') { self.advance(); Some(Ok(Token::StarEq)) } else { Some(Ok(Token::Star)) }
        } else if c == '/' {
            if self.next_is('=') { self.advance(); Some(Ok(Token::SlashEq)) } else { Some(Ok(Token::Slash)) }
        } else if c == '%' {
            Some(Ok(Token::Percent))
        } else if c == '=' {
            if self.next_is('=') {
                self.advance();
                Some(Ok(Token::EqEq))
            } else if self.next_is('>') {
                self.advance();
                Some(Ok(Token::FatArrow))
            } else {
                Some(Ok(Token::Eq))
            }
        } else if c == '!' {
            if self.next_is('=') { self.advance(); Some(Ok(Token::BangEq)) } else { Some(Ok(Token::Bang)) }
        } else if c == '<' {
            if self.next_is('=') { self.advance(); Some(Ok(Token::LtEq)) } else { Some(Ok(Token::Lt)) }
        } else if c == '>' {
            if self.next_is('=') { self.advance(); Some(Ok(Token::GtEq)) } else { Some(Ok(Token::Gt)) }
        } else if c == '|' {
            if self.next_is('|') {
                self.advance();
                Some(Ok(Token::OrOr))
            } else if self.next_is('>') {
                self.advance();
                Some(Ok(Token::Pipe))
            } else {
                Some(Ok(Token::Pipe))
            }
        } else if c == '&' {
            if self.next_is('&') { self.advance(); Some(Ok(Token::AndAnd)) } else { Some(Ok(Token::And)) }
        } else if c == '(' {
            Some(Ok(Token::LParen))
        } else if c == ')' {
            Some(Ok(Token::RParen))
        } else if c == '{' {
            Some(Ok(Token::LBrace))
        } else if c == '}' {
            Some(Ok(Token::RBrace))
        } else if c == '[' {
            Some(Ok(Token::LBracket))
        } else if c == ']' {
            Some(Ok(Token::RBracket))
        } else if c == ',' {
            Some(Ok(Token::Comma))
        } else if c == ':' {
            if self.next_is(':') {
                Some(Err(String::from_str(":: operator not supported, use . or module.path")))
            } else {
                Some(Ok(Token::Colon))
            }
        } else if c == ';' {
            Some(Ok(Token::Semicolon))
        } else if c == '.' {
            if self.next_is('.') {
                self.advance();
                if self.next_is('=') {
                    Some(Err(String::from_str("..= is not supported, use ..")))
                } else {
                    Some(Ok(Token::DotDot))
                }
            } else {
                Some(Ok(Token::Dot))
            }
        } else if c == '#' {
            Some(Ok(Token::Hash))
        } else if c == '@' {
            Some(Ok(Token::At))
        } else {
            None
        }
    }

    /// The rest of a char literal after its opening quote.
    fn read_char_literal(&mut self) -> (r: Result<Token, String>)
        requires
            old(self).wf(),
        ensures
            final(self).wf(),
            final(self).input() == old(self).input(),
            (tok_result(r), final(self).st()) == char_literal(old(self).input(), old(self).st()),
    {
        match self.advance() {
            None => Err(String::from_str("empty char literal")),
            Some(c) => {
                if c != '\\' {
                    if self.next_is('\'') {
                        self.advance();
                        Ok(Token::CharLiteral(c))
                    } else {
                        Err(String::from_str("unterminated char literal"))
                    }
                } else {
                    match self.advance() {
                        None => Err(String::from_str("unterminated char literal")),
                        Some(e) => {
                            let ch = if e == 'n' {
                                '\n'
                            } else if e == 't' {
                                '\t'
                            } else if e == 'r' {
                                '\r'
                            } else if e == '\\' {
                                '\\'
                            } else if e == '\'' {
                                '\''
                            } else {
                                let mut msg = String::from_str("invalid escape \\");
                                push_char(&mut msg, e);
                                return Err(msg);
                            };
                            if self.next_is('\'') {
                                self.advance();
                                Ok(Token::CharLiteral(ch))
                            } else {
                                Err(String::from_str("unterminated char literal"))
                            }
                        },
                    }
                }
            },
        }
    }

    /// Reads the next token. Blanks and comments are skipped; a run of newlines
    /// gives one `Newline`; at the end of the input the token is `Eof`.
    pub fn next_token(&mut self) -> (r: Result<Token, String>)
        requires
            old(self).wf(),
        ensures
            final(self).wf(),
            final(self).input() == old(self).input(),
            (tok_result(r), final(self).st()) == lex_next(old(self).input(), old(self).st()),
    {
        loop
            invariant
                self.wf(),
                self.input() == old(self).input(),
                lex_next(self.input(), self.st()) == lex_next(old(self).input(), old(self).st()),
            decreases self.input().len() - self.st().pos,
        {
            let ghost st0 = self.st();
            proof {
                lemma_skip_blank_forward(self.input(), st0);
            }
            self.skip_whitespace();
            let c = match self.advance() {
                Some(c) => c,
                None => {
                    return Ok(Token::Eof);
                },
            };
            if c == '\n' {
                while self.next_is('\n')
                    invariant
                        self.wf(),
                        self.input() == old(self).input(),
                        lex_next(old(self).input(), old(self).st()) == (
                            Ok::<TokenV, Seq<char>>(TokenV::Newline),
                            skip_newlines(self.input(), self.st()),
                        ),
                    decreases self.input().len() - self.st().pos,
                {
                    self.advance();
                }
                return Ok(Token::Newline);
            }
            if c == '/' && self.next_is('/') {
                proof {
                    lemma_skip_line_forward(self.input(), self.st());
                }
                self.skip_line_comment();
                continue;
            }
            if c == '/' && self.next_is('*') {
                self.advance();
                proof {
                    lemma_skip_block_forward(self.input(), self.st());
                }
                match self.skip_block_comment() {
                    Some(()) => {
                        continue;
                    },
                    None => {
                        return Err(String::from_str("unterminated block comment"));
                    },
                }
            }
            match self.punct(c) {
                Some(r) => {
                    return r;
                },
                None => {},
            }
            if c == '"' {
                return match self.read_string('"') {
                    Ok(s) => Ok(Token::StrLiteral(s)),
                    Err(e) => Err(e),
                };
            }
            if c == '\'' {
                return self.read_char_literal();
            }
            if '0' <= c && c <= '9' {
                return Ok(self.read_number(c));
            }
            if is_ascii_letter(c) {
                return Ok(self.read_ident(c));
            }
            if c == '_' {
                if self.pos < self.chars.len() && (is_ascii_alnum(self.chars[self.pos])
                    || self.chars[self.pos] == '_') {
                    return Ok(self.read_ident(c));
                }
                return Ok(Token::Underscore);
            }
            let mut msg = String::from_str("unexpected character '");
            push_char(&mut msg, c);
            push_str(&mut msg, "'");
            return Err(msg);
        }
    }

    /// Reads all tokens, each with the line and column where the lexer stood
    /// after it; the list ends with `Eof`. Blank space and comments are
    /// skipped, and each run of line breaks (with the blanks between them)
    /// becomes a single `Newline` token, which the parser uses to end
    /// statements in a block.
    pub fn tokenize(&mut self) -> (r: Result<Vec<(Token, usize, usize)>, String>)
        requires
            old(self).wf(),
        ensures
            final(self).wf(),
            final(self).input() == old(self).input(),
            match r {
                Ok(v) => lex_all(old(self).input(), old(self).st()) == Ok::<Seq<(TokenV, int, int)>, Seq<char>>(token_list(v@)),
                Err(e) => lex_all(old(self).input(), old(self).st()) == Err::<Seq<(TokenV, int, int)>, Seq<char>>(e@),
            },
    {
        let mut tokens: Vec<(Token, usize, usize)> = Vec::new();
        loop
            invariant
                self.wf(),
                self.input() == old(self).input(),
                lex_all(old(self).input(), old(self).st()) == match lex_all(self.input(), self.st()) {
                    Ok(rest) => Ok(token_list(tokens@) + rest),
                    Err(e) => Err::<Seq<(TokenV, int, int)>, Seq<char>>(e),
                },
            decreases self.input().len() - self.st().pos,
        {
            let ghost st0 = self.st();
            proof {
                lemma_lex_next_forward(self.input(), st0);
            }
            let token = self.next_token()?;
            let line = self.line;
            let col = self.col;
            let is_eof = matches!(token, Token::Eof);
            let ghost prev = tokens@;
            tokens.push((token, line, col));
            proof {
                assert(token_list(tokens@) =~= token_list(prev) + seq![(tokens@.last().0@, line as int, col as int)]);
            }
            if is_eof {
                assert(token_list(tokens@) =~= token_list(prev) + seq![(TokenV::Eof, line as int, col as int)]);
                return Ok(tokens);
            }
            proof {
                let x = (tokens@.last().0@, line as int, col as int);
                match lex_all(self.input(), self.st()) {
                    Ok(rest) => {
                        assert(token_list(prev) + (seq![x] + rest) =~= token_list(tokens@) + rest);
                    },
                    Err(e) => {},
                }
            }
        }
    }
}


/// The token for a word that was read: a keyword, or an identifier.
fn keyword_or_ident(s: String) -> (r: Token)
    ensures
        r@ == word_token(s@),
{
    if eq_str(&s, "fn") { Token::Fn }
    else if eq_str(&s, "let") { Token::Let }
    else if eq_str(&s, "mut") { Token::MutKw }
    else if eq_str(&s, "if") { Token::If }
    else if eq_str(&s, "else") { Token::Else }
    else if eq_str(&s, "match") { Token::Match }
    else if eq_str(&s, "for") { Token::For }
    else if eq_str(&s, "while") { Token::While }
    else if eq_str(&s, "loop") { Token::Loop }
    else if eq_str(&s, "break") { Token::Break }
    else if eq_str(&s, "continue") { Token::Continue }
    else if eq_str(&s, "return") { Token::Return }
    else if eq_str(&s, "type") { Token::Type }
    else if eq_str(&s, "trait") { Token::Trait }
    else if eq_str(&s, "impl") { Token::Impl }
    else if eq_str(&s, "pub") { Token::Pub }
    else if eq_str(&s, "import") { Token::Import }
    else if eq_str(&s, "as") { Token::As }
    else if eq_str(&s, "var") { Token::Var }
    else if eq_str(&s, "extern") { Token::Extern }
    else if eq_str(&s, "true") { Token::True }
    else if eq_str(&s, "false") { Token::False }
    else if eq_str(&s, "nil") { Token::Nil }
    else if eq_str(&s, "in") { Token::In }
    else if eq_str(&s, "and") { Token::And }
    else if eq_str(&s, "or") { Token::Or }
    else if eq_str(&s, "not") { Token::Not }
    else if eq_str(&s, "elif") { Token::Elif }
    else if eq_str(&s, "self") { Token::Self_ }
    else if eq_str(&s, "where") { Token::Where }
    else { Token::Ident(s) }
}


/// The weight of a token: one, and for a string literal one more per character
/// of its text. A string literal's text is never longer than its source, which
/// bounds the work of parsing the expressions interpolated in it.
pub open spec fn tok_weight(t: TokenV) -> int {
    match t {
        TokenV::StrLiteral(p) => p.len() as int + 1,
        _ => 1,
    }
}

/// The total weight of a token list.
pub open spec fn list_weight(ts: Seq<(TokenV, int, int)>) -> int
    decreases ts.len(),
{
    if ts.len() == 0 {
        0
    } else {
        tok_weight(ts[0].0) + list_weight(ts.drop_first())
    }
}

/// A string literal read is shorter than the characters it spans.
pub proof fn lemma_read_str_len(s: Seq<char>, p: LexPos, acc: Seq<char>)
    requires
        pos_ok(s, p),
    ensures
        read_str(s, p, '"', acc).0 matches Ok(v) ==> v.len() + 1 <= acc.len() + read_str(s, p, '"', acc).1.pos - p.pos,
    decreases s.len() - p.pos,
{
    if 0 <= p.pos < s.len() {
        let c = s[p.pos];
        let r = step(s, p);
        lemma_step(s, p);
        if c == '"' {
        } else if c == '\\' {
            if 0 <= r.pos < s.len() {
                lemma_step(s, r);
                lemma_read_str_len(s, step(s, r), acc + string_escape(s[r.pos]));
            }
        } else if c == '{' {
            lemma_read_str_len(s, r, acc.push(interp_mark()));
        } else {
            lemma_read_str_len(s, r, acc.push(c));
        }
    }
}

/// A token other than `Eof` weighs no more than the input it consumed.
pub proof fn lemma_lex_next_weight(s: Seq<char>, p: LexPos)
    requires
        pos_ok(s, p),
    ensures
        lex_next(s, p).0 matches Ok(t) ==> (t != TokenV::Eof ==> tok_weight(t) <= lex_next(s, p).1.pos - p.pos),
    decreases s.len() - p.pos,
{
    lemma_lex_next_forward(s, p);
    lemma_skip_blank_forward(s, p);
    let q = skip_blank(s, p);
    if 0 <= q.pos < s.len() {
        let c = s[q.pos];
        let r = step(s, q);
        lemma_step(s, q);
        if c == '\n' {
        } else if c == '/' && at(s, r) == Some('/') {
            lemma_skip_line_forward(s, r);
            lemma_lex_next_weight(s, skip_line(s, r));
        } else if c == '/' && at(s, r) == Some('*') {
            lemma_step(s, r);
            lemma_skip_block_forward(s, step(s, r));
            let b = skip_block(s, step(s, r));
            if b.0 {
                lemma_lex_next_weight(s, b.1);
            }
        } else if punct(s, c, r) is Some {
        } else if c == '"' {
            lemma_read_str_len(s, r, Seq::empty());
        }
    }
}

/// The tokens of an input weigh at most one more than its remaining length.
pub proof fn lemma_lex_all_weight(s: Seq<char>, p: LexPos)
    requires
        pos_ok(s, p),
    ensures
        lex_all(s, p) matches Ok(ts) ==> {
            &&& list_weight(ts) <= s.len() - p.pos + 1
            &&& ts.len() >= 1
            &&& ts.last().0 == TokenV::Eof
        },
    decreases s.len() - p.pos,
{
    let n = lex_next(s, p);
    lemma_lex_next_forward(s, p);
    lemma_lex_next_weight(s, p);
    if let Ok(t) = n.0 {
        if t == TokenV::Eof {
            let ts = seq![(t, n.1.line, n.1.col)];
            assert(ts.drop_first() =~= Seq::<(TokenV, int, int)>::empty());
            assert(list_weight(ts) == 1 + list_weight(ts.drop_first()));
        } else {
            lemma_lex_all_weight(s, n.1);
            if let Ok(rest) = lex_all(s, n.1) {
                let ts = seq![(t, n.1.line, n.1.col)] + rest;
                assert(ts.drop_first() =~= rest);
                assert(ts.last() == rest.last());
                assert(lex_all(s, p) == Ok::<Seq<(TokenV, int, int)>, Seq<char>>(ts));
                assert(list_weight(ts) == tok_weight(t) + list_weight(rest));
            }
        }
    }
}


/// A successful lexing yields a list that ends with `Eof` and has no `Eof`
/// before its end.
pub proof fn lemma_tokens_end_with_eof(s: Seq<char>, p: LexPos)
    requires
        pos_ok(s, p),
    ensures
        lex_all(s, p) matches Ok(ts) ==> {
            &&& ts.len() >= 1
            &&& ts.last().0 == TokenV::Eof
            &&& forall|i: int| 0 <= i < ts.len() - 1 ==> #[trigger] ts[i].0 != TokenV::Eof
        },
    decreases s.len() - p.pos,
{
    lemma_lex_all_weight(s, p);
    let n = lex_next(s, p);
    lemma_lex_next_forward(s, p);
    if let Ok(t) = n.0 {
        if t != TokenV::Eof {
            lemma_tokens_end_with_eof(s, n.1);
            if let Ok(rest) = lex_all(s, n.1) {
                let ts = seq![(t, n.1.line, n.1.col)] + rest;
                assert(lex_all(s, p) == Ok::<Seq<(TokenV, int, int)>, Seq<char>>(ts));
                assert forall|i: int| 0 <= i < ts.len() - 1 implies #[trigger] ts[i].0 != TokenV::Eof by {
                    if i > 0 {
                        assert(ts[i] == rest[i - 1]);
                    }
                }
            }
        }
    }
}

/// The hexadecimal digits of a number, lowercase, without leading zeros.
pub open spec fn hex_text(n: nat) -> Seq<char>
    decreases n,
{
    if n < 16 {
        seq![hex_digit(n)]
    } else {
        hex_text(n / 16).push(hex_digit(n % 16))
    }
}

/// The lowercase hexadecimal digit for `d` (below sixteen).
pub open spec fn hex_digit(d: nat) -> char {
    if d < 10 {
        ((48 + d) as u8) as char
    } else {
        ((87 + d) as u8) as char
    }
}

/// How a character reads inside a debug-printed string or char, where `quote`
/// is the quote that needs a backslash.
pub open spec fn escape_debug_char(c: char, quote: char) -> Seq<char> {
    if c == '\t' {
        "\\t"@
    } else if c == '\r' {
        "\\r"@
    } else if c == '\n' {
        "\\n"@
    } else if c == '\\' {
        "\\\\"@
    } else if c == quote {
        seq!['\\', c]
    } else if c == '\0' {
        "\\0"@
    } else if (c as u32) < 32 || c as u32 == 127 {
        "\\u{"@ + hex_text(c as u32 as nat) + "}"@
    } else {
        seq![c]
    }
}

/// A text with each character escaped for debug printing.
pub open spec fn escape_debug(t: Seq<char>, quote: char) -> Seq<char>
    decreases t.len(),
{
    if t.len() == 0 {
        t
    } else {
        escape_debug(t.drop_last(), quote) + escape_debug_char(t.last(), quote)
    }
}

impl TokenV {
    /// How the token reads in messages, as the derived debug form prints it.
    pub open spec fn debug_text(&self) -> Seq<char> {
        match self {
            TokenV::Fn => "Fn"@,
            TokenV::Let => "Let"@,
            TokenV::Mut => "Mut"@,
            TokenV::If => "If"@,
            TokenV::Else => "Else"@,
            TokenV::Elif => "Elif"@,
            TokenV::Match => "Match"@,
            TokenV::For => "For"@,
            TokenV::While => "While"@,
            TokenV::Loop => "Loop"@,
            TokenV::Break => "Break"@,
            TokenV::Continue => "Continue"@,
            TokenV::Return => "Return"@,
            TokenV::Type => "Type"@,
            TokenV::Trait => "Trait"@,
            TokenV::Impl => "Impl"@,
            TokenV::Pub => "Pub"@,
            TokenV::Import => "Import"@,
            TokenV::As => "As"@,
            TokenV::Var => "Var"@,
            TokenV::Extern => "Extern"@,
            TokenV::True => "True"@,
            TokenV::False => "False"@,
            TokenV::Nil => "Nil"@,
            TokenV::In => "In"@,
            TokenV::And => "And"@,
            TokenV::Or => "Or"@,
            TokenV::Not => "Not"@,
            TokenV::Where => "Where"@,
            TokenV::MutKw => "MutKw"@,
            TokenV::Self_ => "Self_"@,
            TokenV::Plus => "Plus"@,
            TokenV::Minus => "Minus"@,
            TokenV::Star => "Star"@,
            TokenV::Slash => "Slash"@,
            TokenV::Percent => "Percent"@,
            TokenV::Eq => "Eq"@,
            TokenV::EqEq => "EqEq"@,
            TokenV::BangEq => "BangEq"@,
            TokenV::Lt => "Lt"@,
            TokenV::Gt => "Gt"@,
            TokenV::LtEq => "LtEq"@,
            TokenV::GtEq => "GtEq"@,
            TokenV::PlusEq => "PlusEq"@,
            TokenV::MinusEq => "MinusEq"@,
            TokenV::StarEq => "StarEq"@,
            TokenV::SlashEq => "SlashEq"@,
            TokenV::Arrow => "Arrow"@,
            TokenV::FatArrow => "FatArrow"@,
            TokenV::Pipe => "Pipe"@,
            TokenV::DotDot => "DotDot"@,
            TokenV::AndAnd => "AndAnd"@,
            TokenV::OrOr => "OrOr"@,
            TokenV::Bang => "Bang"@,
            TokenV::LParen => "LParen"@,
            TokenV::RParen => "RParen"@,
            TokenV::LBrace => "LBrace"@,
            TokenV::RBrace => "RBrace"@,
            TokenV::LBracket => "LBracket"@,
            TokenV::RBracket => "RBracket"@,
            TokenV::Comma => "Comma"@,
            TokenV::Colon => "Colon"@,
            TokenV::Semicolon => "Semicolon"@,
            TokenV::Dot => "Dot"@,
            TokenV::Hash => "Hash"@,
            TokenV::At => "At"@,
            TokenV::Newline => "Newline"@,
            TokenV::Eof => "Eof"@,
            TokenV::Underscore => "Underscore"@,
            TokenV::IntLiteral(n) => "IntLiteral("@ + int_text(*n as int) + ")"@,
            TokenV::FloatLiteral(t) => "FloatLiteral("@ + *t + ")"@,
            TokenV::StrLiteral(t) => "StrLiteral(\""@ + escape_debug(*t, '"') + "\")"@,
            TokenV::CharLiteral(c) => "CharLiteral('"@ + escape_debug_char(*c, '\'') + "')"@,
            TokenV::BoolLiteral(b) => "BoolLiteral("@ + (if *b { "true"@ } else { "false"@ }) + ")"@,
            TokenV::Ident(t) => "Ident(\""@ + escape_debug(*t, '"') + "\")"@,
        }
    }
}

/// Appends the hexadecimal digits of `n`.
fn push_hex(out: &mut String, n: u32)
    ensures
        final(out)@ == old(out)@ + hex_text(n as nat),
    decreases n,
{
    if n >= 16 {
        push_hex(out, n / 16);
    }
    let d: u32 = n % 16;
    let c: char = if d < 10 { ((48 + d) as u8) as char } else { ((87 + d) as u8) as char };
    push_char(out, c);
}

/// Appends a character escaped for debug printing.
fn push_escaped(out: &mut String, c: char, quote: char)
    ensures
        final(out)@ == old(out)@ + escape_debug_char(c, quote),
{
    if c == '\t' {
        push_str(out, "\\t");
    } else if c == '\r' {
        push_str(out, "\\r");
    } else if c == '\n' {
        push_str(out, "\\n");
    } else if c == '\\' {
        push_str(out, "\\\\");
    } else if c == quote {
        push_char(out, '\\');
        push_char(out, c);
        assert(final(out)@ =~= old(out)@ + seq!['\\', c]);
    } else if c == '\0' {
        push_str(out, "\\0");
    } else if (c as u32) < 32 || c as u32 == 127 {
        push_str(out, "\\u{");
        push_hex(out, c as u32);
        push_str(out, "}");
        assert(final(out)@ =~= old(out)@ + ("\\u{"@ + hex_text(c as u32 as nat) + "}"@));
    } else {
        push_char(out, c);
        assert(final(out)@ =~= old(out)@ + seq![c]);
    }
}

/// Appends a text escaped for debug printing.
fn push_escaped_text(out: &mut String, t: &String, quote: char)
    ensures
        final(out)@ == old(out)@ + escape_debug(t@, quote),
{
    let cs = chars_of(t.as_str());
    let mut i: usize = 0;
    while i < cs.len()
        invariant
            i <= cs@.len(),
            cs@ == t@,
            out@ == old(out)@ + escape_debug(t@.take(i as int), quote),
        decreases cs@.len() - i,
    {
        proof {
            assert(t@.take(i + 1).drop_last() =~= t@.take(i as int));
        }
        push_escaped(out, cs[i], quote);
        proof {
            assert(out@ =~= old(out)@ + escape_debug(t@.take(i + 1), quote));
        }
        i = i + 1;
    }
    proof {
        assert(t@.take(t@.len() as int) =~= t@);
    }
}

impl Token {
    /// How the token reads in messages, as the derived debug form prints it.
    pub fn debug_text(&self) -> (r: String)
        ensures
            r@ == self@.debug_text(),
    {
        match self {
            Token::Fn => String::from_str("Fn"),
            Token::Let => String::from_str("Let"),
            Token::Mut => String::from_str("Mut"),
            Token::If => String::from_str("If"),
            Token::Else => String::from_str("Else"),
            Token::Elif => String::from_str("Elif"),
            Token::Match => String::from_str("Match"),
            Token::For => String::from_str("For"),
            Token::While => String::from_str("While"),
            Token::Loop => String::from_str("Loop"),
            Token::Break => String::from_str("Break"),
            Token::Continue => String::from_str("Continue"),
            Token::Return => String::from_str("Return"),
            Token::Type => String::from_str("Type"),
            Token::Trait => String::from_str("Trait"),
            Token::Impl => String::from_str("Impl"),
            Token::Pub => String::from_str("Pub"),
            Token::Import => String::from_str("Import"),
            Token::As => String::from_str("As"),
            Token::Var => String::from_str("Var"),
            Token::Extern => String::from_str("Extern"),
            Token::True => String::from_str("True"),
            Token::False => String::from_str("False"),
            Token::Nil => String::from_str("Nil"),
            Token::In => String::from_str("In"),
            Token::And => String::from_str("And"),
            Token::Or => String::from_str("Or"),
            Token::Not => String::from_str("Not"),
            Token::Where => String::from_str("Where"),
            Token::MutKw => String::from_str("MutKw"),
            Token::Self_ => String::from_str("Self_"),
            Token::Plus => String::from_str("Plus"),
            Token::Minus => String::from_str("Minus"),
            Token::Star => String::from_str("Star"),
            Token::Slash => String::from_str("Slash"),
            Token::Percent => String::from_str("Percent"),
            Token::Eq => String::from_str("Eq"),
            Token::EqEq => String::from_str("EqEq"),
            Token::BangEq => String::from_str("BangEq"),
            Token::Lt => String::from_str("Lt"),
            Token::Gt => String::from_str("Gt"),
            Token::LtEq => String::from_str("LtEq"),
            Token::GtEq => String::from_str("GtEq"),
            Token::PlusEq => String::from_str("PlusEq"),
            Token::MinusEq => String::from_str("MinusEq"),
            Token::StarEq => String::from_str("StarEq"),
            Token::SlashEq => String::from_str("SlashEq"),
            Token::Arrow => String::from_str("Arrow"),
            Token::FatArrow => String::from_str("FatArrow"),
            Token::Pipe => String::from_str("Pipe"),
            Token::DotDot => String::from_str("DotDot"),
            Token::AndAnd => String::from_str("AndAnd"),
            Token::OrOr => String::from_str("OrOr"),
            Token::Bang => String::from_str("Bang"),
            Token::LParen => String::from_str("LParen"),
            Token::RParen => String::from_str("RParen"),
            Token::LBrace => String::from_str("LBrace"),
            Token::RBrace => String::from_str("RBrace"),
            Token::LBracket => String::from_str("LBracket"),
            Token::RBracket => String::from_str("RBracket"),
            Token::Comma => String::from_str("Comma"),
            Token::Colon => String::from_str("Colon"),
            Token::Semicolon => String::from_str("Semicolon"),
            Token::Dot => String::from_str("Dot"),
            Token::Hash => String::from_str("Hash"),
            Token::At => String::from_str("At"),
            Token::Newline => String::from_str("Newline"),
            Token::Eof => String::from_str("Eof"),
            Token::Underscore => String::from_str("Underscore"),
            Token::IntLiteral(n) => {
                let mut out = String::from_str("IntLiteral(");
                push_i64(&mut out, *n);
                push_str(&mut out, ")");
                out
            },
            Token::FloatLiteral(t) => {
                let mut out = String::from_str("FloatLiteral(");
                push_str(&mut out, t.as_str());
                push_str(&mut out, ")");
                out
            },
            Token::StrLiteral(t) => {
                let mut out = String::from_str("StrLiteral(\"");
                push_escaped_text(&mut out, t, '"');
                push_str(&mut out, "\")");
                out
            },
            Token::CharLiteral(c) => {
                let mut out = String::from_str("CharLiteral('");
                push_escaped(&mut out, *c, '\'');
                push_str(&mut out, "')");
                out
            },
            Token::BoolLiteral(b) => {
                let mut out = String::from_str("BoolLiteral(");
                if *b {
                    push_str(&mut out, "true");
                } else {
                    push_str(&mut out, "false");
                }
                push_str(&mut out, ")");
                out
            },
            Token::Ident(t) => {
                let mut out = String::from_str("Ident(\"");
                push_escaped_text(&mut out, t, '"');
                push_str(&mut out, "\")");
                out
            },
        }
    }
}

} // verus!
