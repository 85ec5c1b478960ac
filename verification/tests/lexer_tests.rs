use lib::lexer::{Lexer, Token};

fn lex(src: &str) -> Vec<(Token, usize, usize)> {
    let mut lx = Lexer::new(src);
    match lx.tokenize() {
        Ok(v) => v,
        Err(e) => panic!("unexpected lexing error: {}", e),
    }
}

fn lex_err(src: &str) -> String {
    let mut lx = Lexer::new(src);
    match lx.tokenize() {
        Ok(_) => panic!("expected a lexing error for {:?}", src),
        Err(e) => e,
    }
}

fn ident(t: &Token) -> String {
    match t {
        Token::Ident(s) => s.clone(),
        _ => panic!("expected an identifier, got {}", t.debug_text()),
    }
}

#[test]
fn tokenize_let_binding_with_positions() {
    let toks = lex("let x = 42");
    assert_eq!(toks.len(), 5);
    assert!(matches!(toks[0].0, Token::Let));
    assert_eq!((toks[0].1, toks[0].2), (1, 4));
    assert_eq!(ident(&toks[1].0), "x");
    assert_eq!((toks[1].1, toks[1].2), (1, 6));
    assert!(matches!(toks[2].0, Token::Eq));
    assert!(matches!(toks[3].0, Token::IntLiteral(42)));
    assert_eq!((toks[3].1, toks[3].2), (1, 11));
    assert!(matches!(toks[4].0, Token::Eof));
    assert_eq!((toks[4].1, toks[4].2), (1, 11));
}

#[test]
fn numbers_drop_underscores_and_stop_before_ranges() {
    let toks = lex("1_000 2.5 1..3");
    assert!(matches!(toks[0].0, Token::IntLiteral(1000)));
    match &toks[1].0 {
        Token::FloatLiteral(t) => assert_eq!(t, "2.5"),
        t => panic!("expected a float, got {}", t.debug_text()),
    }
    assert!(matches!(toks[2].0, Token::IntLiteral(1)));
    assert!(matches!(toks[3].0, Token::DotDot));
    assert!(matches!(toks[4].0, Token::IntLiteral(3)));
    assert!(matches!(toks[5].0, Token::Eof));
}

#[test]
fn too_large_integer_reads_as_zero() {
    let toks = lex("99999999999999999999");
    assert!(matches!(toks[0].0, Token::IntLiteral(0)));
}

#[test]
fn keywords_and_identifiers() {
    let toks = lex("fn elif self mut var where name_1");
    assert!(matches!(toks[0].0, Token::Fn));
    assert!(matches!(toks[1].0, Token::Elif));
    assert!(matches!(toks[2].0, Token::Self_));
    assert!(matches!(toks[3].0, Token::MutKw));
    assert!(matches!(toks[4].0, Token::Var));
    assert!(matches!(toks[5].0, Token::Where));
    assert_eq!(ident(&toks[6].0), "name_1");
}

#[test]
fn two_character_operators() {
    let toks = lex("+= -= *= /= -> => |> || && != <= >= == | &");
    let expect = [
        "PlusEq", "MinusEq", "StarEq", "SlashEq", "Arrow", "FatArrow", "Pipe", "OrOr", "AndAnd", "BangEq", "LtEq",
        "GtEq", "EqEq", "Pipe", "And", "Eof",
    ];
    assert_eq!(toks.len(), expect.len());
    for (t, e) in toks.iter().zip(expect.iter()) {
        assert_eq!(t.0.debug_text(), *e);
    }
}

#[test]
fn string_escapes_and_interpolation_marker() {
    let toks = lex("\"a\\tb\\\"c\" \"x{y}\" \"\\{z\"");
    match &toks[0].0 {
        Token::StrLiteral(s) => assert_eq!(s, "a\tb\"c"),
        t => panic!("expected a string, got {}", t.debug_text()),
    }
    match &toks[1].0 {
        Token::StrLiteral(s) => assert_eq!(s, "x\u{1}y}"),
        t => panic!("expected a string, got {}", t.debug_text()),
    }
    match &toks[2].0 {
        Token::StrLiteral(s) => assert_eq!(s, "{z"),
        t => panic!("expected a string, got {}", t.debug_text()),
    }
}

#[test]
fn unknown_escape_keeps_backslash() {
    let toks = lex("\"\\q\"");
    match &toks[0].0 {
        Token::StrLiteral(s) => assert_eq!(s, "\\q"),
        t => panic!("expected a string, got {}", t.debug_text()),
    }
}

#[test]
fn char_literals() {
    let toks = lex("'a' '\\n' '\\''");
    assert!(matches!(toks[0].0, Token::CharLiteral('a')));
    assert!(matches!(toks[1].0, Token::CharLiteral('\n')));
    assert!(matches!(toks[2].0, Token::CharLiteral('\'')));
}

#[test]
fn comments_and_newlines() {
    let toks = lex("a // note\n\n\nb /* block\ncomment */ c");
    assert_eq!(ident(&toks[0].0), "a");
    assert!(matches!(toks[1].0, Token::Newline));
    assert_eq!(toks[1].1, 4);
    assert_eq!(ident(&toks[2].0), "b");
    assert_eq!(ident(&toks[3].0), "c");
    assert_eq!(toks[3].1, 5);
    assert!(matches!(toks[4].0, Token::Eof));
}

#[test]
fn lexing_errors() {
    assert_eq!(lex_err("\"abc"), "unterminated string literal");
    assert_eq!(lex_err("\"abc\\"), "unterminated escape sequence");
    assert_eq!(lex_err("/* open"), "unterminated block comment");
    assert_eq!(lex_err("a::b"), ":: operator not supported, use . or module.path");
    assert_eq!(lex_err("1..=3"), "..= is not supported, use ..");
    assert_eq!(lex_err("'ab'"), "unterminated char literal");
    assert_eq!(lex_err("'\\q'"), "invalid escape \\q");
    assert_eq!(lex_err("'"), "empty char literal");
    assert_eq!(lex_err("$"), "unexpected character '$'");
}

#[test]
fn lexer_tracks_line_and_column() {
    let mut lx = Lexer::new("ab\ncd");
    assert_eq!((lx.line(), lx.col()), (1, 1));
    let t = lx.next_token().unwrap();
    assert_eq!(ident(&t), "ab");
    assert_eq!((lx.line(), lx.col()), (1, 3));
    let t = lx.next_token().unwrap();
    assert!(matches!(t, Token::Newline));
    assert_eq!((lx.line(), lx.col()), (2, 1));
}

#[test]
fn lexer_character_steps() {
    let mut lx = Lexer::new("x \t/");
    assert_eq!(lx.peek(), Some('x'));
    assert_eq!(lx.advance(), Some('x'));
    lx.skip_whitespace();
    assert_eq!(lx.peek(), Some('/'));
    assert_eq!(lx.col(), 4);
    assert_eq!(lx.advance(), Some('/'));
    assert_eq!(lx.advance(), None);
}

#[test]
fn lexer_comment_and_string_readers() {
    let mut lx = Lexer::new("skip me\nrest");
    lx.skip_line_comment();
    assert_eq!(lx.peek(), Some('\n'));
    let mut lx = Lexer::new(" inner */after");
    assert_eq!(lx.skip_block_comment(), Some(()));
    assert_eq!(lx.peek(), Some('a'));
    let mut lx = Lexer::new("no end");
    assert_eq!(lx.skip_block_comment(), None);
    let mut lx = Lexer::new("hi'");
    assert_eq!(lx.read_string('\''), Ok("hi".to_string()));
}

#[test]
fn token_classification() {
    assert!(Token::Plus.is_binop());
    assert!(Token::And.is_binop());
    assert!(!Token::Pipe.is_binop());
    assert!(Token::PlusEq.is_assign());
    assert!(!Token::EqEq.is_assign());
    assert_eq!(Token::OrOr.precedence(), 1);
    assert_eq!(Token::AndAnd.precedence(), 2);
    assert_eq!(Token::EqEq.precedence(), 3);
    assert_eq!(Token::Lt.precedence(), 3);
    assert_eq!(Token::Plus.precedence(), 4);
    assert_eq!(Token::Star.precedence(), 5);
    assert_eq!(Token::Pipe.precedence(), 6);
    assert_eq!(Token::Comma.precedence(), 0);
}

#[test]
fn debug_text_of_payload_tokens() {
    assert_eq!(Token::Ident("ab".to_string()).debug_text(), "Ident(\"ab\")");
    assert_eq!(Token::IntLiteral(-5).debug_text(), "IntLiteral(-5)");
    assert_eq!(Token::CharLiteral('\n').debug_text(), "CharLiteral('\\n')");
}

#[test]
fn underscore_alone_is_a_wildcard_and_starts_identifiers_otherwise() {
    let toks = lex("_ _x __ _1 _ )");
    assert!(matches!(toks[0].0, Token::Underscore));
    assert_eq!(ident(&toks[1].0), "_x");
    assert_eq!(ident(&toks[2].0), "__");
    assert_eq!(ident(&toks[3].0), "_1");
    assert!(matches!(toks[4].0, Token::Underscore));
    assert!(matches!(toks[5].0, Token::RParen));
    assert!(matches!(toks[6].0, Token::Eof));
}

#[test]
fn identifiers_are_ascii() {
    assert_eq!(lex_err("é"), "unexpected character 'é'");
    assert_eq!(ident(&lex("a1_b")[0].0), "a1_b");
}

#[test]
fn line_counts_the_line_breaks_read() {
    let mut lx = Lexer::new("a\n\n// c\nb");
    lx.tokenize().unwrap();
    assert_eq!(lx.line(), 4);
}
