use tram::lexer::Lexer;
use tram::token::Token;

fn chars(s: &str) -> Vec<char> {
    s.chars().collect()
}

fn tokens_of(src: &str) -> Vec<Token> {
    let mut lx = Lexer::new(src);
    let mut out = Vec::new();
    loop {
        let (t, _) = lx.next();
        let done = matches!(t, Token::Eof);
        out.push(t);
        if done {
            break;
        }
    }
    out
}

#[test]
fn arithmetic_tokens() {
    let ts = tokens_of("1 + 2 * 3");
    assert!(matches!(ts[0], Token::Number(1)));
    assert!(matches!(ts[1], Token::Add));
    assert!(matches!(ts[2], Token::Number(2)));
    assert!(matches!(ts[3], Token::Mul));
    assert!(matches!(ts[4], Token::Number(3)));
    assert!(matches!(ts[5], Token::Eof));
    assert_eq!(ts.len(), 6);
}

#[test]
fn keywords_and_identifiers() {
    let ts = tokens_of("let func if else loop break true false nil foo");
    assert!(matches!(ts[0], Token::Let));
    assert!(matches!(ts[1], Token::Func));
    assert!(matches!(ts[2], Token::If));
    assert!(matches!(ts[3], Token::Else));
    assert!(matches!(ts[4], Token::Loop));
    assert!(matches!(ts[5], Token::Break));
    assert!(matches!(ts[6], Token::True));
    assert!(matches!(ts[7], Token::False));
    assert!(matches!(ts[8], Token::Nil));
    match &ts[9] {
        Token::Identifier(s) => assert_eq!(*s, chars("foo")),
        t => panic!("expected identifier, got {:?}", t),
    }
}

#[test]
fn string_literal_contents() {
    let ts = tokens_of("\"hello world\"");
    match &ts[0] {
        Token::String(s) => assert_eq!(*s, chars("hello world")),
        t => panic!("expected string, got {:?}", t),
    }
}

#[test]
fn unterminated_string_is_unknown() {
    let ts = tokens_of("\"oops");
    assert!(matches!(ts[0], Token::Unknown));
    assert!(matches!(ts[ts.len() - 1], Token::Eof));
}

#[test]
fn compound_operators() {
    let ts = tokens_of("-> == != <= >= += -= ** **= && || =");
    assert!(matches!(ts[0], Token::Arrow));
    assert!(matches!(ts[1], Token::Eq));
    assert!(matches!(ts[2], Token::NotEq));
    assert!(matches!(ts[3], Token::LtEq));
    assert!(matches!(ts[4], Token::GtEq));
    assert!(matches!(ts[5], Token::AddEq));
    assert!(matches!(ts[6], Token::SubEq));
    assert!(matches!(ts[7], Token::Pow));
    assert!(matches!(ts[8], Token::PowEq));
    assert!(matches!(ts[9], Token::And));
    assert!(matches!(ts[10], Token::Or));
    assert!(matches!(ts[11], Token::Assign));
}

#[test]
fn lone_ampersand_is_unknown() {
    let ts = tokens_of("& |");
    assert!(matches!(ts[0], Token::Unknown));
    assert!(matches!(ts[1], Token::Unknown));
}

#[test]
fn fractional_literal_is_unknown() {
    let ts = tokens_of("1.5");
    assert!(matches!(ts[0], Token::Unknown));
}

#[test]
fn oversized_literal_is_unknown() {
    let ts = tokens_of("9223372036854775807");
    assert!(matches!(ts[0], Token::Number(9223372036854775807)));
    let ts = tokens_of("9223372036854775808");
    assert!(matches!(ts[0], Token::Unknown));
}

#[test]
fn unknown_character() {
    let ts = tokens_of("#");
    assert!(matches!(ts[0], Token::Unknown));
}

#[test]
fn embedded_nul_is_unknown_not_eof() {
    // a NUL character inside the source is an unknown character; end of
    // input is a position, so Eof never appears mid-source
    let ts = tokens_of("\0a");
    assert!(matches!(ts[0], Token::Unknown));
    match &ts[1] {
        Token::Identifier(s) => assert_eq!(*s, chars("a")),
        t => panic!("expected identifier, got {:?}", t),
    }
    assert!(matches!(ts[2], Token::Eof));
}

#[test]
fn eof_is_stable() {
    let mut lx = Lexer::new("x");
    let (t0, _) = lx.next();
    assert!(matches!(t0, Token::Identifier(_)));
    for _ in 0..5 {
        let (t, _) = lx.next();
        assert!(matches!(t, Token::Eof));
    }
}

#[test]
fn token_spans() {
    let mut lx = Lexer::new("let foo");
    let (t, sp) = lx.next();
    assert!(matches!(t, Token::Let));
    assert_eq!((sp.start, sp.end), (0, 3));
    let (t, sp) = lx.next();
    assert!(matches!(t, Token::Identifier(_)));
    assert_eq!((sp.start, sp.end), (4, 7));
}
