use tram::ast::{AstNode, BinOp, Literal, Statement};
use tram::parse::Parser;

fn chars(s: &str) -> Vec<char> {
    s.chars().collect()
}

fn parse_ok(src: &str) -> AstNode {
    let mut p = Parser::new(src);
    let (ast, errs) = p.parse_all();
    assert!(errs.is_empty(), "unexpected diagnostics: {:?}", errs);
    *ast
}

fn parse_errs(src: &str) -> usize {
    let mut p = Parser::new(src);
    let (_, errs) = p.parse_all();
    errs.len()
}

fn only_expr(ast: AstNode) -> AstNode {
    match ast {
        AstNode::Block(stmts, false) => {
            assert_eq!(stmts.len(), 1);
            let mut it = stmts.into_iter();
            match it.next().unwrap() {
                Statement::Expression(e) => *e,
            }
        },
        other => panic!("expected top-level block, got {:?}", other),
    }
}

#[test]
fn precedence_shapes_the_tree() {
    // 1 + 2 * 3 parses as 1 + (2 * 3)
    let e = only_expr(parse_ok("1 + 2 * 3"));
    match e {
        AstNode::Binary(BinOp::Add, l, r) => {
            assert!(matches!(*l, AstNode::Value(Literal::Num(1))));
            match *r {
                AstNode::Binary(BinOp::Mul, a, b) => {
                    assert!(matches!(*a, AstNode::Value(Literal::Num(2))));
                    assert!(matches!(*b, AstNode::Value(Literal::Num(3))));
                },
                other => panic!("expected multiplication, got {:?}", other),
            }
        },
        other => panic!("expected addition, got {:?}", other),
    }
}

#[test]
fn same_precedence_associates_left() {
    // 1 - 2 - 3 parses as (1 - 2) - 3
    let e = only_expr(parse_ok("1 - 2 - 3"));
    match e {
        AstNode::Binary(BinOp::Sub, l, r) => {
            assert!(matches!(*l, AstNode::Binary(BinOp::Sub, _, _)));
            assert!(matches!(*r, AstNode::Value(Literal::Num(3))));
        },
        other => panic!("expected subtraction, got {:?}", other),
    }
}

#[test]
fn assignment_is_right_associative() {
    // a = b = 1 parses as a = (b = 1)
    let e = only_expr(parse_ok("a = b = 1"));
    match e {
        AstNode::Assign(name, v) => {
            assert_eq!(name, chars("a"));
            match *v {
                AstNode::Assign(inner, _) => assert_eq!(inner, chars("b")),
                other => panic!("expected nested assignment, got {:?}", other),
            }
        },
        other => panic!("expected assignment, got {:?}", other),
    }
}

#[test]
fn compound_assignment_desugars() {
    // x += 2 parses as x = x + 2
    let e = only_expr(parse_ok("x += 2"));
    match e {
        AstNode::Assign(name, v) => {
            assert_eq!(name, chars("x"));
            match *v {
                AstNode::Binary(BinOp::Add, l, r) => {
                    assert!(matches!(*l, AstNode::Ident(_)));
                    assert!(matches!(*r, AstNode::Value(Literal::Num(2))));
                },
                other => panic!("expected desugared addition, got {:?}", other),
            }
        },
        other => panic!("expected assignment, got {:?}", other),
    }
}

#[test]
fn dot_access_desugars_to_string_key() {
    let e = only_expr(parse_ok("m.key"));
    match e {
        AstNode::Binary(BinOp::Access, l, r) => {
            assert!(matches!(*l, AstNode::Ident(_)));
            match *r {
                AstNode::Value(Literal::Text(t)) => assert_eq!(t, chars("key")),
                other => panic!("expected string key, got {:?}", other),
            }
        },
        other => panic!("expected access, got {:?}", other),
    }
}

#[test]
fn named_function_lowers_to_assignment_and_lookup() {
    let e = only_expr(parse_ok("func foo(a) { a }"));
    match e {
        AstNode::Block(stmts, false) => {
            assert_eq!(stmts.len(), 2);
            match &stmts[0] {
                Statement::Expression(e) => match &**e {
                    AstNode::Assign(name, v) => {
                        assert_eq!(*name, chars("foo"));
                        assert!(matches!(&**v, AstNode::Value(Literal::Func(_))));
                    },
                    other => panic!("expected assignment, got {:?}", other),
                },
            }
            match &stmts[1] {
                Statement::Expression(e) => match &**e {
                    AstNode::Ident(name) => assert_eq!(*name, chars("foo")),
                    other => panic!("expected lookup, got {:?}", other),
                },
            }
        },
        other => panic!("expected lowered block, got {:?}", other),
    }
}

#[test]
fn invalid_assignment_target_is_a_diagnostic() {
    assert!(parse_errs("1 = 2") >= 1);
}

#[test]
fn dangling_operator_is_a_diagnostic() {
    assert!(parse_errs("1 +") >= 1);
    assert!(parse_errs("x = ") >= 1);
}

#[test]
fn unexpected_token_is_a_diagnostic() {
    assert!(parse_errs("@") >= 1);
    assert!(parse_errs("?") >= 1);
}

#[test]
fn lex_failures_surface_as_diagnostics() {
    assert!(parse_errs("1.5") >= 1);
    assert!(parse_errs("\"open") >= 1);
    assert!(parse_errs("a & b") >= 1);
}

#[test]
fn embedded_nul_is_a_diagnostic_not_truncation() {
    // the text after an embedded NUL is still parsed, and the NUL itself is
    // reported rather than silently ending the program
    let mut p = Parser::new("\0a");
    let (ast, errs) = p.parse_all();
    assert!(errs.len() >= 1);
    match *ast {
        AstNode::Block(stmts, false) => assert_eq!(stmts.len(), 2),
        other => panic!("expected top-level block, got {:?}", other),
    }
}

#[test]
fn several_problems_are_all_reported() {
    // error recovery: one pass reports independent problems
    assert!(parse_errs("@ ?") >= 2);
}

#[test]
fn missing_function_brace_is_a_diagnostic() {
    assert!(parse_errs("func f() 1") >= 1);
    assert!(parse_errs("func f( { 1 }") >= 1);
}

#[test]
fn if_requires_braced_block() {
    assert!(parse_errs("if true 1") >= 1);
    assert!(parse_errs("if true { 1 } else 2") >= 1);
}

#[test]
fn expression_entry_point() {
    let mut p = Parser::new("2 + 3");
    let e = p.expression();
    assert!(matches!(*e, AstNode::Binary(BinOp::Add, _, _)));
}

#[test]
fn statement_entry_point() {
    let mut p = Parser::new("x = 1");
    let Statement::Expression(e) = p.statement();
    assert!(matches!(*e, AstNode::Assign(_, _)));
}

#[test]
fn empty_source_parses_to_empty_block() {
    let ast = parse_ok("");
    match ast {
        AstNode::Block(stmts, false) => assert_eq!(stmts.len(), 0),
        other => panic!("expected empty block, got {:?}", other),
    }
}
