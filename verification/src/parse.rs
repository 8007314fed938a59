//! The parser: precedence climbing over a two-token lookahead window.
//!
//! `parse_with_prec` advances onto the next token, dispatches to a prefix
//! handler, then folds in infix operators while the upcoming token binds at
//! least as tightly as the requested precedence. A recognised syntax
//! violation produces a diagnostic appended to the error list and an
//! [`AstNode::Error`] placeholder in the tree, and parsing continues; the
//! central guarantee, carried by every function here, is that a parse that
//! adds **no** diagnostic yields a well-formed tree ([`node_wf`]) — one the
//! executor can evaluate without ever reaching an `Error` node.
//!
//! Each function also spends one unit of fuel per step; the budget the
//! public entry points allocate (a few times the source length) cannot be
//! exhausted by a syntactically valid program, and running out is reported
//! as one more diagnostic, never a crash.

use std::rc::Rc;

use vstd::prelude::*;

use crate::ast::{Ast, AstNode, BinOp, Literal, Statement, UnOp, node_wf, stmt_wf,
    lemma_lit_wf_func, lemma_lit_wf_simple, lemma_wf_assign, lemma_wf_binary, lemma_wf_block,
    lemma_wf_break, lemma_wf_call, lemma_wf_ident, lemma_wf_if, lemma_wf_loop, lemma_wf_stmt,
    lemma_wf_unary, lemma_wf_value};
use crate::function::Function;
use crate::lexer::Lexer;
use crate::span::{ParseError, Span};
use crate::text::clone_chars;
use crate::token::{InfixKind, Token, PREC_ASSIGN};

verus! {

broadcast use vstd::std_specs::vec::group_vec_axioms;

/// Diagnostics only accumulate: everything reported stays reported.
pub open spec fn errors_extend(pre: Seq<ParseError>, post: Seq<ParseError>) -> bool {
    post.len() >= pre.len() && forall|k: int| 0 <= k < pre.len() ==> post[k] == pre[k]
}

/// The binary operator a token denotes in infix position, if any.
pub open spec fn binop_of(t: Token) -> Option<BinOp> {
    match t {
        Token::Add => Some(BinOp::Add),
        Token::Sub => Some(BinOp::Sub),
        Token::Mul => Some(BinOp::Mul),
        Token::Div => Some(BinOp::Div),
        Token::Mod => Some(BinOp::Mod),
        Token::Pow => Some(BinOp::Pow),
        Token::Eq => Some(BinOp::Eq),
        Token::Gt => Some(BinOp::Gt),
        Token::GtEq => Some(BinOp::GtEq),
        Token::Lt => Some(BinOp::Lt),
        Token::LtEq => Some(BinOp::LtEq),
        Token::And => Some(BinOp::And),
        Token::Or => Some(BinOp::Or),
        _ => None,
    }
}

/// The operator a compound-assignment token folds in, if any.
pub open spec fn compound_op_of(t: Token) -> Option<BinOp> {
    match t {
        Token::AddEq => Some(BinOp::Add),
        Token::SubEq => Some(BinOp::Sub),
        Token::MulEq => Some(BinOp::Mul),
        Token::DivEq => Some(BinOp::Div),
        Token::PowEq => Some(BinOp::Pow),
        Token::ModEq => Some(BinOp::Mod),
        _ => None,
    }
}

/// The unary operator a token denotes in prefix position, if any.
pub open spec fn unop_of(t: Token) -> Option<UnOp> {
    match t {
        Token::Not => Some(UnOp::Not),
        Token::Sub => Some(UnOp::Sub),
        _ => None,
    }
}

pub struct Parser {
    pub lexer: Lexer,
    pub current: Token,
    pub next: Token,
    pub next_span: Span,
    pub current_span: Span,
    pub errors: Vec<ParseError>,
}

impl Parser {
    pub open spec fn wf(&self) -> bool {
        self.lexer.wf()
    }

    /// A parser primed one token ahead over `source`, with no diagnostics.
    pub fn new(source: &str) -> (p: Parser)
        ensures
            p.wf(),
            p.errors@.len() == 0,
            p.current == Token::Start,
            p.lexer.source@ == seq![' '] + source@,
            crate::token::token_view(p.next) == crate::lexer::lex_spec(
                seq![' '] + source@,
                0,
            ).0,
    {
        let mut lexer = Lexer::new(source);
        let (next, span) = lexer.next();
        Parser {
            current: Token::Start,
            next,
            errors: Vec::new(),
            lexer,
            current_span: Span::empty(),
            next_span: span,
        }
    }

    /// Parse the whole source as one unscoped top-level block and hand back
    /// the tree together with every diagnostic collected. A result with an
    /// empty diagnostic list is a well-formed tree.
    pub fn parse_all(&mut self) -> (r: (Ast, Vec<ParseError>))
        requires
            old(self).wf(),
        ensures
            final(self).wf(),
            final(self).errors@.len() == 0,
            errors_extend(old(self).errors@, r.1@),
            r.1@.len() == 0 ==> node_wf(*r.0),
            r.1@.len() == old(self).errors@.len() ==> match *r.0 {
                AstNode::Block(_, sc) => sc == false,
                _ => false,
            },
            // an all-whitespace source is owed success: no diagnostics, the
            // empty unscoped top-level block
            (crate::token::spec_kind(old(self).next) == crate::token::spec_kind(Token::Eof)
                && old(self).errors@.len() == 0) ==> r.1@.len() == 0 && match *r.0 {
                AstNode::Block(v, sc) => v@.len() == 0 && sc == false,
                _ => false,
            },
    {
        let fuel = self.budget();
        let block = self.block(false, false, fuel);
        let mut errors: Vec<ParseError> = Vec::new();
        core::mem::swap(&mut errors, &mut self.errors);
        (block, errors)
    }

    /// One statement: an expression evaluated for its value.
    pub fn statement(&mut self) -> (r: Statement)
        requires
            old(self).wf(),
        ensures
            final(self).wf(),
            errors_extend(old(self).errors@, final(self).errors@),
            final(self).errors@.len() == 0 ==> stmt_wf(r),
            crate::token::spec_prec_v(
                crate::lexer::lex_spec(old(self).lexer.source@, old(self).lexer.at as int).0,
            ) < crate::token::PREC_ASSIGN ==> match old(self).next {
                Token::Number(k) => final(self).errors@ == old(self).errors@ && match r {
                    Statement::Expression(e) => *e == AstNode::Value(Literal::Num(k)),
                },
                _ => true,
            },
    {
        let fuel = self.budget();
        self.statement_with(fuel)
    }

    /// One expression, parsed from the lowest (assignment) precedence. A
    /// lone literal or identifier followed by a non-operator token is owed
    /// success: no diagnostic, the exact node.
    pub fn expression(&mut self) -> (r: Ast)
        requires
            old(self).wf(),
        ensures
            final(self).wf(),
            errors_extend(old(self).errors@, final(self).errors@),
            final(self).errors@.len() == 0 ==> node_wf(*r),
            crate::token::spec_prec_v(
                crate::lexer::lex_spec(old(self).lexer.source@, old(self).lexer.at as int).0,
            ) < crate::token::PREC_ASSIGN ==> match old(self).next {
                Token::Number(k) => final(self).errors@ == old(self).errors@ && *r
                    == AstNode::Value(Literal::Num(k)),
                Token::Identifier(nm) => final(self).errors@ == old(self).errors@ && match *r {
                    AstNode::Ident(n2) => n2@ == nm@,
                    _ => false,
                },
                _ => true,
            },
    {
        let fuel = self.budget();
        self.parse_with_prec(PREC_ASSIGN, fuel)
    }

    /// A step budget no syntactically valid program can exhaust: each parse
    /// step consumes source tokens.
    fn budget(&self) -> (r: u64)
        requires
            self.wf(),
        ensures
            r >= 2,
    {
        let n = self.lexer.source.len() as u64;
        if n < 1000000000 {
            4 * n + 64
        } else {
            u64::MAX
        }
    }

    fn statement_with(&mut self, fuel: u64) -> (r: Statement)
        requires
            old(self).wf(),
        ensures
            final(self).wf(),
            errors_extend(old(self).errors@, final(self).errors@),
            final(self).errors@.len() == 0 ==> stmt_wf(r),
            (fuel >= 2 && crate::token::spec_prec_v(
                crate::lexer::lex_spec(old(self).lexer.source@, old(self).lexer.at as int).0,
            ) < crate::token::PREC_ASSIGN) ==> match old(self).next {
                Token::Number(k) => final(self).errors@ == old(self).errors@ && match r {
                    Statement::Expression(e) => *e == AstNode::Value(Literal::Num(k)),
                },
                _ => true,
            },
        decreases fuel, 1int,
    {
        let e = self.parse_with_prec(PREC_ASSIGN, fuel);
        proof {
            if self.errors@.len() == 0 {
                lemma_wf_stmt(e);
            }
        }
        Statement::Expression(e)
    }

    /// Record a diagnostic at the current token and stand an `Error` node in
    /// for the malformed construct, so parsing can continue.
    fn error(&mut self, message: &'static str) -> (r: Ast)
        requires
            old(self).wf(),
        ensures
            final(self).wf(),
            final(self).errors@ == old(self).errors@.push(
                ParseError { span: old(self).current_span, message },
            ),
            errors_extend(old(self).errors@, final(self).errors@),
            *r == AstNode::Error,
            final(self).next == old(self).next,
            final(self).current == old(self).current,
            final(self).lexer == old(self).lexer,
    {
        let e = ParseError { span: self.current_span, message };
        self.errors.push(e);
        Box::new(AstNode::Error)
    }

    /// Pull one token: the lookahead becomes current and a fresh token fills
    /// the lookahead, exactly as the lexer specifies.
    fn advance(&mut self)
        requires
            old(self).wf(),
        ensures
            final(self).wf(),
            final(self).errors@ == old(self).errors@,
            final(self).current == old(self).next,
            final(self).current_span == old(self).next_span,
            final(self).lexer.source@ == old(self).lexer.source@,
            crate::token::token_view(final(self).next) == crate::lexer::lex_spec(
                old(self).lexer.source@,
                old(self).lexer.at as int,
            ).0,
            final(self).lexer.at == crate::lexer::lex_spec(
                old(self).lexer.source@,
                old(self).lexer.at as int,
            ).1,
    {
        let (next, span) = self.lexer.next();
        core::mem::swap(&mut self.current, &mut self.next);
        core::mem::swap(&mut self.current_span, &mut self.next_span);
        self.next_span = span;
        self.next = next;
    }

    /// Consume the lookahead if it is the same kind of token as `tok`.
    fn pick(&mut self, tok: &Token) -> (r: bool)
        requires
            old(self).wf(),
        ensures
            final(self).wf(),
            final(self).errors@ == old(self).errors@,
            r == (crate::token::spec_kind(old(self).next) == crate::token::spec_kind(*tok)),
            r ==> final(self).current == old(self).next,
            !r ==> *final(self) == *old(self),
    {
        if self.next.same_kind(tok) {
            self.advance();
            true
        } else {
            false
        }
    }

    /// The core precedence climb: a prefix construct, then infix operators
    /// while they bind at least as tightly as `prec`.
    fn parse_with_prec(&mut self, prec: u8, fuel: u64) -> (r: Ast)
        requires
            old(self).wf(),
        ensures
            final(self).wf(),
            errors_extend(old(self).errors@, final(self).errors@),
            final(self).errors@.len() == 0 ==> node_wf(*r),
            // a lone literal or identifier whose following token binds below
            // `prec` is owed success: no diagnostic, the exact node
            (fuel >= 2 && crate::token::spec_prec_v(
                crate::lexer::lex_spec(old(self).lexer.source@, old(self).lexer.at as int).0,
            ) < prec) ==> match old(self).next {
                Token::Number(k) => final(self).errors@ == old(self).errors@ && *r
                    == AstNode::Value(Literal::Num(k)),
                Token::Identifier(nm) => final(self).errors@ == old(self).errors@ && match *r {
                    AstNode::Ident(n2) => n2@ == nm@,
                    _ => false,
                },
                _ => true,
            },
        decreases fuel, 0int,
    {
        if fuel == 0 {
            return self.error("expression is nested too deeply");
        }
        let fuel2 = fuel - 1;
        self.advance();
        let mut node: Ast = if matches!(
            &self.current,
            Token::Number(_) | Token::String(_) | Token::True | Token::False | Token::Nil
        ) {
            self.literal()
        } else if matches!(&self.current, Token::Identifier(_)) {
            self.ident()
        } else if matches!(&self.current, Token::Func) {
            self.func(fuel2)
        } else if matches!(&self.current, Token::If) {
            self.if_expr(fuel2)
        } else if matches!(&self.current, Token::Loop) {
            self.loop_expr(fuel2)
        } else if matches!(&self.current, Token::LBrace) {
            self.block(true, true, fuel2)
        } else if matches!(&self.current, Token::Break) {
            proof {
                lemma_wf_break(None);
            }
            Box::new(AstNode::Break(None))
        } else if matches!(&self.current, Token::Not | Token::Sub) {
            self.unary(fuel2)
        } else {
            self.error("unexpected token")
        };
        proof {
            crate::token::lemma_prec_view(self.next);
        }
        let ghost simple = fuel >= 2 && crate::token::spec_prec_v(
            crate::lexer::lex_spec(old(self).lexer.source@, old(self).lexer.at as int).0,
        ) < prec && (old(self).next is Number || old(self).next is Identifier);
        let mut f = fuel2;
        loop
            invariant_except_break
                self.wf(),
                errors_extend(old(self).errors@, self.errors@),
                self.errors@.len() == 0 ==> node_wf(*node),
                f <= fuel2,
                fuel2 < fuel,
                simple == (fuel >= 2 && crate::token::spec_prec_v(
                    crate::lexer::lex_spec(old(self).lexer.source@, old(self).lexer.at as int).0,
                ) < prec && (old(self).next is Number || old(self).next is Identifier)),
                simple ==> f == fuel2 && f >= 1 && self.errors@ == old(self).errors@
                    && crate::token::spec_prec(self.next) < prec && match old(self).next {
                    Token::Number(k) => *node == AstNode::Value(Literal::Num(k)),
                    Token::Identifier(nm) => match *node {
                        AstNode::Ident(n2) => n2@ == nm@,
                        _ => false,
                    },
                    _ => true,
                },
            ensures
                self.wf(),
                errors_extend(old(self).errors@, self.errors@),
                self.errors@.len() == 0 ==> node_wf(*node),
                simple ==> self.errors@ == old(self).errors@ && match old(self).next {
                    Token::Number(k) => *node == AstNode::Value(Literal::Num(k)),
                    Token::Identifier(nm) => match *node {
                        AstNode::Ident(n2) => n2@ == nm@,
                        _ => false,
                    },
                    _ => true,
                },
            decreases f,
        {
            if f == 0 {
                node = self.error("expression is nested too deeply");
                break;
            }
            f = f - 1;
            if prec > self.next.prec() {
                break;
            }
            self.advance();
            let kind = self.current.infix();
            node = match kind {
                Some(InfixKind::CallArgs) => self.call(node, f),
                Some(InfixKind::DotAccess) => self.dot_expr(node),
                Some(InfixKind::Assignment) => self.assign(node, f),
                Some(InfixKind::BinaryOp) => {
                    let p = self.current.prec() + 1;
                    self.binary(node, p, f)
                },
                None => self.error("token has no infix meaning"),
            };
        }
        node
    }

    /// The literal value the current token denotes; a non-literal current
    /// token is one diagnostic and an `Error` placeholder.
    fn literal(&mut self) -> (r: Ast)
        requires
            old(self).wf(),
        ensures
            final(self).wf(),
            errors_extend(old(self).errors@, final(self).errors@),
            final(self).errors@.len() == 0 ==> node_wf(*r),
            final(self).next == old(self).next,
            final(self).lexer == old(self).lexer,
            match old(self).current {
                Token::Number(n) => final(self).errors@ == old(self).errors@ && *r
                    == AstNode::Value(Literal::Num(n)),
                Token::String(st) => final(self).errors@ == old(self).errors@ && match *r {
                    AstNode::Value(Literal::Text(t)) => t@ == st@,
                    _ => false,
                },
                Token::True => final(self).errors@ == old(self).errors@ && *r == AstNode::Value(
                    Literal::Bool(true),
                ),
                Token::False => final(self).errors@ == old(self).errors@ && *r == AstNode::Value(
                    Literal::Bool(false),
                ),
                Token::Nil => final(self).errors@ == old(self).errors@ && *r == AstNode::Value(
                    Literal::Nil,
                ),
                _ => final(self).errors@.len() == old(self).errors@.len() + 1 && *r
                    == AstNode::Error,
            },
    {
        let lit: Literal = match &self.current {
            Token::Number(n) => Literal::Num(*n),
            Token::String(s) => Literal::Text(clone_chars(s)),
            Token::True => Literal::Bool(true),
            Token::False => Literal::Bool(false),
            Token::Nil => Literal::Nil,
            _ => {
                return self.error("expected a literal");
            },
        };
        proof {
            lemma_lit_wf_simple(lit);
            lemma_wf_value(lit);
        }
        Box::new(AstNode::Value(lit))
    }

    /// The identifier the current token holds; anything else is one
    /// diagnostic and an `Error` placeholder.
    fn ident(&mut self) -> (r: Ast)
        requires
            old(self).wf(),
        ensures
            final(self).wf(),
            errors_extend(old(self).errors@, final(self).errors@),
            final(self).errors@.len() == 0 ==> node_wf(*r),
            final(self).next == old(self).next,
            final(self).lexer == old(self).lexer,
            match old(self).current {
                Token::Identifier(nm) => final(self).errors@ == old(self).errors@ && match *r {
                    AstNode::Ident(n2) => n2@ == nm@,
                    _ => false,
                },
                _ => final(self).errors@.len() == old(self).errors@.len() + 1 && *r
                    == AstNode::Error,
            },
    {
        match &self.current {
            Token::Identifier(s) => {
                let name = clone_chars(s);
                proof {
                    lemma_wf_ident(name);
                }
                Box::new(AstNode::Ident(name))
            },
            _ => self.error("expected an identifier"),
        }
    }

    /// A call argument list: expressions separated by commas, closed by `)`.
    /// The callee stays in callee position.
    fn call(&mut self, func: Ast, fuel: u64) -> (r: Ast)
        requires
            old(self).wf(),
            node_wf(*func) || old(self).errors@.len() > 0,
        ensures
            final(self).wf(),
            errors_extend(old(self).errors@, final(self).errors@),
            final(self).errors@.len() == 0 ==> node_wf(*r),
            final(self).errors@.len() == old(self).errors@.len() ==> match *r {
                AstNode::Call(f, _) => *f == *func,
                _ => false,
            },
        decreases fuel, 1int,
    {
        let mut args: Vec<AstNode> = Vec::new();
        let mut f = fuel;
        let mut failed_arm: Option<Ast> = None;
        loop
            invariant_except_break
                self.wf(),
                errors_extend(old(self).errors@, self.errors@),
                self.errors@.len() == 0 ==> node_wf(*func) && (forall|j: int|
                    0 <= j < args@.len() ==> node_wf(#[trigger] args@[j])),
                f <= fuel,
                failed_arm is None,
            ensures
                self.wf(),
                errors_extend(old(self).errors@, self.errors@),
                (self.errors@.len() == 0 && failed_arm is None) ==> node_wf(*func) && (forall|j: int|
                    0 <= j < args@.len() ==> node_wf(#[trigger] args@[j])),
                failed_arm is Some ==> self.errors@.len() > old(self).errors@.len(),
            decreases f,
        {
            if f == 0 {
                let e = self.error("argument list is nested too deeply");
                failed_arm = Some(e);
                break;
            }
            f = f - 1;
            if self.pick(&Token::RParen) {
                break;
            }
            let arg = self.parse_with_prec(PREC_ASSIGN, f);
            args.push(*arg);
            if !self.next.same_kind(&Token::RParen) {
                if !self.pick(&Token::Comma) {
                    let e = self.error("expected comma after expression");
                    failed_arm = Some(e);
                    break;
                }
            }
        }
        match failed_arm {
            Some(e) => e,
            None => {
                proof {
                    if self.errors@.len() == 0 {
                        lemma_wf_call(func, args);
                    }
                }
                Box::new(AstNode::Call(func, args))
            },
        }
    }

    /// Member access: `lhs . name` desugars to a map lookup with the name as
    /// a string key; a missing name is one diagnostic and an `Error`
    /// placeholder.
    fn dot_expr(&mut self, lhs: Ast) -> (r: Ast)
        requires
            old(self).wf(),
            node_wf(*lhs) || old(self).errors@.len() > 0,
        ensures
            final(self).wf(),
            errors_extend(old(self).errors@, final(self).errors@),
            final(self).errors@.len() == 0 ==> node_wf(*r),
            match old(self).next {
                Token::Identifier(key) => final(self).errors@ == old(self).errors@ && match *r {
                    AstNode::Binary(op2, l, rr) => op2 == BinOp::Access && *l == *lhs && match *rr {
                        AstNode::Value(Literal::Text(t)) => t@ == key@,
                        _ => false,
                    },
                    _ => false,
                },
                _ => final(self).errors@.len() == old(self).errors@.len() + 1 && *r
                    == AstNode::Error,
            },
    {
        let key: Vec<char> = match &self.next {
            Token::Identifier(i) => clone_chars(i),
            _ => {
                return self.error("identifier expected following `.`");
            },
        };
        self.advance();
        let st: Ast = Box::new(AstNode::Value(Literal::Text(key)));
        proof {
            if self.errors@.len() == 0 {
                lemma_lit_wf_simple((*st)->Value_0);
                lemma_wf_value((*st)->Value_0);
                lemma_wf_binary(BinOp::Access, lhs, st);
            }
        }
        Box::new(AstNode::Binary(BinOp::Access, lhs, st))
    }

    /// Assignment and compound assignment. Only a plain identifier may stand
    /// on the left — any other target is exactly one diagnostic and an
    /// `Error` placeholder; the operators are right-associative, and
    /// `x op= e` desugars to `x = x op e` with `x` kept on the left.
    fn assign(&mut self, lhs: Ast, fuel: u64) -> (r: Ast)
        requires
            old(self).wf(),
            node_wf(*lhs) || old(self).errors@.len() > 0,
        ensures
            final(self).wf(),
            errors_extend(old(self).errors@, final(self).errors@),
            final(self).errors@.len() == 0 ==> node_wf(*r),
            match *lhs {
                AstNode::Ident(nm) => final(self).errors@.len() == old(self).errors@.len()
                    ==> match *r {
                    AstNode::Assign(n2, v) => n2@ == nm@ && match compound_op_of(
                        old(self).current,
                    ) {
                        Some(op) => match *v {
                            AstNode::Binary(op2, l, _) => op2 == op && *l == *lhs,
                            _ => false,
                        },
                        None => true,
                    },
                    _ => false,
                },
                _ => final(self).errors@.len() == old(self).errors@.len() + 1 && *r
                    == AstNode::Error,
            },
        decreases fuel, 1int,
    {
        let name: Vec<char> = match &*lhs {
            AstNode::Ident(s) => clone_chars(s),
            _ => {
                return self.error("invalid assignment target");
            },
        };
        let op: Option<BinOp> = match &self.current {
            Token::AddEq => Some(BinOp::Add),
            Token::SubEq => Some(BinOp::Sub),
            Token::MulEq => Some(BinOp::Mul),
            Token::DivEq => Some(BinOp::Div),
            Token::PowEq => Some(BinOp::Pow),
            Token::ModEq => Some(BinOp::Mod),
            _ => None,
        };
        let rhs = self.parse_with_prec(PREC_ASSIGN, fuel);
        let value: Ast = match op {
            Some(op) => {
                proof {
                    if self.errors@.len() == 0 {
                        lemma_wf_binary(op, lhs, rhs);
                    }
                }
                Box::new(AstNode::Binary(op, lhs, rhs))
            },
            None => rhs,
        };
        proof {
            if self.errors@.len() == 0 {
                lemma_wf_assign(name, value);
            }
        }
        Box::new(AstNode::Assign(name, value))
    }

    /// A function expression. A named `func name(params) { body }` is
    /// lowered to an unscoped block that assigns the anonymous function to
    /// `name` and then yields `name`, so the binding escapes to the
    /// enclosing scope.
    fn func(&mut self, fuel: u64) -> (r: Ast)
        requires
            old(self).wf(),
        ensures
            final(self).wf(),
            errors_extend(old(self).errors@, final(self).errors@),
            final(self).errors@.len() == 0 ==> node_wf(*r),
            final(self).errors@.len() == old(self).errors@.len() ==> match old(self).next {
                Token::Identifier(nm) => match *r {
                    AstNode::Block(stmts2, sc) => {
                        &&& sc == false
                        &&& stmts2@.len() == 2
                        &&& match stmts2@[0] {
                            Statement::Expression(e) => match *e {
                                AstNode::Assign(n2, fv) => n2@ == nm@ && match *fv {
                                    AstNode::Value(Literal::Func(fd)) => match fd.name {
                                        Some(fnm) => fnm@ == nm@,
                                        None => false,
                                    },
                                    _ => false,
                                },
                                _ => false,
                            },
                        }
                        &&& match stmts2@[1] {
                            Statement::Expression(e) => match *e {
                                AstNode::Ident(n3) => n3@ == nm@,
                                _ => false,
                            },
                        }
                    },
                    _ => false,
                },
                _ => match *r {
                    AstNode::Value(Literal::Func(fd)) => fd.name is None,
                    _ => false,
                },
            },
        decreases fuel, 4int,
    {
        let name: Option<Vec<char>> = match &self.next {
            Token::Identifier(s) => {
                let n = clone_chars(s);
                self.advance();
                Some(n)
            },
            _ => None,
        };
        if !self.pick(&Token::LParen) {
            return self.error("expected `(` to start argument list");
        }
        let mut params: Vec<Vec<char>> = Vec::new();
        let mut f = fuel;
        let mut failed: Option<Ast> = None;
        loop
            invariant_except_break
                self.wf(),
                errors_extend(old(self).errors@, self.errors@),
                failed is None,
            ensures
                self.wf(),
                errors_extend(old(self).errors@, self.errors@),
                failed is Some ==> self.errors@.len() > old(self).errors@.len() && *failed->Some_0
                    == AstNode::Error,
            decreases f,
        {
            if f == 0 {
                failed = Some(self.error("argument list is nested too deeply"));
                break;
            }
            f = f - 1;
            if self.pick(&Token::RParen) {
                break;
            }
            self.advance();
            let param: Vec<char> = match &self.current {
                Token::Identifier(id) => clone_chars(id),
                _ => {
                    failed = Some(self.error("expected identifier in argument list"));
                    break;
                },
            };
            params.push(param);
            if !self.next.same_kind(&Token::RParen) {
                if !self.pick(&Token::Comma) {
                    failed = Some(self.error("expected comma in argument list"));
                    break;
                }
            }
        }
        match failed {
            Some(e) => {
                return e;
            },
            None => {},
        }
        if !self.pick(&Token::LBrace) {
            return self.error("expected `{` to open the function block");
        }
        let body = self.block(true, true, fuel);
        let name2: Option<Vec<char>> = match &name {
            Some(n) => Some(clone_chars(n)),
            None => None,
        };
        let func = Function { name: name2, params, body };
        let rc = Rc::new(func);
        proof {
            if self.errors@.len() == 0 {
                lemma_lit_wf_func(rc);
                lemma_wf_value(Literal::Func(rc));
            }
        }
        let fn_value: Ast = Box::new(AstNode::Value(Literal::Func(rc)));
        match name {
            Some(n) => {
                // func hello() {} ==> hello = func hello() {}; hello
                let n2 = clone_chars(&n);
                let assign_node: Ast = Box::new(AstNode::Assign(n, fn_value));
                let ident_node: Ast = Box::new(AstNode::Ident(n2));
                proof {
                    if self.errors@.len() == 0 {
                        lemma_wf_assign((*assign_node)->Assign_0, (*assign_node)->Assign_1);
                        lemma_wf_ident((*ident_node)->Ident_0);
                        lemma_wf_stmt(assign_node);
                        lemma_wf_stmt(ident_node);
                    }
                }
                let assignment = Statement::Expression(assign_node);
                let lookup = Statement::Expression(ident_node);
                let mut stmts: Vec<Statement> = Vec::new();
                stmts.push(assignment);
                stmts.push(lookup);
                proof {
                    if self.errors@.len() == 0 {
                        lemma_wf_block(stmts, false);
                    }
                }
                Box::new(AstNode::Block(stmts, false))
            },
            None => fn_value,
        }
    }

    /// An `if` with a brace-delimited then-block and an optional `else`
    /// followed by another brace block or a nested `if`.
    fn if_expr(&mut self, fuel: u64) -> (r: Ast)
        requires
            old(self).wf(),
        ensures
            final(self).wf(),
            errors_extend(old(self).errors@, final(self).errors@),
            final(self).errors@.len() == 0 ==> node_wf(*r),
            final(self).errors@.len() == old(self).errors@.len() ==> (*r) is If,
        decreases fuel, 2int,
    {
        if fuel == 0 {
            return self.error("expression is nested too deeply");
        }
        let fuel2 = fuel - 1;
        let cond = self.parse_with_prec(PREC_ASSIGN, fuel2);
        if !self.pick(&Token::LBrace) {
            return self.error("expected `{` to open then block after if condition");
        }
        let then = self.block(true, true, fuel2);
        let or: Option<Ast> = if self.pick(&Token::Else) {
            if self.pick(&Token::LBrace) {
                Some(self.block(true, true, fuel2))
            } else if self.pick(&Token::If) {
                Some(self.if_expr(fuel2))
            } else {
                Some(self.error("expected block or if expression after `else`"))
            }
        } else {
            None
        };
        proof {
            if self.errors@.len() == 0 {
                lemma_wf_if(cond, then, or);
            }
        }
        Box::new(AstNode::If { cond, then, or })
    }

    /// A statement list. With `expect_end` the list runs to a matching `}`
    /// (a bare end of input is a diagnostic); at top level it runs to end of
    /// input. Semicolons between statements are skipped. `scoped` records
    /// whether evaluating the block opens a fresh scope.
    fn block(&mut self, expect_end: bool, scoped: bool, fuel: u64) -> (r: Ast)
        requires
            old(self).wf(),
        ensures
            final(self).wf(),
            errors_extend(old(self).errors@, final(self).errors@),
            final(self).errors@.len() == 0 ==> node_wf(*r),
            final(self).errors@.len() == old(self).errors@.len() ==> match *r {
                AstNode::Block(_, sc) => sc == scoped,
                _ => false,
            },
            // an immediately exhausted top-level source is accepted as the
            // empty program: no diagnostic, an empty statement list
            (fuel >= 1 && !expect_end && crate::token::spec_kind(old(self).next)
                == crate::token::spec_kind(Token::Eof)) ==> final(self).errors@ == old(
                self,
            ).errors@ && match *r {
                AstNode::Block(v2, sc) => v2@.len() == 0 && sc == scoped,
                _ => false,
            },
            // a block that must close with `}` but meets end of input owes
            // exactly one diagnostic (the unmatched-brace case)
            (fuel >= 1 && expect_end && crate::token::spec_kind(old(self).next)
                == crate::token::spec_kind(Token::Eof)) ==> final(self).errors@.len() == old(
                self,
            ).errors@.len() + 1 && *r == AstNode::Error,
        decreases fuel, 3int,
    {
        let mut v: Vec<Statement> = Vec::new();
        let mut f = fuel;
        let mut failed: Option<Ast> = None;
        loop
            invariant_except_break
                self.wf(),
                errors_extend(old(self).errors@, self.errors@),
                self.errors@.len() == 0 ==> (forall|j: int|
                    0 <= j < v@.len() ==> stmt_wf(#[trigger] v@[j])),
                failed is None,
                f <= fuel,
                (fuel >= 1 && !expect_end && crate::token::spec_kind(old(self).next)
                    == crate::token::spec_kind(Token::Eof)) ==> f == fuel && *self == *old(self)
                    && v@.len() == 0,
                (fuel >= 1 && expect_end && crate::token::spec_kind(old(self).next)
                    == crate::token::spec_kind(Token::Eof)) ==> f == fuel && *self == *old(self)
                    && v@.len() == 0,
            ensures
                self.wf(),
                errors_extend(old(self).errors@, self.errors@),
                failed is Some ==> self.errors@.len() > old(self).errors@.len(),
                failed is None && self.errors@.len() == 0 ==> (forall|j: int|
                    0 <= j < v@.len() ==> stmt_wf(#[trigger] v@[j])),
                (fuel >= 1 && !expect_end && crate::token::spec_kind(old(self).next)
                    == crate::token::spec_kind(Token::Eof)) ==> self.errors@ == old(self).errors@
                    && v@.len() == 0 && failed is None,
                (fuel >= 1 && expect_end && crate::token::spec_kind(old(self).next)
                    == crate::token::spec_kind(Token::Eof)) ==> self.errors@.len() == old(
                    self,
                ).errors@.len() + 1 && failed is Some && *failed->Some_0 == AstNode::Error,
            decreases f,
        {
            if f == 0 {
                failed = Some(self.error("block is nested too deeply"));
                break;
            }
            f = f - 1;
            if expect_end && self.pick(&Token::RBrace) {
                break;
            }
            if self.pick(&Token::Eof) {
                if expect_end {
                    failed = Some(self.error("expected closing `}`"));
                }
                break;
            }
            if self.pick(&Token::Semicolon) {
                continue;
            }
            let stmt = self.statement_with(f);
            v.push(stmt);
        }
        match failed {
            Some(e) => e,
            None => {
                proof {
                    if self.errors@.len() == 0 {
                        lemma_wf_block(v, scoped);
                    }
                }
                Box::new(AstNode::Block(v, scoped))
            },
        }
    }

    /// An ordinary binary operator: the operator the current token denotes,
    /// applied to `lhs` (kept on the left) and the expression that follows
    /// at precedence `prec_next`.
    fn binary(&mut self, lhs: Ast, prec_next: u8, fuel: u64) -> (r: Ast)
        requires
            old(self).wf(),
            node_wf(*lhs) || old(self).errors@.len() > 0,
        ensures
            final(self).wf(),
            errors_extend(old(self).errors@, final(self).errors@),
            final(self).errors@.len() == 0 ==> node_wf(*r),
            match binop_of(old(self).current) {
                Some(op) => final(self).errors@.len() == old(self).errors@.len() ==> match *r {
                    AstNode::Binary(op2, l, _) => op2 == op && *l == *lhs,
                    _ => false,
                },
                None => final(self).errors@.len() == old(self).errors@.len() + 1 && *r
                    == AstNode::Error,
            },
        decreases fuel, 1int,
    {
        let op: BinOp = match &self.current {
            Token::Add => BinOp::Add,
            Token::Sub => BinOp::Sub,
            Token::Mul => BinOp::Mul,
            Token::Div => BinOp::Div,
            Token::Mod => BinOp::Mod,
            Token::Pow => BinOp::Pow,
            Token::Eq => BinOp::Eq,
            Token::Gt => BinOp::Gt,
            Token::GtEq => BinOp::GtEq,
            Token::Lt => BinOp::Lt,
            Token::LtEq => BinOp::LtEq,
            Token::And => BinOp::And,
            Token::Or => BinOp::Or,
            _ => {
                return self.error("no binary expression implemented for this token");
            },
        };
        let rhs = self.parse_with_prec(prec_next, fuel);
        proof {
            if self.errors@.len() == 0 {
                lemma_wf_binary(op, lhs, rhs);
            }
        }
        Box::new(AstNode::Binary(op, lhs, rhs))
    }

    /// A prefix operator (`!` or unary `-`) applied to the expression that
    /// follows.
    fn unary(&mut self, fuel: u64) -> (r: Ast)
        requires
            old(self).wf(),
        ensures
            final(self).wf(),
            errors_extend(old(self).errors@, final(self).errors@),
            final(self).errors@.len() == 0 ==> node_wf(*r),
            match unop_of(old(self).current) {
                Some(op) => final(self).errors@.len() == old(self).errors@.len() ==> match *r {
                    AstNode::Unary(op2, _) => op2 == op,
                    _ => false,
                },
                None => final(self).errors@.len() == old(self).errors@.len() + 1 && *r
                    == AstNode::Error,
            },
        decreases fuel, 1int,
    {
        let op: UnOp = match &self.current {
            Token::Not => UnOp::Not,
            Token::Sub => UnOp::Sub,
            _ => {
                return self.error("no unary expression implemented for this token");
            },
        };
        let expr = self.parse_with_prec(PREC_ASSIGN, fuel);
        proof {
            if self.errors@.len() == 0 {
                lemma_wf_unary(op, expr);
            }
        }
        Box::new(AstNode::Unary(op, expr))
    }

    /// `loop { body }`: the surface syntax carries no label and no
    /// condition.
    fn loop_expr(&mut self, fuel: u64) -> (r: Ast)
        requires
            old(self).wf(),
        ensures
            final(self).wf(),
            errors_extend(old(self).errors@, final(self).errors@),
            final(self).errors@.len() == 0 ==> node_wf(*r),
            final(self).errors@.len() == old(self).errors@.len() ==> match *r {
                AstNode::Loop { label, cond, run: _ } => label is None && cond is None,
                _ => false,
            },
        decreases fuel, 4int,
    {
        let cond: Option<Ast> = None;
        let label: Option<Vec<char>> = None;
        if !self.pick(&Token::LBrace) {
            let _unused = self.error("expected `{` to open loop");
        }
        let run = self.block(true, true, fuel);
        proof {
            if self.errors@.len() == 0 {
                lemma_wf_loop(label, cond, run);
            }
        }
        Box::new(AstNode::Loop { cond, run, label })
    }
}

} // verus!
