//! The abstract syntax tree the parser produces and the executor consumes.
//!
//! The tree is immutable: built once by the parser, never changed afterwards.
//! A construct that failed to parse is represented by [`AstNode::Error`]; a
//! program that parsed with zero diagnostics contains none of these (see
//! [`node_wf`]), and the executor refuses to evaluate one.

use std::rc::Rc;

use vstd::prelude::*;

use crate::function::Function;

verus! {

broadcast use vstd::std_specs::vec::group_vec_axioms;

#[derive(Clone, Copy, Debug, PartialEq, Eq, Structural)]
pub enum BinOp {
    Add,
    Sub,
    Mul,
    Div,
    Pow,
    Mod,
    Eq,
    Gt,
    GtEq,
    Lt,
    LtEq,
    And,
    Or,
    /// Member access: the left side must be a map, the right side is the key.
    Access,
}

#[derive(Clone, Copy, Debug, PartialEq, Eq, Structural)]
pub enum UnOp {
    Not,
    Sub,
}

pub type Ast = Box<AstNode>;

/// A literal value as it stands in the source: plain data, no runtime
/// handles. The executor turns a `Text` or `Func` literal into a fresh
/// heap or function-table entry each time it is evaluated.
#[derive(Debug)]
pub enum Literal {
    Num(i64),
    Text(Vec<char>),
    Bool(bool),
    Nil,
    Func(Rc<Function>),
}

#[derive(Debug)]
pub enum AstNode {
    Call(Ast, Vec<AstNode>),
    Value(Literal),
    Ident(Vec<char>),
    Assign(Vec<char>, Ast),
    Binary(BinOp, Ast, Ast),
    Unary(UnOp, Ast),
    If { cond: Ast, then: Ast, or: Option<Ast> },
    /// A list of statements and a flag saying whether the block opens a new
    /// scope. A named-function declaration is lowered to an unscoped block so
    /// that the bound name escapes to the enclosing scope.
    Block(Vec<Statement>, bool),
    Loop { label: Option<Vec<char>>, cond: Option<Ast>, run: Ast },
    Break(Option<Vec<char>>),
    /// Placeholder for a construct that failed to parse. Never evaluated:
    /// a program with zero diagnostics contains none.
    Error,
}

#[derive(Debug)]
pub enum Statement {
    Expression(Ast),
}

/// Well-formedness: the tree contains no `Error` node anywhere, including
/// inside the bodies of function literals.
pub open spec fn node_wf(n: AstNode) -> bool
    decreases n,
{
    match n {
        AstNode::Call(f, args) => node_wf(*f) && (forall|i: int|
            0 <= i < args.len() ==> node_wf(#[trigger] args[i])),
        AstNode::Value(lit) => lit_wf(lit),
        AstNode::Ident(_) => true,
        AstNode::Assign(_, v) => node_wf(*v),
        AstNode::Binary(_, a, b) => node_wf(*a) && node_wf(*b),
        AstNode::Unary(_, a) => node_wf(*a),
        AstNode::If { cond, then, or } => node_wf(*cond) && node_wf(*then) && match or {
            Some(o) => node_wf(*o),
            None => true,
        },
        AstNode::Block(stmts, _) => forall|i: int|
            0 <= i < stmts.len() ==> stmt_wf(#[trigger] stmts[i]),
        AstNode::Loop { label: _, cond, run } => node_wf(*run) && match cond {
            Some(c) => node_wf(*c),
            None => true,
        },
        AstNode::Break(_) => true,
        AstNode::Error => false,
    }
}

pub open spec fn lit_wf(lit: Literal) -> bool
    decreases lit,
{
    match lit {
        Literal::Func(f) => node_wf(*f.body),
        _ => true,
    }
}

pub open spec fn stmt_wf(s: Statement) -> bool
    decreases s,
{
    match s {
        Statement::Expression(e) => node_wf(*e),
    }
}

// Constructor lemmas: how well-formedness is established for each node the
// parser builds (the three wf functions are mutually recursive, so callers
// use these instead of unfolding them).

pub proof fn lemma_lit_wf_simple(lit: Literal)
    requires
        !(lit is Func),
    ensures
        lit_wf(lit),
{
    reveal_with_fuel(lit_wf, 2);
}

pub proof fn lemma_lit_wf_func(f: Rc<Function>)
    requires
        node_wf(*f.body),
    ensures
        lit_wf(Literal::Func(f)),
{
    reveal_with_fuel(lit_wf, 2);
}

pub proof fn lemma_wf_value(lit: Literal)
    requires
        lit_wf(lit),
    ensures
        node_wf(AstNode::Value(lit)),
{
    reveal_with_fuel(node_wf, 2);
}

pub proof fn lemma_wf_ident(n: Vec<char>)
    ensures
        node_wf(AstNode::Ident(n)),
{
    reveal_with_fuel(node_wf, 2);
}

pub proof fn lemma_wf_break(l: Option<Vec<char>>)
    ensures
        node_wf(AstNode::Break(l)),
{
    reveal_with_fuel(node_wf, 2);
}

pub proof fn lemma_wf_assign(n: Vec<char>, v: Ast)
    requires
        node_wf(*v),
    ensures
        node_wf(AstNode::Assign(n, v)),
{
    reveal_with_fuel(node_wf, 2);
}

pub proof fn lemma_wf_binary(op: BinOp, a: Ast, b: Ast)
    requires
        node_wf(*a),
        node_wf(*b),
    ensures
        node_wf(AstNode::Binary(op, a, b)),
{
    reveal_with_fuel(node_wf, 2);
}

pub proof fn lemma_wf_unary(op: UnOp, a: Ast)
    requires
        node_wf(*a),
    ensures
        node_wf(AstNode::Unary(op, a)),
{
    reveal_with_fuel(node_wf, 2);
}

pub proof fn lemma_wf_if(cond: Ast, then: Ast, or: Option<Ast>)
    requires
        node_wf(*cond),
        node_wf(*then),
        match or {
            Some(o) => node_wf(*o),
            None => true,
        },
    ensures
        node_wf(AstNode::If { cond, then, or }),
{
    reveal_with_fuel(node_wf, 2);
}

pub proof fn lemma_wf_block(stmts: Vec<Statement>, scoped: bool)
    requires
        forall|j: int| 0 <= j < stmts@.len() ==> stmt_wf(#[trigger] stmts@[j]),
    ensures
        node_wf(AstNode::Block(stmts, scoped)),
{
    reveal_with_fuel(node_wf, 2);
}

pub proof fn lemma_wf_loop(label: Option<Vec<char>>, cond: Option<Ast>, run: Ast)
    requires
        node_wf(*run),
        match cond {
            Some(c) => node_wf(*c),
            None => true,
        },
    ensures
        node_wf(AstNode::Loop { label, cond, run }),
{
    reveal_with_fuel(node_wf, 2);
}

pub proof fn lemma_wf_call(f: Ast, args: Vec<AstNode>)
    requires
        node_wf(*f),
        forall|j: int| 0 <= j < args@.len() ==> node_wf(#[trigger] args@[j]),
    ensures
        node_wf(AstNode::Call(f, args)),
{
    reveal_with_fuel(node_wf, 2);
}

pub proof fn lemma_wf_stmt(e: Ast)
    requires
        node_wf(*e),
    ensures
        stmt_wf(Statement::Expression(e)),
{
    reveal_with_fuel(stmt_wf, 2);
}

} // verus!
