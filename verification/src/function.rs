//! The callable abstraction: the polymorphism point between host-provided
//! native functions and user-defined functions.
//!
//! The set of implementers is closed, so it is a tagged variant dispatched
//! by pattern match. A `Function` value at run time is a handle into the
//! executor's table of `Callable`s; equality between function values is
//! handle identity.

use std::rc::Rc;

use vstd::prelude::*;

use crate::ast::Ast;

verus! {

/// Relies on `Rc::clone` (through the derived `Clone` of `Rc<T>`): cloning a
/// reference-counted pointer yields a pointer to the very same value.
#[verifier::external_body]
pub fn rc_dup<T>(rc: &Rc<T>) -> (r: Rc<T>)
    ensures
        r == *rc,
{
    rc.clone()
}

/// The native functions the executor itself provides. `Print` renders its
/// arguments and appends one line to the executor's output log (the host
/// flushes the log to its output device); `TypeOf` names its argument's
/// variant.
#[derive(Clone, Copy, Debug, PartialEq, Eq, Structural)]
pub enum NativeFn {
    Print,
    TypeOf,
}

/// A user-defined function: its optional name (for display), its parameter
/// names, and its body. Invoking one pushes a fresh scope and binds only the
/// parameters positionally: user functions do not close over their defining
/// scope, only over globals reachable by name lookup at call time.
#[derive(Debug)]
pub struct Function {
    pub name: Option<Vec<char>>,
    pub params: Vec<Vec<char>>,
    pub body: Ast,
}

/// A function the executor can invoke. User functions are shared: the
/// function table and the AST literal that produced an entry refer to the
/// same underlying `Function`.
#[derive(Debug)]
pub enum Callable {
    Native(NativeFn),
    User(Rc<Function>),
}

/// A copy of a callable sharing the same user function, if any.
pub fn clone_callable(c: &Callable) -> (r: Callable)
    ensures
        r == *c,
{
    match c {
        Callable::Native(k) => Callable::Native(*k),
        Callable::User(f) => Callable::User(rc_dup(f)),
    }
}

/// What the display of a function value depends on: whether it is native,
/// and for a user function its optional name.
pub ghost enum FuncKind {
    Native,
    User(Option<Seq<char>>),
}

pub open spec fn func_kind(c: Callable) -> FuncKind {
    match c {
        Callable::Native(_) => FuncKind::Native,
        Callable::User(f) => FuncKind::User(
            match f.name {
                Some(n) => Some(n@),
                None => None,
            },
        ),
    }
}

/// The kinds of all functions in a table, in order.
pub open spec fn funcs_view(funcs: Seq<Callable>) -> Seq<FuncKind> {
    funcs.map_values(|c: Callable| func_kind(c))
}

} // verus!
