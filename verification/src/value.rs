//! The tagged runtime value and its numeric operations.
//!
//! Numbers are 64-bit signed integers; the arithmetic operators wrap on
//! overflow, division and remainder truncate toward zero and yield 0 for a
//! zero divisor, and a negative exponent yields 0. Each of these semantics is
//! pinned exactly by a spec function below.

use vstd::prelude::*;

use crate::executor::RuntimeError;
use crate::handle::Handle;
use crate::ast::BinOp;

verus! {

/// A runtime value. `Str`, `Array` and `Map` are handles into the executor's
/// heap ([`crate::heap::Heap`]): copying the value aliases the underlying
/// storage. `Function` is a handle into the executor's function table;
/// equality between two function values is handle identity.
#[derive(Clone, Copy, Debug, PartialEq, Eq, Structural)]
pub enum Value {
    Number(i64),
    Str(Handle),
    Bool(bool),
    Array(Handle),
    MapVal(Handle),
    Function(Handle),
    Nil,
}

/// Truthiness: `Nil` and `Bool(false)` are the only falsy values; every
/// other value, including `Number(0)`, the empty string and the empty
/// array, is truthy.
pub open spec fn spec_truthy(v: Value) -> bool {
    match v {
        Value::Bool(b) => b,
        Value::Nil => false,
        _ => true,
    }
}

/// A tag distinguishing the seven value variants.
pub open spec fn spec_discr(v: Value) -> int {
    match v {
        Value::Number(_) => 0,
        Value::Str(_) => 1,
        Value::Bool(_) => 2,
        Value::Array(_) => 3,
        Value::MapVal(_) => 4,
        Value::Function(_) => 5,
        Value::Nil => 6,
    }
}

pub open spec fn spec_mag(x: int) -> int {
    if x < 0 {
        -x
    } else {
        x
    }
}

/// Negation, wrapping on the one overflowing input.
pub open spec fn spec_neg(x: i64) -> i64 {
    if x == i64::MIN {
        i64::MIN
    } else {
        (-x) as i64
    }
}

/// Division truncating toward zero; a zero divisor yields 0 and the one
/// overflowing quotient wraps.
pub open spec fn spec_div(x: i64, y: i64) -> i64 {
    if y == 0 {
        0
    } else {
        let q = spec_mag(x as int) / spec_mag(y as int);
        if (x < 0) == (y < 0) {
            if q > i64::MAX {
                i64::MIN
            } else {
                q as i64
            }
        } else {
            (-q) as i64
        }
    }
}

/// Remainder with the sign of the dividend (so that
/// `x == y * spec_div(x, y) + spec_rem(x, y)` whenever nothing wraps);
/// a zero divisor yields 0.
pub open spec fn spec_rem(x: i64, y: i64) -> i64 {
    if y == 0 {
        0
    } else {
        let r = spec_mag(x as int) % spec_mag(y as int);
        if x < 0 {
            (-r) as i64
        } else {
            r as i64
        }
    }
}

/// Wrapping integer exponentiation for a non-negative exponent.
pub open spec fn pow_wrap(b: i64, e: int) -> i64
    decreases e,
{
    if e <= 0 {
        1
    } else {
        pow_wrap(b, e - 1).wrapping_mul(b)
    }
}

/// Exponentiation: wrapping repeated multiplication; a negative exponent
/// yields 0.
pub open spec fn spec_pow(b: i64, e: i64) -> i64 {
    if e < 0 {
        0
    } else {
        pow_wrap(b, e as int)
    }
}

/// The result of a purely numeric binary operator.
pub open spec fn spec_num_binop(op: BinOp, x: i64, y: i64) -> i64 {
    match op {
        BinOp::Add => x.wrapping_add(y),
        BinOp::Sub => x.wrapping_sub(y),
        BinOp::Mul => x.wrapping_mul(y),
        BinOp::Div => spec_div(x, y),
        BinOp::Pow => spec_pow(x, y),
        BinOp::Mod => spec_rem(x, y),
        _ => 0,
    }
}

/// Whether `op` is one of the operators `num_op` accepts.
pub open spec fn is_num_binop(op: BinOp) -> bool {
    op == BinOp::Sub || op == BinOp::Mul || op == BinOp::Div || op == BinOp::Pow || op
        == BinOp::Mod
}

pub fn mag(x: i64) -> (m: u64)
    ensures
        m == spec_mag(x as int),
{
    if x >= 0 {
        x as u64
    } else if x == i64::MIN {
        9223372036854775808u64
    } else {
        (-x) as u64
    }
}

pub fn neg_value(x: i64) -> (r: i64)
    ensures
        r == spec_neg(x),
{
    if x == i64::MIN {
        i64::MIN
    } else {
        -x
    }
}

pub fn div_value(x: i64, y: i64) -> (r: i64)
    ensures
        r == spec_div(x, y),
{
    if y == 0 {
        return 0;
    }
    let mx = mag(x);
    let my = mag(y);
    let q = mx / my;
    if (x < 0) == (y < 0) {
        if q > i64::MAX as u64 {
            i64::MIN
        } else {
            q as i64
        }
    } else {
        if q >= 9223372036854775808u64 {
            i64::MIN
        } else {
            -(q as i64)
        }
    }
}

pub fn rem_value(x: i64, y: i64) -> (r: i64)
    ensures
        r == spec_rem(x, y),
{
    if y == 0 {
        return 0;
    }
    let mx = mag(x);
    let my = mag(y);
    let r = mx % my;
    proof {
        assert(r < my);
    }
    if x < 0 {
        -(r as i64)
    } else {
        r as i64
    }
}

pub fn pow_value(b: i64, e: i64) -> (r: i64)
    ensures
        r == spec_pow(b, e),
{
    if e < 0 {
        return 0;
    }
    let mut acc: i64 = 1;
    let mut i: i64 = 0;
    while i < e
        invariant
            0 <= i <= e,
            acc == pow_wrap(b, i as int),
        decreases e - i,
    {
        acc = acc.wrapping_mul(b);
        i = i + 1;
    }
    acc
}

impl Value {
    /// Truthiness of this value; see [`spec_truthy`].
    pub fn truthy(&self) -> (r: bool)
        ensures
            r == spec_truthy(*self),
    {
        match self {
            Value::Number(_)
            | Value::MapVal(_)
            | Value::Str(_)
            | Value::Array(_)
            | Value::Function(_) => true,
            Value::Bool(b) => *b,
            Value::Nil => false,
        }
    }

    /// Narrow to a number, or fail with `NotANumber`.
    pub fn num(&self) -> (r: Result<i64, RuntimeError>)
        ensures
            r == match *self {
                Value::Number(n) => Result::<i64, RuntimeError>::Ok(n),
                _ => Result::<i64, RuntimeError>::Err(RuntimeError::NotANumber),
            },
    {
        match self {
            Value::Number(n) => Ok(*n),
            _ => Err(RuntimeError::NotANumber),
        }
    }

    /// Narrow both operands to numbers and apply a numeric operator,
    /// centralizing the "both operands must be numeric" failure mode for
    /// subtraction, multiplication, division, power and modulo.
    pub fn num_op(&self, other: &Value, op: BinOp) -> (r: Result<Value, RuntimeError>)
        requires
            is_num_binop(op),
        ensures
            r == match (*self, *other) {
                (Value::Number(x), Value::Number(y)) => Result::<Value, RuntimeError>::Ok(
                    Value::Number(spec_num_binop(op, x, y)),
                ),
                _ => Result::<Value, RuntimeError>::Err(RuntimeError::NotANumber),
            },
    {
        let x = match self.num() {
            Ok(n) => n,
            Err(e) => {
                return Err(e);
            },
        };
        let y = match other.num() {
            Ok(n) => n,
            Err(e) => {
                return Err(e);
            },
        };
        let z = match op {
            BinOp::Sub => x.wrapping_sub(y),
            BinOp::Mul => x.wrapping_mul(y),
            BinOp::Div => div_value(x, y),
            BinOp::Pow => pow_value(x, y),
            BinOp::Mod => rem_value(x, y),
            _ => 0,
        };
        Ok(Value::Number(z))
    }

    /// Narrow to a function handle, or fail with `NotAFunction`.
    pub fn func(&self) -> (r: Result<Handle, RuntimeError>)
        ensures
            r == match *self {
                Value::Function(h) => Result::<Handle, RuntimeError>::Ok(h),
                _ => Result::<Handle, RuntimeError>::Err(RuntimeError::NotAFunction),
            },
    {
        match self {
            Value::Function(h) => Ok(*h),
            _ => Err(RuntimeError::NotAFunction),
        }
    }

    /// Narrow to a string handle, or fail with `NotAString`.
    pub fn string(&self) -> (r: Result<Handle, RuntimeError>)
        ensures
            r == match *self {
                Value::Str(h) => Result::<Handle, RuntimeError>::Ok(h),
                _ => Result::<Handle, RuntimeError>::Err(RuntimeError::NotAString),
            },
    {
        match self {
            Value::Str(h) => Ok(*h),
            _ => Err(RuntimeError::NotAString),
        }
    }

    /// Narrow to a map handle, or fail with `NotAMap`.
    pub fn map(&self) -> (r: Result<Handle, RuntimeError>)
        ensures
            r == match *self {
                Value::MapVal(h) => Result::<Handle, RuntimeError>::Ok(h),
                _ => Result::<Handle, RuntimeError>::Err(RuntimeError::NotAMap),
            },
    {
        match self {
            Value::MapVal(h) => Ok(*h),
            _ => Err(RuntimeError::NotAMap),
        }
    }
}

/// `Nil` and `Bool(false)` are the only falsy values: every other value is
/// truthy.
pub proof fn lemma_truthiness(v: Value)
    ensures
        spec_truthy(v) <==> !(v == Value::Nil || v == Value::Bool(false)),
{
}

} // verus!
