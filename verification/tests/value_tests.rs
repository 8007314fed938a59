use tram::ast::BinOp;
use tram::executor::{RuntimeError, VM};
use tram::value::{Value, div_value, mag, neg_value, pow_value, rem_value};

fn chars(s: &str) -> Vec<char> {
    s.chars().collect()
}

#[test]
fn truthiness() {
    // Nil and Bool(false) are the only falsy values; Number(0), "" and []
    // are truthy.
    let mut vm = VM::new();
    let empty_str = Value::Str(vm.heap.alloc_str(Vec::new()));
    let empty_arr = Value::Array(vm.heap.alloc_array(Vec::new()));
    assert!(!Value::Nil.truthy());
    assert!(!Value::Bool(false).truthy());
    assert!(Value::Bool(true).truthy());
    assert!(Value::Number(0).truthy());
    assert!(Value::Number(-1).truthy());
    assert!(empty_str.truthy());
    assert!(empty_arr.truthy());
}

#[test]
fn numeric_narrowing() {
    assert_eq!(Value::Number(5).num(), Ok(5));
    assert_eq!(Value::Nil.num(), Err(RuntimeError::NotANumber));
    assert_eq!(Value::Bool(true).num(), Err(RuntimeError::NotANumber));
}

#[test]
fn num_op_arithmetic() {
    let a = Value::Number(7);
    let b = Value::Number(2);
    assert_eq!(a.num_op(&b, BinOp::Sub), Ok(Value::Number(5)));
    assert_eq!(a.num_op(&b, BinOp::Mul), Ok(Value::Number(14)));
    assert_eq!(a.num_op(&b, BinOp::Div), Ok(Value::Number(3)));
    assert_eq!(a.num_op(&b, BinOp::Mod), Ok(Value::Number(1)));
    assert_eq!(a.num_op(&b, BinOp::Pow), Ok(Value::Number(49)));
    assert_eq!(a.num_op(&Value::Nil, BinOp::Sub), Err(RuntimeError::NotANumber));
    assert_eq!(Value::Nil.num_op(&b, BinOp::Sub), Err(RuntimeError::NotANumber));
}

#[test]
fn division_truncates_toward_zero() {
    assert_eq!(div_value(-7, 2), -3);
    assert_eq!(div_value(7, -2), -3);
    assert_eq!(div_value(-7, -2), 3);
    assert_eq!(rem_value(-7, 2), -1);
    assert_eq!(rem_value(7, -2), 1);
}

#[test]
fn division_by_zero_yields_zero() {
    assert_eq!(div_value(5, 0), 0);
    assert_eq!(rem_value(5, 0), 0);
}

#[test]
fn negation_and_magnitude() {
    assert_eq!(neg_value(5), -5);
    assert_eq!(neg_value(i64::MIN), i64::MIN);
    assert_eq!(mag(-3), 3);
    assert_eq!(mag(i64::MIN), 9223372036854775808u64);
}

#[test]
fn power() {
    assert_eq!(pow_value(2, 10), 1024);
    assert_eq!(pow_value(5, 0), 1);
    assert_eq!(pow_value(2, -1), 0);
}

#[test]
fn wrapping_overflow() {
    assert_eq!(
        Value::Number(i64::MAX).num_op(&Value::Number(1), BinOp::Sub),
        Ok(Value::Number(i64::MAX - 1))
    );
    assert_eq!(
        Value::Number(i64::MIN).num_op(&Value::Number(1), BinOp::Sub),
        Ok(Value::Number(i64::MAX))
    );
}

#[test]
fn value_equality_structural_and_identity() {
    let mut vm = VM::new();
    let s1 = Value::Str(vm.heap.alloc_str(chars("ab")));
    let s2 = Value::Str(vm.heap.alloc_str(chars("ab")));
    let s3 = Value::Str(vm.heap.alloc_str(chars("cd")));
    // strings compare by contents, not by handle
    assert!(vm.heap.value_eq(s1, s2));
    assert!(!vm.heap.value_eq(s1, s3));
    assert!(vm.heap.value_eq(Value::Number(3), Value::Number(3)));
    assert!(!vm.heap.value_eq(Value::Number(3), Value::Number(4)));
    assert!(vm.heap.value_eq(Value::Nil, Value::Nil));
    assert!(!vm.heap.value_eq(Value::Nil, Value::Bool(false)));
    assert!(!vm.heap.value_eq(Value::Number(0), Value::Bool(false)));
}

#[test]
fn array_equality_recurses_into_contents() {
    let mut vm = VM::new();
    let inner1 = Value::Array(vm.heap.alloc_array(vec![Value::Number(2)]));
    let inner2 = Value::Array(vm.heap.alloc_array(vec![Value::Number(2)]));
    let a = Value::Array(vm.heap.alloc_array(vec![Value::Number(1), inner1]));
    let b = Value::Array(vm.heap.alloc_array(vec![Value::Number(1), inner2]));
    let c = Value::Array(vm.heap.alloc_array(vec![Value::Number(1)]));
    assert!(vm.heap.value_eq(a, b));
    assert!(!vm.heap.value_eq(a, c));
}

#[test]
fn any_two_maps_compare_equal() {
    let mut vm = VM::new();
    let m1 = Value::MapVal(vm.heap.alloc_map(Vec::new()));
    let h2 = vm.heap.alloc_map(Vec::new());
    vm.heap.map_insert(h2, Value::Number(1), Value::Number(2));
    let m2 = Value::MapVal(h2);
    assert!(vm.heap.value_eq(m1, m2));
}

#[test]
fn function_equality_is_identity() {
    let mut vm = VM::new();
    vm.register_stdlib();
    let f0 = Value::Function(tram::handle::Handle::new(0));
    let f0b = Value::Function(tram::handle::Handle::new(0));
    let f1 = Value::Function(tram::handle::Handle::new(1));
    assert!(vm.heap.value_eq(f0, f0b));
    assert!(!vm.heap.value_eq(f0, f1));
}

#[test]
fn narrowing_accessors() {
    let mut vm = VM::new();
    let s = Value::Str(vm.heap.alloc_str(chars("t")));
    let m = Value::MapVal(vm.heap.alloc_map(Vec::new()));
    assert!(s.string().is_ok());
    assert_eq!(s.map(), Err(RuntimeError::NotAMap));
    assert!(m.map().is_ok());
    assert_eq!(m.string(), Err(RuntimeError::NotAString));
    assert_eq!(Value::Nil.func(), Err(RuntimeError::NotAFunction));
}
