use tram::ast::BinOp;
use tram::executor::{RuntimeError, VM};
use tram::value::Value;

fn chars(s: &str) -> Vec<char> {
    s.chars().collect()
}

fn num_array(vm: &mut VM, ns: &[i64]) -> Value {
    let elems: Vec<Value> = ns.iter().map(|n| Value::Number(*n)).collect();
    Value::Array(vm.heap.alloc_array(elems))
}

fn array_contents(vm: &VM, v: Value) -> Vec<i64> {
    let h = match v {
        Value::Array(h) => h,
        _ => panic!("not an array"),
    };
    let mut out = Vec::new();
    for i in 0..vm.heap.array_len(h) {
        match vm.heap.array_get(h, i) {
            Value::Number(n) => out.push(n),
            _ => panic!("not a number element"),
        }
    }
    out
}

#[test]
fn array_add_concatenates() {
    let mut vm = VM::new();
    let a = num_array(&mut vm, &[1]);
    let b = num_array(&mut vm, &[2]);
    let r = vm.apply_binary(&BinOp::Add, a, b).unwrap();
    assert_eq!(array_contents(&vm, r), vec![1, 2]);
}

#[test]
fn array_add_is_associative_on_representation() {
    // ([1]+[2])+[3] == [1]+([2]+[3]) elementwise
    let mut vm = VM::new();
    let a1 = num_array(&mut vm, &[1]);
    let a2 = num_array(&mut vm, &[2]);
    let a3 = num_array(&mut vm, &[3]);
    let left_inner = vm.apply_binary(&BinOp::Add, a1, a2).unwrap();
    let left = vm.apply_binary(&BinOp::Add, left_inner, a3).unwrap();
    let b1 = num_array(&mut vm, &[1]);
    let b2 = num_array(&mut vm, &[2]);
    let b3 = num_array(&mut vm, &[3]);
    let right_inner = vm.apply_binary(&BinOp::Add, b2, b3).unwrap();
    let right = vm.apply_binary(&BinOp::Add, b1, right_inner).unwrap();
    assert_eq!(array_contents(&vm, left), vec![1, 2, 3]);
    assert_eq!(array_contents(&vm, right), vec![1, 2, 3]);
    assert!(vm.heap.value_eq(left, right));
}

#[test]
fn string_concatenation_is_not_commutative() {
    let mut vm = VM::new();
    let a = Value::Str(vm.heap.alloc_str(chars("a")));
    let b = Value::Str(vm.heap.alloc_str(chars("b")));
    let ab = vm.apply_binary(&BinOp::Add, a, b).unwrap();
    let ba = vm.apply_binary(&BinOp::Add, b, a).unwrap();
    assert!(!vm.heap.value_eq(ab, ba));
    match ab {
        Value::Str(h) => assert_eq!(*vm.heap.str_cell(h), chars("ab")),
        _ => panic!("not a string"),
    }
    match ba {
        Value::Str(h) => assert_eq!(*vm.heap.str_cell(h), chars("ba")),
        _ => panic!("not a string"),
    }
}

#[test]
fn mixed_add_fails() {
    let mut vm = VM::new();
    let s = Value::Str(vm.heap.alloc_str(chars("a")));
    let a = num_array(&mut vm, &[1]);
    assert_eq!(vm.apply_binary(&BinOp::Add, s, Value::Number(1)), Err(RuntimeError::CannotAdd));
    assert_eq!(vm.apply_binary(&BinOp::Add, a, s), Err(RuntimeError::CannotAdd));
    assert_eq!(
        vm.apply_binary(&BinOp::Add, Value::Nil, Value::Nil),
        Err(RuntimeError::CannotAdd)
    );
}

#[test]
fn aliased_arrays_share_mutation() {
    // b = a: mutating through b is observable through a.
    let mut vm = VM::new();
    let a = num_array(&mut vm, &[10, 20]);
    let b = a;
    let hb = match b {
        Value::Array(h) => h,
        _ => panic!("not an array"),
    };
    vm.heap.array_set(hb, 0, Value::Number(99));
    assert_eq!(array_contents(&vm, a), vec![99, 20]);
    assert!(vm.heap.value_eq(a, b));
}

#[test]
fn concatenation_copies_rather_than_aliases() {
    // The concatenated array is a fresh cell: mutating a source afterwards
    // does not change it.
    let mut vm = VM::new();
    let a = num_array(&mut vm, &[1]);
    let b = num_array(&mut vm, &[2]);
    let r = vm.apply_binary(&BinOp::Add, a, b).unwrap();
    let ha = match a {
        Value::Array(h) => h,
        _ => panic!("not an array"),
    };
    vm.heap.array_set(ha, 0, Value::Number(7));
    assert_eq!(array_contents(&vm, r), vec![1, 2]);
}

#[test]
fn map_lookup_and_insert() {
    let mut vm = VM::new();
    let h = vm.heap.alloc_map(Vec::new());
    let key = Value::Str(vm.heap.alloc_str(chars("k")));
    assert_eq!(vm.heap.map_get(h, key), Value::Nil);
    vm.heap.map_insert(h, key, Value::Number(1));
    assert_eq!(vm.heap.map_get(h, key), Value::Number(1));
    // rebinding an existing key keeps one entry
    vm.heap.map_insert(h, key, Value::Number(2));
    assert_eq!(vm.heap.map_get(h, key), Value::Number(2));
    // a key equal by contents (different handle) finds the same entry
    let key2 = Value::Str(vm.heap.alloc_str(chars("k")));
    assert_eq!(vm.heap.map_get(h, key2), Value::Number(2));
}

#[test]
fn map_access_through_operator() {
    let mut vm = VM::new();
    let h = vm.heap.alloc_map(Vec::new());
    let key = Value::Str(vm.heap.alloc_str(chars("k")));
    vm.heap.map_insert(h, key, Value::Number(5));
    let m = Value::MapVal(h);
    assert_eq!(vm.apply_binary(&BinOp::Access, m, key), Ok(Value::Number(5)));
    let missing = Value::Str(vm.heap.alloc_str(chars("nope")));
    assert_eq!(vm.apply_binary(&BinOp::Access, m, missing), Ok(Value::Nil));
    assert_eq!(
        vm.apply_binary(&BinOp::Access, Value::Number(1), key),
        Err(RuntimeError::NotAMap)
    );
}

#[test]
fn comparisons_need_numbers() {
    let mut vm = VM::new();
    assert_eq!(
        vm.apply_binary(&BinOp::Lt, Value::Number(1), Value::Number(2)),
        Ok(Value::Bool(true))
    );
    assert_eq!(
        vm.apply_binary(&BinOp::GtEq, Value::Number(2), Value::Number(2)),
        Ok(Value::Bool(true))
    );
    assert_eq!(
        vm.apply_binary(&BinOp::Lt, Value::Nil, Value::Number(2)),
        Err(RuntimeError::NotANumber)
    );
}

#[test]
fn rendering_values() {
    let mut vm = VM::new();
    let inner = Value::Array(vm.heap.alloc_array(vec![Value::Number(2)]));
    let arr = Value::Array(vm.heap.alloc_array(vec![Value::Number(1), inner]));
    let text = tram::render::render_debug(&vm.heap, &vm.funcs, arr);
    let s: String = text.iter().collect();
    assert_eq!(s, "[1, [2]]");
    let neg = tram::render::render_debug(&vm.heap, &vm.funcs, Value::Number(-42));
    let s: String = neg.iter().collect();
    assert_eq!(s, "-42");
    let st = Value::Str(vm.heap.alloc_str(chars("hi")));
    let s: String = tram::render::render_debug(&vm.heap, &vm.funcs, st).iter().collect();
    assert_eq!(s, "\"hi\"");
    let s: String = tram::render::render_display(&vm.heap, &vm.funcs, st).iter().collect();
    assert_eq!(s, "hi");
    let s: String = tram::render::render_debug(&vm.heap, &vm.funcs, Value::Nil).iter().collect();
    assert_eq!(s, "nil");
}

#[test]
fn rendering_maps() {
    let mut vm = VM::new();
    let h = vm.heap.alloc_map(Vec::new());
    let s: String =
        tram::render::render_debug(&vm.heap, &vm.funcs, Value::MapVal(h)).iter().collect();
    assert_eq!(s, "%{\n}");
    let k = Value::Str(vm.heap.alloc_str(chars("pi")));
    vm.heap.map_insert(h, k, Value::Number(3));
    let k2 = Value::Str(vm.heap.alloc_str(chars("e")));
    vm.heap.map_insert(h, k2, Value::Number(2));
    let s: String =
        tram::render::render_debug(&vm.heap, &vm.funcs, Value::MapVal(h)).iter().collect();
    assert_eq!(s, "%{\n    pi => 3, \n    e => 2\n}");
}
