//! The native functions the verified executor provides.
//!
//! `print` renders its arguments (space-joined display renderings) and
//! appends the line to the executor's output log; the host flushes the log
//! to its output device. `corelib_type` names its argument's variant.
//! Further host-facing natives — reading input, running a file, sleeping,
//! exiting, a floating-point math module — would need I/O, the clock or
//! floating point, so they belong to the host, outside the verified core.

use vstd::prelude::*;

use crate::executor::{RuntimeError, VM, vm_frame, vm_same, exit_view};
use crate::function::{FuncKind, funcs_view};
use crate::heap::{HeapCell, str_of};
use crate::render::{display_of, push_chars, render_display};
use crate::text::str_to_chars;
use crate::value::Value;

verus! {

/// The line `print` builds from its arguments: each argument's display
/// rendering, with a single space before every argument that does not start
/// the line (so an argument rendered as empty text adds no separator).
pub open spec fn print_acc(
    cells: Seq<HeapCell>,
    fks: Seq<FuncKind>,
    vals: Seq<Value>,
    i: int,
    acc: Seq<char>,
) -> Seq<char>
    decreases vals.len() - i,
        when 0 <= i
{
    if i >= vals.len() {
        acc
    } else {
        print_acc(
            cells,
            fks,
            vals,
            i + 1,
            acc + (if acc.len() > 0 {
                seq![' ']
            } else {
                Seq::empty()
            }) + display_of(cells, fks, vals[i]),
        )
    }
}

/// `Err(IncorrectNumberOfArgs)` unless exactly `len` values were passed.
pub fn assert_val_length(vals: &Vec<Value>, len: usize) -> (r: Result<(), RuntimeError>)
    ensures
        r == if vals@.len() == len {
            Ok::<(), RuntimeError>(())
        } else {
            Err::<(), RuntimeError>(RuntimeError::IncorrectNumberOfArgs)
        },
{
    if vals.len() == len {
        Ok(())
    } else {
        Err(RuntimeError::IncorrectNumberOfArgs)
    }
}

/// Render every argument, join with spaces, and append one line to the
/// executor's output log. Always succeeds with `Nil`.
pub fn print(vm: &mut VM, vals: Vec<Value>) -> (r: Result<Value, RuntimeError>)
    requires
        old(vm).wf(),
        forall|k: int| 0 <= k < vals@.len() ==> old(vm).ok_val(#[trigger] vals@[k]),
    ensures
        final(vm).wf(),
        vm_frame(*old(vm), *final(vm)),
        final(vm).output@.len() == old(vm).output@.len() + 1,
        final(vm).output@.last()@ == print_acc(
            old(vm).heap.cells@,
            funcs_view(old(vm).funcs@),
            vals@,
            0,
            Seq::<char>::empty(),
        ),
        final(vm).locals@ == old(vm).locals@,
        final(vm).heap.cells@ == old(vm).heap.cells@,
        final(vm).funcs@ == old(vm).funcs@,
        exit_view(final(vm).exit_flag) == exit_view(old(vm).exit_flag),
        r == Ok::<Value, RuntimeError>(Value::Nil),
{
    let ghost cells = vm.heap.cells@;
    let ghost fks = funcs_view(vm.funcs@);
    let mut line: Vec<char> = Vec::new();
    let mut i: usize = 0;
    while i < vals.len()
        invariant
            i <= vals@.len(),
            vm == old(vm),
            vm.wf(),
            cells == vm.heap.cells@,
            fks == funcs_view(vm.funcs@),
            forall|k: int| 0 <= k < vals@.len() ==> vm.ok_val(#[trigger] vals@[k]),
            print_acc(cells, fks, vals@, i as int, line@) == print_acc(
                cells,
                fks,
                vals@,
                0,
                Seq::<char>::empty(),
            ),
        decreases vals@.len() - i,
    {
        let ghost line0 = line@;
        if line.len() > 0 {
            line.push(' ');
        }
        let rendered = render_display(&vm.heap, &vm.funcs, vals[i]);
        push_chars(&mut line, &rendered);
        proof {
            let sep: Seq<char> = if line0.len() > 0 {
                seq![' ']
            } else {
                Seq::empty()
            };
            assert(line@ =~= line0 + sep + display_of(cells, fks, vals@[i as int]));
            assert(print_acc(cells, fks, vals@, i as int, line0) == print_acc(
                cells,
                fks,
                vals@,
                i + 1,
                line0 + sep + display_of(cells, fks, vals@[i as int]),
            ));
        }
        i = i + 1;
    }
    vm.output.push(line);
    proof {
        assert forall|k: int| 0 <= k < vm.locals@.locals.len() implies vm.ok_val(
            (#[trigger] vm.locals@.locals[k]).1,
        ) by {
            assert(old(vm).ok_val(vm.locals@.locals[k].1));
        }
    }
    Ok(Value::Nil)
}

/// The name of a value's variant, as `type` reports it.
pub open spec fn kind_name(v: Value) -> Seq<char> {
    match v {
        Value::Number(_) => "number"@,
        Value::Str(_) => "string"@,
        Value::Bool(_) => "bool"@,
        Value::Array(_) => "array"@,
        Value::MapVal(_) => "map"@,
        Value::Function(_) => "func"@,
        Value::Nil => "nil"@,
    }
}

/// Name the single argument's variant, as a fresh string value. Any other
/// argument count is `IncorrectNumberOfArgs`.
pub fn corelib_type(vm: &mut VM, vals: Vec<Value>) -> (r: Result<Value, RuntimeError>)
    requires
        old(vm).wf(),
    ensures
        final(vm).wf(),
        vm_frame(*old(vm), *final(vm)),
        vals@.len() != 1 ==> r == Err::<Value, RuntimeError>(RuntimeError::IncorrectNumberOfArgs)
            && vm_same(*old(vm), *final(vm)),
        vals@.len() == 1 ==> {
            &&& final(vm).heap.cells@.len() == old(vm).heap.cells@.len() + 1
            &&& str_of(
                final(vm).heap.cells@,
                crate::handle::Handle { idx: old(vm).heap.cells@.len() as usize },
            ) == kind_name(vals@[0])
            &&& r == Ok::<Value, RuntimeError>(
                Value::Str(crate::handle::Handle { idx: old(vm).heap.cells@.len() as usize }),
            )
            &&& final(vm).locals@ == old(vm).locals@
            &&& final(vm).funcs@ == old(vm).funcs@
            &&& final(vm).output@ == old(vm).output@
            &&& exit_view(final(vm).exit_flag) == exit_view(old(vm).exit_flag)
        },
        match r {
            Ok(v) => final(vm).ok_val(v),
            Err(_) => true,
        },
{
    match assert_val_length(&vals, 1) {
        Ok(_) => {},
        Err(e) => {
            return Err(e);
        },
    }
    let name: Vec<char> = match &vals[0] {
        Value::Number(_) => str_to_chars("number"),
        Value::Str(_) => str_to_chars("string"),
        Value::Bool(_) => str_to_chars("bool"),
        Value::Array(_) => str_to_chars("array"),
        Value::MapVal(_) => str_to_chars("map"),
        Value::Function(_) => str_to_chars("func"),
        Value::Nil => str_to_chars("nil"),
    };
    let h = vm.heap.alloc_str(name);
    proof {
        assert forall|k: int| 0 <= k < vm.locals@.locals.len() implies vm.ok_val(
            (#[trigger] vm.locals@.locals[k]).1,
        ) by {
            assert(old(vm).ok_val(vm.locals@.locals[k].1));
        }
    }
    Ok(Value::Str(h))
}

} // verus!
