//! The tree-walking executor and its scoped variable environment.

use vstd::prelude::*;

use crate::ast::{AstNode, BinOp, Literal, Statement, UnOp, node_wf, lit_wf, stmt_wf};
use crate::function::{Callable, NativeFn, clone_callable, rc_dup};
use crate::heap::{Heap, cells_fns_ok, val_fn_ok, val_ok, lookup_pairs, lookup_text, map_of, arr_of, str_of, lemma_lookup_by_text, lemma_lookup_text_extend};
use crate::text::{chars_eq, clone_chars};
use crate::value::{Value, is_num_binop, spec_neg, spec_num_binop, spec_truthy};

verus! {

broadcast use vstd::std_specs::vec::group_vec_axioms;

/// A run-time error. These are returned, never thrown: they propagate upward
/// through every recursive evaluation until the top-level caller reports
/// them. `OutOfFuel` reports that execution exceeded the step budget the
/// executor was given (the language itself permits unbounded loops and
/// recursion; the verified executor makes the budget explicit).
#[derive(Clone, Copy, Debug, PartialEq, Eq, Structural)]
pub enum RuntimeError {
    CannotAdd,
    IncorrectNumberOfArgs,
    NotAFunction,
    NotANumber,
    NotAString,
    NotAMap,
    OutOfFuel,
}

/// The mathematical model of a [`LocalStack`]: the bindings in the order
/// they were added (names as character sequences) and the scope markers.
pub ghost struct StackModel {
    pub locals: Seq<(Seq<char>, Value)>,
    pub markers: Seq<usize>,
}

/// The index of the most recently added binding named `name`, scanning from
/// the end, or `None` if the name is unbound.
pub open spec fn find_rev(locals: Seq<(Seq<char>, Value)>, name: Seq<char>) -> Option<int>
    decreases locals.len(),
{
    if locals.len() == 0 {
        None
    } else if locals.last().0 == name {
        Some(locals.len() - 1)
    } else {
        find_rev(locals.drop_last(), name)
    }
}

/// Stack well-formedness: markers are weakly increasing and never point
/// beyond the bindings.
pub open spec fn stack_wf(m: StackModel) -> bool {
    &&& forall|k: int| 0 <= k < m.markers.len() ==> (#[trigger] m.markers[k]) <= m.locals.len()
    &&& forall|k1: int, k2: int|
        0 <= k1 <= k2 < m.markers.len() ==> (#[trigger] m.markers[k1]) <= (
        #[trigger] m.markers[k2])
}

/// What `get` returns: the value of the nearest binding, or `Nil` for an
/// unbound name.
pub open spec fn spec_get(m: StackModel, name: Seq<char>) -> Value {
    match find_rev(m.locals, name) {
        Some(i) => m.locals[i].1,
        None => Value::Nil,
    }
}

/// What `set` does: rebind the nearest existing binding with that name, or
/// append a new binding in the current scope.
pub open spec fn spec_set(m: StackModel, name: Seq<char>, val: Value) -> StackModel {
    match find_rev(m.locals, name) {
        Some(i) => StackModel {
            locals: m.locals.update(i, (m.locals[i].0, val)),
            markers: m.markers,
        },
        None => StackModel { locals: m.locals.push((name, val)), markers: m.markers },
    }
}

/// What `push` does: record the current length as a new scope marker.
pub open spec fn spec_push(m: StackModel) -> StackModel {
    StackModel { locals: m.locals, markers: m.markers.push(m.locals.len() as usize) }
}

/// What `pop` does: truncate the bindings back to the most recent marker and
/// drop that marker.
pub open spec fn spec_pop(m: StackModel) -> StackModel {
    StackModel {
        locals: m.locals.take(m.markers.last() as int),
        markers: m.markers.drop_last(),
    }
}

/// An ordered sequence of name-to-value bindings plus a stack of marker
/// offsets delimiting nested scopes. Exclusively owned by the executor for
/// the duration of one program run.
#[derive(Debug)]
pub struct LocalStack {
    pub markers: Vec<usize>,
    pub locals: Vec<(Vec<char>, Value)>,
}

impl LocalStack {
    pub open spec fn view(&self) -> StackModel {
        StackModel {
            locals: self.locals@.map_values(|p: (Vec<char>, Value)| (p.0@, p.1)),
            markers: self.markers@,
        }
    }

    pub open spec fn wf(&self) -> bool {
        stack_wf(self@)
    }

    pub fn new() -> (s: Self)
        ensures
            s@.locals.len() == 0,
            s@.markers.len() == 0,
            s.wf(),
    {
        Self { markers: Vec::new(), locals: Vec::new() }
    }

    /// The value of the nearest binding named `key`; an unbound name yields
    /// `Nil`, never an error.
    pub fn get(&self, key: &Vec<char>) -> (r: Value)
        ensures
            r == spec_get(self@, key@),
    {
        let ghost s = self@.locals;
        let mut i: usize = self.locals.len();
        proof {
            assert(s.take(i as int) =~= s);
        }
        while i > 0
            invariant
                i <= self.locals@.len(),
                s == self@.locals,
                s.len() == self.locals@.len(),
                find_rev(s, key@) == find_rev(s.take(i as int), key@),
            decreases i,
        {
            i = i - 1;
            let hit = chars_eq(&self.locals[i].0, key);
            proof {
                assert(s.take(i as int + 1).last() == s[i as int]);
                assert(s[i as int].0 == self.locals@[i as int].0@);
                assert(s.take(i as int + 1).drop_last() =~= s.take(i as int));
            }
            if hit {
                return self.locals[i].1;
            }
        }
        proof {
            assert(s.take(0).len() == 0);
        }
        Value::Nil
    }

    /// Whether `key` is bound anywhere in the visible chain.
    pub fn is_bound(&self, key: &Vec<char>) -> (r: bool)
        ensures
            r == (find_rev(self@.locals, key@) is Some),
    {
        let ghost s = self@.locals;
        let mut i: usize = self.locals.len();
        proof {
            assert(s.take(i as int) =~= s);
        }
        while i > 0
            invariant
                i <= self.locals@.len(),
                s == self@.locals,
                s.len() == self.locals@.len(),
                find_rev(s, key@) == find_rev(s.take(i as int), key@),
            decreases i,
        {
            i = i - 1;
            let hit = chars_eq(&self.locals[i].0, key);
            proof {
                assert(s.take(i as int + 1).last() == s[i as int]);
                assert(s.take(i as int + 1).drop_last() =~= s.take(i as int));
            }
            if hit {
                return true;
            }
        }
        proof {
            assert(s.take(0).len() == 0);
        }
        false
    }

    /// Open a new scope.
    pub fn push(&mut self)
        ensures
            final(self)@ == spec_push(old(self)@),
            old(self).wf() ==> final(self).wf(),
    {
        self.markers.push(self.locals.len());
        proof {
            assert(final(self)@.locals =~= old(self)@.locals);
        }
    }

    /// Close the current scope, truncating the bindings back to the most
    /// recent marker. Calling `pop` without a matching `push` is a
    /// programming error, excluded by precondition.
    pub fn pop(&mut self)
        requires
            old(self).wf(),
            old(self)@.markers.len() > 0,
        ensures
            final(self)@ == spec_pop(old(self)@),
            final(self).wf(),
    {
        let m = match self.markers.pop() {
            Some(m) => m,
            None => unreached(),
        };
        proof {
            assert(old(self)@.markers.last() == m);
            assert(m <= self.locals@.len());
        }
        self.locals.truncate(m);
        proof {
            assert(final(self)@.locals =~= old(self)@.locals.take(m as int));
            assert(final(self)@.markers =~= old(self)@.markers.drop_last());
            assert forall|k: int|
                0 <= k < final(self)@.markers.len() implies (#[trigger] final(self)@.markers[k])
                <= final(self)@.locals.len() && (k > 0 ==> final(self)@.markers[k - 1]
                <= final(self)@.markers[k]) by {
                assert(old(self)@.markers[k] <= old(self)@.markers[old(self)@.markers.len() - 1]);
            }
        }
    }

    /// Rebind the nearest existing binding named `name` if one exists
    /// anywhere in the visible chain (so assignment can mutate
    /// enclosing-scope variables), otherwise create a new binding in the
    /// current scope.
    pub fn set(&mut self, name: &Vec<char>, val: Value)
        ensures
            final(self)@ == spec_set(old(self)@, name@, val),
            old(self).wf() ==> final(self).wf(),
    {
        let ghost s = self@.locals;
        let mut i: usize = self.locals.len();
        proof {
            assert(s.take(i as int) =~= s);
        }
        while i > 0
            invariant
                i <= self.locals@.len(),
                self == old(self),
                s == self@.locals,
                s.len() == self.locals@.len(),
                find_rev(s, name@) == find_rev(s.take(i as int), name@),
            decreases i,
        {
            i = i - 1;
            let hit = chars_eq(&self.locals[i].0, name);
            proof {
                assert(s.take(i as int + 1).last() == s[i as int]);
                assert(s.take(i as int + 1).drop_last() =~= s.take(i as int));
            }
            if hit {
                let nm = clone_chars(&self.locals[i].0);
                self.locals[i] = (nm, val);
                proof {
                    assert(final(self)@.locals =~= old(self)@.locals.update(
                        i as int,
                        (old(self)@.locals[i as int].0, val),
                    ));
                }
                return;
            }
        }
        proof {
            assert(s.take(0).len() == 0);
        }
        let nm = clone_chars(name);
        self.locals.push((nm, val));
        proof {
            assert(final(self)@.locals =~= old(self)@.locals.push((name@, val)));
        }
    }
}

/// `find_rev` looks only at the names, never the values.
pub proof fn lemma_find_rev_names(s1: Seq<(Seq<char>, Value)>, s2: Seq<(Seq<char>, Value)>, name: Seq<char>)
    requires
        s1.len() == s2.len(),
        forall|k: int| 0 <= k < s1.len() ==> (#[trigger] s1[k]).0 == s2[k].0,
    ensures
        find_rev(s1, name) == find_rev(s2, name),
    decreases s1.len(),
{
    if s1.len() > 0 {
        assert(s1.last().0 == s2.last().0);
        lemma_find_rev_names(s1.drop_last(), s2.drop_last(), name);
    }
}

/// Shadow isolation: for a name unbound before `push`, a `set` inside the
/// new scope binds it there, and `pop` removes the binding again, restoring
/// the stack exactly; `get` yields `Nil` (the pre-push value) both before
/// and after. (For a name already bound in an enclosing scope, `set`
/// rebinds that enclosing binding instead — see
/// [`lemma_set_rebinds_enclosing`] — and `pop` does not undo it.)
pub proof fn lemma_shadow_isolation(m: StackModel, name: Seq<char>, v: Value)
    requires
        stack_wf(m),
        m.locals.len() < usize::MAX,
        find_rev(m.locals, name) is None,
    ensures
        spec_pop(spec_set(spec_push(m), name, v)) == m,
        spec_get(spec_pop(spec_set(spec_push(m), name, v)), name) == spec_get(m, name),
        spec_get(m, name) == Value::Nil,
{
    let m1 = spec_push(m);
    let m2 = spec_set(m1, name, v);
    assert(m2.locals == m.locals.push((name, v)));
    let m3 = spec_pop(m2);
    assert(m3.locals =~= m.locals);
    assert(m3.markers =~= m.markers);
}

/// Assigning to a name that is already bound (in the current scope or any
/// enclosing one) rebinds that existing binding in place: no new binding is
/// created, no other binding changes, and `get` then yields the new value.
pub proof fn lemma_set_rebinds_enclosing(m: StackModel, name: Seq<char>, v: Value, i: int)
    requires
        stack_wf(m),
        find_rev(m.locals, name) == Some(i),
    ensures
        0 <= i < m.locals.len(),
        spec_set(m, name, v).locals.len() == m.locals.len(),
        spec_set(m, name, v).locals[i] == (m.locals[i].0, v),
        forall|k: int|
            0 <= k < m.locals.len() && k != i ==> spec_set(m, name, v).locals[k] == m.locals[k],
        spec_set(m, name, v).markers == m.markers,
        spec_get(spec_set(m, name, v), name) == v,
    decreases m.locals.len(),
{
    lemma_find_rev_in_range(m.locals, name);
    let m2 = spec_set(m, name, v);
    lemma_find_rev_names(m.locals, m2.locals, name);
    assert(find_rev(m2.locals, name) == Some(i));
}

/// Whether the executor is running normally or unwinding to the loop a
/// `break` targets.
#[derive(Debug)]
pub enum ExitFlag {
    Continue,
    Break(Option<Vec<char>>),
}

/// The mathematical view of an exit flag.
pub ghost enum ExitV {
    Continue,
    Break(Option<Seq<char>>),
}

pub open spec fn exit_view(e: ExitFlag) -> ExitV {
    match e {
        ExitFlag::Continue => ExitV::Continue,
        ExitFlag::Break(l) => ExitV::Break(
            match l {
                Some(t) => Some(t@),
                None => None,
            },
        ),
    }
}

pub open spec fn label_view(l: Option<Vec<char>>) -> Option<Seq<char>> {
    match l {
        Some(t) => Some(t@),
        None => None,
    }
}

/// Whether a pending `break` terminates a loop carrying `label`: an
/// unlabeled break matches any loop, a labeled break matches only the loop
/// with the same label.
pub open spec fn spec_break_matches(e: ExitV, label: Option<Seq<char>>) -> bool {
    match e {
        ExitV::Continue => false,
        ExitV::Break(None) => true,
        ExitV::Break(Some(b)) => label == Some(b),
    }
}

/// See [`spec_break_matches`].
pub fn break_matches(e: &ExitFlag, label: &Option<Vec<char>>) -> (r: bool)
    ensures
        r == spec_break_matches(exit_view(*e), label_view(*label)),
{
    match e {
        ExitFlag::Continue => false,
        ExitFlag::Break(None) => true,
        ExitFlag::Break(Some(b)) => match label {
            Some(l) => chars_eq(l, b),
            None => false,
        },
    }
}

/// A stored function whose body a program could run must itself be
/// well-formed.
pub open spec fn callable_wf(c: Callable) -> bool {
    match c {
        Callable::Native(_) => true,
        Callable::User(f) => node_wf(*f.body),
    }
}

/// The tree-walking executor: the scope stack, the arena of compound
/// values, the table of callable functions, the output log that `print`
/// appends to, the per-run step budget, and the break flag.
pub struct VM {
    pub locals: LocalStack,
    pub heap: Heap,
    pub funcs: Vec<Callable>,
    pub output: Vec<Vec<char>>,
    pub fuel: u64,
    pub exit_flag: ExitFlag,
}

/// The step budget a fresh executor gives one `execute` call.
pub const DEFAULT_FUEL: u64 = 1000000;

impl VM {
    /// The size of the function table.
    pub open spec fn nf(self) -> int {
        self.funcs@.len() as int
    }

    /// A value all of whose handles point into this executor's arena and
    /// function table.
    pub open spec fn ok_val(self, v: Value) -> bool {
        val_ok(self.heap.cells@, v) && val_fn_ok(self.nf(), v)
    }

    /// Executor well-formedness: the arena and scope stack are well-formed,
    /// every handle stored anywhere points at something that exists, and
    /// every stored function body is free of `Error` nodes.
    pub open spec fn wf(self) -> bool {
        &&& self.heap.wf()
        &&& self.locals.wf()
        &&& cells_fns_ok(self.heap.cells@, self.nf())
        &&& forall|k: int|
            0 <= k < self.locals@.locals.len() ==> self.ok_val(
                (#[trigger] self.locals@.locals[k]).1,
            )
        &&& forall|k: int| 0 <= k < self.funcs@.len() ==> callable_wf(#[trigger] self.funcs@[k])
    }
}

/// Nothing observable changed between two executor states.
pub open spec fn vm_same(pre: VM, post: VM) -> bool {
    &&& post.locals@ == pre.locals@
    &&& post.heap.cells@ == pre.heap.cells@
    &&& post.funcs@ == pre.funcs@
    &&& post.output@ == pre.output@
    &&& post.fuel == pre.fuel
    &&& exit_view(post.exit_flag) == exit_view(pre.exit_flag)
}

/// What every evaluation step preserves: scope markers are balanced, the
/// bindings visible at entry keep their names and positions, and the arena,
/// function table and output log only grow (existing entries never change).
pub open spec fn vm_frame(pre: VM, post: VM) -> bool {
    &&& post.locals@.markers == pre.locals@.markers
    &&& post.locals@.locals.len() >= pre.locals@.locals.len()
    &&& forall|k: int|
        0 <= k < pre.locals@.locals.len() ==> (#[trigger] post.locals@.locals[k]).0
            == pre.locals@.locals[k].0
    &&& post.heap.cells@.len() >= pre.heap.cells@.len()
    &&& forall|k: int|
        0 <= k < pre.heap.cells@.len() ==> #[trigger] post.heap.cells@[k] == pre.heap.cells@[k]
    &&& post.funcs@.len() >= pre.funcs@.len()
    &&& forall|k: int| 0 <= k < pre.funcs@.len() ==> #[trigger] post.funcs@[k] == pre.funcs@[k]
    &&& post.output@.len() >= pre.output@.len()
    &&& forall|k: int| 0 <= k < pre.output@.len() ==> #[trigger] post.output@[k] == pre.output@[k]
    &&& post.fuel == pre.fuel
}

pub proof fn lemma_frame_trans(a: VM, b: VM, c: VM)
    requires
        vm_frame(a, b),
        vm_frame(b, c),
    ensures
        vm_frame(a, c),
{
}

/// A value valid for the pre-state is valid for any framed post-state.
pub proof fn lemma_ok_val_frame(pre: VM, post: VM, v: Value)
    requires
        vm_frame(pre, post),
        pre.ok_val(v),
    ensures
        post.ok_val(v),
{
}

pub proof fn lemma_ok_vals_frame(pre: VM, post: VM, vs: Seq<Value>)
    requires
        vm_frame(pre, post),
        forall|k: int| 0 <= k < vs.len() ==> pre.ok_val(#[trigger] vs[k]),
    ensures
        forall|k: int| 0 <= k < vs.len() ==> post.ok_val(#[trigger] vs[k]),
{
    assert forall|k: int| 0 <= k < vs.len() implies post.ok_val(#[trigger] vs[k]) by {
        lemma_ok_val_frame(pre, post, vs[k]);
    }
}

impl VM {
    pub fn new() -> (vm: VM)
        ensures
            vm.wf(),
            vm.locals@.locals.len() == 0,
            vm.locals@.markers.len() == 0,
            vm.heap.cells@.len() == 0,
            vm.funcs@.len() == 0,
            vm.output@.len() == 0,
            vm.fuel == DEFAULT_FUEL,
            exit_view(vm.exit_flag) == ExitV::Continue,
    {
        VM {
            locals: LocalStack::new(),
            heap: Heap::new(),
            funcs: Vec::new(),
            output: Vec::new(),
            fuel: DEFAULT_FUEL,
            exit_flag: ExitFlag::Continue,
        }
    }

    /// Bind `name` to `v` (see [`LocalStack::set`]), preserving executor
    /// well-formedness.
    pub fn vm_set(&mut self, name: &Vec<char>, v: Value)
        requires
            old(self).wf(),
            old(self).ok_val(v),
        ensures
            final(self).wf(),
            final(self).locals@ == spec_set(old(self).locals@, name@, v),
            final(self).heap.cells@ == old(self).heap.cells@,
            final(self).funcs@ == old(self).funcs@,
            final(self).output@ == old(self).output@,
            final(self).fuel == old(self).fuel,
            exit_view(final(self).exit_flag) == exit_view(old(self).exit_flag),
            vm_frame(*old(self), *final(self)),
    {
        let ghost pre = self.locals@;
        self.locals.set(name, v);
        proof {
            let post = self.locals@;
            match find_rev(pre.locals, name@) {
                Some(i) => {
                    lemma_find_rev_in_range(pre.locals, name@);
                    assert forall|k: int| 0 <= k < post.locals.len() implies self.ok_val(
                        (#[trigger] post.locals[k]).1,
                    ) by {
                        if k != i {
                            assert(post.locals[k] == pre.locals[k]);
                        }
                    }
                },
                None => {
                    assert forall|k: int| 0 <= k < post.locals.len() implies self.ok_val(
                        (#[trigger] post.locals[k]).1,
                    ) by {
                        if k < pre.locals.len() {
                            assert(post.locals[k] == pre.locals[k]);
                        }
                    }
                },
            }
        }
    }

    /// Register the executor's native functions under their global names.
    pub fn register_stdlib(&mut self)
        requires
            old(self).wf(),
        ensures
            final(self).wf(),
            final(self).funcs@ == old(self).funcs@.push(Callable::Native(NativeFn::Print)).push(
                Callable::Native(NativeFn::TypeOf),
            ),
            final(self).locals@ == spec_set(
                spec_set(
                    old(self).locals@,
                    "print"@,
                    Value::Function(crate::handle::Handle { idx: old(self).funcs@.len() as usize }),
                ),
                "type"@,
                Value::Function(
                    crate::handle::Handle { idx: (old(self).funcs@.len() + 1) as usize },
                ),
            ),
            final(self).heap.cells@ == old(self).heap.cells@,
            final(self).output@ == old(self).output@,
            final(self).fuel == old(self).fuel,
    {
        let h_print = crate::handle::Handle { idx: self.funcs.len() };
        self.funcs.push(Callable::Native(NativeFn::Print));
        let h_type = crate::handle::Handle { idx: self.funcs.len() };
        self.funcs.push(Callable::Native(NativeFn::TypeOf));
        proof {
            assert forall|k: int| 0 <= k < self.locals@.locals.len() implies self.ok_val(
                (#[trigger] self.locals@.locals[k]).1,
            ) by {
                assert(old(self).ok_val(self.locals@.locals[k].1));
            }
            assert forall|k: int| 0 <= k < self.funcs@.len() implies callable_wf(
                #[trigger] self.funcs@[k],
            ) by {
                if k < old(self).funcs@.len() {
                    assert(callable_wf(old(self).funcs@[k]));
                }
            }
            assert(cells_fns_ok(self.heap.cells@, self.nf())) by {
                assert forall|k: int|
                    0 <= k < self.heap.cells@.len() implies #[trigger] crate::heap::cell_fns_ok(
                    self.nf(),
                    self.heap.cells@[k],
                ) by {
                    assert(crate::heap::cell_fns_ok(old(self).nf(), self.heap.cells@[k]));
                    lemma_cell_fns_ok_grow(self.heap.cells@[k], old(self).nf(), self.nf());
                }
            }
        }
        let name_print = crate::text::str_to_chars("print");
        self.vm_set(&name_print, Value::Function(h_print));
        let name_type = crate::text::str_to_chars("type");
        self.vm_set(&name_type, Value::Function(h_type));
    }

    /// Apply a binary operator to two already-evaluated operands. `Add` is
    /// overloaded: two arrays or two strings concatenate into a fresh cell,
    /// two numbers add (wrapping), anything else is `CannotAdd`. The other
    /// arithmetic operators and the comparisons need two numbers; `==` uses
    /// the value-equality relation; `&&` and `||` combine both operands'
    /// truthiness (both already evaluated: no short-circuiting); `Access`
    /// looks the right operand up in the left map, `Nil` when missing.
    pub fn apply_binary(&mut self, op: &BinOp, a: Value, b: Value) -> (r: Result<
        Value,
        RuntimeError,
    >)
        requires
            old(self).wf(),
            old(self).ok_val(a),
            old(self).ok_val(b),
        ensures
            final(self).wf(),
            vm_frame(*old(self), *final(self)),
            final(self).locals@ == old(self).locals@,
            final(self).funcs@ == old(self).funcs@,
            final(self).output@ == old(self).output@,
            exit_view(final(self).exit_flag) == exit_view(old(self).exit_flag),
            match r {
                Ok(v) => final(self).ok_val(v),
                Err(_) => true,
            },
            *op == BinOp::Add ==> match (a, b) {
                (Value::Array(h1), Value::Array(h2)) => final(self).heap.cells@.len() == old(
                    self,
                ).heap.cells@.len() + 1 && r == Ok::<Value, RuntimeError>(
                    Value::Array(
                        crate::handle::Handle { idx: old(self).heap.cells@.len() as usize },
                    ),
                ) && arr_of(
                    final(self).heap.cells@,
                    crate::handle::Handle { idx: old(self).heap.cells@.len() as usize },
                ) == arr_of(old(self).heap.cells@, h1) + arr_of(old(self).heap.cells@, h2),
                (Value::Str(h1), Value::Str(h2)) => final(self).heap.cells@.len() == old(
                    self,
                ).heap.cells@.len() + 1 && r == Ok::<Value, RuntimeError>(
                    Value::Str(crate::handle::Handle { idx: old(self).heap.cells@.len() as usize }),
                ) && str_of(
                    final(self).heap.cells@,
                    crate::handle::Handle { idx: old(self).heap.cells@.len() as usize },
                ) == str_of(old(self).heap.cells@, h1) + str_of(old(self).heap.cells@, h2),
                (Value::Number(x), Value::Number(y)) => final(self).heap.cells@ == old(
                    self,
                ).heap.cells@ && r == Ok::<Value, RuntimeError>(Value::Number(x.wrapping_add(y))),
                _ => final(self).heap.cells@ == old(self).heap.cells@ && r == Err::<
                    Value,
                    RuntimeError,
                >(RuntimeError::CannotAdd),
            },
            is_num_binop(*op) ==> final(self).heap.cells@ == old(self).heap.cells@ && r == match (
                a,
                b,
            ) {
                (Value::Number(x), Value::Number(y)) => Ok::<Value, RuntimeError>(
                    Value::Number(spec_num_binop(*op, x, y)),
                ),
                _ => Err::<Value, RuntimeError>(RuntimeError::NotANumber),
            },
            *op == BinOp::Eq ==> final(self).heap.cells@ == old(self).heap.cells@ && r == Ok::<
                Value,
                RuntimeError,
            >(Value::Bool(crate::heap::val_eq(old(self).heap.cells@, a, b))),
            (*op == BinOp::Gt || *op == BinOp::GtEq || *op == BinOp::Lt || *op == BinOp::LtEq)
                ==> final(self).heap.cells@ == old(self).heap.cells@ && r == match (a, b) {
                (Value::Number(x), Value::Number(y)) => Ok::<Value, RuntimeError>(
                    Value::Bool(
                        match *op {
                            BinOp::Gt => x > y,
                            BinOp::GtEq => x >= y,
                            BinOp::Lt => x < y,
                            _ => x <= y,
                        },
                    ),
                ),
                _ => Err::<Value, RuntimeError>(RuntimeError::NotANumber),
            },
            *op == BinOp::And ==> final(self).heap.cells@ == old(self).heap.cells@ && r == Ok::<
                Value,
                RuntimeError,
            >(Value::Bool(spec_truthy(a) && spec_truthy(b))),
            *op == BinOp::Or ==> final(self).heap.cells@ == old(self).heap.cells@ && r == Ok::<
                Value,
                RuntimeError,
            >(Value::Bool(spec_truthy(a) || spec_truthy(b))),
            *op == BinOp::Access ==> final(self).heap.cells@ == old(self).heap.cells@ && r
                == match a {
                Value::MapVal(h) => Ok::<Value, RuntimeError>(
                    lookup_pairs(old(self).heap.cells@, map_of(old(self).heap.cells@, h), b),
                ),
                _ => Err::<Value, RuntimeError>(RuntimeError::NotAMap),
            },
    {
        match op {
            BinOp::Add => match (a, b) {
                (Value::Array(h1), Value::Array(h2)) => {
                    let h = self.heap.concat_arrays(h1, h2);
                    Ok(Value::Array(h))
                },
                (Value::Str(h1), Value::Str(h2)) => {
                    let h = self.heap.concat_strs(h1, h2);
                    Ok(Value::Str(h))
                },
                (Value::Number(x), Value::Number(y)) => Ok(Value::Number(x.wrapping_add(y))),
                _ => Err(RuntimeError::CannotAdd),
            },
            BinOp::Sub | BinOp::Mul | BinOp::Div | BinOp::Pow | BinOp::Mod => a.num_op(&b, *op),
            BinOp::Eq => Ok(Value::Bool(self.heap.value_eq(a, b))),
            BinOp::Gt => {
                let x = a.num()?;
                let y = b.num()?;
                Ok(Value::Bool(x > y))
            },
            BinOp::GtEq => {
                let x = a.num()?;
                let y = b.num()?;
                Ok(Value::Bool(x >= y))
            },
            BinOp::Lt => {
                let x = a.num()?;
                let y = b.num()?;
                Ok(Value::Bool(x < y))
            },
            BinOp::LtEq => {
                let x = a.num()?;
                let y = b.num()?;
                Ok(Value::Bool(x <= y))
            },
            BinOp::And => Ok(Value::Bool(a.truthy() && b.truthy())),
            BinOp::Or => Ok(Value::Bool(a.truthy() || b.truthy())),
            BinOp::Access => {
                let h = a.map()?;
                let v = self.heap.map_get(h, b);
                proof {
                    assert(crate::heap::cell_fns_ok(
                        self.nf(),
                        self.heap.cells@[h.idx as int],
                    ));
                }
                Ok(v)
            },
        }
    }

    /// Apply a unary operator to an already-evaluated operand: `!` negates
    /// truthiness, `-` negates a number (wrapping on the one overflowing
    /// input) and rejects anything else.
    pub fn apply_unary(&self, op: &UnOp, v: Value) -> (r: Result<Value, RuntimeError>)
        ensures
            *op == UnOp::Not ==> r == Ok::<Value, RuntimeError>(Value::Bool(!spec_truthy(v))),
            *op == UnOp::Sub ==> r == match v {
                Value::Number(n) => Ok::<Value, RuntimeError>(Value::Number(spec_neg(n))),
                _ => Err::<Value, RuntimeError>(RuntimeError::NotANumber),
            },
    {
        match op {
            UnOp::Not => Ok(Value::Bool(!v.truthy())),
            UnOp::Sub => {
                let n = v.num()?;
                Ok(Value::Number(crate::value::neg_value(n)))
            },
        }
    }

    /// Evaluate a node against this executor with the configured step
    /// budget. See [`VM::execute_with`] for the contract.
    pub fn execute(&mut self, a: &AstNode) -> (r: Result<Value, RuntimeError>)
        requires
            old(self).wf(),
            node_wf(*a),
        ensures
            final(self).wf(),
            vm_frame(*old(self), *final(self)),
            match r {
                Ok(v) => final(self).ok_val(v),
                Err(_) => true,
            },
            old(self).fuel > 0 ==> leaf_exact(*old(self), *final(self), *a, r),
            old(self).fuel >= 2 ==> binary_simple_exact(*old(self), *final(self), *a, r),
            and_still_evaluates_rhs(*old(self), *final(self), *a, r),
            break_discipline(*old(self), *final(self), *a, r),
    {
        let f = self.fuel;
        self.execute_with(a, f)
    }

    /// Evaluate a node recursively. Every recursive step (including each
    /// loop iteration) consumes one unit of `fuel`; a program that needs
    /// more than the budget fails with `OutOfFuel`. Within the budget the
    /// evaluation is the one the language defines; the exactly-pinned parts
    /// are [`leaf_exact`] here, [`VM::apply_binary`] and [`VM::apply_unary`]
    /// for the operators, [`LocalStack`] for scoping, and the natives in
    /// [`crate::corelib`].
    pub fn execute_with(&mut self, a: &AstNode, fuel: u64) -> (r: Result<Value, RuntimeError>)
        requires
            old(self).wf(),
            node_wf(*a),
        ensures
            final(self).wf(),
            vm_frame(*old(self), *final(self)),
            match r {
                Ok(v) => final(self).ok_val(v),
                Err(_) => true,
            },
            fuel == 0 ==> r == Err::<Value, RuntimeError>(RuntimeError::OutOfFuel) && vm_same(
                *old(self),
                *final(self),
            ),
            fuel > 0 ==> leaf_exact(*old(self), *final(self), *a, r),
            fuel >= 2 ==> binary_simple_exact(*old(self), *final(self), *a, r),
            and_still_evaluates_rhs(*old(self), *final(self), *a, r),
            break_discipline(*old(self), *final(self), *a, r),
        decreases fuel, 0int,
    {
        if fuel == 0 {
            return Err(RuntimeError::OutOfFuel);
        }
        let fuel2 = fuel - 1;
        match a {
            AstNode::Call(func, args) => {
                let fv = self.execute_with(func, fuel2)?;
                let ghost mid0 = *self;
                let mut vargs: Vec<Value> = Vec::new();
                let mut i: usize = 0;
                while i < args.len()
                    invariant
                        i <= args@.len(),
                        fuel >= 1,
                        fuel2 < fuel,
                        self.wf(),
                        node_wf(*a),
                        a is Call,
                        args@ == (*a)->Call_1@,
                        vm_frame(*old(self), *self),
                        self.ok_val(fv),
                        forall|k: int| 0 <= k < vargs@.len() ==> self.ok_val(#[trigger] vargs@[k]),
                    decreases args@.len() - i,
                {
                    proof {
                        assert(node_wf(args@[i as int]));
                    }
                    let ghost pre = *self;
                    let v = match self.execute_with(&args[i], fuel2) {
                        Ok(v) => v,
                        Err(e) => {
                            proof {
                                lemma_frame_trans(*old(self), pre, *self);
                            }
                            return Err(e);
                        },
                    };
                    proof {
                        lemma_frame_trans(*old(self), pre, *self);
                        lemma_ok_val_frame(pre, *self, fv);
                        lemma_ok_vals_frame(pre, *self, vargs@);
                    }
                    vargs.push(v);
                    i = i + 1;
                }
                let h = match fv.func() {
                    Ok(h) => h,
                    Err(e) => {
                        return Err(e);
                    },
                };
                let ghost pre = *self;
                let res = self.call_function(h, vargs, fuel2);
                proof {
                    lemma_frame_trans(*old(self), pre, *self);
                }
                res
            },
            AstNode::Value(lit) => match lit {
                Literal::Num(x) => Ok(Value::Number(*x)),
                Literal::Text(t) => {
                    let text = clone_chars(t);
                    let h = self.heap.alloc_str(text);
                    proof {
                        assert forall|k: int|
                            0 <= k < self.locals@.locals.len() implies self.ok_val(
                            (#[trigger] self.locals@.locals[k]).1,
                        ) by {
                            assert(old(self).ok_val(self.locals@.locals[k].1));
                        }
                    }
                    Ok(Value::Str(h))
                },
                Literal::Bool(b) => Ok(Value::Bool(*b)),
                Literal::Nil => Ok(Value::Nil),
                Literal::Func(f) => {
                    let h = crate::handle::Handle { idx: self.funcs.len() };
                    let rc = rc_dup(f);
                    self.funcs.push(Callable::User(rc));
                    proof {
                        assert(lit_wf(*lit));
                        assert(node_wf(*rc.body));
                        assert(callable_wf(self.funcs@[self.funcs@.len() - 1]));
                        assert forall|k: int| 0 <= k < self.funcs@.len() implies callable_wf(
                            #[trigger] self.funcs@[k],
                        ) by {
                            if k < old(self).funcs@.len() {
                                assert(callable_wf(old(self).funcs@[k]));
                            }
                        }
                        assert forall|k: int|
                            0 <= k < self.locals@.locals.len() implies self.ok_val(
                            (#[trigger] self.locals@.locals[k]).1,
                        ) by {
                            assert(old(self).ok_val(self.locals@.locals[k].1));
                        }
                        assert(cells_fns_ok(self.heap.cells@, self.nf())) by {
                            assert forall|k: int|
                                0 <= k < self.heap.cells@.len() implies #[trigger] crate::heap::cell_fns_ok(
                                self.nf(),
                                self.heap.cells@[k],
                            ) by {
                                assert(crate::heap::cell_fns_ok(
                                    old(self).nf(),
                                    self.heap.cells@[k],
                                ));
                                lemma_cell_fns_ok_grow(
                                    self.heap.cells@[k],
                                    old(self).nf(),
                                    self.nf(),
                                );
                            }
                        }
                    }
                    Ok(Value::Function(h))
                },
            },
            AstNode::Ident(n) => Ok(self.lookup(n)),
            AstNode::Assign(n, v) => {
                let val = self.execute_with(v, fuel2)?;
                let ghost pre = *self;
                self.vm_set(n, val);
                proof {
                    lemma_frame_trans(*old(self), pre, *self);
                    if operand_val(*old(self), **v) is Some {
                        // the right side was a simple operand: its evaluation
                        // succeeded without touching state, so this is one
                        // rebinding of the pre-state
                        assert(fuel2 > 0);
                        assert(vm_same(*old(self), pre));
                        assert(val == operand_val(*old(self), **v)->Some_0);
                        assert(self.locals@ == spec_set(old(self).locals@, n@, val));
                    }
                }
                Ok(Value::Nil)
            },
            AstNode::Binary(op, x, y) => {
                let xv = self.execute_with(x, fuel2)?;
                let ghost pre1 = *self;
                let yv = match self.execute_with(y, fuel2) {
                    Ok(v) => v,
                    Err(e) => {
                        proof {
                            lemma_frame_trans(*old(self), pre1, *self);
                        }
                        return Err(e);
                    },
                };
                proof {
                    lemma_frame_trans(*old(self), pre1, *self);
                    lemma_ok_val_frame(pre1, *self, xv);
                }
                let ghost pre2 = *self;
                let res = self.apply_binary(op, xv, yv);
                proof {
                    lemma_frame_trans(*old(self), pre2, *self);
                    if fuel >= 2 && operand_val(*old(self), **x) is Some && operand_val(
                        *old(self),
                        **y,
                    ) is Some {
                        // simple operands: both evaluations left the state
                        // untouched and returned exactly the operand values,
                        // so the operator application is measured from the
                        // pre-state
                        assert(vm_same(*old(self), pre1));
                        assert(xv == operand_val(*old(self), **x)->Some_0);
                        assert(vm_same(pre1, pre2));
                        assert(yv == operand_val(*old(self), **y)->Some_0);
                        assert(vm_same(*old(self), pre2));
                        assert(binary_values_exact(*old(self), *self, *op, xv, yv, res));
                    }
                    if fuel >= 2 && *op == BinOp::Access && operand_val(*old(self), **x) is Some
                        && (**y) is Value && (**y)->Value_0 is Text {
                        let t = (**y)->Value_0->Text_0;
                        // the key literal allocated one fresh string cell
                        assert(vm_same(*old(self), pre1));
                        assert(xv == operand_val(*old(self), **x)->Some_0);
                        let hk = crate::handle::Handle {
                            idx: pre1.heap.cells@.len() as usize,
                        };
                        assert(yv == Value::Str(hk));
                        assert(str_of(pre2.heap.cells@, hk) == t@);
                        match xv {
                            Value::MapVal(h) => {
                                assert(val_ok(old(self).heap.cells@, xv));
                                assert(map_of(pre2.heap.cells@, h) == map_of(
                                    old(self).heap.cells@,
                                    h,
                                ));
                                let ps = map_of(pre2.heap.cells@, h);
                                assert(crate::heap::cell_contents_ok(
                                    pre2.heap.cells@,
                                    pre2.heap.cells@[h.idx as int],
                                    h.idx as int,
                                ));
                                assert forall|j: int| 0 <= j < ps.len() implies val_ok(
                                    pre2.heap.cells@,
                                    (#[trigger] ps[j]).0,
                                ) by {}
                                lemma_lookup_by_text(pre2.heap.cells@, ps, hk, t@);
                                assert forall|j: int| 0 <= j < ps.len() implies val_ok(
                                    old(self).heap.cells@,
                                    (#[trigger] ps[j]).0,
                                ) by {
                                    assert(crate::heap::cell_contents_ok(
                                        old(self).heap.cells@,
                                        old(self).heap.cells@[h.idx as int],
                                        h.idx as int,
                                    ));
                                }
                                lemma_lookup_text_extend(
                                    old(self).heap.cells@,
                                    pre2.heap.cells@,
                                    ps,
                                    t@,
                                );
                            },
                            _ => {},
                        }
                    }
                }
                res
            },
            AstNode::Unary(op, x) => {
                let xv = self.execute_with(x, fuel2)?;
                self.apply_unary(op, xv)
            },
            AstNode::If { cond, then, or } => {
                let cv = self.execute_with(cond, fuel2)?;
                let ghost pre = *self;
                let res = if cv.truthy() {
                    self.execute_with(then, fuel2)
                } else {
                    match or {
                        Some(o) => self.execute_with(o, fuel2),
                        None => Ok(Value::Nil),
                    }
                };
                proof {
                    lemma_frame_trans(*old(self), pre, *self);
                }
                res
            },
            AstNode::Block(stmts, scoped) => {
                if *scoped {
                    self.locals.push();
                }
                let ghost entered = *self;
                proof {
                    assert(entered.wf());
                }
                let mut out = Value::Nil;
                let mut i: usize = 0;
                while i < stmts.len()
                    invariant
                        i <= stmts@.len(),
                        i == 0 ==> *self == entered && out == Value::Nil,
                        ({
                            let simple = stmts@.len() == 1 && match stmts@[0] {
                                Statement::Expression(e) => operand_val(*old(self), *e) is Some,
                            };
                            (simple && i == 1) ==> out == (match stmts@[0] {
                                Statement::Expression(e) => operand_val(*old(self), *e)->Some_0,
                            }) && self.locals@ == entered.locals@ && self.heap.cells@
                                == entered.heap.cells@ && self.funcs@ == entered.funcs@
                                && self.output@ == entered.output@ && exit_view(self.exit_flag)
                                == exit_view(entered.exit_flag)
                        }),
                        fuel >= 1,
                        fuel2 < fuel,
                        self.wf(),
                        node_wf(*a),
                        a is Block,
                        stmts@ == (*a)->Block_0@,
                        vm_frame(entered, *self),
                        self.ok_val(out),
                        *scoped ==> entered.locals@.markers == old(self).locals@.markers.push(
                            old(self).locals@.locals.len() as usize,
                        ) && entered.locals@.locals == old(self).locals@.locals,
                        !*scoped ==> entered == *old(self),
                        entered.heap.cells@ == old(self).heap.cells@,
                        entered.funcs@ == old(self).funcs@,
                        entered.output@ == old(self).output@,
                        entered.fuel == old(self).fuel,
                    decreases stmts@.len() - i,
                {
                    proof {
                        assert(stmt_wf(stmts@[i as int]));
                    }
                    let Statement::Expression(x) = &stmts[i];
                    let ghost pre = *self;
                    match self.execute_with(x, fuel2) {
                        Ok(v) => {
                            out = v;
                        },
                        Err(e) => {
                            proof {
                                lemma_frame_trans(entered, pre, *self);
                            }
                            let ghost bp = *self;
                            if *scoped {
                                self.locals.pop();
                            }
                            proof {
                                lemma_stack_len_bound(old(self).locals);
                                if *scoped {
                                    assert(self.locals@.markers =~= old(self).locals@.markers);
                                    assert forall|k: int|
                                        0 <= k < self.locals@.locals.len() implies #[trigger] self.locals@.locals[k]
                                        == bp.locals@.locals[k] by {}
                                }
                                assert forall|k: int|
                                    0 <= k < self.locals@.locals.len() implies self.ok_val(
                                    (#[trigger] self.locals@.locals[k]).1,
                                ) by {
                                    assert(self.locals@.locals[k] == bp.locals@.locals[k]);
                                    assert(bp.ok_val(bp.locals@.locals[k].1));
                                }
                                assert forall|k: int|
                                    0 <= k < old(self).locals@.locals.len() implies (
                                #[trigger] self.locals@.locals[k]).0 == old(
                                    self,
                                ).locals@.locals[k].0 by {
                                    assert(bp.locals@.locals[k].0 == entered.locals@.locals[k].0);
                                }
                                assert(vm_frame(*old(self), *self));
                            }
                            return Err(e);
                        },
                    }
                    proof {
                        lemma_frame_trans(entered, pre, *self);
                    }
                    i = i + 1;
                }
                let ghost before_pop = *self;
                if *scoped {
                    self.locals.pop();
                }
                proof {
                    lemma_stack_len_bound(old(self).locals);
                    if stmts@.len() == 0 {
                        assert(before_pop == entered);
                        assert(before_pop.locals@.locals =~= old(self).locals@.locals);
                        if *scoped {
                            assert(self.locals@.locals =~= old(self).locals@.locals);
                        }
                    }
                    if stmts@.len() == 1 && (match stmts@[0] {
                        Statement::Expression(e) => operand_val(*old(self), *e) is Some,
                    }) {
                        assert(before_pop.locals@ == entered.locals@);
                        assert(before_pop.locals@.locals =~= old(self).locals@.locals);
                        if *scoped {
                            assert(self.locals@.locals =~= old(self).locals@.locals);
                        }
                        assert(self.locals@ =~= old(self).locals@);
                    }
                    if *scoped {
                        assert(self.locals@.markers =~= old(self).locals@.markers);
                        assert forall|k: int|
                            0 <= k < self.locals@.locals.len() implies #[trigger] self.locals@.locals[k]
                            == before_pop.locals@.locals[k] by {}
                    }
                    assert forall|k: int|
                        0 <= k < self.locals@.locals.len() implies self.ok_val(
                        (#[trigger] self.locals@.locals[k]).1,
                    ) by {
                        assert(self.locals@.locals[k] == before_pop.locals@.locals[k]);
                        assert(before_pop.ok_val(before_pop.locals@.locals[k].1));
                    }
                    assert forall|k: int|
                        0 <= k < old(self).locals@.locals.len() implies (
                    #[trigger] self.locals@.locals[k]).0 == old(self).locals@.locals[k].0 by {
                        assert(self.locals@.locals[k] == before_pop.locals@.locals[k]);
                        assert(before_pop.locals@.locals[k].0 == entered.locals@.locals[k].0);
                    }
                    assert(vm_frame(*old(self), *self));
                }
                Ok(out)
            },
            AstNode::Loop { label, cond, run } => {
                let mut f = fuel2;
                loop
                    invariant_except_break
                        fuel >= 1,
                        fuel2 < fuel,
                        self.wf(),
                        node_wf(*a),
                        a is Loop,
                        label == (*a)->Loop_label,
                        cond == (*a)->Loop_cond,
                        run == (*a)->Loop_run,
                        f <= fuel2,
                        vm_frame(*old(self), *self),
                        ({
                            let shape_a = *label is None && *cond is None && (*(*a)->Loop_run)
                                is Break;
                            (shape_a && exit_view(old(self).exit_flag) == ExitV::Continue) ==> (
                            (exit_view(self.exit_flag) == ExitV::Continue || exit_view(
                                self.exit_flag,
                            ) == ExitV::Break(label_view((*(*a)->Loop_run)->Break_0)))
                                && self.locals@ == old(self).locals@ && self.heap.cells@ == old(
                                self,
                            ).heap.cells@ && self.funcs@ == old(self).funcs@ && self.output@
                                == old(self).output@)
                        }),
                        ({
                            (is_label_propagation_loop(*a) && exit_view(old(self).exit_flag)
                                == ExitV::Continue) ==> ((exit_view(self.exit_flag)
                                == ExitV::Continue || exit_view(self.exit_flag) == ExitV::Break(
                                Some((*a)->Loop_label->Some_0@),
                            )) && self.locals@ == old(self).locals@ && self.heap.cells@ == old(
                                self,
                            ).heap.cells@ && self.funcs@ == old(self).funcs@ && self.output@
                                == old(self).output@)
                        }),
                    ensures
                        self.wf(),
                        vm_frame(*old(self), *self),
                        ({
                            let shape_a = *label is None && *cond is None && (*(*a)->Loop_run)
                                is Break;
                            (shape_a && exit_view(old(self).exit_flag) == ExitV::Continue) ==> (
                            exit_view(self.exit_flag) == (match (*(*a)->Loop_run)->Break_0 {
                                None => ExitV::Continue,
                                Some(t) => ExitV::Break(Some(t@)),
                            }) && self.locals@ == old(self).locals@ && self.heap.cells@ == old(
                                self,
                            ).heap.cells@ && self.funcs@ == old(self).funcs@ && self.output@
                                == old(self).output@)
                        }),
                        ({
                            (is_label_propagation_loop(*a) && exit_view(old(self).exit_flag)
                                == ExitV::Continue) ==> (exit_view(self.exit_flag)
                                == ExitV::Continue && self.locals@ == old(self).locals@
                                && self.heap.cells@ == old(self).heap.cells@ && self.funcs@ == old(
                                self,
                            ).funcs@ && self.output@ == old(self).output@)
                        }),
                    decreases f,
                {
                    if f == 0 {
                        return Err(RuntimeError::OutOfFuel);
                    }
                    f = f - 1;
                    // A pending break terminates the innermost loop; only a
                    // matching one (unlabeled, or carrying this loop's
                    // label) is consumed — an unmatched labeled break stays
                    // pending and propagates to the enclosing loop.
                    if matches!(&self.exit_flag, ExitFlag::Break(_)) {
                        if break_matches(&self.exit_flag, label) {
                            self.exit_flag = ExitFlag::Continue;
                        }
                        break;
                    }
                    let ghost pre = *self;
                    match cond {
                        Some(c) => {
                            proof {
                                assert(node_wf(*(*a)->Loop_cond->Some_0));
                            }
                            let cv = match self.execute_with(c, f) {
                                Ok(v) => v,
                                Err(e) => {
                                    proof {
                                        lemma_frame_trans(*old(self), pre, *self);
                                    }
                                    return Err(e);
                                },
                            };
                            proof {
                                lemma_frame_trans(*old(self), pre, *self);
                            }
                            if cv.truthy() {
                                let ghost pre2 = *self;
                                match self.execute_with(run, f) {
                                    Ok(_) => {
                                        proof {
                                            lemma_frame_trans(*old(self), pre2, *self);
                                        }
                                    },
                                    Err(e) => {
                                        proof {
                                            lemma_frame_trans(*old(self), pre2, *self);
                                        }
                                        return Err(e);
                                    },
                                }
                            }
                        },
                        None => {
                            match self.execute_with(run, f) {
                                Ok(_) => {
                                    proof {
                                        lemma_frame_trans(*old(self), pre, *self);
                                    }
                                },
                                Err(e) => {
                                    proof {
                                        lemma_frame_trans(*old(self), pre, *self);
                                    }
                                    return Err(e);
                                },
                            }
                        },
                    }
                }
                Ok(Value::Nil)
            },
            AstNode::Break(label) => {
                let l: Option<Vec<char>> = match label {
                    Some(t) => Some(clone_chars(t)),
                    None => None,
                };
                self.exit_flag = ExitFlag::Break(l);
                Ok(Value::Nil)
            },
            AstNode::Error => {
                // a program that parsed with zero diagnostics holds no Error
                // node, and the executor is never handed anything else
                unreached()
            },
        }
    }

    /// The value of a name in the current scope chain; an unbound name is
    /// `Nil`, never an error.
    fn lookup(&self, n: &Vec<char>) -> (r: Value)
        requires
            self.wf(),
        ensures
            r == spec_get(self.locals@, n@),
            self.ok_val(r),
    {
        proof {
            if find_rev(self.locals@.locals, n@) is Some {
                lemma_find_rev_in_range(self.locals@.locals, n@);
            }
        }
        self.locals.get(n)
    }

    /// Invoke the function `h` refers to on already-evaluated arguments. A
    /// native runs directly against the executor. A user function first has
    /// its arity checked (`IncorrectNumberOfArgs` on mismatch, before any
    /// scope is touched), then runs its body in a fresh scope holding only
    /// the parameters; the scope is popped on every exit path.
    pub fn call_function(&mut self, h: crate::handle::Handle, args: Vec<Value>, fuel: u64) -> (r:
        Result<Value, RuntimeError>)
        requires
            old(self).wf(),
            h.idx < old(self).funcs@.len(),
            forall|k: int| 0 <= k < args@.len() ==> old(self).ok_val(#[trigger] args@[k]),
        ensures
            final(self).wf(),
            vm_frame(*old(self), *final(self)),
            match r {
                Ok(v) => final(self).ok_val(v),
                Err(_) => true,
            },
            // arity against a user function's declared parameter list is a
            // hard error, raised before any scope is touched
            match old(self).funcs@[h.idx as int] {
                Callable::User(f) => f.params@.len() != args@.len() ==> r == Err::<
                    Value,
                    RuntimeError,
                >(RuntimeError::IncorrectNumberOfArgs) && vm_same(*old(self), *final(self)),
                Callable::Native(_) => true,
            },
            // print always succeeds with Nil and logs exactly one line
            old(self).funcs@[h.idx as int] == Callable::Native(NativeFn::Print) ==> ({
                &&& r == Ok::<Value, RuntimeError>(Value::Nil)
                &&& final(self).output@.len() == old(self).output@.len() + 1
                &&& final(self).output@.last()@ == crate::corelib::print_acc(
                    old(self).heap.cells@,
                    crate::function::funcs_view(old(self).funcs@),
                    args@,
                    0,
                    Seq::<char>::empty(),
                )
                &&& final(self).heap.cells@ == old(self).heap.cells@
                &&& final(self).locals@ == old(self).locals@
            }),
            // type takes exactly one argument and names its variant
            old(self).funcs@[h.idx as int] == Callable::Native(NativeFn::TypeOf) ==> (
            if args@.len() == 1 {
                r == Ok::<Value, RuntimeError>(
                    Value::Str(crate::handle::Handle { idx: old(self).heap.cells@.len() as usize }),
                ) && str_of(
                    final(self).heap.cells@,
                    crate::handle::Handle { idx: old(self).heap.cells@.len() as usize },
                ) == crate::corelib::kind_name(args@[0])
            } else {
                r == Err::<Value, RuntimeError>(RuntimeError::IncorrectNumberOfArgs)
            }),
        decreases fuel, 1int,
    {
        let c = clone_callable(&self.funcs[h.idx]);
        match c {
            Callable::Native(NativeFn::Print) => crate::corelib::print(self, args),
            Callable::Native(NativeFn::TypeOf) => crate::corelib::corelib_type(self, args),
            Callable::User(f) => {
                if args.len() != f.params.len() {
                    return Err(RuntimeError::IncorrectNumberOfArgs);
                }
                proof {
                    assert(callable_wf(old(self).funcs@[h.idx as int]));
                    assert(node_wf(*f.body));
                }
                self.locals.push();
                let ghost entered = *self;
                let mut i: usize = 0;
                while i < args.len()
                    invariant
                        i <= args@.len(),
                        self.wf(),
                        args@.len() == f.params@.len(),
                        forall|k: int| 0 <= k < args@.len() ==> entered.ok_val(#[trigger] args@[k]),
                        vm_frame(entered, *self),
                        entered.locals@.markers == old(self).locals@.markers.push(
                            old(self).locals@.locals.len() as usize,
                        ),
                        entered.locals@.locals == old(self).locals@.locals,
                        entered.heap.cells@ == old(self).heap.cells@,
                        entered.funcs@ == old(self).funcs@,
                        entered.output@ == old(self).output@,
                        entered.fuel == old(self).fuel,
                    decreases args@.len() - i,
                {
                    let ghost pre = *self;
                    let v = args[i];
                    proof {
                        lemma_ok_val_frame(entered, *self, v);
                    }
                    self.vm_set(&f.params[i], v);
                    proof {
                        lemma_frame_trans(entered, pre, *self);
                    }
                    i = i + 1;
                }
                let ghost pre = *self;
                let res = self.execute_with(&f.body, fuel);
                proof {
                    lemma_frame_trans(entered, pre, *self);
                }
                let ghost before_pop = *self;
                self.locals.pop();
                proof {
                    lemma_stack_len_bound(old(self).locals);
                    assert(self.locals@.markers =~= old(self).locals@.markers);
                    assert forall|k: int|
                        0 <= k < self.locals@.locals.len() implies #[trigger] self.locals@.locals[k]
                        == before_pop.locals@.locals[k] by {}
                    assert forall|k: int|
                        0 <= k < self.locals@.locals.len() implies self.ok_val(
                        (#[trigger] self.locals@.locals[k]).1,
                    ) by {
                        assert(self.locals@.locals[k] == before_pop.locals@.locals[k]);
                        assert(before_pop.ok_val(before_pop.locals@.locals[k].1));
                    }
                    assert forall|k: int|
                        0 <= k < old(self).locals@.locals.len() implies (
                    #[trigger] self.locals@.locals[k]).0 == old(self).locals@.locals[k].0 by {
                        assert(self.locals@.locals[k] == before_pop.locals@.locals[k]);
                        assert(before_pop.locals@.locals[k].0 == entered.locals@.locals[k].0);
                    }
                    assert(vm_frame(*old(self), *self));
                }
                res
            },
        }
    }
}

/// A cell whose function handles fit a table of `nf1` functions also fits
/// any larger table.
pub proof fn lemma_cell_fns_ok_grow(c: crate::heap::HeapCell, nf1: int, nf2: int)
    requires
        crate::heap::cell_fns_ok(nf1, c),
        nf1 <= nf2,
    ensures
        crate::heap::cell_fns_ok(nf2, c),
{
    match c {
        crate::heap::HeapCell::Str(_) => {},
        crate::heap::HeapCell::Arr(es) => {
            assert forall|j: int| 0 <= j < es@.len() implies val_fn_ok(nf2, #[trigger] es@[j]) by {
                assert(val_fn_ok(nf1, es@[j]));
            }
        },
        crate::heap::HeapCell::MapC(ps) => {
            assert forall|j: int|
                0 <= j < ps@.len() implies val_fn_ok(nf2, (#[trigger] ps@[j]).0) && val_fn_ok(
                nf2,
                ps@[j].1,
            ) by {
                assert(val_fn_ok(nf1, ps@[j].0) && val_fn_ok(nf1, ps@[j].1));
            }
        },
    }
}

/// The value of a *simple operand*: a scalar literal or an identifier —
/// a node whose evaluation cannot fail, touches no state, and yields a
/// value that is a direct function of the pre-state. (A text literal is
/// not simple: evaluating it allocates.)
pub open spec fn operand_val(pre: VM, n: AstNode) -> Option<Value> {
    match n {
        AstNode::Value(Literal::Num(k)) => Some(Value::Number(k)),
        AstNode::Value(Literal::Bool(b)) => Some(Value::Bool(b)),
        AstNode::Value(Literal::Nil) => Some(Value::Nil),
        AstNode::Ident(nm) => Some(spec_get(pre.locals@, nm@)),
        _ => None,
    }
}

/// Exact evaluation of a binary node whose operands are both simple: with
/// enough budget, the result and every state effect are a direct function
/// of the pre-state, in operand order. This carries the full `Add`
/// overload case analysis, the numeric operators, value equality, the
/// comparisons, the unconditional truthiness combination of `&&`/`||`,
/// and map access, to the evaluator's own contract.
pub open spec fn binary_simple_exact(
    pre: VM,
    post: VM,
    a: AstNode,
    r: Result<Value, RuntimeError>,
) -> bool {
    &&& match a {
        AstNode::Binary(op, x, y) => match (operand_val(pre, *x), operand_val(pre, *y)) {
            (Some(va), Some(vb)) => binary_values_exact(pre, post, op, va, vb, r),
            _ => true,
        },
        _ => true,
    }
    &&& match a {
        // member access with a string-literal key, as `.` desugars to: the
        // key allocates one string cell; a missing key is Nil, never an
        // error, and a non-map target is NotAMap
        AstNode::Binary(BinOp::Access, x, y) => match (operand_val(pre, *x), *y) {
            (Some(va), AstNode::Value(Literal::Text(t))) => {
                &&& post.heap.cells@.len() == pre.heap.cells@.len() + 1
                &&& forall|k: int|
                    0 <= k < pre.heap.cells@.len() ==> #[trigger] post.heap.cells@[k]
                        == pre.heap.cells@[k]
                &&& post.locals@ == pre.locals@
                &&& post.funcs@ == pre.funcs@
                &&& post.output@ == pre.output@
                &&& exit_view(post.exit_flag) == exit_view(pre.exit_flag)
                &&& r == (match va {
                    Value::MapVal(h) => Ok::<Value, RuntimeError>(
                        lookup_text(pre.heap.cells@, map_of(pre.heap.cells@, h), t@),
                    ),
                    _ => Err::<Value, RuntimeError>(RuntimeError::NotAMap),
                })
            },
            _ => true,
        },
        _ => true,
    }
}

/// What applying `op` to the already-determined operand values `va`, `vb`
/// yields and does, measured from `pre`.
pub open spec fn binary_values_exact(
    pre: VM,
    post: VM,
    op: BinOp,
    va: Value,
    vb: Value,
    r: Result<Value, RuntimeError>,
) -> bool {
    &&& (op == BinOp::Add ==> match (va, vb) {
        (Value::Array(h1), Value::Array(h2)) => {
            &&& post.heap.cells@.len() == pre.heap.cells@.len() + 1
            &&& forall|k: int|
                0 <= k < pre.heap.cells@.len() ==> #[trigger] post.heap.cells@[k]
                    == pre.heap.cells@[k]
            &&& r == Ok::<Value, RuntimeError>(
                Value::Array(crate::handle::Handle { idx: pre.heap.cells@.len() as usize }),
            )
            &&& arr_of(
                post.heap.cells@,
                crate::handle::Handle { idx: pre.heap.cells@.len() as usize },
            ) == arr_of(pre.heap.cells@, h1) + arr_of(pre.heap.cells@, h2)
            &&& post.locals@ == pre.locals@
            &&& post.funcs@ == pre.funcs@
            &&& post.output@ == pre.output@
            &&& exit_view(post.exit_flag) == exit_view(pre.exit_flag)
        },
        (Value::Str(h1), Value::Str(h2)) => {
            &&& post.heap.cells@.len() == pre.heap.cells@.len() + 1
            &&& forall|k: int|
                0 <= k < pre.heap.cells@.len() ==> #[trigger] post.heap.cells@[k]
                    == pre.heap.cells@[k]
            &&& r == Ok::<Value, RuntimeError>(
                Value::Str(crate::handle::Handle { idx: pre.heap.cells@.len() as usize }),
            )
            &&& str_of(
                post.heap.cells@,
                crate::handle::Handle { idx: pre.heap.cells@.len() as usize },
            ) == str_of(pre.heap.cells@, h1) + str_of(pre.heap.cells@, h2)
            &&& post.locals@ == pre.locals@
            &&& post.funcs@ == pre.funcs@
            &&& post.output@ == pre.output@
            &&& exit_view(post.exit_flag) == exit_view(pre.exit_flag)
        },
        (Value::Number(nx), Value::Number(ny)) => vm_same(pre, post) && r == Ok::<
            Value,
            RuntimeError,
        >(Value::Number(nx.wrapping_add(ny))),
        _ => vm_same(pre, post) && r == Err::<Value, RuntimeError>(RuntimeError::CannotAdd),
    })
    &&& (is_num_binop(op) ==> vm_same(pre, post) && r == match (va, vb) {
        (Value::Number(nx), Value::Number(ny)) => Ok::<Value, RuntimeError>(
            Value::Number(spec_num_binop(op, nx, ny)),
        ),
        _ => Err::<Value, RuntimeError>(RuntimeError::NotANumber),
    })
    &&& (op == BinOp::Eq ==> vm_same(pre, post) && r == Ok::<Value, RuntimeError>(
        Value::Bool(crate::heap::val_eq(pre.heap.cells@, va, vb)),
    ))
    &&& ((op == BinOp::Gt || op == BinOp::GtEq || op == BinOp::Lt || op == BinOp::LtEq)
        ==> vm_same(pre, post) && r == match (va, vb) {
        (Value::Number(nx), Value::Number(ny)) => Ok::<Value, RuntimeError>(
            Value::Bool(
                match op {
                    BinOp::Gt => nx > ny,
                    BinOp::GtEq => nx >= ny,
                    BinOp::Lt => nx < ny,
                    _ => nx <= ny,
                },
            ),
        ),
        _ => Err::<Value, RuntimeError>(RuntimeError::NotANumber),
    })
    &&& (op == BinOp::And ==> vm_same(pre, post) && r == Ok::<Value, RuntimeError>(
        Value::Bool(spec_truthy(va) && spec_truthy(vb)),
    ))
    &&& (op == BinOp::Or ==> vm_same(pre, post) && r == Ok::<Value, RuntimeError>(
        Value::Bool(spec_truthy(va) || spec_truthy(vb)),
    ))
    &&& (op == BinOp::Access ==> vm_same(pre, post) && r == match va {
        Value::MapVal(h) => Ok::<Value, RuntimeError>(
            lookup_pairs(pre.heap.cells@, map_of(pre.heap.cells@, h), vb),
        ),
        _ => Err::<Value, RuntimeError>(RuntimeError::NotAMap),
    })
}

/// What evaluation does on the nodes whose result is a direct function of
/// the pre-state: literals, identifier lookup, `break`; and the result
/// shape of assignments and loops.
pub open spec fn leaf_exact(pre: VM, post: VM, a: AstNode, r: Result<Value, RuntimeError>) -> bool {
    match a {
        AstNode::Ident(n) => vm_same(pre, post) && r == Ok::<Value, RuntimeError>(
            spec_get(pre.locals@, n@),
        ),
        AstNode::Value(lit) => match lit {
            Literal::Num(x) => vm_same(pre, post) && r == Ok::<Value, RuntimeError>(
                Value::Number(x),
            ),
            Literal::Bool(b) => vm_same(pre, post) && r == Ok::<Value, RuntimeError>(
                Value::Bool(b),
            ),
            Literal::Nil => vm_same(pre, post) && r == Ok::<Value, RuntimeError>(Value::Nil),
            Literal::Text(t) => {
                &&& post.heap.cells@.len() == pre.heap.cells@.len() + 1
                &&& str_of(
                    post.heap.cells@,
                    crate::handle::Handle { idx: pre.heap.cells@.len() as usize },
                ) == t@
                &&& r == Ok::<Value, RuntimeError>(
                    Value::Str(crate::handle::Handle { idx: pre.heap.cells@.len() as usize }),
                )
                &&& post.locals@ == pre.locals@
                &&& post.funcs@ == pre.funcs@
                &&& post.output@ == pre.output@
                &&& exit_view(post.exit_flag) == exit_view(pre.exit_flag)
            },
            Literal::Func(f) => {
                &&& post.funcs@ == pre.funcs@.push(Callable::User(f))
                &&& r == Ok::<Value, RuntimeError>(
                    Value::Function(crate::handle::Handle { idx: pre.funcs@.len() as usize }),
                )
                &&& post.heap.cells@ == pre.heap.cells@
                &&& post.locals@ == pre.locals@
                &&& post.output@ == pre.output@
                &&& exit_view(post.exit_flag) == exit_view(pre.exit_flag)
            },
        },
        AstNode::Break(l) => {
            &&& r == Ok::<Value, RuntimeError>(Value::Nil)
            &&& exit_view(post.exit_flag) == ExitV::Break(label_view(l))
            &&& post.locals@ == pre.locals@
            &&& post.heap.cells@ == pre.heap.cells@
            &&& post.funcs@ == pre.funcs@
            &&& post.output@ == pre.output@
        },
        AstNode::Assign(n, v) => (match r {
            Ok(val) => val == Value::Nil,
            Err(_) => true,
        }) && (match operand_val(pre, *v) {
            // an assignment whose right side is a simple operand rebinds the
            // name to exactly that value and changes nothing else; in
            // particular `b = a` with `a` an array binds `b` to the *same*
            // handle (assignment aliases, it does not clone)
            Some(w) => match r {
                Ok(_) => post.locals@ == spec_set(pre.locals@, n@, w) && post.heap.cells@
                    == pre.heap.cells@ && post.funcs@ == pre.funcs@ && post.output@ == pre.output@
                    && exit_view(post.exit_flag) == exit_view(pre.exit_flag),
                Err(_) => true,
            },
            None => true,
        }),
        AstNode::Loop { .. } => match r {
            Ok(v) => v == Value::Nil,
            Err(_) => true,
        },
        AstNode::Block(stmts, _) => (match r {
            Ok(val) => (stmts.len() == 0 ==> val == Value::Nil && post.locals@ == pre.locals@
                && post.heap.cells@ == pre.heap.cells@ && post.funcs@ == pre.funcs@
                && post.output@ == pre.output@ && exit_view(post.exit_flag) == exit_view(
                pre.exit_flag,
            )) && (stmts.len() == 1 ==> match stmts[0] {
                // a block yields its last statement's value: pinned here for
                // the one-statement block over a simple operand
                Statement::Expression(e) => match operand_val(pre, *e) {
                    Some(w) => val == w && post.locals@ == pre.locals@ && post.heap.cells@
                        == pre.heap.cells@ && post.funcs@ == pre.funcs@ && post.output@
                        == pre.output@ && exit_view(post.exit_flag) == exit_view(pre.exit_flag),
                    None => true,
                },
            }),
            Err(_) => true,
        }),
        _ => true,
    }
}


/// The number of bindings always fits a machine word (they sit in a vector).
pub proof fn lemma_stack_len_bound(s: LocalStack)
    ensures
        s@.locals.len() == s.locals@.len(),
        s.locals@.len() <= usize::MAX,
{
    assert(s.locals.len() == s.locals@.len());
}

/// Logical operators evaluate both operands unconditionally — they do not
/// short-circuit. Under a literal `false` left operand of `&&`: an
/// assignment standing on the right still takes effect (the name is
/// rebound), an arbitrary right operand (a call, say) still runs — its
/// error fails the whole expression, and when it succeeds the result is
/// `false` regardless. Symmetrically for `||` under a literal `true` left
/// operand.
pub open spec fn and_still_evaluates_rhs(
    pre: VM,
    post: VM,
    a: AstNode,
    r: Result<Value, RuntimeError>,
) -> bool {
    &&& match a {
        AstNode::Binary(BinOp::And, x, y) => match (*x, *y) {
            (AstNode::Value(Literal::Bool(bx)), AstNode::Assign(n, v)) => match *v {
                AstNode::Value(Literal::Num(k)) => match r {
                    Ok(val) => val == Value::Bool(false) && post.locals@ == spec_set(
                        pre.locals@,
                        n@,
                        Value::Number(k),
                    ),
                    Err(_) => true,
                },
                _ => true,
            },
            _ => true,
        },
        _ => true,
    }
    &&& match a {
        AstNode::Binary(BinOp::And, x, _) => match *x {
            AstNode::Value(Literal::Bool(false)) => match r {
                Ok(val) => val == Value::Bool(false),
                Err(_) => true,
            },
            _ => true,
        },
        AstNode::Binary(BinOp::Or, x, _) => match *x {
            AstNode::Value(Literal::Bool(true)) => match r {
                Ok(val) => val == Value::Bool(true),
                Err(_) => true,
            },
            _ => true,
        },
        _ => true,
    }
}

/// An outer loop labeled `L` whose whole body is an unlabeled loop that
/// breaks with label `L`.
pub open spec fn is_label_propagation_loop(a: AstNode) -> bool {
    match a {
        AstNode::Loop { label: Some(lab), cond: None, run } => match *run {
            AstNode::Loop { label: None, cond: None, run: inner } => match *inner {
                AstNode::Break(Some(t)) => t@ == lab@,
                _ => false,
            },
            _ => false,
        },
        _ => false,
    }
}

/// Only `break` terminates a loop, and a break terminates the innermost
/// loop it reaches — consumed if it matches, left pending otherwise:
/// - an unlabeled `loop { break }` completes with `Nil` and a clean flag;
/// - an unlabeled `loop { break L }` stops iterating but leaves the break
///   for label `L` pending, so it propagates outward;
/// - a loop labeled `L` around such an inner loop consumes the pending
///   break: the whole nest completes with `Nil` and a clean flag.
/// In every case the environment is untouched.
pub open spec fn break_discipline(
    pre: VM,
    post: VM,
    a: AstNode,
    r: Result<Value, RuntimeError>,
) -> bool {
    &&& match a {
        AstNode::Loop { label: None, cond: None, run } => match *run {
            AstNode::Break(lb) => (exit_view(pre.exit_flag) == ExitV::Continue) ==> match r {
                Ok(val) => val == Value::Nil && exit_view(post.exit_flag) == (match lb {
                    None => ExitV::Continue,
                    Some(t) => ExitV::Break(Some(t@)),
                }) && post.locals@ == pre.locals@ && post.heap.cells@ == pre.heap.cells@
                    && post.funcs@ == pre.funcs@ && post.output@ == pre.output@,
                Err(_) => true,
            },
            _ => true,
        },
        _ => true,
    }
    &&& ((is_label_propagation_loop(a) && exit_view(pre.exit_flag) == ExitV::Continue)
        ==> match r {
        Ok(val) => val == Value::Nil && exit_view(post.exit_flag) == ExitV::Continue
            && post.locals@ == pre.locals@ && post.heap.cells@ == pre.heap.cells@ && post.funcs@
            == pre.funcs@ && post.output@ == pre.output@,
        Err(_) => true,
    })
}

/// A found index is in range and names a binding with the looked-up name.
pub proof fn lemma_find_rev_in_range(s: Seq<(Seq<char>, Value)>, name: Seq<char>)
    requires
        find_rev(s, name) is Some,
    ensures
        0 <= find_rev(s, name)->Some_0 < s.len(),
        s[find_rev(s, name)->Some_0].0 == name,
    decreases s.len(),
{
    if s.len() > 0 && s.last().0 != name {
        lemma_find_rev_in_range(s.drop_last(), name);
        assert(s.drop_last()[find_rev(s.drop_last(), name)->Some_0] == s[find_rev(
            s,
            name,
        )->Some_0]);
    }
}

} // verus!
