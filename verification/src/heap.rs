//! The arena of compound runtime values.
//!
//! Strings, arrays and maps are stored in cells of this arena and referred to
//! by [`Handle`]s; a [`Value`] holds the handle, so copying a value aliases
//! the storage and a mutation through one alias is visible through every
//! other. The arena is acyclic by construction: a cell may only refer to
//! cells allocated before it ([`heap_wf`]), which grounds the recursion in
//! value equality and rendering.
//!
//! Maps are association lists looked up by the language's value-equality
//! relation [`val_eq`]; insertion order is irrelevant to lookup and keys are
//! never duplicated when built through [`Heap::map_insert`].

use vstd::prelude::*;

use crate::handle::Handle;
use crate::text::chars_eq;
use crate::value::{Value, spec_discr};

verus! {

broadcast use vstd::std_specs::vec::group_vec_axioms;

#[derive(Debug)]
pub enum HeapCell {
    Str(Vec<char>),
    Arr(Vec<Value>),
    MapC(Vec<(Value, Value)>),
}

/// The arena. The executor owns one for the duration of a program run.
#[derive(Debug)]
pub struct Heap {
    pub cells: Vec<HeapCell>,
}

/// A value's handle points at an existing cell of the matching kind.
pub open spec fn val_ok(cells: Seq<HeapCell>, v: Value) -> bool {
    match v {
        Value::Str(h) => h.idx < cells.len() && cells[h.idx as int] is Str,
        Value::Array(h) => h.idx < cells.len() && cells[h.idx as int] is Arr,
        Value::MapVal(h) => h.idx < cells.len() && cells[h.idx as int] is MapC,
        _ => true,
    }
}

/// The measure grounding recursion through the arena: a compound value is
/// ranked just above the cell it points to, and a well-formed cell only
/// holds values of rank at most its own index.
pub open spec fn val_rank(v: Value) -> int {
    match v {
        Value::Str(h) => h.idx + 1,
        Value::Array(h) => h.idx + 1,
        Value::MapVal(h) => h.idx + 1,
        _ => 0,
    }
}

/// The contents of cell `c` are valid for `cells` and only reach cells below
/// index `i`.
pub open spec fn cell_contents_ok(cells: Seq<HeapCell>, c: HeapCell, i: int) -> bool {
    match c {
        HeapCell::Str(_) => true,
        HeapCell::Arr(es) => forall|j: int|
            0 <= j < es.len() ==> val_ok(cells, #[trigger] es[j]) && val_rank(es[j]) <= i,
        HeapCell::MapC(ps) => forall|j: int|
            0 <= j < ps.len() ==> val_ok(cells, (#[trigger] ps[j]).0) && val_rank(ps[j].0) <= i
                && val_ok(cells, ps[j].1) && val_rank(ps[j].1) <= i,
    }
}

/// Arena well-formedness: every cell only refers to cells allocated before
/// it. Mutators preserve this and the executor relies on it.
pub open spec fn heap_wf(cells: Seq<HeapCell>) -> bool {
    forall|i: int| 0 <= i < cells.len() ==> #[trigger] cell_contents_ok(cells, cells[i], i)
}

/// A value's function handle (if it is one) points into a table of `nf`
/// functions.
pub open spec fn val_fn_ok(nf: int, v: Value) -> bool {
    match v {
        Value::Function(h) => h.idx < nf,
        _ => true,
    }
}

pub open spec fn cell_fns_ok(nf: int, c: HeapCell) -> bool {
    match c {
        HeapCell::Str(_) => true,
        HeapCell::Arr(es) => forall|j: int| 0 <= j < es.len() ==> val_fn_ok(nf, #[trigger] es[j]),
        HeapCell::MapC(ps) => forall|j: int|
            0 <= j < ps.len() ==> val_fn_ok(nf, (#[trigger] ps[j]).0) && val_fn_ok(nf, ps[j].1),
    }
}

/// Every function handle stored anywhere in the arena points into a table
/// of `nf` functions.
pub open spec fn cells_fns_ok(cells: Seq<HeapCell>, nf: int) -> bool {
    forall|i: int| 0 <= i < cells.len() ==> #[trigger] cell_fns_ok(nf, cells[i])
}

/// The text of a string cell.
pub open spec fn str_of(cells: Seq<HeapCell>, h: Handle) -> Seq<char> {
    cells[h.idx as int]->Str_0@
}

/// The elements of an array cell.
pub open spec fn arr_of(cells: Seq<HeapCell>, h: Handle) -> Seq<Value> {
    cells[h.idx as int]->Arr_0@
}

/// The entries of a map cell, in insertion order.
pub open spec fn map_of(cells: Seq<HeapCell>, h: Handle) -> Seq<(Value, Value)> {
    cells[h.idx as int]->MapC_0@
}

/// The language's value-equality relation: structural for numbers, booleans
/// and strings; elementwise (recursing through the arena) for arrays;
/// handle identity for functions; and, for any other pairing, mere variant
/// agreement — in particular any two maps compare equal, and `Nil` equals
/// `Nil`.
pub open spec fn val_eq(cells: Seq<HeapCell>, a: Value, b: Value) -> bool
    decreases val_rank(a) + val_rank(b),
        when heap_wf(cells) && val_ok(cells, a) && val_ok(cells, b)
{
    match (a, b) {
        (Value::Number(x), Value::Number(y)) => x == y,
        (Value::Str(h1), Value::Str(h2)) => str_of(cells, h1) == str_of(cells, h2),
        (Value::Bool(x), Value::Bool(y)) => x == y,
        (Value::Array(h1), Value::Array(h2)) => {
            let e1 = arr_of(cells, h1);
            let e2 = arr_of(cells, h2);
            proof {
                assert(cell_contents_ok(cells, cells[h1.idx as int], h1.idx as int));
                assert(cell_contents_ok(cells, cells[h2.idx as int], h2.idx as int));
            }
            e1.len() == e2.len() && (forall|j: int|
                0 <= j < e1.len() ==> val_eq(cells, #[trigger] e1[j], #[trigger] e2[j]))
        },
        (Value::Function(h1), Value::Function(h2)) => h1 == h2,
        _ => spec_discr(a) == spec_discr(b),
    }
}

/// The value under the first entry of `ps` whose key equals `key`, or `Nil`.
pub open spec fn lookup_pairs(cells: Seq<HeapCell>, ps: Seq<(Value, Value)>, key: Value) -> Value
    decreases ps.len(),
{
    if ps.len() == 0 {
        Value::Nil
    } else if val_eq(cells, ps[0].0, key) {
        ps[0].1
    } else {
        lookup_pairs(cells, ps.drop_first(), key)
    }
}

/// The value under the first entry whose key is a string holding exactly
/// the text `t`, or `Nil`. Looking a string key up by any handle with that
/// text gives this result, because string keys compare by contents.
pub open spec fn lookup_text(
    cells: Seq<HeapCell>,
    ps: Seq<(Value, Value)>,
    t: Seq<char>,
) -> Value
    decreases ps.len(),
{
    if ps.len() == 0 {
        Value::Nil
    } else if ps[0].0 is Str && str_of(cells, ps[0].0->Str_0) == t {
        ps[0].1
    } else {
        lookup_text(cells, ps.drop_first(), t)
    }
}

/// Looking up by a string key is looking up by its text: the handle does
/// not matter.
pub proof fn lemma_lookup_by_text(
    cells: Seq<HeapCell>,
    ps: Seq<(Value, Value)>,
    hk: Handle,
    t: Seq<char>,
)
    requires
        heap_wf(cells),
        val_ok(cells, Value::Str(hk)),
        str_of(cells, hk) == t,
        forall|j: int| 0 <= j < ps.len() ==> val_ok(cells, (#[trigger] ps[j]).0),
    ensures
        lookup_pairs(cells, ps, Value::Str(hk)) == lookup_text(cells, ps, t),
    decreases ps.len(),
{
    if ps.len() > 0 {
        assert(val_ok(cells, ps[0].0));
        assert(val_eq(cells, ps[0].0, Value::Str(hk)) == (ps[0].0 is Str && str_of(
            cells,
            ps[0].0->Str_0,
        ) == t));
        assert forall|j: int| 0 <= j < ps.drop_first().len() implies val_ok(
            cells,
            (#[trigger] ps.drop_first()[j]).0,
        ) by {
            assert(ps.drop_first()[j] == ps[j + 1]);
        }
        lemma_lookup_by_text(cells, ps.drop_first(), hk, t);
    }
}

/// A by-text lookup only reads the string cells the keys point to, so it is
/// stable when the arena grows.
pub proof fn lemma_lookup_text_extend(
    cells1: Seq<HeapCell>,
    cells2: Seq<HeapCell>,
    ps: Seq<(Value, Value)>,
    t: Seq<char>,
)
    requires
        cells2.len() >= cells1.len(),
        forall|k: int| 0 <= k < cells1.len() ==> cells2[k] == cells1[k],
        forall|j: int| 0 <= j < ps.len() ==> val_ok(cells1, (#[trigger] ps[j]).0),
    ensures
        lookup_text(cells2, ps, t) == lookup_text(cells1, ps, t),
    decreases ps.len(),
{
    if ps.len() > 0 {
        assert(val_ok(cells1, ps[0].0));
        if ps[0].0 is Str {
            assert(str_of(cells2, ps[0].0->Str_0) == str_of(cells1, ps[0].0->Str_0));
        }
        assert forall|j: int| 0 <= j < ps.drop_first().len() implies val_ok(
            cells1,
            (#[trigger] ps.drop_first()[j]).0,
        ) by {
            assert(ps.drop_first()[j] == ps[j + 1]);
        }
        lemma_lookup_text_extend(cells1, cells2, ps.drop_first(), t);
    }
}

/// `ps` with the first entry whose key equals `key` rebound to `val` (the
/// stored key is kept), or with `(key, val)` appended if no entry matches.
pub open spec fn insert_pairs(
    cells: Seq<HeapCell>,
    ps: Seq<(Value, Value)>,
    key: Value,
    val: Value,
) -> Seq<(Value, Value)>
    decreases ps.len(),
{
    if ps.len() == 0 {
        seq![(key, val)]
    } else if val_eq(cells, ps[0].0, key) {
        ps.update(0, (ps[0].0, val))
    } else {
        seq![ps[0]] + insert_pairs(cells, ps.drop_first(), key, val)
    }
}

impl Heap {
    pub open spec fn wf(&self) -> bool {
        heap_wf(self.cells@)
    }

    pub fn new() -> (h: Heap)
        ensures
            h.cells@.len() == 0,
            h.wf(),
    {
        Heap { cells: Vec::new() }
    }

    /// Allocate a fresh string cell.
    pub fn alloc_str(&mut self, text: Vec<char>) -> (h: Handle)
        requires
            old(self).wf(),
        ensures
            final(self).wf(),
            final(self).cells@ == old(self).cells@.push(HeapCell::Str(text)),
            h.idx == old(self).cells@.len(),
            val_ok(final(self).cells@, Value::Str(h)),
            forall|nf: int|
                cells_fns_ok(old(self).cells@, nf) ==> cells_fns_ok(final(self).cells@, nf),
    {
        let h = Handle { idx: self.cells.len() };
        self.cells.push(HeapCell::Str(text));
        proof {
            lemma_push_preserves_wf(old(self).cells@, HeapCell::Str(text));
        }
        h
    }

    /// Allocate a fresh array cell holding `elems`.
    pub fn alloc_array(&mut self, elems: Vec<Value>) -> (h: Handle)
        requires
            old(self).wf(),
            forall|j: int| 0 <= j < elems@.len() ==> val_ok(old(self).cells@, #[trigger] elems@[j]),
        ensures
            final(self).wf(),
            final(self).cells@ == old(self).cells@.push(HeapCell::Arr(elems)),
            h.idx == old(self).cells@.len(),
            val_ok(final(self).cells@, Value::Array(h)),
            arr_of(final(self).cells@, h) == elems@,
            forall|nf: int|
                cells_fns_ok(old(self).cells@, nf) && (forall|j: int|
                    0 <= j < elems@.len() ==> val_fn_ok(nf, #[trigger] elems@[j]))
                    ==> cells_fns_ok(final(self).cells@, nf),
    {
        let h = Handle { idx: self.cells.len() };
        proof {
            assert forall|j: int| 0 <= j < elems@.len() implies val_ok(old(self).cells@, #[trigger] elems@[j])
                && val_rank(elems@[j]) <= old(self).cells@.len() by {
                assert(val_ok(old(self).cells@, elems@[j]));
            }
        }
        self.cells.push(HeapCell::Arr(elems));
        proof {
            lemma_push_preserves_wf(old(self).cells@, self.cells@[old(self).cells@.len() as int]);
        }
        h
    }

    /// Allocate a fresh map cell holding `pairs`.
    pub fn alloc_map(&mut self, pairs: Vec<(Value, Value)>) -> (h: Handle)
        requires
            old(self).wf(),
            forall|j: int|
                0 <= j < pairs@.len() ==> val_ok(old(self).cells@, (#[trigger] pairs@[j]).0)
                    && val_ok(old(self).cells@, pairs@[j].1),
        ensures
            final(self).wf(),
            final(self).cells@ == old(self).cells@.push(HeapCell::MapC(pairs)),
            h.idx == old(self).cells@.len(),
            val_ok(final(self).cells@, Value::MapVal(h)),
            map_of(final(self).cells@, h) == pairs@,
            forall|nf: int|
                cells_fns_ok(old(self).cells@, nf) && (forall|j: int|
                    0 <= j < pairs@.len() ==> val_fn_ok(nf, (#[trigger] pairs@[j]).0) && val_fn_ok(
                        nf,
                        pairs@[j].1,
                    )) ==> cells_fns_ok(final(self).cells@, nf),
    {
        let h = Handle { idx: self.cells.len() };
        self.cells.push(HeapCell::MapC(pairs));
        proof {
            lemma_push_preserves_wf(old(self).cells@, self.cells@[old(self).cells@.len() as int]);
        }
        h
    }

    /// The text of the string cell `h` points to.
    pub fn str_cell(&self, h: Handle) -> (s: &Vec<char>)
        requires
            val_ok(self.cells@, Value::Str(h)),
        ensures
            s@ == str_of(self.cells@, h),
    {
        match &self.cells[h.idx] {
            HeapCell::Str(s) => s,
            _ => unreached(),
        }
    }

    /// The number of elements of the array cell `h` points to.
    pub fn array_len(&self, h: Handle) -> (n: usize)
        requires
            val_ok(self.cells@, Value::Array(h)),
        ensures
            n == arr_of(self.cells@, h).len(),
    {
        match &self.cells[h.idx] {
            HeapCell::Arr(es) => es.len(),
            _ => unreached(),
        }
    }

    /// One element of the array cell `h` points to.
    pub fn array_get(&self, h: Handle, i: usize) -> (v: Value)
        requires
            val_ok(self.cells@, Value::Array(h)),
            i < arr_of(self.cells@, h).len(),
        ensures
            v == arr_of(self.cells@, h)[i as int],
            self.wf() ==> val_ok(self.cells@, v) && val_rank(v) <= h.idx,
    {
        proof {
            if self.wf() {
                assert(cell_contents_ok(self.cells@, self.cells@[h.idx as int], h.idx as int));
            }
        }
        match &self.cells[h.idx] {
            HeapCell::Arr(es) => es[i],
            _ => unreached(),
        }
    }

    /// Overwrite one element of the array cell `h` points to. The write is
    /// visible through every alias of the same handle.
    pub fn array_set(&mut self, h: Handle, i: usize, v: Value)
        requires
            old(self).wf(),
            val_ok(old(self).cells@, Value::Array(h)),
            i < arr_of(old(self).cells@, h).len(),
            val_ok(old(self).cells@, v),
            val_rank(v) <= h.idx,
        ensures
            final(self).wf(),
            final(self).cells@.len() == old(self).cells@.len(),
            final(self).cells@[h.idx as int] is Arr,
            arr_of(final(self).cells@, h) == arr_of(old(self).cells@, h).update(i as int, v),
            forall|k: int|
                0 <= k < final(self).cells@.len() && k != h.idx ==> final(self).cells@[k] == old(self).cells@[k],
            forall|w: Value| val_ok(old(self).cells@, w) ==> val_ok(final(self).cells@, w),
            forall|nf: int|
                cells_fns_ok(old(self).cells@, nf) && val_fn_ok(nf, v) ==> cells_fns_ok(
                    final(self).cells@,
                    nf,
                ),
    {
        let cell = &self.cells[h.idx];
        let mut es: Vec<Value> = match cell {
            HeapCell::Arr(es0) => clone_values(es0),
            _ => unreached(),
        };
        es[i] = v;
        let ghost old_cells = self.cells@;
        proof {
            assert(cell_contents_ok(old_cells, old_cells[h.idx as int], h.idx as int));
        }
        self.cells[h.idx] = HeapCell::Arr(es);
        proof {
            assert(cell_contents_ok(old_cells, self.cells@[h.idx as int], h.idx as int)) by {
                assert forall|j: int| 0 <= j < es@.len() implies val_ok(
                    old_cells,
                    #[trigger] es@[j],
                ) && val_rank(es@[j]) <= h.idx as int by {
                    if j != i as int {
                        assert(es@[j] == arr_of(old_cells, h)[j]);
                    }
                }
            }
            lemma_update_preserves_wf(old_cells, h.idx as int, self.cells@[h.idx as int]);
            assert forall|nf: int|
                cells_fns_ok(old_cells, nf) && val_fn_ok(nf, v) implies cells_fns_ok(
                self.cells@,
                nf,
            ) by {
                assert(cell_fns_ok(nf, old_cells[h.idx as int]));
                assert(cell_fns_ok(nf, self.cells@[h.idx as int])) by {
                    assert forall|j: int| 0 <= j < es@.len() implies val_fn_ok(
                        nf,
                        #[trigger] es@[j],
                    ) by {
                        if j != i as int {
                            assert(es@[j] == arr_of(old_cells, h)[j]);
                        }
                    }
                }
                assert forall|k: int| 0 <= k < self.cells@.len() implies #[trigger] cell_fns_ok(
                    nf,
                    self.cells@[k],
                ) by {
                    if k != h.idx as int {
                        assert(self.cells@[k] == old_cells[k]);
                        assert(cell_fns_ok(nf, old_cells[k]));
                    }
                }
            }
        }
    }

    /// Look a key up in the map cell `h` points to; a missing key yields
    /// `Nil`, never an error.
    pub fn map_get(&self, h: Handle, key: Value) -> (r: Value)
        requires
            self.wf(),
            val_ok(self.cells@, Value::MapVal(h)),
            val_ok(self.cells@, key),
        ensures
            r == lookup_pairs(self.cells@, map_of(self.cells@, h), key),
            val_ok(self.cells@, r),
            forall|nf: int| cell_fns_ok(nf, self.cells@[h.idx as int]) ==> val_fn_ok(nf, r),
    {
        proof {
            assert(cell_contents_ok(self.cells@, self.cells@[h.idx as int], h.idx as int));
        }
        let ghost full = map_of(self.cells@, h);
        let n = match &self.cells[h.idx] {
            HeapCell::MapC(ps) => ps.len(),
            _ => unreached(),
        };
        proof {
            assert(full.skip(0) =~= full);
        }
        let mut j: usize = 0;
        while j < n
            invariant
                j <= n,
                self.wf(),
                val_ok(self.cells@, Value::MapVal(h)),
                val_ok(self.cells@, key),
                n == full.len(),
                full == map_of(self.cells@, h),
                cell_contents_ok(self.cells@, self.cells@[h.idx as int], h.idx as int),
                lookup_pairs(self.cells@, full, key) == lookup_pairs(
                    self.cells@,
                    full.skip(j as int),
                    key,
                ),
            decreases n - j,
        {
            let (k, v) = match &self.cells[h.idx] {
                HeapCell::MapC(ps) => ps[j],
                _ => unreached(),
            };
            proof {
                assert(full.skip(j as int)[0] == full[j as int]);
            }
            if self.value_eq(k, key) {
                return v;
            }
            proof {
                assert(full.skip(j as int).drop_first() =~= full.skip(j as int + 1));
            }
            j = j + 1;
        }
        proof {
            assert(full.skip(n as int).len() == 0);
        }
        Value::Nil
    }

    /// Bind a key in the map cell `h` points to: the first entry whose key
    /// equals `key` is rebound, keeping the stored key, otherwise the entry
    /// is appended.
    pub fn map_insert(&mut self, h: Handle, key: Value, val: Value)
        requires
            old(self).wf(),
            val_ok(old(self).cells@, Value::MapVal(h)),
            val_ok(old(self).cells@, key),
            val_ok(old(self).cells@, val),
            val_rank(key) <= h.idx,
            val_rank(val) <= h.idx,
        ensures
            final(self).wf(),
            final(self).cells@.len() == old(self).cells@.len(),
            map_of(final(self).cells@, h) == insert_pairs(
                old(self).cells@,
                map_of(old(self).cells@, h),
                key,
                val,
            ),
            forall|k: int|
                0 <= k < final(self).cells@.len() && k != h.idx ==> final(self).cells@[k] == old(self).cells@[k],
            forall|w: Value| val_ok(old(self).cells@, w) ==> val_ok(final(self).cells@, w),
            forall|nf: int|
                cells_fns_ok(old(self).cells@, nf) && val_fn_ok(nf, key) && val_fn_ok(nf, val)
                    ==> cells_fns_ok(final(self).cells@, nf),
    {
        proof {
            assert(cell_contents_ok(self.cells@, self.cells@[h.idx as int], h.idx as int));
        }
        let ghost full = map_of(self.cells@, h);
        let mut ps: Vec<(Value, Value)> = match &self.cells[h.idx] {
            HeapCell::MapC(ps0) => clone_pairs(ps0),
            _ => unreached(),
        };
        let n = ps.len();
        proof {
            assert(full.skip(0) =~= full);
            assert(full.subrange(0, 0) + insert_pairs(self.cells@, full, key, val) =~= insert_pairs(
                self.cells@,
                full,
                key,
                val,
            ));
        }
        let mut j: usize = 0;
        let mut found = false;
        let mut at: usize = 0;
        while j < n
            invariant
                j <= n,
                old(self) == self,
                self.wf(),
                val_ok(self.cells@, Value::MapVal(h)),
                val_ok(self.cells@, key),
                n == full.len(),
                ps@ == full,
                full == map_of(self.cells@, h),
                cell_contents_ok(self.cells@, self.cells@[h.idx as int], h.idx as int),
                !found ==> insert_pairs(self.cells@, full, key, val) == full.subrange(
                    0,
                    j as int,
                ) + insert_pairs(self.cells@, full.skip(j as int), key, val),
                found ==> at < n && val_eq(self.cells@, full[at as int].0, key) && insert_pairs(
                    self.cells@,
                    full,
                    key,
                    val,
                ) == full.update(at as int, (full[at as int].0, val)),
            decreases n - j,
        {
            if !found {
                let k = ps[j].0;
                proof {
                    assert(full.skip(j as int)[0] == full[j as int]);
                }
                if self.value_eq(k, key) {
                    found = true;
                    at = j;
                    proof {
                        assert(insert_pairs(self.cells@, full.skip(j as int), key, val)
                            == full.skip(j as int).update(0, (full[j as int].0, val)));
                        assert(full.subrange(0, j as int) + full.skip(j as int).update(
                            0,
                            (full[j as int].0, val),
                        ) =~= full.update(j as int, (full[j as int].0, val)));
                    }
                } else {
                    proof {
                        assert(full.skip(j as int).drop_first() =~= full.skip(j as int + 1));
                        assert(seq![full[j as int]] + insert_pairs(
                            self.cells@,
                            full.skip(j as int + 1),
                            key,
                            val,
                        ) == insert_pairs(self.cells@, full.skip(j as int), key, val));
                        assert(full.subrange(0, j as int) + (seq![full[j as int]] + insert_pairs(
                            self.cells@,
                            full.skip(j as int + 1),
                            key,
                            val,
                        )) =~= full.subrange(0, j as int + 1) + insert_pairs(
                            self.cells@,
                            full.skip(j as int + 1),
                            key,
                            val,
                        ));
                    }
                }
            }
            j = j + 1;
        }
        let ghost old_cells = self.cells@;
        if found {
            ps[at] = (ps[at].0, val);
        } else {
            ps.push((key, val));
            proof {
                assert(full.skip(n as int).len() == 0);
                assert(full.subrange(0, n as int) =~= full);
                assert(full.subrange(0, n as int) + seq![(key, val)] =~= full.push((key, val)));
            }
        }
        self.cells[h.idx] = HeapCell::MapC(ps);
        proof {
            lemma_update_preserves_wf(old_cells, h.idx as int, self.cells@[h.idx as int]);
            assert(map_of(self.cells@, h) == insert_pairs(old_cells, full, key, val));
            assert forall|nf: int|
                cells_fns_ok(old_cells, nf) && val_fn_ok(nf, key) && val_fn_ok(
                    nf,
                    val,
                ) implies cells_fns_ok(self.cells@, nf) by {
                assert(cell_fns_ok(nf, old_cells[h.idx as int]));
                assert(cell_fns_ok(nf, self.cells@[h.idx as int])) by {
                    assert forall|j: int| 0 <= j < ps@.len() implies val_fn_ok(
                        nf,
                        (#[trigger] ps@[j]).0,
                    ) && val_fn_ok(nf, ps@[j].1) by {
                        if j < full.len() {
                            if !(found && j == at as int) {
                                assert(ps@[j] == full[j]);
                            } else {
                                assert(ps@[j].0 == full[j].0);
                            }
                        }
                    }
                }
                assert forall|k: int| 0 <= k < self.cells@.len() implies #[trigger] cell_fns_ok(
                    nf,
                    self.cells@[k],
                ) by {
                    if k != h.idx as int {
                        assert(self.cells@[k] == old_cells[k]);
                        assert(cell_fns_ok(nf, old_cells[k]));
                    }
                }
            }
        }
    }

    /// Concatenate two arrays into a fresh cell: the left elements, then the
    /// right elements. Neither source cell changes.
    pub fn concat_arrays(&mut self, h1: Handle, h2: Handle) -> (h: Handle)
        requires
            old(self).wf(),
            val_ok(old(self).cells@, Value::Array(h1)),
            val_ok(old(self).cells@, Value::Array(h2)),
        ensures
            final(self).wf(),
            final(self).cells@.len() == old(self).cells@.len() + 1,
            forall|k: int|
                0 <= k < old(self).cells@.len() ==> final(self).cells@[k] == old(self).cells@[k],
            h.idx == old(self).cells@.len(),
            val_ok(final(self).cells@, Value::Array(h)),
            arr_of(final(self).cells@, h) == arr_of(old(self).cells@, h1) + arr_of(
                old(self).cells@,
                h2,
            ),
            forall|nf: int|
                cells_fns_ok(old(self).cells@, nf) ==> cells_fns_ok(final(self).cells@, nf),
    {
        proof {
            assert(cell_contents_ok(self.cells@, self.cells@[h1.idx as int], h1.idx as int));
            assert(cell_contents_ok(self.cells@, self.cells@[h2.idx as int], h2.idx as int));
        }
        let mut es: Vec<Value> = match &self.cells[h1.idx] {
            HeapCell::Arr(es1) => clone_values(es1),
            _ => unreached(),
        };
        let n2 = self.array_len(h2);
        let mut i: usize = 0;
        while i < n2
            invariant
                i <= n2,
                self == old(self),
                self.wf(),
                val_ok(self.cells@, Value::Array(h1)),
                val_ok(self.cells@, Value::Array(h2)),
                n2 == arr_of(self.cells@, h2).len(),
                es@ == arr_of(self.cells@, h1) + arr_of(self.cells@, h2).subrange(0, i as int),
            decreases n2 - i,
        {
            let v = self.array_get(h2, i);
            es.push(v);
            proof {
                assert(es@ =~= arr_of(self.cells@, h1) + arr_of(self.cells@, h2).subrange(
                    0,
                    i + 1,
                ));
            }
            i = i + 1;
        }
        proof {
            assert(arr_of(self.cells@, h2).subrange(0, n2 as int) =~= arr_of(self.cells@, h2));
            assert forall|j: int| 0 <= j < es@.len() implies val_ok(
                old(self).cells@,
                #[trigger] es@[j],
            ) by {
                if j < arr_of(self.cells@, h1).len() {
                    assert(es@[j] == arr_of(self.cells@, h1)[j]);
                } else {
                    assert(es@[j] == arr_of(self.cells@, h2)[j - arr_of(
                        self.cells@,
                        h1,
                    ).len()]);
                }
            }
        }
        let ghost mid = *self;
        let h = self.alloc_array(es);
        proof {
            assert forall|nf: int| cells_fns_ok(old(self).cells@, nf) implies cells_fns_ok(
                final(self).cells@,
                nf,
            ) by {
                assert(cell_fns_ok(nf, old(self).cells@[h1.idx as int]));
                assert(cell_fns_ok(nf, old(self).cells@[h2.idx as int]));
                assert forall|j: int| 0 <= j < es@.len() implies val_fn_ok(
                    nf,
                    #[trigger] es@[j],
                ) by {
                    if j < arr_of(old(self).cells@, h1).len() {
                        assert(es@[j] == arr_of(old(self).cells@, h1)[j]);
                    } else {
                        assert(es@[j] == arr_of(old(self).cells@, h2)[j - arr_of(
                            old(self).cells@,
                            h1,
                        ).len()]);
                    }
                }
            }
        }
        h
    }

    /// Concatenate two strings into a fresh cell. Neither source cell
    /// changes.
    pub fn concat_strs(&mut self, h1: Handle, h2: Handle) -> (h: Handle)
        requires
            old(self).wf(),
            val_ok(old(self).cells@, Value::Str(h1)),
            val_ok(old(self).cells@, Value::Str(h2)),
        ensures
            final(self).wf(),
            final(self).cells@.len() == old(self).cells@.len() + 1,
            forall|k: int|
                0 <= k < old(self).cells@.len() ==> final(self).cells@[k] == old(self).cells@[k],
            h.idx == old(self).cells@.len(),
            val_ok(final(self).cells@, Value::Str(h)),
            str_of(final(self).cells@, h) == str_of(old(self).cells@, h1) + str_of(
                old(self).cells@,
                h2,
            ),
            forall|nf: int|
                cells_fns_ok(old(self).cells@, nf) ==> cells_fns_ok(final(self).cells@, nf),
    {
        let mut text: Vec<char> = match &self.cells[h1.idx] {
            HeapCell::Str(t1) => crate::text::clone_chars(t1),
            _ => unreached(),
        };
        let snd = match &self.cells[h2.idx] {
            HeapCell::Str(t2) => crate::text::clone_chars(t2),
            _ => unreached(),
        };
        crate::render::push_chars(&mut text, &snd);
        self.alloc_str(text)
    }

    /// The language's value-equality test; see [`val_eq`].
    pub fn value_eq(&self, a: Value, b: Value) -> (r: bool)
        requires
            self.wf(),
            val_ok(self.cells@, a),
            val_ok(self.cells@, b),
        ensures
            r == val_eq(self.cells@, a, b),
        decreases val_rank(a) + val_rank(b),
    {
        match (a, b) {
            (Value::Number(x), Value::Number(y)) => x == y,
            (Value::Str(h1), Value::Str(h2)) => chars_eq(self.str_cell(h1), self.str_cell(h2)),
            (Value::Bool(x), Value::Bool(y)) => x == y,
            (Value::Array(h1), Value::Array(h2)) => {
                proof {
                    assert(cell_contents_ok(self.cells@, self.cells@[h1.idx as int], h1.idx as int));
                    assert(cell_contents_ok(self.cells@, self.cells@[h2.idx as int], h2.idx as int));
                }
                let n1 = self.array_len(h1);
                let n2 = self.array_len(h2);
                if n1 != n2 {
                    return false;
                }
                let ghost e1 = arr_of(self.cells@, h1);
                let ghost e2 = arr_of(self.cells@, h2);
                let mut j: usize = 0;
                while j < n1
                    invariant
                        j <= n1,
                        self.wf(),
                        a == Value::Array(h1),
                        b == Value::Array(h2),
                        val_ok(self.cells@, Value::Array(h1)),
                        val_ok(self.cells@, Value::Array(h2)),
                        e1 == arr_of(self.cells@, h1),
                        e2 == arr_of(self.cells@, h2),
                        n1 == e1.len() && n1 == e2.len(),
                        cell_contents_ok(self.cells@, self.cells@[h1.idx as int], h1.idx as int),
                        cell_contents_ok(self.cells@, self.cells@[h2.idx as int], h2.idx as int),
                        forall|k: int| 0 <= k < j ==> val_eq(self.cells@, #[trigger] e1[k], #[trigger] e2[k]),
                    decreases n1 - j,
                {
                    let x = self.array_get(h1, j);
                    let y = self.array_get(h2, j);
                    proof {
                        assert(val_rank(x) <= h1.idx as int && val_rank(y) <= h2.idx as int);
                        assert(val_rank(x) + val_rank(y) < val_rank(a) + val_rank(b));
                    }
                    if !self.value_eq(x, y) {
                        proof {
                            assert(!val_eq(self.cells@, e1[j as int], e2[j as int]));
                            assert(!val_eq(self.cells@, a, b));
                        }
                        return false;
                    }
                    j = j + 1;
                }
                proof {
                    assert(val_eq(self.cells@, a, b));
                }
                true
            },
            (Value::Function(h1), Value::Function(h2)) => h1.idx == h2.idx,
            (Value::Nil, Value::Nil) => true,
            (Value::MapVal(_), Value::MapVal(_)) => true,
            _ => false,
        }
    }
}

/// An elementwise copy of a vector of values.
fn clone_values(es: &Vec<Value>) -> (r: Vec<Value>)
    ensures
        r@ == es@,
{
    let mut r: Vec<Value> = Vec::new();
    let mut i: usize = 0;
    while i < es.len()
        invariant
            i <= es@.len(),
            r@ == es@.subrange(0, i as int),
        decreases es@.len() - i,
    {
        r.push(es[i]);
        i = i + 1;
    }
    proof {
        assert(r@ =~= es@);
    }
    r
}

/// An elementwise copy of a vector of map entries.
fn clone_pairs(ps: &Vec<(Value, Value)>) -> (r: Vec<(Value, Value)>)
    ensures
        r@ == ps@,
{
    let mut r: Vec<(Value, Value)> = Vec::new();
    let mut i: usize = 0;
    while i < ps.len()
        invariant
            i <= ps@.len(),
            r@ == ps@.subrange(0, i as int),
        decreases ps@.len() - i,
    {
        r.push(ps[i]);
        i = i + 1;
    }
    proof {
        assert(r@ =~= ps@);
    }
    r
}

/// Pushing a cell whose contents are valid for the old arena preserves
/// well-formedness: validity only mentions cells at indices that still hold
/// the same cell.
pub proof fn lemma_push_preserves_wf(cells: Seq<HeapCell>, c: HeapCell)
    requires
        heap_wf(cells),
        cell_contents_ok(cells, c, cells.len() as int),
    ensures
        heap_wf(cells.push(c)),
        forall|v: Value| val_ok(cells, v) ==> val_ok(cells.push(c), v),
{
    let cells2 = cells.push(c);
    assert forall|v: Value| val_ok(cells, v) implies val_ok(cells2, v) by {}
    assert forall|i: int| 0 <= i < cells2.len() implies #[trigger] cell_contents_ok(
        cells2,
        cells2[i],
        i,
    ) by {
        if i < cells.len() {
            assert(cell_contents_ok(cells, cells[i], i));
            assert(cells2[i] == cells[i]);
            lemma_contents_ok_monotone(cells, cells2, cells2[i], i);
        } else {
            assert(cells2[i] == c);
            lemma_contents_ok_monotone(cells, cells2, c, i);
            assert(cell_contents_ok(cells, c, cells.len() as int));
        }
    }
}

/// Replacing cell `i` with a cell of the same kind whose contents are valid
/// for the old arena (and below `i`) preserves well-formedness.
pub proof fn lemma_update_preserves_wf(cells: Seq<HeapCell>, i: int, c: HeapCell)
    requires
        heap_wf(cells),
        0 <= i < cells.len(),
        cells[i] is Str <==> c is Str,
        cells[i] is Arr <==> c is Arr,
        cells[i] is MapC <==> c is MapC,
        cell_contents_ok(cells, c, i),
    ensures
        heap_wf(cells.update(i, c)),
        forall|v: Value| val_ok(cells, v) ==> val_ok(cells.update(i, c), v),
{
    let cells2 = cells.update(i, c);
    assert forall|v: Value| val_ok(cells, v) implies val_ok(cells2, v) by {}
    assert forall|k: int| 0 <= k < cells2.len() implies #[trigger] cell_contents_ok(
        cells2,
        cells2[k],
        k,
    ) by {
        if k != i {
            assert(cell_contents_ok(cells, cells[k], k));
            lemma_contents_ok_same_kinds(cells, cells2, cells[k], k);
        } else {
            lemma_contents_ok_same_kinds(cells, cells2, c, k);
        }
    }
}

/// Contents validity carries over to a longer arena that agrees on the old
/// prefix.
proof fn lemma_contents_ok_monotone(
    cells: Seq<HeapCell>,
    cells2: Seq<HeapCell>,
    c: HeapCell,
    i: int,
)
    requires
        cells2.len() >= cells.len(),
        forall|k: int| 0 <= k < cells.len() ==> cells2[k] == cells[k],
        cell_contents_ok(cells, c, i),
    ensures
        cell_contents_ok(cells2, c, i),
{
    match c {
        HeapCell::Str(_) => {},
        HeapCell::Arr(es) => {
            assert forall|j: int| 0 <= j < es@.len() implies val_ok(cells2, #[trigger] es@[j])
                && val_rank(es@[j]) <= i by {
                assert(val_ok(cells, es@[j]) && val_rank(es@[j]) <= i);
            }
        },
        HeapCell::MapC(ps) => {
            assert forall|j: int| 0 <= j < ps@.len() implies val_ok(cells2, (#[trigger] ps@[j]).0)
                && val_rank(ps@[j].0) <= i && val_ok(cells2, ps@[j].1) && val_rank(ps@[j].1)
                <= i by {
                assert(val_ok(cells, ps@[j].0) && val_ok(cells, ps@[j].1));
            }
        },
    }
}

/// Contents validity carries over to an arena of the same length whose cells
/// all kept their kinds.
proof fn lemma_contents_ok_same_kinds(
    cells: Seq<HeapCell>,
    cells2: Seq<HeapCell>,
    c: HeapCell,
    i: int,
)
    requires
        cells2.len() == cells.len(),
        forall|k: int|
            0 <= k < cells.len() ==> ((cells2[k] is Str <==> #[trigger] cells[k] is Str) && (
            cells2[k] is Arr <==> cells[k] is Arr) && (cells2[k] is MapC <==> cells[k] is MapC)),
        cell_contents_ok(cells, c, i),
    ensures
        cell_contents_ok(cells2, c, i),
{
    match c {
        HeapCell::Str(_) => {},
        HeapCell::Arr(es) => {
            assert forall|j: int| 0 <= j < es@.len() implies val_ok(cells2, #[trigger] es@[j])
                && val_rank(es@[j]) <= i by {
                assert(val_ok(cells, es@[j]) && val_rank(es@[j]) <= i);
            }
        },
        HeapCell::MapC(ps) => {
            assert forall|j: int| 0 <= j < ps@.len() implies val_ok(cells2, (#[trigger] ps@[j]).0)
                && val_rank(ps@[j].0) <= i && val_ok(cells2, ps@[j].1) && val_rank(ps@[j].1)
                <= i by {
                assert(val_ok(cells, ps@[j].0) && val_ok(cells, ps@[j].1));
            }
        },
    }
}

/// Concatenation of sequences is associative: joining three arrays (or three
/// strings) gives the same elements whichever pair is joined first.
pub proof fn lemma_concat_associative<T>(a: Seq<T>, b: Seq<T>, c: Seq<T>)
    ensures
        (a + b) + c == a + (b + c),
{
    assert((a + b) + c =~= a + (b + c));
}

/// Aliasing: two array values holding the same handle observe the same
/// storage. After a mutation that rebinds element `i` of the array `a`
/// refers to (the shape [`Heap::array_set`] guarantees), a read through the
/// alias `b` sees the new element, and every other element is unchanged.
pub proof fn lemma_alias_mutation_visible(
    cells: Seq<HeapCell>,
    cells2: Seq<HeapCell>,
    a: Handle,
    b: Handle,
    i: int,
    v: Value,
)
    requires
        a == b,
        a.idx < cells.len(),
        cells[a.idx as int] is Arr,
        0 <= i < arr_of(cells, a).len(),
        cells2.len() == cells.len(),
        cells2[a.idx as int] is Arr,
        arr_of(cells2, a) == arr_of(cells, a).update(i, v),
    ensures
        arr_of(cells2, b)[i] == v,
        forall|k: int|
            0 <= k < arr_of(cells, a).len() && k != i ==> arr_of(cells2, b)[k] == arr_of(cells, a)[k],
{
}

} // verus!
