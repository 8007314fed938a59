//! Rendering values as text, as `print` and the host's result echo show
//! them.
//!
//! Two renderings exist: *display* shows a string's bare characters and
//! falls back to *debug* for everything else; *debug* quotes strings,
//! writes numbers in decimal, arrays as `[a, b]` with display elements,
//! maps as a `%{` block of `key => value` lines, and functions by their
//! name. Both are pinned exactly by the spec functions below; the recursion
//! through arrays and maps is grounded by the arena's handle ordering.

use vstd::prelude::*;

use crate::function::{Callable, FuncKind, funcs_view};
use crate::heap::{Heap, HeapCell, arr_of, map_of, str_of, cell_contents_ok, cell_fns_ok,
    cells_fns_ok, heap_wf, val_fn_ok, val_ok, val_rank};
use crate::value::Value;

verus! {

broadcast use vstd::std_specs::vec::group_vec_axioms;

/// The character for one decimal digit.
pub open spec fn digit_char(d: int) -> char {
    ((48 + d) as u8) as char
}

/// The decimal digits of a non-negative number, most significant first.
pub open spec fn dec_digits_of(m: nat) -> Seq<char>
    decreases m,
{
    if m < 10 {
        seq![digit_char(m as int)]
    } else {
        dec_digits_of(m / 10) + seq![digit_char((m % 10) as int)]
    }
}

/// A number in decimal, with a leading minus sign when negative.
pub open spec fn render_int(n: int) -> Seq<char> {
    if n < 0 {
        seq!['-'] + dec_digits_of((-n) as nat)
    } else {
        dec_digits_of(n as nat)
    }
}

/// How a function value is shown, by its kind and optional name.
pub open spec fn func_text(k: FuncKind) -> Seq<char> {
    match k {
        FuncKind::Native => seq!['<', ' ', 'n', 'a', 't', 'i', 'v', 'e', ' ', 'f', 'u', 'n', 'c', ' ', '>'],
        FuncKind::User(Some(n)) => seq!['<', ' ', 'f', 'u', 'n', 'c', ' '] + n + seq![' ', '>'],
        FuncKind::User(None) => seq!['<', ' ', 'a', 'n', 'o', 'n', 'y', 'm', 'o', 'u', 's', ' ', 'f', 'u', 'n', 'c', ' ', '>'],
    }
}

/// The display rendering: a string's bare characters, anything else as
/// debug.
pub open spec fn display_of(cells: Seq<HeapCell>, fks: Seq<FuncKind>, v: Value) -> Seq<char>
    decreases val_rank(v), 1int,
        when heap_wf(cells) && val_ok(cells, v)
{
    match v {
        Value::Str(h) => str_of(cells, h),
        _ => debug_of(cells, fks, v),
    }
}

/// The debug rendering.
pub open spec fn debug_of(cells: Seq<HeapCell>, fks: Seq<FuncKind>, v: Value) -> Seq<char>
    decreases val_rank(v), 0int,
        when heap_wf(cells) && val_ok(cells, v)
{
    match v {
        Value::Number(n) => render_int(n as int),
        Value::Str(h) => seq!['"'] + str_of(cells, h) + seq!['"'],
        Value::Bool(b) => if b {
            seq!['t', 'r', 'u', 'e']
        } else {
            seq!['f', 'a', 'l', 's', 'e']
        },
        Value::Array(h) => {
            proof {
                assert(cell_contents_ok(cells, cells[h.idx as int], h.idx as int));
            }
            seq!['['] + items_text(cells, fks, arr_of(cells, h), 0, h.idx as int) + seq![']']
        },
        Value::MapVal(h) => {
            proof {
                assert(cell_contents_ok(cells, cells[h.idx as int], h.idx as int));
            }
            seq!['%', '{', '\n'] + entries_text(cells, fks, map_of(cells, h), 0, h.idx as int)
                + seq!['}']
        },
        Value::Function(h) => if h.idx < fks.len() {
            func_text(fks[h.idx as int])
        } else {
            Seq::empty()
        },
        Value::Nil => seq!['n', 'i', 'l'],
    }
}

/// The elements of an array from index `i` on, displayed and separated by
/// commas.
pub open spec fn items_text(
    cells: Seq<HeapCell>,
    fks: Seq<FuncKind>,
    es: Seq<Value>,
    i: int,
    bound: int,
) -> Seq<char>
    decreases bound, es.len() - i + 2,
        when 0 <= i && (forall|j: int| 0 <= j < es.len() ==> val_rank(#[trigger] es[j]) <= bound)
{
    if i >= es.len() {
        Seq::empty()
    } else {
        display_of(cells, fks, es[i]) + (if i != es.len() - 1 {
            seq![',', ' ']
        } else {
            Seq::empty()
        }) + items_text(cells, fks, es, i + 1, bound)
    }
}

/// The entries of a map from index `i` on, one indented `key => value` line
/// each, all but the last followed by a comma.
pub open spec fn entries_text(
    cells: Seq<HeapCell>,
    fks: Seq<FuncKind>,
    ps: Seq<(Value, Value)>,
    i: int,
    bound: int,
) -> Seq<char>
    decreases bound, ps.len() - i + 2,
        when 0 <= i && (forall|j: int|
            0 <= j < ps.len() ==> val_rank((#[trigger] ps[j]).0) <= bound && val_rank(ps[j].1)
                <= bound)
{
    if i >= ps.len() {
        Seq::empty()
    } else {
        seq![' ', ' ', ' ', ' '] + display_of(cells, fks, ps[i].0) + seq![' ', '=', '>', ' ']
            + display_of(cells, fks, ps[i].1) + (if i != ps.len() - 1 {
            seq![',', ' ']
        } else {
            Seq::empty()
        }) + seq!['\n'] + entries_text(cells, fks, ps, i + 1, bound)
    }
}

/// Append the characters of `src` to `dst`.
pub fn push_chars(dst: &mut Vec<char>, src: &Vec<char>)
    ensures
        final(dst)@ == old(dst)@ + src@,
{
    let mut i: usize = 0;
    proof {
        assert(dst@ =~= old(dst)@ + src@.subrange(0, 0));
    }
    while i < src.len()
        invariant
            i <= src@.len(),
            dst@ == old(dst)@ + src@.subrange(0, i as int),
        decreases src@.len() - i,
    {
        dst.push(src[i]);
        proof {
            assert(old(dst)@ + src@.subrange(0, i + 1) =~= (old(dst)@ + src@.subrange(0, i as int)).push(
                src@[i as int],
            ));
        }
        i = i + 1;
    }
    proof {
        assert(src@.subrange(0, src@.len() as int) =~= src@);
    }
}

/// The decimal digits of `m0`, most significant first.
pub fn render_u64(m0: u64) -> (r: Vec<char>)
    ensures
        r@ == dec_digits_of(m0 as nat),
{
    let mut r: Vec<char> = Vec::new();
    let mut m: u64 = m0;
    proof {
        assert(dec_digits_of(m0 as nat) =~= dec_digits_of(m as nat) + r@);
    }
    loop
        invariant_except_break
            dec_digits_of(m0 as nat) == dec_digits_of(m as nat) + r@,
        ensures
            r@ == dec_digits_of(m0 as nat),
        decreases m,
    {
        let c = (48u8 + (m % 10) as u8) as char;
        let ghost r0 = r@;
        r.insert(0, c);
        proof {
            assert(c == digit_char((m as int) % 10));
            assert(r@ =~= seq![digit_char((m as int) % 10)] + r0);
        }
        if m < 10 {
            proof {
                assert(dec_digits_of(m as nat) == seq![digit_char(m as int)]);
                assert(dec_digits_of(m0 as nat) =~= r@);
            }
            break;
        }
        proof {
            assert(dec_digits_of(m as nat) == dec_digits_of((m as nat) / 10) + seq![
                digit_char((m as int) % 10),
            ]);
            assert(dec_digits_of(m0 as nat) =~= dec_digits_of((m / 10) as nat) + r@);
        }
        m = m / 10;
    }
    r
}

/// A number in decimal, with a leading minus sign when negative.
pub fn render_i64(n: i64) -> (r: Vec<char>)
    ensures
        r@ == render_int(n as int),
{
    let m = crate::value::mag(n);
    let digs = render_u64(m);
    if n < 0 {
        let mut r: Vec<char> = Vec::new();
        r.push('-');
        push_chars(&mut r, &digs);
        proof {
            assert(r@ =~= seq!['-'] + dec_digits_of((-(n as int)) as nat));
        }
        r
    } else {
        digs
    }
}

/// The display rendering of a value; see [`display_of`].
pub fn render_display(heap: &Heap, funcs: &Vec<Callable>, v: Value) -> (r: Vec<char>)
    requires
        heap.wf(),
        val_ok(heap.cells@, v),
        val_fn_ok(funcs@.len() as int, v),
        cells_fns_ok(heap.cells@, funcs@.len() as int),
    ensures
        r@ == display_of(heap.cells@, funcs_view(funcs@), v),
    decreases val_rank(v), 1int,
{
    match v {
        Value::Str(h) => crate::text::clone_chars(heap.str_cell(h)),
        _ => render_debug(heap, funcs, v),
    }
}

/// The debug rendering of a value; see [`debug_of`].
pub fn render_debug(heap: &Heap, funcs: &Vec<Callable>, v: Value) -> (r: Vec<char>)
    requires
        heap.wf(),
        val_ok(heap.cells@, v),
        val_fn_ok(funcs@.len() as int, v),
        cells_fns_ok(heap.cells@, funcs@.len() as int),
    ensures
        r@ == debug_of(heap.cells@, funcs_view(funcs@), v),
    decreases val_rank(v), 0int,
{
    let ghost cells = heap.cells@;
    let ghost fks = funcs_view(funcs@);
    match v {
        Value::Number(n) => render_i64(n),
        Value::Str(h) => {
            let mut r: Vec<char> = Vec::new();
            r.push('"');
            push_chars(&mut r, heap.str_cell(h));
            r.push('"');
            proof {
                assert(r@ =~= seq!['"'] + str_of(cells, h) + seq!['"']);
            }
            r
        },
        Value::Bool(b) => {
            let mut r: Vec<char> = Vec::new();
            if b {
                r.push('t');
                r.push('r');
                r.push('u');
                r.push('e');
                proof {
                    assert(r@ =~= seq!['t', 'r', 'u', 'e']);
                }
            } else {
                r.push('f');
                r.push('a');
                r.push('l');
                r.push('s');
                r.push('e');
                proof {
                    assert(r@ =~= seq!['f', 'a', 'l', 's', 'e']);
                }
            }
            r
        },
        Value::Nil => {
            let mut r: Vec<char> = Vec::new();
            r.push('n');
            r.push('i');
            r.push('l');
            proof {
                assert(r@ =~= seq!['n', 'i', 'l']);
            }
            r
        },
        Value::Function(h) => {
            let mut r: Vec<char> = Vec::new();
            match &funcs[h.idx] {
                Callable::Native(_) => {
                    push_literal(&mut r, "< native func >");
                    proof {
                        reveal_strlit("< native func >");
                        assert(r@ =~= func_text(fks[h.idx as int]));
                    }
                },
                Callable::User(f) => {
                    match &f.name {
                        Some(n) => {
                            push_literal(&mut r, "< func ");
                            push_chars(&mut r, n);
                            push_literal(&mut r, " >");
                            proof {
                                reveal_strlit("< func ");
                                reveal_strlit(" >");
                                assert(r@ =~= func_text(fks[h.idx as int]));
                            }
                        },
                        None => {
                            push_literal(&mut r, "< anonymous func >");
                            proof {
                                reveal_strlit("< anonymous func >");
                                assert(r@ =~= func_text(fks[h.idx as int]));
                            }
                        },
                    }
                },
            }
            r
        },
        Value::Array(h) => {
            proof {
                assert(cell_contents_ok(cells, cells[h.idx as int], h.idx as int));
                assert(cell_fns_ok(funcs@.len() as int, cells[h.idx as int]));
            }
            let ghost es = arr_of(cells, h);
            let ghost bound = h.idx as int;
            let n = heap.array_len(h);
            let mut r: Vec<char> = Vec::new();
            r.push('[');
            let ghost mut built = Seq::<char>::empty();
            proof {
                assert(r@ =~= seq!['['] + built);
                assert(built + items_text(cells, fks, es, 0, bound) =~= items_text(
                    cells,
                    fks,
                    es,
                    0,
                    bound,
                ));
            }
            let mut i: usize = 0;
            let mut built_r = r;
            while i < n
                invariant
                    i <= n,
                    heap.wf(),
                    heap.cells@ == cells,
                    fks == funcs_view(funcs@),
                    v == Value::Array(h),
                    val_ok(cells, Value::Array(h)),
                    cells_fns_ok(cells, funcs@.len() as int),
                    cell_contents_ok(cells, cells[h.idx as int], h.idx as int),
                    cell_fns_ok(funcs@.len() as int, cells[h.idx as int]),
                    es == arr_of(cells, h),
                    bound == h.idx as int,
                    n == es.len(),
                    built_r@ == seq!['['] + built,
                    built + items_text(cells, fks, es, i as int, bound) == items_text(
                        cells,
                        fks,
                        es,
                        0,
                        bound,
                    ),
                decreases n - i,
            {
                let elem = heap.array_get(h, i);
                proof {
                    assert(val_rank(elem) <= bound && bound < val_rank(v));
                }
                let item = render_display(heap, funcs, elem);
                push_chars(&mut built_r, &item);
                let ghost mut step = display_of(cells, fks, es[i as int]);
                if i != n - 1 {
                    built_r.push(',');
                    built_r.push(' ');
                    proof {
                        step = step + seq![',', ' '];
                    }
                }
                proof {
                    assert(built_r@ =~= seq!['['] + (built + step));
                    assert((built + step) + items_text(cells, fks, es, i + 1, bound) =~= built
                        + items_text(cells, fks, es, i as int, bound));
                    built = built + step;
                }
                i = i + 1;
            }
            built_r.push(']');
            proof {
                assert(items_text(cells, fks, es, n as int, bound) =~= Seq::<char>::empty());
                assert(built =~= built + items_text(cells, fks, es, n as int, bound));
                assert(built_r@ =~= seq!['['] + items_text(cells, fks, es, 0, bound) + seq![']']);
            }
            built_r
        },
        Value::MapVal(h) => {
            proof {
                assert(cell_contents_ok(cells, cells[h.idx as int], h.idx as int));
                assert(cell_fns_ok(funcs@.len() as int, cells[h.idx as int]));
            }
            let ghost ps = map_of(cells, h);
            let ghost bound = h.idx as int;
            let n = match &heap.cells[h.idx] {
                HeapCell::MapC(pairs) => pairs.len(),
                _ => unreached(),
            };
            let mut r: Vec<char> = Vec::new();
            r.push('%');
            r.push('{');
            r.push('\n');
            let ghost mut built = Seq::<char>::empty();
            proof {
                assert(r@ =~= seq!['%', '{', '\n'] + built);
                assert(built + entries_text(cells, fks, ps, 0, bound) =~= entries_text(
                    cells,
                    fks,
                    ps,
                    0,
                    bound,
                ));
            }
            let mut i: usize = 0;
            let mut built_r = r;
            while i < n
                invariant
                    i <= n,
                    heap.wf(),
                    heap.cells@ == cells,
                    fks == funcs_view(funcs@),
                    v == Value::MapVal(h),
                    val_ok(cells, Value::MapVal(h)),
                    cells_fns_ok(cells, funcs@.len() as int),
                    cell_contents_ok(cells, cells[h.idx as int], h.idx as int),
                    cell_fns_ok(funcs@.len() as int, cells[h.idx as int]),
                    ps == map_of(cells, h),
                    bound == h.idx as int,
                    n == ps.len(),
                    built_r@ == seq!['%', '{', '\n'] + built,
                    built + entries_text(cells, fks, ps, i as int, bound) == entries_text(
                        cells,
                        fks,
                        ps,
                        0,
                        bound,
                    ),
                decreases n - i,
            {
                let (k, val) = match &heap.cells[h.idx] {
                    HeapCell::MapC(pairs) => pairs[i],
                    _ => unreached(),
                };
                proof {
                    assert(ps[i as int] == (k, val));
                    assert(val_rank(k) <= bound && val_rank(val) <= bound && bound < val_rank(v));
                }
                built_r.push(' ');
                built_r.push(' ');
                built_r.push(' ');
                built_r.push(' ');
                let kt = render_display(heap, funcs, k);
                push_chars(&mut built_r, &kt);
                built_r.push(' ');
                built_r.push('=');
                built_r.push('>');
                built_r.push(' ');
                let vt = render_display(heap, funcs, val);
                push_chars(&mut built_r, &vt);
                let ghost mut step = seq![' ', ' ', ' ', ' '] + display_of(cells, fks, k) + seq![
                    ' ',
                    '=',
                    '>',
                    ' ',
                ] + display_of(cells, fks, val);
                if i != n - 1 {
                    built_r.push(',');
                    built_r.push(' ');
                    proof {
                        step = step + seq![',', ' '];
                    }
                }
                built_r.push('\n');
                proof {
                    step = step + seq!['\n'];
                    assert(built_r@ =~= seq!['%', '{', '\n'] + (built + step));
                    assert((built + step) + entries_text(cells, fks, ps, i + 1, bound) =~= built
                        + entries_text(cells, fks, ps, i as int, bound));
                    built = built + step;
                }
                i = i + 1;
            }
            built_r.push('}');
            proof {
                assert(entries_text(cells, fks, ps, n as int, bound) =~= Seq::<char>::empty());
                assert(built =~= built + entries_text(cells, fks, ps, n as int, bound));
                assert(built_r@ =~= seq!['%', '{', '\n'] + entries_text(cells, fks, ps, 0, bound)
                    + seq!['}']);
            }
            built_r
        },
    }
}

/// Append the characters of a string literal.
pub fn push_literal(dst: &mut Vec<char>, s: &str)
    ensures
        final(dst)@ == old(dst)@ + s@,
{
    let chars = crate::text::str_to_chars(s);
    push_chars(dst, &chars);
}

} // verus!
