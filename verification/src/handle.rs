//! Handles to shared compound values.
//!
//! A handle is an index into the executor's arena of compound values
//! ([`crate::value::Heap`]). Copying a `Value` copies the handle, not the
//! underlying storage, so two bindings to the same compound value observe
//! each other's mutations.

use vstd::prelude::*;

verus! {

#[derive(Clone, Copy, Debug, PartialEq, Eq, Structural)]
pub struct Handle {
    pub idx: usize,
}

impl Handle {
    pub fn new(idx: usize) -> (h: Self)
        ensures
            h.idx == idx,
    {
        Self { idx }
    }
}

} // verus!
