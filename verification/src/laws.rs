//! The Counter law.
//!
//! The Counter moves only when a kitty is created: `Module::create` and
//! `Module::breed` promise that it advances by exactly one on success and
//! stands still on failure, and `Module::transfer` promises that it never
//! touches it. Whether such a call succeeds depends only on the Counter and
//! the call's own arguments, so the Counter's whole history is captured by
//! the small model below, and the law — the Counter equals the number of
//! successful create and breed calls — is proved once and for all sequences.

use vstd::prelude::*;

use crate::registry::KittyIndex;

verus! {

/// One allocating dispatcher call: a `create`, or a `breed` of the two given
/// parent ids.
pub enum AllocOp {
    /// A `create` call.
    Create,
    /// A `breed` call, naming its two parent ids.
    Breed(KittyIndex, KittyIndex),
}

/// Whether the call succeeds when the Counter stands at `c`: exactly the
/// success conditions that `Module::create` and `Module::breed` state.
pub open spec fn op_succeeds(c: KittyIndex, op: AllocOp) -> bool {
    match op {
        AllocOp::Create => c < KittyIndex::MAX,
        AllocOp::Breed(id1, id2) => id1 != id2 && id1 < c && id2 < c && c < KittyIndex::MAX,
    }
}

/// The Counter after the call: advanced by one on success, untouched on
/// failure.
pub open spec fn counter_after(c: KittyIndex, op: AllocOp) -> KittyIndex {
    if op_succeeds(c, op) {
        (c + 1) as KittyIndex
    } else {
        c
    }
}

/// The Counter after a whole sequence of calls, applied in order.
pub open spec fn counter_after_all(c: KittyIndex, ops: Seq<AllocOp>) -> KittyIndex
    decreases ops.len(),
{
    if ops.len() == 0 {
        c
    } else {
        counter_after_all(counter_after(c, ops[0]), ops.drop_first())
    }
}

/// How many of the calls succeed, applied in order from Counter `c`.
pub open spec fn successful_calls(c: KittyIndex, ops: Seq<AllocOp>) -> nat
    decreases ops.len(),
{
    if ops.len() == 0 {
        0
    } else {
        (if op_succeeds(c, ops[0]) {
            1nat
        } else {
            0nat
        }) + successful_calls(counter_after(c, ops[0]), ops.drop_first())
    }
}

/// Each successful call advances the Counter by exactly one, so over any
/// sequence of calls it grows by the number of successes.
pub proof fn lemma_counter_counts_successes(c: KittyIndex, ops: Seq<AllocOp>)
    ensures
        counter_after_all(c, ops) == c + successful_calls(c, ops),
    decreases ops.len(),
{
    if ops.len() > 0 {
        lemma_counter_counts_successes(counter_after(c, ops[0]), ops.drop_first());
    }
}

/// A fresh registry's Counter is zero, so after any sequence of create and
/// breed calls it equals the number that succeeded.
pub proof fn lemma_counter_equals_total_created(ops: Seq<AllocOp>)
    ensures
        counter_after_all(0, ops) == successful_calls(0, ops),
{
    lemma_counter_counts_successes(0, ops);
}

} // verus!
