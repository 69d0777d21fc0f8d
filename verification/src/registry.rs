//! The registry: identifier allocation, ownership indexing, genealogy, and
//! the three atomic operations `create`, `transfer` and `breed`.

use std::collections::HashMap;
use vstd::prelude::*;

use crate::kitty::combine_byte;
use crate::kitty::combined_genome;
use crate::kitty::Kitty;
use crate::laws::counter_after;
use crate::laws::op_succeeds;
use crate::laws::AllocOp;
use crate::lists::lemma_occurrences_positive_iff_contains;
use crate::lists::lemma_occurrences_push;
use crate::lists::lemma_remove_first_at;
use crate::lists::lemma_remove_first_contains;
use crate::lists::lemma_remove_first_effect;
use crate::lists::occurrences;
use crate::lists::remove_first;

verus! {

broadcast use vstd::std_specs::hash::group_hash_axioms;

/// An account, as resolved by the host.
pub type AccountId = u64;

/// A kitty identifier. Identifiers are allocated densely from zero.
pub type KittyIndex = u32;

/// Why an operation was refused. Every failure is detected before any
/// mutation, so a refused operation leaves the registry unchanged.
#[derive(Clone, Copy, Debug, PartialEq, Eq, Structural)]
pub enum Error {
    /// The identifier space is exhausted.
    CounterOverflow,
    /// The caller does not own the kitty it tried to transfer.
    NotOwner,
    /// A referenced kitty does not exist.
    InvalidEntityId,
    /// Breeding needs two distinct parents.
    RequireDifferentParent,
}

/// A record emitted on success, for the host to deliver.
#[derive(Clone, Copy, Debug, PartialEq, Eq, Structural)]
pub enum Event {
    /// A kitty was created or bred: (owner, new id).
    Created(AccountId, KittyIndex),
    /// A kitty changed hands: (from, to, id).
    Transferred(AccountId, AccountId, KittyIndex),
}

/// A parent pair packed into one map key. Injective, since each half keeps
/// its own 32 bits.
pub open spec fn pack_pair(p1: KittyIndex, p2: KittyIndex) -> u64 {
    ((p1 as u64) << 32u64) | (p2 as u64)
}

proof fn lemma_pack_pair_injective(a1: KittyIndex, a2: KittyIndex, b1: KittyIndex, b2: KittyIndex)
    ensures
        pack_pair(a1, a2) == pack_pair(b1, b2) ==> a1 == b1 && a2 == b2,
{
    assert(((a1 as u64) << 32u64) | (a2 as u64) == ((b1 as u64) << 32u64) | (b2 as u64)
        ==> a1 == b1 && a2 == b2) by (bit_vector);
}

/// Two states with the same core tables (everything but the event log) look
/// the same through every observer and satisfy the invariant together.
proof fn lemma_same_core(a: Module, b: Module)
    requires
        b.counter == a.counter,
        b.kitties == a.kitties,
        b.owners == a.owners,
        b.owned == a.owned,
        b.parents == a.parents,
        b.children == a.children,
    ensures
        a.wf() ==> b.wf(),
        forall|x: KittyIndex| (#[trigger] b.owner_of(x)) == a.owner_of(x),
        forall|acc: AccountId| (#[trigger] b.owned_list(acc)) == a.owned_list(acc),
        forall|x: KittyIndex| (#[trigger] b.parents_of(x)) == a.parents_of(x),
        forall|p1: KittyIndex, p2: KittyIndex| (#[trigger] b.children_list(p1, p2))
            == a.children_list(p1, p2),
        forall|x: KittyIndex| (#[trigger] b.genome_of(x)) == a.genome_of(x),
{
    assert forall|x: KittyIndex| (#[trigger] b.owner_of(x)) == a.owner_of(x) by {}
    assert forall|acc: AccountId| (#[trigger] b.owned_list(acc)) == a.owned_list(acc) by {}
    assert forall|x: KittyIndex| (#[trigger] b.parents_of(x)) == a.parents_of(x) by {}
    assert forall|p1: KittyIndex, p2: KittyIndex| (#[trigger] b.children_list(p1, p2))
        == a.children_list(p1, p2) by {}
    assert forall|x: KittyIndex| (#[trigger] b.genome_of(x)) == a.genome_of(x) by {}
    if a.wf() {
        assert forall|acc: AccountId, x: KittyIndex|
            #[trigger] b.owned_list(acc).contains(x) implies b.owner_of(x) == Some(acc) by {
            assert(a.owned_list(acc).contains(x));
        }
        assert forall|x: KittyIndex| x < b.counter implies #[trigger] b.owned_list(
            b.owner_at(x),
        ).contains(x) by {
            assert(a.owned_list(a.owner_at(x)).contains(x));
        }
        assert forall|acc: AccountId, x: KittyIndex| #[trigger] occurrences(
            b.owned_list(acc),
            x,
        ) <= 1 by {
            assert(occurrences(a.owned_list(acc), x) <= 1);
        }
        assert forall|p1: KittyIndex, p2: KittyIndex, x: KittyIndex| #[trigger] b.children_list(
            p1,
            p2,
        ).contains(x) implies b.parents_of(x) == Some((p1, p2)) by {
            assert(a.children_list(p1, p2).contains(x));
        }
    }
}

/// Granting a freshly allocated id to an account preserves the invariant:
/// the id was in nobody's list, so appending it to the new owner's list and
/// recording the owner keeps the index consistent.
proof fn lemma_wf_assign_fresh(pre: Module, post: Module, caller: AccountId, id: KittyIndex)
    requires
        pre.wf(),
        id == pre.counter,
        post.counter == pre.counter + 1,
        post.kitties@.len() == pre.kitties@.len() + 1,
        post.owners@ == pre.owners@.insert(id, caller),
        post.owned_list(caller) == pre.owned_list(caller).push(id),
        forall|a: AccountId| a != caller ==> post.owned_list(a) == pre.owned_list(a),
        post.parents@ == pre.parents@,
        post.children@ == pre.children@,
    ensures
        post.wf(),
        !pre.owned_list(caller).contains(id),
        occurrences(post.owned_list(caller), id) == 1,
        post.owner_of(id) == Some(caller),
        pre.owner_of(id) is None,
        pre.parents_of(id) is None,
        forall|x: KittyIndex| x != id ==> (#[trigger] post.owner_of(x)) == pre.owner_of(x),
        forall|x: KittyIndex| (#[trigger] post.parents_of(x)) == pre.parents_of(x),
        forall|p1: KittyIndex, p2: KittyIndex| (#[trigger] post.children_list(p1, p2))
            == pre.children_list(p1, p2),
{
    // The fresh id has no owner yet, so it stands in no account's list.
    assert(!pre.owners@.contains_key(id));
    assert forall|a: AccountId| !(#[trigger] pre.owned_list(a).contains(id)) by {
        if pre.owned_list(a).contains(id) {
            assert(pre.owner_of(id) == Some(a));
        }
    }
    lemma_occurrences_push(pre.owned_list(caller), id, id);
    lemma_occurrences_positive_iff_contains(pre.owned_list(caller), id);
    lemma_occurrences_positive_iff_contains(post.owned_list(caller), id);

    assert forall|x: KittyIndex| (#[trigger] post.parents_of(x)) == pre.parents_of(x) by {}
    assert forall|p1: KittyIndex, p2: KittyIndex| (#[trigger] post.children_list(p1, p2))
        == pre.children_list(p1, p2) by {}

    assert forall|x: KittyIndex| post.owners@.contains_key(x) <==> x < post.counter by {
        assert(pre.owners@.contains_key(x) <==> x < pre.counter);
    }
    assert forall|a: AccountId, x: KittyIndex|
        #[trigger] post.owned_list(a).contains(x) implies post.owner_of(x) == Some(a) by {
        if a == caller {
            lemma_occurrences_push(pre.owned_list(caller), id, x);
            lemma_occurrences_positive_iff_contains(pre.owned_list(caller), x);
            lemma_occurrences_positive_iff_contains(post.owned_list(caller), x);
            if x != id {
                assert(pre.owned_list(caller).contains(x));
                assert(pre.owner_of(x) == Some(caller));
            }
        } else {
            assert(post.owned_list(a) == pre.owned_list(a));
            assert(pre.owned_list(a).contains(x));
            assert(pre.owner_of(x) == Some(a));
        }
    }
    assert forall|x: KittyIndex| x < post.counter implies #[trigger] post.owned_list(
        post.owner_at(x),
    ).contains(x) by {
        if x < pre.counter {
            assert(pre.owned_list(pre.owner_at(x)).contains(x));
            assert(post.owner_at(x) == pre.owner_at(x));
            if pre.owner_at(x) == caller {
                lemma_occurrences_push(pre.owned_list(caller), id, x);
                lemma_occurrences_positive_iff_contains(pre.owned_list(caller), x);
                lemma_occurrences_positive_iff_contains(post.owned_list(caller), x);
            } else {
                assert(post.owned_list(pre.owner_at(x)) == pre.owned_list(pre.owner_at(x)));
            }
        } else {
            assert(x == id);
            assert(post.owner_at(id) == caller);
            assert(post.owned_list(caller)[post.owned_list(caller).len() - 1] == id);
        }
    }
    assert forall|a: AccountId, x: KittyIndex| #[trigger] occurrences(post.owned_list(a), x)
        <= 1 by {
        if a == caller {
            lemma_occurrences_push(pre.owned_list(caller), id, x);
            assert(occurrences(pre.owned_list(caller), x) <= 1);
            if x == id {
                lemma_occurrences_positive_iff_contains(pre.owned_list(caller), id);
            }
        } else {
            assert(post.owned_list(a) == pre.owned_list(a));
            assert(occurrences(pre.owned_list(a), x) <= 1);
        }
    }
    assert forall|p1: KittyIndex, p2: KittyIndex, x: KittyIndex| #[trigger] post.children_list(
        p1,
        p2,
    ).contains(x) implies post.parents_of(x) == Some((p1, p2)) by {
        assert(post.children_list(p1, p2) == pre.children_list(p1, p2));
        assert(pre.children_list(p1, p2).contains(x));
    }
}

/// Handing an owned id from `caller` to `to` preserves the invariant: the id
/// leaves the old owner's list (its single occurrence) and is appended to
/// the new owner's list once.
proof fn lemma_wf_transfer(
    pre: Module,
    post: Module,
    caller: AccountId,
    to: AccountId,
    id: KittyIndex,
)
    requires
        pre.wf(),
        pre.owner_of(id) == Some(caller),
        post.counter == pre.counter,
        post.kitties == pre.kitties,
        post.owners@ == pre.owners@.insert(id, to),
        post.parents@ == pre.parents@,
        post.children@ == pre.children@,
        to != caller ==> post.owned_list(caller) == remove_first(pre.owned_list(caller), id),
        post.owned_list(to) == (if to == caller {
            remove_first(pre.owned_list(caller), id).push(id)
        } else {
            pre.owned_list(to).push(id)
        }),
        forall|a: AccountId| a != caller && a != to ==> post.owned_list(a) == pre.owned_list(a),
    ensures
        post.wf(),
        post.owner_of(id) == Some(to),
        forall|x: KittyIndex| x != id ==> (#[trigger] post.owner_of(x)) == pre.owner_of(x),
        to != caller ==> !post.owned_list(caller).contains(id),
        occurrences(post.owned_list(to), id) == 1,
        forall|x: KittyIndex| (#[trigger] post.parents_of(x)) == pre.parents_of(x),
        forall|p1: KittyIndex, p2: KittyIndex| (#[trigger] post.children_list(p1, p2))
            == pre.children_list(p1, p2),
{
    let lc = pre.owned_list(caller);
    // The id stands exactly once in the old owner's list and in no other.
    assert(pre.owned_list(pre.owner_at(id)).contains(id));
    assert(lc.contains(id));
    lemma_occurrences_positive_iff_contains(lc, id);
    assert(occurrences(lc, id) == 1);
    lemma_remove_first_effect(lc, id);
    lemma_remove_first_contains(lc, id);
    lemma_occurrences_push(remove_first(lc, id), id, id);
    lemma_occurrences_positive_iff_contains(remove_first(lc, id).push(id), id);
    if to != caller {
        assert forall|x: KittyIndex| !(#[trigger] pre.owned_list(to).contains(x)) || x != id by {
            if pre.owned_list(to).contains(id) {
                assert(pre.owner_of(id) == Some(to));
            }
        }
        lemma_occurrences_positive_iff_contains(pre.owned_list(to), id);
        lemma_occurrences_push(pre.owned_list(to), id, id);
        lemma_occurrences_positive_iff_contains(pre.owned_list(to).push(id), id);
    }

    assert forall|x: KittyIndex| (#[trigger] post.parents_of(x)) == pre.parents_of(x) by {}
    assert forall|p1: KittyIndex, p2: KittyIndex| (#[trigger] post.children_list(p1, p2))
        == pre.children_list(p1, p2) by {}

    assert forall|x: KittyIndex| post.owners@.contains_key(x) <==> x < post.counter by {
        assert(pre.owners@.contains_key(x) <==> x < pre.counter);
    }
    assert forall|a: AccountId, x: KittyIndex|
        #[trigger] post.owned_list(a).contains(x) implies post.owner_of(x) == Some(a) by {
        if a == to {
            if to == caller {
                lemma_occurrences_push(remove_first(lc, id), id, x);
                lemma_occurrences_positive_iff_contains(remove_first(lc, id), x);
                lemma_occurrences_positive_iff_contains(post.owned_list(to), x);
                if x != id {
                    assert(remove_first(lc, id).contains(x));
                    assert(lc.contains(x));
                    assert(pre.owner_of(x) == Some(caller));
                }
            } else {
                lemma_occurrences_push(pre.owned_list(to), id, x);
                lemma_occurrences_positive_iff_contains(pre.owned_list(to), x);
                lemma_occurrences_positive_iff_contains(post.owned_list(to), x);
                if x != id {
                    assert(pre.owned_list(to).contains(x));
                    assert(pre.owner_of(x) == Some(to));
                }
            }
        } else if a == caller {
            assert(post.owned_list(caller) == remove_first(lc, id));
            assert(remove_first(lc, id).contains(x));
            assert(lc.contains(x));
            assert(pre.owner_of(x) == Some(caller));
            assert(x != id);
        } else {
            assert(post.owned_list(a) == pre.owned_list(a));
            assert(pre.owned_list(a).contains(x));
            assert(pre.owner_of(x) == Some(a));
            if x == id {
                assert(pre.owner_of(id) == Some(a));
            }
        }
    }
    assert forall|x: KittyIndex| x < post.counter implies #[trigger] post.owned_list(
        post.owner_at(x),
    ).contains(x) by {
        if x == id {
            assert(post.owner_at(id) == to);
        } else {
            assert(pre.owned_list(pre.owner_at(x)).contains(x));
            assert(post.owner_at(x) == pre.owner_at(x));
            let o = pre.owner_at(x);
            if o == caller && to != caller {
                assert(remove_first(lc, id).contains(x));
            } else if o == to && to != caller {
                lemma_occurrences_push(pre.owned_list(to), id, x);
                lemma_occurrences_positive_iff_contains(pre.owned_list(to), x);
                lemma_occurrences_positive_iff_contains(post.owned_list(to), x);
            } else if o == caller && to == caller {
                assert(remove_first(lc, id).contains(x));
                lemma_occurrences_push(remove_first(lc, id), id, x);
                lemma_occurrences_positive_iff_contains(remove_first(lc, id), x);
                lemma_occurrences_positive_iff_contains(post.owned_list(caller), x);
            } else {
                assert(post.owned_list(o) == pre.owned_list(o));
            }
        }
    }
    assert forall|a: AccountId, x: KittyIndex| #[trigger] occurrences(post.owned_list(a), x)
        <= 1 by {
        assert(occurrences(pre.owned_list(a), x) <= 1);
        assert(occurrences(lc, x) <= 1);
        if a == to {
            if to == caller {
                lemma_occurrences_push(remove_first(lc, id), id, x);
            } else {
                lemma_occurrences_push(pre.owned_list(to), id, x);
                assert(occurrences(pre.owned_list(to), x) <= 1);
                if x == id {
                    lemma_occurrences_positive_iff_contains(pre.owned_list(to), id);
                    if pre.owned_list(to).contains(id) {
                        assert(pre.owner_of(id) == Some(to));
                    }
                }
            }
        } else if a == caller {
            assert(post.owned_list(caller) == remove_first(lc, id));
        } else {
            assert(post.owned_list(a) == pre.owned_list(a));
        }
    }
    assert forall|p1: KittyIndex, p2: KittyIndex, x: KittyIndex| #[trigger] post.children_list(
        p1,
        p2,
    ).contains(x) implies post.parents_of(x) == Some((p1, p2)) by {
        assert(post.children_list(p1, p2) == pre.children_list(p1, p2));
        assert(pre.children_list(p1, p2).contains(x));
    }
}

/// Recording a bred kitty's genealogy preserves the invariant: the child is
/// an existing id with no parents yet, it is appended to its own pair's
/// offspring list only, and no ownership table moves.
proof fn lemma_wf_record_genealogy(
    pre: Module,
    post: Module,
    p1: KittyIndex,
    p2: KittyIndex,
    child: KittyIndex,
)
    requires
        pre.wf(),
        child < pre.counter,
        pre.parents_of(child) is None,
        post.counter == pre.counter,
        post.kitties == pre.kitties,
        post.owners == pre.owners,
        post.owned == pre.owned,
        post.parents@ == pre.parents@.insert(child, (p1, p2)),
        post.children_list(p1, p2) == pre.children_list(p1, p2).push(child),
        forall|q1: KittyIndex, q2: KittyIndex|
            q1 != p1 || q2 != p2 ==> post.children_list(q1, q2) == pre.children_list(q1, q2),
    ensures
        post.wf(),
        post.parents_of(child) == Some((p1, p2)),
        forall|x: KittyIndex| x != child ==> (#[trigger] post.parents_of(x)) == pre.parents_of(x),
        forall|x: KittyIndex| (#[trigger] post.owner_of(x)) == pre.owner_of(x),
        forall|acc: AccountId| (#[trigger] post.owned_list(acc)) == pre.owned_list(acc),
        forall|x: KittyIndex| (#[trigger] post.genome_of(x)) == pre.genome_of(x),
{
    assert forall|x: KittyIndex| (#[trigger] post.owner_of(x)) == pre.owner_of(x) by {}
    assert forall|acc: AccountId| (#[trigger] post.owned_list(acc)) == pre.owned_list(acc) by {}
    assert forall|x: KittyIndex| (#[trigger] post.genome_of(x)) == pre.genome_of(x) by {}
    assert forall|x: KittyIndex| post.owners@.contains_key(x) <==> x < post.counter by {
        assert(pre.owners@.contains_key(x) <==> x < pre.counter);
    }
    assert forall|acc: AccountId, x: KittyIndex|
        #[trigger] post.owned_list(acc).contains(x) implies post.owner_of(x) == Some(acc) by {
        assert(pre.owned_list(acc).contains(x));
    }
    assert forall|x: KittyIndex| x < post.counter implies #[trigger] post.owned_list(
        post.owner_at(x),
    ).contains(x) by {
        assert(pre.owned_list(pre.owner_at(x)).contains(x));
        assert(post.owned_list(post.owner_at(x)) == pre.owned_list(pre.owner_at(x)));
    }
    assert forall|acc: AccountId, x: KittyIndex| #[trigger] occurrences(post.owned_list(acc), x)
        <= 1 by {
        assert(occurrences(pre.owned_list(acc), x) <= 1);
    }
    // No offspring list holds the child yet: its parents were absent.
    assert forall|q1: KittyIndex, q2: KittyIndex|
        !(#[trigger] pre.children_list(q1, q2).contains(child)) by {
        if pre.children_list(q1, q2).contains(child) {
            assert(pre.parents_of(child) == Some((q1, q2)));
        }
    }
    assert forall|q1: KittyIndex, q2: KittyIndex, x: KittyIndex| #[trigger] post.children_list(
        q1,
        q2,
    ).contains(x) implies post.parents_of(x) == Some((q1, q2)) by {
        if q1 == p1 && q2 == p2 {
            lemma_occurrences_push(pre.children_list(p1, p2), child, x);
            lemma_occurrences_positive_iff_contains(pre.children_list(p1, p2), x);
            lemma_occurrences_positive_iff_contains(post.children_list(p1, p2), x);
            if x != child {
                assert(pre.children_list(p1, p2).contains(x));
                assert(pre.parents_of(x) == Some((p1, p2)));
            }
        } else {
            assert(post.children_list(q1, q2) == pre.children_list(q1, q2));
            assert(pre.children_list(q1, q2).contains(x));
            assert(pre.parents_of(x) == Some((q1, q2)));
            assert(x != child);
        }
    }
    assert forall|x: KittyIndex| #[trigger] post.parents@.contains_key(x) implies x
        < post.counter by {
        if x != child {
            assert(pre.parents@.contains_key(x));
        }
    }
}

/// The whole registry state. The host applies operations one at a time.
pub struct Module {
    /// The next unallocated id; also the number of kitties ever created.
    pub counter: KittyIndex,
    /// The genome store, indexed by id: ids are allocated densely, so the
    /// kitty with id `i` sits at position `i`.
    pub kitties: Vec<Kitty>,
    /// The owner of each existing id.
    pub owners: HashMap<KittyIndex, AccountId>,
    /// For each account, the ids it holds, in the order they were received.
    pub owned: HashMap<AccountId, Vec<KittyIndex>>,
    /// The parent pair of each bred id; created ids have no entry.
    pub parents: HashMap<KittyIndex, (KittyIndex, KittyIndex)>,
    /// The offspring of each parent pair, keyed by the packed pair, in breed
    /// order.
    pub children: HashMap<u64, Vec<KittyIndex>>,
    /// The append-only log of emitted events.
    pub events: Vec<Event>,
}

impl Module {
    /// The owner of `id`, absent when `id` was never allocated.
    pub open spec fn owner_of(self, id: KittyIndex) -> Option<AccountId> {
        if self.owners@.contains_key(id) {
            Some(self.owners@[id])
        } else {
            None
        }
    }

    /// The ids held by `a`, in order; empty for an account never seen.
    pub open spec fn owned_list(self, a: AccountId) -> Seq<KittyIndex> {
        if self.owned@.contains_key(a) {
            self.owned@[a]@
        } else {
            Seq::empty()
        }
    }

    /// The parent pair of `id`, absent unless `id` was bred.
    pub open spec fn parents_of(self, id: KittyIndex) -> Option<(KittyIndex, KittyIndex)> {
        if self.parents@.contains_key(id) {
            Some(self.parents@[id])
        } else {
            None
        }
    }

    /// The offspring of the pair `(p1, p2)`, in breed order.
    pub open spec fn children_list(self, p1: KittyIndex, p2: KittyIndex) -> Seq<KittyIndex> {
        if self.children@.contains_key(pack_pair(p1, p2)) {
            self.children@[pack_pair(p1, p2)]@
        } else {
            Seq::empty()
        }
    }

    /// Whether `id` names an existing kitty.
    pub open spec fn has_kitty(self, id: KittyIndex) -> bool {
        id < self.counter
    }

    /// The genome of `id` (meaningful when the kitty exists).
    pub open spec fn genome_of(self, id: KittyIndex) -> Seq<u8> {
        self.kitties@[id as int].genome()
    }

    /// The stored owner of an existing id.
    pub open spec fn owner_at(self, id: KittyIndex) -> AccountId {
        self.owners@[id]
    }

    /// The registry's invariant.
    ///
    /// - the genome store holds exactly the allocated ids, in order;
    /// - an id has an owner exactly when it exists;
    /// - an id stands in an account's list exactly when that account owns it,
    ///   and never more than once;
    /// - an id stands in a pair's offspring list exactly as a bred kitty of
    ///   that pair, and only existing ids have parents.
    pub open spec fn wf(self) -> bool {
        &&& self.kitties@.len() == self.counter as nat
        &&& forall|x: KittyIndex| self.owners@.contains_key(x) <==> x < self.counter
        &&& forall|a: AccountId, x: KittyIndex|
            #[trigger] self.owned_list(a).contains(x) ==> self.owner_of(x) == Some(a)
        &&& forall|x: KittyIndex|
            x < self.counter ==> #[trigger] self.owned_list(self.owner_at(x)).contains(x)
        &&& forall|a: AccountId, x: KittyIndex| #[trigger] occurrences(self.owned_list(a), x) <= 1
        &&& forall|p1: KittyIndex, p2: KittyIndex, x: KittyIndex|
            #[trigger] self.children_list(p1, p2).contains(x) ==> self.parents_of(x) == Some(
                (p1, p2),
            )
        &&& forall|x: KittyIndex| #[trigger] self.parents@.contains_key(x) ==> x < self.counter
    }

    /// An empty registry: no kitties, no owners, counter at zero.
    pub fn new() -> (m: Module)
        ensures
            m.wf(),
            m.counter == 0,
            m.kitties@ == Seq::<Kitty>::empty(),
            m.events@ == Seq::<Event>::empty(),
            forall|a: AccountId| m.owned_list(a) == Seq::<KittyIndex>::empty(),
            forall|x: KittyIndex| m.owner_of(x) is None,
            forall|x: KittyIndex| m.parents_of(x) is None,
            forall|p1: KittyIndex, p2: KittyIndex| m.children_list(p1, p2) == Seq::<
                KittyIndex,
            >::empty(),
    {
        let m = Module {
            counter: 0,
            kitties: Vec::new(),
            owners: HashMap::new(),
            owned: HashMap::new(),
            parents: HashMap::new(),
            children: HashMap::new(),
            events: Vec::new(),
        };
        proof {
            assert forall|a: AccountId, x: KittyIndex| occurrences(m.owned_list(a), x) <= 1 by {
                lemma_occurrences_positive_iff_contains(m.owned_list(a), x);
            }
        }
        m
    }

    /// The id the next created or bred kitty will get: the Counter's value,
    /// refused once the identifier space is exhausted. Reads only.
    pub fn next_kitty_id(&self) -> (r: Result<KittyIndex, Error>)
        ensures
            match r {
                Ok(id) => self.counter < KittyIndex::MAX && id == self.counter,
                Err(e) => e == Error::CounterOverflow && self.counter == KittyIndex::MAX,
            },
    {
        if self.counter == KittyIndex::MAX {
            Err(Error::CounterOverflow)
        } else {
            Ok(self.counter)
        }
    }

    /// One byte of a bred genome: bits come from `dna1` where the selector
    /// bit is set, and from `dna2` where it is clear.
    pub fn combine_dna(dna1: u8, dna2: u8, selector: u8) -> (r: u8)
        ensures
            r == combine_byte(dna1, dna2, selector),
    {
        (selector & dna1) | (!selector & dna2)
    }

    /// Persist a fresh kitty record and advance the Counter by one.
    pub fn create_kitty(&mut self, _owner: AccountId, kitty_id: KittyIndex, kitty: Kitty)
        requires
            kitty_id == old(self).counter,
            old(self).counter < KittyIndex::MAX,
        ensures
            final(self).counter == old(self).counter + 1,
            final(self).kitties@ == old(self).kitties@.push(kitty),
            final(self).owners == old(self).owners,
            final(self).owned == old(self).owned,
            final(self).parents == old(self).parents,
            final(self).children == old(self).children,
            final(self).events == old(self).events,
    {
        self.kitties.push(kitty);
        self.counter = kitty_id + 1;
    }

    /// Record `owner` as the owner of `kitty_id` and append the id to the
    /// owner's list. The mutated list is written back to the store.
    pub fn insert_kitty(&mut self, owner: AccountId, kitty_id: KittyIndex)
        ensures
            final(self).owners@ == old(self).owners@.insert(kitty_id, owner),
            final(self).owned_list(owner) == old(self).owned_list(owner).push(kitty_id),
            forall|a: AccountId|
                a != owner ==> final(self).owned_list(a) == old(self).owned_list(a),
            final(self).counter == old(self).counter,
            final(self).kitties == old(self).kitties,
            final(self).parents == old(self).parents,
            final(self).children == old(self).children,
            final(self).events == old(self).events,
    {
        self.owners.insert(kitty_id, owner);
        let mut list = match self.owned.remove(&owner) {
            Some(l) => l,
            None => Vec::new(),
        };
        list.push(kitty_id);
        self.owned.insert(owner, list);
    }

    /// Withdraw `kitty_id` from `owner`'s list: the first occurrence is
    /// removed and the shortened list is written back to the store. When the
    /// id is not listed the store is left as it was found.
    pub fn remove_kitty(&mut self, owner: AccountId, kitty_id: KittyIndex)
        ensures
            final(self).owned_list(owner) == remove_first(old(self).owned_list(owner), kitty_id),
            forall|a: AccountId|
                a != owner ==> final(self).owned_list(a) == old(self).owned_list(a),
            final(self).counter == old(self).counter,
            final(self).kitties == old(self).kitties,
            final(self).owners == old(self).owners,
            final(self).parents == old(self).parents,
            final(self).children == old(self).children,
            final(self).events == old(self).events,
    {
        let ghost orig = old(self).owned_list(owner);
        let mut list = match self.owned.remove(&owner) {
            Some(l) => l,
            None => Vec::new(),
        };
        let len = list.len();
        let mut idx: usize = len;
        let mut i: usize = 0;
        while i < len
            invariant
                i <= len,
                len == list@.len(),
                list@ == orig,
                idx <= len,
                idx == len ==> forall|j: int| 0 <= j < i ==> orig[j] != kitty_id,
                idx < len ==> orig[idx as int] == kitty_id && (forall|j: int|
                    0 <= j < idx ==> orig[j] != kitty_id),
            decreases len - i,
        {
            if idx == len && list[i] == kitty_id {
                idx = i;
            }
            i += 1;
        }
        if idx < len {
            list.remove(idx);
            proof {
                lemma_remove_first_at(orig, kitty_id, idx as int);
            }
        } else {
            proof {
                lemma_occurrences_positive_iff_contains(orig, kitty_id);
                if orig.contains(kitty_id) {
                    let j = choose|j: int| 0 <= j < orig.len() && orig[j] == kitty_id;
                    assert(orig[j] != kitty_id);
                }
                lemma_remove_first_effect(orig, kitty_id);
            }
        }
        self.owned.insert(owner, list);
    }

    /// Create a kitty for `caller` out of host-supplied random bytes.
    ///
    /// The new kitty gets the next free id — one the registry has never held
    /// — and `caller` becomes its owner, with the id appended to its list
    /// exactly once. The call fails only with `CounterOverflow`, when the
    /// identifier space is exhausted, and then changes nothing.
    pub fn create(&mut self, caller: AccountId, dna: [u8; 16]) -> (r: Result<KittyIndex, Error>)
        requires
            old(self).wf(),
        ensures
            final(self).wf(),
            r is Ok <==> old(self).counter < KittyIndex::MAX,
            r is Ok <==> op_succeeds(old(self).counter, AllocOp::Create),
            final(self).counter == counter_after(old(self).counter, AllocOp::Create),
            match r {
                Ok(id) => {
                    &&& id == old(self).counter
                    &&& !old(self).has_kitty(id)
                    &&& old(self).owner_of(id) is None
                    &&& final(self).counter == old(self).counter + 1
                    &&& final(self).kitties@ == old(self).kitties@.push(Kitty(dna))
                    &&& final(self).owner_of(id) == Some(caller)
                    &&& forall|x: KittyIndex|
                        x != id ==> (#[trigger] final(self).owner_of(x)) == old(self).owner_of(x)
                    &&& final(self).owned_list(caller) == old(self).owned_list(caller).push(id)
                    &&& !old(self).owned_list(caller).contains(id)
                    &&& occurrences(final(self).owned_list(caller), id) == 1
                    &&& forall|a: AccountId|
                        a != caller ==> (#[trigger] final(self).owned_list(a)) == old(
                            self,
                        ).owned_list(a)
                    &&& final(self).parents_of(id) is None
                    &&& forall|x: KittyIndex| (#[trigger] final(self).parents_of(x)) == old(
                        self,
                    ).parents_of(x)
                    &&& forall|p1: KittyIndex, p2: KittyIndex|
                        (#[trigger] final(self).children_list(p1, p2)) == old(self).children_list(
                            p1,
                            p2,
                        )
                    &&& final(self).events@ == old(self).events@.push(Event::Created(caller, id))
                },
                Err(e) => {
                    &&& e == Error::CounterOverflow
                    &&& old(self).counter == KittyIndex::MAX
                    &&& *final(self) == *old(self)
                },
            },
    {
        let kitty_id = match self.next_kitty_id() {
            Ok(id) => id,
            Err(e) => {
                return Err(e);
            },
        };
        let ghost pre = *self;
        self.create_kitty(caller, kitty_id, Kitty(dna));
        self.insert_kitty(caller, kitty_id);
        proof {
            lemma_wf_assign_fresh(pre, *self, caller, kitty_id);
        }
        let ghost mid = *self;
        self.events.push(Event::Created(caller, kitty_id));
        proof {
            lemma_same_core(mid, *self);
        }
        Ok(kitty_id)
    }

    /// Hand `kitty_id` from `caller` to `to`.
    ///
    /// Only the current owner may transfer, else the call fails with
    /// `NotOwner` and changes nothing. On success the id leaves the caller's
    /// list and is appended to `to`'s list, where it then stands exactly
    /// once. Transferring to oneself is permitted: the id then moves to the
    /// end of the caller's own list.
    pub fn transfer(&mut self, caller: AccountId, to: AccountId, kitty_id: KittyIndex) -> (r:
        Result<(), Error>)
        requires
            old(self).wf(),
        ensures
            final(self).wf(),
            r is Ok <==> old(self).owner_of(kitty_id) == Some(caller),
            match r {
                Ok(_) => {
                    &&& final(self).owner_of(kitty_id) == Some(to)
                    &&& forall|x: KittyIndex|
                        x != kitty_id ==> (#[trigger] final(self).owner_of(x)) == old(
                            self,
                        ).owner_of(x)
                    &&& to != caller ==> final(self).owned_list(caller) == remove_first(
                        old(self).owned_list(caller),
                        kitty_id,
                    )
                    &&& to != caller ==> final(self).owned_list(to) == old(self).owned_list(
                        to,
                    ).push(kitty_id)
                    &&& to == caller ==> final(self).owned_list(caller) == remove_first(
                        old(self).owned_list(caller),
                        kitty_id,
                    ).push(kitty_id)
                    &&& forall|a: AccountId|
                        a != caller && a != to ==> (#[trigger] final(self).owned_list(a)) == old(
                            self,
                        ).owned_list(a)
                    &&& to != caller ==> !final(self).owned_list(caller).contains(kitty_id)
                    &&& occurrences(final(self).owned_list(to), kitty_id) == 1
                    &&& final(self).counter == old(self).counter
                    &&& final(self).kitties == old(self).kitties
                    &&& forall|x: KittyIndex| (#[trigger] final(self).parents_of(x)) == old(
                        self,
                    ).parents_of(x)
                    &&& forall|p1: KittyIndex, p2: KittyIndex|
                        (#[trigger] final(self).children_list(p1, p2)) == old(self).children_list(
                            p1,
                            p2,
                        )
                    &&& final(self).events@ == old(self).events@.push(
                        Event::Transferred(caller, to, kitty_id),
                    )
                },
                Err(e) => {
                    &&& e == Error::NotOwner
                    &&& old(self).owner_of(kitty_id) != Some(caller)
                    &&& *final(self) == *old(self)
                },
            },
    {
        let owner_is_caller = match self.owners.get(&kitty_id) {
            Some(o) => *o == caller,
            None => false,
        };
        if !owner_is_caller {
            return Err(Error::NotOwner);
        }
        let ghost pre = *self;
        self.remove_kitty(caller, kitty_id);
        self.insert_kitty(to, kitty_id);
        proof {
            lemma_wf_transfer(pre, *self, caller, to, kitty_id);
        }
        let ghost mid = *self;
        self.events.push(Event::Transferred(caller, to, kitty_id));
        proof {
            lemma_same_core(mid, *self);
        }
        Ok(())
    }

    /// Append `child` to the offspring list of the pair — written back to the
    /// store — and record the pair as the child's parents.
    fn record_genealogy(&mut self, kitty_id_1: KittyIndex, kitty_id_2: KittyIndex, child: KittyIndex)
        ensures
            final(self).parents@ == old(self).parents@.insert(child, (kitty_id_1, kitty_id_2)),
            final(self).children_list(kitty_id_1, kitty_id_2) == old(self).children_list(
                kitty_id_1,
                kitty_id_2,
            ).push(child),
            forall|q1: KittyIndex, q2: KittyIndex|
                q1 != kitty_id_1 || q2 != kitty_id_2 ==> (#[trigger] final(self).children_list(
                    q1,
                    q2,
                )) == old(self).children_list(q1, q2),
            final(self).counter == old(self).counter,
            final(self).kitties == old(self).kitties,
            final(self).owners == old(self).owners,
            final(self).owned == old(self).owned,
            final(self).events == old(self).events,
    {
        let key = ((kitty_id_1 as u64) << 32u64) | (kitty_id_2 as u64);
        let mut clist = match self.children.remove(&key) {
            Some(l) => l,
            None => Vec::new(),
        };
        clist.push(child);
        self.children.insert(key, clist);
        self.parents.insert(child, (kitty_id_1, kitty_id_2));
        proof {
            assert forall|q1: KittyIndex, q2: KittyIndex|
                q1 != kitty_id_1 || q2 != kitty_id_2 implies #[trigger] self.children_list(q1, q2)
                == old(self).children_list(q1, q2) by {
                lemma_pack_pair_injective(q1, q2, kitty_id_1, kitty_id_2);
            }
        }
    }

    /// Breed a new kitty for `caller` out of two distinct existing parents.
    ///
    /// Any caller may breed any two existing kitties, whoever owns them. The
    /// new genome takes each bit from the first parent where the
    /// host-supplied selector bit is set, and from the second otherwise. The
    /// new kitty gets the next free id, `caller` becomes its owner, and the
    /// parent pair — in the order given — is recorded with the child
    /// appended once to its offspring list. Each failure is detected before
    /// any mutation: identical parents, then an unknown parent, then an
    /// exhausted identifier space.
    pub fn breed(
        &mut self,
        caller: AccountId,
        kitty_id_1: KittyIndex,
        kitty_id_2: KittyIndex,
        selector: [u8; 16],
    ) -> (r: Result<KittyIndex, Error>)
        requires
            old(self).wf(),
        ensures
            final(self).wf(),
            r is Ok <==> (kitty_id_1 != kitty_id_2 && old(self).has_kitty(kitty_id_1) && old(
                self,
            ).has_kitty(kitty_id_2) && old(self).counter < KittyIndex::MAX),
            r is Ok <==> op_succeeds(old(self).counter, AllocOp::Breed(kitty_id_1, kitty_id_2)),
            final(self).counter == counter_after(
                old(self).counter,
                AllocOp::Breed(kitty_id_1, kitty_id_2),
            ),
            match r {
                Ok(id) => {
                    &&& id == old(self).counter
                    &&& !old(self).has_kitty(id)
                    &&& old(self).owner_of(id) is None
                    &&& final(self).counter == old(self).counter + 1
                    &&& final(self).kitties@.len() == old(self).kitties@.len() + 1
                    &&& final(self).genome_of(id) == combined_genome(
                        old(self).genome_of(kitty_id_1),
                        old(self).genome_of(kitty_id_2),
                        selector@,
                    )
                    &&& forall|x: KittyIndex|
                        x < old(self).counter ==> (#[trigger] final(self).genome_of(x)) == old(
                            self,
                        ).genome_of(x)
                    &&& final(self).owner_of(id) == Some(caller)
                    &&& forall|x: KittyIndex|
                        x != id ==> (#[trigger] final(self).owner_of(x)) == old(self).owner_of(x)
                    &&& final(self).owned_list(caller) == old(self).owned_list(caller).push(id)
                    &&& !old(self).owned_list(caller).contains(id)
                    &&& occurrences(final(self).owned_list(caller), id) == 1
                    &&& forall|a: AccountId|
                        a != caller ==> (#[trigger] final(self).owned_list(a)) == old(
                            self,
                        ).owned_list(a)
                    &&& final(self).parents_of(id) == Some((kitty_id_1, kitty_id_2))
                    &&& forall|x: KittyIndex|
                        x != id ==> (#[trigger] final(self).parents_of(x)) == old(self).parents_of(
                            x,
                        )
                    &&& final(self).children_list(kitty_id_1, kitty_id_2) == old(
                        self,
                    ).children_list(kitty_id_1, kitty_id_2).push(id)
                    &&& forall|q1: KittyIndex, q2: KittyIndex|
                        q1 != kitty_id_1 || q2 != kitty_id_2 ==> (#[trigger] final(self)
                            .children_list(q1, q2)) == old(self).children_list(q1, q2)
                    &&& final(self).events@ == old(self).events@.push(Event::Created(caller, id))
                },
                Err(e) => {
                    &&& *final(self) == *old(self)
                    &&& e == (if kitty_id_1 == kitty_id_2 {
                        Error::RequireDifferentParent
                    } else if !old(self).has_kitty(kitty_id_1) || !old(self).has_kitty(
                        kitty_id_2,
                    ) {
                        Error::InvalidEntityId
                    } else {
                        Error::CounterOverflow
                    })
                },
            },
    {
        if kitty_id_1 == kitty_id_2 {
            return Err(Error::RequireDifferentParent);
        }
        if kitty_id_1 >= self.counter || kitty_id_2 >= self.counter {
            return Err(Error::InvalidEntityId);
        }
        let new_id = match self.next_kitty_id() {
            Ok(id) => id,
            Err(e) => {
                return Err(e);
            },
        };
        assert(self.kitties@.len() == self.counter as nat);
        let dna1 = self.kitties[kitty_id_1 as usize].0;
        let dna2 = self.kitties[kitty_id_2 as usize].0;
        let mut new_dna: [u8; 16] = [0u8; 16];
        let mut i: usize = 0;
        while i < 16
            invariant
                i <= 16,
                forall|j: int|
                    0 <= j < i ==> new_dna@[j] == combine_byte(dna1@[j], dna2@[j], selector@[j]),
            decreases 16 - i,
        {
            let b = Module::combine_dna(dna1[i], dna2[i], selector[i]);
            new_dna[i] = b;
            i += 1;
        }
        proof {
            assert(new_dna@ =~= combined_genome(dna1@, dna2@, selector@));
        }
        let ghost pre = *self;
        self.create_kitty(caller, new_id, Kitty(new_dna));
        self.insert_kitty(caller, new_id);
        proof {
            lemma_wf_assign_fresh(pre, *self, caller, new_id);
        }
        let ghost mid1 = *self;
        self.record_genealogy(kitty_id_1, kitty_id_2, new_id);
        proof {
            lemma_wf_record_genealogy(mid1, *self, kitty_id_1, kitty_id_2, new_id);
        }
        let ghost mid2 = *self;
        self.events.push(Event::Created(caller, new_id));
        proof {
            lemma_same_core(mid2, *self);
            assert(self.genome_of(new_id) == new_dna@);
        }
        Ok(new_id)
    }

    /// The stored record of `kitty_id`, absent for an unknown id.
    pub fn kitties(&self, kitty_id: KittyIndex) -> (r: Option<Kitty>)
        requires
            self.wf(),
        ensures
            self.has_kitty(kitty_id) ==> r == Some(self.kitties@[kitty_id as int]),
            !self.has_kitty(kitty_id) ==> r is None,
    {
        if (kitty_id as usize) < self.kitties.len() {
            Some(self.kitties[kitty_id as usize])
        } else {
            None
        }
    }

    /// The number of kitties ever created; also the next id to allocate.
    pub fn kitties_count(&self) -> (c: KittyIndex)
        ensures
            c == self.counter,
    {
        self.counter
    }

    /// The owner of `kitty_id`, absent for an unknown id.
    pub fn kitty_owner(&self, kitty_id: KittyIndex) -> (r: Option<AccountId>)
        ensures
            r == self.owner_of(kitty_id),
    {
        match self.owners.get(&kitty_id) {
            Some(o) => Some(*o),
            None => None,
        }
    }

    /// The ids `account` holds, in the order they were received.
    pub fn kitty_list(&self, account: AccountId) -> (l: Vec<KittyIndex>)
        ensures
            l@ == self.owned_list(account),
    {
        match self.owned.get(&account) {
            Some(v) => copy_ids(v),
            None => Vec::new(),
        }
    }

    /// The parent pair of `kitty_id`, absent unless it was bred.
    pub fn kitty_parent(&self, kitty_id: KittyIndex) -> (r: Option<(KittyIndex, KittyIndex)>)
        ensures
            r == self.parents_of(kitty_id),
    {
        match self.parents.get(&kitty_id) {
            Some(p) => Some(*p),
            None => None,
        }
    }

    /// The offspring of the pair `(kitty_id_1, kitty_id_2)`, in breed order.
    pub fn kitty_children(&self, kitty_id_1: KittyIndex, kitty_id_2: KittyIndex) -> (l: Vec<
        KittyIndex,
    >)
        ensures
            l@ == self.children_list(kitty_id_1, kitty_id_2),
    {
        let key = ((kitty_id_1 as u64) << 32u64) | (kitty_id_2 as u64);
        match self.children.get(&key) {
            Some(v) => copy_ids(v),
            None => Vec::new(),
        }
    }
}

/// A fresh vector with the same ids.
fn copy_ids(v: &Vec<KittyIndex>) -> (r: Vec<KittyIndex>)
    ensures
        r@ == v@,
{
    let mut r: Vec<KittyIndex> = Vec::new();
    let mut i: usize = 0;
    while i < v.len()
        invariant
            i <= v@.len(),
            r@ == v@.subrange(0, i as int),
        decreases v@.len() - i,
    {
        r.push(v[i]);
        i += 1;
        proof {
            assert(v@.subrange(0, i as int) =~= v@.subrange(0, i - 1).push(v@[i - 1]));
        }
    }
    proof {
        assert(v@.subrange(0, v@.len() as int) =~= v@);
    }
    r
}

} // verus!
