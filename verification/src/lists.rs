//! Counting and first-occurrence removal on sequences of kitty identifiers.
//!
//! The ownership index keeps, for each account, an ordered list of the ids it
//! holds. These definitions say what that list looks like after an id is
//! granted or withdrawn, and carry the facts the registry's invariant needs.

use vstd::prelude::*;

verus! {

/// How many times `x` occurs in `s`.
pub open spec fn occurrences(s: Seq<u32>, x: u32) -> nat
    decreases s.len(),
{
    if s.len() == 0 {
        0
    } else {
        (if s[0] == x {
            1nat
        } else {
            0nat
        }) + occurrences(s.drop_first(), x)
    }
}

/// `s` with its first occurrence of `x` removed; `s` itself when `x` is absent.
pub open spec fn remove_first(s: Seq<u32>, x: u32) -> Seq<u32>
    decreases s.len(),
{
    if s.len() == 0 {
        s
    } else if s[0] == x {
        s.drop_first()
    } else {
        seq![s[0]] + remove_first(s.drop_first(), x)
    }
}

/// An element occurs in a sequence exactly when its count is positive.
pub proof fn lemma_occurrences_positive_iff_contains(s: Seq<u32>, x: u32)
    ensures
        occurrences(s, x) > 0 <==> s.contains(x),
    decreases s.len(),
{
    if s.len() > 0 {
        lemma_occurrences_positive_iff_contains(s.drop_first(), x);
        if s[0] == x {
            assert(s.contains(x));
        } else {
            if s.drop_first().contains(x) {
                let i = choose|i: int| 0 <= i < s.drop_first().len() && s.drop_first()[i] == x;
                assert(s[i + 1] == x);
            }
            if s.contains(x) {
                let i = choose|i: int| 0 <= i < s.len() && s[i] == x;
                assert(s.drop_first()[i - 1] == x);
            }
        }
    }
}

/// Appending an element raises its own count by one and no other count.
pub proof fn lemma_occurrences_push(s: Seq<u32>, y: u32, x: u32)
    ensures
        occurrences(s.push(y), x) == occurrences(s, x) + (if x == y {
            1nat
        } else {
            0nat
        }),
    decreases s.len(),
{
    if s.len() == 0 {
        assert(s.push(y)[0] == y);
        assert(s.push(y).drop_first() =~= Seq::<u32>::empty());
        assert(occurrences(s.push(y).drop_first(), x) == 0);
    } else {
        assert(s.push(y)[0] == s[0]);
        assert(s.push(y).drop_first() =~= s.drop_first().push(y));
        lemma_occurrences_push(s.drop_first(), y, x);
    }
}

/// What removing the first occurrence of `x` does to every count and to the
/// length.
pub proof fn lemma_remove_first_effect(s: Seq<u32>, x: u32)
    ensures
        s.contains(x) ==> occurrences(remove_first(s, x), x) == occurrences(s, x) - 1,
        !s.contains(x) ==> remove_first(s, x) == s,
        forall|y: u32| y != x ==> occurrences(remove_first(s, x), y) == occurrences(s, y),
        remove_first(s, x).len() == if s.contains(x) {
            s.len() - 1
        } else {
            s.len() as int
        },
    decreases s.len(),
{
    lemma_occurrences_positive_iff_contains(s, x);
    if s.len() > 0 {
        lemma_occurrences_positive_iff_contains(s.drop_first(), x);
        if s[0] == x {
            assert(s.contains(x));
        } else {
            lemma_remove_first_effect(s.drop_first(), x);
            let t = seq![s[0]] + remove_first(s.drop_first(), x);
            assert(t[0] == s[0]);
            assert(t.len() == 1 + remove_first(s.drop_first(), x).len());
            assert(t.drop_first() =~= remove_first(s.drop_first(), x));
            if !s.drop_first().contains(x) {
                assert(t =~= s);
            }
            assert forall|y: u32| y != x implies occurrences(remove_first(s, x), y)
                == occurrences(s, y) by {
                assert(remove_first(s, x) == t);
                assert(occurrences(t, y) == (if t[0] == y {
                    1nat
                } else {
                    0nat
                }) + occurrences(t.drop_first(), y));
                assert(occurrences(s, y) == (if s[0] == y {
                    1nat
                } else {
                    0nat
                }) + occurrences(s.drop_first(), y));
            }
            if s.contains(x) {
                let i = choose|i: int| 0 <= i < s.len() && s[i] == x;
                assert(s.drop_first()[i - 1] == x);
            }
        }
    }
}

/// Membership before and after removing the first occurrence of `x`.
pub proof fn lemma_remove_first_contains(s: Seq<u32>, x: u32)
    ensures
        forall|y: u32| #[trigger] remove_first(s, x).contains(y) ==> s.contains(y),
        forall|y: u32| y != x && s.contains(y) ==> remove_first(s, x).contains(y),
        occurrences(s, x) <= 1 ==> !remove_first(s, x).contains(x),
{
    lemma_remove_first_effect(s, x);
    lemma_occurrences_positive_iff_contains(s, x);
    assert forall|y: u32| #[trigger] remove_first(s, x).contains(y) implies s.contains(y) by {
        lemma_occurrences_positive_iff_contains(remove_first(s, x), y);
        lemma_occurrences_positive_iff_contains(s, y);
    }
    assert forall|y: u32| y != x && s.contains(y) implies remove_first(s, x).contains(y) by {
        lemma_occurrences_positive_iff_contains(remove_first(s, x), y);
        lemma_occurrences_positive_iff_contains(s, y);
    }
    if occurrences(s, x) <= 1 {
        lemma_occurrences_positive_iff_contains(remove_first(s, x), x);
    }
}

/// Removing the first occurrence of `x` at its known index `i`.
pub proof fn lemma_remove_first_at(s: Seq<u32>, x: u32, i: int)
    requires
        0 <= i < s.len(),
        s[i] == x,
        forall|j: int| 0 <= j < i ==> s[j] != x,
    ensures
        remove_first(s, x) == s.remove(i),
    decreases i,
{
    if i == 0 {
        assert(remove_first(s, x) == s.drop_first());
        assert(s.drop_first() =~= s.remove(0));
    } else {
        assert forall|j: int| 0 <= j < i - 1 implies s.drop_first()[j] != x by {
            assert(s.drop_first()[j] == s[j + 1]);
        }
        assert(s.drop_first()[i - 1] == x);
        lemma_remove_first_at(s.drop_first(), x, i - 1);
        assert(seq![s[0]] + s.drop_first().remove(i - 1) =~= s.remove(i));
    }
}

} // verus!
