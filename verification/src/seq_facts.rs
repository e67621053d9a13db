//! Small facts about duplicate-free sequences under push and swap-remove,
//! used to maintain the registry/pool/winner invariants.

use vstd::prelude::*;

verus! {

/// Pushing an element that is not yet present keeps a sequence
/// duplicate-free.
pub proof fn lemma_push_keeps_no_duplicates<A>(s: Seq<A>, x: A)
    requires
        s.no_duplicates(),
        !s.contains(x),
    ensures
        s.push(x).no_duplicates(),
{
    let s2 = s.push(x);
    assert forall|i: int, j: int|
        0 <= i < s2.len() && 0 <= j < s2.len() && i != j implies s2[i] != s2[j] by {
        if i < s.len() && j < s.len() {
        } else if i == s.len() {
            if s2[j] == x {
                assert(s[j] == x);
                assert(s.contains(x));
            }
        } else {
            if s2[i] == x {
                assert(s[i] == x);
                assert(s.contains(x));
            }
        }
    }
}

/// Membership in a pushed sequence is membership in the original sequence
/// or equality with the new element.
pub proof fn lemma_push_contains<A>(s: Seq<A>, x: A, y: A)
    ensures
        s.push(x).contains(y) <==> (s.contains(y) || y == x),
{
    let s2 = s.push(x);
    assert(s2[s.len() as int] == x);
    if s.contains(y) {
        let i = choose|i: int| 0 <= i < s.len() && s[i] == y;
        assert(s2[i] == y);
    }
    if s2.contains(y) {
        let i = choose|i: int| 0 <= i < s2.len() && s2[i] == y;
        if i < s.len() {
            assert(s[i] == y);
        }
    }
}

/// Removing the element at position `i` by overwriting it with the last
/// element and dropping the last slot (swap-remove) shortens a
/// duplicate-free sequence by one, keeps it duplicate-free, and removes
/// exactly the element that stood at position `i`.
pub proof fn lemma_swap_remove_facts<A>(s: Seq<A>, i: int)
    requires
        s.no_duplicates(),
        0 <= i < s.len(),
    ensures
        s.update(i, s.last()).drop_last().len() == s.len() - 1,
        s.update(i, s.last()).drop_last().no_duplicates(),
        forall|y: A| #![auto]
            s.update(i, s.last()).drop_last().contains(y) <==> (s.contains(y) && y != s[i]),
{
    let n = s.len() as int;
    let s2 = s.update(i, s.last()).drop_last();
    assert(s2.len() == n - 1);
    assert forall|j: int| 0 <= j < n - 1 implies s2[j] == (if j == i {
        s[n - 1]
    } else {
        s[j]
    }) by {}
    assert forall|j: int, k: int|
        0 <= j < n - 1 && 0 <= k < n - 1 && j != k implies s2[j] != s2[k] by {
        let vj: int = if j == i { n - 1 } else { j };
        let vk: int = if k == i { n - 1 } else { k };
        assert(s2[j] == s[vj]);
        assert(s2[k] == s[vk]);
        assert(vj != vk);
    }
    assert forall|y: A| s2.contains(y) implies (s.contains(y) && y != s[i]) by {
        let j = choose|j: int| 0 <= j < s2.len() && s2[j] == y;
        if j == i {
            assert(s[n - 1] == y);
            assert(i != n - 1);
        } else {
            assert(s[j] == y);
        }
    }
    assert forall|y: A| s.contains(y) && y != s[i] implies s2.contains(y) by {
        let j = choose|j: int| 0 <= j < s.len() && s[j] == y;
        if j == n - 1 {
            assert(i < n - 1);
            assert(s2[i] == y);
        } else {
            assert(s2[j] == y);
        }
    }
}

} // verus!
