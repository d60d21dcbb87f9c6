use vstd::prelude::*;
use crate::registry::{read_result, registered, removed, replaced};

verus! {

/// Reading a key right after registering a value under it sees that value:
/// `with(k, id)` after `register(k, v)` returns `v`.
pub proof fn lemma_register_then_with<T, F: FnOnce(&T) -> T>(
    m: Map<Seq<char>, T>,
    k: Seq<char>,
    v: T,
    f: F,
    r: Option<T>,
)
    requires
        forall|x: &T, y: T| f.ensures((x,), y) ==> y == *x,
        read_result(registered(m, k, v), k, f, r),
    ensures
        r == Some(v),
{
}

/// After `remove(k)` the key holds nothing, and removing it again changes
/// nothing (so that second `remove` returns `None`).
pub proof fn lemma_remove_then_absent<T>(m: Map<Seq<char>, T>, k: Seq<char>)
    ensures
        !removed(m, k).contains_key(k),
        removed(removed(m, k), k) == removed(m, k),
{
    assert(removed(removed(m, k), k) =~= removed(m, k));
}

/// `replace` on an absent key stores nothing: the key stays absent and the
/// store is unchanged.
pub proof fn lemma_replace_absent<T>(m: Map<Seq<char>, T>, k: Seq<char>, v: T)
    requires
        !m.contains_key(k),
    ensures
        replaced(m, k, v) == m,
        !replaced(m, k, v).contains_key(k),
{
}

/// `replace(k, v2)` on a present key leaves `v2` there, so that a following
/// `with(k, id)` returns `v2`.
pub proof fn lemma_replace_then_with<T, F: FnOnce(&T) -> T>(
    m: Map<Seq<char>, T>,
    k: Seq<char>,
    v2: T,
    f: F,
    r: Option<T>,
)
    requires
        m.contains_key(k),
        forall|x: &T, y: T| f.ensures((x,), y) ==> y == *x,
        read_result(replaced(m, k, v2), k, f, r),
    ensures
        r == Some(v2),
{
}

/// Registering twice under one key keeps only the second value.
pub proof fn lemma_register_overwrites<T>(m: Map<Seq<char>, T>, k: Seq<char>, v1: T, v2: T)
    ensures
        registered(registered(m, k, v1), k, v2) == registered(m, k, v2),
{
    assert(registered(registered(m, k, v1), k, v2) =~= registered(m, k, v2));
}

} // verus!
