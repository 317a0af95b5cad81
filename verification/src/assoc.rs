//! Association lists keyed by character sequences.
//!
//! Both attribute maps and property maps are modelled as sequences of
//! key/value pairs with unique keys; lookup takes the first (and only)
//! entry with the key, and insertion overwrites in place or appends.
use vstd::prelude::*;

verus! {

/// Whether some entry carries the key.
pub open spec fn assoc_has<V>(m: Seq<(Seq<char>, V)>, k: Seq<char>) -> bool {
    exists|i: int| 0 <= i < m.len() && m[i].0 == k
}

/// Value of the first entry carrying the key, if any.
pub open spec fn assoc_get<V>(m: Seq<(Seq<char>, V)>, k: Seq<char>) -> Option<V>
    decreases m.len(),
{
    if m.len() == 0 {
        Option::None
    } else if m[0].0 == k {
        Option::Some(m[0].1)
    } else {
        assoc_get(m.drop_first(), k)
    }
}

/// Overwrite the first entry carrying the key, or append a new entry.
pub open spec fn assoc_put<V>(m: Seq<(Seq<char>, V)>, k: Seq<char>, v: V) -> Seq<(Seq<char>, V)>
    decreases m.len(),
{
    if m.len() == 0 {
        seq![(k, v)]
    } else if m[0].0 == k {
        m.update(0, (k, v))
    } else {
        seq![m[0]] + assoc_put(m.drop_first(), k, v)
    }
}

/// No key occurs twice.
pub open spec fn assoc_unique<V>(m: Seq<(Seq<char>, V)>) -> bool {
    forall|i: int, j: int| 0 <= i < j < m.len() ==> m[i].0 != m[j].0
}

/// When the first `i` entries miss the key and entry `i` carries it,
/// lookup returns entry `i`'s value.
pub proof fn lemma_assoc_get_found<V>(m: Seq<(Seq<char>, V)>, k: Seq<char>, i: int)
    requires
        0 <= i < m.len(),
        m[i].0 == k,
        forall|j: int| 0 <= j < i ==> m[j].0 != k,
    ensures
        assoc_get(m, k) == Option::Some(m[i].1),
    decreases i,
{
    if i > 0 {
        lemma_assoc_get_found(m.drop_first(), k, i - 1);
    }
}

/// When no entry carries the key, lookup returns nothing.
pub proof fn lemma_assoc_get_none<V>(m: Seq<(Seq<char>, V)>, k: Seq<char>)
    requires
        forall|j: int| 0 <= j < m.len() ==> m[j].0 != k,
    ensures
        assoc_get(m, k) == Option::None::<V>,
    decreases m.len(),
{
    if m.len() > 0 {
        lemma_assoc_get_none(m.drop_first(), k);
    }
}

/// When the first `i` entries miss the key and entry `i` carries it,
/// insertion updates entry `i` in place.
pub proof fn lemma_assoc_put_found<V>(m: Seq<(Seq<char>, V)>, k: Seq<char>, v: V, i: int)
    requires
        0 <= i < m.len(),
        m[i].0 == k,
        forall|j: int| 0 <= j < i ==> m[j].0 != k,
    ensures
        assoc_put(m, k, v) =~= m.update(i, (k, v)),
    decreases i,
{
    if i > 0 {
        lemma_assoc_put_found(m.drop_first(), k, v, i - 1);
        assert(assoc_put(m, k, v) =~= seq![m[0]] + m.drop_first().update(i - 1, (k, v)));
    }
}

/// When no entry carries the key, insertion appends.
pub proof fn lemma_assoc_put_none<V>(m: Seq<(Seq<char>, V)>, k: Seq<char>, v: V)
    requires
        forall|j: int| 0 <= j < m.len() ==> m[j].0 != k,
    ensures
        assoc_put(m, k, v) =~= m.push((k, v)),
    decreases m.len(),
{
    if m.len() > 0 {
        lemma_assoc_put_none(m.drop_first(), k, v);
        assert(assoc_put(m, k, v) =~= seq![m[0]] + m.drop_first().push((k, v)));
    }
}

/// Insertion preserves key uniqueness.
pub proof fn lemma_assoc_put_unique<V>(m: Seq<(Seq<char>, V)>, k: Seq<char>, v: V)
    requires
        assoc_unique(m),
    ensures
        assoc_unique(assoc_put(m, k, v)),
{
    if exists|i: int| 0 <= i < m.len() && m[i].0 == k {
        lemma_first_occurrence(m, k);
        let i = choose|i: int|
            0 <= i < m.len() && m[i].0 == k && (forall|j: int| 0 <= j < i ==> m[j].0 != k);
        lemma_assoc_put_found(m, k, v, i);
    } else {
        assert(forall|j: int| 0 <= j < m.len() ==> m[j].0 != k);
        lemma_assoc_put_none(m, k, v);
    }
}

/// Lookup after insertion of the same key sees the new value.
pub proof fn lemma_assoc_get_put_same<V>(m: Seq<(Seq<char>, V)>, k: Seq<char>, v: V)
    ensures
        assoc_get(assoc_put(m, k, v), k) == Option::Some(v),
    decreases m.len(),
{
    if m.len() == 0 {
        assert(assoc_put(m, k, v) =~= seq![(k, v)]);
    } else if m[0].0 == k {
        assert(assoc_put(m, k, v)[0] == (k, v));
    } else {
        lemma_assoc_get_put_same(m.drop_first(), k, v);
        assert((seq![m[0]] + assoc_put(m.drop_first(), k, v)).drop_first() =~= assoc_put(
            m.drop_first(),
            k,
            v,
        ));
    }
}

/// Lookup of a different key is unchanged by insertion.
pub proof fn lemma_assoc_get_put_other<V>(m: Seq<(Seq<char>, V)>, k: Seq<char>, v: V, k2: Seq<char>)
    requires
        k2 != k,
    ensures
        assoc_get(assoc_put(m, k, v), k2) == assoc_get(m, k2),
    decreases m.len(),
{
    if m.len() == 0 {
        assert(assoc_put(m, k, v) =~= seq![(k, v)]);
    } else if m[0].0 == k {
        assert(assoc_put(m, k, v) == m.update(0, (k, v)));
        assert(m.update(0, (k, v)).drop_first() =~= m.drop_first());
        assert(m.update(0, (k, v))[0] == (k, v));
        assert(assoc_get(m, k2) == assoc_get(m.drop_first(), k2));
        assert(assoc_get(m.update(0, (k, v)), k2) == assoc_get(m.drop_first(), k2));
    } else {
        lemma_assoc_get_put_other(m.drop_first(), k, v, k2);
        assert((seq![m[0]] + assoc_put(m.drop_first(), k, v)).drop_first() =~= assoc_put(
            m.drop_first(),
            k,
            v,
        ));
        assert((seq![m[0]] + assoc_put(m.drop_first(), k, v))[0] == m[0]);
    }
}

/// If some entry carries the key, there is a first such entry.
pub proof fn lemma_first_occurrence<V>(m: Seq<(Seq<char>, V)>, k: Seq<char>)
    requires
        exists|i: int| 0 <= i < m.len() && m[i].0 == k,
    ensures
        exists|i: int|
            0 <= i < m.len() && m[i].0 == k && (forall|j: int| 0 <= j < i ==> m[j].0 != k),
    decreases m.len(),
{
    if m.len() > 0 {
        if m[0].0 == k {
            assert(0 <= 0 < m.len() && m[0].0 == k && (forall|j: int| 0 <= j < 0 ==> m[j].0 != k));
        } else {
            let w = choose|i: int| 0 <= i < m.len() && m[i].0 == k;
            assert(m.drop_first()[w - 1].0 == k);
            lemma_first_occurrence(m.drop_first(), k);
            let i = choose|i: int|
                0 <= i < m.drop_first().len() && m.drop_first()[i].0 == k && (forall|j: int|
                    0 <= j < i ==> m.drop_first()[j].0 != k);
            assert(m[i + 1].0 == k);
            assert(forall|j: int| 0 <= j < i + 1 ==> m[j].0 != k) by {
                assert(forall|j: int| 1 <= j < i + 1 ==> m[j] == m.drop_first()[j - 1]);
            }
        }
    }
}

} // verus!
