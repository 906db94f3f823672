//! Association sequences keyed by name: the mathematical model shared by the
//! library's map-like collections.

use vstd::prelude::*;

verus! {

/// Inserting into an association sequence: replace the value in place if the
/// key is present, append otherwise.
pub open spec fn assoc_insert<V>(s: Seq<(Seq<char>, V)>, k: Seq<char>, v: V) -> Seq<
    (Seq<char>, V),
>
    decreases s.len(),
{
    if s.len() == 0 {
        seq![(k, v)]
    } else if s[0].0 == k {
        seq![(k, v)] + s.drop_first()
    } else {
        seq![s[0]] + assoc_insert(s.drop_first(), k, v)
    }
}

/// The value stored for a key, if any.
pub open spec fn assoc_get<V>(s: Seq<(Seq<char>, V)>, k: Seq<char>) -> Option<V>
    decreases s.len(),
{
    if s.len() == 0 {
        None
    } else if s[0].0 == k {
        Some(s[0].1)
    } else {
        assoc_get(s.drop_first(), k)
    }
}

pub proof fn lemma_assoc_get_at<V>(s: Seq<(Seq<char>, V)>, k: Seq<char>, i: int)
    requires
        0 <= i < s.len(),
        s[i].0 == k,
        forall|j: int| 0 <= j < i ==> s[j].0 != k,
    ensures
        assoc_get(s, k) == Some(s[i].1),
    decreases s.len(),
{
    if i > 0 {
        lemma_assoc_get_at(s.drop_first(), k, i - 1);
    }
}

pub proof fn lemma_assoc_get_absent<V>(s: Seq<(Seq<char>, V)>, k: Seq<char>)
    requires
        forall|j: int| 0 <= j < s.len() ==> s[j].0 != k,
    ensures
        assoc_get(s, k) is None,
    decreases s.len(),
{
    if s.len() > 0 {
        lemma_assoc_get_absent(s.drop_first(), k);
    }
}

pub proof fn lemma_assoc_insert_at<V>(s: Seq<(Seq<char>, V)>, k: Seq<char>, v: V, i: int)
    requires
        0 <= i < s.len(),
        s[i].0 == k,
        forall|j: int| 0 <= j < i ==> s[j].0 != k,
    ensures
        assoc_insert(s, k, v) =~= s.update(i, (k, v)),
    decreases s.len(),
{
    if i == 0 {
        assert(assoc_insert(s, k, v) == seq![(k, v)] + s.drop_first());
        assert(seq![(k, v)] + s.drop_first() =~= s.update(0, (k, v)));
    } else {
        lemma_assoc_insert_at(s.drop_first(), k, v, i - 1);
        assert(assoc_insert(s, k, v) == seq![s[0]] + assoc_insert(s.drop_first(), k, v));
        assert(seq![s[0]] + s.drop_first().update(i - 1, (k, v)) =~= s.update(i, (k, v)));
    }
}

pub proof fn lemma_assoc_insert_absent<V>(s: Seq<(Seq<char>, V)>, k: Seq<char>, v: V)
    requires
        forall|j: int| 0 <= j < s.len() ==> s[j].0 != k,
    ensures
        assoc_insert(s, k, v) =~= s.push((k, v)),
    decreases s.len(),
{
    if s.len() == 0 {
        assert(assoc_insert(s, k, v) =~= s.push((k, v)));
    } else {
        lemma_assoc_insert_absent(s.drop_first(), k, v);
        assert(seq![s[0]] + s.drop_first().push((k, v)) =~= s.push((k, v)));
    }
}

} // verus!
