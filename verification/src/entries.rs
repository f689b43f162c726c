//! The algebra of insertion-ordered mapping entries: lookup, removal,
//! insertion with the move-to-back rule, duplicate collection, and the
//! precedence-preserving combination used by merge resolution.

use vstd::prelude::*;

use crate::value::ValueSpec;

verus! {

/// The entries of an insertion-ordered mapping, in iteration order.
pub type Entries = Seq<(ValueSpec, ValueSpec)>;

/// The entries of a generic insertion-ordered association sequence.
pub type PairsOf<T> = Seq<(T, T)>;

/// Whether some entry of `es` has the key `k`.
pub open spec fn contains_key<T>(es: PairsOf<T>, k: T) -> bool {
    exists|i: int| 0 <= i < es.len() && es[i].0 == k
}

/// The value of the first entry of `es` whose key is `k`, if any.
pub open spec fn lookup<T>(es: PairsOf<T>, k: T) -> Option<T>
    decreases es.len(),
{
    if es.len() == 0 {
        None
    } else if es[0].0 == k {
        Some(es[0].1)
    } else {
        lookup(es.drop_first(), k)
    }
}

/// Whether no two entries of `es` have structurally equal keys.
pub open spec fn unique_keys<T>(es: PairsOf<T>) -> bool {
    forall|i: int, j: int| 0 <= i < j < es.len() ==> es[i].0 != es[j].0
}

/// `es` without its entries keyed by `k`, other entries in unchanged order.
pub open spec fn remove_key<T>(es: PairsOf<T>, k: T) -> PairsOf<T>
    decreases es.len(),
{
    if es.len() == 0 {
        Seq::empty()
    } else if es[0].0 == k {
        remove_key(es.drop_first(), k)
    } else {
        seq![es[0]] + remove_key(es.drop_first(), k)
    }
}

/// One entry inserted as an insertion-ordered map does it: an entry with an
/// already-present key replaces the old entry and moves to the back.
pub open spec fn insert_pair<T>(es: PairsOf<T>, k: T, v: T) -> PairsOf<T> {
    remove_key(es, k).push((k, v))
}

/// A pair sequence collected into a mapping, one insertion at a time.
pub open spec fn collect_pairs<T>(es: PairsOf<T>) -> PairsOf<T>
    decreases es.len(),
{
    if es.len() == 0 {
        Seq::empty()
    } else {
        insert_pair(collect_pairs(es.drop_last()), es.last().0, es.last().1)
    }
}

/// `rhs` merged into `base`: keys already in `base` keep their entries, and
/// keys new to `base` are appended, in `rhs` iteration order, first
/// occurrence winning.
pub open spec fn combine<T>(base: PairsOf<T>, rhs: PairsOf<T>) -> PairsOf<T>
    decreases rhs.len(),
{
    if rhs.len() == 0 {
        base
    } else {
        let c = combine(base, rhs.drop_last());
        if contains_key(c, rhs.last().0) {
            c
        } else {
            c.push(rhs.last())
        }
    }
}

/// The index of the first entry of `es` whose key is `k`.
pub open spec fn key_index<T>(es: PairsOf<T>, k: T) -> int
    decreases es.len(),
{
    if es.len() == 0 {
        0
    } else if es[0].0 == k {
        0
    } else {
        1 + key_index(es.drop_first(), k)
    }
}

/// One entry inserted as an index-ordered map does it: an entry with an
/// already-present key replaces the old value but keeps the old position.
pub open spec fn insert_keep<T>(es: PairsOf<T>, k: T, v: T) -> PairsOf<T> {
    if contains_key(es, k) {
        es.update(key_index(es, k), (k, v))
    } else {
        es.push((k, v))
    }
}

/// A pair sequence collected into an index-ordered map, one insertion at a
/// time: a repeated key keeps its first position and takes its last value.
pub open spec fn collect_keep<T>(es: PairsOf<T>) -> PairsOf<T>
    decreases es.len(),
{
    if es.len() == 0 {
        Seq::empty()
    } else {
        insert_keep(collect_keep(es.drop_last()), es.last().0, es.last().1)
    }
}

/// The first index of a present key is in range and carries that key.
pub proof fn lemma_key_index<T>(es: PairsOf<T>, k: T)
    requires
        contains_key(es, k),
    ensures
        0 <= key_index(es, k) < es.len(),
        es[key_index(es, k)].0 == k,
    decreases es.len(),
{
    if es.len() == 0 {
    } else if es[0].0 == k {
    } else {
        assert(contains_key(es.drop_first(), k)) by {
            let i = choose|i: int| 0 <= i < es.len() && es[i].0 == k;
            assert(es.drop_first()[i - 1].0 == k);
        }
        lemma_key_index(es.drop_first(), k);
    }
}

/// The first occurrence of a key is its key index.
pub proof fn lemma_key_index_of<T>(es: PairsOf<T>, k: T, idx: int)
    requires
        0 <= idx < es.len(),
        es[idx].0 == k,
        forall|j: int| 0 <= j < idx ==> es[j].0 != k,
    ensures
        key_index(es, k) == idx,
    decreases es.len(),
{
    if idx == 0 {
    } else {
        assert(forall|i: int| 0 <= i < es.drop_first().len() ==> es.drop_first()[i] == es[i + 1]);
        lemma_key_index_of(es.drop_first(), k, idx - 1);
    }
}

/// Keep-position insertion keeps keys unique.
pub proof fn lemma_insert_keep_unique<T>(es: PairsOf<T>, k: T, v: T)
    requires
        unique_keys(es),
    ensures
        unique_keys(insert_keep(es, k, v)),
{
    if contains_key(es, k) {
        lemma_key_index(es, k);
        let w = es.update(key_index(es, k), (k, v));
        assert forall|i: int, j: int| 0 <= i < j < w.len() implies w[i].0 != w[j].0 by {
            assert(es[i].0 != es[j].0);
        }
    } else {
        let w = es.push((k, v));
        assert forall|i: int, j: int| 0 <= i < j < w.len() implies w[i].0 != w[j].0 by {
            if j == es.len() {
                if w[i].0 == k {
                    assert(es[i].0 == k);
                }
            }
        }
    }
}

/// Keep-position collection yields unique keys.
pub proof fn lemma_collect_keep_unique<T>(es: PairsOf<T>)
    ensures
        unique_keys(collect_keep(es)),
    decreases es.len(),
{
    if es.len() == 0 {
    } else {
        lemma_collect_keep_unique(es.drop_last());
        lemma_insert_keep_unique(collect_keep(es.drop_last()), es.last().0, es.last().1);
    }
}

/// Collecting a sequence whose keys are already unique changes nothing,
/// also under keep-position insertion.
pub proof fn lemma_collect_keep_id<T>(es: PairsOf<T>)
    requires
        unique_keys(es),
    ensures
        collect_keep(es) == es,
    decreases es.len(),
{
    if es.len() == 0 {
        assert(collect_keep(es) =~= es);
    } else {
        let front = es.drop_last();
        let p = es.last();
        assert(forall|i: int| 0 <= i < front.len() ==> front[i] == es[i]);
        lemma_collect_keep_id(front);
        assert(!contains_key(front, p.0)) by {
            if contains_key(front, p.0) {
                let i = choose|i: int| 0 <= i < front.len() && front[i].0 == p.0;
                assert(es[i].0 == es[es.len() - 1].0);
            }
        }
        assert(front.push(p) =~= es);
    }
}

/// Whether `p` is one of the entries of `es`.
pub open spec fn contains_pair<T>(es: PairsOf<T>, p: (T, T)) -> bool {
    exists|i: int| 0 <= i < es.len() && es[i] == p
}

/// Entries surviving a removal were entries before.
pub proof fn lemma_remove_key_membership<T>(es: PairsOf<T>, k: T)
    ensures
        forall|idx: int|
            0 <= idx < remove_key(es, k).len() ==> contains_pair(
                es,
                #[trigger] remove_key(es, k)[idx],
            ),
    decreases es.len(),
{
    if es.len() == 0 {
    } else {
        lemma_remove_key_membership(es.drop_first(), k);
        assert forall|idx: int| 0 <= idx < remove_key(es, k).len() implies contains_pair(
            es,
            remove_key(es, k)[idx],
        ) by {
            let p = remove_key(es, k)[idx];
            if es[0].0 == k {
                assert(remove_key(es.drop_first(), k)[idx] == p);
                assert(contains_pair(es.drop_first(), p));
                let j = choose|j: int|
                    0 <= j < es.drop_first().len() && es.drop_first()[j] == p;
                assert(es[j + 1] == p);
            } else {
                let whole = seq![es[0]] + remove_key(es.drop_first(), k);
                if idx == 0 {
                    assert(es[0] == whole[0]);
                } else {
                    assert(remove_key(es.drop_first(), k)[idx - 1] == p);
                    assert(contains_pair(es.drop_first(), p));
                    let j = choose|j: int|
                        0 <= j < es.drop_first().len() && es.drop_first()[j] == p;
                    assert(es[j + 1] == p);
                }
            }
        }
    }
}

/// Collected entries were entries of the collected sequence.
pub proof fn lemma_collect_pairs_membership<T>(es: PairsOf<T>)
    ensures
        forall|idx: int|
            0 <= idx < collect_pairs(es).len() ==> contains_pair(
                es,
                #[trigger] collect_pairs(es)[idx],
            ),
    decreases es.len(),
{
    if es.len() == 0 {
    } else {
        let front = es.drop_last();
        lemma_collect_pairs_membership(front);
        lemma_remove_key_membership(collect_pairs(front), es.last().0);
        assert forall|idx: int| 0 <= idx < collect_pairs(es).len() implies contains_pair(
            es,
            collect_pairs(es)[idx],
        ) by {
            let c = collect_pairs(es);
            let p = c[idx];
            let removed = remove_key(collect_pairs(front), es.last().0);
            if idx == c.len() - 1 {
                assert(es[es.len() - 1] == p);
            } else {
                assert(removed[idx] == p);
                let j1 = choose|j: int|
                    0 <= j < collect_pairs(front).len() && collect_pairs(front)[j] == p;
                let j2 = choose|j: int| 0 <= j < front.len() && front[j] == p;
                assert(es[j2] == p);
            }
        }
    }
}

/// Combined entries come from one of the sides.
pub proof fn lemma_combine_membership<T>(base: PairsOf<T>, rhs: PairsOf<T>)
    ensures
        forall|idx: int|
            0 <= idx < combine(base, rhs).len() ==> contains_pair(
                base,
                #[trigger] combine(base, rhs)[idx],
            ) || contains_pair(rhs, combine(base, rhs)[idx]),
    decreases rhs.len(),
{
    if rhs.len() == 0 {
    } else {
        lemma_combine_membership(base, rhs.drop_last());
        assert forall|idx: int| 0 <= idx < combine(base, rhs).len() implies contains_pair(
            base,
            combine(base, rhs)[idx],
        ) || contains_pair(rhs, combine(base, rhs)[idx]) by {
            let c = combine(base, rhs.drop_last());
            let whole = combine(base, rhs);
            let p = whole[idx];
            if idx < c.len() {
                assert(c[idx] == p);
                if contains_pair(rhs.drop_last(), p) {
                    let j = choose|j: int|
                        0 <= j < rhs.drop_last().len() && rhs.drop_last()[j] == p;
                    assert(rhs[j] == p);
                }
            } else {
                assert(p == rhs.last());
                assert(rhs[rhs.len() - 1] == p);
            }
        }
    }
}

/// A successful lookup's key/value pair is one of the entries.
pub proof fn lemma_lookup_membership<T>(es: PairsOf<T>, k: T)
    ensures
        lookup(es, k) matches Some(val) ==> contains_pair(es, (k, val)),
    decreases es.len(),
{
    if es.len() == 0 {
    } else if es[0].0 == k {
        assert(es[0] == (k, es[0].1));
    } else {
        lemma_lookup_membership(es.drop_first(), k);
        if lookup(es, k) is Some {
            let val = lookup(es, k).unwrap();
            assert(contains_pair(es.drop_first(), (k, val)));
            let j = choose|j: int|
                0 <= j < es.drop_first().len() && es.drop_first()[j] == (k, val);
            assert(es[j + 1] == (k, val));
        }
    }
}

/// A key is in a pushed sequence iff it is in the base or is the new entry's key.
pub proof fn lemma_contains_push<T>(es: PairsOf<T>, p: (T, T), k: T)
    ensures
        contains_key(es.push(p), k) == (contains_key(es, k) || p.0 == k),
{
    if contains_key(es, k) {
        let i = choose|i: int| 0 <= i < es.len() && es[i].0 == k;
        assert(es.push(p)[i].0 == k);
    }
    if p.0 == k {
        assert(es.push(p)[es.len() as int].0 == k);
    }
    if contains_key(es.push(p), k) && p.0 != k {
        let i = choose|i: int| 0 <= i < es.push(p).len() && es.push(p)[i].0 == k;
        assert(es[i].0 == k);
    }
}

/// Lookup finds an entry exactly when the key is present.
pub proof fn lemma_lookup_some_iff_contains<T>(es: PairsOf<T>, k: T)
    ensures
        (lookup(es, k) is Some) == contains_key(es, k),
    decreases es.len(),
{
    if es.len() == 0 {
    } else if es[0].0 == k {
        assert(es[0].0 == k);
    } else {
        lemma_lookup_some_iff_contains(es.drop_first(), k);
        if contains_key(es, k) {
            let i = choose|i: int| 0 <= i < es.len() && es[i].0 == k;
            assert(es.drop_first()[i - 1].0 == k);
        }
        if contains_key(es.drop_first(), k) {
            let i = choose|i: int| 0 <= i < es.drop_first().len() && es.drop_first()[i].0 == k;
            assert(es[i + 1].0 == k);
        }
    }
}

/// Lookup in a pushed sequence: entries already present win over the new one.
pub proof fn lemma_lookup_push<T>(es: PairsOf<T>, p: (T, T), k: T)
    ensures
        lookup(es.push(p), k) == if contains_key(es, k) {
            lookup(es, k)
        } else if p.0 == k {
            Some(p.1)
        } else {
            None
        },
    decreases es.len(),
{
    lemma_lookup_some_iff_contains(es, k);
    lemma_contains_push(es, p, k);
    if es.len() == 0 {
        assert(es.push(p)[0] == p);
        assert(es.push(p).len() == 1);
        assert(es.push(p).drop_first() =~= Seq::<(T, T)>::empty());
        assert(lookup(Seq::<(T, T)>::empty(), k) is None);
    } else {
        assert(es.push(p)[0] == es[0]);
        if es[0].0 == k {
        } else {
            assert(es.push(p).drop_first() =~= es.drop_first().push(p));
            lemma_lookup_push(es.drop_first(), p, k);
            lemma_lookup_some_iff_contains(es.drop_first(), k);
            if contains_key(es, k) {
                let i = choose|i: int| 0 <= i < es.len() && es[i].0 == k;
                assert(es.drop_first()[i - 1].0 == k);
            }
            if contains_key(es.drop_first(), k) {
                let i = choose|i: int| 0 <= i < es.drop_first().len() && es.drop_first()[i].0
                    == k;
                assert(es[i + 1].0 == k);
            }
        }
    }
}

/// Removing a key removes exactly the entries with that key.
pub proof fn lemma_remove_key_contains<T>(es: PairsOf<T>, k: T, k2: T)
    ensures
        contains_key(remove_key(es, k), k2) == (contains_key(es, k2) && k2 != k),
    decreases es.len(),
{
    if es.len() == 0 {
    } else {
        lemma_remove_key_contains(es.drop_first(), k, k2);
        if contains_key(es, k2) {
            let i = choose|i: int| 0 <= i < es.len() && es[i].0 == k2;
            if i > 0 {
                assert(es.drop_first()[i - 1].0 == k2);
            }
        }
        if contains_key(es.drop_first(), k2) {
            let i = choose|i: int| 0 <= i < es.drop_first().len() && es.drop_first()[i].0 == k2;
            assert(es[i + 1].0 == k2);
        }
        if es[0].0 != k {
            let rest = remove_key(es.drop_first(), k);
            assert(remove_key(es, k) == seq![es[0]] + rest);
            if es[0].0 == k2 {
                assert(remove_key(es, k)[0].0 == k2);
            }
            if contains_key(rest, k2) {
                let i = choose|i: int| 0 <= i < rest.len() && rest[i].0 == k2;
                assert(remove_key(es, k)[i + 1].0 == k2);
            }
            if contains_key(remove_key(es, k), k2) {
                let i = choose|i: int|
                    0 <= i < remove_key(es, k).len() && remove_key(es, k)[i].0 == k2;
                if i > 0 {
                    assert(rest[i - 1].0 == k2);
                }
            }
        }
    }
}

/// Removing an absent key changes nothing.
pub proof fn lemma_remove_key_absent<T>(es: PairsOf<T>, k: T)
    requires
        !contains_key(es, k),
    ensures
        remove_key(es, k) == es,
    decreases es.len(),
{
    if es.len() == 0 {
        assert(remove_key(es, k) =~= es);
    } else {
        assert(es[0].0 != k);
        assert(forall|i: int| 0 <= i < es.drop_first().len() ==> es.drop_first()[i] == es[i + 1]);
        lemma_remove_key_absent(es.drop_first(), k);
        assert(seq![es[0]] + es.drop_first() =~= es);
    }
}

/// Removal keeps keys unique and never grows the sequence.
pub proof fn lemma_remove_key_unique<T>(es: PairsOf<T>, k: T)
    requires
        unique_keys(es),
    ensures
        unique_keys(remove_key(es, k)),
    decreases es.len(),
{
    if es.len() == 0 {
    } else {
        assert(forall|i: int, j: int|
            0 <= i < j < es.drop_first().len() ==> es.drop_first()[i].0 != es.drop_first()[j].0)
            by {
            assert(forall|i: int| 0 <= i < es.drop_first().len() ==> es.drop_first()[i] == es[i
                + 1]);
        }
        lemma_remove_key_unique(es.drop_first(), k);
        if es[0].0 != k {
            let rest = remove_key(es.drop_first(), k);
            let whole = seq![es[0]] + rest;
            assert forall|i: int, j: int| 0 <= i < j < whole.len() implies whole[i].0 != whole[j].0
            by {
                if i == 0 {
                    lemma_remove_key_contains(es.drop_first(), k, whole[j].0);
                    if whole[j].0 == es[0].0 {
                        let m = choose|m: int|
                            0 <= m < es.drop_first().len() && es.drop_first()[m].0 == whole[j].0;
                        assert(es[m + 1].0 == es[0].0);
                    }
                }
            }
        }
    }
}

/// Keys remaining after a removal keep the value they had.
pub proof fn lemma_remove_key_lookup<T>(es: PairsOf<T>, k: T, k2: T)
    requires
        k2 != k,
    ensures
        lookup(remove_key(es, k), k2) == lookup(es, k2),
    decreases es.len(),
{
    if es.len() == 0 {
    } else {
        lemma_remove_key_lookup(es.drop_first(), k, k2);
        if es[0].0 == k {
        } else {
            let rest = remove_key(es.drop_first(), k);
            let whole = seq![es[0]] + rest;
            assert(whole[0] == es[0]);
            if es[0].0 == k2 {
            } else {
                assert(whole.drop_first() =~= rest);
            }
        }
    }
}

/// Under unique keys, looking an entry's key up finds that entry.
pub proof fn lemma_lookup_at<T>(es: PairsOf<T>, idx: int)
    requires
        unique_keys(es),
        0 <= idx < es.len(),
    ensures
        lookup(es, es[idx].0) == Some(es[idx].1),
    decreases es.len(),
{
    if idx == 0 {
    } else {
        assert(forall|i: int| 0 <= i < es.drop_first().len() ==> es.drop_first()[i] == es[i + 1]);
        lemma_lookup_at(es.drop_first(), idx - 1);
    }
}

/// Under unique keys, removing an entry's key removes exactly that entry.
pub proof fn lemma_remove_key_at<T>(es: PairsOf<T>, idx: int)
    requires
        unique_keys(es),
        0 <= idx < es.len(),
    ensures
        remove_key(es, es[idx].0) == es.remove(idx),
    decreases es.len(),
{
    let k = es[idx].0;
    if idx == 0 {
        assert(!contains_key(es.drop_first(), k)) by {
            if contains_key(es.drop_first(), k) {
                let i = choose|i: int|
                    0 <= i < es.drop_first().len() && es.drop_first()[i].0 == k;
                assert(es[i + 1].0 == k);
            }
        }
        lemma_remove_key_absent(es.drop_first(), k);
        assert(es.remove(0) =~= es.drop_first());
    } else {
        assert(forall|i: int| 0 <= i < es.drop_first().len() ==> es.drop_first()[i] == es[i + 1]);
        lemma_remove_key_at(es.drop_first(), idx - 1);
        assert(seq![es[0]] + es.drop_first().remove(idx - 1) =~= es.remove(idx));
    }
}

/// Insertion keeps keys unique.
pub proof fn lemma_insert_pair_unique<T>(es: PairsOf<T>, k: T, v: T)
    requires
        unique_keys(es),
    ensures
        unique_keys(insert_pair(es, k, v)),
{
    lemma_remove_key_unique(es, k);
    lemma_remove_key_contains(es, k, k);
    let r = remove_key(es, k);
    let whole = r.push((k, v));
    assert forall|i: int, j: int| 0 <= i < j < whole.len() implies whole[i].0 != whole[j].0 by {
        if j == r.len() {
            if whole[i].0 == k {
                assert(r[i].0 == k);
            }
        }
    }
}

/// Collected pair sequences have unique keys.
pub proof fn lemma_collect_pairs_unique<T>(es: PairsOf<T>)
    ensures
        unique_keys(collect_pairs(es)),
    decreases es.len(),
{
    if es.len() == 0 {
    } else {
        lemma_collect_pairs_unique(es.drop_last());
        lemma_insert_pair_unique(collect_pairs(es.drop_last()), es.last().0, es.last().1);
    }
}

/// Collecting a sequence whose keys are already unique changes nothing.
pub proof fn lemma_collect_pairs_id<T>(es: PairsOf<T>)
    requires
        unique_keys(es),
    ensures
        collect_pairs(es) == es,
    decreases es.len(),
{
    if es.len() == 0 {
        assert(collect_pairs(es) =~= es);
    } else {
        let front = es.drop_last();
        let p = es.last();
        assert(forall|i: int| 0 <= i < front.len() ==> front[i] == es[i]);
        lemma_collect_pairs_id(front);
        assert(!contains_key(front, p.0)) by {
            if contains_key(front, p.0) {
                let i = choose|i: int| 0 <= i < front.len() && front[i].0 == p.0;
                assert(es[i].0 == es[es.len() - 1].0);
            }
        }
        lemma_remove_key_absent(front, p.0);
        assert(front.push(p) =~= es);
    }
}

/// Combination keeps keys unique when the base's keys are unique.
pub proof fn lemma_combine_unique<T>(base: PairsOf<T>, rhs: PairsOf<T>)
    requires
        unique_keys(base),
    ensures
        unique_keys(combine(base, rhs)),
    decreases rhs.len(),
{
    if rhs.len() == 0 {
    } else {
        lemma_combine_unique(base, rhs.drop_last());
        let c = combine(base, rhs.drop_last());
        let p = rhs.last();
        if !contains_key(c, p.0) {
            let whole = c.push(p);
            assert forall|i: int, j: int| 0 <= i < j < whole.len() implies whole[i].0 != whole[j].0
            by {
                if j == c.len() {
                    if whole[i].0 == p.0 {
                        assert(c[i].0 == p.0);
                    }
                }
            }
        }
    }
}

/// A key is in a combination iff it is in one of the sides.
pub proof fn lemma_combine_contains<T>(base: PairsOf<T>, rhs: PairsOf<T>, k: T)
    ensures
        contains_key(combine(base, rhs), k) == (contains_key(base, k) || contains_key(rhs, k)),
    decreases rhs.len(),
{
    if rhs.len() == 0 {
    } else {
        lemma_combine_contains(base, rhs.drop_last(), k);
        let c = combine(base, rhs.drop_last());
        let p = rhs.last();
        assert(rhs.drop_last().push(p) =~= rhs);
        lemma_contains_push(rhs.drop_last(), p, k);
        if !contains_key(c, p.0) {
            lemma_contains_push(c, p, k);
        } else {
            lemma_combine_contains(base, rhs.drop_last(), p.0);
        }
    }
}

/// The precedence law of combination: a key present in the base keeps the
/// base's value; a key only in the appended side gets that side's first
/// value; no other key appears.
pub proof fn lemma_combine_lookup<T>(base: PairsOf<T>, rhs: PairsOf<T>, k: T)
    ensures
        lookup(combine(base, rhs), k) == if contains_key(base, k) {
            lookup(base, k)
        } else {
            lookup(rhs, k)
        },
    decreases rhs.len(),
{
    lemma_lookup_some_iff_contains(base, k);
    if rhs.len() == 0 {
    } else {
        lemma_combine_lookup(base, rhs.drop_last(), k);
        let c = combine(base, rhs.drop_last());
        let p = rhs.last();
        assert(rhs.drop_last().push(p) =~= rhs);
        lemma_lookup_push(rhs.drop_last(), p, k);
        lemma_contains_push(rhs.drop_last(), p, k);
        lemma_lookup_some_iff_contains(rhs.drop_last(), k);
        lemma_combine_contains(base, rhs.drop_last(), k);
        if contains_key(c, p.0) {
            lemma_combine_contains(base, rhs.drop_last(), p.0);
        } else {
            lemma_lookup_push(c, p, k);
        }
    }
}

} // verus!
