//! The laws of merge resolution: identity on merge-free trees, idempotence,
//! absence of merge keys in merged output, precedence of explicit entries,
//! first-wins precedence among array merge sources, and the exact
//! characterization of rejected merge values.

use vstd::prelude::*;

use crate::entries::combine;
use crate::entries::collect_pairs;
use crate::entries::contains_key;
use crate::entries::contains_pair;
use crate::entries::lemma_collect_pairs_id;
use crate::entries::lemma_collect_pairs_membership;
use crate::entries::lemma_combine_contains;
use crate::entries::lemma_combine_lookup;
use crate::entries::lemma_combine_membership;
use crate::entries::lemma_lookup_membership;
use crate::entries::lemma_lookup_some_iff_contains;
use crate::entries::lemma_remove_key_contains;
use crate::entries::lemma_remove_key_lookup;
use crate::entries::lemma_remove_key_membership;
use crate::entries::lookup;
use crate::entries::remove_key;
use crate::entries::unique_keys;
use crate::entries::Entries;
use crate::merge::merge_collected;
use crate::merge::merge_elems;
use crate::merge::merge_entries;
use crate::merge::merge_key_spec;
use crate::merge::merge_source_of;
use crate::merge::merge_source_of_array;
use crate::merge::merge_spec;
use crate::value::ValueSpec;

verus! {

/// Whether every mapping of the tree has structurally distinct keys.
pub open spec fn wf_spec(v: ValueSpec) -> bool
    decreases v,
{
    match v {
        ValueSpec::Array(elems) => forall|i: int|
            0 <= i < elems.len() ==> wf_spec(#[trigger] elems[i]),
        ValueSpec::Hash(entries) => unique_keys(entries) && forall|i: int|
            0 <= i < entries.len() ==> wf_spec(#[trigger] entries[i].0) && wf_spec(entries[i].1),
        _ => true,
    }
}

/// Whether the tree contains no merge-key entry anywhere.
pub open spec fn no_merge_keys(v: ValueSpec) -> bool
    decreases v,
{
    match v {
        ValueSpec::Array(elems) => forall|i: int|
            0 <= i < elems.len() ==> no_merge_keys(#[trigger] elems[i]),
        ValueSpec::Hash(entries) => forall|i: int|
            0 <= i < entries.len() ==> #[trigger] entries[i].0 != merge_key_spec()
                && no_merge_keys(entries[i].0) && no_merge_keys(entries[i].1),
        _ => true,
    }
}

/// A sequence whose elements all merge to themselves merges to itself.
proof fn lemma_merge_elems_id(elems: Seq<ValueSpec>)
    requires
        forall|i: int| 0 <= i < elems.len() ==> merge_spec(#[trigger] elems[i]) == Some(elems[i]),
    ensures
        merge_elems(elems) == Some(elems),
    decreases elems.len(),
{
    if elems.len() == 0 {
        assert(elems =~= Seq::<ValueSpec>::empty());
    } else {
        assert(forall|i: int|
            0 <= i < elems.drop_last().len() ==> elems.drop_last()[i] == elems[i]);
        lemma_merge_elems_id(elems.drop_last());
        assert(elems.drop_last().push(elems.last()) =~= elems);
    }
}

/// Entries whose keys and values all merge to themselves merge to themselves.
proof fn lemma_merge_entries_id(entries: Entries)
    requires
        forall|i: int|
            0 <= i < entries.len() ==> merge_spec(#[trigger] entries[i].0) == Some(entries[i].0)
                && merge_spec(entries[i].1) == Some(entries[i].1),
    ensures
        merge_entries(entries) == Some(entries),
    decreases entries.len(),
{
    if entries.len() == 0 {
        assert(entries =~= Seq::<(ValueSpec, ValueSpec)>::empty());
    } else {
        assert(forall|i: int|
            0 <= i < entries.drop_last().len() ==> entries.drop_last()[i] == entries[i]);
        lemma_merge_entries_id(entries.drop_last());
        assert(entries.drop_last().push(entries.last()) =~= entries);
    }
}

/// Identity: a well-formed tree without merge-key entries merges to itself.
pub proof fn lemma_merge_identity(v: ValueSpec)
    requires
        wf_spec(v),
        no_merge_keys(v),
    ensures
        merge_spec(v) == Some(v),
    decreases v,
{
    match v {
        ValueSpec::Array(elems) => {
            assert forall|i: int| 0 <= i < elems.len() implies merge_spec(#[trigger] elems[i])
                == Some(elems[i]) by {
                lemma_merge_identity(elems[i]);
            }
            lemma_merge_elems_id(elems);
        },
        ValueSpec::Hash(entries) => {
            assert forall|i: int| 0 <= i < entries.len() implies merge_spec(
                #[trigger] entries[i].0,
            ) == Some(entries[i].0) && merge_spec(entries[i].1) == Some(entries[i].1) by {
                lemma_merge_identity(entries[i].0);
                lemma_merge_identity(entries[i].1);
            }
            lemma_merge_entries_id(entries);
            lemma_collect_pairs_id(entries);
            assert(!contains_key(entries, merge_key_spec())) by {
                if contains_key(entries, merge_key_spec()) {
                    let i = choose|i: int|
                        0 <= i < entries.len() && entries[i].0 == merge_key_spec();
                }
            }
        },
        _ => {
        },
    }
}

/// Inversion of a successful sequence merge: the same length, element by
/// element.
pub proof fn lemma_merge_elems_some(elems: Seq<ValueSpec>, ms: Seq<ValueSpec>)
    requires
        merge_elems(elems) == Some(ms),
    ensures
        ms.len() == elems.len(),
        forall|i: int| 0 <= i < elems.len() ==> merge_spec(#[trigger] elems[i]) == Some(ms[i]),
    decreases elems.len(),
{
    if elems.len() == 0 {
    } else {
        let front = merge_elems(elems.drop_last()).unwrap();
        lemma_merge_elems_some(elems.drop_last(), front);
        assert(forall|i: int|
            0 <= i < elems.drop_last().len() ==> elems.drop_last()[i] == elems[i]);
        assert(ms == front.push(merge_spec(elems.last()).unwrap()));
    }
}

/// Inversion of a successful entry merge: the same length, pair by pair.
pub proof fn lemma_merge_entries_some(entries: Entries, mes: Entries)
    requires
        merge_entries(entries) == Some(mes),
    ensures
        mes.len() == entries.len(),
        forall|i: int|
            0 <= i < entries.len() ==> merge_spec(#[trigger] entries[i].0) == Some(mes[i].0)
                && merge_spec(entries[i].1) == Some(mes[i].1),
    decreases entries.len(),
{
    if entries.len() == 0 {
    } else {
        let front = merge_entries(entries.drop_last()).unwrap();
        lemma_merge_entries_some(entries.drop_last(), front);
        assert(forall|i: int|
            0 <= i < entries.drop_last().len() ==> entries.drop_last()[i] == entries[i]);
        assert(mes == front.push(
            (
                merge_spec(entries.last().0).unwrap(),
                merge_spec(entries.last().1).unwrap(),
            ),
        ));
    }
}

/// A merge source drawn from merge-free mappings is itself merge-free, and
/// none of its keys is the merge key.
proof fn lemma_source_array_entries(elems: Seq<ValueSpec>, src: Entries)
    requires
        merge_source_of_array(elems) == Some(src),
        forall|j: int| 0 <= j < elems.len() ==> no_merge_keys(#[trigger] elems[j]),
    ensures
        forall|idx: int|
            0 <= idx < src.len() ==> (#[trigger] src[idx]).0 != merge_key_spec()
                && no_merge_keys(src[idx].0) && no_merge_keys(src[idx].1),
    decreases elems.len(),
{
    if elems.len() == 0 {
    } else {
        let front = merge_source_of_array(elems.drop_last()).unwrap();
        assert(forall|j: int|
            0 <= j < elems.drop_last().len() ==> elems.drop_last()[j] == elems[j]);
        lemma_source_array_entries(elems.drop_last(), front);
        let es = elems.last()->Hash_0;
        lemma_combine_membership(front, es);
        assert forall|idx: int| 0 <= idx < src.len() implies (#[trigger] src[idx]).0
            != merge_key_spec() && no_merge_keys(src[idx].0) && no_merge_keys(src[idx].1) by {
            let p = src[idx];
            assert(contains_pair(front, p) || contains_pair(es, p));
            if contains_pair(front, p) {
                let j = choose|j: int| 0 <= j < front.len() && front[j] == p;
                assert(front[j] == p);
            } else {
                let j = choose|j: int| 0 <= j < es.len() && es[j] == p;
                assert(no_merge_keys(elems.last()));
                assert(es[j].0 != merge_key_spec() && no_merge_keys(es[j].0) && no_merge_keys(
                    es[j].1,
                ));
            }
        }
    }
}

/// A merge source drawn from well-formed mappings has unique keys and
/// well-formed keys and values.
proof fn lemma_source_array_wf(elems: Seq<ValueSpec>, src: Entries)
    requires
        merge_source_of_array(elems) == Some(src),
        forall|j: int| 0 <= j < elems.len() ==> wf_spec(#[trigger] elems[j]),
    ensures
        unique_keys(src),
        forall|idx: int|
            0 <= idx < src.len() ==> wf_spec((#[trigger] src[idx]).0) && wf_spec(src[idx].1),
    decreases elems.len(),
{
    if elems.len() == 0 {
    } else {
        let front = merge_source_of_array(elems.drop_last()).unwrap();
        assert(forall|j: int|
            0 <= j < elems.drop_last().len() ==> elems.drop_last()[j] == elems[j]);
        lemma_source_array_wf(elems.drop_last(), front);
        let es = elems.last()->Hash_0;
        crate::entries::lemma_combine_unique(front, es);
        lemma_combine_membership(front, es);
        assert forall|idx: int| 0 <= idx < src.len() implies wf_spec((#[trigger] src[idx]).0)
            && wf_spec(src[idx].1) by {
            let p = src[idx];
            assert(contains_pair(front, p) || contains_pair(es, p));
            if contains_pair(front, p) {
                let j = choose|j: int| 0 <= j < front.len() && front[j] == p;
                assert(front[j] == p);
            } else {
                let j = choose|j: int| 0 <= j < es.len() && es[j] == p;
                assert(wf_spec(elems.last()));
                assert(wf_spec(es[j].0) && wf_spec(es[j].1));
            }
        }
    }
}

/// Merge keys nested anywhere: merged output contains no merge-key entry, at
/// any level, in array elements, mapping values and mapping keys alike.
pub proof fn lemma_merged_no_merge_keys(v: ValueSpec, m: ValueSpec)
    requires
        merge_spec(v) == Some(m),
    ensures
        no_merge_keys(m),
    decreases v,
{
    match v {
        ValueSpec::Array(elems) => {
            let ms = merge_elems(elems).unwrap();
            lemma_merge_elems_some(elems, ms);
            assert forall|i: int| 0 <= i < ms.len() implies no_merge_keys(#[trigger] ms[i]) by {
                lemma_merged_no_merge_keys(elems[i], ms[i]);
            }
            assert(m == ValueSpec::Array(ms));
        },
        ValueSpec::Hash(entries) => {
            let mes = merge_entries(entries).unwrap();
            lemma_merge_entries_some(entries, mes);
            assert forall|i: int| 0 <= i < mes.len() implies no_merge_keys(
                (#[trigger] mes[i]).0,
            ) && no_merge_keys(mes[i].1) by {
                lemma_merged_no_merge_keys(entries[i].0, mes[i].0);
                lemma_merged_no_merge_keys(entries[i].1, mes[i].1);
            }
            let es = collect_pairs(mes);
            lemma_collect_pairs_membership(mes);
            assert forall|i: int| 0 <= i < es.len() implies no_merge_keys((#[trigger] es[i]).0)
                && no_merge_keys(es[i].1) by {
                let j = choose|j: int| 0 <= j < mes.len() && mes[j] == es[i];
                assert(mes[j] == es[i]);
            }
            let mk = merge_key_spec();
            if contains_key(es, mk) {
                lemma_lookup_some_iff_contains(es, mk);
                let mv = lookup(es, mk).unwrap();
                let rest = remove_key(es, mk);
                let src = merge_source_of(mv).unwrap();
                lemma_lookup_membership(es, mk);
                let jv = choose|j: int| 0 <= j < es.len() && es[j] == (mk, mv);
                assert(no_merge_keys(mv));
                lemma_remove_key_membership(es, mk);
                lemma_remove_key_contains(es, mk, mk);
                // entries of the combination are clean and none is the merge key
                let combined = combine(rest, src);
                assert forall|idx: int| 0 <= idx < rest.len() implies (#[trigger] rest[idx]).0
                    != mk && no_merge_keys(rest[idx].0) && no_merge_keys(rest[idx].1) by {
                    let j = choose|j: int| 0 <= j < es.len() && es[j] == rest[idx];
                    assert(es[j] == rest[idx]);
                    if rest[idx].0 == mk {
                        assert(contains_key(rest, mk));
                    }
                }
                assert forall|idx: int| 0 <= idx < src.len() implies (#[trigger] src[idx]).0
                    != mk && no_merge_keys(src[idx].0) && no_merge_keys(src[idx].1) by {
                    match mv {
                        ValueSpec::Hash(s) => {
                            assert(s[idx].0 != mk && no_merge_keys(s[idx].0) && no_merge_keys(
                                s[idx].1,
                            ));
                        },
                        ValueSpec::Array(elems2) => {
                            lemma_source_array_entries(elems2, src);
                        },
                        _ => {
                        },
                    }
                }
                lemma_combine_membership(rest, src);
                assert(m == ValueSpec::Hash(combined));
                assert forall|i: int| 0 <= i < combined.len() implies (#[trigger] combined[i]).0
                    != mk && no_merge_keys(combined[i].0) && no_merge_keys(combined[i].1) by {
                    if contains_pair(rest, combined[i]) {
                        let j = choose|j: int| 0 <= j < rest.len() && rest[j] == combined[i];
                        assert(rest[j] == combined[i]);
                    } else {
                        let j = choose|j: int| 0 <= j < src.len() && src[j] == combined[i];
                        assert(src[j] == combined[i]);
                    }
                }
            } else {
                assert(m == ValueSpec::Hash(es));
                assert(forall|i: int| 0 <= i < es.len() ==> (#[trigger] es[i]).0 != mk) by {
                    if exists|i: int| 0 <= i < es.len() && (#[trigger] es[i]).0 == mk {
                        let i = choose|i: int| 0 <= i < es.len() && es[i].0 == mk;
                        assert(contains_key(es, mk));
                    }
                }
            }
        },
        _ => {
        },
    }
}

/// Merged output is well-formed: every mapping it contains has unique keys.
pub proof fn lemma_merged_wf(v: ValueSpec, m: ValueSpec)
    requires
        merge_spec(v) == Some(m),
    ensures
        wf_spec(m),
    decreases v,
{
    match v {
        ValueSpec::Array(elems) => {
            let ms = merge_elems(elems).unwrap();
            lemma_merge_elems_some(elems, ms);
            assert forall|i: int| 0 <= i < ms.len() implies wf_spec(#[trigger] ms[i]) by {
                lemma_merged_wf(elems[i], ms[i]);
            }
            assert(m == ValueSpec::Array(ms));
        },
        ValueSpec::Hash(entries) => {
            let mes = merge_entries(entries).unwrap();
            lemma_merge_entries_some(entries, mes);
            assert forall|i: int| 0 <= i < mes.len() implies wf_spec((#[trigger] mes[i]).0)
                && wf_spec(mes[i].1) by {
                lemma_merged_wf(entries[i].0, mes[i].0);
                lemma_merged_wf(entries[i].1, mes[i].1);
            }
            let es = collect_pairs(mes);
            crate::entries::lemma_collect_pairs_unique(mes);
            lemma_collect_pairs_membership(mes);
            assert forall|i: int| 0 <= i < es.len() implies wf_spec((#[trigger] es[i]).0)
                && wf_spec(es[i].1) by {
                let j = choose|j: int| 0 <= j < mes.len() && mes[j] == es[i];
                assert(mes[j] == es[i]);
            }
            let mk = merge_key_spec();
            if contains_key(es, mk) {
                lemma_lookup_some_iff_contains(es, mk);
                let mv = lookup(es, mk).unwrap();
                let rest = remove_key(es, mk);
                let src = merge_source_of(mv).unwrap();
                lemma_lookup_membership(es, mk);
                let jv = choose|j: int| 0 <= j < es.len() && es[j] == (mk, mv);
                assert(wf_spec(mv));
                crate::entries::lemma_remove_key_unique(es, mk);
                lemma_remove_key_membership(es, mk);
                assert forall|idx: int| 0 <= idx < rest.len() implies wf_spec(
                    (#[trigger] rest[idx]).0,
                ) && wf_spec(rest[idx].1) by {
                    let j = choose|j: int| 0 <= j < es.len() && es[j] == rest[idx];
                    assert(es[j] == rest[idx]);
                }
                assert forall|idx: int| 0 <= idx < src.len() implies wf_spec(
                    (#[trigger] src[idx]).0,
                ) && wf_spec(src[idx].1) by {
                    match mv {
                        ValueSpec::Hash(s) => {
                            assert(wf_spec(s[idx].0) && wf_spec(s[idx].1));
                        },
                        ValueSpec::Array(elems2) => {
                            lemma_source_array_wf(elems2, src);
                        },
                        _ => {
                        },
                    }
                }
                let combined = combine(rest, src);
                crate::entries::lemma_combine_unique(rest, src);
                lemma_combine_membership(rest, src);
                assert(m == ValueSpec::Hash(combined));
                assert forall|i: int| 0 <= i < combined.len() implies wf_spec(
                    (#[trigger] combined[i]).0,
                ) && wf_spec(combined[i].1) by {
                    if contains_pair(rest, combined[i]) {
                        let j = choose|j: int| 0 <= j < rest.len() && rest[j] == combined[i];
                        assert(rest[j] == combined[i]);
                    } else {
                        let j = choose|j: int| 0 <= j < src.len() && src[j] == combined[i];
                        assert(src[j] == combined[i]);
                    }
                }
            } else {
                assert(m == ValueSpec::Hash(es));
            }
        },
        _ => {
        },
    }
}

/// Idempotence of results: whatever merging returned, merging it again
/// returns it unchanged.
pub proof fn lemma_merge_idempotent(v: ValueSpec, m: ValueSpec)
    requires
        merge_spec(v) == Some(m),
    ensures
        merge_spec(m) == Some(m),
{
    lemma_merged_wf(v, m);
    lemma_merged_no_merge_keys(v, m);
    lemma_merge_identity(m);
}

/// Explicit entries win: in a collected mapping that carries a merge-key
/// entry, a key present among the explicit entries keeps its explicit value
/// in the merged mapping.
pub proof fn lemma_explicit_over_merged(es: Entries, k: ValueSpec, m: ValueSpec)
    requires
        merge_collected(es) == Some(m),
        contains_key(es, merge_key_spec()),
        contains_key(es, k),
        k != merge_key_spec(),
    ensures
        m matches ValueSpec::Hash(out) && lookup(out, k) == lookup(es, k),
{
    let mk = merge_key_spec();
    lemma_lookup_some_iff_contains(es, mk);
    let mv = lookup(es, mk).unwrap();
    let rest = remove_key(es, mk);
    let src = merge_source_of(mv).unwrap();
    lemma_remove_key_contains(es, mk, k);
    lemma_remove_key_lookup(es, mk, k);
    lemma_combine_lookup(rest, src, k);
}

/// Merged-in entries: a key absent from the explicit entries gets the merge
/// source's value.
pub proof fn lemma_merged_in_key(es: Entries, k: ValueSpec, m: ValueSpec)
    requires
        merge_collected(es) == Some(m),
        contains_key(es, merge_key_spec()),
        !contains_key(es, k),
    ensures
        m matches ValueSpec::Hash(out) && lookup(out, k) == lookup(
            merge_source_of(lookup(es, merge_key_spec()).unwrap()).unwrap(),
            k,
        ),
{
    let mk = merge_key_spec();
    lemma_lookup_some_iff_contains(es, mk);
    let mv = lookup(es, mk).unwrap();
    let rest = remove_key(es, mk);
    let src = merge_source_of(mv).unwrap();
    lemma_remove_key_contains(es, mk, k);
    lemma_combine_lookup(rest, src, k);
}

/// An array denotes a merge source exactly when all its elements are
/// mappings.
pub proof fn lemma_source_array_some_iff(elems: Seq<ValueSpec>)
    ensures
        (merge_source_of_array(elems) is Some) == (forall|i: int|
            0 <= i < elems.len() ==> (#[trigger] elems[i]) is Hash),
    decreases elems.len(),
{
    if elems.len() == 0 {
    } else {
        lemma_source_array_some_iff(elems.drop_last());
        assert(forall|i: int|
            0 <= i < elems.drop_last().len() ==> elems.drop_last()[i] == elems[i]);
        if merge_source_of_array(elems) is Some {
            assert forall|i: int| 0 <= i < elems.len() implies (#[trigger] elems[i]) is Hash by {
                if i < elems.len() - 1 {
                    assert(elems.drop_last()[i] == elems[i]);
                } else {
                    assert(elems[i] == elems.last());
                }
            }
        } else {
            if forall|i: int| 0 <= i < elems.len() ==> (#[trigger] elems[i]) is Hash {
                assert(forall|i: int|
                    0 <= i < elems.drop_last().len() ==> elems.drop_last()[i] is Hash);
                assert(elems.last() is Hash);
            }
        }
    }
}

/// Which keys an array merge source defines: those of its mapping elements.
proof fn lemma_source_array_contains(elems: Seq<ValueSpec>, src: Entries, k: ValueSpec)
    requires
        merge_source_of_array(elems) == Some(src),
    ensures
        contains_key(src, k) == (exists|j: int|
            0 <= j < elems.len() && contains_key((#[trigger] elems[j])->Hash_0, k)),
    decreases elems.len(),
{
    if elems.len() == 0 {
    } else {
        let front = merge_source_of_array(elems.drop_last()).unwrap();
        lemma_source_array_contains(elems.drop_last(), front, k);
        lemma_combine_contains(front, elems.last()->Hash_0, k);
        if contains_key(src, k) {
            if contains_key(front, k) {
                let j = choose|j: int|
                    0 <= j < elems.drop_last().len() && contains_key(
                        (#[trigger] elems.drop_last()[j])->Hash_0,
                        k,
                    );
                assert(elems[j] == elems.drop_last()[j]);
                assert(contains_key(elems[j]->Hash_0, k));
            } else {
                assert(elems[elems.len() - 1] == elems.last());
                assert(contains_key(elems[elems.len() - 1]->Hash_0, k));
            }
        }
        if exists|j: int| 0 <= j < elems.len() && contains_key((#[trigger] elems[j])->Hash_0, k) {
            let j = choose|j: int|
                0 <= j < elems.len() && contains_key((#[trigger] elems[j])->Hash_0, k);
            if j < elems.len() - 1 {
                assert(elems.drop_last()[j] == elems[j]);
                assert(contains_key(elems.drop_last()[j]->Hash_0, k));
            } else {
                assert(elems[j] == elems.last());
            }
        }
    }
}

/// First-wins among array merge sources: a key defined by several elements
/// of the merge array takes its value from the earliest element defining it.
pub proof fn lemma_array_source_first_wins(
    elems: Seq<ValueSpec>,
    src: Entries,
    i: int,
    k: ValueSpec,
)
    requires
        merge_source_of_array(elems) == Some(src),
        0 <= i < elems.len(),
        elems[i] is Hash,
        contains_key(elems[i]->Hash_0, k),
        forall|j: int| 0 <= j < i ==> !contains_key((#[trigger] elems[j])->Hash_0, k),
    ensures
        lookup(src, k) == lookup(elems[i]->Hash_0, k),
    decreases elems.len(),
{
    let front = merge_source_of_array(elems.drop_last()).unwrap();
    assert(forall|j: int|
        0 <= j < elems.drop_last().len() ==> elems.drop_last()[j] == elems[j]);
    if i == elems.len() - 1 {
        assert(elems[i] == elems.last());
        lemma_source_array_contains(elems.drop_last(), front, k);
        assert(!contains_key(front, k)) by {
            if contains_key(front, k) {
                let j = choose|j: int|
                    0 <= j < elems.drop_last().len() && contains_key(
                        (#[trigger] elems.drop_last()[j])->Hash_0,
                        k,
                    );
                assert(!contains_key(elems[j]->Hash_0, k));
            }
        }
        lemma_combine_lookup(front, elems.last()->Hash_0, k);
    } else {
        lemma_array_source_first_wins(elems.drop_last(), front, i, k);
        lemma_source_array_contains(elems.drop_last(), front, k);
        assert(contains_key(elems.drop_last()[i]->Hash_0, k));
        assert(contains_key(front, k));
        lemma_combine_lookup(front, elems.last()->Hash_0, k);
    }
}

/// Rejected merge values, exactly: with a merge-key entry present, merging
/// the collected mapping fails precisely when the attached value is neither
/// a mapping nor an array whose elements are all mappings.
pub proof fn lemma_invalid_merge_value(es: Entries)
    requires
        contains_key(es, merge_key_spec()),
    ensures
        ({
            let mv = lookup(es, merge_key_spec()).unwrap();
            (merge_collected(es) is None) == !(mv is Hash || (mv is Array && forall|i: int|
                0 <= i < mv->Array_0.len() ==> (#[trigger] mv->Array_0[i]) is Hash))
        }),
{
    lemma_lookup_some_iff_contains(es, merge_key_spec());
    let mv = lookup(es, merge_key_spec()).unwrap();
    if mv is Array {
        lemma_source_array_some_iff(mv->Array_0);
    }
}

} // verus!
