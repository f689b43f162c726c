//! The merge engine: detection and expansion of merge-key (`<<`) entries,
//! recursively through a whole value tree.

use vstd::prelude::*;

use crate::entries::combine;
use crate::entries::collect_pairs;
use crate::entries::contains_key;
use crate::entries::lemma_collect_pairs_unique;
use crate::entries::lemma_lookup_at;
use crate::entries::lemma_remove_key_absent;
use crate::entries::lemma_remove_key_at;
use crate::entries::lookup;
use crate::entries::remove_key;
use crate::entries::unique_keys;
use crate::entries::Entries;
use crate::value::clone_value;
use crate::value::deep_pairs;
use crate::value::deep_seq;
use crate::value::eq_value;
use crate::value::lemma_view_array;
use crate::value::lemma_view_hash;
use crate::value::view_of;
use crate::value::Value;
use crate::value::ValueSpec;

verus! {

/// The failure signal of merge resolution.
///
/// The enumeration is open-ended: later revisions may add further cases, so
/// matches outside this crate should keep a default arm.
#[derive(Debug, Clone, Copy, PartialEq, Eq)]
#[non_exhaustive]
pub enum MergeKeyError {
    /// The value attached to a merge key is neither a mapping nor an array
    /// whose elements are all mappings.
    InvalidMergeValue,
}

/// The merge-key marker: the string value `<<`.
pub open spec fn merge_key_spec() -> ValueSpec {
    ValueSpec::Str("<<"@)
}

/// The merge source drawn from an array attached to a merge key: every
/// element must be a mapping, and the elements are combined left to right,
/// earlier elements taking precedence.
pub open spec fn merge_source_of_array(elems: Seq<ValueSpec>) -> Option<Entries>
    decreases elems.len(),
{
    if elems.len() == 0 {
        Some(Seq::empty())
    } else {
        match merge_source_of_array(elems.drop_last()) {
            Option::None => Option::None,
            Option::Some(acc) => match elems.last() {
                ValueSpec::Hash(es) => Option::Some(combine(acc, es)),
                _ => Option::None,
            },
        }
    }
}

/// The merge source denoted by the value attached to a merge key: the
/// mapping itself, an array of mappings combined first-wins, and nothing
/// else.
pub open spec fn merge_source_of(v: ValueSpec) -> Option<Entries> {
    match v {
        ValueSpec::Hash(es) => Option::Some(es),
        ValueSpec::Array(elems) => merge_source_of_array(elems),
        _ => Option::None,
    }
}

/// The second stage of merging a mapping, after its entries have been
/// individually merged and collected: if a merge-key entry is present it is
/// removed, its merge source computed, and the source's new keys appended.
pub open spec fn merge_collected(es: Entries) -> Option<ValueSpec> {
    if contains_key(es, merge_key_spec()) {
        let mv = lookup(es, merge_key_spec()).unwrap();
        let rest = remove_key(es, merge_key_spec());
        match merge_source_of(mv) {
            Option::None => Option::None,
            Option::Some(src) => Option::Some(ValueSpec::Hash(combine(rest, src))),
        }
    } else {
        Option::Some(ValueSpec::Hash(es))
    }
}

/// Every element of a sequence merged, in order; the first failure fails the
/// whole sequence.
pub open spec fn merge_elems(elems: Seq<ValueSpec>) -> Option<Seq<ValueSpec>>
    decreases elems,
{
    if elems.len() == 0 {
        Option::Some(Seq::empty())
    } else {
        match merge_elems(elems.drop_last()) {
            Option::None => Option::None,
            Option::Some(front) => match merge_spec(elems.last()) {
                Option::Some(m) => Option::Some(front.push(m)),
                Option::None => Option::None,
            },
        }
    }
}

/// Every key and value of a mapping's entries merged, in order; the first
/// failure fails the whole mapping.
pub open spec fn merge_entries(entries: Entries) -> Option<Entries>
    decreases entries,
{
    if entries.len() == 0 {
        Option::Some(Seq::empty())
    } else {
        match merge_entries(entries.drop_last()) {
            Option::None => Option::None,
            Option::Some(front) => match (merge_spec(entries.last().0), merge_spec(
                entries.last().1,
            )) {
                (Option::Some(k), Option::Some(v)) => Option::Some(front.push((k, v))),
                _ => Option::None,
            },
        }
    }
}

/// What merging a value returns: `None` stands for the one failure,
/// an invalid merge value.
///
/// Scalars and the opaque markers are returned unchanged; sequences are
/// merged element by element; mappings have every key and value merged,
/// are collected in insertion order, and then have their merge-key entry,
/// if any, expanded by [`merge_collected`].
pub open spec fn merge_spec(v: ValueSpec) -> Option<ValueSpec>
    decreases v,
{
    match v {
        ValueSpec::Array(elems) => match merge_elems(elems) {
            Option::Some(ms) => Option::Some(ValueSpec::Array(ms)),
            Option::None => Option::None,
        },
        ValueSpec::Hash(entries) => match merge_entries(entries) {
            Option::Some(merged) => merge_collected(collect_pairs(merged)),
            Option::None => Option::None,
        },
        _ => Option::Some(v),
    }
}

/// If one element fails to merge, the whole sequence fails.
pub proof fn lemma_merge_elems_none(elems: Seq<ValueSpec>, i: int)
    requires
        0 <= i < elems.len(),
        merge_spec(elems[i]) is None,
    ensures
        merge_elems(elems) is None,
    decreases elems.len(),
{
    if i < elems.len() - 1 {
        assert(elems.drop_last()[i] == elems[i]);
        lemma_merge_elems_none(elems.drop_last(), i);
    }
}

/// If one entry's key or value fails to merge, the whole mapping fails.
pub proof fn lemma_merge_entries_none(entries: Entries, i: int)
    requires
        0 <= i < entries.len(),
        merge_spec(entries[i].0) is None || merge_spec(entries[i].1) is None,
    ensures
        merge_entries(entries) is None,
    decreases entries.len(),
{
    if i < entries.len() - 1 {
        assert(entries.drop_last()[i] == entries[i]);
        lemma_merge_entries_none(entries.drop_last(), i);
    }
}

/// An array with a non-mapping element denotes no merge source.
pub proof fn lemma_source_array_none(elems: Seq<ValueSpec>, i: int)
    requires
        0 <= i < elems.len(),
        !(elems[i] is Hash),
    ensures
        merge_source_of_array(elems) is None,
    decreases elems.len(),
{
    if i < elems.len() - 1 {
        assert(elems.drop_last()[i] == elems[i]);
        lemma_source_array_none(elems.drop_last(), i);
    }
}

/// The first entry of `es` whose key structurally equals `k`, if any.
pub(crate) fn find_key(es: &Vec<(Value, Value)>, k: &Value) -> (r: Option<usize>)
    ensures
        match r {
            Some(i) => i < es@.len() && view_of(es@[i as int].0) == k@ && (forall|j: int|
                0 <= j < i ==> view_of(es@[j].0) != k@),
            None => forall|j: int| 0 <= j < es@.len() ==> view_of(es@[j].0) != k@,
        },
{
    let mut i: usize = 0;
    while i < es.len()
        invariant
            0 <= i <= es@.len(),
            forall|j: int| 0 <= j < i ==> view_of(es@[j].0) != k@,
        decreases es@.len() - i,
    {
        if eq_value(&es[i].0, k) {
            return Some(i);
        }
        i += 1;
    }
    None
}

/// Two mappings merged: entries of `rhs` whose keys are new to `hash` are
/// appended, in order; keys already present keep `hash`'s entry.
fn merge_hashes(hash: Vec<(Value, Value)>, rhs: &Vec<(Value, Value)>) -> (r: Vec<(Value, Value)>)
    ensures
        deep_pairs(r@) == combine(deep_pairs(hash@), deep_pairs(rhs@)),
{
    let ghost base = deep_pairs(hash@);
    let ghost dp = deep_pairs(rhs@);
    let mut out = hash;
    let mut i: usize = 0;
    while i < rhs.len()
        invariant
            0 <= i <= rhs@.len(),
            dp == deep_pairs(rhs@),
            dp.len() == rhs@.len(),
            deep_pairs(out@) == combine(base, dp.take(i as int)),
        decreases rhs@.len() - i,
    {
        proof {
            assert(dp.take(i + 1).drop_last() =~= dp.take(i as int));
            assert(dp.take(i + 1).last() == dp[i as int]);
        }
        let ghost out0 = deep_pairs(out@);
        let p = &rhs[i];
        match find_key(&out, &p.0) {
            Some(idx) => {
                proof {
                    assert(out0[idx as int].0 == dp[i as int].0);
                }
            },
            None => {
                proof {
                    assert(!contains_key(out0, dp[i as int].0)) by {
                        if contains_key(out0, dp[i as int].0) {
                            let j = choose|j: int|
                                0 <= j < out0.len() && out0[j].0 == dp[i as int].0;
                            assert(view_of(out@[j].0) == dp[i as int].0);
                        }
                    }
                }
                let k = p.0.clone();
                let v = p.1.clone();
                out.push((k, v));
                proof {
                    assert(deep_pairs(out@) =~= out0.push(dp[i as int]));
                }
            },
        }
        i += 1;
    }
    proof {
        assert(dp.take(rhs@.len() as int) =~= dp);
    }
    out
}

/// The merge source computed from the value attached to a merge key,
/// combined into `hash`.
fn merge_values(hash: Vec<(Value, Value)>, value: &Value) -> (r: Result<
    Vec<(Value, Value)>,
    MergeKeyError,
>)
    ensures
        match r {
            Ok(out) => merge_source_of(value@) matches Some(src) && deep_pairs(out@) == combine(
                deep_pairs(hash@),
                src,
            ),
            Err(e) => merge_source_of(value@) is None && e == MergeKeyError::InvalidMergeValue,
        },
{
    match value {
        Value::Hash(mh) => {
            proof {
                lemma_view_hash(*mh);
            }
            Ok(merge_hashes(hash, mh))
        },
        Value::Array(arr) => {
            proof {
                lemma_view_array(*arr);
            }
            let ghost ds = deep_seq(arr@);
            let mut acc: Vec<(Value, Value)> = Vec::new();
            let mut i: usize = 0;
            while i < arr.len()
                invariant
                    0 <= i <= arr@.len(),
                    ds == deep_seq(arr@),
                    ds.len() == arr@.len(),
                    value@ == ValueSpec::Array(ds),
                    merge_source_of_array(ds.take(i as int)) == Some(deep_pairs(acc@)),
                decreases arr@.len() - i,
            {
                proof {
                    assert(ds.take(i + 1).drop_last() =~= ds.take(i as int));
                    assert(ds.take(i + 1).last() == ds[i as int]);
                }
                match &arr[i] {
                    Value::Hash(eh) => {
                        proof {
                            lemma_view_hash(*eh);
                        }
                        acc = merge_hashes(acc, eh);
                    },
                    _ => {
                        proof {
                            lemma_source_array_none(ds, i as int);
                        }
                        return Err(MergeKeyError::InvalidMergeValue);
                    },
                }
                i += 1;
            }
            proof {
                assert(ds.take(arr@.len() as int) =~= ds);
            }
            Ok(merge_hashes(hash, &acc))
        },
        _ => Err(MergeKeyError::InvalidMergeValue),
    }
}

/// A sequence merged element by element, in order.
fn merge_array(arr: &Vec<Value>) -> (r: Result<Vec<Value>, MergeKeyError>)
    ensures
        match r {
            Ok(out) => merge_elems(deep_seq(arr@)) == Some(deep_seq(out@)),
            Err(e) => merge_elems(deep_seq(arr@)) is None && e == MergeKeyError::InvalidMergeValue,
        },
    decreases *arr,
{
    let ghost ds = deep_seq(arr@);
    let mut out: Vec<Value> = Vec::new();
    let mut i: usize = 0;
    while i < arr.len()
        invariant
            0 <= i <= arr@.len(),
            ds == deep_seq(arr@),
            ds.len() == arr@.len(),
            merge_elems(ds.take(i as int)) == Some(deep_seq(out@)),
        decreases arr@.len() - i,
    {
        proof {
            assert(ds.take(i + 1).drop_last() =~= ds.take(i as int));
            assert(ds.take(i + 1).last() == ds[i as int]);
        }
        let ghost outv = deep_seq(out@);
        match merge_value(&arr[i]) {
            Ok(m) => {
                out.push(m);
                proof {
                    assert(deep_seq(out@) =~= outv.push(view_of(out@.last())));
                }
            },
            Err(e) => {
                proof {
                    lemma_merge_elems_none(ds, i as int);
                }
                return Err(e);
            },
        }
        i += 1;
    }
    proof {
        assert(ds.take(arr@.len() as int) =~= ds);
    }
    Ok(out)
}

/// A mapping merged: every key and value merged recursively, the entries
/// collected in insertion order, and a merge-key entry, if present, expanded.
fn merge_hash(hash: &Vec<(Value, Value)>) -> (r: Result<Value, MergeKeyError>)
    ensures
        match r {
            Ok(m) => merge_spec(ValueSpec::Hash(deep_pairs(hash@))) == Some(m@),
            Err(e) => merge_spec(ValueSpec::Hash(deep_pairs(hash@))) is None && e
                == MergeKeyError::InvalidMergeValue,
        },
    decreases *hash,
{
    let ghost dp = deep_pairs(hash@);
    let mut out: Vec<(Value, Value)> = Vec::new();
    let ghost mut merged: Entries = Seq::empty();
    let mut i: usize = 0;
    while i < hash.len()
        invariant
            0 <= i <= hash@.len(),
            dp == deep_pairs(hash@),
            dp.len() == hash@.len(),
            merge_entries(dp.take(i as int)) == Some(merged),
            deep_pairs(out@) == collect_pairs(merged),
            unique_keys(deep_pairs(out@)),
        decreases hash@.len() - i,
    {
        proof {
            assert(dp.take(i + 1).drop_last() =~= dp.take(i as int));
            assert(dp.take(i + 1).last() == dp[i as int]);
        }
        let p = &hash[i];
        let mk = match merge_value(&p.0) {
            Ok(m) => m,
            Err(e) => {
                proof {
                    lemma_merge_entries_none(dp, i as int);
                }
                return Err(e);
            },
        };
        let mv = match merge_value(&p.1) {
            Ok(m) => m,
            Err(e) => {
                proof {
                    lemma_merge_entries_none(dp, i as int);
                }
                return Err(e);
            },
        };
        let ghost out0 = deep_pairs(out@);
        let ghost kk = mk@;
        let ghost vv = mv@;
        match find_key(&out, &mk) {
            Some(idx) => {
                proof {
                    assert(out0[idx as int].0 == kk);
                    lemma_remove_key_at(out0, idx as int);
                }
                let _replaced = out.remove(idx);
                proof {
                    assert(deep_pairs(out@) =~= out0.remove(idx as int));
                }
            },
            None => {
                proof {
                    assert(!contains_key(out0, kk)) by {
                        if contains_key(out0, kk) {
                            let j = choose|j: int| 0 <= j < out0.len() && out0[j].0 == kk;
                            assert(view_of(out@[j].0) == kk);
                        }
                    }
                    lemma_remove_key_absent(out0, kk);
                }
            },
        }
        out.push((mk, mv));
        proof {
            assert(deep_pairs(out@) =~= remove_key(out0, kk).push((kk, vv)));
            let m2 = merged.push((kk, vv));
            assert(m2.drop_last() =~= merged);
            assert(m2.last() == (kk, vv));
            merged = m2;
            lemma_collect_pairs_unique(merged);
        }
        i += 1;
    }
    proof {
        assert(dp.take(hash@.len() as int) =~= dp);
    }
    // the entries are merged and collected: expand a merge-key entry, if any
    let mkv = Value::Str("<<".to_owned());
    let ghost es0 = deep_pairs(out@);
    match find_key(&out, &mkv) {
        None => {
            proof {
                assert(!contains_key(es0, merge_key_spec())) by {
                    if contains_key(es0, merge_key_spec()) {
                        let j = choose|j: int|
                            0 <= j < es0.len() && es0[j].0 == merge_key_spec();
                        assert(view_of(out@[j].0) == merge_key_spec());
                    }
                }
                lemma_view_hash(out);
            }
            Ok(Value::Hash(out))
        },
        Some(idx) => {
            proof {
                assert(es0[idx as int].0 == merge_key_spec());
                lemma_lookup_at(es0, idx as int);
                lemma_remove_key_at(es0, idx as int);
            }
            let pair = out.remove(idx);
            proof {
                assert(deep_pairs(out@) =~= es0.remove(idx as int));
            }
            match merge_values(out, &pair.1) {
                Ok(combined) => {
                    proof {
                        lemma_view_hash(combined);
                    }
                    Ok(Value::Hash(combined))
                },
                Err(e) => Err(e),
            }
        },
    }
}

/// A value merged recursively, by reference.
fn merge_value(doc: &Value) -> (r: Result<Value, MergeKeyError>)
    ensures
        match r {
            Ok(m) => merge_spec(doc@) == Some(m@),
            Err(e) => merge_spec(doc@) is None && e == MergeKeyError::InvalidMergeValue,
        },
    decreases *doc,
{
    match doc {
        Value::Array(elems) => {
            proof {
                lemma_view_array(*elems);
            }
            match merge_array(elems) {
                Ok(out) => {
                    proof {
                        lemma_view_array(out);
                    }
                    Ok(Value::Array(out))
                },
                Err(e) => Err(e),
            }
        },
        Value::Hash(entries) => {
            proof {
                lemma_view_hash(*entries);
            }
            merge_hash(entries)
        },
        _ => Ok(clone_value(doc)),
    }
}

/// Resolves every merge-key (`<<`) entry of a document.
///
/// The returned tree equals the input with every mapping's merge-key entry
/// removed and expanded as [`merge_spec`] describes; the one failure,
/// [`MergeKeyError::InvalidMergeValue`], is returned exactly when some merge
/// key's value is neither a mapping nor an array of mappings.
pub fn merge_keys(doc: Value) -> (r: Result<Value, MergeKeyError>)
    ensures
        match r {
            Ok(m) => merge_spec(doc@) == Some(m@),
            Err(e) => merge_spec(doc@) is None && e == MergeKeyError::InvalidMergeValue,
        },
{
    merge_value(&doc)
}

} // verus!
