//! The value-model bridge: bidirectional, tag-preserving conversion between
//! the native tree model and the alternate model of an ecosystem-standard
//! value representation, so that the merge engine can serve both.
//!
//! The alternate model has a single numeric case, supports type tags, and has
//! no counterpart for the native opaque markers. A tagged value crosses into
//! the native model as a mapping of exactly two entries keyed by two fixed
//! sentinel strings; the reverse conversion recognizes exactly that shape.

use vstd::prelude::*;

use crate::entries::collect_keep;
use crate::entries::collect_pairs;
use crate::entries::contains_key;
use crate::entries::lemma_collect_pairs_membership;
use crate::entries::lemma_collect_pairs_unique;
use crate::entries::lemma_insert_keep_unique;
use crate::entries::lemma_key_index_of;
use crate::entries::lemma_remove_key_absent;
use crate::entries::lemma_remove_key_at;
use crate::entries::unique_keys;
use crate::merge::find_key;
use crate::merge::merge_keys;
use crate::merge::merge_spec;
use crate::merge::MergeKeyError;
use crate::value::deep_pairs;
use crate::value::deep_seq;
use crate::value::eq_value;
use crate::value::lemma_view_array;
use crate::value::lemma_view_hash;
use crate::value::view_of;
use crate::value::Value;
use crate::value::ValueSpec;

verus! {

/// A number of the alternate model: an integer representable in 64 signed
/// bits, or any other number kept by its canonical textual form.
#[derive(Debug)]
pub enum NumValue {
    /// An integer representable in 64 signed bits.
    Int(i64),
    /// Any other number, by the canonical text the alternate representation
    /// prints for it.
    Other(String),
}

/// Mathematical model of an alternate-model number.
#[verifier::ext_equal]
pub enum NumValueSpec {
    /// An integer representable in 64 signed bits.
    Int(int),
    /// Any other number, by its canonical text.
    Other(Seq<char>),
}

/// The deep view of a [`NumValue`].
pub open spec fn view_of_num(n: NumValue) -> NumValueSpec {
    match n {
        NumValue::Int(i) => NumValueSpec::Int(i as int),
        NumValue::Other(s) => NumValueSpec::Other(s@),
    }
}

impl View for NumValue {
    type V = NumValueSpec;

    open spec fn view(&self) -> NumValueSpec {
        view_of_num(*self)
    }
}

/// An alternate-model value tree: one numeric case, type tags, and no
/// opaque markers.
#[derive(Debug)]
pub enum AltValue {
    /// The null scalar.
    Null,
    /// A boolean scalar.
    Bool(bool),
    /// A numeric scalar.
    Number(NumValue),
    /// A string scalar.
    Str(String),
    /// An ordered sequence of values.
    Sequence(Vec<AltValue>),
    /// An insertion-ordered mapping, a sequence of key/value pairs.
    Mapping(Vec<(AltValue, AltValue)>),
    /// A tagged value: a tag string wrapping a value.
    Tagged(String, Box<AltValue>),
}

/// Mathematical model of an alternate-model value tree.
#[verifier::ext_equal]
pub enum AltValueSpec {
    /// The null scalar.
    Null,
    /// A boolean scalar.
    Bool(bool),
    /// A numeric scalar.
    Number(NumValueSpec),
    /// A string scalar.
    Str(Seq<char>),
    /// An ordered sequence of values.
    Sequence(Seq<AltValueSpec>),
    /// An insertion-ordered mapping.
    Mapping(Seq<(AltValueSpec, AltValueSpec)>),
    /// A tagged value.
    Tagged(Seq<char>, Box<AltValueSpec>),
}

/// The deep view of an [`AltValue`] as an [`AltValueSpec`].
pub open spec fn view_of_alt(a: AltValue) -> AltValueSpec
    decreases a,
{
    match a {
        AltValue::Null => AltValueSpec::Null,
        AltValue::Bool(b) => AltValueSpec::Bool(b),
        AltValue::Number(n) => AltValueSpec::Number(view_of_num(n)),
        AltValue::Str(s) => AltValueSpec::Str(s@),
        AltValue::Sequence(elems) => AltValueSpec::Sequence(
            Seq::new(
                elems@.len(),
                |i: int|
                    if 0 <= i < elems@.len() {
                        view_of_alt(elems@[i])
                    } else {
                        AltValueSpec::Null
                    },
            ),
        ),
        AltValue::Mapping(entries) => AltValueSpec::Mapping(
            Seq::new(
                entries@.len(),
                |i: int|
                    if 0 <= i < entries@.len() {
                        (view_of_alt(entries@[i].0), view_of_alt(entries@[i].1))
                    } else {
                        (AltValueSpec::Null, AltValueSpec::Null)
                    },
            ),
        ),
        AltValue::Tagged(t, b) => AltValueSpec::Tagged(t@, Box::new(view_of_alt(*b))),
    }
}

impl View for AltValue {
    type V = AltValueSpec;

    open spec fn view(&self) -> AltValueSpec {
        view_of_alt(*self)
    }
}

/// The deep views of a sequence of alternate values, element by element.
pub open spec fn deep_alt_seq(s: Seq<AltValue>) -> Seq<AltValueSpec> {
    Seq::new(s.len(), |i: int| view_of_alt(s[i]))
}

/// The deep views of a sequence of alternate key/value pairs, pair by pair.
pub open spec fn deep_alt_pairs(s: Seq<(AltValue, AltValue)>) -> Seq<(AltValueSpec, AltValueSpec)> {
    Seq::new(s.len(), |i: int| (view_of_alt(s[i].0), view_of_alt(s[i].1)))
}

/// The view of a sequence value is the sequence of the element views.
pub proof fn lemma_view_sequence(elems: Vec<AltValue>)
    ensures
        view_of_alt(AltValue::Sequence(elems)) == AltValueSpec::Sequence(deep_alt_seq(elems@)),
{
    let va = view_of_alt(AltValue::Sequence(elems));
    assert(va is Sequence);
    assert(va->Sequence_0 =~= deep_alt_seq(elems@));
    assert(va == AltValueSpec::Sequence(va->Sequence_0));
}

/// The view of a mapping value is the sequence of the entry views.
pub proof fn lemma_view_mapping(entries: Vec<(AltValue, AltValue)>)
    ensures
        view_of_alt(AltValue::Mapping(entries)) == AltValueSpec::Mapping(deep_alt_pairs(entries@)),
{
    let vm = view_of_alt(AltValue::Mapping(entries));
    assert(vm is Mapping);
    assert(vm->Mapping_0 =~= deep_alt_pairs(entries@));
    assert(vm == AltValueSpec::Mapping(vm->Mapping_0));
}

/// Structural equality of two alternate-model numbers.
fn eq_num(a: &NumValue, b: &NumValue) -> (r: bool)
    ensures
        r == (a@ == b@),
{
    match (a, b) {
        (NumValue::Int(x), NumValue::Int(y)) => *x == *y,
        (NumValue::Other(x), NumValue::Other(y)) => *x == *y,
        _ => false,
    }
}

/// Structural equality of two alternate-model trees, decided recursively.
pub fn eq_alt(a: &AltValue, b: &AltValue) -> (r: bool)
    ensures
        r == (a@ == b@),
    decreases *a,
{
    match (a, b) {
        (AltValue::Null, AltValue::Null) => true,
        (AltValue::Bool(x), AltValue::Bool(y)) => *x == *y,
        (AltValue::Number(x), AltValue::Number(y)) => eq_num(x, y),
        (AltValue::Str(x), AltValue::Str(y)) => *x == *y,
        (AltValue::Sequence(xs), AltValue::Sequence(ys)) => {
            proof {
                lemma_view_sequence(*xs);
                lemma_view_sequence(*ys);
            }
            eq_alt_seq(xs, ys)
        },
        (AltValue::Mapping(xs), AltValue::Mapping(ys)) => {
            proof {
                lemma_view_mapping(*xs);
                lemma_view_mapping(*ys);
            }
            eq_alt_pairs(xs, ys)
        },
        (AltValue::Tagged(xt, xv), AltValue::Tagged(yt, yv)) => {
            if *xt == *yt {
                eq_alt(xv, yv)
            } else {
                false
            }
        },
        _ => false,
    }
}

/// Elementwise structural equality of two sequences of alternate values.
fn eq_alt_seq(xs: &Vec<AltValue>, ys: &Vec<AltValue>) -> (r: bool)
    ensures
        r == (deep_alt_seq(xs@) == deep_alt_seq(ys@)),
    decreases xs@,
{
    if xs.len() != ys.len() {
        assert(deep_alt_seq(xs@).len() != deep_alt_seq(ys@).len());
        return false;
    }
    let mut i: usize = 0;
    while i < xs.len()
        invariant
            0 <= i <= xs@.len(),
            xs@.len() == ys@.len(),
            forall|j: int| 0 <= j < i ==> view_of_alt(xs@[j]) == view_of_alt(ys@[j]),
        decreases xs@.len() - i,
    {
        if !eq_alt(&xs[i], &ys[i]) {
            assert(deep_alt_seq(xs@)[i as int] != deep_alt_seq(ys@)[i as int]);
            return false;
        }
        i += 1;
    }
    proof {
        assert(deep_alt_seq(xs@) =~= deep_alt_seq(ys@));
    }
    true
}

/// Pairwise structural equality of two sequences of alternate entries.
fn eq_alt_pairs(xs: &Vec<(AltValue, AltValue)>, ys: &Vec<(AltValue, AltValue)>) -> (r: bool)
    ensures
        r == (deep_alt_pairs(xs@) == deep_alt_pairs(ys@)),
    decreases xs@,
{
    if xs.len() != ys.len() {
        assert(deep_alt_pairs(xs@).len() != deep_alt_pairs(ys@).len());
        return false;
    }
    let mut i: usize = 0;
    while i < xs.len()
        invariant
            0 <= i <= xs@.len(),
            xs@.len() == ys@.len(),
            forall|j: int| 0 <= j < i ==> view_of_alt(xs@[j].0) == view_of_alt(ys@[j].0)
                && view_of_alt(xs@[j].1) == view_of_alt(ys@[j].1),
        decreases xs@.len() - i,
    {
        let xp = &xs[i];
        let yp = &ys[i];
        if !eq_alt(&xp.0, &yp.0) {
            assert(deep_alt_pairs(xs@)[i as int] != deep_alt_pairs(ys@)[i as int]);
            return false;
        }
        if !eq_alt(&xp.1, &yp.1) {
            assert(deep_alt_pairs(xs@)[i as int] != deep_alt_pairs(ys@)[i as int]);
            return false;
        }
        i += 1;
    }
    proof {
        assert(deep_alt_pairs(xs@) =~= deep_alt_pairs(ys@));
    }
    true
}

impl PartialEq for AltValue {
    fn eq(&self, other: &AltValue) -> (r: bool) {
        eq_alt(self, other)
    }
}

impl vstd::std_specs::cmp::PartialEqSpecImpl for AltValue {
    open spec fn obeys_eq_spec() -> bool {
        true
    }

    open spec fn eq_spec(&self, other: &AltValue) -> bool {
        self@ == other@
    }
}

/// A structural copy of an alternate-model tree.
fn clone_alt(a: &AltValue) -> (r: AltValue)
    ensures
        r@ == a@,
    decreases *a,
{
    match a {
        AltValue::Null => AltValue::Null,
        AltValue::Bool(b) => AltValue::Bool(*b),
        AltValue::Number(NumValue::Int(i)) => AltValue::Number(NumValue::Int(*i)),
        AltValue::Number(NumValue::Other(s)) => AltValue::Number(NumValue::Other(s.clone())),
        AltValue::Str(s) => AltValue::Str(s.clone()),
        AltValue::Sequence(elems) => {
            let out = clone_alt_seq(elems);
            proof {
                lemma_view_sequence(*elems);
                lemma_view_sequence(out);
            }
            AltValue::Sequence(out)
        },
        AltValue::Mapping(entries) => {
            let out = clone_alt_pairs(entries);
            proof {
                lemma_view_mapping(*entries);
                lemma_view_mapping(out);
            }
            AltValue::Mapping(out)
        },
        AltValue::Tagged(t, b) => AltValue::Tagged(t.clone(), Box::new(clone_alt(b))),
    }
}

/// An elementwise structural copy of a sequence of alternate values.
fn clone_alt_seq(xs: &Vec<AltValue>) -> (r: Vec<AltValue>)
    ensures
        deep_alt_seq(r@) == deep_alt_seq(xs@),
        r@.len() == xs@.len(),
    decreases xs@,
{
    let mut out: Vec<AltValue> = Vec::new();
    let mut i: usize = 0;
    while i < xs.len()
        invariant
            0 <= i <= xs@.len(),
            out@.len() == i,
            forall|j: int| 0 <= j < i ==> view_of_alt(out@[j]) == view_of_alt(xs@[j]),
        decreases xs@.len() - i,
    {
        out.push(clone_alt(&xs[i]));
        i += 1;
    }
    proof {
        assert(deep_alt_seq(out@) =~= deep_alt_seq(xs@));
    }
    out
}

/// A pairwise structural copy of a sequence of alternate entries.
fn clone_alt_pairs(xs: &Vec<(AltValue, AltValue)>) -> (r: Vec<(AltValue, AltValue)>)
    ensures
        deep_alt_pairs(r@) == deep_alt_pairs(xs@),
        r@.len() == xs@.len(),
    decreases xs@,
{
    let mut out: Vec<(AltValue, AltValue)> = Vec::new();
    let mut i: usize = 0;
    while i < xs.len()
        invariant
            0 <= i <= xs@.len(),
            out@.len() == i,
            forall|j: int| 0 <= j < i ==> view_of_alt(out@[j].0) == view_of_alt(xs@[j].0)
                && view_of_alt(out@[j].1) == view_of_alt(xs@[j].1),
        decreases xs@.len() - i,
    {
        let p = &xs[i];
        let k = clone_alt(&p.0);
        let v = clone_alt(&p.1);
        out.push((k, v));
        i += 1;
    }
    proof {
        assert(deep_alt_pairs(out@) =~= deep_alt_pairs(xs@));
    }
    out
}

impl Clone for AltValue {
    /// Cloning preserves the tree's view exactly.
    fn clone(&self) -> (r: AltValue)
        ensures
            r@ == self@,
    {
        clone_alt(self)
    }
}

/// The sentinel key under which a smuggled tag's string is stored. The two
/// sentinels are fixed, collision-resistant strings and are part of the
/// bridge's format: an independent implementation must use the same ones.
pub open spec fn tag_sentinel() -> Seq<char> {
    "70235535-46bb-46f9-b535-31596b77733f"@
}

/// The sentinel key under which a smuggled tag's wrapped value is stored.
pub open spec fn value_sentinel() -> Seq<char> {
    "b5282e53-aaaf-4f67-a0b5-d5bb3bd0d4d2"@
}

/// The two sentinel keys differ.
pub proof fn lemma_sentinels_distinct()
    ensures
        tag_sentinel() != value_sentinel(),
{
    reveal_strlit("70235535-46bb-46f9-b535-31596b77733f");
    reveal_strlit("b5282e53-aaaf-4f67-a0b5-d5bb3bd0d4d2");
    assert(tag_sentinel()[0] == '7');
    assert(value_sentinel()[0] == 'b');
}

/// The tag sentinel key, as an owned string.
fn tag_key() -> (r: String)
    ensures
        r@ == tag_sentinel(),
{
    "70235535-46bb-46f9-b535-31596b77733f".to_owned()
}

/// The value sentinel key, as an owned string.
fn value_key() -> (r: String)
    ensures
        r@ == value_sentinel(),
{
    "b5282e53-aaaf-4f67-a0b5-d5bb3bd0d4d2".to_owned()
}

/// What the alternate representation parses a candidate numeric text into:
/// an integer when the text denotes one representable in 64 signed bits,
/// any other number by its canonical text, or nothing when the text is not
/// numeric. A function of the text alone.
pub uninterp spec fn spec_parse_number(s: Seq<char>) -> Option<NumValueSpec>;

/// Relies on `serde_yaml::from_str::<Number>`, `Number::as_i64` and
/// `Number`'s `Display` impl: together they parse a candidate numeric text
/// and print a non-integer result canonically, and their outcome depends on
/// the text alone.
#[verifier::external_body]
fn parse_number(s: &String) -> (r: Option<NumValue>)
    ensures
        match r {
            Some(n) => spec_parse_number(s@) == Some(n@),
            None => spec_parse_number(s@) is None,
        },
{
    match serde_yaml::from_str::<serde_yaml::Number>(s.as_str()) {
        Ok(n) => match n.as_i64() {
            Some(i) => Some(NumValue::Int(i)),
            None => Some(NumValue::Other(n.to_string())),
        },
        Err(_) => None,
    }
}

/// Whether a native mapping's entries carry a smuggled tagged value: exactly
/// two entries, one keyed by the tag sentinel with a string value, the other
/// keyed by the value sentinel. Anything else (wrong arity, one sentinel
/// missing, a non-string tag) is an ordinary mapping.
pub open spec fn smuggle_shape(es: Seq<(ValueSpec, ValueSpec)>) -> bool {
    &&& es.len() == 2
    &&& {
        ||| (es[0].0 == ValueSpec::Str(tag_sentinel()) && es[0].1 is Str && es[1].0
            == ValueSpec::Str(value_sentinel()))
        ||| (es[1].0 == ValueSpec::Str(tag_sentinel()) && es[1].1 is Str && es[0].0
            == ValueSpec::Str(value_sentinel()))
    }
}

/// Whether the tree is free of the opaque unresolved-reference and
/// malformed-parse markers, which the alternate model cannot represent.
pub open spec fn no_markers(v: ValueSpec) -> bool
    decreases v,
{
    match v {
        ValueSpec::Array(elems) => forall|i: int|
            0 <= i < elems.len() ==> no_markers(#[trigger] elems[i]),
        ValueSpec::Hash(es) => forall|i: int|
            0 <= i < es.len() ==> no_markers((#[trigger] es[i]).0) && no_markers(es[i].1),
        ValueSpec::Alias(_) => false,
        ValueSpec::Bad => false,
        _ => true,
    }
}

/// The elements of a sequence converted to the native model.
pub open spec fn natives_of(s: Seq<AltValueSpec>) -> Seq<ValueSpec>
    decreases s,
{
    Seq::new(
        s.len(),
        |i: int|
            if 0 <= i < s.len() {
                spec_to_native(s[i])
            } else {
                ValueSpec::Null
            },
    )
}

/// The entries of a mapping converted to the native model, pair by pair.
pub open spec fn native_pairs_of(s: Seq<(AltValueSpec, AltValueSpec)>) -> Seq<
    (ValueSpec, ValueSpec),
>
    decreases s,
{
    Seq::new(
        s.len(),
        |i: int|
            if 0 <= i < s.len() {
                (spec_to_native(s[i].0), spec_to_native(s[i].1))
            } else {
                (ValueSpec::Null, ValueSpec::Null)
            },
    )
}

/// What converting an alternate value into the native model returns.
///
/// Integers become native integers; other numbers become textual reals;
/// mapping entries are collected under the native move-to-back rule; a
/// tagged value becomes the two-entry sentinel mapping, tag entry first.
pub open spec fn spec_to_native(a: AltValueSpec) -> ValueSpec
    decreases a,
{
    match a {
        AltValueSpec::Null => ValueSpec::Null,
        AltValueSpec::Bool(b) => ValueSpec::Bool(b),
        AltValueSpec::Number(NumValueSpec::Int(i)) => ValueSpec::Int(i),
        AltValueSpec::Number(NumValueSpec::Other(t)) => ValueSpec::Real(t),
        AltValueSpec::Str(s) => ValueSpec::Str(s),
        AltValueSpec::Sequence(elems) => ValueSpec::Array(natives_of(elems)),
        AltValueSpec::Mapping(es) => ValueSpec::Hash(collect_pairs(native_pairs_of(es))),
        AltValueSpec::Tagged(t, b) => ValueSpec::Hash(
            seq![
                (ValueSpec::Str(tag_sentinel()), ValueSpec::Str(t)),
                (ValueSpec::Str(value_sentinel()), spec_to_native(*b)),
            ],
        ),
    }
}

/// The elements of a sequence converted to the alternate model.
pub open spec fn alts_of(s: Seq<ValueSpec>) -> Seq<AltValueSpec>
    decreases s,
{
    Seq::new(
        s.len(),
        |i: int|
            if 0 <= i < s.len() {
                spec_to_alternate(s[i])
            } else {
                AltValueSpec::Null
            },
    )
}

/// The entries of a mapping converted to the alternate model, pair by pair.
pub open spec fn alt_pairs_of(s: Seq<(ValueSpec, ValueSpec)>) -> Seq<
    (AltValueSpec, AltValueSpec),
>
    decreases s,
{
    Seq::new(
        s.len(),
        |i: int|
            if 0 <= i < s.len() {
                (spec_to_alternate(s[i].0), spec_to_alternate(s[i].1))
            } else {
                (AltValueSpec::Null, AltValueSpec::Null)
            },
    )
}

/// What converting a native value into the alternate model returns, for
/// marker-free trees.
///
/// A textual real that parses as a number becomes that number, and falls
/// back to a plain string otherwise; a mapping of the exact two-sentinel
/// shape is reconstructed as a tagged value; other mapping entries are
/// collected under the alternate keep-position rule. The opaque markers have
/// no counterpart: on them the conversion is left meaningless (the null
/// value), and the executable conversion refuses them by precondition.
pub open spec fn spec_to_alternate(v: ValueSpec) -> AltValueSpec
    decreases v,
{
    match v {
        ValueSpec::Null => AltValueSpec::Null,
        ValueSpec::Bool(b) => AltValueSpec::Bool(b),
        ValueSpec::Int(i) => AltValueSpec::Number(NumValueSpec::Int(i)),
        ValueSpec::Real(t) => match spec_parse_number(t) {
            Option::Some(n) => AltValueSpec::Number(n),
            Option::None => AltValueSpec::Str(t),
        },
        ValueSpec::Str(s) => AltValueSpec::Str(s),
        ValueSpec::Array(elems) => AltValueSpec::Sequence(alts_of(elems)),
        ValueSpec::Hash(es) => if smuggle_shape(es) {
            if es[0].0 == ValueSpec::Str(tag_sentinel()) {
                AltValueSpec::Tagged(es[0].1->Str_0, Box::new(spec_to_alternate(es[1].1)))
            } else {
                AltValueSpec::Tagged(es[1].1->Str_0, Box::new(spec_to_alternate(es[0].1)))
            }
        } else {
            AltValueSpec::Mapping(collect_keep(alt_pairs_of(es)))
        },
        ValueSpec::Alias(_) => AltValueSpec::Null,
        ValueSpec::Bad => AltValueSpec::Null,
    }
}

/// The first entry of `es` whose key structurally equals `k`, if any.
fn find_alt_key(es: &Vec<(AltValue, AltValue)>, k: &AltValue) -> (r: Option<usize>)
    ensures
        match r {
            Some(i) => i < es@.len() && view_of_alt(es@[i as int].0) == k@ && (forall|j: int|
                0 <= j < i ==> view_of_alt(es@[j].0) != k@),
            None => forall|j: int| 0 <= j < es@.len() ==> view_of_alt(es@[j].0) != k@,
        },
{
    let mut i: usize = 0;
    while i < es.len()
        invariant
            0 <= i <= es@.len(),
            forall|j: int| 0 <= j < i ==> view_of_alt(es@[j].0) != k@,
        decreases es@.len() - i,
    {
        if eq_alt(&es[i].0, k) {
            return Some(i);
        }
        i += 1;
    }
    None
}

/// An alternate-model tree converted to the native model.
pub fn to_native(a: &AltValue) -> (r: Value)
    ensures
        r@ == spec_to_native(a@),
    decreases *a,
{
    match a {
        AltValue::Null => Value::Null,
        AltValue::Bool(b) => Value::Bool(*b),
        AltValue::Number(NumValue::Int(i)) => Value::Int(*i),
        AltValue::Number(NumValue::Other(t)) => Value::Real(t.clone()),
        AltValue::Str(s) => Value::Str(s.clone()),
        AltValue::Sequence(elems) => {
            proof {
                lemma_view_sequence(*elems);
            }
            let ghost ds = deep_alt_seq(elems@);
            let mut out: Vec<Value> = Vec::new();
            let mut i: usize = 0;
            while i < elems.len()
                invariant
                    0 <= i <= elems@.len(),
                    *a == AltValue::Sequence(*elems),
                    ds == deep_alt_seq(elems@),
                    ds.len() == elems@.len(),
                    out@.len() == i,
                    forall|j: int| 0 <= j < i ==> view_of(out@[j]) == spec_to_native(ds[j]),
                decreases elems@.len() - i,
            {
                proof {
                    assert(decreases_to!(*a => (*a)->Sequence_0));
                    assert((*a)->Sequence_0 == *elems);
                    assert(decreases_to!(*elems => elems@));
                    assert(decreases_to!(elems@ => elems@[i as int]));
                }
                out.push(to_native(&elems[i]));
                i += 1;
            }
            proof {
                lemma_view_array(out);
                assert(deep_seq(out@) =~= natives_of(ds));
            }
            Value::Array(out)
        },
        AltValue::Mapping(entries) => {
            proof {
                lemma_view_mapping(*entries);
            }
            let ghost dp = deep_alt_pairs(entries@);
            let ghost aps = native_pairs_of(dp);
            let mut out: Vec<(Value, Value)> = Vec::new();
            let mut i: usize = 0;
            while i < entries.len()
                invariant
                    0 <= i <= entries@.len(),
                    *a == AltValue::Mapping(*entries),
                    dp == deep_alt_pairs(entries@),
                    dp.len() == entries@.len(),
                    aps == native_pairs_of(dp),
                    aps.len() == dp.len(),
                    deep_pairs(out@) == collect_pairs(aps.take(i as int)),
                    unique_keys(deep_pairs(out@)),
                decreases entries@.len() - i,
            {
                proof {
                    assert(aps.take(i + 1).drop_last() =~= aps.take(i as int));
                    assert(aps.take(i + 1).last() == aps[i as int]);
                }
                let p = &entries[i];
                proof {
                    assert(decreases_to!(*a => (*a)->Mapping_0));
                    assert((*a)->Mapping_0 == *entries);
                    assert(decreases_to!(*entries => entries@));
                    assert(decreases_to!(entries@ => entries@[i as int]));
                    assert(decreases_to!(entries@[i as int] => entries@[i as int].0));
                    assert(decreases_to!(entries@[i as int] => entries@[i as int].1));
                }
                let k = to_native(&p.0);
                let v = to_native(&p.1);
                let ghost out0 = deep_pairs(out@);
                let ghost kk = k@;
                let ghost vv = v@;
                match find_key(&out, &k) {
                    Some(idx) => {
                        proof {
                            assert(out0[idx as int].0 == kk);
                            lemma_remove_key_at(out0, idx as int);
                        }
                        let _replaced = out.remove(idx);
                        proof {
                            assert(deep_pairs(out@) =~= out0.remove(idx as int));
                        }
                    },
                    None => {
                        proof {
                            assert(!contains_key(out0, kk)) by {
                                if contains_key(out0, kk) {
                                    let j = choose|j: int|
                                        0 <= j < out0.len() && out0[j].0 == kk;
                                    assert(view_of(out@[j].0) == kk);
                                }
                            }
                            lemma_remove_key_absent(out0, kk);
                        }
                    },
                }
                out.push((k, v));
                proof {
                    assert(deep_pairs(out@) =~= crate::entries::remove_key(out0, kk).push(
                        (kk, vv),
                    ));
                    lemma_collect_pairs_unique(aps.take(i + 1));
                }
                i += 1;
            }
            proof {
                assert(aps.take(entries@.len() as int) =~= aps);
                lemma_view_hash(out);
            }
            Value::Hash(out)
        },
        AltValue::Tagged(t, b) => {
            let inner = to_native(b);
            let mut out: Vec<(Value, Value)> = Vec::new();
            out.push((Value::Str(tag_key()), Value::Str(t.clone())));
            out.push((Value::Str(value_key()), inner));
            proof {
                lemma_view_hash(out);
                assert(deep_pairs(out@) =~= seq![
                    (ValueSpec::Str(tag_sentinel()), ValueSpec::Str(t@)),
                    (ValueSpec::Str(value_sentinel()), spec_to_native(view_of_alt(**b))),
                ]);
            }
            Value::Hash(out)
        },
    }
}

/// Whether the value is the string holding the given sentinel key.
fn is_str_key(v: &Value, sent: &String) -> (b: bool)
    ensures
        b == (v@ == ValueSpec::Str(sent@)),
{
    match v {
        Value::Str(s) => *s == *sent,
        _ => false,
    }
}

/// A marker-free native tree converted to the alternate model.
///
/// The opaque markers have no alternate counterpart, so a tree handed to this
/// conversion must be free of them; trees produced by [`to_native`], and
/// their merge results, are.
pub fn to_alternate(v: &Value) -> (r: AltValue)
    requires
        no_markers(v@),
    ensures
        r@ == spec_to_alternate(v@),
    decreases *v,
{
    match v {
        Value::Null => AltValue::Null,
        Value::Bool(b) => AltValue::Bool(*b),
        Value::Int(i) => AltValue::Number(NumValue::Int(*i)),
        Value::Real(t) => match parse_number(t) {
            Some(n) => AltValue::Number(n),
            None => AltValue::Str(t.clone()),
        },
        Value::Str(s) => AltValue::Str(s.clone()),
        Value::Array(elems) => {
            proof {
                lemma_view_array(*elems);
            }
            let ghost ds = deep_seq(elems@);
            let mut out: Vec<AltValue> = Vec::new();
            let mut i: usize = 0;
            while i < elems.len()
                invariant
                    0 <= i <= elems@.len(),
                    *v == Value::Array(*elems),
                    ds == deep_seq(elems@),
                    ds.len() == elems@.len(),
                    forall|j: int| 0 <= j < ds.len() ==> no_markers(#[trigger] ds[j]),
                    out@.len() == i,
                    forall|j: int| 0 <= j < i ==> view_of_alt(out@[j]) == spec_to_alternate(
                        ds[j],
                    ),
                decreases elems@.len() - i,
            {
                proof {
                    assert(no_markers(ds[i as int]));
                    assert(decreases_to!(*v => (*v)->Array_0));
                    assert((*v)->Array_0 == *elems);
                    assert(decreases_to!(*elems => elems@));
                    assert(decreases_to!(elems@ => elems@[i as int]));
                }
                out.push(to_alternate(&elems[i]));
                i += 1;
            }
            proof {
                lemma_view_sequence(out);
                assert(deep_alt_seq(out@) =~= alts_of(ds));
            }
            AltValue::Sequence(out)
        },
        Value::Hash(entries) => {
            proof {
                lemma_view_hash(*entries);
                lemma_sentinels_distinct();
            }
            let ghost dp = deep_pairs(entries@);
            if entries.len() == 2 {
                let tk = tag_key();
                let vk = value_key();
                if is_str_key(&entries[0].0, &tk) && is_str_key(&entries[1].0, &vk) {
                    if let Value::Str(tag) = &entries[0].1 {
                        let inner = to_alternate(&entries[1].1);
                        return AltValue::Tagged(tag.clone(), Box::new(inner));
                    }
                }
                if is_str_key(&entries[1].0, &tk) && is_str_key(&entries[0].0, &vk) {
                    if let Value::Str(tag) = &entries[1].1 {
                        let inner = to_alternate(&entries[0].1);
                        return AltValue::Tagged(tag.clone(), Box::new(inner));
                    }
                }
            }
            let ghost aps = alt_pairs_of(dp);
            let mut out: Vec<(AltValue, AltValue)> = Vec::new();
            let mut i: usize = 0;
            while i < entries.len()
                invariant
                    0 <= i <= entries@.len(),
                    *v == Value::Hash(*entries),
                    dp == deep_pairs(entries@),
                    dp.len() == entries@.len(),
                    aps == alt_pairs_of(dp),
                    aps.len() == dp.len(),
                    forall|j: int|
                        0 <= j < dp.len() ==> no_markers((#[trigger] dp[j]).0) && no_markers(
                            dp[j].1,
                        ),
                    deep_alt_pairs(out@) == collect_keep(aps.take(i as int)),
                    unique_keys(deep_alt_pairs(out@)),
                decreases entries@.len() - i,
            {
                proof {
                    assert(aps.take(i + 1).drop_last() =~= aps.take(i as int));
                    assert(aps.take(i + 1).last() == aps[i as int]);
                }
                let p = &entries[i];
                proof {
                    assert(no_markers(dp[i as int].0));
                    assert(no_markers(dp[i as int].1));
                    assert(decreases_to!(*v => (*v)->Hash_0));
                    assert((*v)->Hash_0 == *entries);
                    assert(decreases_to!(*entries => entries@));
                    assert(decreases_to!(entries@ => entries@[i as int]));
                    assert(decreases_to!(entries@[i as int] => entries@[i as int].0));
                    assert(decreases_to!(entries@[i as int] => entries@[i as int].1));
                }
                let k = to_alternate(&p.0);
                let val = to_alternate(&p.1);
                let ghost out0 = deep_alt_pairs(out@);
                let ghost kk = k@;
                let ghost vv = val@;
                proof {
                    lemma_insert_keep_unique(out0, kk, vv);
                }
                match find_alt_key(&out, &k) {
                    Some(idx) => {
                        proof {
                            assert(out0[idx as int].0 == kk);
                            lemma_key_index_of(out0, kk, idx as int);
                        }
                        let _replaced = out.remove(idx);
                        out.insert(idx, (k, val));
                        proof {
                            assert(deep_alt_pairs(out@) =~= out0.update(idx as int, (kk, vv)));
                        }
                    },
                    None => {
                        proof {
                            assert(!contains_key(out0, kk)) by {
                                if contains_key(out0, kk) {
                                    let j = choose|j: int|
                                        0 <= j < out0.len() && out0[j].0 == kk;
                                    assert(view_of_alt(out@[j].0) == kk);
                                }
                            }
                        }
                        out.push((k, val));
                        proof {
                            assert(deep_alt_pairs(out@) =~= out0.push((kk, vv)));
                        }
                    },
                }
                i += 1;
            }
            proof {
                assert(aps.take(entries@.len() as int) =~= aps);
                lemma_view_mapping(out);
            }
            AltValue::Mapping(out)
        },
        Value::Alias(_) => {
            proof {
                assert(false);
            }
            AltValue::Null
        },
        Value::Bad => {
            proof {
                assert(false);
            }
            AltValue::Null
        },
    }
}

/// Conversion from the alternate model never produces an opaque marker.
pub proof fn lemma_to_native_no_markers(a: AltValueSpec)
    ensures
        no_markers(spec_to_native(a)),
    decreases a,
{
    match a {
        AltValueSpec::Sequence(elems) => {
            let ns = natives_of(elems);
            assert forall|i: int| 0 <= i < ns.len() implies no_markers(#[trigger] ns[i]) by {
                lemma_to_native_no_markers(elems[i]);
            }
        },
        AltValueSpec::Mapping(es) => {
            let nps = native_pairs_of(es);
            assert forall|i: int| 0 <= i < nps.len() implies no_markers((#[trigger] nps[i]).0)
                && no_markers(nps[i].1) by {
                lemma_to_native_no_markers(es[i].0);
                lemma_to_native_no_markers(es[i].1);
            }
            lemma_collect_pairs_membership(nps);
            let c = collect_pairs(nps);
            assert forall|i: int| 0 <= i < c.len() implies no_markers((#[trigger] c[i]).0)
                && no_markers(c[i].1) by {
                let j = choose|j: int| 0 <= j < nps.len() && nps[j] == c[i];
                assert(nps[j] == c[i]);
            }
        },
        AltValueSpec::Tagged(t, b) => {
            lemma_to_native_no_markers(*b);
            let es = spec_to_native(a)->Hash_0;
            assert(es.len() == 2);
            assert(forall|i: int|
                0 <= i < es.len() ==> no_markers((#[trigger] es[i]).0) && no_markers(es[i].1));
        },
        _ => {
        },
    }
}

/// A merge source drawn from marker-free mappings is marker-free.
proof fn lemma_source_array_no_markers(elems: Seq<ValueSpec>, src: Seq<(ValueSpec, ValueSpec)>)
    requires
        crate::merge::merge_source_of_array(elems) == Some(src),
        forall|j: int| 0 <= j < elems.len() ==> no_markers(#[trigger] elems[j]),
    ensures
        forall|idx: int|
            0 <= idx < src.len() ==> no_markers((#[trigger] src[idx]).0) && no_markers(
                src[idx].1,
            ),
    decreases elems.len(),
{
    if elems.len() == 0 {
    } else {
        let front = crate::merge::merge_source_of_array(elems.drop_last()).unwrap();
        assert(forall|j: int|
            0 <= j < elems.drop_last().len() ==> elems.drop_last()[j] == elems[j]);
        lemma_source_array_no_markers(elems.drop_last(), front);
        let es = elems.last()->Hash_0;
        crate::entries::lemma_combine_membership(front, es);
        assert forall|idx: int| 0 <= idx < src.len() implies no_markers((#[trigger] src[idx]).0)
            && no_markers(src[idx].1) by {
            let p = src[idx];
            assert(crate::entries::contains_pair(front, p) || crate::entries::contains_pair(
                es,
                p,
            ));
            if crate::entries::contains_pair(front, p) {
                let j = choose|j: int| 0 <= j < front.len() && front[j] == p;
                assert(front[j] == p);
            } else {
                let j = choose|j: int| 0 <= j < es.len() && es[j] == p;
                assert(no_markers(elems.last()));
                assert(no_markers(es[j].0) && no_markers(es[j].1));
            }
        }
    }
}

/// Merging a marker-free tree returns a marker-free tree.
pub proof fn lemma_merge_no_markers(v: ValueSpec, m: ValueSpec)
    requires
        no_markers(v),
        merge_spec(v) == Some(m),
    ensures
        no_markers(m),
    decreases v,
{
    match v {
        ValueSpec::Array(elems) => {
            let ms = crate::merge::merge_elems(elems).unwrap();
            crate::laws::lemma_merge_elems_some(elems, ms);
            assert forall|i: int| 0 <= i < ms.len() implies no_markers(#[trigger] ms[i]) by {
                lemma_merge_no_markers(elems[i], ms[i]);
            }
            assert(m == ValueSpec::Array(ms));
        },
        ValueSpec::Hash(entries) => {
            let mes = crate::merge::merge_entries(entries).unwrap();
            crate::laws::lemma_merge_entries_some(entries, mes);
            assert forall|i: int| 0 <= i < mes.len() implies no_markers((#[trigger] mes[i]).0)
                && no_markers(mes[i].1) by {
                lemma_merge_no_markers(entries[i].0, mes[i].0);
                lemma_merge_no_markers(entries[i].1, mes[i].1);
            }
            let es = collect_pairs(mes);
            lemma_collect_pairs_membership(mes);
            assert forall|i: int| 0 <= i < es.len() implies no_markers((#[trigger] es[i]).0)
                && no_markers(es[i].1) by {
                let j = choose|j: int| 0 <= j < mes.len() && mes[j] == es[i];
                assert(mes[j] == es[i]);
            }
            let mk = crate::merge::merge_key_spec();
            if contains_key(es, mk) {
                crate::entries::lemma_lookup_some_iff_contains(es, mk);
                let mv = crate::entries::lookup(es, mk).unwrap();
                let rest = crate::entries::remove_key(es, mk);
                let src = crate::merge::merge_source_of(mv).unwrap();
                crate::entries::lemma_lookup_membership(es, mk);
                let jv = choose|j: int| 0 <= j < es.len() && es[j] == (mk, mv);
                assert(no_markers(mv));
                crate::entries::lemma_remove_key_membership(es, mk);
                assert forall|idx: int| 0 <= idx < rest.len() implies no_markers(
                    (#[trigger] rest[idx]).0,
                ) && no_markers(rest[idx].1) by {
                    let j = choose|j: int| 0 <= j < es.len() && es[j] == rest[idx];
                    assert(es[j] == rest[idx]);
                }
                assert forall|idx: int| 0 <= idx < src.len() implies no_markers(
                    (#[trigger] src[idx]).0,
                ) && no_markers(src[idx].1) by {
                    match mv {
                        ValueSpec::Hash(s) => {
                            assert(no_markers(s[idx].0) && no_markers(s[idx].1));
                        },
                        ValueSpec::Array(elems2) => {
                            lemma_source_array_no_markers(elems2, src);
                        },
                        _ => {
                        },
                    }
                }
                let combined = crate::entries::combine(rest, src);
                crate::entries::lemma_combine_membership(rest, src);
                assert(m == ValueSpec::Hash(combined));
                assert forall|i: int| 0 <= i < combined.len() implies no_markers(
                    (#[trigger] combined[i]).0,
                ) && no_markers(combined[i].1) by {
                    if crate::entries::contains_pair(rest, combined[i]) {
                        let j = choose|j: int| 0 <= j < rest.len() && rest[j] == combined[i];
                        assert(rest[j] == combined[i]);
                    } else {
                        let j = choose|j: int| 0 <= j < src.len() && src[j] == combined[i];
                        assert(src[j] == combined[i]);
                    }
                }
            } else {
                assert(m == ValueSpec::Hash(es));
            }
        },
        _ => {
        },
    }
}

/// Resolves every merge-key (`<<`) entry of an alternate-model document.
///
/// The document is converted to the native model, merged there, and the
/// result converted back: exactly `to_native`, then `merge_keys`, then
/// `to_alternate`. The one failure is returned exactly when the native merge
/// fails.
pub fn merge_keys_serde(doc: AltValue) -> (r: Result<AltValue, MergeKeyError>)
    ensures
        match r {
            Ok(m) => merge_spec(spec_to_native(doc@)) matches Some(n) && m@ == spec_to_alternate(
                n,
            ),
            Err(e) => merge_spec(spec_to_native(doc@)) is None && e
                == MergeKeyError::InvalidMergeValue,
        },
{
    let native = to_native(&doc);
    match merge_keys(native) {
        Ok(m) => {
            proof {
                lemma_to_native_no_markers(doc@);
                lemma_merge_no_markers(spec_to_native(doc@), m@);
            }
            Ok(to_alternate(&m))
        },
        Err(e) => Err(e),
    }
}

/// Whether a native tree survives the round trip into the alternate model
/// and back unchanged: no markers, every textual real parses back to its own
/// text as a non-integer number, mappings have unique keys, and a mapping of
/// the smuggle shape stands in canonical order (tag entry first).
pub open spec fn native_round_trippable(v: ValueSpec) -> bool
    decreases v,
{
    match v {
        ValueSpec::Real(t) => spec_parse_number(t) == Some(NumValueSpec::Other(t)),
        ValueSpec::Array(elems) => forall|i: int|
            0 <= i < elems.len() ==> native_round_trippable(#[trigger] elems[i]),
        ValueSpec::Hash(es) => if smuggle_shape(es) {
            es[0].0 == ValueSpec::Str(tag_sentinel()) && native_round_trippable(es[1].1)
        } else {
            unique_keys(es) && forall|i: int|
                0 <= i < es.len() ==> native_round_trippable((#[trigger] es[i]).0)
                    && native_round_trippable(es[i].1)
        },
        ValueSpec::Alias(_) => false,
        ValueSpec::Bad => false,
        _ => true,
    }
}

/// Whether an alternate mapping's entries would cross into the native model
/// as a mapping of the smuggle shape.
pub open spec fn alt_smuggle_like(es: Seq<(AltValueSpec, AltValueSpec)>) -> bool {
    &&& es.len() == 2
    &&& {
        ||| (es[0].0 == AltValueSpec::Str(tag_sentinel()) && es[0].1 is Str && es[1].0
            == AltValueSpec::Str(value_sentinel()))
        ||| (es[1].0 == AltValueSpec::Str(tag_sentinel()) && es[1].1 is Str && es[0].0
            == AltValueSpec::Str(value_sentinel()))
    }
}

/// Whether an alternate tree survives the round trip into the native model
/// and back unchanged: every non-integer number's text parses back to
/// itself, mappings have unique keys and do not imitate the smuggle shape.
pub open spec fn alt_round_trippable(a: AltValueSpec) -> bool
    decreases a,
{
    match a {
        AltValueSpec::Number(NumValueSpec::Other(t)) => spec_parse_number(t) == Some(
            NumValueSpec::Other(t),
        ),
        AltValueSpec::Sequence(elems) => forall|i: int|
            0 <= i < elems.len() ==> alt_round_trippable(#[trigger] elems[i]),
        AltValueSpec::Mapping(es) => unique_keys(es) && !alt_smuggle_like(es) && forall|i: int|
            0 <= i < es.len() ==> alt_round_trippable((#[trigger] es[i]).0) && alt_round_trippable(
                es[i].1,
            ),
        AltValueSpec::Tagged(t, b) => alt_round_trippable(*b),
        _ => true,
    }
}

/// Only an alternate string converts to a native string.
proof fn lemma_native_str_inversion(x: AltValueSpec, s: Seq<char>)
    requires
        spec_to_native(x) == ValueSpec::Str(s),
    ensures
        x == AltValueSpec::Str(s),
{
    match x {
        AltValueSpec::Str(s2) => {
        },
        _ => {
        },
    }
}

/// Round trip of the bridge on native trees: a round-trippable tree comes
/// back from the alternate model unchanged.
pub proof fn lemma_native_round_trip(v: ValueSpec)
    requires
        native_round_trippable(v),
    ensures
        spec_to_native(spec_to_alternate(v)) == v,
    decreases v,
{
    match v {
        ValueSpec::Array(elems) => {
            let aps = alts_of(elems);
            assert forall|i: int| 0 <= i < elems.len() implies spec_to_native(
                #[trigger] aps[i],
            ) == elems[i] by {
                lemma_native_round_trip(elems[i]);
            }
            assert(natives_of(aps) =~= elems);
        },
        ValueSpec::Hash(es) => {
            if smuggle_shape(es) {
                lemma_sentinels_distinct();
                assert(es[0].0 == ValueSpec::Str(tag_sentinel()));
                assert(es[0].1 is Str && es[1].0 == ValueSpec::Str(value_sentinel()));
                lemma_native_round_trip(es[1].1);
                let back = spec_to_native(spec_to_alternate(v));
                assert(back is Hash);
                let bs = back->Hash_0;
                assert(bs.len() == 2);
                assert(bs[0] == (ValueSpec::Str(tag_sentinel()), ValueSpec::Str(
                    es[0].1->Str_0,
                )));
                assert(es[0].1 == ValueSpec::Str(es[0].1->Str_0));
                assert(bs[0] == es[0]);
                assert(bs[1] == es[1]);
                assert(bs =~= es);
            } else {
                let aps = alt_pairs_of(es);
                assert forall|i: int| 0 <= i < es.len() implies spec_to_native(
                    (#[trigger] aps[i]).0,
                ) == es[i].0 && spec_to_native(aps[i].1) == es[i].1 by {
                    lemma_native_round_trip(es[i].0);
                    lemma_native_round_trip(es[i].1);
                }
                assert forall|i: int, j: int| 0 <= i < j < aps.len() implies aps[i].0
                    != aps[j].0 by {
                    if aps[i].0 == aps[j].0 {
                        assert(es[i].0 == es[j].0);
                    }
                }
                crate::entries::lemma_collect_keep_id(aps);
                assert(spec_to_alternate(v) == AltValueSpec::Mapping(aps));
                assert(native_pairs_of(aps) =~= es);
                crate::entries::lemma_collect_pairs_id(es);
            }
        },
        _ => {
        },
    }
}

/// Round trip of the bridge on alternate trees: a round-trippable tree comes
/// back from the native model unchanged.
pub proof fn lemma_alternate_round_trip(a: AltValueSpec)
    requires
        alt_round_trippable(a),
    ensures
        spec_to_alternate(spec_to_native(a)) == a,
    decreases a,
{
    match a {
        AltValueSpec::Sequence(elems) => {
            let ns = natives_of(elems);
            assert forall|i: int| 0 <= i < elems.len() implies spec_to_alternate(
                #[trigger] ns[i],
            ) == elems[i] by {
                lemma_alternate_round_trip(elems[i]);
            }
            assert(alts_of(ns) =~= elems);
        },
        AltValueSpec::Mapping(es) => {
            lemma_sentinels_distinct();
            let nps = native_pairs_of(es);
            assert forall|i: int| 0 <= i < es.len() implies spec_to_alternate(
                (#[trigger] nps[i]).0,
            ) == es[i].0 && spec_to_alternate(nps[i].1) == es[i].1 by {
                lemma_alternate_round_trip(es[i].0);
                lemma_alternate_round_trip(es[i].1);
            }
            assert forall|i: int, j: int| 0 <= i < j < nps.len() implies nps[i].0
                != nps[j].0 by {
                if nps[i].0 == nps[j].0 {
                    assert(es[i].0 == es[j].0);
                }
            }
            crate::entries::lemma_collect_pairs_id(nps);
            assert(spec_to_native(a) == ValueSpec::Hash(nps));
            assert(!smuggle_shape(nps)) by {
                if smuggle_shape(nps) {
                    if nps[0].0 == ValueSpec::Str(tag_sentinel()) {
                        lemma_native_str_inversion(es[0].0, tag_sentinel());
                        lemma_native_str_inversion(es[1].0, value_sentinel());
                        let s = nps[0].1->Str_0;
                        lemma_native_str_inversion(es[0].1, s);
                    } else {
                        lemma_native_str_inversion(es[1].0, tag_sentinel());
                        lemma_native_str_inversion(es[0].0, value_sentinel());
                        let s = nps[1].1->Str_0;
                        lemma_native_str_inversion(es[1].1, s);
                    }
                }
            }
            let back = alt_pairs_of(nps);
            assert(back =~= es);
            crate::entries::lemma_collect_keep_id(es);
        },
        AltValueSpec::Tagged(t, b) => {
            lemma_alternate_round_trip(*b);
            let n = spec_to_native(a);
            assert(n is Hash);
            let ns = n->Hash_0;
            assert(ns.len() == 2);
            assert(ns[0] == (ValueSpec::Str(tag_sentinel()), ValueSpec::Str(t)));
            assert(ns[1] == (ValueSpec::Str(value_sentinel()), spec_to_native(*b)));
            assert(smuggle_shape(ns));
            assert(spec_to_alternate(n) == AltValueSpec::Tagged(
                t,
                Box::new(spec_to_alternate(spec_to_native(*b))),
            ));
        },
        _ => {
        },
    }
}

/// Tag round trip: a tagged alternate value whose wrapped value survives the
/// round trip is reconstructed exactly, tag and all, after crossing into the
/// native model and back.
pub proof fn lemma_tag_round_trip(tag: Seq<char>, a: AltValueSpec)
    requires
        alt_round_trippable(a),
    ensures
        spec_to_alternate(spec_to_native(AltValueSpec::Tagged(tag, Box::new(a))))
            == AltValueSpec::Tagged(tag, Box::new(a)),
{
    lemma_alternate_round_trip(AltValueSpec::Tagged(tag, Box::new(a)));
}

/// Whether no two entries of `es` have structurally equal keys.
fn has_unique_keys(es: &Vec<(Value, Value)>) -> (b: bool)
    ensures
        b == unique_keys(deep_pairs(es@)),
{
    let mut i: usize = 0;
    while i < es.len()
        invariant
            0 <= i <= es@.len(),
            forall|p: int, q: int| 0 <= p < q < i ==> view_of(es@[p].0) != view_of(es@[q].0),
        decreases es@.len() - i,
    {
        match find_key(es, &es[i].0) {
            Some(j) => {
                if j < i {
                    proof {
                        assert(deep_pairs(es@)[j as int].0 == deep_pairs(es@)[i as int].0);
                    }
                    return false;
                }
            },
            None => {
            },
        }
        i += 1;
    }
    proof {
        assert forall|p: int, q: int|
            0 <= p < q < deep_pairs(es@).len() implies (#[trigger] deep_pairs(es@)[p]).0 != (
        #[trigger] deep_pairs(es@)[q]).0 by {
            assert(view_of(es@[p].0) != view_of(es@[q].0));
        }
    }
    true
}

/// Whether no two entries of `es` have structurally equal keys.
fn has_unique_alt_keys(es: &Vec<(AltValue, AltValue)>) -> (b: bool)
    ensures
        b == unique_keys(deep_alt_pairs(es@)),
{
    let mut i: usize = 0;
    while i < es.len()
        invariant
            0 <= i <= es@.len(),
            forall|p: int, q: int| 0 <= p < q < i ==> view_of_alt(es@[p].0) != view_of_alt(
                es@[q].0,
            ),
        decreases es@.len() - i,
    {
        match find_alt_key(es, &es[i].0) {
            Some(j) => {
                if j < i {
                    proof {
                        assert(deep_alt_pairs(es@)[j as int].0 == deep_alt_pairs(
                            es@,
                        )[i as int].0);
                    }
                    return false;
                }
            },
            None => {
            },
        }
        i += 1;
    }
    proof {
        assert forall|p: int, q: int|
            0 <= p < q < deep_alt_pairs(es@).len() implies (#[trigger] deep_alt_pairs(
            es@,
        )[p]).0 != (#[trigger] deep_alt_pairs(es@)[q]).0 by {
            assert(view_of_alt(es@[p].0) != view_of_alt(es@[q].0));
        }
    }
    true
}

/// Decides whether a native tree survives the bridge round trip unchanged,
/// and carries the proof of the round trip for trees that do.
pub fn is_round_trippable(v: &Value) -> (b: bool)
    ensures
        b == native_round_trippable(v@),
        b ==> spec_to_native(spec_to_alternate(v@)) == v@,
    decreases *v,
{
    match v {
        Value::Real(t) => {
            let b = match parse_number(t) {
                Some(NumValue::Other(u)) => u == *t,
                _ => false,
            };
            proof {
                if b {
                    lemma_native_round_trip(v@);
                }
            }
            b
        },
        Value::Array(elems) => {
            proof {
                lemma_view_array(*elems);
            }
            let ghost ds = deep_seq(elems@);
            let mut i: usize = 0;
            while i < elems.len()
                invariant
                    0 <= i <= elems@.len(),
                    *v == Value::Array(*elems),
                    v@ == ValueSpec::Array(ds),
                    ds == deep_seq(elems@),
                    ds.len() == elems@.len(),
                    forall|j: int| 0 <= j < i ==> native_round_trippable(#[trigger] ds[j]),
                decreases elems@.len() - i,
            {
                proof {
                    assert(decreases_to!(*v => (*v)->Array_0));
                    assert((*v)->Array_0 == *elems);
                    assert(decreases_to!(*elems => elems@));
                    assert(decreases_to!(elems@ => elems@[i as int]));
                }
                if !is_round_trippable(&elems[i]) {
                    proof {
                        assert(!native_round_trippable(ds[i as int]));
                    }
                    return false;
                }
                i += 1;
            }
            proof {
                lemma_native_round_trip(v@);
            }
            true
        },
        Value::Hash(entries) => {
            proof {
                lemma_view_hash(*entries);
                lemma_sentinels_distinct();
            }
            let ghost dp = deep_pairs(entries@);
            if entries.len() == 2 {
                let tk = tag_key();
                let vk = value_key();
                if is_str_key(&entries[0].0, &tk) && is_str_key(&entries[1].0, &vk) {
                    if let Value::Str(_tag) = &entries[0].1 {
                        let b = is_round_trippable(&entries[1].1);
                        proof {
                            if b {
                                lemma_native_round_trip(v@);
                            }
                        }
                        return b;
                    }
                }
                if is_str_key(&entries[1].0, &tk) && is_str_key(&entries[0].0, &vk) {
                    if let Value::Str(_tag) = &entries[1].1 {
                        // the smuggle shape in non-canonical order does not
                        // survive the round trip: it comes back tag entry
                        // first
                        return false;
                    }
                }
            }
            if !has_unique_keys(entries) {
                return false;
            }
            let mut i: usize = 0;
            while i < entries.len()
                invariant
                    0 <= i <= entries@.len(),
                    *v == Value::Hash(*entries),
                    v@ == ValueSpec::Hash(dp),
                    dp == deep_pairs(entries@),
                    dp.len() == entries@.len(),
                    !smuggle_shape(dp),
                    unique_keys(dp),
                    forall|j: int|
                        0 <= j < i ==> native_round_trippable((#[trigger] dp[j]).0)
                            && native_round_trippable(dp[j].1),
                decreases entries@.len() - i,
            {
                proof {
                    assert(decreases_to!(*v => (*v)->Hash_0));
                    assert((*v)->Hash_0 == *entries);
                    assert(decreases_to!(*entries => entries@));
                    assert(decreases_to!(entries@ => entries@[i as int]));
                    assert(decreases_to!(entries@[i as int] => entries@[i as int].0));
                    assert(decreases_to!(entries@[i as int] => entries@[i as int].1));
                }
                let p = &entries[i];
                if !is_round_trippable(&p.0) {
                    proof {
                        assert(!native_round_trippable(dp[i as int].0));
                    }
                    return false;
                }
                if !is_round_trippable(&p.1) {
                    proof {
                        assert(!native_round_trippable(dp[i as int].1));
                    }
                    return false;
                }
                i += 1;
            }
            proof {
                lemma_native_round_trip(v@);
            }
            true
        },
        Value::Alias(_) => false,
        Value::Bad => false,
        _ => true,
    }
}

/// Decides whether an alternate tree survives the bridge round trip
/// unchanged, and carries the proof of the round trip for trees that do.
pub fn is_alt_round_trippable(a: &AltValue) -> (b: bool)
    ensures
        b == alt_round_trippable(a@),
        b ==> spec_to_alternate(spec_to_native(a@)) == a@,
    decreases *a,
{
    match a {
        AltValue::Number(NumValue::Other(t)) => {
            let b = match parse_number(t) {
                Some(NumValue::Other(u)) => u == *t,
                _ => false,
            };
            proof {
                if b {
                    lemma_alternate_round_trip(a@);
                }
            }
            b
        },
        AltValue::Sequence(elems) => {
            proof {
                lemma_view_sequence(*elems);
            }
            let ghost ds = deep_alt_seq(elems@);
            let mut i: usize = 0;
            while i < elems.len()
                invariant
                    0 <= i <= elems@.len(),
                    *a == AltValue::Sequence(*elems),
                    a@ == AltValueSpec::Sequence(ds),
                    ds == deep_alt_seq(elems@),
                    ds.len() == elems@.len(),
                    forall|j: int| 0 <= j < i ==> alt_round_trippable(#[trigger] ds[j]),
                decreases elems@.len() - i,
            {
                proof {
                    assert(decreases_to!(*a => (*a)->Sequence_0));
                    assert((*a)->Sequence_0 == *elems);
                    assert(decreases_to!(*elems => elems@));
                    assert(decreases_to!(elems@ => elems@[i as int]));
                }
                if !is_alt_round_trippable(&elems[i]) {
                    proof {
                        assert(!alt_round_trippable(ds[i as int]));
                    }
                    return false;
                }
                i += 1;
            }
            proof {
                lemma_alternate_round_trip(a@);
            }
            true
        },
        AltValue::Mapping(entries) => {
            proof {
                lemma_view_mapping(*entries);
                lemma_sentinels_distinct();
            }
            let ghost dp = deep_alt_pairs(entries@);
            if !has_unique_alt_keys(entries) {
                return false;
            }
            if entries.len() == 2 {
                let tk = tag_key();
                let vk = value_key();
                let o1 = is_alt_str_key(&entries[0].0, &tk) && matches!(
                    &entries[0].1,
                    AltValue::Str(_),
                ) && is_alt_str_key(&entries[1].0, &vk);
                let o2 = is_alt_str_key(&entries[1].0, &tk) && matches!(
                    &entries[1].1,
                    AltValue::Str(_),
                ) && is_alt_str_key(&entries[0].0, &vk);
                if o1 || o2 {
                    return false;
                }
            }
            let mut i: usize = 0;
            while i < entries.len()
                invariant
                    0 <= i <= entries@.len(),
                    *a == AltValue::Mapping(*entries),
                    a@ == AltValueSpec::Mapping(dp),
                    dp == deep_alt_pairs(entries@),
                    dp.len() == entries@.len(),
                    !alt_smuggle_like(dp),
                    unique_keys(dp),
                    forall|j: int|
                        0 <= j < i ==> alt_round_trippable((#[trigger] dp[j]).0)
                            && alt_round_trippable(dp[j].1),
                decreases entries@.len() - i,
            {
                proof {
                    assert(decreases_to!(*a => (*a)->Mapping_0));
                    assert((*a)->Mapping_0 == *entries);
                    assert(decreases_to!(*entries => entries@));
                    assert(decreases_to!(entries@ => entries@[i as int]));
                    assert(decreases_to!(entries@[i as int] => entries@[i as int].0));
                    assert(decreases_to!(entries@[i as int] => entries@[i as int].1));
                }
                let p = &entries[i];
                if !is_alt_round_trippable(&p.0) {
                    proof {
                        assert(!alt_round_trippable(dp[i as int].0));
                    }
                    return false;
                }
                if !is_alt_round_trippable(&p.1) {
                    proof {
                        assert(!alt_round_trippable(dp[i as int].1));
                    }
                    return false;
                }
                i += 1;
            }
            proof {
                lemma_alternate_round_trip(a@);
            }
            true
        },
        AltValue::Tagged(_t, b) => {
            let r = is_alt_round_trippable(b);
            proof {
                if r {
                    lemma_alternate_round_trip(a@);
                }
            }
            r
        },
        _ => true,
    }
}

/// Whether the value is the string holding the given sentinel key.
fn is_alt_str_key(v: &AltValue, sent: &String) -> (b: bool)
    ensures
        b == (v@ == AltValueSpec::Str(sent@)),
{
    match v {
        AltValue::Str(s) => *s == *sent,
        _ => false,
    }
}

} // verus!
