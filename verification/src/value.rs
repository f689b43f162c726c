//! The tree model of YAML values: an exec type `Value` and its mathematical
//! abstraction `ValueSpec`, related by a deep view.

use vstd::prelude::*;

verus! {

/// Mathematical model of a YAML value tree.
///
/// Mappings are modelled as insertion-ordered sequences of key/value pairs;
/// well-formed mappings have structurally distinct keys (see
/// [`crate::laws::wf_spec`]).
#[verifier::ext_equal]
pub enum ValueSpec {
    /// The null scalar.
    Null,
    /// A boolean scalar.
    Bool(bool),
    /// An integer scalar.
    Int(int),
    /// A non-integer numeric scalar, kept in its original textual form.
    Real(Seq<char>),
    /// A string scalar.
    Str(Seq<char>),
    /// An ordered sequence of values.
    Array(Seq<ValueSpec>),
    /// An insertion-ordered mapping from value keys to value entries.
    Hash(Seq<(ValueSpec, ValueSpec)>),
    /// An opaque unresolved-reference marker, forwarded unchanged.
    Alias(nat),
    /// An opaque malformed-parse marker, forwarded unchanged.
    Bad,
}

/// A YAML value tree, with insertion-ordered mappings.
///
/// Mirrors what an upstream parser produces: scalars, sequences, mappings
/// whose iteration order is insertion order, and two opaque markers for
/// unresolved references and malformed parses.
#[derive(Debug)]
pub enum Value {
    /// The null scalar.
    Null,
    /// A boolean scalar.
    Bool(bool),
    /// An integer scalar.
    Int(i64),
    /// A non-integer numeric scalar, kept in its original textual form.
    Real(String),
    /// A string scalar.
    Str(String),
    /// An ordered sequence of values.
    Array(Vec<Value>),
    /// An insertion-ordered mapping, a sequence of key/value pairs.
    Hash(Vec<(Value, Value)>),
    /// An opaque unresolved-reference marker, forwarded unchanged.
    Alias(usize),
    /// An opaque malformed-parse marker, forwarded unchanged.
    Bad,
}

/// The deep view of a [`Value`] as a [`ValueSpec`].
pub open spec fn view_of(v: Value) -> ValueSpec
    decreases v,
{
    match v {
        Value::Null => ValueSpec::Null,
        Value::Bool(b) => ValueSpec::Bool(b),
        Value::Int(i) => ValueSpec::Int(i as int),
        Value::Real(s) => ValueSpec::Real(s@),
        Value::Str(s) => ValueSpec::Str(s@),
        Value::Array(elems) => ValueSpec::Array(
            Seq::new(
                elems@.len(),
                |i: int|
                    if 0 <= i < elems@.len() {
                        view_of(elems@[i])
                    } else {
                        ValueSpec::Null
                    },
            ),
        ),
        Value::Hash(entries) => ValueSpec::Hash(
            Seq::new(
                entries@.len(),
                |i: int|
                    if 0 <= i < entries@.len() {
                        (view_of(entries@[i].0), view_of(entries@[i].1))
                    } else {
                        (ValueSpec::Null, ValueSpec::Null)
                    },
            ),
        ),
        Value::Alias(a) => ValueSpec::Alias(a as nat),
        Value::Bad => ValueSpec::Bad,
    }
}

impl View for Value {
    type V = ValueSpec;

    open spec fn view(&self) -> ValueSpec {
        view_of(*self)
    }
}

/// The deep views of a sequence of values, element by element.
pub open spec fn deep_seq(s: Seq<Value>) -> Seq<ValueSpec> {
    Seq::new(s.len(), |i: int| view_of(s[i]))
}

/// The deep views of a sequence of key/value pairs, pair by pair.
pub open spec fn deep_pairs(s: Seq<(Value, Value)>) -> Seq<(ValueSpec, ValueSpec)> {
    Seq::new(s.len(), |i: int| (view_of(s[i].0), view_of(s[i].1)))
}

/// The view of a sequence value is the sequence of the element views.
pub broadcast proof fn lemma_view_array(elems: Vec<Value>)
    ensures
        #[trigger] view_of(Value::Array(elems)) == ValueSpec::Array(deep_seq(elems@)),
{
    let va = view_of(Value::Array(elems));
    assert(va is Array);
    assert(va->Array_0 =~= deep_seq(elems@));
    assert(va == ValueSpec::Array(va->Array_0));
}

/// The view of a mapping value is the sequence of the entry views.
pub broadcast proof fn lemma_view_hash(entries: Vec<(Value, Value)>)
    ensures
        #[trigger] view_of(Value::Hash(entries)) == ValueSpec::Hash(deep_pairs(entries@)),
{
    let vh = view_of(Value::Hash(entries));
    assert(vh is Hash);
    assert(vh->Hash_0 =~= deep_pairs(entries@));
    assert(vh == ValueSpec::Hash(vh->Hash_0));
}

/// Structural equality of two value trees, decided recursively.
pub fn eq_value(a: &Value, b: &Value) -> (r: bool)
    ensures
        r == (a@ == b@),
    decreases *a,
{
    match (a, b) {
        (Value::Null, Value::Null) => true,
        (Value::Bool(x), Value::Bool(y)) => *x == *y,
        (Value::Int(x), Value::Int(y)) => *x == *y,
        (Value::Real(x), Value::Real(y)) => *x == *y,
        (Value::Str(x), Value::Str(y)) => *x == *y,
        (Value::Array(xs), Value::Array(ys)) => {
            proof {
                lemma_view_array(*xs);
                lemma_view_array(*ys);
            }
            eq_array(xs, ys)
        },
        (Value::Hash(xs), Value::Hash(ys)) => {
            proof {
                lemma_view_hash(*xs);
                lemma_view_hash(*ys);
            }
            eq_pairs(xs, ys)
        },
        (Value::Alias(x), Value::Alias(y)) => *x == *y,
        (Value::Bad, Value::Bad) => true,
        _ => false,
    }
}

/// Elementwise structural equality of two sequences of values.
fn eq_array(xs: &Vec<Value>, ys: &Vec<Value>) -> (r: bool)
    ensures
        r == (deep_seq(xs@) == deep_seq(ys@)),
    decreases xs@,
{
    if xs.len() != ys.len() {
        assert(deep_seq(xs@).len() != deep_seq(ys@).len());
        return false;
    }
    let mut i: usize = 0;
    while i < xs.len()
        invariant
            0 <= i <= xs@.len(),
            xs@.len() == ys@.len(),
            forall|j: int| 0 <= j < i ==> view_of(xs@[j]) == view_of(ys@[j]),
        decreases xs@.len() - i,
    {
        if !eq_value(&xs[i], &ys[i]) {
            assert(deep_seq(xs@)[i as int] != deep_seq(ys@)[i as int]);
            return false;
        }
        i += 1;
    }
    proof {
        assert(deep_seq(xs@) =~= deep_seq(ys@));
    }
    true
}

/// Pairwise structural equality of two sequences of key/value pairs.
fn eq_pairs(xs: &Vec<(Value, Value)>, ys: &Vec<(Value, Value)>) -> (r: bool)
    ensures
        r == (deep_pairs(xs@) == deep_pairs(ys@)),
    decreases xs@,
{
    if xs.len() != ys.len() {
        assert(deep_pairs(xs@).len() != deep_pairs(ys@).len());
        return false;
    }
    let mut i: usize = 0;
    while i < xs.len()
        invariant
            0 <= i <= xs@.len(),
            xs@.len() == ys@.len(),
            forall|j: int| 0 <= j < i ==> view_of(xs@[j].0) == view_of(ys@[j].0) && view_of(
                xs@[j].1,
            ) == view_of(ys@[j].1),
        decreases xs@.len() - i,
    {
        let xp = &xs[i];
        let yp = &ys[i];
        if !eq_value(&xp.0, &yp.0) {
            assert(deep_pairs(xs@)[i as int] != deep_pairs(ys@)[i as int]);
            return false;
        }
        if !eq_value(&xp.1, &yp.1) {
            assert(deep_pairs(xs@)[i as int] != deep_pairs(ys@)[i as int]);
            return false;
        }
        i += 1;
    }
    proof {
        assert(deep_pairs(xs@) =~= deep_pairs(ys@));
    }
    true
}

/// A structural copy of a value tree.
pub(crate) fn clone_value(v: &Value) -> (r: Value)
    ensures
        r@ == v@,
    decreases *v,
{
    match v {
        Value::Null => Value::Null,
        Value::Bool(b) => Value::Bool(*b),
        Value::Int(i) => Value::Int(*i),
        Value::Real(s) => Value::Real(s.clone()),
        Value::Str(s) => Value::Str(s.clone()),
        Value::Array(elems) => {
            let out = clone_array(elems);
            proof {
                lemma_view_array(*elems);
                lemma_view_array(out);
            }
            Value::Array(out)
        },
        Value::Hash(entries) => {
            let out = clone_pairs(entries);
            proof {
                lemma_view_hash(*entries);
                lemma_view_hash(out);
            }
            Value::Hash(out)
        },
        Value::Alias(a) => Value::Alias(*a),
        Value::Bad => Value::Bad,
    }
}

/// An elementwise structural copy of a sequence of values.
fn clone_array(xs: &Vec<Value>) -> (r: Vec<Value>)
    ensures
        deep_seq(r@) == deep_seq(xs@),
        r@.len() == xs@.len(),
    decreases xs@,
{
    let mut out: Vec<Value> = Vec::new();
    let mut i: usize = 0;
    while i < xs.len()
        invariant
            0 <= i <= xs@.len(),
            out@.len() == i,
            forall|j: int| 0 <= j < i ==> view_of(out@[j]) == view_of(xs@[j]),
        decreases xs@.len() - i,
    {
        out.push(clone_value(&xs[i]));
        i += 1;
    }
    proof {
        assert(deep_seq(out@) =~= deep_seq(xs@));
    }
    out
}

/// A pairwise structural copy of a sequence of key/value pairs.
fn clone_pairs(xs: &Vec<(Value, Value)>) -> (r: Vec<(Value, Value)>)
    ensures
        deep_pairs(r@) == deep_pairs(xs@),
        r@.len() == xs@.len(),
    decreases xs@,
{
    let mut out: Vec<(Value, Value)> = Vec::new();
    let mut i: usize = 0;
    while i < xs.len()
        invariant
            0 <= i <= xs@.len(),
            out@.len() == i,
            forall|j: int| 0 <= j < i ==> view_of(out@[j].0) == view_of(xs@[j].0) && view_of(
                out@[j].1,
            ) == view_of(xs@[j].1),
        decreases xs@.len() - i,
    {
        let p = &xs[i];
        let k = clone_value(&p.0);
        let v = clone_value(&p.1);
        out.push((k, v));
        i += 1;
    }
    proof {
        assert(deep_pairs(out@) =~= deep_pairs(xs@));
    }
    out
}

impl Clone for Value {
    /// Cloning preserves the tree's view exactly.
    fn clone(&self) -> (r: Value)
        ensures
            r@ == self@,
    {
        clone_value(self)
    }
}

impl PartialEq for Value {
    fn eq(&self, other: &Value) -> (r: bool) {
        eq_value(self, other)
    }
}

impl vstd::std_specs::cmp::PartialEqSpecImpl for Value {
    open spec fn obeys_eq_spec() -> bool {
        true
    }

    open spec fn eq_spec(&self, other: &Value) -> bool {
        self@ == other@
    }
}

} // verus!
