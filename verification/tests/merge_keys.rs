//! Merge-key resolution on the native value model.

use yaml_merge_keys::merge_keys;
use yaml_merge_keys::MergeKeyError;
use yaml_merge_keys::Value;

fn assert_yaml_idempotent(doc: Value) {
    assert_eq!(merge_keys(doc.clone()).unwrap(), doc);
}

fn merge_key() -> Value {
    Value::Str("<<".into())
}

fn yaml_hash(pairs: Vec<(Value, Value)>) -> Value {
    Value::Hash(pairs)
}

fn s(text: &str) -> Value {
    Value::Str(text.into())
}

#[test]
fn test_test_ignore_non_containers() {
    let null = Value::Null;
    let bool_true = Value::Bool(true);
    let bool_false = Value::Bool(false);
    let string = Value::Str("".into());
    let integer = Value::Int(1234);
    let real = Value::Real("0.02".into());

    assert_yaml_idempotent(null);
    assert_yaml_idempotent(bool_true);
    assert_yaml_idempotent(bool_false);
    assert_yaml_idempotent(string);
    assert_yaml_idempotent(integer);
    assert_yaml_idempotent(real);
}

#[test]
fn test_test_ignore_container_no_merge_keys() {
    let arr = Value::Array(vec![Value::Int(10), Value::Int(100)]);
    let hash = yaml_hash(vec![
        (Value::Int(10), Value::Null),
        (Value::Int(100), s("string")),
    ]);

    assert_yaml_idempotent(arr);
    assert_yaml_idempotent(hash);
}

#[test]
fn test_test_remove_merge_keys() {
    let hash = yaml_hash(vec![
        (merge_key(), yaml_hash(vec![])),
        (Value::Int(10), Value::Null),
        (Value::Int(100), s("string")),
    ]);
    let expected = yaml_hash(vec![
        (Value::Int(10), Value::Null),
        (Value::Int(100), s("string")),
    ]);

    assert_eq!(merge_keys(hash).unwrap(), expected);
}

#[test]
fn test_test_handle_merge_keys() {
    let hash = yaml_hash(vec![
        (merge_key(), yaml_hash(vec![(Value::Int(15), Value::Null)])),
        (Value::Int(10), Value::Null),
        (Value::Int(100), s("string")),
    ]);
    let expected = yaml_hash(vec![
        (Value::Int(10), Value::Null),
        (Value::Int(100), s("string")),
        (Value::Int(15), Value::Null),
    ]);

    assert_eq!(merge_keys(hash).unwrap(), expected);
}

#[test]
fn test_test_merge_key_precedence() {
    let hash = yaml_hash(vec![
        (merge_key(), yaml_hash(vec![(Value::Int(10), Value::Int(10))])),
        (Value::Int(10), Value::Null),
        (Value::Int(100), s("string")),
    ]);
    let expected = yaml_hash(vec![
        (Value::Int(10), Value::Null),
        (Value::Int(100), s("string")),
    ]);

    assert_eq!(merge_keys(hash).unwrap(), expected);
}

#[test]
fn test_test_merge_key_array() {
    let hash = yaml_hash(vec![
        (
            merge_key(),
            Value::Array(vec![
                yaml_hash(vec![(Value::Int(15), Value::Int(10))]),
                yaml_hash(vec![(Value::Int(20), Value::Int(10))]),
            ]),
        ),
        (Value::Int(10), Value::Null),
        (Value::Int(100), s("string")),
    ]);
    let expected = yaml_hash(vec![
        (Value::Int(10), Value::Null),
        (Value::Int(100), s("string")),
        (Value::Int(15), Value::Int(10)),
        (Value::Int(20), Value::Int(10)),
    ]);

    assert_eq!(merge_keys(hash).unwrap(), expected);
}

#[test]
fn test_test_merge_key_array_precedence() {
    let hash = yaml_hash(vec![
        (
            merge_key(),
            Value::Array(vec![
                yaml_hash(vec![(Value::Int(15), Value::Int(10))]),
                yaml_hash(vec![(Value::Int(15), Value::Int(20))]),
            ]),
        ),
        (Value::Int(10), Value::Null),
        (Value::Int(100), s("string")),
    ]);
    let expected = yaml_hash(vec![
        (Value::Int(10), Value::Null),
        (Value::Int(100), s("string")),
        (Value::Int(15), Value::Int(10)),
    ]);

    assert_eq!(merge_keys(hash).unwrap(), expected);
}

#[test]
fn test_test_merge_key_nested_array() {
    let hash = Value::Array(vec![yaml_hash(vec![
        (
            merge_key(),
            Value::Array(vec![
                yaml_hash(vec![(Value::Int(15), Value::Int(10))]),
                yaml_hash(vec![(Value::Int(15), Value::Int(20))]),
            ]),
        ),
        (Value::Int(10), Value::Null),
        (Value::Int(100), s("string")),
    ])]);
    let expected = Value::Array(vec![yaml_hash(vec![
        (Value::Int(10), Value::Null),
        (Value::Int(100), s("string")),
        (Value::Int(15), Value::Int(10)),
    ])]);

    assert_eq!(merge_keys(hash).unwrap(), expected);
}

#[test]
fn test_test_merge_key_nested_hash_value() {
    let hash = yaml_hash(vec![(
        Value::Null,
        yaml_hash(vec![
            (
                merge_key(),
                Value::Array(vec![
                    yaml_hash(vec![(Value::Int(15), Value::Int(10))]),
                    yaml_hash(vec![(Value::Int(15), Value::Int(20))]),
                ]),
            ),
            (Value::Int(10), Value::Null),
            (Value::Int(100), s("string")),
        ]),
    )]);
    let expected = yaml_hash(vec![(
        Value::Null,
        yaml_hash(vec![
            (Value::Int(10), Value::Null),
            (Value::Int(100), s("string")),
            (Value::Int(15), Value::Int(10)),
        ]),
    )]);

    assert_eq!(merge_keys(hash).unwrap(), expected);
}

#[test]
fn test_test_merge_key_nested_hash_key() {
    let hash = yaml_hash(vec![(
        yaml_hash(vec![
            (
                merge_key(),
                Value::Array(vec![
                    yaml_hash(vec![(Value::Int(15), Value::Int(10))]),
                    yaml_hash(vec![(Value::Int(15), Value::Int(20))]),
                ]),
            ),
            (Value::Int(10), Value::Null),
            (Value::Int(100), s("string")),
        ]),
        Value::Null,
    )]);
    let expected = yaml_hash(vec![(
        yaml_hash(vec![
            (Value::Int(10), Value::Null),
            (Value::Int(100), s("string")),
            (Value::Int(15), Value::Int(10)),
        ]),
        Value::Null,
    )]);

    assert_eq!(merge_keys(hash).unwrap(), expected);
}

#[test]
fn test_test_yaml_spec_examples() {
    let center = yaml_hash(vec![
        (s("x"), Value::Int(1)),
        (s("y"), Value::Int(2)),
    ]);
    let left = yaml_hash(vec![
        (s("x"), Value::Int(0)),
        (s("y"), Value::Int(2)),
    ]);
    let big = yaml_hash(vec![(s("r"), Value::Int(10))]);
    let small = yaml_hash(vec![(s("r"), Value::Int(1))]);

    let explicit = yaml_hash(vec![
        (s("x"), Value::Int(1)),
        (s("y"), Value::Int(2)),
        (s("r"), Value::Int(10)),
        (s("label"), s("center/big")),
    ]);
    let explicit_ordered = yaml_hash(vec![
        (s("r"), Value::Int(10)),
        (s("label"), s("center/big")),
        (s("x"), Value::Int(1)),
        (s("y"), Value::Int(2)),
    ]);
    let explicit_ordered_overrides = yaml_hash(vec![
        (s("x"), Value::Int(1)),
        (s("label"), s("center/big")),
        (s("r"), Value::Int(10)),
        (s("y"), Value::Int(2)),
    ]);
    let merge_one_map = yaml_hash(vec![
        (merge_key(), center.clone()),
        (s("r"), Value::Int(10)),
        (s("label"), s("center/big")),
    ]);
    let merge_multiple_maps = yaml_hash(vec![
        (merge_key(), Value::Array(vec![center, big.clone()])),
        (s("r"), Value::Int(10)),
        (s("label"), s("center/big")),
    ]);
    let overrides = yaml_hash(vec![
        (merge_key(), Value::Array(vec![big, left, small])),
        (s("x"), Value::Int(1)),
        (s("label"), s("center/big")),
    ]);

    assert_eq!(merge_keys(explicit.clone()).unwrap(), explicit);
    assert_eq!(merge_keys(merge_one_map).unwrap(), explicit_ordered);
    assert_eq!(merge_keys(merge_multiple_maps).unwrap(), explicit_ordered);
    assert_eq!(merge_keys(overrides).unwrap(), explicit_ordered_overrides);
}

fn assert_is_error(doc: Value) {
    let err = merge_keys(doc).unwrap_err();
    assert!(matches!(err, MergeKeyError::InvalidMergeValue));
}

#[test]
fn test_test_invalid_merge_key_values() {
    let merge_null = yaml_hash(vec![(merge_key(), Value::Null)]);
    let merge_bool = yaml_hash(vec![(merge_key(), Value::Bool(false))]);
    let merge_string = yaml_hash(vec![(merge_key(), s(""))]);
    let merge_integer = yaml_hash(vec![(merge_key(), Value::Int(0))]);
    let merge_real = yaml_hash(vec![(merge_key(), Value::Real("0.02".into()))]);

    assert_is_error(merge_null);
    assert_is_error(merge_bool);
    assert_is_error(merge_string);
    assert_is_error(merge_integer);
    assert_is_error(merge_real);
}

#[test]
fn test_test_invalid_merge_key_array_values() {
    let merge_null = yaml_hash(vec![(merge_key(), Value::Array(vec![Value::Null]))]);
    let merge_bool = yaml_hash(vec![(merge_key(), Value::Array(vec![Value::Bool(false)]))]);
    let merge_string = yaml_hash(vec![(merge_key(), Value::Array(vec![s("")]))]);
    let merge_integer = yaml_hash(vec![(merge_key(), Value::Array(vec![Value::Int(0)]))]);
    let merge_real = yaml_hash(vec![(
        merge_key(),
        Value::Array(vec![Value::Real("0.02".into())]),
    )]);

    assert_is_error(merge_null);
    assert_is_error(merge_bool);
    assert_is_error(merge_string);
    assert_is_error(merge_integer);
    assert_is_error(merge_real);
}

#[test]
fn test_merge_is_idempotent_on_results() {
    let doc = yaml_hash(vec![
        (
            merge_key(),
            Value::Array(vec![
                yaml_hash(vec![(Value::Int(15), Value::Int(10))]),
                yaml_hash(vec![(Value::Int(15), Value::Int(20))]),
            ]),
        ),
        (Value::Int(10), Value::Null),
    ]);
    let once = merge_keys(doc).unwrap();
    let twice = merge_keys(once.clone()).unwrap();
    assert_eq!(twice, once);
}

#[test]
fn test_opaque_markers_pass_through() {
    assert_yaml_idempotent(Value::Alias(3));
    assert_yaml_idempotent(Value::Bad);
    let hash = yaml_hash(vec![
        (merge_key(), yaml_hash(vec![(s("a"), Value::Alias(7))])),
        (s("b"), Value::Bad),
    ]);
    let expected = yaml_hash(vec![
        (s("b"), Value::Bad),
        (s("a"), Value::Alias(7)),
    ]);
    assert_eq!(merge_keys(hash).unwrap(), expected);
}

#[test]
fn test_keys_that_merge_equal_collapse() {
    // two distinct keys that become equal once their own merge keys are
    // expanded collapse into one entry: the last value wins and the entry
    // moves to the back, as an insertion-ordered map inserts
    let key_with_merge = yaml_hash(vec![
        (merge_key(), yaml_hash(vec![])),
        (s("a"), Value::Int(1)),
    ]);
    let key_plain = yaml_hash(vec![(s("a"), Value::Int(1))]);
    let doc = yaml_hash(vec![
        (key_with_merge, s("x")),
        (s("z"), Value::Null),
        (key_plain.clone(), s("y")),
    ]);
    let expected = yaml_hash(vec![(s("z"), Value::Null), (key_plain, s("y"))]);
    assert_eq!(merge_keys(doc).unwrap(), expected);
}

#[test]
fn test_merge_key_inside_merge_source_is_expanded() {
    // the value attached to the merge key is itself merged first
    let inner = yaml_hash(vec![
        (merge_key(), yaml_hash(vec![(s("a"), Value::Int(1))])),
        (s("b"), Value::Int(2)),
    ]);
    let hash = yaml_hash(vec![
        (merge_key(), inner),
        (s("c"), Value::Int(3)),
    ]);
    let expected = yaml_hash(vec![
        (s("c"), Value::Int(3)),
        (s("b"), Value::Int(2)),
        (s("a"), Value::Int(1)),
    ]);
    assert_eq!(merge_keys(hash).unwrap(), expected);
}
