//! Merge-key resolution through the bridge, on the alternate value model.

use yaml_merge_keys::merge_keys_serde;
use yaml_merge_keys::AltValue;
use yaml_merge_keys::NumValue;

fn assert_yaml_idempotent(doc: AltValue) {
    assert_eq!(merge_keys_serde(doc.clone()).unwrap(), doc);
}

fn merge_key() -> AltValue {
    AltValue::Str("<<".into())
}

fn yaml_hash(pairs: Vec<(AltValue, AltValue)>) -> AltValue {
    AltValue::Mapping(pairs)
}

fn n(i: i64) -> AltValue {
    AltValue::Number(NumValue::Int(i))
}

fn s(text: &str) -> AltValue {
    AltValue::Str(text.into())
}

#[test]
fn test_serde_test_ignore_non_containers() {
    let null = AltValue::Null;
    let bool_true = AltValue::Bool(true);
    let bool_false = AltValue::Bool(false);
    let string = AltValue::Str("".into());
    let integer = n(1234);
    let real = AltValue::Number(NumValue::Other("0.02".into()));

    assert_yaml_idempotent(null);
    assert_yaml_idempotent(bool_true);
    assert_yaml_idempotent(bool_false);
    assert_yaml_idempotent(string);
    assert_yaml_idempotent(integer);
    assert_yaml_idempotent(real);
}

#[test]
fn test_serde_test_ignore_container_no_merge_keys() {
    let arr = AltValue::Sequence(vec![n(10), n(100)]);
    let hash = yaml_hash(vec![(n(10), AltValue::Null), (n(100), s("string"))]);

    assert_yaml_idempotent(arr);
    assert_yaml_idempotent(hash);
}

#[test]
fn test_serde_test_remove_merge_keys() {
    let hash = yaml_hash(vec![
        (merge_key(), yaml_hash(vec![])),
        (n(10), AltValue::Null),
        (n(100), s("string")),
    ]);
    let expected = yaml_hash(vec![(n(10), AltValue::Null), (n(100), s("string"))]);

    assert_eq!(merge_keys_serde(hash).unwrap(), expected);
}

#[test]
fn test_serde_test_handle_merge_keys() {
    let hash = yaml_hash(vec![
        (merge_key(), yaml_hash(vec![(n(15), AltValue::Null)])),
        (n(10), AltValue::Null),
        (n(100), s("string")),
    ]);
    let expected = yaml_hash(vec![
        (n(10), AltValue::Null),
        (n(100), s("string")),
        (n(15), AltValue::Null),
    ]);

    assert_eq!(merge_keys_serde(hash).unwrap(), expected);
}

#[test]
fn test_serde_test_merge_key_precedence() {
    let hash = yaml_hash(vec![
        (merge_key(), yaml_hash(vec![(n(10), n(10))])),
        (n(10), AltValue::Null),
        (n(100), s("string")),
    ]);
    let expected = yaml_hash(vec![(n(10), AltValue::Null), (n(100), s("string"))]);

    assert_eq!(merge_keys_serde(hash).unwrap(), expected);
}

#[test]
fn test_serde_test_merge_key_array() {
    let hash = yaml_hash(vec![
        (
            merge_key(),
            AltValue::Sequence(vec![
                yaml_hash(vec![(n(15), n(10))]),
                yaml_hash(vec![(n(20), n(10))]),
            ]),
        ),
        (n(10), AltValue::Null),
        (n(100), s("string")),
    ]);
    let expected = yaml_hash(vec![
        (n(10), AltValue::Null),
        (n(100), s("string")),
        (n(15), n(10)),
        (n(20), n(10)),
    ]);

    assert_eq!(merge_keys_serde(hash).unwrap(), expected);
}

#[test]
fn test_serde_test_merge_key_array_precedence() {
    let hash = yaml_hash(vec![
        (
            merge_key(),
            AltValue::Sequence(vec![
                yaml_hash(vec![(n(15), n(10))]),
                yaml_hash(vec![(n(15), n(20))]),
            ]),
        ),
        (n(10), AltValue::Null),
        (n(100), s("string")),
    ]);
    let expected = yaml_hash(vec![
        (n(10), AltValue::Null),
        (n(100), s("string")),
        (n(15), n(10)),
    ]);

    assert_eq!(merge_keys_serde(hash).unwrap(), expected);
}

#[test]
fn test_serde_test_merge_key_nested_array() {
    let hash = AltValue::Sequence(vec![yaml_hash(vec![
        (
            merge_key(),
            AltValue::Sequence(vec![
                yaml_hash(vec![(n(15), n(10))]),
                yaml_hash(vec![(n(15), n(20))]),
            ]),
        ),
        (n(10), AltValue::Null),
        (n(100), s("string")),
    ])]);
    let expected = AltValue::Sequence(vec![yaml_hash(vec![
        (n(10), AltValue::Null),
        (n(100), s("string")),
        (n(15), n(10)),
    ])]);

    assert_eq!(merge_keys_serde(hash).unwrap(), expected);
}

#[test]
fn test_serde_test_merge_key_nested_hash_value() {
    let hash = yaml_hash(vec![(
        AltValue::Null,
        yaml_hash(vec![
            (
                merge_key(),
                AltValue::Sequence(vec![
                    yaml_hash(vec![(n(15), n(10))]),
                    yaml_hash(vec![(n(15), n(20))]),
                ]),
            ),
            (n(10), AltValue::Null),
            (n(100), s("string")),
        ]),
    )]);
    let expected = yaml_hash(vec![(
        AltValue::Null,
        yaml_hash(vec![
            (n(10), AltValue::Null),
            (n(100), s("string")),
            (n(15), n(10)),
        ]),
    )]);

    assert_eq!(merge_keys_serde(hash).unwrap(), expected);
}

#[test]
fn test_serde_test_merge_key_nested_hash_key() {
    let hash = yaml_hash(vec![(
        yaml_hash(vec![
            (
                merge_key(),
                AltValue::Sequence(vec![
                    yaml_hash(vec![(n(15), n(10))]),
                    yaml_hash(vec![(n(15), n(20))]),
                ]),
            ),
            (n(10), AltValue::Null),
            (n(100), s("string")),
        ]),
        AltValue::Null,
    )]);
    let expected = yaml_hash(vec![(
        yaml_hash(vec![
            (n(10), AltValue::Null),
            (n(100), s("string")),
            (n(15), n(10)),
        ]),
        AltValue::Null,
    )]);

    assert_eq!(merge_keys_serde(hash).unwrap(), expected);
}

#[test]
fn test_serde_test_yaml_spec_examples() {
    let center = yaml_hash(vec![(s("x"), n(1)), (s("y"), n(2))]);
    let left = yaml_hash(vec![(s("x"), n(0)), (s("y"), n(2))]);
    let big = yaml_hash(vec![(s("r"), n(10))]);
    let small = yaml_hash(vec![(s("r"), n(1))]);

    let explicit = yaml_hash(vec![
        (s("x"), n(1)),
        (s("y"), n(2)),
        (s("r"), n(10)),
        (s("label"), s("center/big")),
    ]);
    let explicit_ordered = yaml_hash(vec![
        (s("r"), n(10)),
        (s("label"), s("center/big")),
        (s("x"), n(1)),
        (s("y"), n(2)),
    ]);
    let explicit_ordered_overrides = yaml_hash(vec![
        (s("x"), n(1)),
        (s("label"), s("center/big")),
        (s("r"), n(10)),
        (s("y"), n(2)),
    ]);
    let merge_one_map = yaml_hash(vec![
        (merge_key(), center.clone()),
        (s("r"), n(10)),
        (s("label"), s("center/big")),
    ]);
    let merge_multiple_maps = yaml_hash(vec![
        (merge_key(), AltValue::Sequence(vec![center, big.clone()])),
        (s("r"), n(10)),
        (s("label"), s("center/big")),
    ]);
    let overrides = yaml_hash(vec![
        (merge_key(), AltValue::Sequence(vec![big, left, small])),
        (s("x"), n(1)),
        (s("label"), s("center/big")),
    ]);

    assert_eq!(merge_keys_serde(explicit.clone()).unwrap(), explicit);
    assert_eq!(merge_keys_serde(merge_one_map).unwrap(), explicit_ordered);
    assert_eq!(merge_keys_serde(merge_multiple_maps).unwrap(), explicit_ordered);
    assert_eq!(merge_keys_serde(overrides).unwrap(), explicit_ordered_overrides);
}

fn assert_is_error(doc: AltValue) {
    let _ = merge_keys_serde(doc).unwrap_err();
}

#[test]
fn test_serde_test_invalid_merge_key_values() {
    let merge_null = yaml_hash(vec![(merge_key(), AltValue::Null)]);
    let merge_bool = yaml_hash(vec![(merge_key(), AltValue::Bool(false))]);
    let merge_string = yaml_hash(vec![(merge_key(), s(""))]);
    let merge_integer = yaml_hash(vec![(merge_key(), n(0))]);
    let merge_real = yaml_hash(vec![(
        merge_key(),
        AltValue::Number(NumValue::Other("0.02".into())),
    )]);

    assert_is_error(merge_null);
    assert_is_error(merge_bool);
    assert_is_error(merge_string);
    assert_is_error(merge_integer);
    assert_is_error(merge_real);
}

#[test]
fn test_serde_test_invalid_merge_key_array_values() {
    let merge_null = yaml_hash(vec![(merge_key(), AltValue::Sequence(vec![AltValue::Null]))]);
    let merge_bool = yaml_hash(vec![(
        merge_key(),
        AltValue::Sequence(vec![AltValue::Bool(false)]),
    )]);
    let merge_string = yaml_hash(vec![(merge_key(), AltValue::Sequence(vec![s("")]))]);
    let merge_integer = yaml_hash(vec![(merge_key(), AltValue::Sequence(vec![n(0)]))]);
    let merge_real = yaml_hash(vec![(
        merge_key(),
        AltValue::Sequence(vec![AltValue::Number(NumValue::Other("0.02".into()))]),
    )]);

    assert_is_error(merge_null);
    assert_is_error(merge_bool);
    assert_is_error(merge_string);
    assert_is_error(merge_integer);
    assert_is_error(merge_real);
}

#[test]
fn test_serde_merge_preserves_tagged_values() {
    let tagged = AltValue::Tagged(
        "mytag".into(),
        Box::new(yaml_hash(vec![(s("a"), n(1))])),
    );
    let hash = yaml_hash(vec![
        (merge_key(), yaml_hash(vec![(s("t"), tagged.clone())])),
        (s("b"), n(2)),
    ]);
    let expected = yaml_hash(vec![(s("b"), n(2)), (s("t"), tagged)]);
    assert_eq!(merge_keys_serde(hash).unwrap(), expected);
}
