//! The bridge's conversions: numbers, tag smuggling, and round trips.

use yaml_merge_keys::bridge::is_alt_round_trippable;
use yaml_merge_keys::bridge::is_round_trippable;
use yaml_merge_keys::to_alternate;
use yaml_merge_keys::to_native;
use yaml_merge_keys::AltValue;
use yaml_merge_keys::NumValue;
use yaml_merge_keys::Value;

const TAG_KEY: &str = "70235535-46bb-46f9-b535-31596b77733f";
const VALUE_KEY: &str = "b5282e53-aaaf-4f67-a0b5-d5bb3bd0d4d2";

#[test]
fn test_real_text_parses_to_number() {
    // a textual real that denotes an integer becomes an alternate integer
    assert_eq!(
        to_alternate(&Value::Real("7".into())),
        AltValue::Number(NumValue::Int(7))
    );
    // a non-integer number keeps its canonical text
    assert_eq!(
        to_alternate(&Value::Real("0.02".into())),
        AltValue::Number(NumValue::Other("0.02".into()))
    );
    // a text that is not a number falls back to a plain string
    assert_eq!(
        to_alternate(&Value::Real("zero point two".into())),
        AltValue::Str("zero point two".into())
    );
}

#[test]
fn test_number_conversion_to_native() {
    assert_eq!(to_native(&AltValue::Number(NumValue::Int(7))), Value::Int(7));
    assert_eq!(
        to_native(&AltValue::Number(NumValue::Other("0.02".into()))),
        Value::Real("0.02".into())
    );
}

#[test]
fn test_tagged_value_smuggles_as_two_entry_mapping() {
    let tagged = AltValue::Tagged("mytag".into(), Box::new(AltValue::Bool(true)));
    let native = to_native(&tagged);
    let expected = Value::Hash(vec![
        (Value::Str(TAG_KEY.into()), Value::Str("mytag".into())),
        (Value::Str(VALUE_KEY.into()), Value::Bool(true)),
    ]);
    assert_eq!(native, expected);
}

#[test]
fn test_tag_round_trip() {
    let tagged = AltValue::Tagged(
        "t".into(),
        Box::new(AltValue::Sequence(vec![
            AltValue::Number(NumValue::Int(1)),
            AltValue::Str("x".into()),
        ])),
    );
    assert_eq!(to_alternate(&to_native(&tagged)), tagged);
}

#[test]
fn test_smuggle_shape_is_exact() {
    // one sentinel key alone, extra keys, or a non-string tag never
    // reconstruct a tagged value
    let one_sentinel = Value::Hash(vec![
        (Value::Str(TAG_KEY.into()), Value::Str("t".into())),
        (Value::Str("other".into()), Value::Null),
    ]);
    let extra_keys = Value::Hash(vec![
        (Value::Str(TAG_KEY.into()), Value::Str("t".into())),
        (Value::Str(VALUE_KEY.into()), Value::Null),
        (Value::Str("extra".into()), Value::Null),
    ]);
    let non_string_tag = Value::Hash(vec![
        (Value::Str(TAG_KEY.into()), Value::Int(3)),
        (Value::Str(VALUE_KEY.into()), Value::Null),
    ]);
    assert!(matches!(to_alternate(&one_sentinel), AltValue::Mapping(_)));
    assert!(matches!(to_alternate(&extra_keys), AltValue::Mapping(_)));
    assert!(matches!(to_alternate(&non_string_tag), AltValue::Mapping(_)));

    // the exact shape, in either entry order, is reconstructed
    let canonical = Value::Hash(vec![
        (Value::Str(TAG_KEY.into()), Value::Str("t".into())),
        (Value::Str(VALUE_KEY.into()), Value::Int(3)),
    ]);
    let flipped = Value::Hash(vec![
        (Value::Str(VALUE_KEY.into()), Value::Int(3)),
        (Value::Str(TAG_KEY.into()), Value::Str("t".into())),
    ]);
    let expected = AltValue::Tagged("t".into(), Box::new(AltValue::Number(NumValue::Int(3))));
    assert_eq!(to_alternate(&canonical), expected);
    assert_eq!(to_alternate(&flipped), expected);
}

#[test]
fn test_keys_that_convert_equal_collapse() {
    // two native keys with the same alternate image collapse on the way
    // out: the first position is kept and the last value wins
    let native = Value::Hash(vec![
        (Value::Real("5".into()), Value::Str("a".into())),
        (Value::Int(5), Value::Str("b".into())),
    ]);
    let expected = AltValue::Mapping(vec![(
        AltValue::Number(NumValue::Int(5)),
        AltValue::Str("b".into()),
    )]);
    assert_eq!(to_alternate(&native), expected);

    // duplicate alternate keys collapse on the way in: the last value wins
    // and the entry moves to the back
    let alt = AltValue::Mapping(vec![
        (AltValue::Number(NumValue::Int(1)), AltValue::Str("a".into())),
        (AltValue::Null, AltValue::Null),
        (AltValue::Number(NumValue::Int(1)), AltValue::Str("b".into())),
    ]);
    let expected_native = Value::Hash(vec![
        (Value::Null, Value::Null),
        (Value::Int(1), Value::Str("b".into())),
    ]);
    assert_eq!(to_native(&alt), expected_native);
}

#[test]
fn test_native_round_trip() {
    let doc = Value::Hash(vec![
        (Value::Str("a".into()), Value::Real("0.25".into())),
        (
            Value::Str("b".into()),
            Value::Array(vec![Value::Int(1), Value::Null, Value::Bool(false)]),
        ),
        (Value::Int(5), Value::Str("five".into())),
    ]);
    assert!(is_round_trippable(&doc));
    assert_eq!(to_native(&to_alternate(&doc)), doc);
}

#[test]
fn test_round_trip_checks() {
    // a real whose text denotes an integer comes back as an integer, so it
    // does not survive the round trip
    assert!(!is_round_trippable(&Value::Real("5".into())));
    // a real whose text is not a number comes back as a string
    assert!(!is_round_trippable(&Value::Real("x".into())));
    // opaque markers cannot cross the bridge at all
    assert!(!is_round_trippable(&Value::Alias(0)));
    assert!(!is_round_trippable(&Value::Bad));
    // an alternate mapping that imitates the smuggle shape comes back tagged
    let impostor = AltValue::Mapping(vec![
        (AltValue::Str(TAG_KEY.into()), AltValue::Str("t".into())),
        (AltValue::Str(VALUE_KEY.into()), AltValue::Null),
    ]);
    assert!(!is_alt_round_trippable(&impostor));
    assert!(matches!(to_alternate(&to_native(&impostor)), AltValue::Tagged(_, _)));
    // a tagged value with an ordinary payload survives
    let tagged = AltValue::Tagged("t".into(), Box::new(AltValue::Null));
    assert!(is_alt_round_trippable(&tagged));
}
