use pf_runtime::prefs::document::{PrefChange, Prefs, Source};
use pf_runtime::prefs::error::PrefError;
use pf_runtime::prefs::schema::{parse_value, schema, spec, validate, PrefValue};
use pf_runtime::prefs::store::{decode, load_text, JsonField};


#[test]
fn parse_value_bool_forms() {
    assert_eq!(
        parse_value("hapticsEnabled", "false").unwrap(),
        PrefValue::Bool(false)
    );
    assert_eq!(
        parse_value("hapticsEnabled", "ON").unwrap(),
        PrefValue::Bool(true)
    );
    assert_eq!(
        parse_value("hapticsEnabled", "0").unwrap(),
        PrefValue::Bool(false)
    );
    assert!(parse_value("hapticsEnabled", "maybe").is_err());
}

#[test]
fn parse_value_scalar_range() {
    assert_eq!(
        parse_value("brightness", "42").unwrap(),
        PrefValue::Scalar(42)
    );
    assert!(matches!(
        parse_value("brightness", "250"),
        Err(PrefError::Range { .. })
    ));
    assert!(matches!(
        parse_value("brightness", "notanum"),
        Err(PrefError::Type { .. })
    ));
}

#[test]
fn parse_value_unknown_key() {
    assert!(matches!(
        parse_value("bogus", "true"),
        Err(PrefError::UnknownKey(_))
    ));
}

#[test]
fn schema_defaults_match_the_contract() {
    assert_eq!(spec("textScale").unwrap().default, PrefValue::Enum("100%"));
    assert_eq!(
        spec("highContrast").unwrap().default,
        PrefValue::Bool(false)
    );
    assert_eq!(
        spec("reduceMotion").unwrap().default,
        PrefValue::Bool(false)
    );
    assert_eq!(
        spec("hapticsEnabled").unwrap().default,
        PrefValue::Bool(true)
    );
    assert_eq!(spec("monoAudio").unwrap().default, PrefValue::Bool(false));
    assert_eq!(spec("brightness").unwrap().default, PrefValue::Scalar(100));
    assert_eq!(
        spec("reduceFlashing").unwrap().default,
        PrefValue::Bool(false)
    );
}

#[test]
fn text_scale_is_a_closed_enum_including_200_percent() {
    for step in ["100%", "125%", "150%", "175%", "200%"] {
        assert_eq!(
            parse_value("textScale", step).unwrap(),
            PrefValue::Enum(step)
        );
    }
    assert!(parse_value("textScale", "110%").is_err());
}

#[test]
fn every_default_is_self_consistent() {
    // A default value must itself validate against its own spec.
    for s in schema() {
        assert!(
            s.validate(s.default).is_ok(),
            "default for {} is invalid",
            s.key
        );
    }
}

#[test]
fn validate_rejects_unknown_key() {
    assert!(matches!(
        validate("nopeNotAKey", PrefValue::Bool(true)),
        Err(PrefError::UnknownKey(_))
    ));
}

#[test]
fn validate_rejects_type_mismatch() {
    assert!(matches!(
        validate("hapticsEnabled", PrefValue::Scalar(1)),
        Err(PrefError::Type { .. })
    ));
    assert!(matches!(
        validate("brightness", PrefValue::Bool(true)),
        Err(PrefError::Type { .. })
    ));
}

#[test]
fn validate_rejects_out_of_range_scalar() {
    assert!(matches!(
        validate("brightness", PrefValue::Scalar(101)),
        Err(PrefError::Range { .. })
    ));
    assert!(matches!(
        validate("brightness", PrefValue::Scalar(-1)),
        Err(PrefError::Range { .. })
    ));
    assert!(validate("brightness", PrefValue::Scalar(0)).is_ok());
    assert!(validate("brightness", PrefValue::Scalar(100)).is_ok());
}



#[test]
fn defaults_read_through_the_schema() {
    let p = Prefs::defaults();
    assert!(!p.reduce_motion());
    assert!(p.haptics_enabled());
    assert!(!p.mono_audio());
    assert_eq!(p.brightness(), 100);
    assert_eq!(p.source("hapticsEnabled"), Source::Default);
}

#[test]
fn set_reports_a_change_and_flips_source() {
    let mut p = Prefs::defaults();
    let change = p.set("hapticsEnabled", PrefValue::Bool(false)).unwrap();
    assert_eq!(
        change,
        Some(PrefChange {
            key: "hapticsEnabled".into(),
            old: PrefValue::Bool(true),
            new: PrefValue::Bool(false),
        })
    );
    assert!(!p.haptics_enabled());
    assert_eq!(p.source("hapticsEnabled"), Source::Stored);
}

#[test]
fn set_to_the_same_effective_value_reports_no_change() {
    let mut p = Prefs::defaults();
    // hapticsEnabled default is true; setting it true is a no-op change (but still stored).
    assert_eq!(p.set("hapticsEnabled", PrefValue::Bool(true)).unwrap(), None);
    assert_eq!(p.source("hapticsEnabled"), Source::Stored);
}

#[test]
fn set_validates() {
    let mut p = Prefs::defaults();
    assert!(matches!(p.set("brightness", PrefValue::Scalar(200)), Err(PrefError::Range { .. })));
    assert!(matches!(p.set("brightness", PrefValue::Bool(true)), Err(PrefError::Type { .. })));
    assert!(matches!(p.set("bogus", PrefValue::Bool(true)), Err(PrefError::UnknownKey(_))));
}

fn field(key: &str, shape: JsonField, raw: serde_json::Value) -> (String, JsonField, serde_json::Value) {
    (key.to_string(), shape, raw)
}

#[test]
fn stored_document_decodes_known_keys_and_preserves_unknown_ones() {
    let p = decode(vec![
        field("schemaVersion", JsonField::Integer(2), serde_json::Value::from(2)),
        field("brightness", JsonField::Integer(42), serde_json::Value::from(42)),
        field("textScale", JsonField::Text("150%".into()), serde_json::Value::from("150%")),
        field("futureKey", JsonField::Bool(true), serde_json::Value::Bool(true)),
    ])
    .unwrap();
    assert_eq!(p.brightness(), 42);
    assert_eq!(p.value("textScale").unwrap(), PrefValue::Enum("150%"));
    assert_eq!(p.source("brightness"), Source::Stored);
    assert_eq!(p.source("monoAudio"), Source::Default);
    let extra: Vec<&str> = p.extra().iter().map(|(k, _)| k.as_str()).collect();
    assert_eq!(extra, vec!["futureKey"]);
    let entries = p.document_entries();
    assert_eq!(entries[0].0, "schemaVersion");
    assert_eq!(entries.len(), 4);
    assert_eq!(entries[3].0, "futureKey");
}

#[test]
fn stored_document_errors_are_typed() {
    assert!(matches!(
        decode(vec![field("brightness", JsonField::Text("bright".into()), serde_json::Value::from("bright"))]),
        Err(PrefError::Type { expected: "scalar", got: "string", .. })
    ));
    assert!(matches!(
        decode(vec![field("brightness", JsonField::Integer(250), serde_json::Value::from(250))]),
        Err(PrefError::Range { value: 250, min: 0, max: 100, .. })
    ));
    assert!(matches!(
        decode(vec![field("textScale", JsonField::Text("110%".into()), serde_json::Value::from("110%"))]),
        Err(PrefError::Type { expected: "enum variant", got: "string", .. })
    ));
    assert!(matches!(
        decode(vec![field("schemaVersion", JsonField::Integer(3), serde_json::Value::from(3))]),
        Err(PrefError::UnsupportedVersion { found: 3, supported: 2 })
    ));
    assert!(matches!(
        decode(vec![field("hapticsEnabled", JsonField::Null, serde_json::Value::Null)]),
        Err(PrefError::Type { expected: "bool", got: "null", .. })
    ));
}

#[test]
fn a_read_after_a_set_gives_back_the_set_value_and_leaves_other_keys_alone() {
    let mut p = Prefs::defaults();
    p.set("brightness", PrefValue::Scalar(7)).unwrap();
    p.set("monoAudio", PrefValue::Bool(true)).unwrap();
    p.set("brightness", PrefValue::Scalar(9)).unwrap();
    assert_eq!(p.brightness(), 9);
    assert!(p.mono_audio());
    assert!(matches!(p.get_bool("reduceMotion"), Ok(false)));
    assert!(matches!(p.get_bool("brightness"), Err(PrefError::Type { expected: "bool", got: "scalar", .. })));
    assert!(matches!(p.get_scalar("brightness"), Ok(9)));
}

#[test]
fn error_messages_name_key_and_cause() {
    assert_eq!(PrefError::UnknownKey("x".into()).message(), "unknown preference key 'x'");
    assert_eq!(
        PrefError::Range { key: "brightness".into(), value: -5, min: 0, max: 100 }.message(),
        "preference 'brightness' value -5 is out of range 0..=100"
    );
    assert_eq!(
        PrefError::UnsupportedVersion { found: 3, supported: 2 }.message(),
        "preference store schema version 3 is newer than the supported version 2"
    );
}

#[test]
fn stored_text_is_read_tolerantly_and_typed_errors_surface() {
    let blank = load_text("  \n\t ").unwrap();
    assert!(blank.haptics_enabled());
    assert_eq!(blank.source("brightness"), Source::Default);
    assert!(matches!(load_text("{ not json"), Err(PrefError::Parse(_))));
    assert!(matches!(
        load_text("[1,2,3]"),
        Err(PrefError::Parse(m)) if m == "top-level JSON value is not an object"
    ));
    assert!(matches!(load_text(r#"{"brightness":"bright"}"#), Err(PrefError::Type { .. })));
    assert!(matches!(load_text(r#"{"brightness":250}"#), Err(PrefError::Range { .. })));
    let p = load_text(r#"{"schemaVersion":2,"hapticsEnabled":false,"brightness":42,"zzFuture":[1]}"#).unwrap();
    assert!(!p.haptics_enabled());
    assert_eq!(p.brightness(), 42);
    assert_eq!(p.extra().len(), 1);
    assert_eq!(p.extra()[0].0, "zzFuture");
    assert!(matches!(load_text(r#"{"schemaVersion":3}"#), Err(PrefError::UnsupportedVersion { found: 3, supported: 2 })));
    assert!(matches!(load_text(r#"{"brightness":4.5}"#), Err(PrefError::Type { got: "number", .. })));
}

#[test]
fn empty_object_loads_defaults_and_stores_nothing() {
    let p = load_text("{}").unwrap();
    assert!(!p.mono_audio());
    assert!(p.haptics_enabled());
    assert_eq!(p.brightness(), 100);
    assert!(p.stored_values().is_empty());
    assert!(p.extra().is_empty());
    for key in ["textScale", "highContrast", "reduceFlashing", "reduceMotion", "hapticsEnabled", "monoAudio", "brightness"] {
        assert_eq!(p.source(key), Source::Default);
    }
}

#[test]
fn only_unknown_keys_are_kept_aside() {
    let p = load_text(r#"{"schemaVersion":1,"monoAudio":true,"later":{"a":1},"other":"x"}"#).unwrap();
    assert!(p.mono_audio());
    assert_eq!(p.source("monoAudio"), Source::Stored);
    assert_eq!(p.source("brightness"), Source::Default);
    let stored = p.stored_values();
    assert_eq!(stored.len(), 1);
    assert_eq!(stored[0].0, "monoAudio");
    let mut extra: Vec<&str> = p.extra().iter().map(|(k, _)| k.as_str()).collect();
    extra.sort();
    assert_eq!(extra, vec!["later", "other"]);
}

#[test]
fn newer_version_is_refused_even_beside_valid_fields() {
    assert!(matches!(
        load_text(r#"{"monoAudio":true,"schemaVersion":7}"#),
        Err(PrefError::UnsupportedVersion { found: 7, supported: 2 })
    ));
}

#[test]
fn value_text_forms() {
    assert_eq!(PrefValue::Bool(true).to_text(), "true");
    assert_eq!(PrefValue::Bool(false).to_text(), "false");
    assert_eq!(PrefValue::Scalar(-5).to_text(), "-5");
    assert_eq!(PrefValue::Scalar(0).to_text(), "0");
    assert_eq!(PrefValue::Scalar(100).to_text(), "100");
    assert_eq!(PrefValue::Enum("150%").to_text(), "150%");
}

#[test]
fn admissible_values_parse_back_from_their_text() {
    let cases = [
        ("textScale", PrefValue::Enum("175%")),
        ("highContrast", PrefValue::Bool(true)),
        ("reduceMotion", PrefValue::Bool(false)),
        ("brightness", PrefValue::Scalar(0)),
        ("brightness", PrefValue::Scalar(57)),
        ("brightness", PrefValue::Scalar(100)),
    ];
    for (key, v) in cases {
        assert_eq!(validate(key, v.clone()).unwrap(), v);
        assert_eq!(parse_value(key, &v.to_text()).unwrap(), v);
    }
}

#[test]
fn the_first_failing_field_decides_the_error() {
    assert!(matches!(
        load_text(r#"{"brightness":"high","schemaVersion":9}"#),
        Err(PrefError::Type { got: "string", .. })
    ));
    assert!(matches!(
        load_text(r#"{"monoAudio":true,"brightness":101,"highContrast":3}"#),
        Err(PrefError::Range { value: 101, min: 0, max: 100, .. })
    ));
    assert!(matches!(
        load_text(r#"{"schemaVersion":-1}"#),
        Err(PrefError::Parse(m)) if m == "schemaVersion is not a non-negative integer"
    ));
    assert!(matches!(
        load_text(r#"{"textScale":"110%"}"#),
        Err(PrefError::Type { expected: "enum variant", got: "string", .. })
    ));
}

#[test]
fn unknown_values_survive_load_and_set() {
    let mut p = load_text(r#"{"later":{"a":[1,2]},"monoAudio":false,"note":"kept"}"#).unwrap();
    p.set("monoAudio", PrefValue::Bool(true)).unwrap();
    p.set("brightness", PrefValue::Scalar(40)).unwrap();
    let extra = p.extra();
    assert_eq!(extra.len(), 2);
    assert_eq!(extra[0].0, "later");
    assert_eq!(extra[0].1, serde_json::from_str::<serde_json::Value>(r#"{"a":[1,2]}"#).unwrap());
    assert_eq!(extra[1].0, "note");
    assert_eq!(extra[1].1, serde_json::Value::String("kept".to_string()));
}
