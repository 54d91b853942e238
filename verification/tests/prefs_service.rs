use std::io;
use std::path::{Path, PathBuf};

use pf_runtime::prefs::store::PrefsStore;

use pf_runtime::ports::{
    ChangeAuthority, PreferenceChange, PreferenceChangeResult, PreferenceError, PreferenceKey, PreferenceValue,
};
use pf_runtime::prefs::document::Prefs;
use pf_runtime::prefs::error::PrefError;
use pf_runtime::prefs::schema::PrefValue;
use pf_runtime::prefs::store::JsonField;
use pf_runtime::prefs_port::{
    changed_preferences, effective_preference, from_port_value, gate_submission, json_to_pref,
    map_backend_error, map_client_set_error, to_port_value, Admission, USER_AUTHORITY,
};
use pf_runtime::prefsd::{
    classify_pref_error, parse_args, parse_flags, refusal_text, json_to_value, schema_values, verify_peer_uid,
    Client, ClientError, ErrorKind, PeerCred,
};

#[test]
fn daemon_error_kinds_fail_toward_infrastructure() {
    assert_eq!(
        map_client_set_error(ClientError::Remote {
            message: "schema skew".into(),
            kind: Some(ErrorKind::InvalidValue),
        }),
        PreferenceError::InvalidValue
    );
    for kind in [Some(ErrorKind::Store), Some(ErrorKind::Internal), Some(ErrorKind::Unknown), None] {
        assert_eq!(
            map_client_set_error(ClientError::Remote { message: "daemon failure".into(), kind }),
            PreferenceError::BackendUnavailable
        );
    }
}

#[test]
fn required_args_parse() {
    let args = parse_args(
        ["--socket", "/tmp/prefs.sock", "--state-dir", "/tmp/prefs"].into_iter().map(str::to_owned).collect(),
    )
    .unwrap();
    assert_eq!(args.socket, PathBuf::from("/tmp/prefs.sock"));
    assert_eq!(args.state_dir, PathBuf::from("/tmp/prefs"));
}

#[test]
fn peer_uid_verification_accepts_match_and_rejects_mismatch() {
    let cred = PeerCred { pid: 7, uid: 42, gid: 9 };
    assert!(verify_peer_uid(cred, 42).is_ok());
    assert_eq!(verify_peer_uid(cred, 41).unwrap_err().kind(), io::ErrorKind::PermissionDenied);
}

#[test]
fn argument_errors_name_the_offending_flag() {
    let owned = |v: &[&str]| v.iter().map(|s| s.to_string()).collect::<Vec<_>>();
    assert_eq!(parse_flags(&owned(&["--socket"])), Err("missing value for --socket".to_string()));
    assert_eq!(parse_flags(&owned(&["--port", "1"])), Err("unknown argument: --port".to_string()));
    assert_eq!(parse_flags(&owned(&["--socket", "/s"])), Err("--state-dir is required".to_string()));
    assert_eq!(parse_flags(&owned(&["--state-dir", "/d"])), Err("--socket is required".to_string()));
    assert_eq!(
        parse_flags(&owned(&["--state-dir", "/a", "--socket", "/s", "--state-dir", "/b"])),
        Ok(("/b".to_string(), "/s".to_string()))
    );
    assert!(parse_args(owned(&["--socket"])).is_err());
}

#[test]
fn refused_peer_is_described() {
    let cred = PeerCred { pid: 7, uid: 41, gid: 9 };
    assert_eq!(refusal_text(cred, 42), "refused peer pid=7 uid=41 (expected uid=42)");
    let message = verify_peer_uid(cred, 42).unwrap_err().to_string();
    assert_eq!(message, "refused peer pid=7 uid=41 (expected uid=42)");
}

#[test]
fn store_failures_are_classified_for_clients() {
    assert_eq!(classify_pref_error(&PrefError::UnknownKey("x".into())), ErrorKind::InvalidValue);
    assert_eq!(classify_pref_error(&PrefError::Parse("bad".into())), ErrorKind::Store);
    assert_eq!(classify_pref_error(&PrefError::UnsupportedVersion { found: 3, supported: 2 }), ErrorKind::Store);
    assert_eq!(
        classify_pref_error(&PrefError::Range { key: "brightness".into(), value: 101, min: 0, max: 100 }),
        ErrorKind::InvalidValue
    );
    assert_eq!(map_backend_error(PrefError::Parse("bad".into())), PreferenceError::BackendUnavailable);
    assert_eq!(map_backend_error(PrefError::UnknownKey("x".into())), PreferenceError::InvalidValue);
}

#[test]
fn request_values_are_typed_then_validated() {
    assert!(matches!(json_to_value("monoAudio", &JsonField::Bool(true)), Ok(PrefValue::Bool(true))));
    assert!(matches!(
        json_to_value("brightness", &JsonField::Text("40".into())),
        Err(PrefError::Type { expected: "scalar", got: "string", .. })
    ));
    assert!(matches!(
        json_to_value("textScale", &JsonField::Text("110%".into())),
        Err(PrefError::Type { expected: "enum", got: "string", .. })
    ));
    assert!(matches!(json_to_value("textScale", &JsonField::Text("200%".into())), Ok(PrefValue::Enum("200%"))));
    assert!(matches!(json_to_value("brightness", &JsonField::Integer(101)), Err(PrefError::Range { .. })));
    assert!(matches!(json_to_value("unknown", &JsonField::Bool(true)), Err(PrefError::UnknownKey(_))));
}

#[test]
fn all_values_come_in_schema_order() {
    let mut p = Prefs::defaults();
    p.set("brightness", PrefValue::Scalar(40)).unwrap();
    let values = schema_values(&p);
    let keys: Vec<&str> = values.iter().map(|(k, _)| k.as_str()).collect();
    assert_eq!(
        keys,
        ["textScale", "highContrast", "reduceFlashing", "reduceMotion", "hapticsEnabled", "monoAudio", "brightness"]
    );
    assert_eq!(values[6].1, PrefValue::Scalar(40));
    assert_eq!(values[0].1, PrefValue::Enum("100%"));
}

#[test]
fn port_values_translate_both_ways() {
    assert_eq!(to_port_value(PrefValue::Enum("125%")), PreferenceValue::Text("125%".into()));
    assert_eq!(from_port_value("textScale", &PreferenceValue::Text("125%".into())), Ok(PrefValue::Enum("125%")));
    assert_eq!(
        from_port_value("textScale", &PreferenceValue::Text("110%".into())),
        Err(PreferenceError::InvalidValue)
    );
    assert_eq!(from_port_value("brightness", &PreferenceValue::Integer(101)), Err(PreferenceError::InvalidValue));
    assert_eq!(from_port_value("monoAudio", &PreferenceValue::Text("yes".into())), Err(PreferenceError::InvalidValue));
    assert_eq!(json_to_pref("brightness", &JsonField::Integer(30)), Ok(PrefValue::Scalar(30)));
    assert_eq!(json_to_pref("brightness", &JsonField::Number), Err(PreferenceError::BackendUnavailable));
    assert_eq!(json_to_pref("brightness", &JsonField::Integer(300)), Err(PreferenceError::BackendUnavailable));
}

#[test]
fn stored_values_are_reported_as_not_applied() {
    let e = effective_preference("monoAudio", PrefValue::Bool(true));
    assert_eq!(e.key, PreferenceKey("monoAudio".into()));
    assert_eq!(e.stored, PreferenceValue::Bool(true));
    assert_eq!(e.effective, PreferenceValue::Bool(false));
    assert!(!e.applied);
}

#[test]
fn submissions_are_authority_scoped_and_validated() {
    let user = ChangeAuthority(USER_AUTHORITY.into());
    let change = |authority: &str, key: &str, value: &str| PreferenceChange {
        key: PreferenceKey(key.into()),
        value: PreferenceValue::Text(value.into()),
        authority: ChangeAuthority(authority.into()),
    };
    assert!(matches!(
        gate_submission(&user, &change("app", "textScale", "200%")),
        Ok(Admission::Refuse(PreferenceChangeResult::Unauthorized))
    ));
    assert!(matches!(
        gate_submission(&user, &change(USER_AUTHORITY, "volume", "200%")),
        Ok(Admission::Refuse(PreferenceChangeResult::UnsupportedKey))
    ));
    assert!(matches!(
        gate_submission(&user, &change(USER_AUTHORITY, "textScale", "110%")),
        Err(PreferenceError::InvalidValue)
    ));
    assert!(matches!(
        gate_submission(&user, &change(USER_AUTHORITY, "textScale", "200%")),
        Ok(Admission::Store(PrefValue::Enum("200%")))
    ));
}

#[test]
fn a_fresh_observation_reports_only_moved_keys_in_schema_order() {
    let p = Prefs::defaults();
    let old = schema_values(&p);
    let mut q = Prefs::defaults();
    q.set("monoAudio", PrefValue::Bool(true)).unwrap();
    q.set("highContrast", PrefValue::Bool(true)).unwrap();
    let fresh = schema_values(&q);
    let changes = changed_preferences(&old, &fresh).unwrap();
    let keys: Vec<&str> = changes.iter().map(|c| c.key.0.as_str()).collect();
    assert_eq!(keys, ["highContrast", "monoAudio"]);
    assert!(changes.iter().all(|c| !c.applied && c.stored == PreferenceValue::Bool(true)));
    assert_eq!(changed_preferences(&old, &old).unwrap().len(), 0);
    assert_eq!(changed_preferences(&old, &Vec::new()), Err(PreferenceError::BackendUnavailable));
}

#[test]
fn store_and_client_hold_the_paths_they_were_given() {
    let store = PrefsStore::at(Path::new("/var/lib/pf"));
    assert_eq!(store.path(), Path::new("/var/lib/pf/prefs.json"));
    let client = Client::new(Path::new("/run/pf/prefsd.sock"));
    assert_eq!(client.socket(), Path::new("/run/pf/prefsd.sock"));
}
