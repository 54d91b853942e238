use pf_runtime::input_map::binding::{Binding, BindingShape, MapError};
use pf_runtime::input_map::contract::{
    positions_of, validate_candidate, DeviceContract, FallbackGlyph, Mapping, PhysicalControl,
};
use pf_runtime::input_map::effective::{EffectiveMap, MapEvent, MemoryStore, RemapStore};
use pf_runtime::input_map::engine::{RemapEngine, RollbackReason, TransactionOutcome};
use pf_runtime::input_map::persist::{PersistedDocument, REMAP_SCHEMA_VERSION};
use pf_runtime::ports::{GlyphResolver, GlyphResult, ShellAction};

fn control(position: &str, label: Option<&str>) -> PhysicalControl {
    PhysicalControl {
        position: position.to_string(),
        printed_label: label.map(|l| l.to_string()),
        input_code: None,
        fallback_glyph: FallbackGlyph { source: "pocketforge".to_string(), id: format!("pf-{position}") },
    }
}

fn mapping(context: &str, action: &str, binding: Binding) -> Mapping {
    Mapping { context: context.to_string(), action: action.to_string(), binding }
}

fn chord(a: &str, b: &str) -> Binding {
    Binding {
        shape: BindingShape::Chord,
        controls: vec![a.into(), b.into()],
        max_interval_ms: None,
        min_duration_ms: None,
    }
}

/// The handheld with a guide button (face labels A/B/X/Y).
fn a133() -> DeviceContract {
    DeviceContract {
        schema_version: 1,
        device_id: "a133".into(),
        protected_actions: vec!["SafeReturn".into()],
        physical_controls: vec![
            control("east", Some("A")),
            control("south", Some("B")),
            control("west", Some("X")),
            control("north", Some("Y")),
            control("start", Some("START")),
            control("select", Some("SELECT")),
            control("guide", None),
            control("l1", Some("L1")),
            control("r1", Some("R1")),
        ],
        effective_map: vec![
            mapping("shell", "Activate", Binding::single("east")),
            mapping("shell", "Back", Binding::single("south")),
            mapping("global", "SafeReturn", Binding::single("guide")),
        ],
    }
}

/// The handheld with a home button instead of a guide button.
fn a523() -> DeviceContract {
    DeviceContract {
        schema_version: 1,
        device_id: "a523".into(),
        protected_actions: vec!["SafeReturn".into()],
        physical_controls: vec![
            control("east", Some("A")),
            control("south", Some("B")),
            control("west", Some("X")),
            control("north", Some("Y")),
            control("start", Some("START")),
            control("select", Some("SELECT")),
            control("home", None),
            control("l1", Some("L1")),
            control("r1", Some("R1")),
        ],
        effective_map: vec![
            mapping("shell", "Activate", Binding::single("east")),
            mapping("shell", "Back", Binding::single("south")),
            mapping("global", "SafeReturn", Binding::single("home")),
        ],
    }
}

/// A device with neither guide nor home: safe return is a chord.
fn buttonless() -> DeviceContract {
    DeviceContract {
        schema_version: 1,
        device_id: "buttonless".into(),
        protected_actions: vec!["SafeReturn".into()],
        physical_controls: vec![
            control("east", Some("A")),
            control("south", Some("B")),
            control("start", Some("START")),
            control("select", Some("SELECT")),
        ],
        effective_map: vec![
            mapping("shell", "Activate", Binding::single("east")),
            mapping("shell", "Back", Binding::single("south")),
            mapping("global", "SafeReturn", chord("select", "start")),
        ],
    }
}

fn contract(c: fn() -> DeviceContract) -> DeviceContract {
    let c = c();
    c.validate().unwrap();
    c
}

fn map(c: fn() -> DeviceContract) -> EffectiveMap {
    EffectiveMap::from_persisted(contract(c), None).unwrap()
}

#[test]
fn per_device_shipped_defaults_cover_all_device_classes() {
    assert_eq!(map(a523).binding("global", "SafeReturn"), Some(&Binding::single("home")));
    assert_eq!(map(a133).binding("global", "SafeReturn"), Some(&Binding::single("guide")));
    assert_eq!(map(buttonless).binding("global", "SafeReturn"), Some(&chord("select", "start")));
}

#[test]
fn a523_home_re_resolves_on_a133_once() {
    let old = map(a523).mappings().to_vec();
    let mut current = EffectiveMap::from_persisted(contract(a133), Some(("a523".into(), old))).unwrap();
    assert_eq!(current.binding("global", "SafeReturn"), Some(&Binding::single("guide")));
    assert!(
        matches!(current.next_event(), Some(MapEvent::BindingReResolved { action, stored_device_id, current_device_id, .. }) if action == "SafeReturn" && stored_device_id == "a523" && current_device_id == "a133")
    );
    assert_eq!(current.next_event(), None);
}

#[test]
fn guide_re_resolves_to_buttonless_chord() {
    let old = map(a133).mappings().to_vec();
    let mut current = EffectiveMap::from_persisted(contract(buttonless), Some(("a133".into(), old))).unwrap();
    assert_eq!(current.binding("global", "SafeReturn"), Some(&chord("select", "start")));
    assert!(
        matches!(current.next_event(), Some(MapEvent::BindingReResolved { action, .. }) if action == "SafeReturn")
    );
}

#[test]
fn carried_identity_is_loaded_from_the_keyed_store_then_re_resolved() {
    let mut store = MemoryStore::default();
    store.save("a523", map(a523).mappings()).unwrap();
    let mut current = EffectiveMap::load_carried(contract(a133), "a523", &mut store).unwrap();
    assert_eq!(current.binding("global", "SafeReturn"), Some(&Binding::single("guide")));
    assert!(matches!(
        current.next_event(),
        Some(MapEvent::BindingReResolved { stored_device_id, .. }) if stored_device_id == "a523"
    ));
}

#[test]
fn confirm_commits_and_emits_only_after_commit() {
    let mut engine = RemapEngine::new(map(a133), MemoryStore::default());
    engine.begin("shell", "Activate", Binding::single("west")).unwrap();
    assert_eq!(engine.map().binding("shell", "Activate"), Some(&Binding::single("east")));
    assert_eq!(engine.map_mut().next_event(), None);
    assert_eq!(engine.confirm().unwrap(), TransactionOutcome::Committed);
    assert_eq!(engine.map().binding("shell", "Activate"), Some(&Binding::single("west")));
    assert!(
        matches!(engine.map_mut().next_event(), Some(MapEvent::GlyphsUpdated { actions, .. }) if actions == ["Activate"])
    );
}

#[test]
fn timeout_interrupt_and_explicit_revert_all_rollback() {
    for (operation, expected) in [
        (
            RemapEngine::<MemoryStore>::timeout as fn(&mut RemapEngine<MemoryStore>) -> _,
            RollbackReason::Timeout,
        ),
        (RemapEngine::<MemoryStore>::interrupt, RollbackReason::Interrupted),
        (RemapEngine::<MemoryStore>::revert, RollbackReason::Reverted),
    ] {
        let mut engine = RemapEngine::new(map(a133), MemoryStore::default());
        engine.begin("shell", "Activate", Binding::single("west")).unwrap();
        assert_eq!(operation(&mut engine).unwrap(), TransactionOutcome::RolledBack(expected));
        assert_eq!(engine.map().binding("shell", "Activate"), Some(&Binding::single("east")));
        assert_eq!(engine.map_mut().next_event(), None);
    }
}

#[test]
fn persistence_failure_is_an_interrupted_commit_with_no_visible_change_or_event() {
    let mut engine = RemapEngine::new(map(a133), MemoryStore::failing());
    engine.begin("shell", "Activate", Binding::single("west")).unwrap();
    assert!(matches!(engine.confirm(), Err(MapError::Persistence(_))));
    assert_eq!(engine.map().binding("shell", "Activate"), Some(&Binding::single("east")));
    assert_eq!(engine.map_mut().next_event(), None);
}

#[test]
fn rejects_safe_return_collision_across_contexts() {
    let mut engine = RemapEngine::new(map(a133), MemoryStore::default());
    assert_eq!(
        engine.begin("global", "SafeReturn", Binding::single("east")),
        Err(MapError::Collision { first: "SafeReturn".into(), second: "Activate".into() })
    );
}

#[test]
fn capture_rejects_reusing_back_for_activate_without_creating_partial_state() {
    let mut engine = RemapEngine::new(map(a133), MemoryStore::default());
    assert_eq!(
        engine.begin("shell", "Activate", Binding::single("south")),
        Err(MapError::Collision { first: "Activate".into(), second: "Back".into() })
    );
    assert_eq!(engine.map().binding("shell", "Activate"), Some(&Binding::single("east")));
    assert_eq!(engine.confirm(), Err(MapError::NoTransaction));
}

#[test]
fn persisted_protected_collision_is_rejected_then_re_resolved_to_shipped_defaults() {
    let device = contract(a133);
    let shipped = device.effective_map.clone();
    let mut persisted = shipped.clone();
    let activate = persisted.iter_mut().find(|mapping| mapping.action == "Activate").unwrap();
    activate.binding = Binding::single("south");

    let controls = positions_of(&device.physical_controls);
    assert_eq!(
        validate_candidate(&persisted, &controls),
        Err(MapError::Collision { first: "Activate".into(), second: "Back".into() })
    );

    let mut effective = EffectiveMap::from_persisted(device, Some(("a133".into(), persisted))).unwrap();
    assert_eq!(effective.mappings(), shipped);
    assert!(matches!(
        effective.next_event(),
        Some(MapEvent::BindingReResolved {
            action,
            old_binding,
            effective_binding,
            ..
        }) if action == "Activate"
            && old_binding == Binding::single("south")
            && effective_binding == Binding::single("east")
    ));
}

#[test]
fn rejects_any_candidate_that_strands_a_protected_action() {
    let mut broken = contract(a133);
    broken.effective_map.retain(|m| m.action != "Back");
    assert_eq!(
        EffectiveMap::from_persisted(broken, None),
        Err(MapError::ProtectedActionUnreachable("Back".into()))
    );
}

#[test]
fn glyphs_resolve_every_binding_shape_and_printed_or_source_truth() {
    let mut device = contract(a133);
    let shapes = [
        Binding::single("east"),
        chord("select", "start"),
        Binding {
            shape: BindingShape::DoublePress,
            controls: vec!["guide".into()],
            max_interval_ms: Some(500),
            min_duration_ms: None,
        },
        Binding {
            shape: BindingShape::Hold,
            controls: vec!["select".into(), "l1".into(), "r1".into()],
            max_interval_ms: None,
            min_duration_ms: Some(1000),
        },
    ];
    let actions = ["Quick", "Search.open", "Search.submit", "Search.cancel"];
    for (action, binding) in actions.into_iter().zip(shapes) {
        device.effective_map.push(Mapping { context: "test".into(), action: action.into(), binding });
    }
    let effective = EffectiveMap::from_persisted(device, None).unwrap();
    for action in actions {
        let GlyphResult::Resolved(glyph) = effective.resolve(&ShellAction::Custom(action.into())).unwrap() else {
            panic!("shape did not resolve")
        };
        assert!(!glyph.binding_id.is_empty());
        assert!(glyph.source_fallback.starts_with("pf-"));
    }
    let GlyphResult::Resolved(face) = effective.resolve(&ShellAction::Activate).unwrap() else {
        panic!()
    };
    assert_eq!(face.printed_label, "A");
    let GlyphResult::Resolved(guide) = effective.resolve(&ShellAction::Custom("SafeReturn".into())).unwrap() else {
        panic!()
    };
    assert_eq!(guide.printed_label, "");
    assert_eq!(guide.source_fallback, "pf-guide");
}

#[test]
fn binding_ids_name_shape_controls_and_timing() {
    assert_eq!(Binding::single("east").id(), "single_press(east)");
    assert_eq!(chord("select", "start").id(), "chord(select+start)");
    let double = Binding {
        shape: BindingShape::DoublePress,
        controls: vec!["guide".into()],
        max_interval_ms: Some(500),
        min_duration_ms: None,
    };
    assert_eq!(double.id(), "double_press(guide;500ms)");
    let hold = Binding {
        shape: BindingShape::Hold,
        controls: vec!["select".into(), "l1".into(), "r1".into()],
        max_interval_ms: None,
        min_duration_ms: Some(1000),
    };
    assert_eq!(hold.id(), "hold(select+l1+r1;1000ms)");
}

#[test]
fn chord_glyph_joins_labels_and_fallbacks() {
    let mut device = contract(a133);
    device.effective_map.push(mapping("test", "Quick", chord("select", "start")));
    let effective = EffectiveMap::from_persisted(device, None).unwrap();
    let GlyphResult::Resolved(glyph) = effective.resolve(&ShellAction::Custom("Quick".into())).unwrap() else {
        panic!()
    };
    assert_eq!(glyph.binding_id, "chord(select+start)");
    assert_eq!(glyph.printed_label, "SELECT + START");
    assert_eq!(glyph.source_fallback, "pf-select + pf-start");
    assert_eq!(
        effective.resolve(&ShellAction::Custom("Move.up".into())),
        Ok(GlyphResult::UnsupportedAction)
    );
}

#[test]
fn binding_validation_names_the_first_broken_rule() {
    let empty = Binding { shape: BindingShape::SinglePress, controls: vec![], max_interval_ms: None, min_duration_ms: None };
    assert_eq!(empty.validate(), Err(MapError::InvalidBinding("controls must be non-empty".into())));
    let blank = Binding { shape: BindingShape::SinglePress, controls: vec!["".into()], max_interval_ms: None, min_duration_ms: None };
    assert_eq!(blank.validate(), Err(MapError::InvalidBinding("controls must be non-empty".into())));
    let dup = Binding { shape: BindingShape::Chord, controls: vec!["east".into(), "east".into()], max_interval_ms: None, min_duration_ms: None };
    assert_eq!(dup.validate(), Err(MapError::InvalidBinding("controls must be unique".into())));
    let two = Binding { shape: BindingShape::SinglePress, controls: vec!["east".into(), "west".into()], max_interval_ms: None, min_duration_ms: None };
    assert_eq!(two.validate(), Err(MapError::InvalidBinding("single_press requires one control".into())));
    let one = Binding { shape: BindingShape::Chord, controls: vec!["east".into()], max_interval_ms: None, min_duration_ms: None };
    assert_eq!(one.validate(), Err(MapError::InvalidBinding("chord requires at least two controls".into())));
    let timed = Binding { shape: BindingShape::SinglePress, controls: vec!["east".into()], max_interval_ms: Some(500), min_duration_ms: None };
    assert_eq!(timed.validate(), Err(MapError::InvalidBinding("timing field is invalid for binding shape".into())));
    let fast = Binding { shape: BindingShape::DoublePress, controls: vec!["east".into()], max_interval_ms: Some(99), min_duration_ms: None };
    assert_eq!(
        fast.validate(),
        Err(MapError::InvalidBinding("double_press requires max_interval_ms from 100 through 2000".into()))
    );
    let both = Binding { shape: BindingShape::DoublePress, controls: vec!["east".into()], max_interval_ms: Some(2000), min_duration_ms: Some(300) };
    assert_eq!(both.validate(), Err(MapError::InvalidBinding("min_duration_ms is invalid for double_press".into())));
    let long = Binding { shape: BindingShape::Hold, controls: vec!["east".into()], max_interval_ms: None, min_duration_ms: Some(5001) };
    assert_eq!(
        long.validate(),
        Err(MapError::InvalidBinding("hold requires min_duration_ms from 250 through 5000".into()))
    );
    let hold_interval = Binding { shape: BindingShape::Hold, controls: vec!["east".into()], max_interval_ms: Some(100), min_duration_ms: Some(250) };
    assert_eq!(hold_interval.validate(), Err(MapError::InvalidBinding("max_interval_ms is invalid for hold".into())));
    assert_eq!(Binding::single("east").validate(), Ok(()));
}

#[test]
fn contract_validation_reports_each_problem() {
    let mut c = a133();
    c.schema_version = 2;
    assert_eq!(
        c.validate(),
        Err(MapError::InvalidContract("unsupported schema or empty device identity".into()))
    );
    let mut c = a133();
    c.protected_actions = vec!["Back".into()];
    assert_eq!(
        c.validate(),
        Err(MapError::InvalidContract("protected_actions must contain only SafeReturn".into()))
    );
    let mut c = a133();
    c.physical_controls.push(control("east", Some("A")));
    assert_eq!(
        c.validate(),
        Err(MapError::InvalidContract("physical control positions must be unique and non-empty".into()))
    );
    let mut c = a133();
    c.physical_controls.push(control("dpad", None));
    assert_eq!(c.validate(), Err(MapError::InvalidContract("unknown physical position dpad".into())));
    let mut c = a133();
    c.physical_controls[0].fallback_glyph.id = "glyph-east".into();
    assert_eq!(c.validate(), Err(MapError::InvalidContract("fallback glyph must be source-owned pf-*".into())));
    let mut c = a133();
    c.effective_map.push(mapping("shell", "Dance", Binding::single("west")));
    assert_eq!(c.validate(), Err(MapError::InvalidContract("unknown semantic action Dance".into())));
    let mut c = a133();
    c.effective_map.push(mapping("shell", "Quick", Binding::single("home")));
    assert_eq!(c.validate(), Err(MapError::AbsentControl { action: "Quick".into() }));
}

#[test]
fn unknown_slot_and_open_transaction_are_refused() {
    let mut engine = RemapEngine::new(map(a133), MemoryStore::default());
    assert_eq!(
        engine.begin("shell", "Quick", Binding::single("west")),
        Err(MapError::UnknownAction { context: "shell".into(), action: "Quick".into() })
    );
    assert_eq!(
        engine.begin("shell", "Activate", Binding::single("home")),
        Err(MapError::AbsentControl { action: "Activate".into() })
    );
    engine.begin("shell", "Activate", Binding::single("west")).unwrap();
    assert_eq!(engine.begin("shell", "Back", Binding::single("north")), Err(MapError::TransactionActive));
    assert_eq!(engine.revert(), Ok(TransactionOutcome::RolledBack(RollbackReason::Reverted)));
    assert_eq!(engine.revert(), Err(MapError::NoTransaction));
}

#[test]
fn memory_store_reads_back_what_it_saved_per_device() {
    let mut store = MemoryStore::default();
    assert_eq!(store.load("a133"), Ok(None));
    let first = map(a133).mappings().to_vec();
    let second = map(a523).mappings().to_vec();
    store.save("a133", &first).unwrap();
    store.save("a523", &second).unwrap();
    assert_eq!(store.load("a133"), Ok(Some(first.clone())));
    store.save("a133", &second).unwrap();
    assert_eq!(store.load("a133"), Ok(Some(second.clone())));
    assert_eq!(store.load("a523"), Ok(Some(second)));
    let mut failing = MemoryStore::failing();
    assert_eq!(
        failing.save("a133", &first),
        Err(MapError::Persistence("injected save failure".into()))
    );
    assert_eq!(failing.load("a133"), Ok(None));
}

#[test]
fn remap_document_is_identity_keyed_and_refuses_future_versions() {
    let mut doc = PersistedDocument::empty();
    let a = map(a133).mappings().to_vec();
    let b = map(a523).mappings().to_vec();
    doc.with_device("a133", &a).unwrap();
    doc.with_device("a523", &b).unwrap();
    assert_eq!(doc.mappings_for("a133"), Ok(Some(a.clone())));
    assert_ne!(doc.mappings_for("a133"), doc.mappings_for("a523"));
    assert_eq!(doc.mappings_for("other"), Ok(None));

    let mut future = PersistedDocument { schema_version: 2, devices: vec![("future-device".into(), vec![])] };
    let before = future.clone();
    assert_eq!(
        future.with_device("a133", &a),
        Err(MapError::UnsupportedVersion { found: 2, supported: REMAP_SCHEMA_VERSION })
    );
    assert_eq!(future, before);
    assert_eq!(
        future.mappings_for("future-device"),
        Err(MapError::Persistence("unsupported schema version".into()))
    );
}
