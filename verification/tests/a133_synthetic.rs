use std::collections::BTreeMap;

use pf_runtime::input_collect::collect::{self, Collector, DeviceMeta, RunConfig};
use pf_runtime::input_collect::emit::Capabilities;
use pf_runtime::input_collect::plan::{default_gamepad_plan, ControlSpec, Kind};
use pf_runtime::input_collect::source::{AbsInfo, Identity, RawEvent, ScriptedSource};

const EV_KEY: u16 = 0x01;
const EV_ABS: u16 = 0x03;
const BTN_A: u16 = 0x130;
const BTN_B: u16 = 0x131;
const BTN_X: u16 = 0x133;
const BTN_Y: u16 = 0x134;
const BTN_SELECT: u16 = 0x13a;
const BTN_START: u16 = 0x13b;
const BTN_MODE: u16 = 0x13c;
const BTN_TL: u16 = 0x136;
const BTN_TR: u16 = 0x137;
const BTN_TL2: u16 = 0x138; // L2 — the a133 left trigger, emitted as a BUTTON by the decoder
const BTN_TR2: u16 = 0x139; // R2 — the a133 right trigger, emitted as a BUTTON by the decoder
const ABS_X: u16 = 0x00;
const ABS_Y: u16 = 0x01;
const ABS_Z: u16 = 0x02;
const ABS_RX: u16 = 0x03;
const ABS_RY: u16 = 0x04;
const ABS_RZ: u16 = 0x05;
const ABS_HAT0X: u16 = 0x10;
const ABS_HAT0Y: u16 = 0x11;

fn key(code: u16, val: i32) -> RawEvent {
    RawEvent::new(EV_KEY, code, val)
}
fn abs(code: u16, val: i32) -> RawEvent {
    RawEvent::new(EV_ABS, code, val)
}

const STICK: AbsInfo = AbsInfo { min: -32768, max: 32767, fuzz: 16, flat: 128, resolution: 0 };
const HAT: AbsInfo = AbsInfo { min: -1, max: 1, fuzz: 0, flat: 0, resolution: 0 };
const TRIG: AbsInfo = AbsInfo { min: 0, max: 255, fuzz: 0, flat: 0, resolution: 0 };

fn a133_source() -> ScriptedSource {
    let ident = Identity {
        name: "TRIMUI Player1".to_string(),
        bus: 0x0003, // BUS_USB
        vid: 0x045e, // Microsoft
        pid: 0x028e, // Xbox 360 wired
        version: 0x0110,
    };
    let mut s = ScriptedSource::new(ident)
        .with_abs(ABS_X, STICK)
        .with_abs(ABS_Y, STICK)
        .with_abs(ABS_RX, STICK)
        .with_abs(ABS_RY, STICK)
        .with_abs(ABS_HAT0X, HAT)
        .with_abs(ABS_HAT0Y, HAT);

    for code in [BTN_A, BTN_B, BTN_X, BTN_Y, BTN_SELECT, BTN_START, BTN_MODE, BTN_TL, BTN_TR] {
        s.push_batch(vec![key(code, 1), key(code, 0)]);
    }

    s.push_batch(vec![
        abs(ABS_HAT0X, -1), abs(ABS_HAT0X, 0), abs(ABS_HAT0X, 1), abs(ABS_HAT0X, 0),
        abs(ABS_HAT0Y, -1), abs(ABS_HAT0Y, 0), abs(ABS_HAT0Y, 1), abs(ABS_HAT0Y, 0),
    ]);
    s.push_batch(vec![]);
    s.push_batch(vec![]);

    s.push_batch(vec![
        abs(ABS_X, -32768), abs(ABS_X, 0), abs(ABS_X, 32767), abs(ABS_X, 0),
        abs(ABS_Y, -32768), abs(ABS_Y, 0), abs(ABS_Y, 32767), abs(ABS_Y, 0),
    ]);
    s.push_batch(vec![]);
    s.push_batch(vec![]);

    s.push_batch(vec![
        abs(ABS_RX, -32768), abs(ABS_RX, 32767), abs(ABS_RX, 0),
        abs(ABS_RY, -32768), abs(ABS_RY, 32767), abs(ABS_RY, 0),
    ]);
    s.push_batch(vec![]);
    s.push_batch(vec![]);

    for _ in 0..2 {
        s.push_batch(vec![]);
    }
    for _ in 0..2 {
        s.push_batch(vec![]);
    }

    s.push_batch(vec![key(BTN_TL2, 1), key(BTN_TL2, 0)]);

    s.push_batch(vec![key(BTN_TR2, 1), key(BTN_TR2, 0)]);

    s
}

fn test_cfg() -> RunConfig {
    RunConfig { quiet_polls: 2, idle_skip_polls: 2, max_polls: 60, ..RunConfig::default() }
}

fn back_to_back_cfg() -> RunConfig {
    RunConfig { drain_polls: 0, ..test_cfg() }
}

fn run_a133() -> (Capabilities, String) {
    let mut src = a133_source();
    let mut collector = Collector::new(default_gamepad_plan());
    let meta = DeviceMeta {
        id: "a133".to_string(),
        manufacturer: "TrimUI".to_string(),
        model: "Smart Pro".to_string(),
    };
    let mut log = Vec::new();
    let caps = collect::run(&mut collector, &mut src, &meta, &back_to_back_cfg(), &mut log)
        .expect("collection run should succeed on the synthetic a133 stream");
    (caps, String::from_utf8(log).unwrap())
}

#[test]
fn analog_trigger_is_classified_analog() {
    let ident = Identity {
        name: "Generic Pad".to_string(),
        bus: 3,
        vid: 0x1234,
        pid: 0x5678,
        version: 0x0001,
    };
    let mut src = ScriptedSource::new(ident).with_abs(ABS_Z, TRIG);
    let mut collector = Collector::new(vec![ControlSpec {
        id: "ltrig".into(),
        kind: Kind::Trigger,
        prompt: "squeeze".into(),
        optional: false, source: None }]);
    src.push_batch((0..=255).step_by(5).map(|v| abs(ABS_Z, v)).collect());
    src.push_batch(vec![]);
    src.push_batch(vec![]);
    let meta = DeviceMeta { id: "gen".into(), manufacturer: "G".into(), model: "Pad".into() };
    let mut log = Vec::new();
    let caps = collect::run(&mut collector, &mut src, &meta, &test_cfg(), &mut log).unwrap();
    assert_eq!(caps.inputs[0].semantics.as_deref(), Some("analog"));
}

#[test]
fn back_to_back_a133_stream_yields_the_ground_truth_map() {
    let (caps, transcript) = run_a133();
    assert!(transcript.starts_with("[1/16] south"));
    let expected: BTreeMap<&str, (&str, &str, &str, Option<&str>)> = BTreeMap::from([
        ("south", ("button", "EV_KEY", "BTN_A", None)),
        ("east", ("button", "EV_KEY", "BTN_B", None)),
        ("west", ("button", "EV_KEY", "BTN_X", None)),
        ("north", ("button", "EV_KEY", "BTN_Y", None)),
        ("select", ("button", "EV_KEY", "BTN_SELECT", None)),
        ("start", ("button", "EV_KEY", "BTN_START", None)),
        ("guide", ("button", "EV_KEY", "BTN_MODE", None)),
        ("l1", ("button", "EV_KEY", "BTN_TL", None)),
        ("r1", ("button", "EV_KEY", "BTN_TR", None)),
        ("dpad", ("hat", "EV_ABS", "ABS_HAT0X,ABS_HAT0Y", None)),
        ("lstick", ("stick", "EV_ABS", "ABS_X,ABS_Y", None)),
        ("rstick", ("stick", "EV_ABS", "ABS_RX,ABS_RY", None)),
        ("ltrig", ("trigger", "EV_KEY", "BTN_TL2", Some("binary"))),
        ("rtrig", ("trigger", "EV_KEY", "BTN_TR2", Some("binary"))),
    ]);
    let got: BTreeMap<String, (String, String, String, Option<String>)> = caps
        .inputs
        .iter()
        .map(|i| (i.id.clone(), (i.kind.clone(), i.ev_type.clone(), i.code.clone(), i.semantics.clone())))
        .collect();
    for (id, (kind, ev, code, sem)) in &expected {
        let g = got.get(*id).unwrap_or_else(|| panic!("emitted candidate missing input '{id}'"));
        assert_eq!(&g.0, kind, "{id}: kind");
        assert_eq!(&g.1, ev, "{id}: ev_type");
        assert_eq!(&g.2, code, "{id}: code");
        assert_eq!(g.3.as_deref(), *sem, "{id}: semantics");
    }
    assert_eq!(got.len(), expected.len());
    assert_eq!(caps.identity.sdl_guid, "030000005e0400008e02000010010000");
    assert_eq!(caps.accept_default.as_deref(), Some("south"));
    let lstick = caps.inputs.iter().find(|i| i.id == "lstick").unwrap();
    let x = lstick.x.expect("lstick has x axis");
    assert_eq!((x.min, x.max, x.fuzz, x.flat), (-32768, 32767, 16, 128));
}

/// The synthetic a133 stream run through the whole default plan. Two settings differ from the
/// bare decoder fixture: the hat axes declare their `-1..=1` range (the engine judges a hat's
/// actuation, and which axes it reports, from the declared ranges; with none declared the
/// optional dpad is skipped), and, since the controls are queued back to back with no gap for
/// the fixed inter-control drain, the run uses `drain_polls: 0`.
fn run_a133_as_decoded() -> (Capabilities, String) {
    let mut src = a133_source();
    let mut collector = Collector::new(default_gamepad_plan());
    let meta = DeviceMeta {
        id: "a133".to_string(),
        manufacturer: "TrimUI".to_string(),
        model: "Smart Pro".to_string(),
    };
    let mut log = Vec::new();
    let caps = collect::run(&mut collector, &mut src, &meta, &back_to_back_cfg(), &mut log)
        .expect("collection run should succeed on the synthetic a133 stream");
    (caps, String::from_utf8(log).unwrap())
}

#[test]
fn emitted_inputs_match_the_a133_ground_truth_code_map() {
    let (caps, transcript) = run_a133_as_decoded();
    println!("\n--- guided-collection run transcript (synthetic a133) ---\n{transcript}");
    println!("--- emitted candidate capabilities.toml ---\n{}", caps.to_toml());

    let expected: BTreeMap<&str, (&str, &str, &str, Option<&str>)> = BTreeMap::from([
        ("south", ("button", "EV_KEY", "BTN_A", None)),
        ("east", ("button", "EV_KEY", "BTN_B", None)),
        ("west", ("button", "EV_KEY", "BTN_X", None)),
        ("north", ("button", "EV_KEY", "BTN_Y", None)),
        ("select", ("button", "EV_KEY", "BTN_SELECT", None)),
        ("start", ("button", "EV_KEY", "BTN_START", None)),
        ("guide", ("button", "EV_KEY", "BTN_MODE", None)),
        ("l1", ("button", "EV_KEY", "BTN_TL", None)),
        ("r1", ("button", "EV_KEY", "BTN_TR", None)),
        ("dpad", ("hat", "EV_ABS", "ABS_HAT0X,ABS_HAT0Y", None)),
        ("lstick", ("stick", "EV_ABS", "ABS_X,ABS_Y", None)),
        ("rstick", ("stick", "EV_ABS", "ABS_RX,ABS_RY", None)),
        ("ltrig", ("trigger", "EV_KEY", "BTN_TL2", Some("binary"))),
        ("rtrig", ("trigger", "EV_KEY", "BTN_TR2", Some("binary"))),
    ]);

    let got: BTreeMap<String, (String, String, String, Option<String>)> = caps
        .inputs
        .iter()
        .map(|i| (i.id.clone(), (i.kind.clone(), i.ev_type.clone(), i.code.clone(), i.semantics.clone())))
        .collect();

    for (id, (kind, ev, code, sem)) in &expected {
        let g = got.get(*id).unwrap_or_else(|| panic!("emitted candidate missing input '{id}'"));
        assert_eq!(&g.0, kind, "{id}: kind");
        assert_eq!(&g.1, ev, "{id}: ev_type");
        assert_eq!(&g.2, code, "{id}: code");
        assert_eq!(g.3.as_deref(), *sem, "{id}: semantics");
    }
    assert_eq!(got.len(), expected.len(), "row count differs: got ids {:?}", got.keys().collect::<Vec<_>>());
    assert!(!got.contains_key("l3"), "absent stick-click l3 must be omitted, not fabricated");
    assert!(!got.contains_key("r3"), "absent stick-click r3 must be omitted, not fabricated");
}

#[test]
fn identity_sdl_guid_and_stick_ranges_are_correct() {
    let (caps, _) = run_a133_as_decoded();
    assert_eq!(caps.identity.id, "a133");
    assert_eq!(caps.identity.evdev_name, "TRIMUI Player1");
    assert_eq!(caps.identity.vid.as_deref(), Some("045e"));
    assert_eq!(caps.identity.pid.as_deref(), Some("028e"));
    assert_eq!(caps.identity.sdl_guid, "030000005e0400008e02000010010000");
    assert_eq!(caps.accept_default.as_deref(), Some("south"));

    let lstick = caps.inputs.iter().find(|i| i.id == "lstick").unwrap();
    let x = lstick.x.expect("lstick has x axis");
    assert_eq!((x.min, x.max, x.fuzz, x.flat), (-32768, 32767, 16, 128));
    assert!(lstick.y.is_some());

    let ltrig = caps.inputs.iter().find(|i| i.id == "ltrig").unwrap();
    assert_eq!(ltrig.ev_type, "EV_KEY");
    assert_eq!(ltrig.code, "BTN_TL2");
    assert!(ltrig.range.is_none(), "a button-realized trigger has no analog range");
    assert_eq!(ltrig.semantics.as_deref(), Some("binary"));
}
