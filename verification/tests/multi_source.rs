use pf_runtime::input_collect::collect::{self, Collector, DeviceMeta, Recorded, RunConfig};
use pf_runtime::input_collect::plan::{ControlSpec, Kind};
use pf_runtime::input_collect::source::{EventSource, Identity, MultiSource, RawEvent, ScriptedSource};

const EV_KEY: u16 = 0x01;
const BTN_SOUTH: u16 = 0x130;
const KEY_VOLUMEUP: u16 = 0x73; // 115 — the LRADC/sunxi-keyboard code the gamepad node never carries

fn key(code: u16, v: i32) -> RawEvent {
    RawEvent::new(EV_KEY, code, v)
}

fn gamepad_ident() -> Identity {
    Identity { name: "TRIMUI Player1".into(), bus: 3, vid: 0x045e, pid: 0x028e, version: 0x0110 }
}
fn kbd_ident() -> Identity {
    Identity { name: "sunxi-keyboard".into(), bus: 0x19, vid: 0x0001, pid: 0x0001, version: 0 }
}

fn cfg() -> RunConfig {
    RunConfig {
        quiet_polls: 2,
        idle_skip_polls: 4, // an optional control with no activity skips after a few quiet polls
        max_polls: 2000,
        control_timeout: std::time::Duration::from_secs(5),
        ..RunConfig::default()
    }
}

fn meta() -> DeviceMeta {
    DeviceMeta { id: "a133".into(), manufacturer: "TrimUI".into(), model: "Smart Pro".into() }
}

fn plan() -> Vec<ControlSpec> {
    vec![
        ControlSpec::new("south", Kind::Button, "press south", false),
        ControlSpec::new("vol_up", Kind::Button, "press VOL+", true).on_source("sunxi-keyboard"),
    ]
}

fn pad_with_south() -> ScriptedSource {
    let mut pad = ScriptedSource::new(gamepad_ident());
    pad.push_batch(vec![key(BTN_SOUTH, 1), key(BTN_SOUTH, 0)]);
    pad.push_batch(vec![]);
    pad.push_batch(vec![]);
    pad
}

#[test]
fn multi_source_captures_the_nonprimary_control() {
    let pad = pad_with_south();

    let mut kbd = ScriptedSource::new(kbd_ident());
    kbd.push_batch(vec![key(KEY_VOLUMEUP, 1), key(KEY_VOLUMEUP, 0)]);
    kbd.push_batch(vec![]);
    kbd.push_batch(vec![]);

    let mut src = MultiSource::new("TRIMUI Player1", Box::new(pad));
    src.add_source("sunxi-keyboard", Box::new(kbd));

    let mut c = Collector::new(plan());
    let mut log = Vec::new();
    let caps = collect::run(&mut c, &mut src, &meta(), &cfg(), &mut log).expect("run ok");

    assert_eq!(
        c.recorded("south"),
        Some(&Recorded::Button { code: BTN_SOUTH }),
        "south must be captured from the primary gamepad node"
    );
    let vol = caps
        .inputs
        .iter()
        .find(|i| i.id == "vol_up")
        .expect("vol_up must be captured from the sunxi-keyboard node (multi-source routing)");
    assert_eq!(vol.code, "KEY_VOLUMEUP");
    assert_eq!(caps.identity.evdev_name, "TRIMUI Player1");
}

#[test]
fn single_source_build_misses_the_nonprimary_control() {
    let mut src = pad_with_south();

    let mut c = Collector::new(plan());
    let mut log = Vec::new();
    let caps = collect::run(&mut c, &mut src, &meta(), &cfg(), &mut log).expect("run ok");

    assert_eq!(
        c.recorded("south"),
        Some(&Recorded::Button { code: BTN_SOUTH }),
        "south is still captured (it IS on the only node present)"
    );
    assert!(
        caps.inputs.iter().all(|i| i.id != "vol_up"),
        "single-source build must MISS vol_up (it lives on a node this run never reads) — \
         got inputs: {:?}",
        caps.inputs.iter().map(|i| &i.id).collect::<Vec<_>>()
    );
}

#[test]
fn unknown_source_node_falls_back_to_primary_and_flags_the_miss() {
    let pad = pad_with_south();
    let mut src = MultiSource::new("TRIMUI Player1", Box::new(pad));

    src.set_active_source(Some("audiocodec sunxi Audio Jack")); // never registered
    assert!(src.last_route_missed(), "an unregistered node must be flagged as a routing miss");

    src.set_active_source(Some("TRIMUI Player1"));
    assert!(!src.last_route_missed(), "the primary node is registered — no miss");

    src.set_active_source(None);
    assert!(!src.last_route_missed(), "None routes to primary — no miss");
}

#[test]
fn identity_comes_from_the_primary_and_polls_follow_the_routing() {
    let mut primary = ScriptedSource::new(gamepad_ident());
    primary.push_batch(vec![key(BTN_SOUTH, 1)]);
    let mut kbd = ScriptedSource::new(kbd_ident());
    kbd.push_batch(vec![key(KEY_VOLUMEUP, 1)]);
    let mut m = MultiSource::new("event1", Box::new(primary));
    m.add_source("sunxi-keyboard", Box::new(kbd));
    m.set_active_source(Some("sunxi-keyboard"));
    assert_eq!(m.identity().unwrap().name, "TRIMUI Player1");
    let batch = m.poll(std::time::Duration::from_millis(1)).unwrap();
    assert_eq!(batch.len(), 1);
    assert_eq!(batch[0].code, KEY_VOLUMEUP);
    m.set_active_source(None);
    let batch = m.poll(std::time::Duration::from_millis(1)).unwrap();
    assert_eq!(batch[0].code, BTN_SOUTH);
    assert!(!m.last_route_missed());
}

#[test]
fn a_zero_poll_drain_consumes_nothing() {
    let mut src = ScriptedSource::new(gamepad_ident());
    src.push_batch(vec![key(BTN_SOUTH, 1)]);
    let zero = RunConfig { drain_polls: 0, ..RunConfig::default() };
    assert_eq!(collect::drain_between_controls(&mut src, &zero).unwrap(), 0);
    assert_eq!(src.identity().unwrap().vid, 0x045e);
    assert_eq!(src.poll(std::time::Duration::from_millis(1)).unwrap().len(), 1);
}

#[test]
fn the_identity_block_is_built_from_the_reported_identity() {
    let block = collect::identity_block_of(&gamepad_ident(), &meta());
    assert_eq!(block.id, "a133");
    assert_eq!(block.evdev_name, "TRIMUI Player1");
    assert_eq!(block.vid.as_deref(), Some("045e"));
    assert_eq!(block.pid.as_deref(), Some("028e"));
    assert_eq!(block.sdl_guid, "030000005e0400008e02000010010000");
}

#[test]
fn a_scripted_source_names_the_missing_axis_in_hex() {
    let mut src = ScriptedSource::new(gamepad_ident());
    let err = src.absinfo(0x2a).unwrap_err();
    assert_eq!(err.kind(), std::io::ErrorKind::NotFound);
    assert_eq!(err.to_string(), "no scripted absinfo for abs code 0x2a");
}
