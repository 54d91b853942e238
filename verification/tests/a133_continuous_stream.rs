use pf_runtime::input_collect::collect::{self, Collector, DeviceMeta, Recorded, RunConfig};
use pf_runtime::input_collect::plan::{a133_gamepad_plan, ControlSpec, Kind};
use pf_runtime::input_collect::source::{AbsInfo, Identity, RawEvent, ScriptedSource};

use pf_runtime::input_decode::codes::{
    BTN_EAST, BTN_MODE, BTN_NORTH, BTN_SELECT, BTN_SOUTH, BTN_START, BTN_TL, BTN_TL2, BTN_TR, BTN_TR2, BTN_WEST,
};

const EV_KEY: u16 = 0x01;
const EV_ABS: u16 = 0x03;
const ABS_X: u16 = 0x00;
const ABS_Y: u16 = 0x01;
const ABS_RX: u16 = 0x03;
const ABS_RY: u16 = 0x04;
const ABS_HAT0X: u16 = 0x10;
const ABS_HAT0Y: u16 = 0x11;
const STICK: AbsInfo = AbsInfo { min: 0, max: 4095, fuzz: 0, flat: 0, resolution: 0 };
const HAT: AbsInfo = AbsInfo { min: -1, max: 1, fuzz: 0, flat: 0, resolution: 0 };

fn abs(code: u16, val: i32) -> RawEvent { RawEvent::new(EV_ABS, code, val) }

fn rest_frame() -> Vec<RawEvent> {
    vec![abs(ABS_X, 2098), abs(ABS_Y, 2107), abs(ABS_RX, 2013), abs(ABS_RY, 2129)]
}

fn dut() -> ScriptedSource {
    let ident = Identity { name: "TRIMUI Player1".into(), bus: 3, vid: 0x045e, pid: 0x028e, version: 0x0110 };
    ScriptedSource::new(ident)
        .with_abs(ABS_X, STICK).with_abs(ABS_Y, STICK)
        .with_abs(ABS_RX, STICK).with_abs(ABS_RY, STICK)
        .with_abs(ABS_HAT0X, HAT).with_abs(ABS_HAT0Y, HAT)
}

#[test]
fn dpad_capture_under_continuous_stick_stream() {
    let mut src = dut();
    for _ in 0..3 { src.push_batch(rest_frame()); }
    let mut press = rest_frame(); press.extend([abs(ABS_HAT0X, -1), abs(ABS_HAT0X, 0), abs(ABS_HAT0Y, 1), abs(ABS_HAT0Y, 0)]);
    src.push_batch(press);
    for _ in 0..3 { src.push_batch(rest_frame()); }
    src.push_batch(vec![]); src.push_batch(vec![]);

    let spec = ControlSpec { id: "dpad".into(), kind: Kind::Hat, prompt: "dpad".into(), optional: false, source: None };
    let mut c = Collector::new(vec![spec]);
    let cfg = RunConfig {
        quiet_polls: 2,
        idle_skip_polls: 2,
        max_polls: 2000,
        control_timeout: std::time::Duration::from_secs(5),
        ..RunConfig::default()
    };
    let mut log = Vec::new();
    let caps = collect::run(&mut c, &mut src, &meta(), &cfg, &mut log);
    match caps {
        Ok(cap) => {
            let dpad = cap.inputs.iter().find(|i| i.id == "dpad").expect("dpad row");
            println!("dpad collected as: ev_type={} code={}", dpad.ev_type, dpad.code);
            assert_eq!(dpad.code, "ABS_HAT0X,ABS_HAT0Y",
                "dpad mis-attributed to {} — the resting sticks (~2098, value!=0) were counted as active",
                dpad.code);
        }
        Err(e) => panic!("dpad collection errored: {}", e.message()),
    }
}

#[test]
fn required_control_is_not_fabricated_from_the_ambient_rest_stream() {
    let mut src = dut();
    for _ in 0..500 { src.push_batch(rest_frame()); }
    src.push_batch(vec![]); src.push_batch(vec![]);

    let spec = ControlSpec { id: "lstick".into(), kind: Kind::Stick, prompt: "lstick".into(), optional: false, source: None };
    let mut c = Collector::new(vec![spec]);
    let cfg = RunConfig {
        quiet_polls: 2,
        idle_skip_polls: 2,
        max_polls: 600, // runaway guard hit fast (ScriptedSource poll is instant); the point is finalize
        control_timeout: std::time::Duration::from_secs(5),
        ..RunConfig::default()
    };
    let mut log = Vec::new();
    match collect::run(&mut c, &mut src, &meta(), &cfg, &mut log) {
        Err(collect::CollectError::NoActivity { id }) => assert_eq!(id, "lstick"),
        Ok(cap) => panic!(
            "FABRICATED a control from the ambient rest stream (the race bug): {:?}",
            cap.inputs.iter().map(|i| (i.id.clone(), i.code.clone())).collect::<Vec<_>>()
        ),
        Err(e) => panic!("unexpected error (expected NoActivity for an untouched required control): {}", e.message()),
    }
}

#[test]
fn full_both_axis_stick_sweep_captures_on_unsigned_range_without_panicking() {
    let mut src = dut();
    for _ in 0..3 { src.push_batch(rest_frame()); }
    for &(x, y) in &[(4095, 2048), (2048, 4095), (0, 2048), (2048, 0), (4095, 4095), (0, 0), (2048, 2048)] {
        let mut f = rest_frame();
        f.extend([abs(ABS_X, x), abs(ABS_Y, y)]);
        src.push_batch(f);
    }
    for _ in 0..3 { src.push_batch(rest_frame()); }
    src.push_batch(vec![]); src.push_batch(vec![]);

    let spec = ControlSpec { id: "lstick".into(), kind: Kind::Stick, prompt: "lstick".into(), optional: false, source: None };
    let mut c = Collector::new(vec![spec]);
    let cfg = RunConfig {
        quiet_polls: 2,
        idle_skip_polls: 2,
        max_polls: 600,
        control_timeout: std::time::Duration::from_secs(5),
        ..RunConfig::default()
    };
    let mut log = Vec::new();
    match collect::run(&mut c, &mut src, &meta(), &cfg, &mut log) {
        Ok(cap) => {
            let ls = cap.inputs.iter().find(|i| i.id == "lstick").expect("lstick row");
            assert_eq!(ls.code, "ABS_X,ABS_Y", "a full both-axis sweep must record both stick axes, got {}", ls.code);
        }
        Err(e) => panic!("a full both-axis stick sweep must capture cleanly, not error: {}", e.message()),
    }
}

#[test]
fn stick_completes_on_sequential_two_axis_motion() {
    let mut src = dut();
    let lx = |x: i32| vec![abs(ABS_X, x), abs(ABS_Y, 2107), abs(ABS_RX, 2013), abs(ABS_RY, 2129)];
    let ly = |y: i32| vec![abs(ABS_X, 2098), abs(ABS_Y, y), abs(ABS_RX, 2013), abs(ABS_RY, 2129)];
    src.push_batch(lx(4095)); src.push_batch(lx(0)); src.push_batch(lx(2098));
    for _ in 0..3 { src.push_batch(rest_frame()); }
    src.push_batch(ly(4095)); src.push_batch(ly(0)); src.push_batch(ly(2107));
    for _ in 0..3 { src.push_batch(rest_frame()); }
    src.push_batch(vec![]); src.push_batch(vec![]);

    let spec = ControlSpec { id: "lstick".into(), kind: Kind::Stick, prompt: "lstick".into(), optional: false, source: None };
    let mut c = Collector::new(vec![spec]);
    let cfg = RunConfig { quiet_polls: 2, idle_skip_polls: 40, max_polls: 600, control_timeout: std::time::Duration::from_secs(5), ..RunConfig::default() };
    let mut log = Vec::new();
    match collect::run(&mut c, &mut src, &meta(), &cfg, &mut log) {
        Ok(cap) => {
            let ls = cap.inputs.iter().find(|i| i.id == "lstick").expect("lstick row");
            assert_eq!(ls.code, "ABS_X,ABS_Y",
                "a sequential two-axis stick motion must record BOTH axes, got {}", ls.code);
        }
        Err(e) => panic!("stick must COMPLETE on a sequential two-axis motion, not abort \
            (this IS the owner's lstick abort): {}", e.message()),
    }
}

#[test]
fn stick_records_observed_calibration_envelope() {
    let mut src = dut();
    let lx = |x: i32| vec![abs(ABS_X, x), abs(ABS_Y, 2107), abs(ABS_RX, 2013), abs(ABS_RY, 2129)];
    let ly = |y: i32| vec![abs(ABS_X, 2097), abs(ABS_Y, y), abs(ABS_RX, 2013), abs(ABS_RY, 2129)];
    for _ in 0..6 { src.push_batch(rest_frame()); }
    src.push_batch(lx(12)); src.push_batch(lx(4083));    // X sweep to observed extremes
    for _ in 0..6 { src.push_batch(rest_frame()); }
    src.push_batch(ly(9)); src.push_batch(ly(4090));      // Y sweep to observed extremes
    for _ in 0..6 { src.push_batch(rest_frame()); }
    src.push_batch(vec![]); src.push_batch(vec![]);

    let spec = ControlSpec { id: "lstick".into(), kind: Kind::Stick, prompt: "lstick".into(), optional: false, source: None };
    let mut c = Collector::new(vec![spec]);
    let cfg = RunConfig { quiet_polls: 2, idle_skip_polls: 40, max_polls: 600, control_timeout: std::time::Duration::from_secs(5), ..RunConfig::default() };
    let mut log = Vec::new();
    let cap = collect::run(&mut c, &mut src, &meta(), &cfg, &mut log).expect("lstick must complete");
    let ls = cap.inputs.iter().find(|i| i.id == "lstick").expect("lstick row");
    let x = ls.x.expect("lstick x axis");
    let y = ls.y.expect("lstick y axis");
    assert_eq!((x.min, x.max), (12, 4083), "x records OBSERVED travel, not declared range");
    assert_eq!((y.min, y.max), (9, 4090), "y records OBSERVED travel, not declared range");
    assert!((x.value.expect("x centre recorded") - 2098).abs() <= 3, "x centre ~ rest, got {:?}", x.value);
    assert!((y.value.expect("y centre recorded") - 2107).abs() <= 3, "y centre ~ rest, got {:?}", y.value);
}

#[test]
fn stick_full_roll_survives_a_mid_roll_pause_and_records_the_whole_envelope() {
    let mut src = dut();
    let lx = |x: i32| vec![abs(ABS_X, x), abs(ABS_Y, 2107), abs(ABS_RX, 2013), abs(ABS_RY, 2129)];
    let ly = |y: i32| vec![abs(ABS_X, 2097), abs(ABS_Y, y), abs(ABS_RX, 2013), abs(ABS_RY, 2129)];
    src.push_batch(lx(4095)); src.push_batch(ly(4095));
    for _ in 0..4 { src.push_batch(rest_frame()); }
    src.push_batch(lx(0)); src.push_batch(ly(0));
    for _ in 0..4 { src.push_batch(rest_frame()); }
    src.push_batch(vec![]); src.push_batch(vec![]);

    let spec = ControlSpec { id: "lstick".into(), kind: Kind::Stick, prompt: "lstick".into(), optional: false, source: None };
    let mut c = Collector::new(vec![spec]);
    let cfg = RunConfig { quiet_polls: 2, idle_skip_polls: 40, max_polls: 600, control_timeout: std::time::Duration::from_secs(5), ..RunConfig::default() };
    let mut log = Vec::new();
    let cap = collect::run(&mut c, &mut src, &meta(), &cfg, &mut log).expect("lstick completes after the full roll");
    let ls = cap.inputs.iter().find(|i| i.id == "lstick").expect("lstick row");
    let x = ls.x.expect("x axis");
    let y = ls.y.expect("y axis");
    assert!(x.min <= 100 && x.max >= 3995, "x must span the full roll (mid-roll pause must not truncate), got {}..{}", x.min, x.max);
    assert!(y.min <= 100 && y.max >= 3995, "y must span the full roll, got {}..{}", y.min, y.max);
}

#[test]
fn a_long_stick_roll_does_not_bleed_into_the_next_control() {
    let mut src = dut();
    let lx = |x: i32| vec![abs(ABS_X, x), abs(ABS_Y, 2107), abs(ABS_RX, 2013), abs(ABS_RY, 2129)];
    let ly = |y: i32| vec![abs(ABS_X, 2097), abs(ABS_Y, y), abs(ABS_RX, 2013), abs(ABS_RY, 2129)];
    let rx = |x: i32| vec![abs(ABS_X, 2098), abs(ABS_Y, 2107), abs(ABS_RX, x), abs(ABS_RY, 2129)];
    let ry = |y: i32| vec![abs(ABS_X, 2098), abs(ABS_Y, 2107), abs(ABS_RX, 2013), abs(ABS_RY, y)];
    src.push_batch(lx(4095)); src.push_batch(ly(4095));
    for _ in 0..3 { src.push_batch(rest_frame()); }
    src.push_batch(lx(0)); src.push_batch(ly(0));
    src.push_batch(lx(4095)); src.push_batch(ly(0)); src.push_batch(lx(0)); src.push_batch(ly(4095));
    for _ in 0..12 { src.push_batch(rest_frame()); }
    src.push_batch(rx(4095)); src.push_batch(rx(0)); src.push_batch(ry(4095)); src.push_batch(ry(0));
    for _ in 0..3 { src.push_batch(rest_frame()); }
    src.push_batch(vec![]); src.push_batch(vec![]);

    let plan = vec![
        ControlSpec { id: "lstick".into(), kind: Kind::Stick, prompt: "lstick".into(), optional: false, source: None },
        ControlSpec { id: "rstick".into(), kind: Kind::Stick, prompt: "rstick".into(), optional: false, source: None },
    ];
    let mut c = Collector::new(plan);
    let cfg = RunConfig { quiet_polls: 2, idle_skip_polls: 40, max_polls: 2000, control_timeout: std::time::Duration::from_secs(5), ..RunConfig::default() };
    let mut log = Vec::new();
    let cap = collect::run(&mut c, &mut src, &meta(), &cfg, &mut log).expect("both sticks complete");
    let ls = cap.inputs.iter().find(|i| i.id == "lstick").expect("lstick row");
    let rs = cap.inputs.iter().find(|i| i.id == "rstick").expect("rstick row");
    assert_eq!(ls.code, "ABS_X,ABS_Y", "lstick must own the left-stick axes");
    assert_eq!(rs.code, "ABS_RX,ABS_RY",
        "rstick must capture ITS OWN axes — the lstick roll must not bleed in and falsely satisfy it");
}

#[test]
fn four_dpad_direction_steps_merge_to_one_hat_row() {
    let mut src = dut();
    let dir = |code: u16, v: i32| { let mut f = rest_frame(); f.extend([abs(code, v), abs(code, 0)]); f };
    src.push_batch(dir(ABS_HAT0Y, -1)); for _ in 0..12 { src.push_batch(rest_frame()); } // up
    src.push_batch(dir(ABS_HAT0Y, 1));  for _ in 0..12 { src.push_batch(rest_frame()); } // down
    src.push_batch(dir(ABS_HAT0X, -1)); for _ in 0..12 { src.push_batch(rest_frame()); } // left
    src.push_batch(dir(ABS_HAT0X, 1));  for _ in 0..12 { src.push_batch(rest_frame()); } // right
    src.push_batch(vec![]); src.push_batch(vec![]);

    let plan = vec![
        ControlSpec { id: "dpad_up".into(), kind: Kind::HatDir, prompt: "up".into(), optional: false, source: None },
        ControlSpec { id: "dpad_down".into(), kind: Kind::HatDir, prompt: "down".into(), optional: false, source: None },
        ControlSpec { id: "dpad_left".into(), kind: Kind::HatDir, prompt: "left".into(), optional: false, source: None },
        ControlSpec { id: "dpad_right".into(), kind: Kind::HatDir, prompt: "right".into(), optional: false, source: None },
    ];
    let mut c = Collector::new(plan);
    let cfg = RunConfig { quiet_polls: 2, idle_skip_polls: 40, max_polls: 600, control_timeout: std::time::Duration::from_secs(5), ..RunConfig::default() };
    let mut log = Vec::new();
    match collect::run(&mut c, &mut src, &meta(), &cfg, &mut log) {
        Ok(cap) => {
            let ids: Vec<&str> = cap.inputs.iter().map(|i| i.id.as_str()).collect();
            assert_eq!(ids, vec!["dpad"], "the four dpad steps must merge to exactly ONE dpad row, got {ids:?}");
            assert_eq!(cap.inputs[0].code, "ABS_HAT0X,ABS_HAT0Y");
        }
        Err(e) => panic!("four dpad direction steps must each complete + merge, not error: {}", e.message()),
    }
}

#[test]
fn full_17_prompt_plan_walks_to_completion() {
    let key = |code: u16| { let mut f = rest_frame(); f.extend([RawEvent::new(EV_KEY, code, 1), RawEvent::new(EV_KEY, code, 0)]); f };
    let dir = |code: u16, v: i32| { let mut f = rest_frame(); f.extend([abs(code, v), abs(code, 0)]); f };
    let lx = |x: i32| vec![abs(ABS_X, x), abs(ABS_Y, 2107), abs(ABS_RX, 2013), abs(ABS_RY, 2129)];
    let ly = |y: i32| vec![abs(ABS_X, 2098), abs(ABS_Y, y), abs(ABS_RX, 2013), abs(ABS_RY, 2129)];
    let rx = |x: i32| vec![abs(ABS_X, 2098), abs(ABS_Y, 2107), abs(ABS_RX, x), abs(ABS_RY, 2129)];
    let ry = |y: i32| vec![abs(ABS_X, 2098), abs(ABS_Y, 2107), abs(ABS_RX, 2013), abs(ABS_RY, y)];
    let buttons: [(&str, u16); 9] = [
        ("south", BTN_SOUTH),
        ("east", BTN_EAST),
        ("west", BTN_WEST),
        ("north", BTN_NORTH),
        ("select", BTN_SELECT),
        ("start", BTN_START),
        ("guide", BTN_MODE),
        ("l1", BTN_TL),
        ("r1", BTN_TR),
    ];
    let gap = |src: &mut ScriptedSource, n: usize| { for _ in 0..n { src.push_batch(rest_frame()); } };
    const HUMAN_GAP: usize = 12;
    let mut src = dut();
    for (_, code) in buttons { src.push_batch(key(code)); gap(&mut src, HUMAN_GAP); }
    for (code, v) in [(ABS_HAT0Y, -1), (ABS_HAT0Y, 1), (ABS_HAT0X, -1), (ABS_HAT0X, 1)] {
        src.push_batch(dir(code, v)); gap(&mut src, HUMAN_GAP);
    }
    src.push_batch(lx(4095)); src.push_batch(lx(0)); gap(&mut src, HUMAN_GAP);
    src.push_batch(ly(4095)); src.push_batch(ly(0)); gap(&mut src, HUMAN_GAP);
    src.push_batch(rx(4095)); src.push_batch(rx(0)); gap(&mut src, HUMAN_GAP);
    src.push_batch(ry(4095)); src.push_batch(ry(0)); gap(&mut src, HUMAN_GAP);
    src.push_batch(key(BTN_TL2)); gap(&mut src, HUMAN_GAP);
    src.push_batch(key(BTN_TR2)); gap(&mut src, HUMAN_GAP);
    src.push_batch(vec![]); src.push_batch(vec![]);

    let mut c = Collector::new(a133_gamepad_plan());
    let cfg = RunConfig { quiet_polls: 2, idle_skip_polls: 40, max_polls: 10000, control_timeout: std::time::Duration::from_secs(5), ..RunConfig::default() };
    let mut log = Vec::new();
    match collect::run(&mut c, &mut src, &meta(), &cfg, &mut log) {
        Ok(cap) => {
            let ids: Vec<&str> = cap.inputs.iter().map(|i| i.id.as_str()).collect();
            for want in ["south", "east", "west", "north", "select", "start", "guide", "l1", "r1",
                "dpad", "lstick", "rstick", "ltrig", "rtrig"]
            {
                assert!(ids.contains(&want), "control {want} missing — the walk did not advance through it: {ids:?}");
            }
            assert_eq!(ids.iter().filter(|&&i| i == "dpad").count(), 1, "dpad must merge to ONE row: {ids:?}");
            let dpad = cap.inputs.iter().find(|i| i.id == "dpad").unwrap();
            assert_eq!(dpad.code, "ABS_HAT0X,ABS_HAT0Y");
            for (id, code) in buttons {
                assert_eq!(
                    c.recorded(id),
                    Some(&Recorded::Button { code }),
                    "{id} must record the code its own physical position emitted"
                );
            }
        }
        Err(e) => panic!("the full 17-prompt plan must walk to completion, not abort: {}", e.message()),
    }
}

fn meta() -> DeviceMeta { DeviceMeta { id: "a133".into(), manufacturer: "TrimUI".into(), model: "Smart Pro".into() } }

fn key(code: u16, val: i32) -> RawEvent { RawEvent::new(EV_KEY, code, val) }

fn press_frame(code: u16) -> Vec<RawEvent> {
    let mut f = rest_frame();
    f.extend([key(code, 1), key(code, 0)]);
    f
}

fn hat_frame(code: u16, v: i32) -> Vec<RawEvent> {
    let mut f = rest_frame();
    f.extend([abs(code, v), abs(code, 0)]);
    f
}

const INTER_CONTROL_GAP: usize = 12;

fn push_rest(src: &mut ScriptedSource, n: usize) {
    for _ in 0..n {
        src.push_batch(rest_frame());
    }
}

fn human_cfg() -> RunConfig {
    RunConfig {
        quiet_polls: 2,
        idle_skip_polls: 40,
        max_polls: 2000,
        control_timeout: std::time::Duration::from_secs(5),
        ..RunConfig::default()
    }
}

#[test]
fn button_prompt_rejects_the_previous_controls_key_tail() {
    let mut src = dut();
    src.push_batch(press_frame(BTN_SOUTH)); // the owner's south press — window closes on this poll
    push_rest(&mut src, 2); // a beat: the owner watches to see whether the prompt advanced ...
    src.push_batch(press_frame(BTN_SOUTH)); // ... decides it did not, and presses AGAIN
    push_rest(&mut src, INTER_CONTROL_GAP);
    src.push_batch(press_frame(BTN_EAST)); // the owner's real east press
    push_rest(&mut src, INTER_CONTROL_GAP);
    src.push_batch(vec![]);
    src.push_batch(vec![]);

    let plan = vec![
        ControlSpec { id: "south".into(), kind: Kind::Button, prompt: "south".into(), optional: false, source: None },
        ControlSpec { id: "east".into(), kind: Kind::Button, prompt: "east".into(), optional: false, source: None },
    ];
    let mut c = Collector::new(plan);
    let mut log = Vec::new();
    let run = collect::run(&mut c, &mut src, &meta(), &human_cfg(), &mut log);

    assert_eq!(
        c.recorded("south"),
        Some(&Recorded::Button { code: BTN_SOUTH }),
        "the south prompt must record the south press"
    );
    assert_eq!(
        c.recorded("east"),
        Some(&Recorded::Button { code: BTN_EAST }),
        "the east prompt captured the PRECEDING control's key tail instead of its own press — \
         an inter-control drain must discard input in the gap (run result: {:?})",
        run.as_ref().map(|_| "Ok").map_err(|e| e.message())
    );
}

#[test]
fn button_prompt_rejects_a_multi_poll_overshoot_from_the_previous_control() {
    let mut src = dut();
    src.push_batch(press_frame(BTN_SOUTH)); // window closes here
    push_rest(&mut src, 1);
    for _ in 0..3 {
        src.push_batch(press_frame(BTN_SOUTH)); // overshoot: three more presses past the close
    }
    push_rest(&mut src, INTER_CONTROL_GAP);
    src.push_batch(press_frame(BTN_EAST));
    push_rest(&mut src, INTER_CONTROL_GAP);
    src.push_batch(vec![]);
    src.push_batch(vec![]);

    let plan = vec![
        ControlSpec { id: "south".into(), kind: Kind::Button, prompt: "south".into(), optional: false, source: None },
        ControlSpec { id: "east".into(), kind: Kind::Button, prompt: "east".into(), optional: false, source: None },
    ];
    let mut c = Collector::new(plan);
    let mut log = Vec::new();
    let _ = collect::run(&mut c, &mut src, &meta(), &human_cfg(), &mut log);

    assert_eq!(
        c.recorded("east"),
        Some(&Recorded::Button { code: BTN_EAST }),
        "a multi-poll overshoot of the PREVIOUS control satisfied the east prompt — the drain must \
         absorb the whole tail, not one poll of it"
    );
}

#[test]
fn dpad_prompt_rejects_the_previous_directions_overshoot() {
    let mut src = dut();
    src.push_batch(hat_frame(ABS_HAT0Y, -1)); // UP — window closes 2 quiet polls later
    push_rest(&mut src, 2);
    src.push_batch(hat_frame(ABS_HAT0X, -1)); // OVERSHOOT onto LEFT, just past the close
    push_rest(&mut src, INTER_CONTROL_GAP);
    src.push_batch(hat_frame(ABS_HAT0Y, 1)); // DOWN
    push_rest(&mut src, INTER_CONTROL_GAP);
    src.push_batch(hat_frame(ABS_HAT0X, -1)); // LEFT
    push_rest(&mut src, INTER_CONTROL_GAP);
    src.push_batch(hat_frame(ABS_HAT0X, 1)); // RIGHT
    push_rest(&mut src, INTER_CONTROL_GAP);
    src.push_batch(vec![]);
    src.push_batch(vec![]);

    let plan = ["dpad_up", "dpad_down", "dpad_left", "dpad_right"]
        .into_iter()
        .map(|id| ControlSpec { id: id.into(), kind: Kind::HatDir, prompt: id.into(), optional: false, source: None })
        .collect();
    let mut c = Collector::new(plan);
    let mut log = Vec::new();
    let _ = collect::run(&mut c, &mut src, &meta(), &human_cfg(), &mut log);

    assert_eq!(
        c.recorded("dpad_up"),
        Some(&Recorded::HatAxis { code: ABS_HAT0Y }),
        "UP must record the VERTICAL hat axis"
    );
    assert_eq!(
        c.recorded("dpad_down"),
        Some(&Recorded::HatAxis { code: ABS_HAT0Y }),
        "DOWN recorded the horizontal axis — the UP overshoot bled across the control boundary and \
         satisfied this prompt, so the owner's real DOWN press was never what completed it"
    );
    assert_eq!(
        c.recorded("dpad_left"),
        Some(&Recorded::HatAxis { code: ABS_HAT0X }),
        "LEFT must record the HORIZONTAL hat axis (it captured the cascaded DOWN press instead)"
    );
    assert_eq!(
        c.recorded("dpad_right"),
        Some(&Recorded::HatAxis { code: ABS_HAT0X }),
        "RIGHT must record the HORIZONTAL hat axis"
    );
}

#[test]
fn dpad_prompt_survives_a_mid_actuation_pause_with_stick_crosstalk() {
    let mut src = dut();
    let mut brush = rest_frame();
    brush.extend([abs(ABS_X, 4095), abs(ABS_X, 2098)]);
    src.push_batch(brush);
    push_rest(&mut src, 5); // the owner PAUSES, hunting for the direction
    src.push_batch(hat_frame(ABS_HAT0Y, -1)); // the real UP press
    push_rest(&mut src, INTER_CONTROL_GAP);
    src.push_batch(hat_frame(ABS_HAT0X, -1)); // the real LEFT press
    push_rest(&mut src, INTER_CONTROL_GAP);
    src.push_batch(vec![]);
    src.push_batch(vec![]);

    let plan = ["dpad_up", "dpad_left"]
        .into_iter()
        .map(|id| ControlSpec { id: id.into(), kind: Kind::HatDir, prompt: id.into(), optional: false, source: None })
        .collect();
    let mut c = Collector::new(plan);
    let mut log = Vec::new();
    let run = collect::run(&mut c, &mut src, &meta(), &human_cfg(), &mut log);

    assert_eq!(
        c.recorded("dpad_up"),
        Some(&Recorded::HatAxis { code: ABS_HAT0Y }),
        "the UP prompt completed on STICK crosstalk plus a human pause and recorded a stick axis as \
         a D-PAD direction — a dpad direction must complete on a HAT actuation, never on quiet"
    );
    assert_eq!(
        c.recorded("dpad_left"),
        Some(&Recorded::HatAxis { code: ABS_HAT0X }),
        "the LEFT prompt must record the horizontal hat axis"
    );
    let cap = run.expect("both directions must capture and merge into one hat row");
    let dpad = cap.inputs.iter().find(|i| i.id == "dpad").expect("merged dpad row");
    assert_eq!(
        dpad.code, "ABS_HAT0X,ABS_HAT0Y",
        "the merged D-PAD row must be the two HAT axes, not a stick axis"
    );
}

#[test]
fn analog_trigger_survives_a_mid_squeeze_pause() {
    const ABS_Z: u16 = 0x02;
    const TRIG: AbsInfo = AbsInfo { min: 0, max: 255, fuzz: 0, flat: 0, resolution: 0 };
    let ident = Identity { name: "Generic Pad".into(), bus: 3, vid: 0x1234, pid: 0x5678, version: 1 };
    let mut src = ScriptedSource::new(ident).with_abs(ABS_Z, TRIG);
    src.push_batch([0, 40, 90, 140, 200].iter().map(|&v| abs(ABS_Z, v)).collect());
    for _ in 0..5 {
        src.push_batch(vec![]); // ... then PAUSE mid-squeeze ...
    }
    src.push_batch([210, 230, 255].iter().map(|&v| abs(ABS_Z, v)).collect()); // ... then finish it.
    src.push_batch(vec![]);
    src.push_batch(vec![]);

    let plan = vec![ControlSpec { id: "ltrig".into(), kind: Kind::Trigger, prompt: "ltrig".into(), optional: false, source: None }];
    let mut c = Collector::new(plan);
    let mut log = Vec::new();
    let cap = collect::run(&mut c, &mut src, &meta(), &human_cfg(), &mut log)
        .expect("a mid-squeeze PAUSE must not complete the trigger at partial travel and abort the run");
    let t = cap.inputs.iter().find(|i| i.id == "ltrig").expect("ltrig row");
    assert_eq!(t.code, "ABS_Z");
    assert_eq!(
        t.semantics.as_deref(),
        Some("analog"),
        "the full squeeze (with its intermediate travel) must be inside the capture window"
    );
}

#[test]
fn foreign_actuation_never_completes_a_control() {
    let stick_sweep = |src: &mut ScriptedSource| {
        for &v in &[4095, 2098, 0, 2098] {
            let mut f = rest_frame();
            f.extend([abs(ABS_X, v), abs(ABS_Y, v)]);
            src.push_batch(f);
        }
        push_rest(src, INTER_CONTROL_GAP);
        src.push_batch(vec![]);
        src.push_batch(vec![]);
    };

    for (id, kind) in [
        ("south", Kind::Button),
        ("l3", Kind::StickClick),
        ("dpad_up", Kind::HatDir),
    ] {
        let mut src = dut();
        stick_sweep(&mut src);
        let plan = vec![ControlSpec { id: id.into(), kind, prompt: id.into(), optional: false, source: None }];
        let mut c = Collector::new(plan);
        let mut log = Vec::new();
        let got = collect::run(&mut c, &mut src, &meta(), &human_cfg(), &mut log);
        assert_eq!(
            c.recorded(id),
            None,
            "{id} ({kind:?}) was CAPTURED from a LEFT-STICK SWEEP — foreign actuation must never \
             complete a control of another class"
        );
        match got {
            Err(collect::CollectError::NoActivity { id: got_id }) => assert_eq!(got_id, id),
            other => panic!(
                "{id} ({kind:?}) must report NoActivity when only foreign input was seen; got {:?}",
                other.map(|c| c.inputs.iter().map(|i| (i.id.clone(), i.code.clone())).collect::<Vec<_>>())
                     .map_err(|e| e.message())
            ),
        }
    }
}
