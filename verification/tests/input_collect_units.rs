use pf_runtime::input_collect::codes::{abs_name, ev_type_name, key_name};
use pf_runtime::input_collect::emit::{axis_inline, sdl_guid, Axis};
use pf_runtime::input_collect::plan::{a133_gamepad_plan, default_gamepad_plan, Kind};

#[test]
fn the_a133_face_and_axis_codes_name_correctly() {
    assert_eq!(key_name(0x130), Some("BTN_A"));
    assert_eq!(key_name(0x131), Some("BTN_B"));
    assert_eq!(key_name(0x133), Some("BTN_X"));
    assert_eq!(key_name(0x134), Some("BTN_Y"));
    assert_eq!(key_name(0x13a), Some("BTN_SELECT"));
    assert_eq!(key_name(0x13b), Some("BTN_START"));
    assert_eq!(key_name(0x13c), Some("BTN_MODE"));
    assert_eq!(key_name(0x136), Some("BTN_TL"));
    assert_eq!(key_name(0x137), Some("BTN_TR"));
    assert_eq!(abs_name(0x0), Some("ABS_X"));
    assert_eq!(abs_name(0x1), Some("ABS_Y"));
    assert_eq!(abs_name(0x3), Some("ABS_RX"));
    assert_eq!(abs_name(0x4), Some("ABS_RY"));
    assert_eq!(abs_name(0x2), Some("ABS_Z"));
    assert_eq!(abs_name(0x5), Some("ABS_RZ"));
    assert_eq!(abs_name(0x10), Some("ABS_HAT0X"));
    assert_eq!(abs_name(0x11), Some("ABS_HAT0Y"));
}

#[test]
fn unknown_codes_are_none_not_fabricated() {
    assert_eq!(key_name(0xfff), None);
    assert_eq!(abs_name(0xfe), None);
    assert_eq!(ev_type_name(0x04), None); // EV_MSC is not descriptor-valid
}

#[test]
fn sdl_guid_matches_the_shipped_a133_value() {
    assert_eq!(sdl_guid(3, 0x045e, 0x028e, 0x0110), "030000005e0400008e02000010010000");
}

#[test]
fn axis_inline_omits_zero_resolution() {
    let a = Axis { min: 0, max: 255, fuzz: 0, flat: 0, resolution: 0, value: None };
    assert_eq!(axis_inline(&a), "{ min = 0, max = 255, fuzz = 0, flat = 0 }");
    let b = Axis { min: -32768, max: 32767, fuzz: 16, flat: 128, resolution: 5, value: None };
    assert_eq!(
        axis_inline(&b),
        "{ min = -32768, max = 32767, fuzz = 16, flat = 128, resolution = 5 }"
    );
    let c = Axis { min: 12, max: 4083, fuzz: 0, flat: 0, resolution: 0, value: Some(2097) };
    assert_eq!(axis_inline(&c), "{ min = 12, max = 4083, fuzz = 0, flat = 0, value = 2097 }");
}

#[test]
fn kind_strings_and_axis_counts_match_schema() {
    assert_eq!(Kind::Button.as_str(), "button");
    assert_eq!(Kind::Hat.as_str(), "hat");
    assert_eq!(Kind::Stick.as_str(), "stick");
    assert_eq!(Kind::StickClick.as_str(), "stick-click");
    assert_eq!(Kind::Trigger.as_str(), "trigger");
    assert_eq!(Kind::Button.expected_axes(), 1);
    assert_eq!(Kind::Hat.expected_axes(), 2);
    assert_eq!(Kind::Stick.expected_axes(), 2);
    assert_eq!(Kind::Trigger.expected_axes(), 1);
}

#[test]
fn default_plan_covers_the_a133_base_controls() {
    let ids: Vec<_> = default_gamepad_plan().into_iter().map(|c| c.id).collect();
    for want in ["south", "east", "west", "north", "select", "start", "l1", "r1", "dpad",
        "lstick", "rstick", "ltrig", "rtrig"]
    {
        assert!(ids.contains(&want.to_string()), "plan missing {want}");
    }
}

#[test]
fn a133_plan_is_the_17_prompt_frozen_baseline_one_to_one() {
    let plan = a133_gamepad_plan();
    let ids: Vec<&str> = plan.iter().map(|c| c.id.as_str()).collect();
    assert_eq!(
        ids,
        [
            "south", "east", "west", "north", "select", "start", "guide", "l1", "r1",
            "dpad_up", "dpad_down", "dpad_left", "dpad_right",
            "lstick", "rstick", "ltrig", "rtrig",
        ],
        "a133 plan must be exactly the 17-prompt frozen baseline"
    );
    assert_eq!(plan.len(), 17, "the a133 plan is 17 prompts (baseline 1:1)");
    for phantom in ["l3", "r3", "home", "capture", "misc", "dpad"] {
        assert!(!ids.contains(&phantom), "a133 plan must not prompt {phantom}");
    }
    for c in &plan {
        assert!(!c.optional, "a133 control {} must be required (no flash-then-skip)", c.id);
    }
    for d in ["dpad_up", "dpad_down", "dpad_left", "dpad_right"] {
        let c = plan.iter().find(|c| c.id == d).unwrap();
        assert_eq!(c.kind, Kind::HatDir, "{d} must be an atomic HatDir step");
    }
}

#[test]
fn a133_plan_is_gamepad_node_scoped_only() {
    let plan = a133_gamepad_plan();
    for c in &plan {
        assert_eq!(
            c.source, None,
            "control '{}' is pinned to a non-primary source — the a133 GAMEPAD-node plan is \
             single-node by construction; a multi-node control belongs to the multi-source \
             path (ControlSpec::on_source + a MultiSource run), not smuggled in here",
            c.id
        );
    }
    for sys in ["vol_up", "vol_down", "volumeup", "volumedown", "home", "power", "mute"] {
        assert!(
            !plan.iter().any(|c| c.id == sys),
            "system control '{sys}' must NOT appear in the a133 gamepad-node plan — it lives on \
             a DIFFERENT evdev node (sunxi-keyboard / audiocodec)"
        );
    }
}
