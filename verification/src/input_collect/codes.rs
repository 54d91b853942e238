//! Reverse `code -> name` tables for the evdev event codes the descriptor vocabulary uses,
//! restricted to exactly the schema vocabulary (a code outside it has no name, never a
//! fabricated one).
use vstd::prelude::*;

verus! {

/// `EV_SYN` — report-boundary event type.
pub const EV_SYN: u16 = 0x00;
/// `EV_KEY` — key/button event type.
pub const EV_KEY: u16 = 0x01;
/// `EV_ABS` — absolute-axis event type.
pub const EV_ABS: u16 = 0x03;
/// `SYN_REPORT` — commit the current event report.
pub const SYN_REPORT: u16 = 0x00;

/// The schema `ev_type` spelling of an event type (only `EV_KEY`/`EV_ABS` are descriptor-valid).
pub open spec fn ev_type_name_spec(ev_type: u16) -> Option<&'static str> {
    if ev_type == EV_KEY {
        Some("EV_KEY")
    } else if ev_type == EV_ABS {
        Some("EV_ABS")
    } else {
        None
    }
}

/// The schema name of an `EV_KEY` code.
pub open spec fn key_name_spec(code: u16) -> Option<&'static str> {
    match code {
        0x120 => Some("BTN_TRIGGER"),
        0x121 => Some("BTN_THUMB"),
        0x130 => Some("BTN_A"),
        0x131 => Some("BTN_B"),
        0x132 => Some("BTN_C"),
        0x133 => Some("BTN_X"),
        0x134 => Some("BTN_Y"),
        0x135 => Some("BTN_Z"),
        0x136 => Some("BTN_TL"),
        0x137 => Some("BTN_TR"),
        0x138 => Some("BTN_TL2"),
        0x139 => Some("BTN_TR2"),
        0x13a => Some("BTN_SELECT"),
        0x13b => Some("BTN_START"),
        0x13c => Some("BTN_MODE"),
        0x13d => Some("BTN_THUMBL"),
        0x13e => Some("BTN_THUMBR"),
        0x220 => Some("BTN_DPAD_UP"),
        0x221 => Some("BTN_DPAD_DOWN"),
        0x222 => Some("BTN_DPAD_LEFT"),
        0x223 => Some("BTN_DPAD_RIGHT"),
        0x1 => Some("KEY_ESC"),
        0x1c => Some("KEY_ENTER"),
        0x66 => Some("KEY_HOME"),
        0x72 => Some("KEY_VOLUMEDOWN"),
        0x73 => Some("KEY_VOLUMEUP"),
        0x74 => Some("KEY_POWER"),
        0x8b => Some("KEY_MENU"),
        0x9e => Some("KEY_BACK"),
        0xac => Some("KEY_HOMEPAGE"),
        _ => None,
    }
}

/// The schema name of an `EV_ABS` code.
pub open spec fn abs_name_spec(code: u16) -> Option<&'static str> {
    match code {
        0x0 => Some("ABS_X"),
        0x1 => Some("ABS_Y"),
        0x2 => Some("ABS_Z"),
        0x3 => Some("ABS_RX"),
        0x4 => Some("ABS_RY"),
        0x5 => Some("ABS_RZ"),
        0x6 => Some("ABS_THROTTLE"),
        0x7 => Some("ABS_RUDDER"),
        0x9 => Some("ABS_GAS"),
        0xa => Some("ABS_BRAKE"),
        0x10 => Some("ABS_HAT0X"),
        0x11 => Some("ABS_HAT0Y"),
        0x12 => Some("ABS_HAT1X"),
        0x13 => Some("ABS_HAT1Y"),
        _ => None,
    }
}

/// The schema `ev_type` spelling for an event type.
pub fn ev_type_name(ev_type: u16) -> (r: Option<&'static str>)
    ensures
        r == ev_type_name_spec(ev_type),
{
    if ev_type == EV_KEY {
        Some("EV_KEY")
    } else if ev_type == EV_ABS {
        Some("EV_ABS")
    } else {
        None
    }
}

/// `EV_KEY` code -> canonical `BTN_*`/`KEY_*` name (schema vocabulary only).
pub fn key_name(code: u16) -> (r: Option<&'static str>)
    ensures
        r == key_name_spec(code),
{
    match code {
        0x120 => Some("BTN_TRIGGER"),
        0x121 => Some("BTN_THUMB"),
        0x130 => Some("BTN_A"),
        0x131 => Some("BTN_B"),
        0x132 => Some("BTN_C"),
        0x133 => Some("BTN_X"),
        0x134 => Some("BTN_Y"),
        0x135 => Some("BTN_Z"),
        0x136 => Some("BTN_TL"),
        0x137 => Some("BTN_TR"),
        0x138 => Some("BTN_TL2"),
        0x139 => Some("BTN_TR2"),
        0x13a => Some("BTN_SELECT"),
        0x13b => Some("BTN_START"),
        0x13c => Some("BTN_MODE"),
        0x13d => Some("BTN_THUMBL"),
        0x13e => Some("BTN_THUMBR"),
        0x220 => Some("BTN_DPAD_UP"),
        0x221 => Some("BTN_DPAD_DOWN"),
        0x222 => Some("BTN_DPAD_LEFT"),
        0x223 => Some("BTN_DPAD_RIGHT"),
        0x1 => Some("KEY_ESC"),
        0x1c => Some("KEY_ENTER"),
        0x66 => Some("KEY_HOME"),
        0x72 => Some("KEY_VOLUMEDOWN"),
        0x73 => Some("KEY_VOLUMEUP"),
        0x74 => Some("KEY_POWER"),
        0x8b => Some("KEY_MENU"),
        0x9e => Some("KEY_BACK"),
        0xac => Some("KEY_HOMEPAGE"),
        _ => None,
    }
}

/// `EV_ABS` code -> canonical `ABS_*` name (schema vocabulary only).
pub fn abs_name(code: u16) -> (r: Option<&'static str>)
    ensures
        r == abs_name_spec(code),
{
    match code {
        0x0 => Some("ABS_X"),
        0x1 => Some("ABS_Y"),
        0x2 => Some("ABS_Z"),
        0x3 => Some("ABS_RX"),
        0x4 => Some("ABS_RY"),
        0x5 => Some("ABS_RZ"),
        0x6 => Some("ABS_THROTTLE"),
        0x7 => Some("ABS_RUDDER"),
        0x9 => Some("ABS_GAS"),
        0xa => Some("ABS_BRAKE"),
        0x10 => Some("ABS_HAT0X"),
        0x11 => Some("ABS_HAT0Y"),
        0x12 => Some("ABS_HAT1X"),
        0x13 => Some("ABS_HAT1Y"),
        _ => None,
    }
}

/// The schema name of an `(ev_type, code)` pair.
pub open spec fn code_name_spec(ev_type: u16, code: u16) -> Option<&'static str> {
    if ev_type == EV_KEY {
        key_name_spec(code)
    } else if ev_type == EV_ABS {
        abs_name_spec(code)
    } else {
        None
    }
}

/// Name an `(ev_type, code)` pair the descriptor way; `None` if either is outside the vocabulary.
pub fn code_name(ev_type: u16, code: u16) -> (r: Option<&'static str>)
    ensures
        r == code_name_spec(ev_type, code),
{
    if ev_type == EV_KEY {
        key_name(code)
    } else if ev_type == EV_ABS {
        abs_name(code)
    } else {
        None
    }
}

} // verus!
