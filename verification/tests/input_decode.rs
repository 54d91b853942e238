use pf_runtime::input_decode::codes;
use pf_runtime::input_decode::decode::{Ev, Side, SideDecoder, D_DOWN, D_LEFT, D_RIGHT, D_UP};
use pf_runtime::input_decode::device::a133_spec;
use pf_runtime::input_decode::frame::{Frame, FrameScanner, EOF, HDR1, SOF};
use pf_runtime::input_decode::ioc::{
    ui_get_sysname, UI_DEV_CREATE, UI_DEV_DESTROY, UI_SET_ABSBIT, UI_SET_EVBIT, UI_SET_KEYBIT,
};

fn frame(buttons: u8, x: u16, y: u16) -> [u8; 8] {
    [SOF, HDR1, buttons, (x >> 8) as u8, x as u8, (y >> 8) as u8, y as u8, EOF]
}

#[test]
fn parses_a_clean_frame() {
    let mut s = FrameScanner::new();
    let f = s.push(&frame(0x14, 0x0801, 0x07FF));
    assert_eq!(f, vec![Frame { buttons: 0x14, x: 0x0801, y: 0x07FF }]);
}

#[test]
fn twelve_bit_mask_clamps_a_stray_high_nibble() {
    let mut s = FrameScanner::new();
    let raw = [SOF, HDR1, 0x00, 0xF8, 0x34, 0x0A, 0xBC, EOF];
    let f = s.push(&raw);
    assert_eq!(f[0].x, 0x0834, "x masked to 12 bits");
    assert_eq!(f[0].y, 0x0ABC, "y masked to 12 bits");
}

#[test]
fn frames_split_across_reads_are_reassembled() {
    let mut s = FrameScanner::new();
    let f = frame(0x22, 0x0100, 0x0200);
    assert!(s.push(&f[0..3]).is_empty(), "partial frame yields nothing yet");
    assert!(s.push(&f[3..6]).is_empty(), "still partial");
    let out = s.push(&f[6..8]);
    assert_eq!(out, vec![Frame { buttons: 0x22, x: 0x0100, y: 0x0200 }]);
}

#[test]
fn back_to_back_frames_in_one_read() {
    let mut s = FrameScanner::new();
    let mut bytes = Vec::new();
    bytes.extend_from_slice(&frame(0x01, 0x0010, 0x0020));
    bytes.extend_from_slice(&frame(0x02, 0x0030, 0x0040));
    let out = s.push(&bytes);
    assert_eq!(out.len(), 2);
    assert_eq!(out[0].buttons, 0x01);
    assert_eq!(out[1].buttons, 0x02);
}

#[test]
fn resyncs_after_leading_garbage_and_a_false_marker() {
    let mut s = FrameScanner::new();
    let mut bytes = vec![0x00, 0x13, 0x37]; // pure garbage, no marker
    bytes.push(SOF);
    bytes.push(0x99);
    bytes.extend_from_slice(&frame(0x40, 0x0AAA, 0x0555));
    let out = s.push(&bytes);
    assert_eq!(out, vec![Frame { buttons: 0x40, x: 0x0AAA, y: 0x0555 }]);
}

#[test]
fn a_dangling_start_marker_is_held_not_dropped() {
    let mut s = FrameScanner::new();
    assert!(s.push(&[0x00, SOF]).is_empty());
    let rest = [HDR1, 0x55, 0x01, 0x02, 0x03, 0x04, EOF];
    let out = s.push(&rest);
    assert_eq!(out, vec![Frame { buttons: 0x55, x: 0x0102, y: 0x0304 }]);
}

fn f(buttons: u8, x: u16, y: u16) -> Frame {
    Frame { buttons, x, y }
}

fn keys(evs: &[Ev]) -> Vec<(u16, i32)> {
    evs.iter().filter(|e| e.ev_type == codes::EV_KEY).map(|e| (e.code, e.value)).collect()
}
fn abses(evs: &[Ev]) -> Vec<(u16, i32)> {
    evs.iter().filter(|e| e.ev_type == codes::EV_ABS).map(|e| (e.code, e.value)).collect()
}

#[test]
fn right_side_first_frame_emits_both_axes_and_held_buttons() {
    let mut d = SideDecoder::new(Side::Right);
    let evs = d.apply(f(0x10, 2048, 2050));
    assert_eq!(keys(&evs), vec![(codes::BTN_EAST, 1)], "east pressed at startup");
    assert_eq!(abses(&evs), vec![(codes::ABS_RX, 2048), (codes::ABS_RY, 2050)]);
}

#[test]
fn every_right_button_maps_to_its_ground_truth_code() {
    let cases = [
        (0x01u8, codes::BTN_TR),
        (0x02, codes::BTN_TR2),
        (0x04, codes::BTN_NORTH),
        (0x08, codes::BTN_WEST),
        (0x10, codes::BTN_EAST),
        (0x20, codes::BTN_SOUTH),
        (0x40, codes::BTN_SELECT),
        (0x80, codes::BTN_START),
    ];
    for (mask, code) in cases {
        let mut d = SideDecoder::new(Side::Right);
        d.apply(f(0x00, 2048, 2048)); // establish baseline (no buttons)
        let evs = d.apply(f(mask, 2048, 2048));
        assert_eq!(keys(&evs), vec![(code, 1)], "bit {mask:#04x} → {code:#05x} press");
        let evs = d.apply(f(0x00, 2048, 2048));
        assert_eq!(keys(&evs), vec![(code, 0)], "bit {mask:#04x} → {code:#05x} release");
    }
}

#[test]
fn every_left_button_maps_to_its_ground_truth_code() {
    let cases =
        [(0x01u8, codes::BTN_TL), (0x02, codes::BTN_TL2), (0x80, codes::BTN_MODE)];
    for (mask, code) in cases {
        let mut d = SideDecoder::new(Side::Left);
        d.apply(f(0x00, 2048, 2048));
        let evs = d.apply(f(mask, 2048, 2048));
        assert_eq!(keys(&evs), vec![(code, 1)], "left bit {mask:#04x} → {code:#05x}");
    }
}

#[test]
fn left_dpad_bits_produce_a_hat_not_buttons() {
    let mut d = SideDecoder::new(Side::Left);
    d.apply(f(0x00, 2048, 2048)); // baseline centred
    let evs = d.apply(f(D_UP, 2048, 2048));
    assert_eq!(keys(&evs), vec![], "d-pad never emits a button");
    assert_eq!(abses(&evs), vec![(codes::ABS_HAT0Y, -1)], "Dup → HAT0Y=-1");
    let evs = d.apply(f(D_DOWN, 2048, 2048));
    assert_eq!(abses(&evs), vec![(codes::ABS_HAT0Y, 1)], "Ddown → HAT0Y=+1");
    let evs = d.apply(f(D_LEFT, 2048, 2048));
    assert_eq!(abses(&evs), vec![(codes::ABS_HAT0X, -1), (codes::ABS_HAT0Y, 0)]);
    let evs = d.apply(f(D_RIGHT, 2048, 2048));
    assert_eq!(abses(&evs), vec![(codes::ABS_HAT0X, 1)], "Dright → HAT0X=+1");
    let evs = d.apply(f(0x00, 2048, 2048));
    assert_eq!(abses(&evs), vec![(codes::ABS_HAT0X, 0)]);
}

#[test]
fn opposite_dpad_bits_cancel_to_centre() {
    let mut d = SideDecoder::new(Side::Left);
    d.apply(f(0x00, 2048, 2048));
    let evs = d.apply(f(D_LEFT | D_RIGHT, 2048, 2048));
    assert_eq!(abses(&evs), vec![], "left+right → centre, no motion from rest");
}

#[test]
fn left_unused_pro_s_bit_is_ignored() {
    let mut d = SideDecoder::new(Side::Left);
    d.apply(f(0x00, 2048, 2048));
    let evs = d.apply(f(0x40, 2048, 2048)); // the Pro-S-only bit, unused on base
    assert_eq!(evs, vec![], "unused bit 0x40 emits nothing");
}

#[test]
fn sticks_are_edge_triggered_after_the_first_frame() {
    let mut d = SideDecoder::new(Side::Left);
    d.apply(f(0x00, 1000, 2000));
    let evs = d.apply(f(0x00, 1000, 2000));
    assert_eq!(evs, vec![], "unchanged frame → no events");
    let evs = d.apply(f(0x00, 1234, 2000));
    assert_eq!(abses(&evs), vec![(codes::ABS_X, 1234)], "only the moved axis re-emits");
}

#[test]
fn left_and_right_sticks_use_different_axis_codes() {
    let mut l = SideDecoder::new(Side::Left);
    let mut r = SideDecoder::new(Side::Right);
    assert_eq!(abses(&l.apply(f(0, 10, 20))), vec![(codes::ABS_X, 10), (codes::ABS_Y, 20)]);
    assert_eq!(abses(&r.apply(f(0, 30, 40))), vec![(codes::ABS_RX, 30), (codes::ABS_RY, 40)]);
}

#[test]
fn fixed_codes_match_canonical_linux_values() {
    assert_eq!(UI_DEV_CREATE as u32, 0x5501, "UI_DEV_CREATE = _IO('U', 1)");
    assert_eq!(UI_DEV_DESTROY as u32, 0x5502, "UI_DEV_DESTROY = _IO('U', 2)");
    assert_eq!(UI_SET_EVBIT as u32, 0x40045564, "UI_SET_EVBIT = _IOW('U', 100, int)");
    assert_eq!(UI_SET_KEYBIT as u32, 0x40045565, "UI_SET_KEYBIT = _IOW('U', 101, int)");
    assert_eq!(UI_SET_ABSBIT as u32, 0x40045567, "UI_SET_ABSBIT = _IOW('U', 103, int)");
}

#[test]
fn ui_get_sysname_tracks_len() {
    assert_eq!(ui_get_sysname(64) as u32, 0x8040552c);
}

#[test]
fn a133_spec_advertises_every_control_exactly_once() {
    let s = a133_spec();
    assert_eq!((s.bus, s.vendor, s.product), (0x03, 0x045e, 0x028e));
    let expect_keys = [
        codes::BTN_SOUTH,
        codes::BTN_EAST,
        codes::BTN_NORTH,
        codes::BTN_WEST,
        codes::BTN_TL,
        codes::BTN_TR,
        codes::BTN_TL2,
        codes::BTN_TR2,
        codes::BTN_SELECT,
        codes::BTN_START,
        codes::BTN_MODE,
    ];
    for k in expect_keys {
        assert_eq!(s.keys.iter().filter(|&&c| c == k).count(), 1, "key {k:#05x} advertised once");
    }
    assert_eq!(s.keys.len(), expect_keys.len(), "no extra/missing buttons");
    for (code, min, max) in [
        (codes::ABS_X, 0, 4095),
        (codes::ABS_Y, 0, 4095),
        (codes::ABS_RX, 0, 4095),
        (codes::ABS_RY, 0, 4095),
        (codes::ABS_HAT0X, -1, 1),
        (codes::ABS_HAT0Y, -1, 1),
    ] {
        let ai = s.abs.iter().find(|(c, _)| *c == code).map(|(_, a)| *a);
        let ai = ai.unwrap_or_else(|| panic!("axis {code:#x} advertised"));
        assert_eq!((ai.min, ai.max), (min, max), "axis {code:#x} range");
    }
    assert_eq!(s.abs.len(), 6, "exactly six axes");
}
