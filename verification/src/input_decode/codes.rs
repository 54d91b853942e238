//! The evdev event-type / button / axis code constants the A133 pad decoder emits.
//!
//! Values are the canonical Linux `input-event-codes.h` numbers, restricted to exactly the
//! controls the pad physically wires. Face buttons are named by PHYSICAL POSITION
//! (kernel-canonical `BTN_SOUTH`/`BTN_EAST`/`BTN_WEST`/`BTN_NORTH`), never by a printed glyph:
//! this chassis is Nintendo-arranged, so the glyph and the kernel letter alias disagree on
//! south/east. The lettered spellings are deliberately not defined here.
use vstd::prelude::*;

verus! {

/// `EV_SYN` — report-boundary event type.
pub const EV_SYN: u16 = 0x00;
/// `EV_KEY` — key/button event type.
pub const EV_KEY: u16 = 0x01;
/// `EV_ABS` — absolute-axis event type.
pub const EV_ABS: u16 = 0x03;
/// `SYN_REPORT` — commit the current event report.
pub const SYN_REPORT: u16 = 0x00;

/// The BOTTOM face button (`BTN_SOUTH`).
pub const BTN_SOUTH: u16 = 0x130;
/// The RIGHT face button (`BTN_EAST`).
pub const BTN_EAST: u16 = 0x131;
/// The TOP face button (`BTN_NORTH`).
pub const BTN_NORTH: u16 = 0x133;
/// The LEFT face button (`BTN_WEST`).
pub const BTN_WEST: u16 = 0x134;

/// L1 shoulder.
pub const BTN_TL: u16 = 0x136;
/// R1 shoulder.
pub const BTN_TR: u16 = 0x137;
/// L2 — physically binary, emitted as the digital lower-trigger button.
pub const BTN_TL2: u16 = 0x138;
/// R2 — physically binary, emitted as the digital lower-trigger button.
pub const BTN_TR2: u16 = 0x139;

/// Select.
pub const BTN_SELECT: u16 = 0x13a;
/// Start.
pub const BTN_START: u16 = 0x13b;
/// Menu — the base unit's single guide/menu key.
pub const BTN_MODE: u16 = 0x13c;

/// Left stick X.
pub const ABS_X: u16 = 0x00;
/// Left stick Y.
pub const ABS_Y: u16 = 0x01;
/// Right stick X.
pub const ABS_RX: u16 = 0x03;
/// Right stick Y.
pub const ABS_RY: u16 = 0x04;
/// D-pad X (hat: -1 left, +1 right).
pub const ABS_HAT0X: u16 = 0x10;
/// D-pad Y (hat: -1 up, +1 down).
pub const ABS_HAT0Y: u16 = 0x11;

/// The raw stick range: the MCU streams a 12-bit unsigned sample, so `0..=4095`.
pub const STICK_MIN: i32 = 0;
/// See [`STICK_MIN`].
pub const STICK_MAX: i32 = 4095;

} // verus!
