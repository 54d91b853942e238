//! The virtual gamepad the decoder presents: its compatibility identity and every control the
//! base unit physically wires.
use vstd::prelude::*;
use super::codes;
use super::decode::{all_axes, all_button_codes, left_table, right_table};

verus! {

/// Device name (matches the descriptor `match.evdev_name`).
pub const NAME: &'static str = "TRIMUI Player1";
/// `BUS_USB` — the bus the faked X360 identity carries.
pub const BUS: u16 = 0x03;
/// Microsoft vendor id.
pub const VENDOR: u16 = 0x045e;
/// Xbox-360 wired product id.
pub const PRODUCT: u16 = 0x028e;
/// Version word (`0x0110`).
pub const VERSION: u16 = 0x0110;

/// One advertised absolute axis range.
#[derive(Clone, Copy, Debug, PartialEq, Eq, Structural)]
pub struct AbsInfo {
    pub min: i32,
    pub max: i32,
    pub fuzz: i32,
    pub flat: i32,
}

/// What the virtual device advertises: identity, button codes, and axis ranges.
#[derive(Clone, Debug)]
pub struct UinputSpec {
    pub name: String,
    pub bus: u16,
    pub vendor: u16,
    pub product: u16,
    pub version: u16,
    pub keys: Vec<u16>,
    pub abs: Vec<(u16, AbsInfo)>,
}

/// The axes as advertised: each `(code, min, max)` with zero fuzz and flat.
pub open spec fn advertised_axes() -> Seq<(u16, AbsInfo)> {
    seq![
        (codes::ABS_X, AbsInfo { min: 0, max: 4095, fuzz: 0, flat: 0 }),
        (codes::ABS_Y, AbsInfo { min: 0, max: 4095, fuzz: 0, flat: 0 }),
        (codes::ABS_RX, AbsInfo { min: 0, max: 4095, fuzz: 0, flat: 0 }),
        (codes::ABS_RY, AbsInfo { min: 0, max: 4095, fuzz: 0, flat: 0 }),
        (codes::ABS_HAT0X, AbsInfo { min: -1i32, max: 1i32, fuzz: 0, flat: 0 }),
        (codes::ABS_HAT0Y, AbsInfo { min: -1i32, max: 1i32, fuzz: 0, flat: 0 }),
    ]
}

/// Build the full [`UinputSpec`] for the A133 pad: the compatibility identity plus every button
/// and axis the base unit wires.
pub fn a133_spec() -> (s: UinputSpec)
    ensures
        s.name@ == NAME@,
        s.bus == BUS,
        s.vendor == VENDOR,
        s.product == PRODUCT,
        s.version == VERSION,
        s.keys@ == right_table().map_values(|r: (u8, u16)| r.1) + left_table().map_values(
            |r: (u8, u16)| r.1,
        ),
        s.abs@ == advertised_axes(),
{
    let keys = all_button_codes();
    let axes = all_axes();
    let mut abs: Vec<(u16, AbsInfo)> = Vec::new();
    let mut i: usize = 0;
    while i < axes.len()
        invariant
            i <= axes@.len(),
            axes@.len() == 6,
            forall|j: int|
                0 <= j < i ==> #[trigger] abs@[j] == (axes@[j].0, AbsInfo {
                    min: axes@[j].1,
                    max: axes@[j].2,
                    fuzz: 0,
                    flat: 0,
                }),
            abs@.len() == i,
        decreases axes@.len() - i,
    {
        let (code, min, max) = axes[i];
        abs.push((code, AbsInfo { min, max, fuzz: 0, flat: 0 }));
        i += 1;
    }
    assert(abs@ =~= advertised_axes());
    UinputSpec {
        name: String::from_str(NAME),
        bus: BUS,
        vendor: VENDOR,
        product: PRODUCT,
        version: VERSION,
        keys,
        abs,
    }
}

} // verus!
