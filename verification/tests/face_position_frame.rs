use pf_runtime::input_decode::codes;
use pf_runtime::input_decode::decode::{Ev, Side, SideDecoder};
use pf_runtime::input_decode::frame::FrameScanner;

const CENTER: u16 = 2048;

struct Face {
    position: &'static str,
    glyph: &'static str,
    bit: u8,
    canonical: u16,
    glyph_keyed: u16,
}

const FACES: &[Face] = &[
    Face { position: "south (BOTTOM)", glyph: "B", bit: 0x20, canonical: 0x130, glyph_keyed: 0x131 },
    Face { position: "east (RIGHT)", glyph: "A", bit: 0x10, canonical: 0x131, glyph_keyed: 0x130 },
    Face { position: "west (LEFT)", glyph: "Y", bit: 0x08, canonical: 0x134, glyph_keyed: 0x134 },
    Face { position: "north (TOP)", glyph: "X", bit: 0x04, canonical: 0x133, glyph_keyed: 0x133 },
];

fn wire(buttons: u8, x: u16, y: u16) -> [u8; 8] {
    [0xFF, 0x01, buttons, (x >> 8) as u8, x as u8, (y >> 8) as u8, y as u8, 0xFE]
}

fn press(bit: u8) -> Vec<(u16, i32)> {
    let mut scanner = FrameScanner::new();
    let mut decoder = SideDecoder::new(Side::Right);
    let mut last: Vec<Ev> = Vec::new();
    for frame_bytes in [wire(0x00, CENTER, CENTER), wire(bit, CENTER, CENTER)] {
        for f in scanner.push(&frame_bytes) {
            last = decoder.apply(f);
        }
    }
    last.iter().filter(|e| e.ev_type == codes::EV_KEY).map(|e| (e.code, e.value)).collect()
}

#[test]
fn each_face_position_emits_its_canonical_positional_code() {
    for f in FACES {
        assert_eq!(
            press(f.bit),
            vec![(f.canonical, 1)],
            "{} (printed \"{}\", MCU bit {:#04x}) must emit its CANONICAL positional code {:#05x}. \
             Getting {:#05x} instead means the map is keyed on the printed glyph, not on where \
             the button physically is.",
            f.position,
            f.glyph,
            f.bit,
            f.canonical,
            f.glyph_keyed,
        );
    }
}

#[test]
fn south_and_east_are_not_glyph_keyed() {
    for f in FACES.iter().filter(|f| f.canonical != f.glyph_keyed) {
        let got = press(f.bit);
        assert_ne!(
            got,
            vec![(f.glyph_keyed, 1)],
            "{} emitted {:#05x}, the code its PRINTED GLYPH \"{}\" names. This chassis is \
             Nintendo-arranged, so the glyph and the position disagree here: the button printed \
             \"{}\" is not the {} position. Key the table on position ({:#05x}).",
            f.position,
            f.glyph_keyed,
            f.glyph,
            f.glyph,
            f.glyph,
            f.canonical,
        );
        assert_eq!(got, vec![(f.canonical, 1)], "{} must emit canonical", f.position);
    }
}

#[test]
fn the_four_faces_are_a_bijection_onto_the_canonical_face_codes() {
    let mut emitted: Vec<u16> = FACES
        .iter()
        .map(|f| {
            let evs = press(f.bit);
            assert_eq!(evs.len(), 1, "{}: exactly one key event", f.position);
            evs[0].0
        })
        .collect();
    emitted.sort_unstable();
    assert_eq!(emitted, vec![0x130, 0x131, 0x133, 0x134], "the four canonical face codes, each once");
}

#[test]
fn positional_constants_match_the_kernel_abi() {
    assert_eq!(codes::BTN_SOUTH, 0x130, "BTN_SOUTH (alias BTN_A)");
    assert_eq!(codes::BTN_EAST, 0x131, "BTN_EAST (alias BTN_B)");
    assert_eq!(codes::BTN_NORTH, 0x133, "BTN_NORTH (alias BTN_X)");
    assert_eq!(codes::BTN_WEST, 0x134, "BTN_WEST (alias BTN_Y)");
}
