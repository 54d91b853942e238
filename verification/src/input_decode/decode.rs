//! The control map — turn a per-UART [`Frame`] into evdev events.
//!
//! - `ttyS3` = RIGHT stick + `byte2` bits `0x01`=R1 `0x02`=R2 `0x04`=north `0x08`=west
//!   `0x10`=east `0x20`=south `0x40`=Select `0x80`=Start.
//! - `ttyS4` = LEFT stick + `0x01`=L1 `0x02`=L2 `0x04`=Dup `0x08`=Dleft `0x10`=Dright
//!   `0x20`=Ddown `0x40`=unused `0x80`=Menu.
//!
//! Face rows are keyed on PHYSICAL POSITION (kernel-canonical codes). L2/R2 are binary buttons;
//! the LEFT d-pad is emitted as an `ABS_HAT0X`/`ABS_HAT0Y` hat.
use vstd::prelude::*;
use super::codes;
use super::frame::Frame;

verus! {

/// Which UART a frame came from.
#[derive(Clone, Copy, Debug, PartialEq, Eq, Structural)]
pub enum Side {
    /// `/dev/ttyS3` — the RIGHT stick + the right-hand button cluster.
    Right,
    /// `/dev/ttyS4` — the LEFT stick + the left-hand cluster, d-pad, and Menu.
    Left,
}

/// One evdev event to emit: `(ev_type, code, value)`.
#[derive(Clone, Copy, Debug, PartialEq, Eq, Structural)]
pub struct Ev {
    /// `EV_KEY` or `EV_ABS`.
    pub ev_type: u16,
    /// The button/axis code.
    pub code: u16,
    /// Key press/release (1/0) or the axis value.
    pub value: i32,
}

pub open spec fn key_ev(code: u16, pressed: bool) -> Ev {
    Ev { ev_type: codes::EV_KEY, code, value: if pressed { 1i32 } else { 0i32 } }
}

pub open spec fn abs_ev(code: u16, value: i32) -> Ev {
    Ev { ev_type: codes::EV_ABS, code, value }
}

impl Ev {
    fn key(code: u16, pressed: bool) -> (e: Ev)
        ensures
            e == key_ev(code, pressed),
    {
        Ev { ev_type: codes::EV_KEY, code, value: if pressed { 1 } else { 0 } }
    }

    fn abs(code: u16, value: i32) -> (e: Ev)
        ensures
            e == abs_ev(code, value),
    {
        Ev { ev_type: codes::EV_ABS, code, value }
    }
}

/// RIGHT UART `byte2` bit → button code. Face rows are keyed on physical position.
pub open spec fn right_table() -> Seq<(u8, u16)> {
    seq![
        (0x01u8, codes::BTN_TR),
        (0x02u8, codes::BTN_TR2),
        (0x04u8, codes::BTN_NORTH),
        (0x08u8, codes::BTN_WEST),
        (0x10u8, codes::BTN_EAST),
        (0x20u8, codes::BTN_SOUTH),
        (0x40u8, codes::BTN_SELECT),
        (0x80u8, codes::BTN_START),
    ]
}

/// LEFT UART `byte2` bit → button code (the d-pad bits and the unused bit are absent).
pub open spec fn left_table() -> Seq<(u8, u16)> {
    seq![(0x01u8, codes::BTN_TL), (0x02u8, codes::BTN_TL2), (0x80u8, codes::BTN_MODE)]
}

pub open spec fn side_table(side: Side) -> Seq<(u8, u16)> {
    match side {
        Side::Right => right_table(),
        Side::Left => left_table(),
    }
}

pub open spec fn side_axes(side: Side) -> (u16, u16) {
    match side {
        Side::Right => (codes::ABS_RX, codes::ABS_RY),
        Side::Left => (codes::ABS_X, codes::ABS_Y),
    }
}

pub open spec fn bit_set(b: u8, m: u8) -> bool {
    b & m != 0
}

/// The button edges for a table prefix: one key event per row whose pressed state changed.
pub open spec fn button_edges(table: Seq<(u8, u16)>, now: u8, was: u8, first: bool) -> Seq<Ev>
    decreases table.len(),
{
    if table.len() == 0 {
        Seq::empty()
    } else {
        let row = table.last();
        let n = bit_set(now, row.0);
        let w = !first && bit_set(was, row.0);
        button_edges(table.drop_last(), now, was, first) + if n != w {
            seq![key_ev(row.1, n)]
        } else {
            Seq::empty()
        }
    }
}

pub open spec fn hat_value(neg: bool, pos: bool) -> i32 {
    if neg && !pos {
        -1i32
    } else if pos && !neg {
        1i32
    } else {
        0i32
    }
}

pub const D_UP: u8 = 0x04;
pub const D_LEFT: u8 = 0x08;
pub const D_RIGHT: u8 = 0x10;
pub const D_DOWN: u8 = 0x20;

pub open spec fn hat_x_of(buttons: u8) -> i32 {
    hat_value(bit_set(buttons, D_LEFT), bit_set(buttons, D_RIGHT))
}

pub open spec fn hat_y_of(buttons: u8) -> i32 {
    hat_value(bit_set(buttons, D_UP), bit_set(buttons, D_DOWN))
}

/// The full set of button codes this device advertises (both sides), in a stable order.
pub fn all_button_codes() -> (v: Vec<u16>)
    ensures
        v@ == right_table().map_values(|r: (u8, u16)| r.1) + left_table().map_values(
            |r: (u8, u16)| r.1,
        ),
{
    let v = vec![
        codes::BTN_TR,
        codes::BTN_TR2,
        codes::BTN_NORTH,
        codes::BTN_WEST,
        codes::BTN_EAST,
        codes::BTN_SOUTH,
        codes::BTN_SELECT,
        codes::BTN_START,
        codes::BTN_TL,
        codes::BTN_TL2,
        codes::BTN_MODE,
    ];
    assert(v@ =~= right_table().map_values(|r: (u8, u16)| r.1) + left_table().map_values(
        |r: (u8, u16)| r.1,
    ));
    v
}

/// The full set of `(abs_code, min, max)` this device advertises: the two sticks at the raw
/// 12-bit range and the two hats at `-1..=1`.
pub fn all_axes() -> (v: Vec<(u16, i32, i32)>)
    ensures
        v@ == seq![
            (codes::ABS_X, codes::STICK_MIN, codes::STICK_MAX),
            (codes::ABS_Y, codes::STICK_MIN, codes::STICK_MAX),
            (codes::ABS_RX, codes::STICK_MIN, codes::STICK_MAX),
            (codes::ABS_RY, codes::STICK_MIN, codes::STICK_MAX),
            (codes::ABS_HAT0X, -1i32, 1i32),
            (codes::ABS_HAT0Y, -1i32, 1i32),
        ],
{
    let v = vec![
        (codes::ABS_X, codes::STICK_MIN, codes::STICK_MAX),
        (codes::ABS_Y, codes::STICK_MIN, codes::STICK_MAX),
        (codes::ABS_RX, codes::STICK_MIN, codes::STICK_MAX),
        (codes::ABS_RY, codes::STICK_MIN, codes::STICK_MAX),
        (codes::ABS_HAT0X, -1i32, 1i32),
        (codes::ABS_HAT0Y, -1i32, 1i32),
    ];
    assert(v@ =~= seq![
        (codes::ABS_X, codes::STICK_MIN, codes::STICK_MAX),
        (codes::ABS_Y, codes::STICK_MIN, codes::STICK_MAX),
        (codes::ABS_RX, codes::STICK_MIN, codes::STICK_MAX),
        (codes::ABS_RY, codes::STICK_MIN, codes::STICK_MAX),
        (codes::ABS_HAT0X, -1i32, 1i32),
        (codes::ABS_HAT0Y, -1i32, 1i32),
    ]);
    v
}

/// Stateful, edge-triggered decoder for ONE UART. The first frame diffs against an
/// all-released / centre baseline and always emits both stick axes.
pub struct SideDecoder {
    side: Side,
    seen: bool,
    last_buttons: u8,
    last_x: u16,
    last_y: u16,
    last_hat_x: i32,
    last_hat_y: i32,
}

/// The observable state of a decoder: what it compares the next frame against.
pub struct DecoderState {
    pub side: Side,
    pub seen: bool,
    pub last_buttons: u8,
    pub last_x: u16,
    pub last_y: u16,
    pub last_hat_x: i32,
    pub last_hat_y: i32,
}

/// The events one frame produces against a state, in emit order: buttons (table order), then
/// the hat (LEFT only; X before Y), then the stick (X before Y).
pub open spec fn frame_events(st: DecoderState, f: Frame) -> Seq<Ev> {
    let first = !st.seen;
    let buttons = button_edges(side_table(st.side), f.buttons, st.last_buttons, first);
    let hat = if st.side == Side::Left {
        (if hat_x_of(f.buttons) != st.last_hat_x {
            seq![abs_ev(codes::ABS_HAT0X, hat_x_of(f.buttons))]
        } else {
            Seq::empty()
        }) + (if hat_y_of(f.buttons) != st.last_hat_y {
            seq![abs_ev(codes::ABS_HAT0Y, hat_y_of(f.buttons))]
        } else {
            Seq::empty()
        })
    } else {
        Seq::empty()
    };
    let (xc, yc) = side_axes(st.side);
    let sticks = (if first || f.x != st.last_x {
        seq![abs_ev(xc, f.x as i32)]
    } else {
        Seq::empty()
    }) + (if first || f.y != st.last_y {
        seq![abs_ev(yc, f.y as i32)]
    } else {
        Seq::empty()
    });
    buttons + hat + sticks
}

/// The state after a frame has been applied.
pub open spec fn next_state(st: DecoderState, f: Frame) -> DecoderState {
    DecoderState {
        side: st.side,
        seen: true,
        last_buttons: f.buttons,
        last_x: f.x,
        last_y: f.y,
        last_hat_x: if st.side == Side::Left { hat_x_of(f.buttons) } else { st.last_hat_x },
        last_hat_y: if st.side == Side::Left { hat_y_of(f.buttons) } else { st.last_hat_y },
    }
}

/// The initial state of a decoder for `side`.
pub open spec fn initial_state(side: Side) -> DecoderState {
    DecoderState {
        side,
        seen: false,
        last_buttons: 0,
        last_x: 0,
        last_y: 0,
        last_hat_x: 0,
        last_hat_y: 0,
    }
}

proof fn lemma_button_edges_same_frame_empty(table: Seq<(u8, u16)>, b: u8)
    ensures
        button_edges(table, b, b, false) == Seq::<Ev>::empty(),
    decreases table.len(),
{
    if table.len() > 0 {
        lemma_button_edges_same_frame_empty(table.drop_last(), b);
        assert(button_edges(table, b, b, false) =~= Seq::<Ev>::empty());
    }
}

/// Edge triggering: once a frame has been applied, applying the identical frame again emits
/// nothing.
pub proof fn law_repeated_frame_is_silent(st: DecoderState, f: Frame)
    ensures
        frame_events(next_state(st, f), f) == Seq::<Ev>::empty(),
{
    lemma_button_edges_same_frame_empty(side_table(st.side), f.buttons);
    assert(frame_events(next_state(st, f), f) =~= Seq::<Ev>::empty());
}

/// The first frame a fresh decoder sees always reports both stick axes.
pub proof fn law_first_frame_reports_both_sticks(side: Side, f: Frame)
    ensures
        ({
            let evs = frame_events(initial_state(side), f);
            let (xc, yc) = side_axes(side);
            evs.len() >= 2 && evs[evs.len() - 2] == abs_ev(xc, f.x as i32) && evs[evs.len() - 1]
                == abs_ev(yc, f.y as i32)
        }),
{
}

impl SideDecoder {
    /// The comparison state this decoder currently holds.
    pub closed spec fn state(&self) -> DecoderState {
        DecoderState {
            side: self.side,
            seen: self.seen,
            last_buttons: self.last_buttons,
            last_x: self.last_x,
            last_y: self.last_y,
            last_hat_x: self.last_hat_x,
            last_hat_y: self.last_hat_y,
        }
    }

    /// A decoder for `side` with no prior state.
    pub fn new(side: Side) -> (d: SideDecoder)
        ensures
            d.state() == initial_state(side),
    {
        SideDecoder {
            side,
            seen: false,
            last_buttons: 0,
            last_x: 0,
            last_y: 0,
            last_hat_x: 0,
            last_hat_y: 0,
        }
    }

    /// The stick's `(x_code, y_code)` for this side.
    fn axis_codes(&self) -> (r: (u16, u16))
        ensures
            r == side_axes(self.side),
    {
        match self.side {
            Side::Right => (codes::ABS_RX, codes::ABS_RY),
            Side::Left => (codes::ABS_X, codes::ABS_Y),
        }
    }

    /// The `byte2` bit → button table for this side.
    fn button_table(&self) -> (t: Vec<(u8, u16)>)
        ensures
            t@ == side_table(self.side),
    {
        match self.side {
            Side::Right => {
                let t = vec![
                    (0x01u8, codes::BTN_TR),
                    (0x02u8, codes::BTN_TR2),
                    (0x04u8, codes::BTN_NORTH),
                    (0x08u8, codes::BTN_WEST),
                    (0x10u8, codes::BTN_EAST),
                    (0x20u8, codes::BTN_SOUTH),
                    (0x40u8, codes::BTN_SELECT),
                    (0x80u8, codes::BTN_START),
                ];
                assert(t@ =~= right_table());
                t
            },
            Side::Left => {
                let t = vec![(0x01u8, codes::BTN_TL), (0x02u8, codes::BTN_TL2), (0x80u8, codes::BTN_MODE)];
                assert(t@ =~= left_table());
                t
            },
        }
    }

    /// Decode one frame, returning the changed events (empty if nothing moved). The caller
    /// emits them and follows with one `SYN_REPORT` iff the result is non-empty.
    pub fn apply(&mut self, f: Frame) -> (out: Vec<Ev>)
        ensures
            out@ == frame_events(old(self).state(), f),
            final(self).state() == next_state(old(self).state(), f),
    {
        let ghost st = self.state();
        let mut out: Vec<Ev> = Vec::new();
        let first = !self.seen;
        let table = self.button_table();
        let mut i: usize = 0;
        while i < table.len()
            invariant
                i <= table@.len(),
                table@ == side_table(st.side),
                self.state() == st,
                first == !st.seen,
                out@ == button_edges(table@.subrange(0, i as int), f.buttons, st.last_buttons, first),
            decreases table@.len() - i,
        {
            let (mask, code) = table[i];
            let now = f.buttons & mask != 0;
            let was = !first && (self.last_buttons & mask != 0);
            if now != was {
                out.push(Ev::key(code, now));
            }
            i += 1;
            proof {
                let t = table@.subrange(0, i as int);
                assert(t.drop_last() =~= table@.subrange(0, i - 1));
                assert(t.last() == (mask, code));
                if now != was {
                    assert(out@ =~= button_edges(t.drop_last(), f.buttons, st.last_buttons, first)
                        + seq![key_ev(code, now)]);
                } else {
                    assert(out@ =~= button_edges(t.drop_last(), f.buttons, st.last_buttons, first)
                        + Seq::<Ev>::empty());
                }
            }
        }
        assert(table@.subrange(0, table@.len() as int) =~= table@);
        let ghost after_buttons = out@;
        if self.side == Side::Left {
            let hat_x = axis_from(f.buttons & D_LEFT != 0, f.buttons & D_RIGHT != 0);
            let hat_y = axis_from(f.buttons & D_UP != 0, f.buttons & D_DOWN != 0);
            if hat_x != self.last_hat_x {
                out.push(Ev::abs(codes::ABS_HAT0X, hat_x));
            }
            if hat_y != self.last_hat_y {
                out.push(Ev::abs(codes::ABS_HAT0Y, hat_y));
            }
            self.last_hat_x = hat_x;
            self.last_hat_y = hat_y;
        }
        let ghost after_hat = out@;
        let (xc, yc) = self.axis_codes();
        if first || f.x != self.last_x {
            out.push(Ev::abs(xc, f.x as i32));
        }
        if first || f.y != self.last_y {
            out.push(Ev::abs(yc, f.y as i32));
        }
        self.last_buttons = f.buttons;
        self.last_x = f.x;
        self.last_y = f.y;
        self.seen = true;
        proof {
            let fe = frame_events(st, f);
            assert(out@ =~= fe);
        }
        out
    }
}

/// Map a (negative-direction, positive-direction) pair of pressed flags to a hat axis value:
/// `-1` for the negative direction, `+1` for the positive, `0` for neither or both.
pub fn axis_from(neg: bool, pos: bool) -> (v: i32)
    ensures
        v == hat_value(neg, pos),
{
    if neg && !pos {
        -1
    } else if pos && !neg {
        1
    } else {
        0
    }
}

} // verus!
