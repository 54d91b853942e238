//! The collection engine: the prompt state machine that walks a plan, records the raw events each
//! prompt produces, turns them into a capture (classifying binary vs analog triggers from observed
//! behaviour), and emits a candidate capabilities document.
//!
//! A caller that owns its own event pump shows [`Collector::prompt`], feeds events with
//! [`Collector::record`], then [`Collector::commit_current`] and [`Collector::advance`] (or
//! [`Collector::back`]), and finally [`Collector::emit`]. The headless [`run`] owns the pump
//! itself against any `EventSource`.
use vstd::prelude::*;
use crate::input_collect::analysis::{
    abs_int, abs_values, actuated_class, lemma_sweep_intermediate_sample, active_abs_codes, axis_calibration, calibration,
    class_codes, code_active, first_key_down, first_key_down_code, has_two, insert_ascending,
    is_hat_axis, is_hat_code, lowest_two, observe_axis, rank_axes_by_span, reached_full_press,
    strictly_ascending, top_ranked, top_two, trunc_half, visited_intermediate, contains_code,
    endpoint_tol, span_of_range, sweep,
};
use crate::input_collect::codes::{abs_name, abs_name_spec, key_name, key_name_spec, EV_ABS, EV_KEY};
use crate::input_collect::emit::{self, opt_view, sdl_guid_spec, Axis, Capabilities};
use crate::input_collect::plan::{kind_str, ControlSpec, ControlView, Kind};
use crate::input_collect::source::{unrouted_since, AbsInfo, EventSource, Identity, RawEvent, SourceCall};
use crate::text::{hex4, hex_digits, push_char, push_hex, push_hex4, push_str, push_u64, dec_digits, string_of};
pub use crate::input_collect::session::{drain_between_controls, run, RunConfig, Transcript, Verdict, Window};

verus! {

/// Binary vs analog, classified from observed behaviour (not the declared range).
#[derive(Clone, Copy, Debug, PartialEq, Eq, Structural)]
pub enum Semantics {
    /// Only endpoint values were ever observed: a switch on an analog wire.
    Binary,
    /// Intermediate travel was observed: a genuine proportional axis.
    Analog,
}

pub open spec fn semantics_str(s: Semantics) -> &'static str {
    match s {
        Semantics::Binary => "binary",
        Semantics::Analog => "analog",
    }
}

impl Semantics {
    pub fn as_str(self) -> (s: &'static str)
        ensures
            s == semantics_str(self),
    {
        match self {
            Semantics::Binary => "binary",
            Semantics::Analog => "analog",
        }
    }
}

/// What was recorded for one control.
#[derive(Clone, Copy, Debug, PartialEq, Eq)]
pub enum Recorded {
    Button { code: u16 },
    Hat { x_code: u16, y_code: u16 },
    /// `x`/`y` carry the driver-declared ranges (for fuzz/flat/resolution); `x_cal`/`y_cal` the
    /// observed `(min, max, centre)` envelope measured from the live sweep.
    Stick { x_code: u16, x: AbsInfo, y_code: u16, y: AbsInfo, x_cal: (i32, i32, i32), y_cal: (i32, i32, i32) },
    Trigger { code: u16, abs: AbsInfo, semantics: Semantics },
    /// A trigger that is a single key on the wire: a binary switch, never an analog axis.
    TriggerButton { code: u16 },
    /// One D-PAD direction's captured hat axis. The direction captures are merged into the single
    /// hat row at emit; this is never emitted on its own.
    HatAxis { code: u16 },
}

/// The result of committing the current control.
#[derive(Clone, Copy, Debug, PartialEq, Eq)]
pub enum CommitOutcome {
    Captured(Recorded),
    /// The control is optional and produced no activity: its row is omitted.
    Skipped,
}

/// An error from the engine.
#[derive(Debug)]
pub enum CollectError {
    /// A required control produced no usable activity.
    NoActivity { id: String },
    /// Activity was seen but was incomplete for the control's kind.
    Incomplete { id: String, reason: String },
    /// Reading an axis range (or the identity, or polling) failed.
    AbsInfo { code: u16, source: std::io::Error },
    /// An observed code has no schema-valid name, so it cannot be emitted.
    UnknownCode { ev_type: u16, code: u16 },
    /// No control has been captured yet, so there is nothing to emit.
    Empty,
}


impl CollectError {
    /// A one-line human description of the error.
    pub fn message(&self) -> (m: String)
        ensures
            match self {
                CollectError::NoActivity { id } => m@ == "no activity recorded for required control '"@
                    + id@ + "'"@,
                CollectError::Incomplete { id, reason } => m@ == "incomplete capture for '"@ + id@
                    + "': "@ + reason@,
                CollectError::AbsInfo { code, .. } => m@.len() >= 9 && m@.subrange(0, 9)
                    == "EVIOCGABS"@,
                CollectError::UnknownCode { ev_type, code } => m@ == "observed code (ev_type=0x"@
                    + hex_digits(*ev_type as nat) + ", code=0x"@ + hex_digits(*code as nat)
                    + ") has no schema name"@,
                CollectError::Empty => m@ == "nothing captured yet"@,
            },
    {
        let mut m = String::new();
        match self {
            CollectError::NoActivity { id } => {
                push_str(&mut m, "no activity recorded for required control '");
                push_str(&mut m, id.as_str());
                push_str(&mut m, "'");
            },
            CollectError::Incomplete { id, reason } => {
                push_str(&mut m, "incomplete capture for '");
                push_str(&mut m, id.as_str());
                push_str(&mut m, "': ");
                push_str(&mut m, reason.as_str());
            },
            CollectError::AbsInfo { code, source } => {
                push_str(&mut m, "EVIOCGABS");
                let ghost head = m@;
                push_str(&mut m, "(0x");
                push_hex(&mut m, *code as u64);
                push_str(&mut m, ") failed: ");
                let t = crate::prefs::error::io_text(source);
                push_str(&mut m, t.as_str());
                proof {
                    reveal_strlit("EVIOCGABS");
                    assert(m@.subrange(0, 9) =~= head);
                }
            },
            CollectError::UnknownCode { ev_type, code } => {
                push_str(&mut m, "observed code (ev_type=0x");
                push_hex(&mut m, *ev_type as u64);
                push_str(&mut m, ", code=0x");
                push_hex(&mut m, *code as u64);
                push_str(&mut m, ") has no schema name");
            },
            CollectError::Empty => {
                push_str(&mut m, "nothing captured yet");
            },
        }
        m
    }
}

/// The operator-supplied identity a guided run stamps onto the candidate.
#[derive(Clone, Debug)]
pub struct DeviceMeta {
    /// `identity.id`.
    pub id: String,
    pub manufacturer: String,
    pub model: String,
}

// ------------------------------------------------------------------------------------------
// Capture: turning a control's events into a recording.
// ------------------------------------------------------------------------------------------

pub open spec fn none_in(p: Set<u16>) -> bool {
    forall|c: u16| !p.contains(c)
}

/// A trigger capture whose most active proportional axis reached a full press.
pub open spec fn trigger_axis_pressed(
    s: Seq<RawEvent>,
    d: spec_fn(u16) -> Option<AbsInfo>,
) -> bool {
    exists|t: u16|
        top_ranked(s, actuated_class(s, d, false), t) && d(t) is Some && reached_full_press(
            s,
            t,
            d(t)->0,
        )
}

/// The evidence in `s` supports nothing this kind of control could legitimately be.
pub open spec fn no_activity_case(
    kind: Kind,
    s: Seq<RawEvent>,
    d: spec_fn(u16) -> Option<AbsInfo>,
) -> bool {
    match kind {
        Kind::Button | Kind::StickClick => first_key_down(s) is None,
        Kind::Hat | Kind::HatDir => none_in(actuated_class(s, d, true)),
        Kind::Stick => none_in(actuated_class(s, d, false)),
        Kind::Trigger => !trigger_axis_pressed(s, d) && first_key_down(s) is None && none_in(
            actuated_class(s, d, false),
        ),
    }
}

pub open spec fn hat_incomplete_prefix() -> Seq<char> {
    "a hat needs two axes; saw only "@
}

pub open spec fn stick_incomplete_reason() -> Seq<char> {
    "a stick needs two axes; sweep it fully in a circle"@
}

pub open spec fn trigger_incomplete_reason() -> Seq<char> {
    "trigger never reached a full press \u{2014} squeeze it fully"@
}

pub open spec fn name_or_unknown(n: Option<&'static str>) -> Seq<char> {
    match n {
        Some(t) => t@,
        None => "?"@,
    }
}

/// What committing a control of `kind` (id `id`) over the events `s` yields, with `d` the
/// declared axis ranges of the source:
/// - a button or stick click records its first key-down;
/// - a hat records its two lowest actuated hat axes, a D-PAD direction its lowest actuated hat
///   axis;
/// - a stick records its two most active proportional axes (ordered by code) with their declared
///   ranges and observed calibration envelopes;
/// - a trigger records its most active proportional axis when that axis reached a full press
///   (analog when intermediate travel was seen, binary otherwise), else its first key-down as a
///   button trigger;
/// and anything short of that is `NoActivity` (nothing of this kind was actuated) or
/// `Incomplete`.
pub open spec fn capture_outcome(
    kind: Kind,
    id: Seq<char>,
    s: Seq<RawEvent>,
    d: spec_fn(u16) -> Option<AbsInfo>,
    r: Result<Recorded, CollectError>,
) -> bool {
    let hats = actuated_class(s, d, true);
    let props = actuated_class(s, d, false);
    if no_activity_case(kind, s, d) {
        r matches Err(CollectError::NoActivity { id: got }) && got@ == id
    } else {
        match kind {
            Kind::Button | Kind::StickClick => r == Ok::<Recorded, CollectError>(
                Recorded::Button { code: first_key_down(s)->0 },
            ),
            Kind::Hat => if !has_two(hats) {
                r matches Err(CollectError::Incomplete { id: got, reason }) && got@ == id && exists|
                    c: u16,
                | hats.contains(c) && reason@ == hat_incomplete_prefix() + name_or_unknown(
                    abs_name_spec(c),
                )
            } else {
                r matches Ok(Recorded::Hat { x_code, y_code }) && lowest_two(hats, x_code, y_code)
            },
            Kind::HatDir => r matches Ok(Recorded::HatAxis { code }) && hats.contains(code) && forall|
                c: u16,
            | hats.contains(c) ==> code <= c,
            Kind::Stick => if !has_two(props) {
                r matches Err(CollectError::Incomplete { id: got, reason }) && got@ == id
                    && reason@ == stick_incomplete_reason()
            } else {
                r matches Ok(Recorded::Stick { x_code, x, y_code, y, x_cal, y_cal }) && top_two(
                    s,
                    props,
                    x_code,
                    y_code,
                ) && d(x_code) == Some(x) && d(y_code) == Some(y) && x_cal == calibration(
                    s,
                    x_code,
                    x,
                ) && y_cal == calibration(s, y_code, y)
            },
            Kind::Trigger => if trigger_axis_pressed(s, d) {
                r matches Ok(Recorded::Trigger { code, abs, semantics }) && top_ranked(
                    s,
                    props,
                    code,
                ) && d(code) == Some(abs) && reached_full_press(s, code, abs) && semantics == (
                if visited_intermediate(s, code, abs) {
                    Semantics::Analog
                } else {
                    Semantics::Binary
                })
            } else if first_key_down(s) is Some {
                r == Ok::<Recorded, CollectError>(
                    Recorded::TriggerButton { code: first_key_down(s)->0 },
                )
            } else {
                r matches Err(CollectError::Incomplete { id: got, reason }) && got@ == id
                    && reason@ == trigger_incomplete_reason()
            },
        }
    }
}

/// Turn a control's events into a recording (or a `NoActivity`/`Incomplete` error).
fn finalize<S: EventSource>(spec: &ControlSpec, events: &[RawEvent], src: &mut S) -> (r: Result<
    Recorded,
    CollectError,
>)
    ensures
        forall|c: u16| #[trigger] final(src).declared(c) == old(src).declared(c),
        forall|n: Option<Seq<char>>, c: u16| #[trigger] final(src).declared_on(n, c) == old(src).declared_on(n, c),
        capture_outcome(spec.kind, spec.id@, events@, |c: u16| old(src).declared(c), r),
        unrouted_since(old(src).log().calls(), final(src).log().calls()),
{
    let ghost d = |c: u16| old(src).declared(c);
    let ghost s = events@;
    assert(forall|c: u16| #[trigger] d(c) == old(src).declared(c));
    match spec.kind {
        Kind::Button | Kind::StickClick => {
            match first_key_down_code(events) {
                Some(code) => Ok(Recorded::Button { code }),
                None => Err(CollectError::NoActivity { id: spec.id.clone() }),
            }
        },
        Kind::Hat => {
            let act = active_abs_codes(events, src);
            let axes = class_codes(&act, true);
            let ghost hats = actuated_class(s, d, true);
            assert forall|c: u16| axes@.contains(c) <==> hats.contains(c) by {
                assert(d(c) == old(src).declared(c));
                assert(act@.contains(c) <==> code_active(s, c, old(src).declared(c)));
                assert(hats.contains(c) <==> (is_hat_code(c) && code_active(s, c, d(c))));
                assert(axes@.contains(c) <==> (act@.contains(c) && is_hat_code(c) == true));
            }
            if axes.len() == 0 {
                return Err(CollectError::NoActivity { id: spec.id.clone() });
            }
            assert(axes@.contains(axes@[0]));
            assert(hats.contains(axes@[0]));
            if axes.len() < 2 {
                assert(!has_two(hats)) by {
                    if has_two(hats) {
                        let (a, b) = choose|a: u16, b: u16|
                            hats.contains(a) && hats.contains(b) && a != b;
                        assert(axes@.contains(a) && axes@.contains(b));
                    }
                }
                let mut reason = String::from_str("a hat needs two axes; saw only ");
                match abs_name(axes[0]) {
                    Some(n) => push_str(&mut reason, n),
                    None => push_str(&mut reason, "?"),
                }
                return Err(CollectError::Incomplete { id: spec.id.clone(), reason });
            }
            assert(axes@.contains(axes@[1]));
            assert(axes@[0] < axes@[1]);
            assert(hats.contains(axes@[0]) && hats.contains(axes@[1]));
            assert(has_two(hats));
            assert forall|c: u16| hats.contains(c) && c != axes@[0] implies axes@[1] <= c by {
                assert(axes@.contains(c));
                let k = choose|k: int| 0 <= k < axes@.len() && axes@[k] == c;
                if k >= 2 {
                    assert(axes@[1] < axes@[k]);
                }
            }
            let r = Ok(Recorded::Hat { x_code: axes[0], y_code: axes[1] });
            assert(capture_outcome(spec.kind, spec.id@, s, d, r));
            r
        },
        Kind::HatDir => {
            let act = active_abs_codes(events, src);
            let axes = class_codes(&act, true);
            let ghost hats = actuated_class(s, d, true);
            assert forall|c: u16| axes@.contains(c) <==> hats.contains(c) by {
                assert(d(c) == old(src).declared(c));
                assert(act@.contains(c) <==> code_active(s, c, old(src).declared(c)));
                assert(hats.contains(c) <==> (is_hat_code(c) && code_active(s, c, d(c))));
                assert(axes@.contains(c) <==> (act@.contains(c) && is_hat_code(c) == true));
            }
            if axes.len() == 0 {
                return Err(CollectError::NoActivity { id: spec.id.clone() });
            }
            assert(axes@.contains(axes@[0]));
            assert(hats.contains(axes@[0]));
            assert forall|c: u16| hats.contains(c) implies axes@[0] <= c by {
                assert(axes@.contains(c));
                let k = choose|k: int| 0 <= k < axes@.len() && axes@[k] == c;
                if k > 0 {
                    assert(axes@[0] < axes@[k]);
                }
            }
            let r = Ok(Recorded::HatAxis { code: axes[0] });
            assert(capture_outcome(spec.kind, spec.id@, s, d, r));
            r
        },
        Kind::Stick => {
            let act = active_abs_codes(events, src);
            let axes = class_codes(&act, false);
            let ghost props = actuated_class(s, d, false);
            assert forall|c: u16| axes@.contains(c) <==> props.contains(c) by {
                assert(d(c) == old(src).declared(c));
                assert(act@.contains(c) <==> code_active(s, c, old(src).declared(c)));
                assert(props.contains(c) <==> (!is_hat_code(c) && code_active(s, c, d(c))));
                assert(axes@.contains(c) <==> (act@.contains(c) && is_hat_code(c) == false));
            }
            if axes.len() == 0 {
                return Err(CollectError::NoActivity { id: spec.id.clone() });
            }
            assert(axes@.contains(axes@[0]));
            assert(props.contains(axes@[0]));
            if axes.len() < 2 {
                assert(!has_two(props)) by {
                    if has_two(props) {
                        let (a, b) = choose|a: u16, b: u16|
                            props.contains(a) && props.contains(b) && a != b;
                        assert(axes@.contains(a) && axes@.contains(b));
                    }
                }
                return Err(
                    CollectError::Incomplete {
                        id: spec.id.clone(),
                        reason: String::from_str(
                            "a stick needs two axes; sweep it fully in a circle",
                        ),
                    },
                );
            }
            assert(axes@.contains(axes@[1]));
            let ranked = rank_axes_by_span(events, axes.as_slice());
            assert(ranked@.contains(ranked@[0]) && ranked@.contains(ranked@[1]));
            let (x_code, y_code) = if ranked[0] < ranked[1] {
                (ranked[0], ranked[1])
            } else {
                (ranked[1], ranked[0])
            };
            proof {
                assert(crate::input_collect::analysis::ranks_before(s, ranked@[0], ranked@[1]));
                assert(ranked@[0] != ranked@[1]);
                assert forall|c: u16| props.contains(c) && c != x_code && c != y_code implies ranks_before_both(s, x_code, y_code, c) by {
                    assert(ranked@.contains(c));
                    let k = choose|k: int| 0 <= k < ranked@.len() && ranked@[k] == c;
                    assert(k >= 2);
                    assert(crate::input_collect::analysis::ranks_before(s, ranked@[0], ranked@[k]));
                    assert(crate::input_collect::analysis::ranks_before(s, ranked@[1], ranked@[k]));
                }
            }
            let x = match src.absinfo(x_code) {
                Ok(a) => a,
                Err(e) => {
                    return Err(CollectError::AbsInfo { code: x_code, source: e });
                },
            };
            let y = match src.absinfo(y_code) {
                Ok(a) => a,
                Err(e) => {
                    return Err(CollectError::AbsInfo { code: y_code, source: e });
                },
            };
            let x_cal = axis_calibration(events, x_code, &x);
            let y_cal = axis_calibration(events, y_code, &y);
            let r = Ok(Recorded::Stick { x_code, x, y_code, y, x_cal, y_cal });
            assert(top_two(s, props, x_code, y_code));
            assert(capture_outcome(spec.kind, spec.id@, s, d, r));
            r
        },
        Kind::Trigger => {
            let key_down = first_key_down_code(events);
            let act = active_abs_codes(events, src);
            let axes = class_codes(&act, false);
            let ghost props = actuated_class(s, d, false);
            assert forall|c: u16| axes@.contains(c) <==> props.contains(c) by {
                assert(d(c) == old(src).declared(c));
                assert(act@.contains(c) <==> code_active(s, c, old(src).declared(c)));
                assert(props.contains(c) <==> (!is_hat_code(c) && code_active(s, c, d(c))));
                assert(axes@.contains(c) <==> (act@.contains(c) && is_hat_code(c) == false));
            }
            if axes.len() > 0 {
                let ranked = rank_axes_by_span(events, axes.as_slice());
                let code = ranked[0];
                assert(ranked@.contains(code));
                assert(top_ranked(s, props, code)) by {
                    assert forall|c: u16| props.contains(c) && c != code implies crate::input_collect::analysis::ranks_before(s, code, c) by {
                        assert(ranked@.contains(c));
                        let k = choose|k: int| 0 <= k < ranked@.len() && ranked@[k] == c;
                        assert(k > 0);
                    }
                }
                let abs = match src.absinfo(code) {
                    Ok(a) => a,
                    Err(e) => {
                        return Err(CollectError::AbsInfo { code, source: e });
                    },
                };
                let vals = crate::input_collect::analysis::abs_values_of(events, code);
                let obs = observe_axis(vals.as_slice(), &abs);
                let dd: i64 = abs.max as i64 - abs.min as i64;
                let span: i64 = if dd >= 1 { dd } else { 1 };
                let t0: i64 = ((span as u64) / 16) as i64;
                let tol: i64 = if t0 >= 1 { t0 } else { 1 };
                assert(tol == endpoint_tol(abs));
                let reached = obs.max as i64 >= abs.max as i64 - tol;
                if reached {
                    let semantics = if obs.visited_intermediate {
                        Semantics::Analog
                    } else {
                        Semantics::Binary
                    };
                    return Ok(Recorded::Trigger { code, abs, semantics });
                }
                assert(!trigger_axis_pressed(s, d)) by {
                    if trigger_axis_pressed(s, d) {
                        let t = choose|t: u16|
                            top_ranked(s, props, t) && d(t) is Some && reached_full_press(
                                s,
                                t,
                                d(t)->0,
                            );
                        if t != code {
                            assert(crate::input_collect::analysis::ranks_before(s, t, code));
                            assert(crate::input_collect::analysis::ranks_before(s, code, t));
                        }
                    }
                }
            } else {
                assert(!trigger_axis_pressed(s, d));
            }
            match key_down {
                Some(code) => {
                    return Ok(Recorded::TriggerButton { code });
                },
                None => {},
            }
            if axes.len() == 0 {
                return Err(CollectError::NoActivity { id: spec.id.clone() });
            }
            assert(axes@.contains(axes@[0]));
            assert(props.contains(axes@[0]));
            Err(
                CollectError::Incomplete {
                    id: spec.id.clone(),
                    reason: String::from_str(
                        "trigger never reached a full press \u{2014} squeeze it fully",
                    ),
                },
            )
        },
    }
}

pub open spec fn ranks_before_both(s: Seq<RawEvent>, x: u16, y: u16, c: u16) -> bool {
    crate::input_collect::analysis::ranks_before(s, x, c)
        && crate::input_collect::analysis::ranks_before(s, y, c)
}

// ------------------------------------------------------------------------------------------
// Rows: turning recordings into `[[inputs]]` rows.
// ------------------------------------------------------------------------------------------

/// An input row as plain values: id, kind, ev_type, code, semantics, range, x, y.
pub type InputView = (
    Seq<char>,
    Seq<char>,
    Seq<char>,
    Seq<char>,
    Option<Seq<char>>,
    Option<Axis>,
    Option<Axis>,
    Option<Axis>,
);

pub open spec fn input_view(i: emit::Input) -> InputView {
    (i.id@, i.kind@, i.ev_type@, i.code@, opt_view(i.semantics), i.range, i.x, i.y)
}

pub open spec fn to_axis_spec(a: AbsInfo) -> Axis {
    Axis { min: a.min, max: a.max, fuzz: a.fuzz, flat: a.flat, resolution: a.resolution, value: None }
}

/// The declared range overlaid with an observed `(min, max, centre)` envelope.
pub open spec fn measured_axis_spec(a: AbsInfo, cal: (i32, i32, i32)) -> Axis {
    Axis {
        min: cal.0,
        max: cal.1,
        fuzz: a.fuzz,
        flat: a.flat,
        resolution: a.resolution,
        value: Some(cal.2),
    }
}

pub open spec fn pair_text(a: &'static str, b: &'static str) -> Seq<char> {
    a@ + ","@ + b@
}

/// The row for one capture of control `id` of `kind`, or the `(ev_type, code)` of the first
/// observed code without a schema name.
pub open spec fn row_spec(id: Seq<char>, kind: Kind, rec: Recorded) -> Result<InputView, (u16, u16)> {
    let k = kind_str(kind)@;
    match rec {
        Recorded::Button { code } => match key_name_spec(code) {
            Some(n) => Ok((id, k, "EV_KEY"@, n@, None, None, None, None)),
            None => Err((EV_KEY, code)),
        },
        Recorded::Hat { x_code, y_code } => match (abs_name_spec(x_code), abs_name_spec(y_code)) {
            (Some(a), Some(b)) => Ok((id, k, "EV_ABS"@, pair_text(a, b), None, None, None, None)),
            (None, _) => Err((EV_ABS, x_code)),
            (Some(_), None) => Err((EV_ABS, y_code)),
        },
        Recorded::Stick { x_code, x, y_code, y, x_cal, y_cal } => match (
            abs_name_spec(x_code),
            abs_name_spec(y_code),
        ) {
            (Some(a), Some(b)) => Ok(
                (
                    id,
                    k,
                    "EV_ABS"@,
                    pair_text(a, b),
                    None,
                    None,
                    Some(measured_axis_spec(x, x_cal)),
                    Some(measured_axis_spec(y, y_cal)),
                ),
            ),
            (None, _) => Err((EV_ABS, x_code)),
            (Some(_), None) => Err((EV_ABS, y_code)),
        },
        Recorded::Trigger { code, abs, semantics } => match abs_name_spec(code) {
            Some(n) => Ok(
                (
                    id,
                    k,
                    "EV_ABS"@,
                    n@,
                    Some(semantics_str(semantics)@),
                    Some(to_axis_spec(abs)),
                    None,
                    None,
                ),
            ),
            None => Err((EV_ABS, code)),
        },
        Recorded::TriggerButton { code } => match key_name_spec(code) {
            Some(n) => Ok((id, k, "EV_KEY"@, n@, Some("binary"@), None, None, None)),
            None => Err((EV_KEY, code)),
        },
        Recorded::HatAxis { code } => Err((EV_ABS, code)),
    }
}

fn to_axis(a: &AbsInfo) -> (r: Axis)
    ensures
        r == to_axis_spec(*a),
{
    Axis { min: a.min, max: a.max, fuzz: a.fuzz, flat: a.flat, resolution: a.resolution, value: None }
}

fn measured_axis(a: &AbsInfo, cal: (i32, i32, i32)) -> (r: Axis)
    ensures
        r == measured_axis_spec(*a, cal),
{
    let (min, max, centre) = cal;
    Axis { min, max, fuzz: a.fuzz, flat: a.flat, resolution: a.resolution, value: Some(centre) }
}

/// `"{a},{b}"` for two axis codes, or the first code without a schema name.
fn abs_pair(x_code: u16, y_code: u16) -> (r: Result<String, CollectError>)
    ensures
        match (abs_name_spec(x_code), abs_name_spec(y_code)) {
            (Some(a), Some(b)) => r matches Ok(t) && t@ == pair_text(a, b),
            (None, _) => r matches Err(CollectError::UnknownCode { ev_type, code }) && ev_type
                == EV_ABS && code == x_code,
            (Some(_), None) => r matches Err(CollectError::UnknownCode { ev_type, code })
                && ev_type == EV_ABS && code == y_code,
        },
{
    let a = match abs_name(x_code) {
        Some(a) => a,
        None => {
            return Err(CollectError::UnknownCode { ev_type: EV_ABS, code: x_code });
        },
    };
    let b = match abs_name(y_code) {
        Some(b) => b,
        None => {
            return Err(CollectError::UnknownCode { ev_type: EV_ABS, code: y_code });
        },
    };
    let mut t = String::new();
    push_str(&mut t, a);
    push_str(&mut t, ",");
    push_str(&mut t, b);
    assert(t@ =~= pair_text(a, b));
    Ok(t)
}

/// Build one `[[inputs]]` row from a recorded capture.
fn input_row(spec: &ControlSpec, rec: &Recorded) -> (r: Result<emit::Input, CollectError>)
    requires
        !(rec is HatAxis),
    ensures
        match row_spec(spec.id@, spec.kind, *rec) {
            Ok(v) => r matches Ok(i) && input_view(i) == v,
            Err((t, c)) => r matches Err(CollectError::UnknownCode { ev_type, code }) && ev_type
                == t && code == c,
        },
{
    let kind = string_of(spec.kind.as_str());
    match rec {
        Recorded::Button { code } => {
            let name = match key_name(*code) {
                Some(n) => n,
                None => {
                    return Err(CollectError::UnknownCode { ev_type: EV_KEY, code: *code });
                },
            };
            Ok(
                emit::Input {
                    id: spec.id.clone(),
                    kind,
                    ev_type: string_of("EV_KEY"),
                    code: string_of(name),
                    semantics: None,
                    range: None,
                    x: None,
                    y: None,
                },
            )
        },
        Recorded::Hat { x_code, y_code } => {
            let code = abs_pair(*x_code, *y_code)?;
            Ok(
                emit::Input {
                    id: spec.id.clone(),
                    kind,
                    ev_type: string_of("EV_ABS"),
                    code,
                    semantics: None,
                    range: None,
                    x: None,
                    y: None,
                },
            )
        },
        Recorded::Stick { x_code, x, y_code, y, x_cal, y_cal } => {
            let code = match abs_pair(*x_code, *y_code) {
                Ok(c) => c,
                Err(e) => {
                    return Err(e);
                },
            };
            Ok(
                emit::Input {
                    id: spec.id.clone(),
                    kind,
                    ev_type: string_of("EV_ABS"),
                    code,
                    semantics: None,
                    range: None,
                    x: Some(measured_axis(x, *x_cal)),
                    y: Some(measured_axis(y, *y_cal)),
                },
            )
        },
        Recorded::Trigger { code, abs, semantics } => {
            let name = match abs_name(*code) {
                Some(n) => n,
                None => {
                    return Err(CollectError::UnknownCode { ev_type: EV_ABS, code: *code });
                },
            };
            Ok(
                emit::Input {
                    id: spec.id.clone(),
                    kind,
                    ev_type: string_of("EV_ABS"),
                    code: string_of(name),
                    semantics: Some(string_of(semantics.as_str())),
                    range: Some(to_axis(abs)),
                    x: None,
                    y: None,
                },
            )
        },
        Recorded::TriggerButton { code } => {
            let name = match key_name(*code) {
                Some(n) => n,
                None => {
                    return Err(CollectError::UnknownCode { ev_type: EV_KEY, code: *code });
                },
            };
            Ok(
                emit::Input {
                    id: spec.id.clone(),
                    kind,
                    ev_type: string_of("EV_KEY"),
                    code: string_of(name),
                    semantics: Some(string_of(Semantics::Binary.as_str())),
                    range: None,
                    x: None,
                    y: None,
                },
            )
        },
        Recorded::HatAxis { .. } => {
            Err(CollectError::Empty)
        },
    }
}

pub open spec fn dpad_incomplete_reason() -> Seq<char> {
    "the four D-PAD directions did not actuate both hat axes"@
}

/// The single hat row the D-PAD direction captures merge into: the two lowest captured hat
/// axes, or `None` when fewer than two were captured or one has no schema name.
pub open spec fn dpad_row_spec(axes: Set<u16>) -> Option<InputView> {
    if exists|x: u16, y: u16| lowest_two(axes, x, y) {
        let (x, y) = choose|x: u16, y: u16| lowest_two(axes, x, y);
        match row_spec("dpad"@, Kind::Hat, Recorded::Hat { x_code: x, y_code: y }) {
            Ok(v) => Some(v),
            Err(_) => None,
        }
    } else {
        None
    }
}

proof fn lemma_lowest_two_unique(p: Set<u16>, x1: u16, y1: u16, x2: u16, y2: u16)
    requires
        lowest_two(p, x1, y1),
        lowest_two(p, x2, y2),
    ensures
        x1 == x2 && y1 == y2,
{
}

/// Merge the D-PAD direction captures (their hat axes, ascending) into the single hat row.
fn merged_dpad_row(axes: &Vec<u16>) -> (r: Result<emit::Input, CollectError>)
    requires
        strictly_ascending(axes@),
    ensures
        axes@.len() < 2 ==> (r matches Err(CollectError::Incomplete { id, reason }) && id@
            == "dpad"@ && reason@ == dpad_incomplete_reason()),
        axes@.len() >= 2 ==> match row_spec(
            "dpad"@,
            Kind::Hat,
            Recorded::Hat { x_code: axes@[0], y_code: axes@[1] },
        ) {
            Ok(v) => r matches Ok(i) && input_view(i) == v,
            Err((t, c)) => r matches Err(CollectError::UnknownCode { ev_type, code }) && ev_type
                == t && code == c,
        },
{
    if axes.len() < 2 {
        return Err(
            CollectError::Incomplete {
                id: string_of("dpad"),
                reason: string_of("the four D-PAD directions did not actuate both hat axes"),
            },
        );
    }
    let code = abs_pair(axes[0], axes[1])?;
    Ok(
        emit::Input {
            id: string_of("dpad"),
            kind: string_of("hat"),
            ev_type: string_of("EV_ABS"),
            code,
            semantics: None,
            range: None,
            x: None,
            y: None,
        },
    )
}

// ------------------------------------------------------------------------------------------
// The guided-collection state machine.
// ------------------------------------------------------------------------------------------

struct Slot {
    spec: ControlSpec,
    recorded: Option<Recorded>,
    skipped: bool,
}

/// The guided-collection state machine: the plan's controls, which one is being prompted, and
/// the events recorded for it so far.
pub struct Collector {
    slots: Vec<Slot>,
    idx: usize,
    working: Vec<RawEvent>,
}

/// A copy of a control spec.
pub(crate) fn copy_control(c: &ControlSpec) -> (r: ControlSpec)
    ensures
        r.view() == c.view(),
{
    ControlSpec {
        id: c.id.clone(),
        kind: c.kind,
        prompt: c.prompt.clone(),
        optional: c.optional,
        source: match &c.source {
            Some(n) => Some(n.clone()),
            None => None,
        },
    }
}

/// Index of the first control with id `id` at or after `i`.
pub open spec fn first_with_id(plan: Seq<ControlView>, id: Seq<char>, i: int) -> Option<int>
    decreases plan.len() - i,
{
    if i < 0 || i >= plan.len() {
        None
    } else if plan[i].0 == id {
        Some(i)
    } else {
        first_with_id(plan, id, i + 1)
    }
}

/// Whether a D-PAD direction capture appears among the first `n` captures.
pub open spec fn hat_axis_before(caps: Seq<Option<Recorded>>, n: int) -> bool {
    exists|j: int| 0 <= j < n && j < caps.len() && #[trigger] caps[j] matches Some(
        Recorded::HatAxis { .. },
    )
}

/// The hat axes of all D-PAD direction captures.
pub open spec fn hat_axis_codes(caps: Seq<Option<Recorded>>) -> Set<u16> {
    Set::new(
        |c: u16|
            exists|j: int|
                0 <= j < caps.len() && #[trigger] caps[j] == Some(Recorded::HatAxis { code: c }),
    )
}

/// The rows emitted for the first `n` controls: captured controls in plan order, pending and
/// skipped ones omitted, and the D-PAD direction captures merged into one hat row at the
/// position of the first of them. `None` when some row cannot be built.
pub open spec fn rows_upto(plan: Seq<ControlView>, caps: Seq<Option<Recorded>>, n: int) -> Option<
    Seq<InputView>,
>
    decreases n,
{
    if n <= 0 {
        Some(Seq::empty())
    } else {
        match rows_upto(plan, caps, n - 1) {
            None => None,
            Some(prev) => match caps[n - 1] {
                None => Some(prev),
                Some(Recorded::HatAxis { .. }) => if hat_axis_before(caps, n - 1) {
                    Some(prev)
                } else {
                    match dpad_row_spec(hat_axis_codes(caps)) {
                        Some(row) => Some(prev.push(row)),
                        None => None,
                    }
                },
                Some(rec) => match row_spec(plan[n - 1].0, plan[n - 1].1, rec) {
                    Ok(row) => Some(prev.push(row)),
                    Err(_) => None,
                },
            },
        }
    }
}

proof fn lemma_rows_none_persists(plan: Seq<ControlView>, caps: Seq<Option<Recorded>>, n: int, m: int)
    requires
        n <= m,
        rows_upto(plan, caps, n) is None,
    ensures
        rows_upto(plan, caps, m) is None,
    decreases m - n,
{
    if n < m {
        lemma_rows_none_persists(plan, caps, n, m - 1);
    }
}

/// The identity a source reported in the single call that takes `h0` to `h`, if that call was
/// a successful `identity`.
pub open spec fn reported_identity(h0: Seq<SourceCall>, h: Seq<SourceCall>) -> Option<Identity> {
    if h.len() == h0.len() + 1 {
        match h.last() {
            SourceCall::Identity(Ok(i)) => Some(i),
            _ => None,
        }
    } else {
        None
    }
}

/// The `[identity]` block for a reported identity stamped with the operator's metadata.
pub open spec fn identity_block(b: emit::Identity, i: Identity, meta: DeviceMeta) -> bool {
    &&& b.id@ == meta.id@
    &&& b.manufacturer@ == meta.manufacturer@
    &&& b.model@ == meta.model@
    &&& b.sdl_guid@ == sdl_guid_spec(i.bus, i.vid, i.pid, i.version)
    &&& b.evdev_name@ == i.name@
    &&& opt_view(b.vid) == Some(hex4(i.vid))
    &&& opt_view(b.pid) == Some(hex4(i.pid))
}

/// Build the `[identity]` block from a reported identity and the operator's metadata.
pub fn identity_block_of(i: &Identity, meta: &DeviceMeta) -> (b: emit::Identity)
    ensures
        identity_block(b, *i, *meta),
{
    let mut vid = String::new();
    push_hex4(&mut vid, i.vid);
    let mut pid = String::new();
    push_hex4(&mut pid, i.pid);
    emit::Identity {
        id: meta.id.clone(),
        manufacturer: meta.manufacturer.clone(),
        model: meta.model.clone(),
        sdl_guid: emit::sdl_guid(i.bus, i.vid, i.pid, i.version),
        evdev_name: i.name.clone(),
        vid: Some(vid),
        pid: Some(pid),
    }
}

impl Collector {
    /// The prompt index never runs past the plan.
    pub closed spec fn wf(&self) -> bool {
        self.idx <= self.slots@.len()
    }

    /// The plan, in prompt order.
    pub closed spec fn plan(&self) -> Seq<ControlView> {
        self.slots@.map_values(|s: Slot| s.spec.view())
    }

    /// What has been captured for each control.
    pub closed spec fn captures(&self) -> Seq<Option<Recorded>> {
        self.slots@.map_values(|s: Slot| s.recorded)
    }

    /// Which controls were skipped (optional, never actuated).
    pub closed spec fn skips(&self) -> Seq<bool> {
        self.slots@.map_values(|s: Slot| s.skipped)
    }

    /// The position of the control being prompted (the plan length once past the end).
    pub closed spec fn index(&self) -> int {
        self.idx as int
    }

    /// The events recorded for the current control so far.
    pub closed spec fn working(&self) -> Seq<RawEvent> {
        self.working@
    }

    pub proof fn lemma_shape(&self)
        requires
            self.wf(),
        ensures
            self.captures().len() == self.plan().len(),
            self.skips().len() == self.plan().len(),
            0 <= self.index() <= self.plan().len(),
    {
    }

    /// Build a collector over an ordered prompt plan.
    pub fn new(plan: Vec<ControlSpec>) -> (c: Collector)
        ensures
            c.plan() == plan@.map_values(|s: ControlSpec| s.view()),
            c.captures() == Seq::new(plan@.len(), |i: int| None::<Recorded>),
            c.skips() == Seq::new(plan@.len(), |i: int| false),
            c.wf(),
            c.index() == 0,
            c.working() == Seq::<RawEvent>::empty(),
    {
        let mut slots: Vec<Slot> = Vec::new();
        let mut i: usize = 0;
        while i < plan.len()
            invariant
                i <= plan@.len(),
                slots@.len() == i,
                forall|j: int|
                    0 <= j < i ==> (#[trigger] slots@[j]).spec.view() == plan@[j].view()
                        && slots@[j].recorded is None && !slots@[j].skipped,
            decreases plan@.len() - i,
        {
            slots.push(Slot { spec: copy_control(&plan[i]), recorded: None, skipped: false });
            i += 1;
        }
        let c = Collector { slots, idx: 0, working: Vec::new() };
        assert(c.plan() =~= plan@.map_values(|s: ControlSpec| s.view()));
        assert(c.captures() =~= Seq::new(plan@.len(), |i: int| None::<Recorded>));
        assert(c.skips() =~= Seq::new(plan@.len(), |i: int| false));
        c
    }

    /// The control being prompted (`None` once past the end).
    pub fn current(&self) -> (r: Option<&ControlSpec>)
        requires
            self.wf(),
        ensures
            self.index() < self.plan().len() ==> (r matches Some(c) && c.view() == self.plan()[self.index()]),
            self.index() >= self.plan().len() ==> r is None,
    {
        if self.idx < self.slots.len() {
            Some(&self.slots[self.idx].spec)
        } else {
            None
        }
    }

    /// The human prompt for the current control.
    pub fn prompt(&self) -> (r: Option<&str>)
        requires
            self.wf(),
        ensures
            self.index() < self.plan().len() ==> (r matches Some(t) && t@ == self.plan()[self.index()].2),
            self.index() >= self.plan().len() ==> r is None,
    {
        match self.current() {
            Some(c) => Some(c.prompt.as_str()),
            None => None,
        }
    }

    /// `(current index, total controls)`.
    pub fn position(&self) -> (r: (usize, usize))
        ensures
            r.0 == self.index(),
            r.1 == self.plan().len(),
    {
        (self.idx, self.slots.len())
    }

    /// True once every control has been visited.
    pub fn is_done(&self) -> (r: bool)
        ensures
            r == (self.index() >= self.plan().len()),
    {
        self.idx >= self.slots.len()
    }

    /// Feed events observed for the current control (appended to the working buffer).
    pub fn record(&mut self, events: &[RawEvent])
        ensures
            old(self).wf() ==> final(self).wf(),
            final(self).working() == old(self).working() + events@,
            final(self).plan() == old(self).plan(),
            final(self).captures() == old(self).captures(),
            final(self).skips() == old(self).skips(),
            final(self).index() == old(self).index(),
    {
        let mut i: usize = 0;
        while i < events.len()
            invariant
                i <= events@.len(),
                self.working@ == old(self).working@ + events@.take(i as int),
                self.slots == old(self).slots,
                self.idx == old(self).idx,
            decreases events@.len() - i,
        {
            self.working.push(events[i]);
            assert(events@.take(i + 1) =~= events@.take(i as int).push(events@[i as int]));
            i += 1;
        }
        assert(events@.take(events@.len() as int) =~= events@);
    }

    /// Discard the working buffer for the current control (a retry).
    pub fn clear_working(&mut self)
        ensures
            old(self).wf() ==> final(self).wf(),
            final(self).working() == Seq::<RawEvent>::empty(),
            final(self).plan() == old(self).plan(),
            final(self).captures() == old(self).captures(),
            final(self).skips() == old(self).skips(),
            final(self).index() == old(self).index(),
    {
        self.working.clear();
    }

    /// Finalize the current control from its working buffer (see [`capture_outcome`]); the
    /// buffer is consumed. A capture is recorded; an optional control with no activity is
    /// marked skipped (its row omitted); any other failure leaves the captures unchanged. Does
    /// not advance.
    pub fn commit_current<S: EventSource>(&mut self, src: &mut S) -> (r: Result<CommitOutcome, CollectError>)
        requires
            old(self).wf(),
        ensures
            old(self).wf() ==> final(self).wf(),
            forall|c: u16| #[trigger] final(src).declared(c) == old(src).declared(c),
            forall|n: Option<Seq<char>>, c: u16| #[trigger] final(src).declared_on(n, c) == old(src).declared_on(n, c),
            unrouted_since(old(src).log().calls(), final(src).log().calls()),
            final(self).plan() == old(self).plan(),
            final(self).index() == old(self).index(),
            old(self).index() >= old(self).plan().len() ==> (r matches Err(CollectError::Empty)
                && final(self).working() == old(self).working() && final(self).captures() == old(
                self,
            ).captures() && final(self).skips() == old(self).skips()),
            old(self).index() < old(self).plan().len() ==> ({
                let i = old(self).index();
                let c = old(self).plan()[i];
                let d = |k: u16| old(src).declared(k);
                &&& final(self).working() == Seq::<RawEvent>::empty()
                &&& match r {
                    Ok(CommitOutcome::Captured(rec)) => capture_outcome(
                        c.1,
                        c.0,
                        old(self).working(),
                        d,
                        Ok(rec),
                    ) && final(self).captures() == old(self).captures().update(i, Some(rec))
                        && final(self).skips() == old(self).skips().update(i, false),
                    Ok(CommitOutcome::Skipped) => c.3 && no_activity_case(c.1, old(self).working(), d)
                        && final(self).captures() == old(self).captures().update(i, None)
                        && final(self).skips() == old(self).skips().update(i, true),
                    Err(e) => capture_outcome(c.1, c.0, old(self).working(), d, Err(e)) && !(c.3
                        && e is NoActivity) && final(self).captures() == old(self).captures()
                        && final(self).skips() == old(self).skips(),
                }
            }),
    {
        if self.idx >= self.slots.len() {
            return Err(CollectError::Empty);
        }
        let mut events: Vec<RawEvent> = Vec::new();
        std::mem::swap(&mut events, &mut self.working);
        let i = self.idx;
        let outcome = finalize(&self.slots[i].spec, events.as_slice(), src);
        let optional = self.slots[i].spec.optional;
        match outcome {
            Ok(rec) => {
                let ghost os = self.slots@;
                let mut slots: Vec<Slot> = Vec::new();
                std::mem::swap(&mut slots, &mut self.slots);
                let taken = slots.remove(i);
                slots.insert(i, Slot { spec: taken.spec, recorded: Some(rec), skipped: false });
                std::mem::swap(&mut slots, &mut self.slots);
                assert(self.slots@ =~= os.update(i as int, self.slots@[i as int]));
                assert(self.plan() =~= old(self).plan());
                assert(self.captures() =~= old(self).captures().update(i as int, Some(rec)));
                assert(self.skips() =~= old(self).skips().update(i as int, false));
                Ok(CommitOutcome::Captured(rec))
            },
            Err(e) => {
                if optional && matches!(e, CollectError::NoActivity { .. }) {
                    let ghost os = self.slots@;
                    let mut slots: Vec<Slot> = Vec::new();
                    std::mem::swap(&mut slots, &mut self.slots);
                    let taken = slots.remove(i);
                    slots.insert(i, Slot { spec: taken.spec, recorded: None, skipped: true });
                    std::mem::swap(&mut slots, &mut self.slots);
                    assert(self.slots@ =~= os.update(i as int, self.slots@[i as int]));
                    assert(self.plan() =~= old(self).plan());
                    assert(self.captures() =~= old(self).captures().update(i as int, None));
                    assert(self.skips() =~= old(self).skips().update(i as int, true));
                    Ok(CommitOutcome::Skipped)
                } else {
                    Err(e)
                }
            },
        }
    }

    /// Advance to the next control (clears the working buffer).
    pub fn advance(&mut self)
        requires
            old(self).wf(),
        ensures
            old(self).wf() ==> final(self).wf(),
            final(self).index() == if old(self).index() < old(self).plan().len() {
                old(self).index() + 1
            } else {
                old(self).index()
            },
            final(self).working() == Seq::<RawEvent>::empty(),
            final(self).plan() == old(self).plan(),
            final(self).captures() == old(self).captures(),
            final(self).skips() == old(self).skips(),
    {
        if self.idx < self.slots.len() {
            self.idx = self.idx + 1;
        }
        self.working.clear();
    }

    /// Step back to the previous control, dropping its capture so it can be redone.
    pub fn back(&mut self)
        requires
            old(self).wf(),
            old(self).plan().len() > 0,
        ensures
            old(self).wf() ==> final(self).wf(),
            ({
                let i = if old(self).index() > 0 {
                    old(self).index() - 1
                } else {
                    old(self).index()
                };
                &&& final(self).index() == i
                &&& i < old(self).plan().len() ==> final(self).captures() == old(
                    self,
                ).captures().update(i, None) && final(self).skips() == old(self).skips().update(
                    i,
                    false,
                )
            }),
            final(self).working() == Seq::<RawEvent>::empty(),
            final(self).plan() == old(self).plan(),
    {
        if self.idx > 0 {
            self.idx = self.idx - 1;
        }
        let i = self.idx;
        if i < self.slots.len() {
            let ghost os = self.slots@;
            let mut slots: Vec<Slot> = Vec::new();
            std::mem::swap(&mut slots, &mut self.slots);
            let taken = slots.remove(i);
            slots.insert(i, Slot { spec: taken.spec, recorded: None, skipped: false });
            std::mem::swap(&mut slots, &mut self.slots);
            assert(self.slots@ =~= os.update(i as int, self.slots@[i as int]));
            assert(self.plan() =~= old(self).plan());
            assert(self.captures() =~= old(self).captures().update(i as int, None));
            assert(self.skips() =~= old(self).skips().update(i as int, false));
        }
        self.working.clear();
    }

    /// The capture recorded for the first control with id `id`, if any.
    pub fn recorded(&self, id: &str) -> (r: Option<&Recorded>)
        ensures
            match first_with_id(self.plan(), id@, 0) {
                Some(i) => match r {
                    Some(x) => self.captures()[i] == Some(*x),
                    None => self.captures()[i] is None,
                },
                None => r is None,
            },
    {
        let mut i: usize = 0;
        while i < self.slots.len()
            invariant
                i <= self.slots@.len(),
                first_with_id(self.plan(), id@, 0) == first_with_id(self.plan(), id@, i as int),
            decreases self.slots@.len() - i,
        {
            if crate::text::str_eq(self.slots[i].spec.id.as_str(), id) {
                return match &self.slots[i].recorded {
                    Some(rec) => Some(rec),
                    None => None,
                };
            }
            i += 1;
        }
        None
    }
}

pub open spec fn south_captured(plan: Seq<ControlView>, caps: Seq<Option<Recorded>>) -> bool {
    exists|j: int| 0 <= j < plan.len() && j < caps.len() && #[trigger] caps[j] is Some && plan[j].0 == "south"@
}

pub open spec fn input_views(v: Seq<emit::Input>) -> Seq<InputView> {
    v.map_values(|i: emit::Input| input_view(i))
}

impl Collector {
    /// The hat axes of the D-PAD direction captures, ascending.
    fn dpad_axes(&self) -> (r: Vec<u16>)
        ensures
            strictly_ascending(r@),
            forall|c: u16| #[trigger] r@.contains(c) <==> hat_axis_codes(self.captures()).contains(c),
    {
        let mut axes: Vec<u16> = Vec::new();
        let mut i: usize = 0;
        while i < self.slots.len()
            invariant
                i <= self.slots@.len(),
                strictly_ascending(axes@),
                forall|c: u16|
                    #[trigger] axes@.contains(c) <==> exists|j: int|
                        0 <= j < i && #[trigger] self.captures()[j] == Some(Recorded::HatAxis { code: c }),
            decreases self.slots@.len() - i,
        {
            match self.slots[i].recorded {
                Some(Recorded::HatAxis { code }) => {
                    if !contains_code(&axes, code) {
                        insert_ascending(&mut axes, code);
                    }
                    assert(self.captures()[i as int] == Some(Recorded::HatAxis { code }));
                },
                _ => {},
            }
            i += 1;
        }
        axes
    }

    /// Build the candidate document from everything captured so far: the identity the source
    /// reports stamped with the operator's metadata, a minimal primary screen, and one row per
    /// captured control (see [`rows_upto`]); `accept_default` names `south` when it was captured.
    pub fn emit<S: EventSource>(&self, src: &mut S, meta: &DeviceMeta) -> (r: Result<Capabilities, CollectError>)
        requires
            self.wf(),
        ensures
            forall|c: u16| #[trigger] final(src).declared(c) == old(src).declared(c),
            forall|n: Option<Seq<char>>, c: u16| #[trigger] final(src).declared_on(n, c) == old(src).declared_on(n, c),
            ({
                let rows = rows_upto(self.plan(), self.captures(), self.plan().len() as int);
                &&& r matches Ok(caps) ==> {
                    &&& rows == Some(input_views(caps.inputs@))
                    &&& caps.inputs@.len() > 0
                    &&& opt_view(caps.accept_default) == if south_captured(self.plan(), self.captures()) {
                        Some("south"@)
                    } else {
                        None
                    }
                    &&& reported_identity(old(src).log().calls(), final(src).log().calls()) matches Some(i)
                        && identity_block(caps.identity, i, *meta)
                    &&& caps.screens@.len() == 1
                    &&& caps.screens@[0].role@ == "primary"@
                    &&& caps.screens@[0].present@ == "landscape"@
                    &&& caps.screens@[0].rotation@ == "none"@
                    &&& caps.screens@[0].canvas_w == 1280 && caps.screens@[0].canvas_h == 720
                }
                &&& final(src).log().calls().len() == old(src).log().calls().len() + 1
                &&& final(src).log().calls().drop_last() == old(src).log().calls()
                &&& final(src).log().calls().last() matches SourceCall::Identity(answer)
                &&& answer matches Err(e) ==> (r matches Err(CollectError::AbsInfo { code, source }) && code == 0 && source == e)
                &&& answer is Ok ==> (r matches Err(e) ==> {
                    ||| rows is None && (e is Incomplete || e is UnknownCode)
                    ||| rows == Some(Seq::<InputView>::empty()) && e is Empty
                })
                &&& rows is None ==> r is Err
                &&& rows == Some(Seq::<InputView>::empty()) ==> r is Err
            }),
    {
        let ghost h0 = src.log().calls();
        let ident = match src.identity() {
            Ok(i) => i,
            Err(e) => {
                assert(src.log().calls().drop_last() =~= h0);
                return Err(CollectError::AbsInfo { code: 0, source: e });
            },
        };
        assert(src.log().calls().drop_last() =~= h0);
        let ghost h1 = src.log().calls();
        let dpad_axes = self.dpad_axes();
        let ghost plan = self.plan();
        let ghost caps = self.captures();
        let mut inputs: Vec<emit::Input> = Vec::new();
        let mut has_south = false;
        let mut dpad_emitted = false;
        let mut i: usize = 0;
        while i < self.slots.len()
            invariant
                i <= self.slots@.len(),
                plan == self.plan(),
                caps == self.captures(),
                forall|c: u16| #[trigger] src.declared(c) == old(src).declared(c),
                forall|n: Option<Seq<char>>, c: u16| #[trigger] src.declared_on(n, c) == old(src).declared_on(n, c),
                src.log().calls() == h1,
                h0 == old(src).log().calls(),
                h1.drop_last() == h0,
                h1.len() == h0.len() + 1,
                h1.last() == SourceCall::Identity(Ok(ident)),
                strictly_ascending(dpad_axes@),
                forall|c: u16| #[trigger] dpad_axes@.contains(c) <==> hat_axis_codes(caps).contains(c),
                rows_upto(plan, caps, i as int) == Some(input_views(inputs@)),
                has_south == exists|j: int| 0 <= j < i && #[trigger] caps[j] is Some && plan[j].0 == "south"@,
                dpad_emitted == hat_axis_before(caps, i as int),
            decreases self.slots@.len() - i,
        {
            let slot = &self.slots[i];
            assert(caps[i as int] == slot.recorded);
            assert(plan[i as int] == slot.spec.view());
            match &slot.recorded {
                None => {
                    assert(input_views(inputs@) == input_views(inputs@));
                },
                Some(rec) => {
                    if crate::text::str_eq(slot.spec.id.as_str(), "south") {
                        has_south = true;
                    }
                    match rec {
                        Recorded::HatAxis { code } => {
                            if !dpad_emitted {
                                let row = match merged_dpad_row(&dpad_axes) {
                                    Ok(row) => row,
                                    Err(e) => {
                                        proof {
                                            let set = hat_axis_codes(caps);
                                            if exists|x: u16, y: u16| lowest_two(set, x, y) {
                                                let (x, y) = choose|x: u16, y: u16| lowest_two(set, x, y);
                                                assert(dpad_axes@.contains(x) && dpad_axes@.contains(y));
                                                let kx = choose|k: int| 0 <= k < dpad_axes@.len() && dpad_axes@[k] == x;
                                                let ky = choose|k: int| 0 <= k < dpad_axes@.len() && dpad_axes@[k] == y;
                                                assert(kx != ky);
                                                assert(dpad_axes@.len() >= 2);
                                                assert(dpad_axes@.contains(dpad_axes@[0]) && dpad_axes@.contains(dpad_axes@[1]));
                                                assert(lowest_two(set, dpad_axes@[0], dpad_axes@[1])) by {
                                                    assert forall|c: u16| set.contains(c) && c != dpad_axes@[0] implies dpad_axes@[1] <= c by {
                                                        assert(dpad_axes@.contains(c));
                                                        let k = choose|k: int| 0 <= k < dpad_axes@.len() && dpad_axes@[k] == c;
                                                        if k >= 2 {
                                                            assert(dpad_axes@[1] < dpad_axes@[k]);
                                                        }
                                                    }
                                                }
                                                lemma_lowest_two_unique(set, x, y, dpad_axes@[0], dpad_axes@[1]);
                                            }
                                            assert(rows_upto(plan, caps, i + 1) is None);
                                            lemma_rows_none_persists(plan, caps, i + 1, plan.len() as int);
                                            }
                                        return Err(e);
                                    },
                                };
                                proof {
                                    let set = hat_axis_codes(caps);
                                    assert(dpad_axes@.len() >= 2);
                                    assert(dpad_axes@.contains(dpad_axes@[0]) && dpad_axes@.contains(dpad_axes@[1]));
                                    assert(lowest_two(set, dpad_axes@[0], dpad_axes@[1])) by {
                                        assert forall|c: u16| set.contains(c) && c != dpad_axes@[0] implies dpad_axes@[1] <= c by {
                                            assert(dpad_axes@.contains(c));
                                            let k = choose|k: int| 0 <= k < dpad_axes@.len() && dpad_axes@[k] == c;
                                            if k >= 2 {
                                                assert(dpad_axes@[1] < dpad_axes@[k]);
                                            }
                                        }
                                    }
                                    let (x, y) = choose|x: u16, y: u16| lowest_two(set, x, y);
                                    lemma_lowest_two_unique(set, x, y, dpad_axes@[0], dpad_axes@[1]);
                                }
                                let ghost before = inputs@;
                                inputs.push(row);
                                dpad_emitted = true;
                                assert(input_views(inputs@) =~= input_views(before).push(input_view(row)));
                            }
                            assert(caps[i as int] matches Some(Recorded::HatAxis { .. }));
                        },
                        _ => {
                            let row = match input_row(&slot.spec, rec) {
                                Ok(row) => row,
                                Err(e) => {
                                    proof {
                                        assert(rows_upto(plan, caps, i + 1) is None);
                                        lemma_rows_none_persists(plan, caps, i + 1, plan.len() as int);
                                    }
                                    return Err(e);
                                },
                            };
                            let ghost before = inputs@;
                            inputs.push(row);
                            assert(input_views(inputs@) =~= input_views(before).push(input_view(row)));
                        },
                    }
                },
            }
            i += 1;
        }
        if inputs.len() == 0 {
            assert(input_views(inputs@) =~= Seq::<InputView>::empty());
            return Err(CollectError::Empty);
        }
        assert(input_views(inputs@).len() == inputs@.len());
        let identity = identity_block_of(&ident, meta);
        let mut screens: Vec<emit::Screen> = Vec::new();
        screens.push(emit::Screen::minimal_primary());
        let accept_default = if has_south {
            Some(string_of("south"))
        } else {
            None
        };
        let r = Capabilities { accept_default, identity, screens, inputs };
        assert(has_south == south_captured(plan, caps));
        assert(r.screens@.len() == 1);
        assert(i == plan.len());
        Ok(r)
    }
}


/// A trigger recorded on an axis is classified by its samples: when every sample the axis
/// reported lies within the endpoint tolerance of the declared minimum or maximum (a switch on
/// an analog wire) it is binary; analog means some sample lay beyond the tolerance from both.
pub proof fn law_endpoint_only_trigger_is_binary(
    id: Seq<char>,
    s: Seq<RawEvent>,
    d: spec_fn(u16) -> Option<AbsInfo>,
    r: Result<Recorded, CollectError>,
)
    requires
        capture_outcome(Kind::Trigger, id, s, d, r),
    ensures
        r matches Ok(Recorded::Trigger { code, abs, semantics }) ==> ({
            let vals = abs_values(s, code);
            &&& semantics == Semantics::Analog ==> exists|i: int|
                0 <= i < vals.len() && abs_int(vals[i] - abs.min) > endpoint_tol(abs) && abs_int(vals[i] - abs.max)
                    > endpoint_tol(abs)
            &&& (forall|i: int|
                0 <= i < vals.len() ==> abs_int(vals[i] - abs.min) <= endpoint_tol(abs) || abs_int(vals[i] - abs.max)
                    <= endpoint_tol(abs)) ==> semantics == Semantics::Binary
        }),
{
    if let Ok(Recorded::Trigger { code, abs, semantics }) = r {
        if semantics == Semantics::Analog {
            let vals = abs_values(s, code);
            assert(visited_intermediate(s, code, abs));
            lemma_sweep_intermediate_sample(vals, vals.len() as int, abs);
        }
    }
}

} // verus!
