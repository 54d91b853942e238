//! The completion policy and the headless pump: one control's capture window, the verdict that
//! closes it, the dead-time drain between controls, and the run loop that walks a plan against
//! an event source.
use vstd::prelude::*;
use std::collections::{HashMap, HashSet};
use crate::input_collect::analysis::{
    abs_value_is_active, endpoint_tol, is_hat_axis, is_hat_code, is_key_down, span_of_range,
    value_active,
};
use crate::input_collect::codes::{abs_name, key_name, EV_ABS, EV_KEY};
use crate::input_collect::collect::{
    capture_outcome, input_views, no_activity_case, rows_upto, CollectError, CommitOutcome, Collector, DeviceMeta,
    Recorded,
};
use crate::input_collect::emit::Capabilities;
use crate::input_collect::plan::{ControlSpec, ControlView, Kind};
use crate::input_collect::source::{asked_code, fresh_absinfo_since, lemma_fresh_unrouted, lemma_unrouted_push, lemma_unrouted_refl, lemma_unrouted_trans, route_view, unrouted_since, zero_abs, AbsInfo, EventSource, RawEvent, SourceCall};
use crate::text::{int_text, push_i64, push_str, push_u64, string_of};
use crate::input_collect::codes::{abs_name_spec, key_name_spec};
use std::time::{Duration, Instant};
use crate::ports::nanos_in;
use vstd::std_specs::iter::IteratorSpec;
use vstd::string::StringSliceAdditionalSpecFns;

verus! {

broadcast use vstd::std_specs::hash::group_hash_axioms;

/// Axis `c` was swept to within 30% of both declared extremes.
pub open spec fn fully_swept(span: Map<u16, (i32, i32)>, declared: Map<u16, AbsInfo>, c: u16) -> bool {
    &&& span.contains_key(c)
    &&& declared.contains_key(c)
    &&& {
        let (lo, hi) = span[c];
        let ai = declared[c];
        let tol = span_of_range(ai) * 3 / 10;
        lo <= ai.min + tol && hi >= ai.max - tol
    }
}

pub open spec fn swept_axes(
    seen: Set<u16>,
    span: Map<u16, (i32, i32)>,
    declared: Map<u16, AbsInfo>,
) -> Set<u16> {
    seen.filter(|c: u16| fully_swept(span, declared, c))
}

fn is_fully_swept(span: &HashMap<u16, (i32, i32)>, declared: &HashMap<u16, AbsInfo>, c: u16) -> (r: bool)
    ensures
        r == fully_swept(span@, declared@, c),
{
    match (span.get(&c), declared.get(&c)) {
        (Some(pair), Some(ai)) => {
            let lo = pair.0;
            let hi = pair.1;
            let d: i64 = ai.max as i64 - ai.min as i64;
            let s: i64 = if d >= 1 { d } else { 1 };
            let tol: i64 = ((s as u64) * 3 / 10) as i64;
            lo as i64 <= ai.min as i64 + tol && hi as i64 >= ai.max as i64 - tol
        },
        _ => false,
    }
}

/// Whether a control has been actuated enough to complete: a one-axis control needs nothing
/// more; a control of `need_axes >= 2` axes needs that many of the seen axes each swept to
/// within 30% of both declared extremes (a real full sweep, not a quarter-roll).
pub fn axes_fully_swept(
    seen: &HashSet<u16>,
    span: &HashMap<u16, (i32, i32)>,
    declared: &HashMap<u16, AbsInfo>,
    need_axes: usize,
) -> (r: bool)
    ensures
        r == (need_axes < 2 || swept_axes(seen@, span@, declared@).len() >= need_axes),
{
    if need_axes < 2 {
        return true;
    }
    let n = seen.len();
    let mut full: usize = 0;
    let ghost mut counted: Seq<u16> = Seq::empty();
    let ghost keys = vstd::std_specs::hash::spec_hash_keys_iter(seen).remaining();
    proof {
        assert(keys.unref().to_set() == seen@);
        assert(keys.no_duplicates());
    }
    for c in it: seen.iter()
        invariant
            it.seq() == keys,
            keys.no_duplicates(),
            keys.len() == seen@.len(),
            n == seen@.len(),
            keys.unref().to_set() == seen@,
            full == counted.len(),
            full <= it.index(),
            counted.no_duplicates(),
            forall|x: u16|
                counted.contains(x) <==> (exists|j: int|
                    0 <= j < it.index() && *keys[j] == x && fully_swept(span@, declared@, x)),
    {
        let ghost i = it.index();
        let ghost before = counted;
        assert(*c == *keys[i]);
        if is_fully_swept(span, declared, *c) {
            full = full + 1;
            proof {
                assert(!counted.contains(*c)) by {
                    if counted.contains(*c) {
                        let j = choose|j: int|
                            0 <= j < i && *keys[j] == *c && fully_swept(span@, declared@, *c);
                        assert(keys[j] == keys[i]);
                    }
                }
                counted = counted.push(*c);
            }
        }
        proof {
            assert forall|x: u16|
                counted.contains(x) <==> (exists|j: int|
                    0 <= j < i + 1 && *keys[j] == x && fully_swept(span@, declared@, x)) by {
                if exists|j: int| 0 <= j < i + 1 && *keys[j] == x && fully_swept(span@, declared@, x) {
                    let j = choose|j: int|
                        0 <= j < i + 1 && *keys[j] == x && fully_swept(span@, declared@, x);
                    if j == i {
                        assert(counted.contains(x)) by {
                            assert(counted[counted.len() - 1] == x);
                        }
                    } else {
                        assert(before.contains(x));
                        let k = choose|k: int| 0 <= k < before.len() && before[k] == x;
                        assert(counted[k] == x);
                    }
                }
                if counted.contains(x) {
                    let k = choose|k: int| 0 <= k < counted.len() && counted[k] == x;
                    if k < before.len() {
                        assert(before[k] == x);
                        assert(before.contains(x));
                    } else {
                        assert(x == *c);
                        assert(*keys[i] == x);
                    }
                }
            }
        }
    }
    proof {
        let sw = swept_axes(seen@, span@, declared@);
        assert(counted.to_set() =~= sw) by {
            assert forall|x: u16| counted.to_set().contains(x) <==> sw.contains(x) by {
                if sw.contains(x) {
                    assert(keys.unref().to_set().contains(x));
                    let j = choose|j: int| 0 <= j < keys.unref().len() && keys.unref()[j] == x;
                    assert(*keys[j] == x);
                }
                if counted.contains(x) {
                    let j = choose|j: int|
                        0 <= j < keys.len() && *keys[j] == x && fully_swept(span@, declared@, x);
                    assert(keys.unref()[j] == x);
                    assert(keys.unref().to_set().contains(x));
                }
            }
        }
        counted.unique_seq_to_set();
    }
    full >= need_axes
}

proof fn lemma_key_in_set(keys: Seq<&u16>, set: Set<u16>, j: int)
    requires
        keys.unref().to_set() == set,
        0 <= j < keys.len(),
    ensures
        set.contains(*keys[j]),
{
    assert(keys.unref()[j] == *keys[j]);
    assert(keys.unref().contains(*keys[j]));
}

proof fn lemma_set_elem_in_keys(keys: Seq<&u16>, set: Set<u16>, x: u16)
    requires
        keys.unref().to_set() == set,
        set.contains(x),
    ensures
        exists|j: int| 0 <= j < keys.len() && *keys[j] == x,
{
    assert(keys.unref().to_set().contains(x));
    let j = choose|j: int| 0 <= j < keys.unref().len() && keys.unref()[j] == x;
    assert(*keys[j] == x);
}

/// The members of `set` of one class (hat axes when `hat`).
fn class_subset(set: &HashSet<u16>, hat: bool) -> (r: HashSet<u16>)
    ensures
        r@ == set@.filter(|c: u16| is_hat_code(c) == hat),
{
    let mut r: HashSet<u16> = HashSet::new();
    let ghost keys = vstd::std_specs::hash::spec_hash_keys_iter(set).remaining();
    proof {
        assert(keys.unref().to_set() == set@);
    }
    for c in it: set.iter()
        invariant
            it.seq() == keys,
            keys.unref().to_set() == set@,
            forall|x: u16|
                #[trigger] r@.contains(x) <==> (exists|j: int| 0 <= j < it.index() && *keys[j] == x)
                    && is_hat_code(x) == hat,
    {
        let ghost i = it.index();
        assert(*c == *keys[i]);
        if is_hat_axis(*c) == hat {
            r.insert(*c);
        }
        assert forall|x: u16|
            #[trigger] r@.contains(x) <==> (exists|j: int| 0 <= j < i + 1 && *keys[j] == x)
                && is_hat_code(x) == hat by {
            if exists|j: int| 0 <= j < i + 1 && *keys[j] == x {
                let j = choose|j: int| 0 <= j < i + 1 && *keys[j] == x;
                if j < i {
                    assert(exists|j: int| 0 <= j < i && *keys[j] == x);
                }
            }
        }
    }
    assert forall|x: u16| r@.contains(x) <==> set@.filter(|c: u16| is_hat_code(c) == hat).contains(x) by {
        if set@.contains(x) {
            lemma_set_elem_in_keys(keys, set@, x);
        }
        if exists|j: int| 0 <= j < keys.len() && *keys[j] == x {
            let j = choose|j: int| 0 <= j < keys.len() && *keys[j] == x;
            lemma_key_in_set(keys, set@, j);
        }
    }
    assert(r@ =~= set@.filter(|c: u16| is_hat_code(c) == hat));
    r
}

/// Proportional axis `c` reached a full press: its observed peak came within the endpoint
/// tolerance of the declared maximum.
pub open spec fn full_press(span: Map<u16, (i32, i32)>, declared: Map<u16, AbsInfo>, c: u16) -> bool {
    span.contains_key(c) && declared.contains_key(c) && span[c].1 >= declared[c].max
        - endpoint_tol(declared[c])
}

/// Whether some actuated axis of the class `hat` satisfies `full_press` (proportional axes) or,
/// for hat axes, simply was actuated.
fn any_actuated(
    set: &HashSet<u16>,
    span: &HashMap<u16, (i32, i32)>,
    declared: &HashMap<u16, AbsInfo>,
    hat: bool,
) -> (r: bool)
    ensures
        r == exists|c: u16|
            #![trigger set@.contains(c)]
            set@.contains(c) && is_hat_code(c) == hat && (hat || full_press(span@, declared@, c)),
{
    let ghost keys = vstd::std_specs::hash::spec_hash_keys_iter(set).remaining();
    proof {
        assert(keys.unref().to_set() == set@);
    }
    for c in it: set.iter()
        invariant
            it.seq() == keys,
            keys.unref().to_set() == set@,
            forall|j: int|
                0 <= j < it.index() ==> !(is_hat_code(*keys[j]) == hat && (hat || full_press(
                    span@,
                    declared@,
                    *keys[j],
                ))),
    {
        let ghost i = it.index();
        assert(*c == *keys[i]);
        if is_hat_axis(*c) == hat {
            let hit = if hat {
                true
            } else {
                match (span.get(c), declared.get(c)) {
                    (Some(p), Some(ai)) => {
                        let d: i64 = ai.max as i64 - ai.min as i64;
                        let sp: i64 = if d >= 1 { d } else { 1 };
                        let t0: i64 = ((sp as u64) / 16) as i64;
                        let tol: i64 = if t0 >= 1 { t0 } else { 1 };
                        assert(tol == endpoint_tol(*ai));
                        p.1 as i64 >= ai.max as i64 - tol
                    },
                    _ => false,
                }
            };
            if hit {
                proof {
                    lemma_key_in_set(keys, set@, i);
                }
                return true;
            }
        }
    }
    assert forall|c: u16|
        set@.contains(c) implies !(is_hat_code(c) == hat && (hat || full_press(span@, declared@, c))) by {
        lemma_set_elem_in_keys(keys, set@, c);
    }
    false
}

// ------------------------------------------------------------------------------------------
// The completion policy.
// ------------------------------------------------------------------------------------------

/// Pump and timing knobs, in polls so behaviour is deterministic against a scripted source and
/// bounded in wall-clock time by `poll_step` and `control_timeout`.
#[derive(Clone, Copy, Debug)]
pub struct RunConfig {
    /// How long one poll blocks on a real device.
    pub poll_step: Duration,
    /// Consecutive inactive polls after a sweep that mean it settled.
    pub quiet_polls: usize,
    /// Consecutive inactive polls from the start before an optional control is skipped.
    pub idle_skip_polls: usize,
    /// Wall-clock cap per control.
    pub control_timeout: Duration,
    /// Polls discarded between two controls: a fixed dead-time window.
    pub drain_polls: usize,
    /// Runaway guard on polls per control.
    pub max_polls: usize,
}

/// A duration of `ms` milliseconds (`Duration::from_millis`): `ms` million nanoseconds.
#[verifier::external_body]
fn millis(ms: u64) -> (d: Duration)
    ensures
        nanos_in(d) == ms * 1_000_000,
{
    Duration::from_millis(ms)
}

/// A duration of `s` whole seconds (`Duration::from_secs`): `s` billion nanoseconds.
#[verifier::external_body]
fn secs(s: u64) -> (d: Duration)
    ensures
        nanos_in(d) == s * 1_000_000_000,
{
    Duration::from_secs(s)
}

impl Default for RunConfig {
    fn default() -> (c: RunConfig)
        ensures
            nanos_in(c.poll_step) == 50_000_000,
            c.quiet_polls == 3,
            c.idle_skip_polls == 40,
            nanos_in(c.control_timeout) == 45_000_000_000u128,
            c.drain_polls == 8,
            c.max_polls == 100_000,
    {
        RunConfig {
            poll_step: millis(50),
            quiet_polls: 3,
            idle_skip_polls: 40,
            control_timeout: secs(45),
            drain_polls: 8,
            max_polls: 100_000,
        }
    }
}

/// What a control's capture window should do next.
#[derive(Clone, Copy, Debug, PartialEq, Eq, Structural)]
pub enum Verdict {
    /// Not enough has been actuated yet: keep the window open.
    Open,
    /// The control is structurally complete: close the window and finalize it.
    Complete,
    /// An optional control that was never actuated: close the window; its row is omitted.
    Skip,
}

/// Whether the accumulated actuation satisfies the control's kind.
#[derive(Clone, Copy, Debug, PartialEq, Eq, Structural)]
enum Coverage {
    /// Nothing this kind of control could be has been actuated yet.
    Nothing,
    /// Satisfied by a sweep that must be recorded to its end: hold until it settles.
    Settling,
    /// Satisfied by a discrete actuation.
    Complete,
}

/// The declared range a window uses for axis `c`: its cached range, else what the source
/// declares, else all zeros (which never reads as active).
pub open spec fn cached_range(cache: Map<u16, AbsInfo>, d: spec_fn(u16) -> Option<AbsInfo>, c: u16) -> AbsInfo {
    if cache.contains_key(c) {
        cache[c]
    } else {
        match d(c) {
            Some(a) => a,
            None => zero_abs(),
        }
    }
}

/// Whether one event is a real actuation for a control of `kind`: a key-down for every kind;
/// for hats, sticks, triggers and D-PAD directions also a significant absolute deviation.
pub open spec fn event_actuates(kind: Kind, e: RawEvent, ai: AbsInfo) -> bool {
    if e.ev_type == EV_KEY {
        e.value == 1
    } else if kind is Button || kind is StickClick {
        false
    } else if e.ev_type == EV_ABS {
        value_active(e.value, ai)
    } else {
        false
    }
}

/// A window's evidence: key-down seen, actuated axes, observed `(min, max)` per axis, cached
/// ranges, and whether the batch so far carried an actuation.
pub type Evidence = (bool, Set<u16>, Map<u16, (i32, i32)>, Map<u16, AbsInfo>, bool);

pub open spec fn observe_step(st: Evidence, e: RawEvent, kind: Kind, d: spec_fn(u16) -> Option<AbsInfo>) -> Evidence {
    let (kd, act, sp, cache, any) = st;
    let kd2 = kd || is_key_down(e);
    if e.ev_type == EV_ABS {
        let c = e.code;
        let v = e.value;
        let ai = cached_range(cache, d, c);
        let range = if sp.contains_key(c) {
            (if v < sp[c].0 { v } else { sp[c].0 }, if v > sp[c].1 { v } else { sp[c].1 })
        } else {
            (v, v)
        };
        let act2 = if value_active(v, ai) { act.insert(c) } else { act };
        (kd2, act2, sp.insert(c, range), cache.insert(c, ai), any || event_actuates(kind, e, ai))
    } else {
        (kd2, act, sp, cache, any || event_actuates(kind, e, zero_abs()))
    }
}

pub open spec fn observe_fold(
    st: Evidence,
    evs: Seq<RawEvent>,
    n: int,
    kind: Kind,
    d: spec_fn(u16) -> Option<AbsInfo>,
) -> Evidence
    decreases n,
{
    if n <= 0 {
        st
    } else {
        observe_step(observe_fold(st, evs, n - 1, kind, d), evs[n - 1], kind, d)
    }
}

/// `need` axes of one class swept to within 30% of both declared extremes.
pub open spec fn class_swept(
    act: Set<u16>,
    span: Map<u16, (i32, i32)>,
    declared: Map<u16, AbsInfo>,
    hat: bool,
    need: nat,
) -> bool {
    let axes = act.filter(|c: u16| is_hat_code(c) == hat);
    axes.len() >= need && swept_axes(axes, span, declared).len() >= need
}

/// The completion verdict of a window with the given evidence. Quiet never completes a
/// control: it only settles a sweep that already satisfied the control, or skips an optional
/// control that was never actuated at all.
/// A discrete actuation completes the control outright: a key-down for a button, a stick
/// click, or a trigger realized as a key.
pub open spec fn covers_complete(kind: Kind, key_down: bool) -> bool {
    (kind is Button || kind is StickClick || kind is Trigger) && key_down
}

/// A sweep has satisfied the control and must be recorded until it settles: a trigger axis at
/// full press, any hat axis for a D-PAD direction, two hat axes fully swept for a hat, two
/// proportional axes fully swept for a stick.
pub open spec fn covers_settling(
    kind: Kind,
    act: Set<u16>,
    span: Map<u16, (i32, i32)>,
    declared: Map<u16, AbsInfo>,
) -> bool {
    match kind {
        Kind::Trigger => exists|c: u16|
            #![trigger act.contains(c)]
            act.contains(c) && !is_hat_code(c) && full_press(span, declared, c),
        Kind::HatDir => exists|c: u16| #![trigger act.contains(c)] act.contains(c) && is_hat_code(c),
        Kind::Hat => class_swept(act, span, declared, true, 2),
        Kind::Stick => class_swept(act, span, declared, false, 2),
        _ => false,
    }
}

/// The completion verdict of a window with the given evidence. Quiet never completes a
/// control: it only settles a sweep that already satisfied the control, or skips an optional
/// control that was never actuated at all.
pub open spec fn verdict_of(
    kind: Kind,
    optional: bool,
    key_down: bool,
    act: Set<u16>,
    span: Map<u16, (i32, i32)>,
    declared: Map<u16, AbsInfo>,
    saw: bool,
    quiet: nat,
    quiet_polls: nat,
    idle_skip_polls: nat,
) -> Verdict {
    if covers_complete(kind, key_down) {
        Verdict::Complete
    } else if covers_settling(kind, act, span, declared) {
        if quiet >= quiet_polls {
            Verdict::Complete
        } else {
            Verdict::Open
        }
    } else if optional && !saw && quiet >= idle_skip_polls {
        Verdict::Skip
    } else {
        Verdict::Open
    }
}

/// Everything a batch fold adds to the evidence is backed by an actuation: a new key-down, or
/// (for a control that reads axes) a newly active axis, makes the batch count as actuated.
proof fn lemma_fold_backed(st: Evidence, evs: Seq<RawEvent>, n: int, kind: Kind, d: spec_fn(u16) -> Option<AbsInfo>)
    requires
        0 <= n <= evs.len(),
    ensures
        ({
            let r = observe_fold(st, evs, n, kind, d);
            &&& st.4 ==> r.4
            &&& r.0 ==> st.0 || r.4
            &&& forall|c: u16| #[trigger] r.1.contains(c) ==> st.1.contains(c) || r.4 || kind is Button || kind is StickClick
        }),
    decreases n,
{
    if n > 0 {
        lemma_fold_backed(st, evs, n - 1, kind, d);
    }
}

/// A window whose evidence is backed by its actuation flag: a key-down was an actuation, and so
/// was any active axis of a control that reads axes.
pub open spec fn backed(kind: Kind, key_down: bool, act: Set<u16>, saw: bool) -> bool {
    &&& key_down ==> saw
    &&& !(kind is Button || kind is StickClick) ==> (forall|c: u16| #[trigger] act.contains(c) ==> saw)
}

/// Quiet never completes a control: a window whose evidence is backed completes only after an
/// actuation, and skips only an optional control never actuated, after enough quiet polls.
pub proof fn law_quiet_never_completes(
    kind: Kind,
    optional: bool,
    key_down: bool,
    act: Set<u16>,
    span: Map<u16, (i32, i32)>,
    declared: Map<u16, AbsInfo>,
    saw: bool,
    quiet: nat,
    quiet_polls: nat,
    idle_skip_polls: nat,
)
    requires
        backed(kind, key_down, act, saw),
    ensures
        verdict_of(kind, optional, key_down, act, span, declared, saw, quiet, quiet_polls, idle_skip_polls)
            == Verdict::Complete ==> saw,
        verdict_of(kind, optional, key_down, act, span, declared, saw, quiet, quiet_polls, idle_skip_polls)
            == Verdict::Skip ==> optional && !saw && quiet >= idle_skip_polls,
{
    if covers_settling(kind, act, span, declared) && !covers_complete(kind, key_down) {
        match kind {
            Kind::Trigger => {
                let c = choose|c: u16| act.contains(c) && !is_hat_code(c) && full_press(span, declared, c);
                assert(act.contains(c));
            },
            Kind::HatDir => {
                let c = choose|c: u16| act.contains(c) && is_hat_code(c);
                assert(act.contains(c));
            },
            Kind::Hat | Kind::Stick => {
                let hat = kind is Hat;
                let axes = act.filter(|c: u16| is_hat_code(c) == hat);
                if !saw {
                    assert(axes =~= Set::<u16>::empty());
                }
            },
            _ => {},
        }
    }
}

/// Over any run of observations from a fresh window, quiet never completes the control: the
/// verdict is `Complete` only after an actuation, and `Skip` only for an optional control never
/// actuated, after enough quiet polls.
pub proof fn law_window_quiet_never_completes(w: Window, cfg: RunConfig)
    requires
        w.is_backed(),
    ensures
        verdict_of(w.kind(), w.optional(), w.evidence().0, w.evidence().1, w.evidence().2, w.evidence().3,
            w.saw_actuation(), w.quiet(), cfg.quiet_polls as nat, cfg.idle_skip_polls as nat) == Verdict::Complete
            ==> w.saw_actuation(),
        verdict_of(w.kind(), w.optional(), w.evidence().0, w.evidence().1, w.evidence().2, w.evidence().3,
            w.saw_actuation(), w.quiet(), cfg.quiet_polls as nat, cfg.idle_skip_polls as nat) == Verdict::Skip
            ==> w.optional() && !w.saw_actuation() && w.quiet() >= cfg.idle_skip_polls,
{
    law_quiet_never_completes(w.kind(), w.optional(), w.evidence().0, w.evidence().1, w.evidence().2,
        w.evidence().3, w.saw_actuation(), w.quiet(), cfg.quiet_polls as nat, cfg.idle_skip_polls as nat);
}

/// One control's capture window: the events recorded for it and the evidence the completion
/// policy judges. Both a headless pump and an interactive one drive this same policy.
pub struct Window {
    kind: Kind,
    optional: bool,
    events: Vec<RawEvent>,
    key_down: bool,
    actuated: HashSet<u16>,
    span: HashMap<u16, (i32, i32)>,
    declared: HashMap<u16, AbsInfo>,
    saw_actuation: bool,
    quiet: usize,
}

/// The declared range of `code`, read once through the source and cached; an axis the source
/// cannot describe degrades to the all-zero range.
fn declared_abs<S: EventSource>(cache: &mut HashMap<u16, AbsInfo>, code: u16, src: &mut S) -> (a: AbsInfo)
    ensures
        forall|c: u16| #[trigger] final(src).declared(c) == old(src).declared(c),
        forall|n: Option<Seq<char>>, c: u16| #[trigger] final(src).declared_on(n, c) == old(src).declared_on(n, c),
        a == cached_range(old(cache)@, |c: u16| old(src).declared(c), code),
        final(cache)@ == old(cache)@.insert(code, a),
        old(cache)@.contains_key(code) ==> final(src).log().calls() == old(src).log().calls(),
        !old(cache)@.contains_key(code) ==> final(src).log().calls().len() == old(src).log().calls().len() + 1
            && final(src).log().calls().drop_last() == old(src).log().calls()
            && final(src).log().calls().last() is AbsInfo && asked_code(final(src).log().calls().last()) == code,
{
    match cache.get(&code) {
        Some(a) => {
            let a = *a;
            assert(old(cache)@.insert(code, a) =~= old(cache)@);
            return a;
        },
        None => {},
    }
    let ghost h0 = src.log().calls();
    let a = match src.absinfo(code) {
        Ok(a) => a,
        Err(_) => AbsInfo::zero(),
    };
    assert(src.log().calls().drop_last() =~= h0);
    cache.insert(code, a);
    a
}

/// A fresh `absinfo` call, for an axis not cached, keeps the stretch fresh.
proof fn lemma_fresh_push(a: Seq<SourceCall>, b: Seq<SourceCall>, known: Set<u16>, cached: Set<u16>, c: SourceCall)
    requires
        fresh_absinfo_since(a, b, known),
        forall|k: u16| known.contains(k) ==> #[trigger] cached.contains(k),
        forall|j: int| a.len() <= j < b.len() ==> cached.contains(asked_code(#[trigger] b[j])),
        c is AbsInfo,
        !cached.contains(asked_code(c)),
    ensures
        fresh_absinfo_since(a, b.push(c), known),
{
    let b2 = b.push(c);
    assert forall|i: int| a.len() <= i < b2.len() implies (#[trigger] b2[i] is AbsInfo && !known.contains(asked_code(b2[i]))) by {
        if i < b.len() {
            assert(b2[i] == b[i]);
        }
    }
    assert forall|i: int, j: int| a.len() <= i < j < b2.len() implies asked_code(#[trigger] b2[i]) != asked_code(#[trigger] b2[j]) by {
        if j < b.len() {
            assert(b2[i] == b[i] && b2[j] == b[j]);
        } else {
            assert(b2[i] == b[i]);
            assert(cached.contains(asked_code(b[i])));
        }
    }
}

/// Whether one event counts as a real actuation for a control of `kind` (see
/// [`event_actuates`]), judging absolute values against the cached declared range.
fn poll_event_active<S: EventSource>(
    kind: Kind,
    e: &RawEvent,
    src: &mut S,
    cache: &mut HashMap<u16, AbsInfo>,
) -> (r: bool)
    ensures
        forall|c: u16| #[trigger] final(src).declared(c) == old(src).declared(c),
        forall|n: Option<Seq<char>>, c: u16| #[trigger] final(src).declared_on(n, c) == old(src).declared_on(n, c),
        r == event_actuates(kind, *e, cached_range(old(cache)@, |c: u16| old(src).declared(c), e.code)),
        (e.ev_type == EV_ABS && !(kind is Button || kind is StickClick)) ==> final(cache)@ == old(
            cache,
        )@.insert(e.code, cached_range(old(cache)@, |c: u16| old(src).declared(c), e.code)),
        !(e.ev_type == EV_ABS && !(kind is Button || kind is StickClick)) ==> final(cache)@ == old(
            cache,
        )@,
        !(e.ev_type == EV_ABS && !(kind is Button || kind is StickClick)) || old(cache)@.contains_key(e.code)
            ==> final(src).log().calls() == old(src).log().calls(),
        (e.ev_type == EV_ABS && !(kind is Button || kind is StickClick)) && !old(cache)@.contains_key(e.code)
            ==> final(src).log().calls().len() == old(src).log().calls().len() + 1
            && final(src).log().calls().drop_last() == old(src).log().calls()
            && final(src).log().calls().last() is AbsInfo && asked_code(final(src).log().calls().last()) == e.code,
{
    match kind {
        Kind::Button | Kind::StickClick => e.ev_type == EV_KEY && e.value == 1,
        Kind::Hat | Kind::Stick | Kind::Trigger | Kind::HatDir => {
            if e.ev_type == EV_KEY {
                return e.value == 1;
            }
            if e.ev_type != EV_ABS {
                return false;
            }
            let ai = declared_abs(cache, e.code, src);
            abs_value_is_active(e.value, &ai)
        },
    }
}

impl Window {
    pub closed spec fn kind(&self) -> Kind {
        self.kind
    }

    pub closed spec fn optional(&self) -> bool {
        self.optional
    }

    /// The events recorded for this control.
    pub closed spec fn recorded_events(&self) -> Seq<RawEvent> {
        self.events@
    }

    /// The evidence gathered so far (the batch-actuation flag reads false).
    pub closed spec fn evidence(&self) -> Evidence {
        (self.key_down, self.actuated@, self.span@, self.declared@, false)
    }

    /// Whether any poll so far carried a real actuation.
    pub closed spec fn saw_actuation(&self) -> bool {
        self.saw_actuation
    }

    /// Consecutive polls without an actuation.
    pub closed spec fn quiet(&self) -> nat {
        self.quiet as nat
    }

    /// The window's evidence is backed by its actuation flag (see [`backed`]).
    pub open spec fn is_backed(&self) -> bool {
        backed(self.kind(), self.evidence().0, self.evidence().1, self.saw_actuation())
    }

    /// Open a capture window for one control.
    pub fn new(spec: &ControlSpec) -> (w: Window)
        ensures
            w.is_backed(),
            w.kind() == spec.kind,
            w.optional() == spec.optional,
            w.recorded_events() == Seq::<RawEvent>::empty(),
            w.evidence() == (
                false,
                Set::<u16>::empty(),
                Map::<u16, (i32, i32)>::empty(),
                Map::<u16, AbsInfo>::empty(),
                false,
            ),
            !w.saw_actuation(),
            w.quiet() == 0,
    {
        Window {
            kind: spec.kind,
            optional: spec.optional,
            events: Vec::new(),
            key_down: false,
            actuated: HashSet::new(),
            span: HashMap::new(),
            declared: HashMap::new(),
            saw_actuation: false,
            quiet: 0,
        }
    }

    /// Feed one poll's worth of events: record them, update the evidence (see
    /// [`observe_step`]), and return whether this poll carried a real actuation of this
    /// control's kind; the quiet run resets on an actuation and grows otherwise.
    pub fn observe<S: EventSource>(&mut self, evs: &[RawEvent], src: &mut S) -> (r: bool)
        requires
            old(self).quiet() < usize::MAX,
        ensures
            forall|c: u16| #[trigger] final(src).declared(c) == old(src).declared(c),
            forall|n: Option<Seq<char>>, c: u16| #[trigger] final(src).declared_on(n, c) == old(src).declared_on(n, c),
            ({
                let st = observe_fold(
                    old(self).evidence(),
                    evs@,
                    evs@.len() as int,
                    old(self).kind(),
                    |c: u16| old(src).declared(c),
                );
                &&& final(self).evidence() == (st.0, st.1, st.2, st.3, false)
                &&& r == st.4
            }),
            final(self).recorded_events() == old(self).recorded_events() + evs@,
            final(self).kind() == old(self).kind(),
            final(self).optional() == old(self).optional(),
            final(self).saw_actuation() == (old(self).saw_actuation() || r),
            final(self).quiet() == if r { 0 } else { old(self).quiet() + 1 },
            fresh_absinfo_since(old(src).log().calls(), final(src).log().calls(), old(self).evidence().3.dom()),
            old(self).is_backed() ==> final(self).is_backed(),
            forall|i: int| old(src).log().calls().len() <= i < final(src).log().calls().len()
                ==> final(self).evidence().3.contains_key(asked_code(#[trigger] final(src).log().calls()[i])),
    {
        let ghost d = |c: u16| old(src).declared(c);
        let ghost st0 = old(self).evidence();
        let mut actuated_now = false;
        let mut i: usize = 0;
        while i < evs.len()
            invariant
                i <= evs@.len(),
                forall|c: u16| #[trigger] src.declared(c) == old(src).declared(c),
                forall|n: Option<Seq<char>>, c: u16| #[trigger] src.declared_on(n, c) == old(src).declared_on(n, c),
                forall|c: u16| #[trigger] d(c) == old(src).declared(c),
                (self.key_down, self.actuated@, self.span@, self.declared@, actuated_now)
                    == observe_fold(st0, evs@, i as int, self.kind, d),
                self.events@ == old(self).events@ + evs@.take(i as int),
                self.kind == old(self).kind,
                self.optional == old(self).optional,
                self.saw_actuation == old(self).saw_actuation,
                self.quiet == old(self).quiet,
                fresh_absinfo_since(old(src).log().calls(), src.log().calls(), old(self).declared@.dom()),
                forall|k: u16| old(self).declared@.contains_key(k) ==> #[trigger] self.declared@.contains_key(k),
                forall|j: int| old(src).log().calls().len() <= j < src.log().calls().len()
                    ==> self.declared@.contains_key(asked_code(#[trigger] src.log().calls()[j])),
            decreases evs@.len() - i,
        {
            let e = evs[i];
            let ghost prev = (self.key_down, self.actuated@, self.span@, self.declared@, actuated_now);
            let ghost h_before = src.log().calls();
            let ghost cache_before = self.declared@;
            if e.ev_type == EV_KEY && e.value == 1 {
                self.key_down = true;
            }
            if e.ev_type == EV_ABS {
                let ai = declared_abs(&mut self.declared, e.code, src);
                let range = match self.span.get(&e.code) {
                    Some(p) => {
                        let lo = if e.value < p.0 { e.value } else { p.0 };
                        let hi = if e.value > p.1 { e.value } else { p.1 };
                        (lo, hi)
                    },
                    None => (e.value, e.value),
                };
                self.span.insert(e.code, range);
                if abs_value_is_active(e.value, &ai) {
                    self.actuated.insert(e.code);
                }
                let ghost cache1 = self.declared@;
                if poll_event_active(self.kind, &e, src, &mut self.declared) {
                    actuated_now = true;
                }
                assert(cache1.insert(e.code, cache1[e.code]) =~= cache1);
            } else {
                if poll_event_active(self.kind, &e, src, &mut self.declared) {
                    actuated_now = true;
                }
            }
            self.events.push(e);
            assert(evs@.take(i + 1) =~= evs@.take(i as int).push(e));
            proof {
                if src.log().calls() != h_before {
                    assert(src.log().calls() == h_before.push(src.log().calls().last()));
                    lemma_fresh_push(
                        old(src).log().calls(),
                        h_before,
                        old(self).declared@.dom(),
                        cache_before.dom(),
                        src.log().calls().last(),
                    );
                    assert(self.declared@.contains_key(e.code));
                }
                assert forall|j: int| old(src).log().calls().len() <= j < src.log().calls().len()
                    implies self.declared@.contains_key(asked_code(#[trigger] src.log().calls()[j])) by {
                    if j < h_before.len() {
                        assert(src.log().calls()[j] == h_before[j]);
                        assert(cache_before.contains_key(asked_code(h_before[j])));
                    }
                }
            }
            i += 1;
        }
        assert(evs@.take(evs@.len() as int) =~= evs@);
        proof {
            lemma_fold_backed(st0, evs@, evs@.len() as int, old(self).kind(), d);
        }
        if actuated_now {
            self.saw_actuation = true;
            self.quiet = 0;
        } else {
            self.quiet = self.quiet + 1;
        }
        actuated_now
    }

    fn class_axes_fully_swept(&self, hat: bool, need: usize) -> (r: bool)
        requires
            need >= 2,
        ensures
            r == class_swept(self.actuated@, self.span@, self.declared@, hat, need as nat),
    {
        let axes = class_subset(&self.actuated, hat);
        axes.len() >= need && axes_fully_swept(&axes, &self.span, &self.declared, need)
    }

    fn coverage(&self) -> (c: Coverage)
        ensures
            covers_complete(self.kind, self.key_down) ==> c == Coverage::Complete,
            !covers_complete(self.kind, self.key_down) && covers_settling(
                self.kind,
                self.actuated@,
                self.span@,
                self.declared@,
            ) ==> c == Coverage::Settling,
            !covers_complete(self.kind, self.key_down) && !covers_settling(
                self.kind,
                self.actuated@,
                self.span@,
                self.declared@,
            ) ==> c == Coverage::Nothing,
    {
        match self.kind {
            Kind::Button | Kind::StickClick => {
                if self.key_down {
                    Coverage::Complete
                } else {
                    assert(!self.evidence().0);
                    Coverage::Nothing
                }
            },
            Kind::Trigger => {
                if self.key_down {
                    Coverage::Complete
                } else if any_actuated(&self.actuated, &self.span, &self.declared, false) {
                    Coverage::Settling
                } else {
                    Coverage::Nothing
                }
            },
            Kind::HatDir => {
                if any_actuated(&self.actuated, &self.span, &self.declared, true) {
                    Coverage::Settling
                } else {
                    Coverage::Nothing
                }
            },
            Kind::Hat => {
                if self.class_axes_fully_swept(true, 2) {
                    Coverage::Settling
                } else {
                    Coverage::Nothing
                }
            },
            Kind::Stick => {
                if self.class_axes_fully_swept(false, 2) {
                    Coverage::Settling
                } else {
                    Coverage::Nothing
                }
            },
        }
    }

    /// The completion verdict for this window so far (see [`verdict_of`]).
    pub fn verdict(&self, cfg: &RunConfig) -> (v: Verdict)
        ensures
            v == verdict_of(
                self.kind(),
                self.optional(),
                self.evidence().0,
                self.evidence().1,
                self.evidence().2,
                self.evidence().3,
                self.saw_actuation(),
                self.quiet(),
                cfg.quiet_polls as nat,
                cfg.idle_skip_polls as nat,
            ),
    {
        match self.coverage() {
            Coverage::Complete => Verdict::Complete,
            Coverage::Settling => {
                if self.quiet >= cfg.quiet_polls {
                    Verdict::Complete
                } else {
                    Verdict::Open
                }
            },
            Coverage::Nothing => {
                if self.optional && !self.saw_actuation && self.quiet >= cfg.idle_skip_polls {
                    Verdict::Skip
                } else {
                    Verdict::Open
                }
            },
        }
    }

    /// The events recorded for this control.
    pub fn events(&self) -> (r: &[RawEvent])
        ensures
            r@ == self.recorded_events(),
    {
        self.events.as_slice()
    }

    /// Consume the window, yielding its recorded events.
    pub fn into_events(self) -> (r: Vec<RawEvent>)
        ensures
            r@ == self.recorded_events(),
    {
        self.events
    }
}

// ------------------------------------------------------------------------------------------
// The headless pump.
// ------------------------------------------------------------------------------------------

#[verifier::external_type_specification]
#[verifier::external_body]
pub struct ExInstant(Instant);

/// The current time (`Instant::now`).
#[verifier::external_body]
fn now() -> Instant {
    Instant::now()
}

/// `start + d`, or `None` when that instant cannot be represented (`Instant::checked_add`).
#[verifier::external_body]
fn instant_after(start: Instant, d: Duration) -> Option<Instant> {
    start.checked_add(d)
}

/// Whether `a` is strictly earlier than `b` (`<` on `Instant`).
#[verifier::external_body]
fn instant_before(a: &Instant, b: &Instant) -> bool {
    a < b
}

/// The routing requests in a log, oldest first.
pub open spec fn routes(h: Seq<SourceCall>) -> Seq<Option<Seq<char>>>
    decreases h.len(),
{
    if h.len() == 0 {
        Seq::empty()
    } else {
        let r = routes(h.drop_last());
        match h.last() {
            SourceCall::Route(x) => r.push(x),
            _ => r,
        }
    }
}

/// The node each control of a plan is read from (`None`: the primary node).
pub open spec fn sources_of(plan: Seq<ControlView>) -> Seq<Option<Seq<char>>> {
    plan.map_values(|c: ControlView| c.4)
}

/// Extending a stretch of a sequence by one element.
proof fn lemma_subrange_extend<A>(s: Seq<A>, a: int, b: int)
    requires
        0 <= a <= b < s.len(),
    ensures
        s.subrange(a, b + 1) == s.subrange(a, b).push(s[b]),
{
    assert(s.subrange(a, b + 1) =~= s.subrange(a, b).push(s[b]));
}

/// Calls that are not routing requests add none.
proof fn lemma_routes_unrouted(a: Seq<SourceCall>, b: Seq<SourceCall>)
    requires
        unrouted_since(a, b),
    ensures
        routes(b) == routes(a),
    decreases b.len(),
{
    if b.len() == a.len() {
        assert(b =~= a);
    } else {
        assert(unrouted_since(a, b.drop_last()));
        lemma_routes_unrouted(a, b.drop_last());
        assert(!(b[b.len() - 1] is Route));
    }
}

/// `h` extends `h0` by successful polls, each with timeout `step`.
pub open spec fn polls_since(h0: Seq<SourceCall>, h: Seq<SourceCall>, step: Duration) -> bool {
    &&& h0.len() <= h.len()
    &&& forall|i: int| 0 <= i < h0.len() ==> #[trigger] h[i] == h0[i]
    &&& forall|i: int| h0.len() <= i < h.len() ==> (#[trigger] h[i] matches SourceCall::Poll(d, res) && d == step && res is Ok)
}

/// Discard input in the gap between two controls, so a tail of control N cannot enter control
/// N+1's window. It runs after a control commits and before the next prompt is shown, so
/// anything arriving then is a tail of the control just finished, never an answer to the
/// question about to be asked. A fixed dead-time window of `cfg.drain_polls` polls (not a
/// drain-until-quiet, which would stop in the pause before a re-press). Returns the polls
/// consumed.
pub fn drain_between_controls<S: EventSource>(src: &mut S, cfg: &RunConfig) -> (r: Result<usize, std::io::Error>)
    ensures
        forall|c: u16| #[trigger] final(src).declared(c) == old(src).declared(c),
        forall|n: Option<Seq<char>>, c: u16| #[trigger] final(src).declared_on(n, c) == old(src).declared_on(n, c),
        r matches Ok(n) ==> n == cfg.drain_polls,
        cfg.drain_polls == 0 ==> (r matches Ok(0usize) && *final(src) == *old(src)),
        ({
            let h0 = old(src).log().calls();
            let h = final(src).log().calls();
            &&& r is Ok ==> h.len() == h0.len() + cfg.drain_polls && polls_since(h0, h, cfg.poll_step)
            &&& r matches Err(e) ==> h0.len() < h.len() <= h0.len() + cfg.drain_polls
                && polls_since(h0, h.drop_last(), cfg.poll_step)
                && h.last() == SourceCall::Poll(cfg.poll_step, Err(e))
        }),
        unrouted_since(old(src).log().calls(), final(src).log().calls()),
{
    let mut k: usize = 0;
    while k < cfg.drain_polls
        invariant
            k <= cfg.drain_polls,
            k == 0 ==> *src == *old(src),
            forall|c: u16| #[trigger] src.declared(c) == old(src).declared(c),
            forall|n: Option<Seq<char>>, c: u16| #[trigger] src.declared_on(n, c) == old(src).declared_on(n, c),
            src.log().calls().len() == old(src).log().calls().len() + k,
            polls_since(old(src).log().calls(), src.log().calls(), cfg.poll_step),
        decreases cfg.drain_polls - k,
    {
        let ghost before = src.log().calls();
        match src.poll(cfg.poll_step) {
            Ok(_discarded) => {},
            Err(e) => {
                assert(src.log().calls().drop_last() =~= before);
                return Err(e);
            },
        }
        k += 1;
    }
    Ok(cfg.drain_polls)
}

/// Whether the window is still open in wall-clock time: the current time is before the
/// deadline. A deadline too far away to represent never passes.
fn before_deadline(deadline: &Option<Instant>) -> bool {
    match deadline {
        Some(d) => instant_before(&now(), d),
        None => true,
    }
}

/// The event batches that the successful polls in `h` returned, in order.
pub open spec fn polls_of(h: Seq<SourceCall>) -> Seq<Seq<RawEvent>>
    decreases h.len(),
{
    if h.len() == 0 {
        Seq::empty()
    } else {
        let p = polls_of(h.drop_last());
        match h.last() {
            SourceCall::Poll(_, Ok(v)) => p.push(v@),
            _ => p,
        }
    }
}

/// Every poll in `h` asked for `step` and succeeded.
pub open spec fn polls_succeed_at(h: Seq<SourceCall>, step: Duration) -> bool {
    forall|i: int|
        0 <= i < h.len() && #[trigger] h[i] is Poll ==> (h[i] matches SourceCall::Poll(t, res) && t == step
            && res is Ok)
}

/// The batches one after another.
pub open spec fn joined_events(ps: Seq<Seq<RawEvent>>) -> Seq<RawEvent>
    decreases ps.len(),
{
    if ps.len() == 0 {
        Seq::empty()
    } else {
        joined_events(ps.drop_last()) + ps.last()
    }
}

/// A fresh capture window for a control of `kind` after observing `ps`, one batch per poll:
/// its evidence, whether any poll carried an actuation, and the current quiet run.
pub open spec fn window_model(kind: Kind, ps: Seq<Seq<RawEvent>>, d: spec_fn(u16) -> Option<AbsInfo>) -> (
    Evidence,
    bool,
    nat,
)
    decreases ps.len(),
{
    if ps.len() == 0 {
        ((false, Set::empty(), Map::empty(), Map::empty(), false), false, 0)
    } else {
        let p = window_model(kind, ps.drop_last(), d);
        let st = observe_fold(p.0, ps.last(), ps.last().len() as int, kind, d);
        ((st.0, st.1, st.2, st.3, false), p.1 || st.4, if st.4 { 0 } else { p.2 + 1 })
    }
}

/// The verdict of that window under `cfg`.
pub open spec fn model_verdict(
    kind: Kind,
    optional: bool,
    ps: Seq<Seq<RawEvent>>,
    d: spec_fn(u16) -> Option<AbsInfo>,
    cfg: RunConfig,
) -> Verdict {
    let m = window_model(kind, ps, d);
    verdict_of(
        kind,
        optional,
        m.0.0,
        m.0.1,
        m.0.2,
        m.0.3,
        m.1,
        m.2,
        cfg.quiet_polls as nat,
        cfg.idle_skip_polls as nat,
    )
}

/// A window fed `ps` made at most `cfg.max_polls` polls and was still open after every poll
/// but the last.
pub open spec fn fed_while_open(
    kind: Kind,
    optional: bool,
    ps: Seq<Seq<RawEvent>>,
    d: spec_fn(u16) -> Option<AbsInfo>,
    cfg: RunConfig,
) -> bool {
    &&& ps.len() <= cfg.max_polls
    &&& forall|j: int| 1 <= j < ps.len() ==> #[trigger] model_verdict(kind, optional, ps.take(j), d, cfg) == Verdict::Open
}

proof fn lemma_polls_of_push(h: Seq<SourceCall>, c: SourceCall)
    ensures
        polls_of(h.push(c)) == match c {
            SourceCall::Poll(_, Ok(v)) => polls_of(h).push(v@),
            _ => polls_of(h),
        },
{
    assert(h.push(c).drop_last() =~= h);
}

/// Calls other than polls add no batches.
proof fn lemma_polls_of_no_polls(a: Seq<SourceCall>, b: Seq<SourceCall>)
    requires
        a.len() <= b.len(),
        forall|i: int| 0 <= i < a.len() ==> #[trigger] b[i] == a[i],
        forall|i: int| a.len() <= i < b.len() ==> !(#[trigger] b[i] is Poll),
    ensures
        polls_of(b) == polls_of(a),
    decreases b.len(),
{
    if b.len() > a.len() {
        assert(!(b[b.len() - 1] is Poll));
        lemma_polls_of_no_polls(a, b.drop_last());
    } else {
        assert(a =~= b);
    }
}

/// A subrange of a log that grew by `c`.
proof fn lemma_subrange_push(h: Seq<SourceCall>, c: SourceCall, start: int)
    requires
        0 <= start <= h.len(),
    ensures
        h.push(c).subrange(start, h.len() + 1int) == h.subrange(start, h.len() as int).push(c),
{
    assert(h.push(c).subrange(start, h.len() + 1int) =~= h.subrange(start, h.len() as int).push(c));
}

/// Pump one control's events off the source until its window reaches a terminal verdict, the
/// wall-clock window closes, or the runaway guard trips. The completion rules live entirely in
/// [`Window`]. Each poll asks for `cfg.poll_step`; the events returned are exactly those the
/// polls returned, in order; the window was open after every poll but the last, and the pump
/// stopped because the poll cap was reached, the window left `Open`, or (the ghost flag) the
/// deadline check reported the control's time up.
fn pump<S: EventSource>(src: &mut S, spec: &ControlSpec, cfg: &RunConfig) -> (r: (
    Result<Vec<RawEvent>, std::io::Error>,
    Ghost<bool>,
))
    ensures
        forall|c: u16| #[trigger] final(src).declared(c) == old(src).declared(c),
        forall|n: Option<Seq<char>>, c: u16| #[trigger] final(src).declared_on(n, c) == old(src).declared_on(n, c),
        cfg.max_polls == 0 ==> (r.0 matches Ok(evs) && evs@.len() == 0 && *final(src) == *old(src)),
        unrouted_since(old(src).log().calls(), final(src).log().calls()),
        r.0 matches Ok(evs) ==> ({
            let seg = final(src).log().calls().subrange(
                old(src).log().calls().len() as int,
                final(src).log().calls().len() as int,
            );
            let ps = polls_of(seg);
            let d = |c: u16| old(src).declared(c);
            &&& polls_succeed_at(seg, cfg.poll_step)
            &&& fed_while_open(spec.kind, spec.optional, ps, d, *cfg)
            &&& evs@ == joined_events(ps)
            &&& ps.len() == cfg.max_polls || model_verdict(spec.kind, spec.optional, ps, d, *cfg)
                != Verdict::Open || r.1@
        }),
{
    let ghost d = |c: u16| old(src).declared(c);
    let ghost h0 = src.log().calls();
    let ghost mut timed_out = false;
    let mut window = Window::new(spec);
    let deadline = instant_after(now(), cfg.control_timeout);
    let mut iters: usize = 0;
    assert(src.log().calls().subrange(h0.len() as int, h0.len() as int) =~= Seq::<SourceCall>::empty());
    while iters < cfg.max_polls
        invariant_except_break
            iters >= 1 ==> model_verdict(
                spec.kind,
                spec.optional,
                polls_of(src.log().calls().subrange(h0.len() as int, src.log().calls().len() as int)),
                d,
                *cfg,
            ) == Verdict::Open,
        invariant
            iters <= cfg.max_polls,
            window.quiet() <= iters,
            iters == 0 ==> *src == *old(src) && window.recorded_events().len() == 0,
            unrouted_since(old(src).log().calls(), src.log().calls()),
            forall|c: u16| #[trigger] src.declared(c) == old(src).declared(c),
            forall|n: Option<Seq<char>>, c: u16| #[trigger] src.declared_on(n, c) == old(src).declared_on(n, c),
            h0 == old(src).log().calls(),
            d == (|c: u16| old(src).declared(c)),
            window.kind() == spec.kind,
            window.optional() == spec.optional,
            ({
                let seg = src.log().calls().subrange(h0.len() as int, src.log().calls().len() as int);
                let ps = polls_of(seg);
                &&& ps.len() == iters
                &&& polls_succeed_at(seg, cfg.poll_step)
                &&& (window.evidence(), window.saw_actuation(), window.quiet()) == window_model(spec.kind, ps, d)
                &&& window.recorded_events() == joined_events(ps)
                &&& fed_while_open(spec.kind, spec.optional, ps, d, *cfg)
            }),
        ensures
            iters == cfg.max_polls || timed_out || model_verdict(
                spec.kind,
                spec.optional,
                polls_of(src.log().calls().subrange(h0.len() as int, src.log().calls().len() as int)),
                d,
                *cfg,
            ) != Verdict::Open,
        decreases cfg.max_polls - iters,
    {
        if !before_deadline(&deadline) {
            proof {
                timed_out = true;
            }
            break;
        }
        let ghost h_a = src.log().calls();
        let ghost ps_a = polls_of(h_a.subrange(h0.len() as int, h_a.len() as int));
        iters += 1;
        let polled = src.poll(cfg.poll_step);
        proof {
            assert(src.log().calls() == h_a.push(src.log().calls().last()));
            lemma_unrouted_push(old(src).log().calls(), h_a, src.log().calls().last());
        }
        let evs = match polled {
            Ok(evs) => evs,
            Err(e) => {
                return (Err(e), Ghost(timed_out));
            },
        };
        let ghost h_b = src.log().calls();
        let ghost seg_b = h_b.subrange(h0.len() as int, h_b.len() as int);
        proof {
            let seg_a = h_a.subrange(h0.len() as int, h_a.len() as int);
            lemma_subrange_push(h_a, SourceCall::Poll(cfg.poll_step, Ok(evs)), h0.len() as int);
            lemma_polls_of_push(seg_a, SourceCall::Poll(cfg.poll_step, Ok(evs)));
            assert(polls_of(seg_b) == ps_a.push(evs@));
            assert(polls_of(seg_b).drop_last() =~= ps_a);
            assert forall|j: int| 1 <= j < polls_of(seg_b).len() implies #[trigger] model_verdict(
                spec.kind,
                spec.optional,
                polls_of(seg_b).take(j),
                d,
                *cfg,
            ) == Verdict::Open by {
                if j < ps_a.len() {
                    assert(polls_of(seg_b).take(j) =~= ps_a.take(j));
                } else {
                    assert(polls_of(seg_b).take(j) =~= ps_a);
                }
            }
            assert(seg_b == seg_a.push(SourceCall::Poll(cfg.poll_step, Ok(evs))));
            assert forall|i: int| 0 <= i < seg_b.len() && #[trigger] seg_b[i] is Poll implies (seg_b[i] matches SourceCall::Poll(t, res)
                && t == cfg.poll_step && res is Ok) by {
                if i < seg_a.len() {
                    assert(seg_b[i] == seg_a[i]);
                }
            }
        }
        let ghost known = window.evidence().3.dom();
        let ghost w_b = window;
        let ghost s_b = *src;
        window.observe(evs.as_slice(), src);
        proof {
            lemma_fresh_unrouted(h_b, src.log().calls(), known);
            lemma_unrouted_trans(old(src).log().calls(), h_b, src.log().calls());
            let h_c = src.log().calls();
            let seg_c = h_c.subrange(h0.len() as int, h_c.len() as int);
            assert forall|i: int| seg_b.len() <= i < seg_c.len() implies !(#[trigger] seg_c[i] is Poll) by {
                assert(seg_c[i] == h_c[i + h0.len()]);
                assert(h_c[i + h0.len()] is AbsInfo);
            }
            assert forall|i: int| 0 <= i < seg_b.len() implies #[trigger] seg_c[i] == seg_b[i] by {
                assert(h_c[i + h0.len()] == h_b[i + h0.len()]);
            }
            lemma_polls_of_no_polls(seg_b, seg_c);
            assert forall|i: int| 0 <= i < seg_c.len() && #[trigger] seg_c[i] is Poll implies (seg_c[i] matches SourceCall::Poll(t, res)
                && t == cfg.poll_step && res is Ok) by {
                if i >= seg_b.len() {
                    assert(h_c[i + h0.len()] is AbsInfo);
                } else {
                    assert(seg_c[i] == seg_b[i]);
                }
            }
            assert((|c: u16| s_b.declared(c)) =~= d);
            let ps = polls_of(seg_c);
            assert(ps.drop_last() =~= ps_a);
            assert(ps.last() == evs@);
            assert(joined_events(ps) == joined_events(ps_a) + evs@);
        }
        match window.verdict(cfg) {
            Verdict::Open => {},
            Verdict::Complete | Verdict::Skip => {
                break;
            },
        }
    }
    (Ok(window.into_events()), Ghost(timed_out))
}

/// Where a run's prompts and results go, one line at a time, as they happen.
pub trait Transcript {
    fn write_line(&mut self, line: &str);
}

impl Transcript for Vec<u8> {
    /// Append the line's bytes and a newline.
    fn write_line(&mut self, line: &str)
        ensures
            final(self)@ == old(self)@ + line.spec_bytes() + seq![10u8],
    {
        let bytes = line.as_bytes();
        let mut i: usize = 0;
        while i < bytes.len()
            invariant
                i <= bytes@.len(),
                bytes@ == line.spec_bytes(),
                self@ == old(self)@ + bytes@.take(i as int),
            decreases bytes@.len() - i,
        {
            self.push(bytes[i]);
            assert(bytes@.take(i + 1) =~= bytes@.take(i as int).push(bytes@[i as int]));
            i += 1;
        }
        self.push(10u8);
        assert(bytes@.take(bytes@.len() as int) =~= bytes@);
    }
}

pub open spec fn name_text(n: Option<&'static str>) -> Seq<char> {
    match n {
        Some(t) => t@,
        None => "?"@,
    }
}

/// The one-line human summary of a recorded capture.
pub open spec fn describe_text(rec: Recorded) -> Seq<char> {
    match rec {
        Recorded::Button { code } => "button "@ + name_text(key_name_spec(code)),
        Recorded::Hat { x_code, y_code } => "hat "@ + name_text(abs_name_spec(x_code)) + ","@
            + name_text(abs_name_spec(y_code)),
        Recorded::Stick { x_code, y_code, x_cal, y_cal, .. } => "stick "@ + name_text(
            abs_name_spec(x_code),
        ) + "["@ + int_text(x_cal.0 as int) + ".."@ + int_text(x_cal.1 as int) + " @"@ + int_text(
            x_cal.2 as int,
        ) + "],"@ + name_text(abs_name_spec(y_code)) + "["@ + int_text(y_cal.0 as int) + ".."@
            + int_text(y_cal.1 as int) + " @"@ + int_text(y_cal.2 as int) + "]"@,
        Recorded::Trigger { code, abs, semantics } => "trigger "@ + name_text(abs_name_spec(code))
            + " ["@ + int_text(abs.min as int) + ".."@ + int_text(abs.max as int) + "] semantics="@
            + crate::input_collect::collect::semantics_str(semantics)@,
        Recorded::TriggerButton { code } => "trigger "@ + name_text(key_name_spec(code))
            + " (button, semantics=binary)"@,
        Recorded::HatAxis { code } => "dpad direction "@ + name_text(abs_name_spec(code))
            + " (merges into the hat row)"@,
    }
}

fn push_name(s: &mut String, n: Option<&'static str>)
    ensures
        final(s)@ == old(s)@ + name_text(n),
{
    match n {
        Some(t) => push_str(s, t),
        None => push_str(s, "?"),
    }
}

/// One-line human summary of a recorded capture.
fn describe(rec: &Recorded) -> (t: String)
    ensures
        t@ == describe_text(*rec),
{
    let mut s = String::new();
    match rec {
        Recorded::Button { code } => {
            push_str(&mut s, "button ");
            push_name(&mut s, key_name(*code));
        },
        Recorded::Hat { x_code, y_code } => {
            push_str(&mut s, "hat ");
            push_name(&mut s, abs_name(*x_code));
            push_str(&mut s, ",");
            push_name(&mut s, abs_name(*y_code));
        },
        Recorded::Stick { x_code, y_code, x_cal, y_cal, .. } => {
            push_str(&mut s, "stick ");
            push_name(&mut s, abs_name(*x_code));
            push_str(&mut s, "[");
            push_i64(&mut s, x_cal.0 as i64);
            push_str(&mut s, "..");
            push_i64(&mut s, x_cal.1 as i64);
            push_str(&mut s, " @");
            push_i64(&mut s, x_cal.2 as i64);
            push_str(&mut s, "],");
            push_name(&mut s, abs_name(*y_code));
            push_str(&mut s, "[");
            push_i64(&mut s, y_cal.0 as i64);
            push_str(&mut s, "..");
            push_i64(&mut s, y_cal.1 as i64);
            push_str(&mut s, " @");
            push_i64(&mut s, y_cal.2 as i64);
            push_str(&mut s, "]");
        },
        Recorded::Trigger { code, abs, semantics } => {
            push_str(&mut s, "trigger ");
            push_name(&mut s, abs_name(*code));
            push_str(&mut s, " [");
            push_i64(&mut s, abs.min as i64);
            push_str(&mut s, "..");
            push_i64(&mut s, abs.max as i64);
            push_str(&mut s, "] semantics=");
            push_str(&mut s, semantics.as_str());
        },
        Recorded::TriggerButton { code } => {
            push_str(&mut s, "trigger ");
            push_name(&mut s, key_name(*code));
            push_str(&mut s, " (button, semantics=binary)");
        },
        Recorded::HatAxis { code } => {
            push_str(&mut s, "dpad direction ");
            push_name(&mut s, abs_name(*code));
            push_str(&mut s, " (merges into the hat row)");
        },
    }
    assert(s@ =~= describe_text(*rec));
    s
}

/// The calls after each routing request in `h`, one stretch per request, in order (calls before
/// the first request belong to none).
pub open spec fn split_routes(h: Seq<SourceCall>) -> Seq<Seq<SourceCall>>
    decreases h.len(),
{
    if h.len() == 0 {
        Seq::empty()
    } else {
        let p = split_routes(h.drop_last());
        if h.last() is Route {
            p.push(Seq::empty())
        } else if p.len() == 0 {
            p
        } else {
            p.update(p.len() - 1, p.last().push(h.last()))
        }
    }
}

/// How the collector settled control `c` from the events `working`: captured as `cap`, or (for
/// an optional control with no activity) skipped.
pub open spec fn committed(
    c: ControlView,
    working: Seq<RawEvent>,
    d: spec_fn(u16) -> Option<AbsInfo>,
    cap: Option<Recorded>,
    skip: bool,
) -> bool {
    ||| cap matches Some(rec) && !skip && capture_outcome(c.1, c.0, working, d, Ok(rec))
    ||| cap is None && skip && c.3 && no_activity_case(c.1, working, d)
}

/// Control `c` was captured from the calls `seg` its node received: every poll asked for
/// `cfg.poll_step` and succeeded, its window (over the node's declared ranges `d`) was open after
/// every poll but the last, and the collector settled it from `before` followed by everything
/// those polls returned.
pub open spec fn fed_control(
    c: ControlView,
    seg: Seq<SourceCall>,
    before: Seq<RawEvent>,
    d: spec_fn(u16) -> Option<AbsInfo>,
    cfg: RunConfig,
    cap: Option<Recorded>,
    skip: bool,
) -> bool {
    let ps = polls_of(seg);
    &&& polls_succeed_at(seg, cfg.poll_step)
    &&& fed_while_open(c.1, c.3, ps, d, cfg)
    &&& committed(c, before + joined_events(ps), d, cap, skip)
}

/// The events the collector already held for the `k`-th control of a run: the pending buffer
/// for the first, nothing for the rest.
pub open spec fn carried_in(k: int, pending: Seq<RawEvent>) -> Seq<RawEvent> {
    if k == 0 {
        pending
    } else {
        Seq::empty()
    }
}

/// Control `c` was captured from the first calls of `seg` (see [`fed_control`]), over the
/// declared ranges `d`.
pub open spec fn captured_from(
    c: ControlView,
    seg: Seq<SourceCall>,
    before: Seq<RawEvent>,
    d: spec_fn(u16) -> Option<AbsInfo>,
    cfg: RunConfig,
    cap: Option<Recorded>,
    skip: bool,
) -> bool {
    exists|n: int| 0 <= n <= seg.len() && #[trigger] fed_control(c, seg.take(n), before, d, cfg, cap, skip)
}

/// The declared ranges of the node that a routing request for `node` selects on `src`.
pub open spec fn node_table<S: EventSource>(src: S, node: Option<Seq<char>>) -> spec_fn(u16) -> Option<AbsInfo> {
    |c: u16| src.declared_on(node, c)
}

spec fn all_fed(
    plan: Seq<ControlView>,
    first: int,
    segs: Seq<Seq<SourceCall>>,
    cuts: Seq<int>,
    ds: Seq<spec_fn(u16) -> Option<AbsInfo>>,
    before0: Seq<RawEvent>,
    cfg: RunConfig,
    caps: Seq<Option<Recorded>>,
    skips: Seq<bool>,
) -> bool {
    &&& cuts.len() <= segs.len()
    &&& ds.len() == cuts.len()
    &&& forall|k: int|
        0 <= k < cuts.len() ==> 0 <= #[trigger] cuts[k] <= segs[k].len() && fed_control(
            plan[first + k],
            segs[k].take(cuts[k]),
            carried_in(k, before0),
            ds[k],
            cfg,
            caps[first + k],
            skips[first + k],
        )
}

/// Each stretch of `a` is a prefix of the same stretch of `b`.
spec fn segs_grow(a: Seq<Seq<SourceCall>>, b: Seq<Seq<SourceCall>>) -> bool {
    &&& a.len() <= b.len()
    &&& forall|k: int| 0 <= k < a.len() ==> #[trigger] b[k].len() >= a[k].len() && b[k].take(a[k].len() as int) == a[k]
}

proof fn lemma_split_route(a: Seq<SourceCall>, x: Option<Seq<char>>)
    ensures
        split_routes(a.push(SourceCall::Route(x))) == split_routes(a).push(Seq::empty()),
        segs_grow(split_routes(a), split_routes(a.push(SourceCall::Route(x)))),
{
    assert(a.push(SourceCall::Route(x)).drop_last() =~= a);
    let p = split_routes(a);
    assert forall|k: int| 0 <= k < p.len() implies #[trigger] p.push(Seq::empty())[k].len() >= p[k].len()
        && p.push(Seq::empty())[k].take(p[k].len() as int) == p[k] by {
        assert(p[k].take(p[k].len() as int) =~= p[k]);
    }
}

/// Calls that route nothing lengthen the last stretch only.
proof fn lemma_split_unrouted(a: Seq<SourceCall>, b: Seq<SourceCall>)
    requires
        a.len() <= b.len(),
        forall|i: int| 0 <= i < a.len() ==> #[trigger] b[i] == a[i],
        forall|i: int| a.len() <= i < b.len() ==> !(#[trigger] b[i] is Route),
    ensures
        split_routes(b).len() == split_routes(a).len(),
        split_routes(a).len() > 0 ==> split_routes(b).last() == split_routes(a).last() + b.subrange(
            a.len() as int,
            b.len() as int,
        ),
        segs_grow(split_routes(a), split_routes(b)),
    decreases b.len(),
{
    let sa = split_routes(a);
    if b.len() > a.len() {
        let b1 = b.drop_last();
        assert forall|i: int| 0 <= i < a.len() implies #[trigger] b1[i] == a[i] by {
            assert(b[i] == a[i]);
        }
        assert forall|i: int| a.len() <= i < b1.len() implies !(#[trigger] b1[i] is Route) by {
            assert(b[i] == b1[i]);
        }
        lemma_split_unrouted(a, b1);
        assert(!(b[b.len() - 1] is Route));
        let s1 = split_routes(b1);
        if sa.len() > 0 {
            assert(b.subrange(a.len() as int, b.len() as int) =~= b1.subrange(a.len() as int, b1.len() as int).push(
                b.last(),
            ));
        }
        let sb = split_routes(b);
        assert forall|k: int| 0 <= k < sa.len() implies #[trigger] sb[k].len() >= sa[k].len() && sb[k].take(
            sa[k].len() as int,
        ) == sa[k] by {
            assert(s1[k].len() >= sa[k].len() && s1[k].take(sa[k].len() as int) == sa[k]);
            if k == s1.len() - 1 {
                assert(sb[k] == s1[k].push(b.last()));
                assert(sb[k].take(sa[k].len() as int) =~= s1[k].take(sa[k].len() as int));
            } else {
                assert(sb[k] == s1[k]);
            }
        }
    } else {
        assert(a =~= b);
        assert(b.subrange(a.len() as int, b.len() as int) =~= Seq::<SourceCall>::empty());
        assert(sa.len() > 0 ==> sa.last() + Seq::<SourceCall>::empty() =~= sa.last());
        assert forall|k: int| 0 <= k < sa.len() implies #[trigger] sa[k].len() >= sa[k].len() && sa[k].take(
            sa[k].len() as int,
        ) == sa[k] by {
            assert(sa[k].take(sa[k].len() as int) =~= sa[k]);
        }
    }
}

proof fn lemma_all_fed_grow(
    plan: Seq<ControlView>,
    first: int,
    a: Seq<Seq<SourceCall>>,
    b: Seq<Seq<SourceCall>>,
    cuts: Seq<int>,
    ds: Seq<spec_fn(u16) -> Option<AbsInfo>>,
    before0: Seq<RawEvent>,
    cfg: RunConfig,
    caps: Seq<Option<Recorded>>,
    skips: Seq<bool>,
)
    requires
        all_fed(plan, first, a, cuts, ds, before0, cfg, caps, skips),
        segs_grow(a, b),
    ensures
        all_fed(plan, first, b, cuts, ds, before0, cfg, caps, skips),
{
    assert forall|k: int| 0 <= k < cuts.len() implies 0 <= #[trigger] cuts[k] <= b[k].len() && fed_control(
        plan[first + k],
        b[k].take(cuts[k]),
        carried_in(k, before0),
        ds[k],
        cfg,
        caps[first + k],
        skips[first + k],
    ) by {
        assert(b[k].len() >= a[k].len() && b[k].take(a[k].len() as int) == a[k]);
        assert(b[k].take(cuts[k]) =~= a[k].take(cuts[k]));
    }
}

proof fn lemma_fed_witness(
    plan: Seq<ControlView>,
    first: int,
    segs: Seq<Seq<SourceCall>>,
    cuts: Seq<int>,
    ds: Seq<spec_fn(u16) -> Option<AbsInfo>>,
    before0: Seq<RawEvent>,
    cfg: RunConfig,
    caps: Seq<Option<Recorded>>,
    skips: Seq<bool>,
)
    requires
        all_fed(plan, first, segs, cuts, ds, before0, cfg, caps, skips),
        cuts.len() == segs.len(),
    ensures
        forall|k: int|
            #![trigger segs[k]]
            0 <= k < segs.len() ==> captured_from(
                plan[first + k],
                segs[k],
                carried_in(k, before0),
                ds[k],
                cfg,
                caps[first + k],
                skips[first + k],
            ),
{
    assert forall|k: int| #![trigger segs[k]] 0 <= k < segs.len() implies captured_from(
        plan[first + k],
        segs[k],
        carried_in(k, before0),
        ds[k],
        cfg,
        caps[first + k],
        skips[first + k],
    ) by {
        assert(0 <= cuts[k] <= segs[k].len());
        assert(fed_control(plan[first + k], segs[k].take(cuts[k]), carried_in(k, before0), ds[k], cfg, caps[first + k], skips[first + k]));
    }
}

/// The subrange of a log from `start` grows the way the log does.
proof fn lemma_tail_unrouted(h0len: int, a: Seq<SourceCall>, b: Seq<SourceCall>)
    requires
        0 <= h0len <= a.len(),
        unrouted_since(a, b),
    ensures
        unrouted_since(a.subrange(h0len, a.len() as int), b.subrange(h0len, b.len() as int)),
        b.subrange(h0len, b.len() as int).subrange(a.len() - h0len, b.len() - h0len) == b.subrange(
            a.len() as int,
            b.len() as int,
        ),
{
    let sa = a.subrange(h0len, a.len() as int);
    let sb = b.subrange(h0len, b.len() as int);
    assert forall|i: int| 0 <= i < sa.len() implies #[trigger] sb[i] == sa[i] by {
        assert(b[i + h0len] == a[i + h0len]);
    }
    assert forall|i: int| sa.len() <= i < sb.len() implies !(#[trigger] sb[i] is Route) by {
        assert(sb[i] == b[i + h0len]);
    }
    assert(sb.subrange(a.len() - h0len, b.len() - h0len) =~= b.subrange(a.len() as int, b.len() as int));
}

/// Run the full guided sequence headlessly against `src`: for each control, route reads to the
/// control's node, pump its window, commit it, advance, and drain the gap before the next
/// prompt; then emit. Prompts and results are appended to the transcript `out`.
///
/// A required control that produced no usable activity ends the run with `NoActivity` naming
/// that control, which is left current and uncaptured: nothing is ever fabricated for it.
///
/// On success the calls the source received split, at each routing request, into one stretch
/// per control of the plan, and each control was captured from the first calls of its own
/// stretch (see [`captured_from`]), over the declared ranges of the node its request selects:
/// its window was fed exactly the batches those polls returned, was open after every poll but
/// the last, and the collector settled the control from those batches.
#[verifier::rlimit(80)]
pub fn run<S: EventSource, T: Transcript>(
    collector: &mut Collector,
    src: &mut S,
    meta: &DeviceMeta,
    cfg: &RunConfig,
    out: &mut T,
) -> (r: Result<Capabilities, CollectError>)
    requires
        old(collector).wf(),
    ensures
        final(collector).wf(),
        final(collector).plan() == old(collector).plan(),
        r matches Ok(caps) ==> final(collector).index() == final(collector).plan().len()
            && rows_upto(
            final(collector).plan(),
            final(collector).captures(),
            final(collector).plan().len() as int,
        ) == Some(input_views(caps.inputs@)),
        r matches Err(CollectError::NoActivity { id }) ==> ({
            let i = final(collector).index();
            &&& 0 <= i < final(collector).plan().len()
            &&& id@ == final(collector).plan()[i].0
            &&& !final(collector).plan()[i].3
            &&& final(collector).captures()[i] == old(collector).captures()[i]
        }),
        ({
            let h0 = old(src).log().calls();
            let h = final(src).log().calls();
            let n = routes(h).len() - routes(h0).len();
            let first = old(collector).index() as int;
            &&& h0.len() <= h.len()
            &&& forall|i: int| 0 <= i < h0.len() ==> #[trigger] h[i] == h0[i]
            &&& 0 <= n <= old(collector).plan().len() - first
            &&& routes(h) == routes(h0) + sources_of(old(collector).plan()).subrange(first, first + n)
            &&& first < old(collector).plan().len() && h.len() > h0.len() ==> h[h0.len() as int] is Route
            &&& r is Ok ==> n == old(collector).plan().len() - first
        }),
        r is Ok ==> ({
            let h0 = old(src).log().calls();
            let h = final(src).log().calls();
            let segs = split_routes(h.subrange(h0.len() as int, h.len() as int));
            let first = old(collector).index() as int;
            &&& segs.len() == old(collector).plan().len() - first
            &&& forall|k: int|
                0 <= k < segs.len() ==> #[trigger] captured_from(
                    old(collector).plan()[first + k],
                    segs[k],
                    carried_in(k, old(collector).working()),
                    node_table(*old(src), old(collector).plan()[first + k].4),
                    *cfg,
                    final(collector).captures()[first + k],
                    final(collector).skips()[first + k],
                )
        }),
{
    let ghost h0 = src.log().calls();
    let ghost first = collector.index() as int;
    let ghost mut cuts: Seq<int> = Seq::empty();
    let ghost mut ds: Seq<spec_fn(u16) -> Option<AbsInfo>> = Seq::empty();
    proof {
        assert(src.log().calls().subrange(h0.len() as int, h0.len() as int) =~= Seq::<SourceCall>::empty());
    }
    proof {
        collector.lemma_shape();
    }
    while !collector.is_done()
        invariant
            collector.wf(),
            collector.plan() == old(collector).plan(),
            forall|j: int|
                collector.index() <= j < collector.plan().len() ==> #[trigger] collector.captures()[j]
                    == old(collector).captures()[j],
            h0 == old(src).log().calls(),
            first == old(collector).index(),
            0 <= first <= collector.index() <= collector.plan().len(),
            h0.len() <= src.log().calls().len(),
            forall|i: int| 0 <= i < h0.len() ==> #[trigger] src.log().calls()[i] == h0[i],
            routes(src.log().calls()) == routes(h0) + sources_of(collector.plan()).subrange(first, collector.index() as int),
            first < collector.index() ==> src.log().calls()[h0.len() as int] is Route && src.log().calls().len() > h0.len(),
            first == collector.index() ==> src.log().calls() == h0,
            cuts.len() == collector.index() - first,
            forall|k: int| 0 <= k < ds.len() ==> #[trigger] ds[k] == node_table(*old(src), collector.plan()[first + k].4),
            forall|n: Option<Seq<char>>, c: u16| #[trigger] src.declared_on(n, c) == old(src).declared_on(n, c),
            split_routes(src.log().calls().subrange(h0.len() as int, src.log().calls().len() as int)).len()
                == collector.index() - first,
            all_fed(
                collector.plan(),
                first,
                split_routes(src.log().calls().subrange(h0.len() as int, src.log().calls().len() as int)),
                cuts,
                ds,
                old(collector).working(),
                *cfg,
                collector.captures(),
                collector.skips(),
            ),
            collector.working() == if collector.index() == first {
                old(collector).working()
            } else {
                Seq::<RawEvent>::empty()
            },
        decreases collector.plan().len() - collector.index(),
    {
        proof {
            collector.lemma_shape();
        }
        let spec = match collector.current() {
            Some(c) => crate::input_collect::collect::copy_control(c),
            None => {
                return Err(CollectError::Empty);
            },
        };
        let (i, n) = collector.position();
        let mut line = String::new();
        push_str(&mut line, "[");
        push_u64(&mut line, i as u64 + 1);
        push_str(&mut line, "/");
        push_u64(&mut line, n as u64);
        push_str(&mut line, "] ");
        push_str(&mut line, spec.id.as_str());
        push_str(&mut line, " \u{2014} ");
        push_str(&mut line, spec.prompt.as_str());
        out.write_line(line.as_str());
        let ghost h_pre = src.log().calls();
        let ghost idx = collector.index() as int;
        let node: Option<&str> = match &spec.source {
            Some(n) => Some(n.as_str()),
            None => None,
        };
        let ghost s_pre = *src;
        src.set_active_source(node);
        let ghost h_routed = src.log().calls();
        proof {
            assert(h_routed.drop_last() =~= h_pre);
            assert(h_routed.last() == SourceCall::Route(collector.plan()[idx].4));
            assert(routes(h_routed) == routes(h_pre).push(collector.plan()[idx].4));
            assert(first <= idx < collector.plan().len());
            assert(sources_of(collector.plan())[idx] == collector.plan()[idx].4);
            assert(sources_of(collector.plan()).len() == collector.plan().len());
            lemma_subrange_extend(sources_of(collector.plan()), first, idx);
            assert(routes(h_routed) =~= routes(h0) + sources_of(collector.plan()).subrange(first, idx + 1));
            assert(h_routed[h0.len() as int] is Route);
            lemma_subrange_push(h_pre, SourceCall::Route(collector.plan()[idx].4), h0.len() as int);
            lemma_split_route(h_pre.subrange(h0.len() as int, h_pre.len() as int), collector.plan()[idx].4);
            lemma_all_fed_grow(
                collector.plan(),
                first,
                split_routes(h_pre.subrange(h0.len() as int, h_pre.len() as int)),
                split_routes(h_routed.subrange(h0.len() as int, h_routed.len() as int)),
                cuts,
                ds,
                old(collector).working(),
                *cfg,
                collector.captures(),
                collector.skips(),
            );
        }
        let ghost s_routed = *src;
        let (pumped, _) = pump(src, &spec, cfg);
        let evs = match pumped {
            Ok(evs) => evs,
            Err(e) => {
                proof {
                    lemma_routes_unrouted(h_routed, src.log().calls());
                }
                return Err(CollectError::AbsInfo { code: 0, source: e });
            },
        };
        proof {
            lemma_routes_unrouted(h_routed, src.log().calls());
        }
        let ghost h_pumped = src.log().calls();
        let ghost pump_seg = h_pumped.subrange(h_routed.len() as int, h_pumped.len() as int);
        let ghost seg_r = h_routed.subrange(h0.len() as int, h_routed.len() as int);
        let ghost seg_p = h_pumped.subrange(h0.len() as int, h_pumped.len() as int);
        proof {
            lemma_tail_unrouted(h0.len() as int, h_routed, h_pumped);
            lemma_split_unrouted(seg_r, seg_p);
            assert(split_routes(seg_r).last() == Seq::<SourceCall>::empty());
            assert(split_routes(seg_p).last() =~= pump_seg);
        }
        let ghost caps_before = collector.captures();
        let ghost skips_before = collector.skips();
        let ghost working_before = collector.working();
        let ghost s_pumped = *src;
        proof {
            assert(evs@ == joined_events(polls_of(pump_seg)));
            assert(polls_succeed_at(pump_seg, cfg.poll_step));
            assert(fed_while_open(spec.kind, spec.optional, polls_of(pump_seg), |c: u16| s_routed.declared(c), *cfg));
            assert((|c: u16| s_pumped.declared(c)) =~= (|c: u16| s_routed.declared(c)));
        }
        collector.record(evs.as_slice());
        let outcome = collector.commit_current(src);
        let ghost h_c = src.log().calls();
        let ghost seg_c = h_c.subrange(h0.len() as int, h_c.len() as int);
        proof {
            lemma_routes_unrouted(h_pumped, src.log().calls());
            lemma_tail_unrouted(h0.len() as int, h_pumped, h_c);
            lemma_split_unrouted(seg_p, seg_c);
            lemma_all_fed_grow(
                collector.plan(),
                first,
                split_routes(seg_r),
                split_routes(seg_p),
                cuts,
                ds,
                old(collector).working(),
                *cfg,
                caps_before,
                skips_before,
            );
            lemma_all_fed_grow(
                collector.plan(),
                first,
                split_routes(seg_p),
                split_routes(seg_c),
                cuts,
                ds,
                old(collector).working(),
                *cfg,
                caps_before,
                skips_before,
            );
        }
        match outcome {
            Ok(CommitOutcome::Captured(rec)) => {
                let mut l = String::new();
                push_str(&mut l, "    recorded: ");
                let d = describe(&rec);
                push_str(&mut l, d.as_str());
                out.write_line(l.as_str());
            },
            Ok(CommitOutcome::Skipped) => {
                out.write_line("    skipped (optional, no activity)");
            },
            Err(e) => {
                return Err(e);
            },
        }
        proof {
            let k_new = idx - first;
            let dn = |c: u16| s_routed.declared(c);
            assert(route_view(node) == collector.plan()[idx].4);
            assert(dn =~= node_table(*old(src), collector.plan()[idx].4)) by {
                assert forall|c: u16| #[trigger] dn(c) == node_table(*old(src), collector.plan()[idx].4)(c) by {
                    assert(s_routed.declared(c) == s_pre.declared_on(route_view(node), c));
                    assert(s_pre.declared_on(route_view(node), c) == old(src).declared_on(route_view(node), c));
                }
            }
            let segs_c = split_routes(seg_c);
            assert(segs_c[k_new].take(pump_seg.len() as int) == pump_seg);
            assert(working_before == carried_in(k_new, old(collector).working()));
            assert(spec.kind == collector.plan()[idx].1 && spec.optional == collector.plan()[idx].3);
            assert(fed_control(
                collector.plan()[first + k_new],
                segs_c[k_new].take(pump_seg.len() as int),
                carried_in(k_new, old(collector).working()),
                dn,
                *cfg,
                collector.captures()[first + k_new],
                collector.skips()[first + k_new],
            )) by {
                assert(first + k_new == idx);
                assert(collector.plan()[idx] == spec.view());
                assert(polls_succeed_at(pump_seg, cfg.poll_step));
                assert(fed_while_open(collector.plan()[idx].1, collector.plan()[idx].3, polls_of(pump_seg), dn, *cfg));
                assert(working_before + evs@ == carried_in(k_new, old(collector).working()) + joined_events(polls_of(pump_seg)));
                assert(committed(
                    collector.plan()[idx],
                    working_before + evs@,
                    dn,
                    collector.captures()[idx],
                    collector.skips()[idx],
                ));
            }
            let cuts2 = cuts.push(pump_seg.len() as int);
            let ds2 = ds.push(dn);
            assert forall|k: int| 0 <= k < cuts2.len() implies 0 <= #[trigger] cuts2[k] <= segs_c[k].len() && fed_control(
                collector.plan()[first + k],
                segs_c[k].take(cuts2[k]),
                carried_in(k, old(collector).working()),
                ds2[k],
                *cfg,
                collector.captures()[first + k],
                collector.skips()[first + k],
            ) by {
                if k < cuts.len() {
                    assert(cuts[k] == cuts2[k]);
                    assert(collector.captures()[first + k] == caps_before[first + k]);
                    assert(collector.skips()[first + k] == skips_before[first + k]);
                }
            }
            assert forall|k: int| 0 <= k < ds2.len() implies #[trigger] ds2[k] == node_table(*old(src), collector.plan()[first + k].4) by {
                if k < ds.len() {
                    assert(ds2[k] == ds[k]);
                }
            }
            cuts = cuts2;
            ds = ds2;
        }
        collector.advance();
        let ghost h_committed = src.log().calls();
        if !collector.is_done() {
            match drain_between_controls(src, cfg) {
                Ok(_) => {
                    proof {
                        assert(unrouted_since(h_committed, src.log().calls()));
                        lemma_routes_unrouted(h_committed, src.log().calls());
                        lemma_tail_unrouted(h0.len() as int, h_committed, src.log().calls());
                        lemma_split_unrouted(
                            h_committed.subrange(h0.len() as int, h_committed.len() as int),
                            src.log().calls().subrange(h0.len() as int, src.log().calls().len() as int),
                        );
                        lemma_all_fed_grow(
                            collector.plan(),
                            first,
                            split_routes(h_committed.subrange(h0.len() as int, h_committed.len() as int)),
                            split_routes(src.log().calls().subrange(h0.len() as int, src.log().calls().len() as int)),
                            cuts,
                            ds,
                            old(collector).working(),
                            *cfg,
                            collector.captures(),
                            collector.skips(),
                        );
                    }
                },
                Err(e) => {
                    proof {
                        assert(unrouted_since(h_committed, src.log().calls()));
                        lemma_routes_unrouted(h_committed, src.log().calls());
                    }
                    return Err(CollectError::AbsInfo { code: 0, source: e });
                },
            }
        }
    }
    proof {
        collector.lemma_shape();
    }
    let ghost h_done = src.log().calls();
    let r = collector.emit(src, meta);
    proof {
        assert(unrouted_since(h_done, src.log().calls()));
        lemma_routes_unrouted(h_done, src.log().calls());
        assert(collector.index() == collector.plan().len());
        assert(sources_of(collector.plan()).len() == collector.plan().len());
        assert(sources_of(collector.plan()).subrange(first, collector.index() as int).len() == collector.index() - first);
        assert(routes(src.log().calls()).len() - routes(h0).len() == collector.plan().len() - first);
        if first < collector.index() {
            assert(src.log().calls().drop_last()[h0.len() as int] == h_done[h0.len() as int]);
        }
    }
    proof {
        let h = src.log().calls();
        lemma_tail_unrouted(h0.len() as int, h_done, h);
        lemma_split_unrouted(h_done.subrange(h0.len() as int, h_done.len() as int), h.subrange(h0.len() as int, h.len() as int));
        lemma_all_fed_grow(
            collector.plan(),
            first,
            split_routes(h_done.subrange(h0.len() as int, h_done.len() as int)),
            split_routes(h.subrange(h0.len() as int, h.len() as int)),
            cuts,
            ds,
            old(collector).working(),
            *cfg,
            collector.captures(),
            collector.skips(),
        );
        lemma_fed_witness(
            collector.plan(),
            first,
            split_routes(h.subrange(h0.len() as int, h.len() as int)),
            cuts,
            ds,
            old(collector).working(),
            *cfg,
            collector.captures(),
            collector.skips(),
        );
    }
    assert(r matches Ok(caps) ==> rows_upto(
        collector.plan(),
        collector.captures(),
        collector.plan().len() as int,
    ) == Some(input_views(caps.inputs@)));
    r
}

} // verus!
