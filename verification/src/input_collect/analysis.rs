//! Per-control evidence analysis: which absolute axes a capture really actuated (judged by
//! midpoint-relative deviation, so a continuously streaming stick at rest never counts), how far
//! each axis travelled, the observed calibration envelope of an axis, and the jitter-deduplicated
//! sweep analysis that tells a binary trigger from an analog one.
use vstd::prelude::*;
use vstd::relations::{sorted_by, total_ordering};
use crate::input_collect::codes::{EV_ABS, EV_KEY};
use crate::input_collect::source::{unrouted_since, AbsInfo, EventSource, RawEvent};

verus! {

broadcast use vstd::seq_lib::group_to_multiset_ensures;

/// Deviation (numerator / denominator of the declared range) an axis value must sit off its
/// midpoint to count as a real actuation rather than rest jitter.
const ACTIVE_DEV_NUM: i64 = 15;
const ACTIVE_DEV_DEN: i64 = 100;

pub open spec fn abs_int(x: int) -> int {
    if x < 0 { -x } else { x }
}

/// Integer halving that rounds toward zero (Rust's `/ 2` on a signed value).
pub open spec fn trunc_half(x: int) -> int {
    if x >= 0 { x / 2 } else { -((-x) / 2) }
}

/// The declared span of an axis, at least one.
pub open spec fn span_of_range(ai: AbsInfo) -> int {
    if ai.max - ai.min >= 1 { ai.max - ai.min } else { 1 }
}

/// A single absolute value counts as actuation when it sits at least 15% of the declared span
/// away from the midpoint of the declared range.
pub open spec fn value_active(v: i32, ai: AbsInfo) -> bool {
    abs_int(v - trunc_half(ai.min + ai.max)) * 100 >= span_of_range(ai) * 15
}

pub open spec fn is_key_down(e: RawEvent) -> bool {
    e.ev_type == EV_KEY && e.value == 1
}

pub open spec fn abs_event_of(e: RawEvent, c: u16) -> bool {
    e.ev_type == EV_ABS && e.code == c
}

/// The code of the first key-down at or after position `i`.
pub open spec fn first_key_down_from(s: Seq<RawEvent>, i: int) -> Option<u16>
    decreases s.len() - i,
{
    if i < 0 || i >= s.len() {
        None
    } else if is_key_down(s[i]) {
        Some(s[i].code)
    } else {
        first_key_down_from(s, i + 1)
    }
}

pub open spec fn first_key_down(s: Seq<RawEvent>) -> Option<u16> {
    first_key_down_from(s, 0)
}

/// Whether axis `c` was really actuated in `s`, given its declared range `d`.
pub open spec fn code_active(s: Seq<RawEvent>, c: u16, d: Option<AbsInfo>) -> bool {
    match d {
        Some(ai) => exists|i: int|
            0 <= i < s.len() && #[trigger] abs_event_of(s[i], c) && value_active(s[i].value, ai),
        None => false,
    }
}

/// The `ABS_HAT*` axis codes (0x10 through 0x17).
pub open spec fn is_hat_code(c: u16) -> bool {
    0x10 <= c <= 0x17
}

/// The actuated axes of one class (hat axes when `hat`, proportional axes otherwise).
pub open spec fn actuated_class(
    s: Seq<RawEvent>,
    d: spec_fn(u16) -> Option<AbsInfo>,
    hat: bool,
) -> Set<u16> {
    Set::new(|c: u16| is_hat_code(c) == hat && code_active(s, c, d(c)))
}

pub open spec fn strictly_ascending(s: Seq<u16>) -> bool {
    forall|i: int, j: int| 0 <= i < j < s.len() ==> s[i] < s[j]
}

/// Lowest value seen on axis `c` among the first `n` events (`i32::MAX` if none).
pub open spec fn lo_upto(s: Seq<RawEvent>, c: u16, n: int) -> int
    decreases n,
{
    if n <= 0 {
        i32::MAX as int
    } else {
        let l = lo_upto(s, c, n - 1);
        if abs_event_of(s[n - 1], c) && s[n - 1].value < l {
            s[n - 1].value as int
        } else {
            l
        }
    }
}

/// Highest value seen on axis `c` among the first `n` events (`i32::MIN` if none).
pub open spec fn hi_upto(s: Seq<RawEvent>, c: u16, n: int) -> int
    decreases n,
{
    if n <= 0 {
        i32::MIN as int
    } else {
        let h = hi_upto(s, c, n - 1);
        if abs_event_of(s[n - 1], c) && s[n - 1].value > h {
            s[n - 1].value as int
        } else {
            h
        }
    }
}

/// The observed travel of axis `c`: highest minus lowest value seen, zero if it never appeared.
pub open spec fn obs_span(s: Seq<RawEvent>, c: u16) -> int {
    let d = hi_upto(s, c, s.len() as int) - lo_upto(s, c, s.len() as int);
    if d > 0 { d } else { 0 }
}

/// The activity ranking: larger observed travel first, ties broken by the lower code.
pub open spec fn ranks_before(s: Seq<RawEvent>, a: u16, b: u16) -> bool {
    obs_span(s, a) > obs_span(s, b) || (obs_span(s, a) == obs_span(s, b) && a < b)
}

/// `t` is the most active member of `p`.
pub open spec fn top_ranked(s: Seq<RawEvent>, p: Set<u16>, t: u16) -> bool {
    &&& p.contains(t)
    &&& forall|c: u16| p.contains(c) && c != t ==> ranks_before(s, t, c)
}

/// `x < y` are the two most active members of `p`.
pub open spec fn top_two(s: Seq<RawEvent>, p: Set<u16>, x: u16, y: u16) -> bool {
    &&& p.contains(x) && p.contains(y) && x < y
    &&& forall|c: u16|
        p.contains(c) && c != x && c != y ==> ranks_before(s, x, c) && ranks_before(s, y, c)
}

/// `x < y` are the two lowest members of `p`.
pub open spec fn lowest_two(p: Set<u16>, x: u16, y: u16) -> bool {
    &&& p.contains(x) && p.contains(y) && x < y
    &&& forall|c: u16| p.contains(c) && c != x ==> y <= c
}

pub open spec fn has_two(p: Set<u16>) -> bool {
    exists|a: u16, b: u16| p.contains(a) && p.contains(b) && a != b
}

/// The values axis `c` reported among the first `n` events, in arrival order.
pub open spec fn abs_values_upto(s: Seq<RawEvent>, c: u16, n: int) -> Seq<i32>
    decreases n,
{
    if n <= 0 {
        Seq::empty()
    } else if abs_event_of(s[n - 1], c) {
        abs_values_upto(s, c, n - 1).push(s[n - 1].value)
    } else {
        abs_values_upto(s, c, n - 1)
    }
}

pub open spec fn abs_values(s: Seq<RawEvent>, c: u16) -> Seq<i32> {
    abs_values_upto(s, c, s.len() as int)
}

pub open spec fn le_i32() -> spec_fn(i32, i32) -> bool {
    |a: i32, b: i32| a <= b
}

/// The observed calibration envelope of axis `c`: the lowest and highest values reached and the
/// median sample (the rest position of a continuously streaming axis). When the axis never
/// reported, the declared range and its midpoint.
pub open spec fn calibration(s: Seq<RawEvent>, c: u16, ai: AbsInfo) -> (i32, i32, i32) {
    let vals = abs_values(s, c);
    if vals.len() == 0 {
        (ai.min, ai.max, trunc_half(ai.min + ai.max) as i32)
    } else {
        let sorted = vals.sort_by(le_i32());
        (sorted[0], sorted[vals.len() - 1], sorted[(vals.len() / 2) as int])
    }
}

/// Jitter step of the sweep analysis: at least one, a sixty-fourth of the declared span.
pub open spec fn jitter_of(ai: AbsInfo) -> int {
    if span_of_range(ai) / 64 >= 1 { span_of_range(ai) / 64 } else { 1 }
}

/// Endpoint tolerance: at least one, a sixteenth of the declared span.
pub open spec fn endpoint_tol(ai: AbsInfo) -> int {
    if span_of_range(ai) / 16 >= 1 { span_of_range(ai) / 16 } else { 1 }
}

/// One step of the sweep analysis over `(last counted value, peak, visited intermediate travel)`.
/// A value within the jitter step of the last counted value that sets no new peak is skipped.
pub open spec fn sweep_step(st: (Option<i32>, i32, bool), v: i32, ai: AbsInfo) -> (
    Option<i32>,
    i32,
    bool,
) {
    let (last, hi, vis) = st;
    if last matches Some(l) && abs_int(v - l) < jitter_of(ai) && v <= hi {
        st
    } else {
        let near_min = abs_int(v - ai.min) <= endpoint_tol(ai);
        let near_max = abs_int(v - ai.max) <= endpoint_tol(ai);
        (Some(v), if v > hi { v } else { hi }, vis || (!near_min && !near_max))
    }
}

pub open spec fn sweep_upto(vals: Seq<i32>, n: int, ai: AbsInfo) -> (Option<i32>, i32, bool)
    decreases n,
{
    if n <= 0 {
        (None, i32::MIN, false)
    } else {
        sweep_step(sweep_upto(vals, n - 1, ai), vals[n - 1], ai)
    }
}

pub open spec fn sweep(vals: Seq<i32>, ai: AbsInfo) -> (Option<i32>, i32, bool) {
    sweep_upto(vals, vals.len() as int, ai)
}

/// The sweep saw intermediate travel only if some sample lay beyond the endpoint tolerance of
/// both declared endpoints.
pub proof fn lemma_sweep_intermediate_sample(vals: Seq<i32>, n: int, ai: AbsInfo)
    requires
        0 <= n <= vals.len(),
        sweep_upto(vals, n, ai).2,
    ensures
        exists|i: int|
            0 <= i < n && abs_int(vals[i] - ai.min) > endpoint_tol(ai) && abs_int(vals[i] - ai.max) > endpoint_tol(ai),
    decreases n,
{
    if sweep_upto(vals, n - 1, ai).2 {
        lemma_sweep_intermediate_sample(vals, n - 1, ai);
    } else {
        let i = n - 1;
        assert(abs_int(vals[i] - ai.min) > endpoint_tol(ai) && abs_int(vals[i] - ai.max) > endpoint_tol(ai));
    }
}

/// A trigger axis reached a full press: its swept peak came within the endpoint tolerance of
/// the declared maximum.
pub open spec fn reached_full_press(s: Seq<RawEvent>, c: u16, ai: AbsInfo) -> bool {
    sweep(abs_values(s, c), ai).1 >= ai.max - endpoint_tol(ai)
}

/// Whether any deduplicated sample of axis `c` landed away from both endpoints.
pub open spec fn visited_intermediate(s: Seq<RawEvent>, c: u16, ai: AbsInfo) -> bool {
    sweep(abs_values(s, c), ai).2
}

/// Whether an axis code is one of the `ABS_HAT*` D-PAD axes — what keeps a thumbstick brushed
/// on the way to the D-PAD from satisfying a D-PAD prompt, and D-PAD presses from satisfying a
/// stick prompt.
pub fn is_hat_axis(code: u16) -> (r: bool)
    ensures
        r == is_hat_code(code),
{
    0x10 <= code && code <= 0x17
}

/// Whether a single absolute value is a real actuation of an axis with the declared range `ai`
/// (at least 15% of the range off the midpoint), as opposed to a continuously streaming axis at
/// rest.
pub fn abs_value_is_active(value: i32, ai: &AbsInfo) -> (r: bool)
    ensures
        r == value_active(value, *ai),
{
    let sum: i64 = ai.min as i64 + ai.max as i64;
    let mid: i64 = if sum >= 0 {
        ((sum as u64) / 2) as i64
    } else {
        -((((-sum) as u64) / 2) as i64)
    };
    let d: i64 = ai.max as i64 - ai.min as i64;
    let range: i64 = if d >= 1 { d } else { 1 };
    let dev: i64 = value as i64 - mid;
    let adev: i64 = if dev >= 0 { dev } else { -dev };
    adev * ACTIVE_DEV_DEN >= range * ACTIVE_DEV_NUM
}

/// The code of the first key-down among `events`.
pub fn first_key_down_code(events: &[RawEvent]) -> (r: Option<u16>)
    ensures
        r == first_key_down(events@),
{
    let mut i: usize = 0;
    while i < events.len()
        invariant
            i <= events@.len(),
            first_key_down(events@) == first_key_down_from(events@, i as int),
        decreases events@.len() - i,
    {
        let e = events[i];
        if e.ev_type == EV_KEY && e.value == 1 {
            return Some(e.code);
        }
        i += 1;
    }
    None
}

/// True if any `EV_ABS` event for `code` was really actuated under the declared range `ai`.
fn abs_is_active(code: u16, events: &[RawEvent], ai: &AbsInfo) -> (r: bool)
    ensures
        r == code_active(events@, code, Some(*ai)),
{
    let mut i: usize = 0;
    while i < events.len()
        invariant
            i <= events@.len(),
            forall|j: int|
                0 <= j < i ==> !(#[trigger] abs_event_of(events@[j], code) && value_active(
                    events@[j].value,
                    *ai,
                )),
        decreases events@.len() - i,
    {
        let e = events[i];
        if e.ev_type == EV_ABS && e.code == code && abs_value_is_active(e.value, ai) {
            assert(abs_event_of(events@[i as int], code));
            return true;
        }
        i += 1;
    }
    false
}

/// Whether `v` holds `c`.
pub fn contains_code(v: &Vec<u16>, c: u16) -> (r: bool)
    ensures
        r == v@.contains(c),
{
    let mut i: usize = 0;
    while i < v.len()
        invariant
            i <= v@.len(),
            forall|j: int| 0 <= j < i ==> v@[j] != c,
        decreases v@.len() - i,
    {
        if v[i] == c {
            return true;
        }
        i += 1;
    }
    false
}

/// Insert `c` into a strictly ascending vector that lacks it, keeping it strictly ascending.
pub fn insert_ascending(v: &mut Vec<u16>, c: u16)
    requires
        strictly_ascending(old(v)@),
        !old(v)@.contains(c),
    ensures
        strictly_ascending(final(v)@),
        final(v)@.len() == old(v)@.len() + 1,
        forall|x: u16| final(v)@.contains(x) <==> (old(v)@.contains(x) || x == c),
{
    let mut p: usize = 0;
    while p < v.len() && v[p] < c
        invariant
            p <= v@.len(),
            forall|j: int| 0 <= j < p ==> v@[j] < c,
        decreases v@.len() - p,
    {
        p += 1;
    }
    let ghost ov = v@;
    assert(forall|j: int| p <= j < ov.len() ==> ov[j] > c) by {
        assert forall|j: int| p <= j < ov.len() implies ov[j] > c by {
            assert(ov[p as int] >= c);
            assert(ov[p as int] != c) by {
                assert(ov.contains(ov[p as int]));
            }
        }
    }
    v.insert(p, c);
    assert(v@ =~= ov.insert(p as int, c));
    assert forall|x: u16| v@.contains(x) <==> (ov.contains(x) || x == c) by {
        if v@.contains(x) {
            let k = choose|k: int| 0 <= k < v@.len() && v@[k] == x;
            if k < p {
                assert(ov[k] == x);
            } else if k > p {
                assert(ov[k - 1] == x);
            }
        }
        if ov.contains(x) {
            let k = choose|k: int| 0 <= k < ov.len() && ov[k] == x;
            if k < p {
                assert(v@[k] == x);
            } else {
                assert(v@[k + 1] == x);
            }
        }
        if x == c {
            assert(v@[p as int] == c);
        }
    }
}

/// The absolute axes really actuated in `events` (midpoint-relative deviation past the activity
/// threshold, judged on each axis's declared range as the source reports it), ascending.
pub fn active_abs_codes<S: EventSource>(events: &[RawEvent], src: &mut S) -> (r: Vec<u16>)
    ensures
        forall|c: u16| #[trigger] final(src).declared(c) == old(src).declared(c),
        forall|n: Option<Seq<char>>, c: u16| #[trigger] final(src).declared_on(n, c) == old(src).declared_on(n, c),
        strictly_ascending(r@),
        forall|c: u16| #[trigger] r@.contains(c) <==> code_active(events@, c, old(src).declared(c)),
        unrouted_since(old(src).log().calls(), final(src).log().calls()),
{
    let mut codes: Vec<u16> = Vec::new();
    let mut i: usize = 0;
    while i < events.len()
        invariant
            i <= events@.len(),
            forall|c: u16| #[trigger] src.declared(c) == old(src).declared(c),
            forall|n: Option<Seq<char>>, c: u16| #[trigger] src.declared_on(n, c) == old(src).declared_on(n, c),
            unrouted_since(old(src).log().calls(), src.log().calls()),
            strictly_ascending(codes@),
            forall|c: u16| codes@.contains(c) ==> code_active(events@, c, old(src).declared(c)),
            forall|j: int|
                0 <= j < i && events@[j].ev_type == EV_ABS && code_active(
                    events@,
                    events@[j].code,
                    old(src).declared(events@[j].code),
                ) ==> codes@.contains(#[trigger] events@[j].code),
        decreases events@.len() - i,
    {
        let e = events[i];
        if e.ev_type == EV_ABS && !contains_code(&codes, e.code) {
            match src.absinfo(e.code) {
                Ok(ai) => {
                    if abs_is_active(e.code, events, &ai) {
                        insert_ascending(&mut codes, e.code);
                    }
                },
                Err(_) => {},
            }
        }
        i += 1;
    }
    assert forall|c: u16| code_active(events@, c, old(src).declared(c)) implies codes@.contains(
        c,
    ) by {
        let ai = old(src).declared(c)->0;
        let j = choose|j: int|
            0 <= j < events@.len() && #[trigger] abs_event_of(events@[j], c) && value_active(
                events@[j].value,
                ai,
            );
        assert(events@[j].code == c);
    }
    codes
}

/// The codes of a strictly ascending vector that belong to one class (hat axes when `hat`).
pub fn class_codes(codes: &Vec<u16>, hat: bool) -> (r: Vec<u16>)
    requires
        strictly_ascending(codes@),
    ensures
        strictly_ascending(r@),
        forall|c: u16| #[trigger] r@.contains(c) <==> (codes@.contains(c) && is_hat_code(c) == hat),
{
    let mut r: Vec<u16> = Vec::new();
    let mut i: usize = 0;
    while i < codes.len()
        invariant
            i <= codes@.len(),
            strictly_ascending(codes@),
            strictly_ascending(r@),
            forall|q: int| #![trigger r@[q]] 0 <= q < r@.len() ==> exists|j: int| 0 <= j < i && #[trigger] codes@[j] == r@[q],
            forall|c: u16|
                r@.contains(c) <==> (exists|j: int| 0 <= j < i && codes@[j] == c) && is_hat_code(c)
                    == hat,
        decreases codes@.len() - i,
    {
        let c = codes[i];
        if is_hat_axis(c) == hat {
            let ghost old_r = r@;
            assert forall|q: int| 0 <= q < old_r.len() implies old_r[q] < c by {
                let j = choose|j: int| 0 <= j < i && codes@[j] == old_r[q];
            }
            r.push(c);
            assert forall|q: int| #![trigger r@[q]] 0 <= q < r@.len() implies exists|j: int|
                0 <= j < i + 1 && #[trigger] codes@[j] == r@[q] by {
                if q < old_r.len() {
                    let j = choose|j: int| 0 <= j < i && codes@[j] == old_r[q];
                    assert(codes@[j] == r@[q]);
                } else {
                    assert(codes@[i as int] == r@[q]);
                }
            }
            assert forall|x: u16|
                r@.contains(x) <==> (exists|j: int| 0 <= j < i + 1 && codes@[j] == x)
                    && is_hat_code(x) == hat by {
                if r@.contains(x) {
                    let k = choose|k: int| 0 <= k < r@.len() && r@[k] == x;
                    if k < old_r.len() {
                        assert(old_r.contains(x));
                    }
                }
                if (exists|j: int| 0 <= j < i + 1 && codes@[j] == x) && is_hat_code(x) == hat {
                    let j = choose|j: int| 0 <= j < i + 1 && codes@[j] == x;
                    if j < i {
                        assert(old_r.contains(x));
                        let k = choose|k: int| 0 <= k < old_r.len() && old_r[k] == x;
                        assert(r@[k] == x);
                    } else {
                        assert(r@[r@.len() - 1] == x);
                    }
                }
            }
        } else {
            assert forall|x: u16|
                r@.contains(x) <==> (exists|j: int| 0 <= j < i + 1 && codes@[j] == x)
                    && is_hat_code(x) == hat by {
                if (exists|j: int| 0 <= j < i + 1 && codes@[j] == x) && is_hat_code(x) == hat {
                    let j = choose|j: int| 0 <= j < i + 1 && codes@[j] == x;
                    assert(j < i);
                }
            }
            assert forall|q: int| #![trigger r@[q]] 0 <= q < r@.len() implies exists|j: int|
                0 <= j < i + 1 && #[trigger] codes@[j] == r@[q] by {
                let j = choose|j: int| 0 <= j < i && codes@[j] == r@[q];
            }
        }
        i += 1;
    }
    assert forall|c: u16| r@.contains(c) <==> (codes@.contains(c) && is_hat_code(c) == hat) by {
        if codes@.contains(c) {
            let j = choose|j: int| 0 <= j < codes@.len() && codes@[j] == c;
        }
    }
    r
}

/// The observed travel of axis `c` in `events` (highest minus lowest value, zero if absent).
pub fn span_of(events: &[RawEvent], c: u16) -> (r: i64)
    ensures
        r == obs_span(events@, c),
{
    let mut lo: i32 = i32::MAX;
    let mut hi: i32 = i32::MIN;
    let mut i: usize = 0;
    while i < events.len()
        invariant
            i <= events@.len(),
            lo == lo_upto(events@, c, i as int),
            hi == hi_upto(events@, c, i as int),
        decreases events@.len() - i,
    {
        let e = events[i];
        if e.ev_type == EV_ABS && e.code == c {
            if e.value < lo {
                lo = e.value;
            }
            if e.value > hi {
                hi = e.value;
            }
        }
        i += 1;
    }
    let d: i64 = hi as i64 - lo as i64;
    if d > 0 {
        d
    } else {
        0
    }
}

/// The candidate axes ordered by observed travel, largest first, ties by the lower code — used
/// to pick the real stick or trigger axes over an idle neighbour's crosstalk.
pub fn rank_axes_by_span(events: &[RawEvent], candidates: &[u16]) -> (r: Vec<u16>)
    requires
        strictly_ascending(candidates@),
    ensures
        r@.len() == candidates@.len(),
        forall|x: u16| #[trigger] r@.contains(x) <==> candidates@.contains(x),
        forall|i: int, j: int| 0 <= i < j < r@.len() ==> ranks_before(events@, r@[i], r@[j]),
{
    let mut r: Vec<u16> = Vec::new();
    let mut sp: Vec<i64> = Vec::new();
    let mut k: usize = 0;
    while k < candidates.len()
        invariant
            k <= candidates@.len(),
            strictly_ascending(candidates@),
            r@.len() == k,
            sp@.len() == k,
            forall|q: int| 0 <= q < k ==> sp@[q] == obs_span(events@, #[trigger] r@[q]),
            forall|x: u16| r@.contains(x) <==> candidates@.take(k as int).contains(x),
            forall|i: int, j: int| 0 <= i < j < r@.len() ==> ranks_before(events@, r@[i], r@[j]),
        decreases candidates@.len() - k,
    {
        let c = candidates[k];
        let s = span_of(events, c);
        let mut p: usize = 0;
        while p < r.len() && !(s > sp[p] || (s == sp[p] && c < r[p]))
            invariant
                p <= r@.len(),
                r@.len() == sp@.len(),
                forall|q: int| 0 <= q < r@.len() ==> sp@[q] == obs_span(events@, #[trigger] r@[q]),
                s == obs_span(events@, c),
                forall|q: int| 0 <= q < p ==> !ranks_before(events@, c, #[trigger] r@[q]),
            decreases r@.len() - p,
        {
            p += 1;
        }
        let ghost or = r@;
        let ghost osp = sp@;
        assert(!or.contains(c)) by {
            if or.contains(c) {
                assert(candidates@.take(k as int).contains(c));
                let j = choose|j: int| 0 <= j < k && candidates@.take(k as int)[j] == c;
                assert(candidates@[j] == candidates@[k as int]);
            }
        }
        r.insert(p, c);
        sp.insert(p, s);
        assert(r@ =~= or.insert(p as int, c));
        assert(sp@ =~= osp.insert(p as int, s));
        assert forall|q: int| 0 <= q < k + 1 implies sp@[q] == obs_span(events@, #[trigger] r@[q]) by {
            if q < p {
                assert(r@[q] == or[q]);
            } else if q > p {
                assert(r@[q] == or[q - 1]);
            }
        }
        assert forall|i: int, j: int| 0 <= i < j < r@.len() implies ranks_before(
            events@,
            r@[i],
            r@[j],
        ) by {
            if j < p {
                assert(ranks_before(events@, or[i], or[j]));
            } else if i > p {
                assert(ranks_before(events@, or[i - 1], or[j - 1]));
            } else if i == p {
                assert(ranks_before(events@, c, or[p as int]));
                if j - 1 > p {
                    assert(ranks_before(events@, or[p as int], or[j - 1]));
                }
            } else if j == p {
                assert(!ranks_before(events@, c, or[i]));
                assert(or.contains(or[i]));
            } else {
                assert(!ranks_before(events@, c, or[i]));
                assert(or.contains(or[i]));
                assert(ranks_before(events@, c, or[p as int]));
                if j - 1 > p {
                    assert(ranks_before(events@, or[p as int], or[j - 1]));
                }
            }
        }
        assert(candidates@.take(k + 1) =~= candidates@.take(k as int).push(c));
        assert forall|x: u16| r@.contains(x) <==> candidates@.take(k + 1).contains(x) by {
            if r@.contains(x) {
                let q = choose|q: int| 0 <= q < r@.len() && r@[q] == x;
                if q < p {
                    assert(or[q] == x);
                    assert(or.contains(x));
                } else if q > p {
                    assert(or[q - 1] == x);
                    assert(or.contains(x));
                } else {
                    assert(candidates@.take(k + 1)[k as int] == c);
                }
            }
            if candidates@.take(k + 1).contains(x) {
                if x == c {
                    assert(r@[p as int] == c);
                } else {
                    assert(candidates@.take(k as int).contains(x));
                    assert(or.contains(x));
                    let q = choose|q: int| 0 <= q < or.len() && or[q] == x;
                    if q < p {
                        assert(r@[q] == x);
                    } else {
                        assert(r@[q + 1] == x);
                    }
                }
            }
        }
        k += 1;
    }
    assert(candidates@.take(candidates@.len() as int) =~= candidates@);
    r
}

/// The values axis `c` reported in `events`, in arrival order.
pub fn abs_values_of(events: &[RawEvent], c: u16) -> (v: Vec<i32>)
    ensures
        v@ == abs_values(events@, c),
{
    let mut v: Vec<i32> = Vec::new();
    let mut i: usize = 0;
    while i < events.len()
        invariant
            i <= events@.len(),
            v@ == abs_values_upto(events@, c, i as int),
        decreases events@.len() - i,
    {
        let e = events[i];
        if e.ev_type == EV_ABS && e.code == c {
            v.push(e.value);
        }
        i += 1;
    }
    v
}

/// One axis's swept peak and whether it visited intermediate travel.
pub struct AxisObs {
    pub max: i32,
    pub visited_intermediate: bool,
}

/// The jitter-deduplicated sweep analysis of one axis's values: a value within the jitter step
/// (a sixty-fourth of the declared span, at least one) of the last counted value that sets no
/// new peak is skipped; the peak of the counted values, and whether any counted value landed
/// away from both declared endpoints (beyond a sixteenth of the span, at least one).
pub fn observe_axis(values: &[i32], declared: &AbsInfo) -> (o: AxisObs)
    ensures
        o.max == sweep(values@, *declared).1,
        o.visited_intermediate == sweep(values@, *declared).2,
{
    let d: i64 = declared.max as i64 - declared.min as i64;
    let span: i64 = if d >= 1 { d } else { 1 };
    let j0: i64 = ((span as u64) / 64) as i64;
    let jitter: i64 = if j0 >= 1 { j0 } else { 1 };
    let t0: i64 = ((span as u64) / 16) as i64;
    let tol: i64 = if t0 >= 1 { t0 } else { 1 };
    assert(span == span_of_range(*declared));
    assert(jitter == jitter_of(*declared));
    assert(tol == endpoint_tol(*declared));
    let mut last: Option<i32> = None;
    let mut hi: i32 = i32::MIN;
    let mut vis: bool = false;
    let mut i: usize = 0;
    while i < values.len()
        invariant
            i <= values@.len(),
            jitter == jitter_of(*declared),
            tol == endpoint_tol(*declared),
            (last, hi, vis) == sweep_upto(values@, i as int, *declared),
        decreases values@.len() - i,
    {
        let v = values[i];
        let skip = match last {
            Some(l) => {
                let dv: i64 = v as i64 - l as i64;
                let a: i64 = if dv >= 0 { dv } else { -dv };
                a < jitter && v <= hi
            },
            None => false,
        };
        if !skip {
            last = Some(v);
            if v > hi {
                hi = v;
            }
            let dmin: i64 = v as i64 - declared.min as i64;
            let amin: i64 = if dmin >= 0 { dmin } else { -dmin };
            let dmax: i64 = v as i64 - declared.max as i64;
            let amax: i64 = if dmax >= 0 { dmax } else { -dmax };
            if !(amin <= tol) && !(amax <= tol) {
                vis = true;
            }
        }
        i += 1;
    }
    AxisObs { max: hi, visited_intermediate: vis }
}

/// Sort values ascending.
pub fn sort_values(v: &Vec<i32>) -> (r: Vec<i32>)
    ensures
        sorted_by(r@, le_i32()),
        r@.to_multiset() == v@.to_multiset(),
{
    let mut r: Vec<i32> = Vec::new();
    let mut i: usize = 0;
    while i < v.len()
        invariant
            i <= v@.len(),
            sorted_by(r@, le_i32()),
            r@.to_multiset() == v@.take(i as int).to_multiset(),
        decreases v@.len() - i,
    {
        let x = v[i];
        let mut p: usize = 0;
        while p < r.len() && r[p] <= x
            invariant
                p <= r@.len(),
                forall|q: int| 0 <= q < p ==> r@[q] <= x,
            decreases r@.len() - p,
        {
            p += 1;
        }
        let ghost or = r@;
        assert forall|q: int| p <= q < or.len() implies or[q] > x by {
            assert(le_i32()(or[p as int], or[q]) || q == p);
        }
        r.insert(p, x);
        assert(r@ =~= or.insert(p as int, x));
        assert forall|a: int, b: int| 0 <= a < b < r@.len() implies #[trigger] le_i32()(
            r@[a],
            r@[b],
        ) by {
            if b < p {
                assert(le_i32()(or[a], or[b]));
            } else if a > p {
                assert(le_i32()(or[a - 1], or[b - 1]));
            } else if a < p && b > p {
                assert(or[a] <= x);
            }
        }
        assert(v@.take(i + 1) =~= v@.take(i as int).push(x));
        i += 1;
    }
    assert(v@.take(v@.len() as int) =~= v@);
    r
}

proof fn lemma_le_i32_total()
    ensures
        total_ordering(le_i32()),
{
}

/// The observed calibration envelope of axis `code` in `events` (see [`calibration`]).
pub fn axis_calibration(events: &[RawEvent], code: u16, declared: &AbsInfo) -> (r: (i32, i32, i32))
    ensures
        r == calibration(events@, code, *declared),
{
    let vals = abs_values_of(events, code);
    if vals.len() == 0 {
        let sum: i64 = declared.min as i64 + declared.max as i64;
        let mid: i64 = if sum >= 0 {
            ((sum as u64) / 2) as i64
        } else {
            -((((-sum) as u64) / 2) as i64)
        };
        return (declared.min, declared.max, mid as i32);
    }
    let sorted = sort_values(&vals);
    proof {
        lemma_le_i32_total();
        vals@.lemma_sort_by_ensures(le_i32());
        vstd::seq_lib::lemma_sorted_unique(sorted@, vals@.sort_by(le_i32()), le_i32());
    }
    assert(sorted@.len() == vals@.len()) by {
        assert(sorted@.to_multiset().len() == sorted@.len());
        assert(vals@.to_multiset().len() == vals@.len());
    }
    let n = sorted.len();
    (sorted[0], sorted[n - 1], sorted[n / 2])
}

} // verus!
