//! The event source the collection engine reads — a trait, so the engine is identical whether it
//! is driven by a live evdev node or by a scripted stream — plus the scripted source and the
//! multi-node router.
use vstd::prelude::*;
use std::collections::{HashMap, VecDeque};
use std::time::Duration;
use super::codes::{EV_ABS, EV_KEY};
use crate::text::{hex_digits, push_hex, push_str};

verus! {

broadcast use vstd::std_specs::hash::group_hash_axioms;

/// `std::io::Error`, carried opaquely through the engine's results.
#[verifier::external_type_specification]
#[verifier::external_body]
pub struct ExIoError(std::io::Error);

/// One decoded evdev event: the `(ev_type, code, value)` triple the engine records per prompt.
#[derive(Clone, Copy, Debug, PartialEq, Eq, Structural)]
pub struct RawEvent {
    pub ev_type: u16,
    pub code: u16,
    pub value: i32,
}

impl RawEvent {
    pub fn new(ev_type: u16, code: u16, value: i32) -> (e: RawEvent)
        ensures
            e == (RawEvent { ev_type, code, value }),
    {
        RawEvent { ev_type, code, value }
    }
}

/// A `struct input_absinfo` — the driver-declared range for an axis.
#[derive(Clone, Copy, Debug, PartialEq, Eq, Structural)]
pub struct AbsInfo {
    pub min: i32,
    pub max: i32,
    pub fuzz: i32,
    pub flat: i32,
    pub resolution: i32,
}

/// The all-zero range, used for an axis a source cannot describe.
pub open spec fn zero_abs() -> AbsInfo {
    AbsInfo { min: 0, max: 0, fuzz: 0, flat: 0, resolution: 0 }
}

impl AbsInfo {
    /// The all-zero range (`AbsInfo::default()`).
    pub fn zero() -> (a: AbsInfo)
        ensures
            a == zero_abs(),
    {
        AbsInfo { min: 0, max: 0, fuzz: 0, flat: 0, resolution: 0 }
    }
}

/// Device identity: name plus `(bus, vid, pid, version)`.
#[derive(Clone, Debug)]
pub struct Identity {
    pub name: String,
    pub bus: u16,
    pub vid: u16,
    pub pid: u16,
    pub version: u16,
}

/// An I/O error of kind `NotFound` carrying `message` (`std::io::Error::new`).
#[verifier::external_body]
fn not_found(message: String) -> std::io::Error {
    std::io::Error::new(std::io::ErrorKind::NotFound, message)
}

/// The message a scripted source reports for an axis it has no range for.
pub open spec fn no_absinfo_text(abs_code: u16) -> Seq<char> {
    "no scripted absinfo for abs code 0x"@ + hex_digits(abs_code as nat)
}

/// The message for an axis a scripted source has no range for, with the code in hexadecimal.
fn no_absinfo_message(abs_code: u16) -> (m: String)
    ensures
        m@ == no_absinfo_text(abs_code),
{
    let mut m = String::new();
    push_str(&mut m, "no scripted absinfo for abs code 0x");
    push_hex(&mut m, abs_code as u64);
    m
}

/// One call a source received, with what it answered.
pub enum SourceCall {
    Identity(Result<Identity, std::io::Error>),
    AbsInfo(u16, Result<AbsInfo, std::io::Error>),
    Poll(Duration, Result<Vec<RawEvent>, std::io::Error>),
    /// A routing request: the node named, or the primary node.
    Route(Option<Seq<char>>),
}

/// The calls a source has received, oldest first. It exists only for the contracts: every
/// source keeps one and notes each call it answers.
#[derive(Clone, Copy)]
pub struct SourceLog {
    calls: Ghost<Seq<SourceCall>>,
}

impl SourceLog {
    pub closed spec fn calls(self) -> Seq<SourceCall> {
        self.calls@
    }

    /// A log of no calls.
    pub fn new() -> (l: SourceLog)
        ensures
            l.calls() == Seq::<SourceCall>::empty(),
    {
        SourceLog { calls: Ghost(Seq::empty()) }
    }

    /// Note an `identity` call and its answer.
    pub fn note_identity(&mut self, r: &Result<Identity, std::io::Error>)
        ensures
            final(self).calls() == old(self).calls().push(SourceCall::Identity(*r)),
    {
        self.calls = Ghost(self.calls@.push(SourceCall::Identity(*r)));
    }

    /// Note an `absinfo` call and its answer.
    pub fn note_absinfo(&mut self, abs_code: u16, r: &Result<AbsInfo, std::io::Error>)
        ensures
            final(self).calls() == old(self).calls().push(SourceCall::AbsInfo(abs_code, *r)),
    {
        self.calls = Ghost(self.calls@.push(SourceCall::AbsInfo(abs_code, *r)));
    }

    /// Note a `poll` call and its answer.
    pub fn note_poll(&mut self, timeout: Duration, r: &Result<Vec<RawEvent>, std::io::Error>)
        ensures
            final(self).calls() == old(self).calls().push(SourceCall::Poll(timeout, *r)),
    {
        self.calls = Ghost(self.calls@.push(SourceCall::Poll(timeout, *r)));
    }

    /// Note a routing request.
    pub fn note_route(&mut self, node: Option<&str>)
        ensures
            final(self).calls() == old(self).calls().push(SourceCall::Route(route_view(node))),
    {
        self.calls = Ghost(self.calls@.push(SourceCall::Route(route_view(node))));
    }
}

/// A routing request as plain values.
pub open spec fn route_view(node: Option<&str>) -> Option<Seq<char>> {
    match node {
        Some(n) => Some(n@),
        None => None,
    }
}

/// `b` extends `a` by calls none of which is a routing request.
pub open spec fn unrouted_since(a: Seq<SourceCall>, b: Seq<SourceCall>) -> bool {
    &&& a.len() <= b.len()
    &&& forall|i: int| 0 <= i < a.len() ==> #[trigger] b[i] == a[i]
    &&& forall|i: int| a.len() <= i < b.len() ==> !(#[trigger] b[i] is Route)
}

/// A log extends itself without routing.
pub proof fn lemma_unrouted_refl(a: Seq<SourceCall>)
    ensures
        unrouted_since(a, a),
{
}

/// Two unrouted stretches make one.
pub proof fn lemma_unrouted_trans(a: Seq<SourceCall>, b: Seq<SourceCall>, c: Seq<SourceCall>)
    requires
        unrouted_since(a, b),
        unrouted_since(b, c),
    ensures
        unrouted_since(a, c),
{
    assert forall|i: int| a.len() <= i < c.len() implies !(#[trigger] c[i] is Route) by {
        if i < b.len() {
            assert(c[i] == b[i]);
        }
    }
}

/// Appending a call that is not a routing request keeps a stretch unrouted.
pub proof fn lemma_unrouted_push(a: Seq<SourceCall>, b: Seq<SourceCall>, x: SourceCall)
    requires
        unrouted_since(a, b),
        !(x is Route),
    ensures
        unrouted_since(a, b.push(x)),
{
    assert forall|i: int| a.len() <= i < b.push(x).len() implies !(#[trigger] b.push(x)[i] is Route) by {
        if i < b.len() {
            assert(b.push(x)[i] == b[i]);
        }
    }
}

/// The axis an `absinfo` call asked about (zero for any other call).
pub open spec fn asked_code(c: SourceCall) -> u16 {
    match c {
        SourceCall::AbsInfo(code, _) => code,
        _ => 0,
    }
}

/// `b` extends `a` by `absinfo` calls only, each for an axis outside `known` and none asked
/// twice.
pub open spec fn fresh_absinfo_since(a: Seq<SourceCall>, b: Seq<SourceCall>, known: Set<u16>) -> bool {
    &&& a.len() <= b.len()
    &&& forall|i: int| 0 <= i < a.len() ==> #[trigger] b[i] == a[i]
    &&& forall|i: int| a.len() <= i < b.len() ==> (#[trigger] b[i] is AbsInfo && !known.contains(asked_code(b[i])))
    &&& forall|i: int, j: int| a.len() <= i < j < b.len() ==> asked_code(#[trigger] b[i]) != asked_code(#[trigger] b[j])
}

/// Fresh `absinfo` calls are not routing requests.
pub proof fn lemma_fresh_unrouted(a: Seq<SourceCall>, b: Seq<SourceCall>, known: Set<u16>)
    requires
        fresh_absinfo_since(a, b, known),
    ensures
        unrouted_since(a, b),
{
    assert forall|i: int| a.len() <= i < b.len() implies !(#[trigger] b[i] is Route) by {
        assert(b[i] is AbsInfo);
    }
}

/// The name of an evdev node, as routing requests give it.
pub type NodeName = Seq<char>;

/// A source of decoded evdev events plus the device's identity and per-axis declared ranges.
///
/// Every implementation promises that the declared range of an axis is a fixed property of the
/// node being read: `identity`, `absinfo` and `poll` never change it, and `absinfo` succeeds
/// exactly for the axes the node describes, returning that range. Only `set_active_source`
/// (switching nodes) may change it, to the ranges of the node it routes to; no call changes
/// the ranges any node would present.
pub trait EventSource {
    /// The driver-declared range the active node reports for an axis, if it describes it.
    spec fn declared(&self, abs_code: u16) -> Option<AbsInfo>;

    /// The range the node that a routing request for `node` selects would report for an axis.
    spec fn declared_on(&self, node: Option<NodeName>, abs_code: u16) -> Option<AbsInfo>;

    /// The calls this source has received.
    spec fn log(&self) -> SourceLog;

    /// `EVIOCGNAME` + `EVIOCGID` of the primary node.
    fn identity(&mut self) -> (r: Result<Identity, std::io::Error>)
        ensures
            forall|c: u16| #[trigger] final(self).declared(c) == old(self).declared(c),
            forall|n: Option<Seq<char>>, c: u16| #[trigger] final(self).declared_on(n, c) == old(self).declared_on(n, c),
            final(self).log().calls() == old(self).log().calls().push(SourceCall::Identity(r)),
    ;

    /// `EVIOCGABS(abs_code)` — the declared range for an absolute axis.
    fn absinfo(&mut self, abs_code: u16) -> (r: Result<AbsInfo, std::io::Error>)
        ensures
            forall|c: u16| #[trigger] final(self).declared(c) == old(self).declared(c),
            forall|n: Option<Seq<char>>, c: u16| #[trigger] final(self).declared_on(n, c) == old(self).declared_on(n, c),
            r is Ok <==> old(self).declared(abs_code) is Some,
            r matches Ok(a) ==> old(self).declared(abs_code) == Some(a),
            final(self).log().calls() == old(self).log().calls().push(SourceCall::AbsInfo(abs_code, r)),
    ;

    /// Block up to `timeout` for events; return every `EV_KEY`/`EV_ABS` event that became
    /// available (possibly none).
    fn poll(&mut self, timeout: Duration) -> (r: Result<Vec<RawEvent>, std::io::Error>)
        ensures
            forall|c: u16| #[trigger] final(self).declared(c) == old(self).declared(c),
            forall|n: Option<Seq<char>>, c: u16| #[trigger] final(self).declared_on(n, c) == old(self).declared_on(n, c),
            final(self).log().calls() == old(self).log().calls().push(SourceCall::Poll(timeout, r)),
    ;

    /// Route subsequent `poll`/`absinfo` calls to the node named `node`, or to the primary node
    /// when `None`. A single-node source ignores the hint.
    fn set_active_source(&mut self, node: Option<&str>)
        ensures
            final(self).log().calls() == old(self).log().calls().push(SourceCall::Route(route_view(node))),
            forall|c: u16| #[trigger] final(self).declared(c) == old(self).declared_on(route_view(node), c),
            forall|n: Option<Seq<char>>, c: u16| #[trigger] final(self).declared_on(n, c) == old(self).declared_on(n, c),
    ;
}

/// A scripted event source for headless runs: an identity, a per-axis range table, and a queue
/// of event batches (one per `poll`; an empty batch once the queue drains).
pub struct ScriptedSource {
    ident: Identity,
    absinfo: HashMap<u16, AbsInfo>,
    batches: VecDeque<Vec<RawEvent>>,
    log: SourceLog,
}

/// An equal identity, owned.
fn copy_identity(i: &Identity) -> (r: Identity)
    ensures
        r == *i,
{
    Identity { name: i.name.clone(), bus: i.bus, vid: i.vid, pid: i.pid, version: i.version }
}

impl ScriptedSource {
    /// The identity the source reports.
    pub closed spec fn ident(&self) -> Identity {
        self.ident
    }

    /// The range table, as a map.
    pub closed spec fn ranges(&self) -> Map<u16, AbsInfo> {
        self.absinfo@
    }

    /// The queued batches, in delivery order.
    pub closed spec fn queued(&self) -> Seq<Seq<RawEvent>> {
        self.batches@.map_values(|b: Vec<RawEvent>| b@)
    }

    pub fn new(ident: Identity) -> (s: ScriptedSource)
        ensures
            s.ident() == ident,
            s.ranges() == Map::<u16, AbsInfo>::empty(),
            s.queued() == Seq::<Seq<RawEvent>>::empty(),
    {
        let s = ScriptedSource { ident, absinfo: HashMap::new(), batches: VecDeque::new(), log: SourceLog::new() };
        assert(s.queued() =~= Seq::<Seq<RawEvent>>::empty());
        s
    }

    /// Register the declared range for an absolute axis.
    pub fn with_abs(self, abs_code: u16, info: AbsInfo) -> (s: ScriptedSource)
        ensures
            s.ident() == self.ident(),
            s.ranges() == self.ranges().insert(abs_code, info),
            s.queued() == self.queued(),
    {
        let mut s = self;
        s.absinfo.insert(abs_code, info);
        s
    }

    /// Queue one batch of events (one `poll` worth).
    pub fn push_batch(&mut self, batch: Vec<RawEvent>)
        ensures
            final(self).ident() == old(self).ident(),
            final(self).ranges() == old(self).ranges(),
            final(self).queued() == old(self).queued().push(batch@),
    {
        let ghost b = batch@;
        self.batches.push_back(batch);
        assert(self.queued() =~= old(self).queued().push(b));
    }
}

impl EventSource for ScriptedSource {
    open spec fn declared(&self, abs_code: u16) -> Option<AbsInfo> {
        if self.ranges().contains_key(abs_code) {
            Some(self.ranges()[abs_code])
        } else {
            None
        }
    }

    /// A single node: every routing request selects it.
    open spec fn declared_on(&self, node: Option<Seq<char>>, abs_code: u16) -> Option<AbsInfo> {
        self.declared(abs_code)
    }

    closed spec fn log(&self) -> SourceLog {
        self.log
    }

    /// The scripted identity, always; nothing but the log changes.
    fn identity(&mut self) -> (r: Result<Identity, std::io::Error>)
        ensures
            r matches Ok(i) && i == old(self).ident(),
            final(self).ident() == old(self).ident(),
            final(self).ranges() == old(self).ranges(),
            final(self).queued() == old(self).queued(),
    {
        let r = Ok(copy_identity(&self.ident));
        self.log.note_identity(&r);
        r
    }

    fn absinfo(&mut self, abs_code: u16) -> (r: Result<AbsInfo, std::io::Error>) {
        let r = match self.absinfo.get(&abs_code) {
            Some(a) => Ok(*a),
            None => Err(not_found(no_absinfo_message(abs_code))),
        };
        self.log.note_absinfo(abs_code, &r);
        r
    }

    /// A single-node source ignores the hint; the request is only noted.
    fn set_active_source(&mut self, node: Option<&str>)
        ensures
            final(self).ident() == old(self).ident(),
            final(self).ranges() == old(self).ranges(),
            final(self).queued() == old(self).queued(),
    {
        self.log.note_route(node);
    }

    fn poll(&mut self, timeout: Duration) -> (r: Result<Vec<RawEvent>, std::io::Error>)
        ensures
            old(self).queued().len() > 0 ==> final(self).queued() == old(self).queued().drop_first(),
            old(self).queued().len() == 0 ==> final(self).queued() == old(self).queued(),
            r is Ok,
            r matches Ok(b) ==> (if old(self).queued().len() > 0 {
                b@ == old(self).queued()[0]
            } else {
                b@.len() == 0
            }),
    {
        let r = match self.batches.pop_front() {
            Some(b) => {
                assert(self.queued() =~= old(self).queued().drop_first());
                Ok(b)
            },
            None => Ok(Vec::new()),
        };
        self.log.note_poll(timeout, &r);
        r
    }
}

/// The error a router reports when its routing state names no registered node.
#[verifier::external_body]
fn unrouted() -> std::io::Error {
    std::io::Error::new(std::io::ErrorKind::NotFound, "no registered source for the active node")
}

/// Position `i` holds the first occurrence of `name`.
pub open spec fn first_named(names: Seq<Seq<char>>, name: Seq<char>, i: int) -> bool {
    names[i] == name && forall|j: int| 0 <= j < i ==> names[j] != name
}

/// The position a routing request for `node` selects: the first node of that name, else the
/// primary.
pub open spec fn route_index(names: Seq<Seq<char>>, node: Option<Seq<char>>) -> int {
    match node {
        Some(n) => if names.contains(n) {
            choose|i: int| 0 <= i < names.len() && first_named(names, n, i)
        } else {
            0
        },
        None => 0,
    }
}

/// A router over per-node event sources for a multi-node device. `identity()` always reports
/// the primary node; a control naming an unregistered node routes to the primary and records
/// the miss, never fabricating events.
pub struct MultiSource<S> {
    sources: Vec<(String, Box<S>)>,
    active: usize,
    last_route_missed: bool,
    log: SourceLog,
}

impl<S: EventSource> MultiSource<S> {
    /// The registered node names, the primary first.
    pub closed spec fn node_names(&self) -> Seq<Seq<char>> {
        self.sources@.map_values(|p: (String, Box<S>)| p.0@)
    }

    /// The source registered at position `i`.
    pub closed spec fn routed(&self, i: int) -> S {
        *self.sources@[i].1
    }

    /// The index of the node reads are currently routed to.
    pub closed spec fn active_index(&self) -> int {
        self.active as int
    }

    /// Whether the most recent routing request named an unregistered node.
    pub closed spec fn missed(&self) -> bool {
        self.last_route_missed
    }

    /// Build a router around the primary gamepad node.
    pub fn new(primary: &str, primary_src: Box<S>) -> (m: MultiSource<S>)
        ensures
            m.node_names() == seq![primary@],
            m.routed(0) == *primary_src,
            m.log().calls() == Seq::<SourceCall>::empty(),
            m.active_index() == 0,
            !m.missed(),
    {
        let mut sources: Vec<(String, Box<S>)> = Vec::new();
        sources.push((String::from_str(primary), primary_src));
        let m = MultiSource { sources, active: 0, last_route_missed: false, log: SourceLog::new() };
        assert(m.node_names() =~= seq![primary@]);
        m
    }

    /// Register an additional node's source under its evdev name. A name registered again
    /// replaces the earlier source.
    pub fn add_source(&mut self, node: &str, src: Box<S>)
        ensures
            final(self).active_index() == old(self).active_index(),
            final(self).missed() == old(self).missed(),
            old(self).node_names().contains(node@) ==> final(self).node_names() == old(
                self,
            ).node_names(),
            !old(self).node_names().contains(node@) ==> final(self).node_names() == old(
                self,
            ).node_names().push(node@),
            forall|i: int| 0 <= i < final(self).node_names().len() ==> #[trigger] final(self).routed(i) == if first_named(final(self).node_names(), node@, i) {
                *src
            } else {
                old(self).routed(i)
            },
            final(self).log() == old(self).log(),
    {
        let idx = self.find(node);
        match idx {
            Some(i) => {
                let mut v: Vec<(String, Box<S>)> = Vec::new();
                std::mem::swap(&mut v, &mut self.sources);
                let ghost before = v@;
                let _old = v.remove(i);
                v.insert(i, (String::from_str(node), src));
                std::mem::swap(&mut v, &mut self.sources);
                assert(self.node_names() =~= old(self).node_names());
                assert forall|k: int| 0 <= k < self.node_names().len() && k != i implies #[trigger] self.sources@[k] == before[k] by {}
                assert forall|k: int| 0 <= k < self.node_names().len() implies #[trigger] self.routed(k) == if first_named(self.node_names(), node@, k) {
                    *src
                } else {
                    old(self).routed(k)
                } by {
                    if k != i {
                        assert(self.sources@[k] == before[k]);
                        if k > i {
                            assert(self.node_names()[i as int] == node@);
                        }
                    }
                }
            },
            None => {
                let ghost before = self.sources@;
                self.sources.push((String::from_str(node), src));
                assert(self.node_names() =~= old(self).node_names().push(node@));
                assert forall|k: int| 0 <= k < self.node_names().len() implies #[trigger] self.routed(k) == if first_named(self.node_names(), node@, k) {
                    *src
                } else {
                    old(self).routed(k)
                } by {
                    if k < before.len() {
                        assert(self.sources@[k] == before[k]);
                        assert(self.node_names()[k] == old(self).node_names()[k]);
                        assert(old(self).node_names()[k] != node@);
                    } else {
                        assert forall|j: int| 0 <= j < k implies self.node_names()[j] != node@ by {
                            assert(self.node_names()[j] == old(self).node_names()[j]);
                        }
                    }
                }
            },
        }
    }

    /// Index of the registered node called `node`.
    fn find(&self, node: &str) -> (r: Option<usize>)
        ensures
            r matches Some(i) ==> i < self.sources@.len() && first_named(self.node_names(), node@, i as int),
            r is None ==> !self.node_names().contains(node@),
    {
        let mut i: usize = 0;
        while i < self.sources.len()
            invariant
                i <= self.sources@.len(),
                forall|j: int| 0 <= j < i ==> self.node_names()[j] != node@,
            decreases self.sources@.len() - i,
        {
            if crate::text::str_eq(self.sources[i].0.as_str(), node) {
                return Some(i);
            }
            i += 1;
        }
        None
    }

    /// Whether the most recent routing request named a node with no registered source.
    pub fn last_route_missed(&self) -> (b: bool)
        ensures
            b == self.missed(),
    {
        self.last_route_missed
    }
}

impl<S: EventSource> EventSource for MultiSource<S> {
    closed spec fn declared(&self, abs_code: u16) -> Option<AbsInfo> {
        if self.active < self.sources@.len() {
            self.sources@[self.active as int].1.declared(abs_code)
        } else {
            None
        }
    }

    closed spec fn declared_on(&self, node: Option<Seq<char>>, abs_code: u16) -> Option<AbsInfo> {
        let i = route_index(self.node_names(), node);
        if 0 <= i < self.sources@.len() {
            self.sources@[i].1.declared(abs_code)
        } else {
            None
        }
    }

    closed spec fn log(&self) -> SourceLog {
        self.log
    }

    /// The primary node's identity, whatever node reads are routed to: an error when no node
    /// is registered; otherwise the primary source answers, and only it may change.
    fn identity(&mut self) -> (r: Result<Identity, std::io::Error>)
        ensures
            old(self).node_names().len() == 0 ==> r is Err,
            final(self).node_names() == old(self).node_names(),
            final(self).active_index() == old(self).active_index(),
            final(self).missed() == old(self).missed(),
            forall|i: int| 1 <= i < old(self).node_names().len() ==> #[trigger] final(self).routed(i) == old(self).routed(i),
            old(self).node_names().len() > 0 ==> final(self).routed(0).log().calls()
                == old(self).routed(0).log().calls().push(SourceCall::Identity(r)),
    {
        if self.sources.len() == 0 {
            let r = Err(unrouted());
            self.log.note_identity(&r);
            return r;
        }
        let ghost before = self.sources@;
        let mut v: Vec<(String, Box<S>)> = Vec::new();
        std::mem::swap(&mut v, &mut self.sources);
        let (name, mut b) = v.remove(0);
        let r = b.identity();
        v.insert(0, (name, b));
        std::mem::swap(&mut v, &mut self.sources);
        proof {
            assert(self.sources@.len() == before.len());
            assert forall|i: int| 1 <= i < before.len() implies #[trigger] self.sources@[i] == before[i] by {}
            assert(self.node_names() =~= old(self).node_names());
        }
        self.log.note_identity(&r);
        r
    }

    /// The routed source's range for the axis: an error when the routing names no registered
    /// node; otherwise the routed source answers, and only it may change.
    fn absinfo(&mut self, abs_code: u16) -> (r: Result<AbsInfo, std::io::Error>)
        ensures
            old(self).active_index() >= old(self).node_names().len() ==> r is Err,
            final(self).node_names() == old(self).node_names(),
            final(self).active_index() == old(self).active_index(),
            final(self).missed() == old(self).missed(),
            forall|i: int| 0 <= i < old(self).node_names().len() && i != old(self).active_index() ==> #[trigger] final(self).routed(i) == old(self).routed(i),
            old(self).active_index() < old(self).node_names().len() ==> final(self).routed(old(self).active_index()).log().calls()
                == old(self).routed(old(self).active_index()).log().calls().push(SourceCall::AbsInfo(abs_code, r)),
    {
        if self.active >= self.sources.len() {
            let r = Err(unrouted());
            self.log.note_absinfo(abs_code, &r);
            return r;
        }
        let ghost before = self.sources@;
        let a = self.active;
        let mut v: Vec<(String, Box<S>)> = Vec::new();
        std::mem::swap(&mut v, &mut self.sources);
        let (name, mut b) = v.remove(a);
        let r = b.absinfo(abs_code);
        v.insert(a, (name, b));
        std::mem::swap(&mut v, &mut self.sources);
        proof {
            assert(self.sources@.len() == before.len());
            assert forall|i: int| 0 <= i < before.len() && i != a implies #[trigger] self.sources@[i] == before[i] by {}
            assert(self.node_names() =~= old(self).node_names());
        }
        self.log.note_absinfo(abs_code, &r);
        r
    }

    /// Poll the routed source: an error when the routing names no registered node; otherwise
    /// the routed source answers, and only it may change.
    fn poll(&mut self, timeout: Duration) -> (r: Result<Vec<RawEvent>, std::io::Error>)
        ensures
            old(self).active_index() >= old(self).node_names().len() ==> r is Err,
            final(self).node_names() == old(self).node_names(),
            final(self).active_index() == old(self).active_index(),
            final(self).missed() == old(self).missed(),
            forall|i: int| 0 <= i < old(self).node_names().len() && i != old(self).active_index() ==> #[trigger] final(self).routed(i) == old(self).routed(i),
            old(self).active_index() < old(self).node_names().len() ==> final(self).routed(old(self).active_index()).log().calls()
                == old(self).routed(old(self).active_index()).log().calls().push(SourceCall::Poll(timeout, r)),
    {
        if self.active >= self.sources.len() {
            let r = Err(unrouted());
            self.log.note_poll(timeout, &r);
            return r;
        }
        let ghost before = self.sources@;
        let a = self.active;
        let mut v: Vec<(String, Box<S>)> = Vec::new();
        std::mem::swap(&mut v, &mut self.sources);
        let (name, mut b) = v.remove(a);
        let r = b.poll(timeout);
        v.insert(a, (name, b));
        std::mem::swap(&mut v, &mut self.sources);
        proof {
            assert(self.sources@.len() == before.len());
            assert forall|i: int| 0 <= i < before.len() && i != a implies #[trigger] self.sources@[i] == before[i] by {}
            assert(self.node_names() =~= old(self).node_names());
        }
        self.log.note_poll(timeout, &r);
        r
    }

    fn set_active_source(&mut self, node: Option<&str>)
        ensures
            final(self).node_names() == old(self).node_names(),
            forall|i: int| 0 <= i < old(self).node_names().len() ==> #[trigger] final(self).routed(i) == old(self).routed(i),
            ({
                let fs = *final(self);
                let os = *old(self);
                match node {
                    None => fs.active_index() == 0 && !fs.missed(),
                    Some(n) => if os.node_names().contains(n@) {
                        !fs.missed() && fs.node_names()[fs.active_index()] == n@
                    } else {
                        fs.missed() && fs.active_index() == 0
                    },
                }
            }),
    {
        match node {
            None => {
                self.active = 0;
                self.last_route_missed = false;
            },
            Some(n) => {
                match self.find(n) {
                    Some(i) => {
                        self.active = i;
                        self.last_route_missed = false;
                    },
                    None => {
                        self.active = 0;
                        self.last_route_missed = true;
                    },
                }
            },
        }
        self.log.note_route(node);
    }
}

} // verus!
