//! The device contract: its physical controls, its shipped effective map, and the rules every
//! effective map must keep (protected actions reachable, no ambiguous protected gestures).
use vstd::prelude::*;
use vstd::string::StrSliceExecFns;
use crate::input_map::binding::{
    binding_problem, contains_str, fault_absent, fault_binding, fault_collision, fault_contract,
    fault_unreachable, same_signature, Binding, BindingView, FaultView, MapError,
};
use crate::text::{push_str, starts_with, str_eq, string_of, strs};

verus! {

/// The source-owned glyph shown for a control when no printed label is known.
#[derive(Clone, Debug, PartialEq, Eq)]
pub struct FallbackGlyph {
    pub source: String,
    pub id: String,
}

/// One physical control of the device, named by its position.
#[derive(Clone, Debug, PartialEq, Eq)]
pub struct PhysicalControl {
    pub position: String,
    pub printed_label: Option<String>,
    pub input_code: Option<String>,
    pub fallback_glyph: FallbackGlyph,
}

/// A semantic action, in a context, bound to a gesture.
#[derive(Clone, Debug, PartialEq, Eq)]
pub struct Mapping {
    pub context: String,
    pub action: String,
    pub binding: Binding,
}

/// A device's shell-input contract.
#[derive(Clone, Debug, PartialEq, Eq)]
pub struct DeviceContract {
    pub schema_version: u32,
    pub device_id: String,
    pub protected_actions: Vec<String>,
    pub physical_controls: Vec<PhysicalControl>,
    pub effective_map: Vec<Mapping>,
}

pub open spec fn opt_text(o: Option<String>) -> Option<Seq<char>> {
    match o {
        Some(s) => Some(s@),
        None => None,
    }
}

/// A control as plain values: position, printed label, input code, glyph source, glyph id.
pub type ControlView = (Seq<char>, Option<Seq<char>>, Option<Seq<char>>, Seq<char>, Seq<char>);

/// A mapping as plain values: context, action, binding.
pub type MappingView = (Seq<char>, Seq<char>, BindingView);

/// A contract as plain values.
pub type ContractView = (u32, Seq<char>, Seq<Seq<char>>, Seq<ControlView>, Seq<MappingView>);

impl View for PhysicalControl {
    type V = ControlView;

    open spec fn view(&self) -> ControlView {
        (self.position@, opt_text(self.printed_label), opt_text(self.input_code), self.fallback_glyph.source@,
            self.fallback_glyph.id@)
    }
}

impl View for Mapping {
    type V = MappingView;

    open spec fn view(&self) -> MappingView {
        (self.context@, self.action@, self.binding@)
    }
}

pub open spec fn controls_view(cs: Seq<PhysicalControl>) -> Seq<ControlView> {
    cs.map_values(|c: PhysicalControl| c@)
}

pub open spec fn maps_view(ms: Seq<Mapping>) -> Seq<MappingView> {
    ms.map_values(|m: Mapping| m@)
}

impl View for DeviceContract {
    type V = ContractView;

    open spec fn view(&self) -> ContractView {
        (self.schema_version, self.device_id@, strs(self.protected_actions@), controls_view(
            self.physical_controls@,
        ), maps_view(self.effective_map@))
    }
}

/// The positions of a list of controls.
pub open spec fn positions(cs: Seq<ControlView>) -> Seq<Seq<char>> {
    cs.map_values(|c: ControlView| c.0)
}

/// The physical positions a contract may name.
pub open spec fn is_position(p: Seq<char>) -> bool {
    ||| p == "east"@
    ||| p == "south"@
    ||| p == "west"@
    ||| p == "north"@
    ||| p == "start"@
    ||| p == "select"@
    ||| p == "guide"@
    ||| p == "home"@
    ||| p == "l1"@
    ||| p == "r1"@
    ||| p == "l2"@
    ||| p == "r2"@
}

/// The semantic actions a map may bind.
pub open spec fn is_action(a: Seq<char>) -> bool {
    ||| a == "Activate"@
    ||| a == "Back"@
    ||| a == "Move.up"@
    ||| a == "Move.down"@
    ||| a == "Move.left"@
    ||| a == "Move.right"@
    ||| a == "Quick"@
    ||| a == "Search.open"@
    ||| a == "Search.submit"@
    ||| a == "Search.cancel"@
    ||| a == "SafeReturn"@
}

/// The actions bound to face buttons, which must never share a gesture with a protected one.
pub open spec fn is_face(a: Seq<char>) -> bool {
    ||| a == "Activate"@
    ||| a == "Back"@
    ||| a == "Quick"@
    ||| a == "Search.open"@
    ||| a == "Search.submit"@
    ||| a == "Search.cancel"@
}

/// The actions that must always stay reachable.
pub open spec fn is_protected(a: Seq<char>) -> bool {
    a == "Activate"@ || a == "Back"@ || a == "SafeReturn"@
}

/// Every control of a binding is one of `pos`.
pub open spec fn all_present(controls: Seq<Seq<char>>, pos: Seq<Seq<char>>) -> bool {
    forall|i: int| 0 <= i < controls.len() ==> pos.contains(#[trigger] controls[i])
}

/// The first `Some` that `f` gives along `s`.
pub open spec fn first_some<A, B>(s: Seq<A>, f: spec_fn(A) -> Option<B>) -> Option<B>
    decreases s.len(),
{
    if s.len() == 0 {
        None
    } else {
        match f(s[0]) {
            Some(b) => Some(b),
            None => first_some(s.drop_first(), f),
        }
    }
}

/// One step of a scan for the first `Some`.
pub proof fn lemma_first_some_step<A, B>(s: Seq<A>, f: spec_fn(A) -> Option<B>, i: int)
    requires
        0 <= i < s.len(),
    ensures
        first_some(s.skip(i), f) == match f(s[i]) {
            Some(b) => Some(b),
            None => first_some(s.skip(i + 1), f),
        },
{
    assert(s.skip(i).drop_first() =~= s.skip(i + 1));
    assert(s.skip(i)[0] == s[i]);
}

/// A scan starts at the whole sequence and ends with nothing left.
pub proof fn lemma_first_some_ends<A, B>(s: Seq<A>, f: spec_fn(A) -> Option<B>)
    ensures
        first_some(s.skip(0), f) == first_some(s, f),
        first_some(s.skip(s.len() as int), f) is None,
{
    assert(s.skip(0) =~= s);
    assert(s.skip(s.len() as int) =~= Seq::<A>::empty());
}

/// The index of the only mapping for action `a`, if exactly one exists.
pub open spec fn sole_index(ms: Seq<MappingView>, a: Seq<char>) -> Option<int> {
    if exists|i: int| 0 <= i < ms.len() && ms[i].1 == a && forall|j: int| 0 <= j < ms.len() && #[trigger] ms[j].1 == a ==> j == i {
        Some(choose|i: int| 0 <= i < ms.len() && ms[i].1 == a && forall|j: int| 0 <= j < ms.len() && #[trigger] ms[j].1 == a ==> j == i)
    } else {
        None
    }
}

/// A protected action is unreachable unless exactly one mapping binds it, to present controls.
pub open spec fn unreachable(ms: Seq<MappingView>, pos: Seq<Seq<char>>, a: Seq<char>) -> bool {
    match sole_index(ms, a) {
        None => true,
        Some(i) => !all_present(ms[i].2.1, pos),
    }
}

/// Whether two contexts can be active together.
pub open spec fn overlap(a: Seq<char>, b: Seq<char>) -> bool {
    a == b || a == "global"@ || b == "global"@
}

/// The face action that `safe` (the safe-return mapping) shares a gesture with.
pub open spec fn safe_hit(safe: MappingView) -> spec_fn(MappingView) -> Option<Seq<char>> {
    |f: MappingView|
        if is_face(f.1) && (safe.0 == "global"@ || safe.0 == f.0) && same_signature(safe.2, f.2) {
            Some(f.1)
        } else {
            None
        }
}

/// Two distinct face mappings, one protected, that share a gesture in overlapping contexts.
pub open spec fn face_clash(a: MappingView, b: MappingView) -> bool {
    &&& !(a.0 == b.0 && a.1 == b.1)
    &&& overlap(a.0, b.0)
    &&& is_protected(a.1) || is_protected(b.1)
    &&& is_face(a.1) && is_face(b.1)
    &&& same_signature(a.2, b.2)
}

pub open spec fn clash_of(a: MappingView) -> spec_fn(MappingView) -> Option<(Seq<char>, Seq<char>)> {
    |b: MappingView|
        if face_clash(a, b) {
            Some((a.1, b.1))
        } else {
            None
        }
}

pub open spec fn clash_with(ms: Seq<MappingView>) -> spec_fn(MappingView) -> Option<(Seq<char>, Seq<char>)> {
    |a: MappingView| first_some(ms, clash_of(a))
}

/// The rules every effective map keeps, in the order they are checked: each protected action
/// bound exactly once to present controls, the safe-return gesture distinct from every face
/// action it can meet, and no two face actions (one of them protected) sharing a gesture.
pub open spec fn candidate_check(ms: Seq<MappingView>, pos: Seq<Seq<char>>) -> Result<(), FaultView> {
    if unreachable(ms, pos, "Activate"@) {
        Err(fault_unreachable("Activate"@))
    } else if unreachable(ms, pos, "Back"@) {
        Err(fault_unreachable("Back"@))
    } else if unreachable(ms, pos, "SafeReturn"@) {
        Err(fault_unreachable("SafeReturn"@))
    } else {
        match first_some(ms, safe_hit(ms[sole_index(ms, "SafeReturn"@)->0])) {
            Some(face) => Err(fault_collision("SafeReturn"@, face)),
            None => match first_some(ms, clash_with(ms)) {
                Some(p) => Err(fault_collision(p.0, p.1)),
                None => Ok(()),
            },
        }
    }
}

/// What is wrong with one physical control of a contract, if anything.
pub open spec fn control_fault() -> spec_fn(ControlView) -> Option<FaultView> {
    |c: ControlView|
        if !is_position(c.0) {
            Some(fault_contract("unknown physical position "@ + c.0))
        } else if c.3 != "pocketforge"@ || !(3 <= c.4.len() && c.4.subrange(0, 3) == "pf-"@) {
            Some(fault_contract("fallback glyph must be source-owned pf-*"@))
        } else {
            None
        }
}

/// What is wrong with one mapping of a contract, if anything.
pub open spec fn mapping_fault(pos: Seq<Seq<char>>) -> spec_fn(MappingView) -> Option<FaultView> {
    |m: MappingView|
        if m.0.len() == 0 || !is_action(m.1) {
            Some(fault_contract("unknown semantic action "@ + m.1))
        } else {
            match binding_problem(m.2) {
                Some(msg) => Some(fault_binding(msg)),
                None => if all_present(m.2.1, pos) {
                    None
                } else {
                    Some(fault_absent(m.1))
                },
            }
        }
}

/// A contract's validity, with the first problem found in checking order.
pub open spec fn contract_check(c: ContractView) -> Result<(), FaultView> {
    let pos = positions(c.3);
    if c.0 != 1 || c.1.len() == 0 {
        Err(fault_contract("unsupported schema or empty device identity"@))
    } else if c.2 != seq!["SafeReturn"@] {
        Err(fault_contract("protected_actions must contain only SafeReturn"@))
    } else if !pos.no_duplicates() || c.3.len() == 0 {
        Err(fault_contract("physical control positions must be unique and non-empty"@))
    } else {
        match first_some(c.3, control_fault()) {
            Some(f) => Err(f),
            None => match first_some(c.4, mapping_fault(pos)) {
                Some(f) => Err(f),
                None => candidate_check(c.4, pos),
            },
        }
    }
}

fn is_position_name(p: &str) -> (r: bool)
    ensures
        r == is_position(p@),
{
    str_eq(p, "east") || str_eq(p, "south") || str_eq(p, "west") || str_eq(p, "north") || str_eq(p, "start")
        || str_eq(p, "select") || str_eq(p, "guide") || str_eq(p, "home") || str_eq(p, "l1") || str_eq(p, "r1")
        || str_eq(p, "l2") || str_eq(p, "r2")
}

fn is_action_name(a: &str) -> (r: bool)
    ensures
        r == is_action(a@),
{
    str_eq(a, "Activate") || str_eq(a, "Back") || str_eq(a, "Move.up") || str_eq(a, "Move.down") || str_eq(
        a,
        "Move.left",
    ) || str_eq(a, "Move.right") || str_eq(a, "Quick") || str_eq(a, "Search.open") || str_eq(a, "Search.submit")
        || str_eq(a, "Search.cancel") || str_eq(a, "SafeReturn")
}

fn is_face_name(a: &str) -> (r: bool)
    ensures
        r == is_face(a@),
{
    str_eq(a, "Activate") || str_eq(a, "Back") || str_eq(a, "Quick") || str_eq(a, "Search.open") || str_eq(
        a,
        "Search.submit",
    ) || str_eq(a, "Search.cancel")
}

fn is_protected_name(a: &str) -> (r: bool)
    ensures
        r == is_protected(a@),
{
    str_eq(a, "Activate") || str_eq(a, "Back") || str_eq(a, "SafeReturn")
}

/// Whether every control of `b` is one of `pos`.
pub fn controls_present(b: &Binding, pos: &Vec<String>) -> (r: bool)
    ensures
        r == all_present(b@.1, strs(pos@)),
{
    let mut i: usize = 0;
    while i < b.controls.len()
        invariant
            i <= b.controls@.len(),
            forall|j: int| 0 <= j < i ==> strs(pos@).contains(#[trigger] b@.1[j]),
        decreases b.controls@.len() - i,
    {
        assert(b@.1[i as int] == b.controls@[i as int]@);
        if !contains_str(pos, b.controls[i].as_str()) {
            return false;
        }
        i += 1;
    }
    true
}

/// The positions of a list of controls.
pub fn positions_of(cs: &Vec<PhysicalControl>) -> (r: Vec<String>)
    ensures
        strs(r@) == positions(controls_view(cs@)),
{
    let mut r: Vec<String> = Vec::new();
    let mut i: usize = 0;
    while i < cs.len()
        invariant
            i <= cs@.len(),
            strs(r@) == positions(controls_view(cs@)).take(i as int),
        decreases cs@.len() - i,
    {
        let ghost before = r@;
        r.push(string_of(cs[i].position.as_str()));
        assert(strs(r@) =~= strs(before).push(cs@[i as int].position@));
        assert(positions(controls_view(cs@)).take(i + 1) =~= positions(controls_view(cs@)).take(i as int).push(
            cs@[i as int].position@,
        ));
        i += 1;
    }
    assert(positions(controls_view(cs@)).take(cs@.len() as int) =~= positions(controls_view(cs@)));
    r
}

/// The index of the only mapping for `action`, if exactly one exists.
pub fn sole_mapping(ms: &Vec<Mapping>, action: &str) -> (r: Option<usize>)
    ensures
        r matches Some(i) ==> sole_index(maps_view(ms@), action@) == Some(i as int),
        r is None <==> sole_index(maps_view(ms@), action@) is None,
{
    let ghost v = maps_view(ms@);
    let mut first: Option<usize> = None;
    let mut i: usize = 0;
    while i < ms.len()
        invariant
            v == maps_view(ms@),
            i <= ms@.len(),
            first is None ==> forall|j: int| 0 <= j < i ==> #[trigger] v[j].1 != action@,
            first matches Some(f) ==> f < i && v[f as int].1 == action@ && forall|j: int| 0 <= j < i && #[trigger] v[j].1 == action@ ==> j == f,
        decreases ms@.len() - i,
    {
        assert(v[i as int].1 == ms@[i as int].action@);
        if str_eq(ms[i].action.as_str(), action) {
            match first {
                Some(f) => {
                    assert(!(exists|k: int| 0 <= k < v.len() && v[k].1 == action@ && forall|j: int| 0 <= j < v.len() && #[trigger] v[j].1 == action@ ==> j == k)) by {
                        assert forall|k: int| 0 <= k < v.len() && v[k].1 == action@ implies !(forall|j: int| 0 <= j < v.len() && #[trigger] v[j].1 == action@ ==> j == k) by {
                            if k == f as int {
                                assert(v[i as int].1 == action@);
                            } else {
                                assert(v[f as int].1 == action@);
                            }
                        }
                    }
                    return None;
                },
                None => {
                    first = Some(i);
                },
            }
        }
        i += 1;
    }
    match first {
        Some(f) => {
            assert(forall|j: int| 0 <= j < v.len() && #[trigger] v[j].1 == action@ ==> j == f);
            let ghost k = choose|k: int| 0 <= k < v.len() && v[k].1 == action@ && forall|j: int| 0 <= j < v.len() && #[trigger] v[j].1 == action@ ==> j == k;
            assert(k == f);
        },
        None => {},
    }
    first
}

/// The first face action the safe-return mapping `safe` shares a gesture with.
fn find_safe_hit(ms: &Vec<Mapping>, safe: &Mapping) -> (r: Option<usize>)
    ensures
        match first_some(maps_view(ms@), safe_hit(safe@)) {
            Some(a) => r matches Some(i) && i < ms@.len() && ms@[i as int].action@ == a,
            None => r is None,
        },
{
    let ghost v = maps_view(ms@);
    let ghost f = safe_hit(safe@);
    proof {
        lemma_first_some_ends(v, f);
    }
    let mut i: usize = 0;
    while i < ms.len()
        invariant
            v == maps_view(ms@),
            f == safe_hit(safe@),
            i <= ms@.len(),
            first_some(v, f) == first_some(v.skip(i as int), f),
        decreases ms@.len() - i,
    {
        proof {
            lemma_first_some_step(v, f, i as int);
        }
        let m = &ms[i];
        assert(v[i as int] == m@);
        if is_face_name(m.action.as_str()) && (str_eq(safe.context.as_str(), "global") || str_eq(
            safe.context.as_str(),
            m.context.as_str(),
        )) && safe.binding.same_signature(&m.binding) {
            return Some(i);
        }
        i += 1;
    }
    proof {
        lemma_first_some_ends(v, f);
    }
    None
}

fn is_face_clash(a: &Mapping, b: &Mapping) -> (r: bool)
    ensures
        r == face_clash(a@, b@),
{
    let same = str_eq(a.context.as_str(), b.context.as_str()) && str_eq(a.action.as_str(), b.action.as_str());
    let overlapping = str_eq(a.context.as_str(), b.context.as_str()) || str_eq(a.context.as_str(), "global")
        || str_eq(b.context.as_str(), "global");
    !same && overlapping && (is_protected_name(a.action.as_str()) || is_protected_name(b.action.as_str()))
        && is_face_name(a.action.as_str()) && is_face_name(b.action.as_str()) && a.binding.same_signature(&b.binding)
}

/// The first mapping of `ms` that `a` clashes with.
pub fn find_clash(ms: &Vec<Mapping>, a: &Mapping) -> (r: Option<usize>)
    ensures
        match first_some(maps_view(ms@), clash_of(a@)) {
            Some(p) => r matches Some(i) && i < ms@.len() && p == (a@.1, ms@[i as int].action@),
            None => r is None,
        },
{
    let ghost v = maps_view(ms@);
    let ghost f = clash_of(a@);
    proof {
        lemma_first_some_ends(v, f);
    }
    let mut i: usize = 0;
    while i < ms.len()
        invariant
            v == maps_view(ms@),
            f == clash_of(a@),
            i <= ms@.len(),
            first_some(v, f) == first_some(v.skip(i as int), f),
        decreases ms@.len() - i,
    {
        proof {
            lemma_first_some_step(v, f, i as int);
        }
        assert(v[i as int] == ms@[i as int]@);
        if is_face_clash(a, &ms[i]) {
            return Some(i);
        }
        i += 1;
    }
    proof {
        lemma_first_some_ends(v, f);
    }
    None
}

fn find_any_clash(ms: &Vec<Mapping>) -> (r: Option<(usize, usize)>)
    ensures
        match first_some(maps_view(ms@), clash_with(maps_view(ms@))) {
            Some(p) => r matches Some((i, j)) && i < ms@.len() && j < ms@.len() && p == (
                ms@[i as int].action@,
                ms@[j as int].action@,
            ),
            None => r is None,
        },
{
    let ghost v = maps_view(ms@);
    let ghost f = clash_with(v);
    proof {
        lemma_first_some_ends(v, f);
    }
    let mut i: usize = 0;
    while i < ms.len()
        invariant
            v == maps_view(ms@),
            f == clash_with(v),
            i <= ms@.len(),
            first_some(v, f) == first_some(v.skip(i as int), f),
        decreases ms@.len() - i,
    {
        proof {
            lemma_first_some_step(v, f, i as int);
        }
        assert(v[i as int] == ms@[i as int]@);
        match find_clash(ms, &ms[i]) {
            Some(j) => {
                return Some((i, j));
            },
            None => {},
        }
        i += 1;
    }
    proof {
        lemma_first_some_ends(v, f);
    }
    None
}

/// The only mapping for a protected `action`, when it is reachable.
fn reachable(ms: &Vec<Mapping>, pos: &Vec<String>, action: &str) -> (r: Option<usize>)
    ensures
        r is Some <==> !unreachable(maps_view(ms@), strs(pos@), action@),
        r matches Some(i) ==> sole_index(maps_view(ms@), action@) == Some(i as int),
{
    match sole_mapping(ms, action) {
        Some(i) => {
            assert(maps_view(ms@)[i as int] == ms@[i as int]@);
            if controls_present(&ms[i].binding, pos) {
                Some(i)
            } else {
                None
            }
        },
        None => None,
    }
}

/// Check the rules every effective map keeps (see [`candidate_check`]) against the positions
/// `pos` of the device's controls.
pub fn validate_candidate(ms: &Vec<Mapping>, pos: &Vec<String>) -> (r: Result<(), MapError>)
    ensures
        match candidate_check(maps_view(ms@), strs(pos@)) {
            Ok(()) => r is Ok,
            Err(f) => r matches Err(e) && e@ == f,
        },
{
    let ghost v = maps_view(ms@);
    if reachable(ms, pos, "Activate").is_none() {
        return Err(MapError::ProtectedActionUnreachable(string_of("Activate")));
    }
    if reachable(ms, pos, "Back").is_none() {
        return Err(MapError::ProtectedActionUnreachable(string_of("Back")));
    }
    let si = match reachable(ms, pos, "SafeReturn") {
        Some(i) => i,
        None => {
            return Err(MapError::ProtectedActionUnreachable(string_of("SafeReturn")));
        },
    };
    assert(v[si as int] == ms@[si as int]@);
    match find_safe_hit(ms, &ms[si]) {
        Some(j) => {
            return Err(MapError::Collision { first: string_of("SafeReturn"), second: string_of(ms[j].action.as_str()) });
        },
        None => {},
    }
    match find_any_clash(ms) {
        Some((i, j)) => Err(MapError::Collision {
            first: string_of(ms[i].action.as_str()),
            second: string_of(ms[j].action.as_str()),
        }),
        None => Ok(()),
    }
}

/// The first mapping that the candidate binding for (`context`, `action`) would clash with.
pub fn validate_remap_collision(ms: &Vec<Mapping>, context: &str, action: &str, candidate: &Binding) -> (r: Result<(), MapError>)
    ensures
        match first_some(maps_view(ms@), clash_of((context@, action@, candidate@))) {
            Some(p) => r matches Err(e) && e@ == fault_collision(p.0, p.1),
            None => r is Ok,
        },
{
    let probe = Mapping { context: string_of(context), action: string_of(action), binding: candidate.copy() };
    match find_clash(ms, &probe) {
        Some(j) => Err(MapError::Collision { first: string_of(action), second: string_of(ms[j].action.as_str()) }),
        None => Ok(()),
    }
}

fn check_control(c: &PhysicalControl) -> (r: Result<(), MapError>)
    ensures
        match (control_fault())(c@) {
            Some(f) => r matches Err(e) && e@ == f,
            None => r is Ok,
        },
{
    if !is_position_name(c.position.as_str()) {
        let mut m = string_of("unknown physical position ");
        push_str(&mut m, c.position.as_str());
        return Err(MapError::InvalidContract(m));
    }
    if !str_eq(c.fallback_glyph.source.as_str(), "pocketforge") || !starts_with(c.fallback_glyph.id.as_str(), "pf-") {
        proof {
            reveal_strlit("pf-");
        }
        return Err(MapError::InvalidContract(string_of("fallback glyph must be source-owned pf-*")));
    }
    proof {
        reveal_strlit("pf-");
    }
    Ok(())
}

fn check_mapping(m: &Mapping, pos: &Vec<String>) -> (r: Result<(), MapError>)
    ensures
        match (mapping_fault(strs(pos@)))(m@) {
            Some(f) => r matches Err(e) && e@ == f,
            None => r is Ok,
        },
{
    if m.context.as_str().unicode_len() == 0 || !is_action_name(m.action.as_str()) {
        let mut s = string_of("unknown semantic action ");
        push_str(&mut s, m.action.as_str());
        return Err(MapError::InvalidContract(s));
    }
    match m.binding.validate() {
        Ok(()) => {},
        Err(e) => {
            return Err(e);
        },
    }
    if !controls_present(&m.binding, pos) {
        return Err(MapError::AbsentControl { action: string_of(m.action.as_str()) });
    }
    Ok(())
}

fn unique_positions(pos: &Vec<String>) -> (r: bool)
    ensures
        r == strs(pos@).no_duplicates(),
{
    let ghost v = strs(pos@);
    let n = pos.len();
    let mut a: usize = 0;
    while a < n
        invariant
            v == strs(pos@),
            n == pos@.len(),
            a <= n,
            forall|p: int, q: int| 0 <= p < a && 0 <= q < n && p != q ==> v[p] != v[q],
        decreases n - a,
    {
        let mut b: usize = 0;
        while b < n
            invariant
                v == strs(pos@),
                n == pos@.len(),
                a < n,
                b <= n,
                forall|p: int, q: int| 0 <= p < a && 0 <= q < n && p != q ==> v[p] != v[q],
                forall|q: int| 0 <= q < b && q != a ==> v[a as int] != v[q],
            decreases n - b,
        {
            if a != b && str_eq(pos[a].as_str(), pos[b].as_str()) {
                assert(v[a as int] == pos@[a as int]@ && v[b as int] == pos@[b as int]@);
                return false;
            }
            b += 1;
        }
        a += 1;
    }
    true
}

impl DeviceContract {
    /// Check the contract (see [`contract_check`]); the error names the first problem found.
    pub fn validate(&self) -> (r: Result<(), MapError>)
        ensures
            match contract_check(self@) {
                Ok(()) => r is Ok,
                Err(f) => r matches Err(e) && e@ == f,
            },
    {
        if self.schema_version != 1 || self.device_id.as_str().unicode_len() == 0 {
            return Err(MapError::InvalidContract(string_of("unsupported schema or empty device identity")));
        }
        let only_safe = self.protected_actions.len() == 1 && str_eq(self.protected_actions[0].as_str(), "SafeReturn");
        proof {
            if only_safe {
                assert(strs(self.protected_actions@) =~= seq!["SafeReturn"@]);
            } else {
                assert(strs(self.protected_actions@).len() == self.protected_actions@.len());
                if self.protected_actions@.len() == 1 {
                    assert(strs(self.protected_actions@)[0] == self.protected_actions@[0]@);
                    assert(strs(self.protected_actions@)[0] != seq!["SafeReturn"@][0]);
                }
            }
        }
        if !only_safe {
            return Err(MapError::InvalidContract(string_of("protected_actions must contain only SafeReturn")));
        }
        let pos = positions_of(&self.physical_controls);
        if !unique_positions(&pos) || self.physical_controls.len() == 0 {
            return Err(MapError::InvalidContract(string_of("physical control positions must be unique and non-empty")));
        }
        let ghost cv = controls_view(self.physical_controls@);
        let ghost cf = control_fault();
        proof {
            lemma_first_some_ends(cv, cf);
        }
        let mut i: usize = 0;
        while i < self.physical_controls.len()
            invariant
                cv == controls_view(self.physical_controls@),
                cf == control_fault(),
                i <= self.physical_controls@.len(),
                first_some(cv, cf) == first_some(cv.skip(i as int), cf),
                self@.0 == 1 && self@.1.len() > 0 && self@.2 == seq!["SafeReturn"@],
                positions(cv).no_duplicates() && cv.len() > 0,
            decreases self.physical_controls@.len() - i,
        {
            proof {
                lemma_first_some_step(cv, cf, i as int);
            }
            assert(cv[i as int] == self.physical_controls@[i as int]@);
            match check_control(&self.physical_controls[i]) {
                Ok(()) => {},
                Err(e) => {
                    return Err(e);
                },
            }
            i += 1;
        }
        proof {
            lemma_first_some_ends(cv, cf);
        }
        let ghost mv = maps_view(self.effective_map@);
        let ghost mf = mapping_fault(strs(pos@));
        proof {
            lemma_first_some_ends(mv, mf);
        }
        let mut k: usize = 0;
        while k < self.effective_map.len()
            invariant
                mv == maps_view(self.effective_map@),
                mf == mapping_fault(strs(pos@)),
                k <= self.effective_map@.len(),
                first_some(mv, mf) == first_some(mv.skip(k as int), mf),
                cv == controls_view(self.physical_controls@),
                cf == control_fault(),
                first_some(cv, cf) is None,
                strs(pos@) == positions(cv),
                self@.0 == 1 && self@.1.len() > 0 && self@.2 == seq!["SafeReturn"@],
                positions(cv).no_duplicates() && cv.len() > 0,
            decreases self.effective_map@.len() - k,
        {
            proof {
                lemma_first_some_step(mv, mf, k as int);
            }
            assert(mv[k as int] == self.effective_map@[k as int]@);
            match check_mapping(&self.effective_map[k], &pos) {
                Ok(()) => {},
                Err(e) => {
                    return Err(e);
                },
            }
            k += 1;
        }
        proof {
            lemma_first_some_ends(mv, mf);
        }
        validate_candidate(&self.effective_map, &pos)
    }
}

} // verus!
