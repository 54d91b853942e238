//! The effective map of one device: the contract's controls and shipped defaults, the map in
//! force (possibly carried from another device and re-resolved), and the events that report
//! what changed. Also the keyed store that remembers a device's remapped bindings.
use vstd::prelude::*;
use crate::input_map::binding::{
    binding_problem, fault, fault_absent, fault_binding, Binding, BindingShape, BindingView, FaultView,
    MapError,
};
use crate::input_map::contract::{
    all_present, candidate_check, contract_check, mapping_fault, controls_present, controls_view, first_some,
    lemma_first_some_ends, lemma_first_some_step, maps_view, positions, positions_of,
    validate_candidate, ContractView, ControlView, DeviceContract, Mapping, MappingView,
    PhysicalControl,
};
use crate::keyed::{keys_distinct, law_read_after_store, lookup, stored_with};
use crate::ports::{EffectiveBinding, GlyphError, GlyphResolver, GlyphResult, ShellAction};
use crate::scene::AxisMove;
use crate::input_map::binding::binding_id;
use crate::text::{join, joined, str_eq, string_of, strs};

verus! {

/// What the map reports after it changes.
#[derive(Clone, Debug, PartialEq, Eq)]
pub enum MapEvent {
    /// A carried binding named controls this device lacks (or broke a rule), so the shipped
    /// binding for its slot took its place.
    BindingReResolved {
        action: String,
        stored_device_id: String,
        current_device_id: String,
        old_binding: Binding,
        effective_binding: Binding,
    },
    /// A committed remap changed the glyphs of these actions.
    GlyphsUpdated { device_id: String, actions: Vec<String> },
}

/// An event as plain values: tag (0 re-resolved, 1 glyphs updated), action or device, stored
/// device, current device, old binding, effective binding, updated actions.
pub type EventView = (int, Seq<char>, Seq<char>, Seq<char>, BindingView, BindingView, Seq<Seq<char>>);

pub open spec fn blank_binding() -> BindingView {
    (BindingShape::SinglePress, Seq::empty(), None, None)
}

pub open spec fn rerouted(action: Seq<char>, stored: Seq<char>, current: Seq<char>, old: BindingView, new: BindingView) -> EventView {
    (0, action, stored, current, old, new, Seq::empty())
}

pub open spec fn glyphs_updated(device: Seq<char>, actions: Seq<Seq<char>>) -> EventView {
    (1, device, Seq::empty(), Seq::empty(), blank_binding(), blank_binding(), actions)
}

impl View for MapEvent {
    type V = EventView;

    open spec fn view(&self) -> EventView {
        match self {
            MapEvent::BindingReResolved { action, stored_device_id, current_device_id, old_binding, effective_binding } =>
                rerouted(action@, stored_device_id@, current_device_id@, old_binding@, effective_binding@),
            MapEvent::GlyphsUpdated { device_id, actions } => glyphs_updated(device_id@, strs(actions@)),
        }
    }
}

pub open spec fn events_view(es: Seq<MapEvent>) -> Seq<EventView> {
    es.map_values(|e: MapEvent| e@)
}

/// The binding of the first mapping in the slot (`context`, `action`).
pub open spec fn same_slot(context: Seq<char>, action: Seq<char>) -> spec_fn(MappingView) -> Option<BindingView> {
    |m: MappingView|
        if m.0 == context && m.1 == action {
            Some(m.2)
        } else {
            None
        }
}

/// One carried mapping on the current device: kept when its binding is valid and every control
/// exists here; re-resolved to the shipped binding of its slot when a control is missing.
pub open spec fn reresolve_one(c: ContractView, stored: Seq<char>, m: MappingView) -> Result<(MappingView, Option<EventView>), FaultView> {
    match binding_problem(m.2) {
        Some(msg) => Err(fault_binding(msg)),
        None => if all_present(m.2.1, positions(c.3)) {
            Ok((m, None))
        } else {
            match first_some(c.4, same_slot(m.0, m.1)) {
                None => Err(fault_absent(m.1)),
                Some(b) => Ok(((m.0, m.1, b), Some(rerouted(m.1, stored, c.1, m.2, b)))),
            }
        },
    }
}

/// Every carried mapping in order, with the events of the re-resolved ones; the first failure
/// stops the walk.
pub open spec fn reresolve_all(c: ContractView, stored: Seq<char>, ms: Seq<MappingView>) -> Result<(Seq<MappingView>, Seq<EventView>), FaultView>
    decreases ms.len(),
{
    if ms.len() == 0 {
        Ok((Seq::empty(), Seq::empty()))
    } else {
        match reresolve_all(c, stored, ms.drop_last()) {
            Err(f) => Err(f),
            Ok((done, evs)) => match reresolve_one(c, stored, ms.last()) {
                Err(f) => Err(f),
                Ok((m, e)) => Ok((
                    done.push(m),
                    match e {
                        Some(x) => evs.push(x),
                        None => evs,
                    },
                )),
            },
        }
    }
}

/// The events of restoring the shipped map over `ms`: one for each mapping whose binding
/// differs from the shipped binding of its slot.
pub open spec fn restore_events(c: ContractView, stored: Seq<char>, ms: Seq<MappingView>) -> Seq<EventView>
    decreases ms.len(),
{
    if ms.len() == 0 {
        Seq::empty()
    } else {
        let prior = restore_events(c, stored, ms.drop_last());
        let m = ms.last();
        match first_some(c.4, same_slot(m.0, m.1)) {
            Some(b) => if m.2 != b {
                prior.push(rerouted(m.1, stored, c.1, m.2, b))
            } else {
                prior
            },
            None => prior,
        }
    }
}

/// The map in force and its events for a valid contract and what was carried (the stored
/// device identity and its mappings), or the first failure. A carried map that breaks a
/// collision rule is replaced by the shipped map.
pub open spec fn persisted_outcome(c: ContractView, p: Option<(Seq<char>, Seq<MappingView>)>) -> Result<(Seq<MappingView>, Seq<EventView>), FaultView> {
    let stored = match p {
        Some(x) => x.0,
        None => c.1,
    };
    let ms = match p {
        Some(x) => x.1,
        None => c.4,
    };
    match reresolve_all(c, stored, ms) {
        Err(f) => Err(f),
        Ok((res, evs)) => match candidate_check(res, positions(c.3)) {
            Ok(()) => Ok((res, evs)),
            Err(f) => if f.0 == 4 && p is Some {
                Ok((c.4, evs + restore_events(c, stored, res)))
            } else {
                Err(f)
            },
        },
    }
}

pub proof fn lemma_reresolve_err_prefix(c: ContractView, stored: Seq<char>, ms: Seq<MappingView>, k: int)
    requires
        0 <= k <= ms.len(),
        reresolve_all(c, stored, ms.take(k)) is Err,
    ensures
        reresolve_all(c, stored, ms) == reresolve_all(c, stored, ms.take(k)),
    decreases ms.len(),
{
    if k == ms.len() {
        assert(ms.take(k) =~= ms);
    } else {
        assert(ms.drop_last().take(k) =~= ms.take(k));
        lemma_reresolve_err_prefix(c, stored, ms.drop_last(), k);
    }
}

/// A carried map as plain values: the stored device identity and its mappings.
pub open spec fn carried_view(p: Option<(String, Vec<Mapping>)>) -> Option<(Seq<char>, Seq<MappingView>)> {
    match p {
        Some(x) => Some((x.0@, maps_view(x.1@))),
        None => None,
    }
}

/// What is carried into a build when a store, asked under `stored_id`, answered `p`.
pub open spec fn carried_from(stored_id: Seq<char>, p: Option<Seq<MappingView>>) -> Option<(Seq<char>, Seq<MappingView>)> {
    match p {
        Some(ms) => Some((stored_id, ms)),
        None => None,
    }
}

/// A store's answer as plain values.
pub open spec fn opt_maps(p: Option<Vec<Mapping>>) -> Option<Seq<MappingView>> {
    match p {
        Some(ms) => Some(maps_view(ms@)),
        None => None,
    }
}

/// The effective input map of one device.
#[derive(Clone, Debug, PartialEq, Eq)]
pub struct EffectiveMap {
    device_id: String,
    controls: Vec<PhysicalControl>,
    shipped: Vec<Mapping>,
    mappings: Vec<Mapping>,
    events: Vec<MapEvent>,
}

/// A fresh copy of a list of mappings.
pub fn copy_mappings(ms: &[Mapping]) -> (r: Vec<Mapping>)
    ensures
        maps_view(r@) == maps_view(ms@),
{
    let mut r: Vec<Mapping> = Vec::new();
    let mut i: usize = 0;
    while i < ms.len()
        invariant
            i <= ms@.len(),
            maps_view(r@) == maps_view(ms@).take(i as int),
        decreases ms@.len() - i,
    {
        let ghost before = r@;
        let m = &ms[i];
        r.push(Mapping { context: string_of(m.context.as_str()), action: string_of(m.action.as_str()), binding: m.binding.copy() });
        assert(maps_view(r@) =~= maps_view(before).push(ms@[i as int]@));
        assert(maps_view(ms@).take(i + 1) =~= maps_view(ms@).take(i as int).push(ms@[i as int]@));
        i += 1;
    }
    assert(maps_view(ms@).take(ms@.len() as int) =~= maps_view(ms@));
    r
}

/// Whether two bindings are the same value.
pub fn same_binding(a: &Binding, b: &Binding) -> (r: bool)
    ensures
        r == (a@ == b@),
{
    if a.shape != b.shape || a.controls.len() != b.controls.len() {
        assert(a@.1.len() == a.controls@.len() && b@.1.len() == b.controls@.len());
        return false;
    }
    let same_max = match (a.max_interval_ms, b.max_interval_ms) {
        (Some(x), Some(y)) => x == y,
        (None, None) => true,
        _ => false,
    };
    let same_min = match (a.min_duration_ms, b.min_duration_ms) {
        (Some(x), Some(y)) => x == y,
        (None, None) => true,
        _ => false,
    };
    if !same_max || !same_min {
        return false;
    }
    let mut i: usize = 0;
    while i < a.controls.len()
        invariant
            a.controls@.len() == b.controls@.len(),
            i <= a.controls@.len(),
            forall|j: int| 0 <= j < i ==> a@.1[j] == b@.1[j],
        decreases a.controls@.len() - i,
    {
        if !str_eq(a.controls[i].as_str(), b.controls[i].as_str()) {
            assert(a@.1[i as int] != b@.1[i as int]);
            return false;
        }
        i += 1;
    }
    assert(a@.1 =~= b@.1);
    true
}

/// `i` is the first mapping in the slot (`context`, `action`).
pub open spec fn slot_at(ms: Seq<MappingView>, context: Seq<char>, action: Seq<char>, i: int) -> bool {
    &&& 0 <= i < ms.len()
    &&& ms[i].0 == context && ms[i].1 == action
    &&& forall|j: int| 0 <= j < i ==> !(#[trigger] ms[j].0 == context && ms[j].1 == action)
}

/// The index of the first mapping in the slot (`context`, `action`).
pub fn slot_index(ms: &[Mapping], context: &str, action: &str) -> (r: Option<usize>)
    ensures
        match first_some(maps_view(ms@), same_slot(context@, action@)) {
            Some(b) => r matches Some(i) && i < ms@.len() && ms@[i as int].binding@ == b && ms@[i as int].context@
                == context@ && ms@[i as int].action@ == action@,
            None => r is None,
        },
        r matches Some(i) ==> slot_at(maps_view(ms@), context@, action@, i as int),
        r is None ==> forall|j: int| 0 <= j < ms@.len() ==> !(#[trigger] maps_view(ms@)[j].0 == context@ && maps_view(ms@)[j].1 == action@),
{
    let ghost v = maps_view(ms@);
    let ghost f = same_slot(context@, action@);
    proof {
        lemma_first_some_ends(v, f);
    }
    let mut i: usize = 0;
    while i < ms.len()
        invariant
            v == maps_view(ms@),
            f == same_slot(context@, action@),
            i <= ms@.len(),
            first_some(v, f) == first_some(v.skip(i as int), f),
            forall|j: int| 0 <= j < i ==> !(#[trigger] v[j].0 == context@ && v[j].1 == action@),
        decreases ms@.len() - i,
    {
        proof {
            lemma_first_some_step(v, f, i as int);
        }
        assert(v[i as int] == ms@[i as int]@);
        if str_eq(ms[i].context.as_str(), context) && str_eq(ms[i].action.as_str(), action) {
            return Some(i);
        }
        i += 1;
    }
    proof {
        lemma_first_some_ends(v, f);
    }
    None
}

impl EffectiveMap {
    pub closed spec fn device(&self) -> Seq<char> {
        self.device_id@
    }

    pub closed spec fn controls(&self) -> Seq<ControlView> {
        controls_view(self.controls@)
    }

    pub closed spec fn shipped(&self) -> Seq<MappingView> {
        maps_view(self.shipped@)
    }

    pub closed spec fn current(&self) -> Seq<MappingView> {
        maps_view(self.mappings@)
    }

    pub closed spec fn pending_events(&self) -> Seq<EventView> {
        events_view(self.events@)
    }

    /// The map's invariant: the device's positions are distinct and the map in force keeps
    /// every rule of [`candidate_check`].
    pub open spec fn wf(&self) -> bool {
        &&& positions(self.controls()).no_duplicates()
        &&& candidate_check(self.current(), positions(self.controls())) is Ok
    }

    /// Build the map for `contract` from what was carried: `None` for the shipped map, or the
    /// stored device identity and its mappings (see [`persisted_outcome`]).
    pub fn from_persisted(contract: DeviceContract, persisted: Option<(String, Vec<Mapping>)>) -> (r: Result<EffectiveMap, MapError>)
        ensures
            match contract_check(contract@) {
                Err(f) => r matches Err(e) && e@ == f,
                Ok(()) => match persisted_outcome(contract@, carried_view(persisted)) {
                    Err(f) => r matches Err(e) && e@ == f,
                    Ok((ms, evs)) => r matches Ok(m) && m.wf() && m.device() == contract@.1 && m.controls()
                        == contract@.3 && m.shipped() == contract@.4 && m.current() == ms && m.pending_events() == evs,
                },
            },
    {
        match contract.validate() {
            Ok(()) => {},
            Err(e) => {
                return Err(e);
            },
        }
        let ghost c = contract@;
        let pos = positions_of(&contract.physical_controls);
        let ghost p = carried_view(persisted);
        let (stored, carried, source): (String, Vec<Mapping>, bool) = match persisted {
            Some((id, ms)) => (id, ms, true),
            None => (string_of(contract.device_id.as_str()), copy_mappings(contract.effective_map.as_slice()), false),
        };
        assert(stored@ == match p {
            Some(x) => x.0,
            None => c.1,
        });
        assert(maps_view(carried@) == match p {
            Some(x) => x.1,
            None => c.4,
        });
        let ghost cv = maps_view(carried@);
        let mut out: Vec<Mapping> = Vec::new();
        let mut events: Vec<MapEvent> = Vec::new();
        let mut i: usize = 0;
        assert(cv.take(0) =~= Seq::<MappingView>::empty());
        assert(maps_view(out@) =~= Seq::<MappingView>::empty());
        assert(events_view(events@) =~= Seq::<EventView>::empty());
        while i < carried.len()
            invariant
                c == contract@,
                contract_check(c) is Ok,
                strs(pos@) == positions(c.3),
                cv == maps_view(carried@),
                p == carried_view(persisted),
                stored@ == match p {
                    Some(x) => x.0,
                    None => c.1,
                },
                cv == match p {
                    Some(x) => x.1,
                    None => c.4,
                },
                i <= carried@.len(),
                reresolve_all(c, stored@, cv.take(i as int)) == Ok::<(Seq<MappingView>, Seq<EventView>), FaultView>(
                    (maps_view(out@), events_view(events@)),
                ),
            decreases carried@.len() - i,
        {
            let m = &carried[i];
            let ghost prefix = cv.take(i + 1);
            assert(prefix.drop_last() =~= cv.take(i as int));
            assert(prefix.last() == m@);
            match m.binding.validate() {
                Ok(()) => {},
                Err(e) => {
                    proof {
                        lemma_reresolve_err_prefix(c, stored@, cv, i + 1);
                    }
                    return Err(e);
                },
            }
            let ghost before_out = out@;
            let ghost before_events = events@;
            if controls_present(&m.binding, &pos) {
                out.push(Mapping { context: string_of(m.context.as_str()), action: string_of(m.action.as_str()), binding: m.binding.copy() });
                assert(maps_view(out@) =~= maps_view(before_out).push(m@));
            } else {
                match slot_index(contract.effective_map.as_slice(), m.context.as_str(), m.action.as_str()) {
                    None => {
                        proof {
                            lemma_reresolve_err_prefix(c, stored@, cv, i + 1);
                        }
                        return Err(MapError::AbsentControl { action: string_of(m.action.as_str()) });
                    },
                    Some(j) => {
                        let fallback = &contract.effective_map[j].binding;
                        out.push(Mapping {
                            context: string_of(m.context.as_str()),
                            action: string_of(m.action.as_str()),
                            binding: fallback.copy(),
                        });
                        events.push(MapEvent::BindingReResolved {
                            action: string_of(m.action.as_str()),
                            stored_device_id: string_of(stored.as_str()),
                            current_device_id: string_of(contract.device_id.as_str()),
                            old_binding: m.binding.copy(),
                            effective_binding: fallback.copy(),
                        });
                        assert(maps_view(out@) =~= maps_view(before_out).push((m@.0, m@.1, fallback@)));
                        assert(events_view(events@) =~= events_view(before_events).push(
                            rerouted(m@.1, stored@, c.1, m@.2, fallback@),
                        ));
                    },
                }
            }
            i += 1;
        }
        assert(cv.take(carried@.len() as int) =~= cv);
        match validate_candidate(&out, &pos) {
            Ok(()) => {
                let m = EffectiveMap {
                    device_id: contract.device_id,
                    controls: contract.physical_controls,
                    shipped: contract.effective_map,
                    mappings: out,
                    events,
                };
                Ok(m)
            },
            Err(e) => {
                let collision = match &e {
                    MapError::Collision { .. } => true,
                    _ => false,
                };
                if !collision || !source {
                    return Err(e);
                }
                let extra = restore_shipped_events(&contract, stored.as_str(), &out);
                let mut all = events;
                let ghost before_all = events_view(all@);
                let mut extra_mut = extra;
                all.append(&mut extra_mut);
                assert(events_view(all@) =~= before_all + restore_events(c, stored@, maps_view(out@)));
                let shipped_copy = copy_mappings(contract.effective_map.as_slice());
                let m = EffectiveMap {
                    device_id: contract.device_id,
                    controls: contract.physical_controls,
                    shipped: contract.effective_map,
                    mappings: shipped_copy,
                    events: all,
                };
                Ok(m)
            },
        }
    }
    /// The device this map belongs to.
    pub fn device_id(&self) -> (s: &str)
        ensures
            s@ == self.device(),
    {
        self.device_id.as_str()
    }

    /// The mappings in force.
    pub fn mappings(&self) -> (m: &[Mapping])
        ensures
            maps_view(m@) == self.current(),
    {
        self.mappings.as_slice()
    }

    /// The binding in force for (`context`, `action`), if the map has that slot.
    pub fn binding(&self, context: &str, action: &str) -> (r: Option<&Binding>)
        ensures
            match first_some(self.current(), same_slot(context@, action@)) {
                Some(b) => r matches Some(x) && x@ == b,
                None => r is None,
            },
    {
        match slot_index(self.mappings.as_slice(), context, action) {
            Some(i) => Some(&self.mappings[i].binding),
            None => None,
        }
    }

    /// The contract's shipped binding for (`context`, `action`), if it has that slot.
    pub fn shipped_binding(&self, context: &str, action: &str) -> (r: Option<&Binding>)
        ensures
            match first_some(self.shipped(), same_slot(context@, action@)) {
                Some(b) => r matches Some(x) && x@ == b,
                None => r is None,
            },
    {
        match slot_index(self.shipped.as_slice(), context, action) {
            Some(i) => Some(&self.shipped[i].binding),
            None => None,
        }
    }

    /// Take the oldest pending event.
    pub fn next_event(&mut self) -> (r: Option<MapEvent>)
        ensures
            final(self).device() == old(self).device(),
            final(self).controls() == old(self).controls(),
            final(self).shipped() == old(self).shipped(),
            final(self).current() == old(self).current(),
            old(self).pending_events().len() == 0 ==> r is None && final(self).pending_events() == old(self).pending_events(),
            old(self).pending_events().len() > 0 ==> (r matches Some(e) && e@ == old(self).pending_events()[0]
                && final(self).pending_events() == old(self).pending_events().drop_first()),
    {
        if self.events.len() == 0 {
            None
        } else {
            let ghost before = self.events@;
            let e = self.events.remove(0);
            assert(events_view(self.events@) =~= events_view(before).drop_first());
            Some(e)
        }
    }

    /// The positions of the device's controls.
    pub fn positions(&self) -> (r: Vec<String>)
        ensures
            strs(r@) == positions(self.controls()),
    {
        positions_of(&self.controls)
    }

    /// Put `mappings` in force and report the glyph change of `action`.
    pub(crate) fn commit(&mut self, mappings: Vec<Mapping>, action: &str)
        requires
            old(self).wf(),
            candidate_check(maps_view(mappings@), positions(old(self).controls())) is Ok,
        ensures
            final(self).wf(),
            final(self).device() == old(self).device(),
            final(self).controls() == old(self).controls(),
            final(self).shipped() == old(self).shipped(),
            final(self).current() == maps_view(mappings@),
            final(self).pending_events() == old(self).pending_events().push(glyphs_updated(old(self).device(), seq![action@])),
    {
        let ghost before = self.events@;
        self.mappings = mappings;
        let mut actions: Vec<String> = Vec::new();
        actions.push(string_of(action));
        assert(strs(actions@) =~= seq![action@]);
        self.events.push(MapEvent::GlyphsUpdated { device_id: string_of(self.device_id.as_str()), actions });
        assert(events_view(self.events@) =~= events_view(before).push(glyphs_updated(self.device_id@, seq![action@])));
    }

    /// Load the map of `contract`'s device from a keyed store and build it for the contract;
    /// with nothing stored, the shipped map is in force. The store is asked once, under the
    /// contract's device identity.
    pub fn load<S: RemapStore>(contract: DeviceContract, store: &mut S) -> (r: Result<EffectiveMap, MapError>)
        ensures
            final(store).log().calls().len() == old(store).log().calls().len() + 1,
            final(store).log().calls().drop_last() == old(store).log().calls(),
            final(store).log().calls().last() matches StoreCall::Load(id, answer)
                && id == contract@.1 && loaded(contract@, ""@, answer, r),
            contract_check(contract@) is Err ==> r is Err,
    {
        let ghost h0 = store.log().calls();
        let answer = store.load(contract.device_id.as_str());
        proof {
            assert(store.log().calls().drop_last() =~= h0);
        }
        let persisted = match answer {
            Ok(p) => p,
            Err(e) => {
                return Err(e);
            },
        };
        let ghost p = opt_maps(persisted);
        let carried = match persisted {
            Some(ms) => Some((String::new(), ms)),
            None => None,
        };
        proof {
            reveal_strlit("");
            assert(carried_view(carried) == carried_from(""@, p));
        }
        EffectiveMap::from_persisted(contract, carried)
    }

    /// Load a map stored under a prior device identity and re-resolve it for `contract`. The
    /// store is asked once, under `stored_device_id`.
    pub fn load_carried<S: RemapStore>(contract: DeviceContract, stored_device_id: &str, store: &mut S) -> (r: Result<EffectiveMap, MapError>)
        ensures
            final(store).log().calls().len() == old(store).log().calls().len() + 1,
            final(store).log().calls().drop_last() == old(store).log().calls(),
            final(store).log().calls().last() matches StoreCall::Load(id, answer)
                && id == stored_device_id@ && loaded(contract@, stored_device_id@, answer, r),
            contract_check(contract@) is Err ==> r is Err,
    {
        let ghost h0 = store.log().calls();
        let answer = store.load(stored_device_id);
        proof {
            assert(store.log().calls().drop_last() =~= h0);
        }
        let persisted = match answer {
            Ok(p) => p,
            Err(e) => {
                return Err(e);
            },
        };
        let ghost p = opt_maps(persisted);
        let carried = match persisted {
            Some(ms) => Some((string_of(stored_device_id), ms)),
            None => None,
        };
        proof {
            assert(carried_view(carried) == carried_from(stored_device_id@, p));
        }
        EffectiveMap::from_persisted(contract, carried)
    }
}

/// The map built for contract `c` from what was carried (see [`EffectiveMap::from_persisted`]).
pub open spec fn built(c: ContractView, p: Option<(Seq<char>, Seq<MappingView>)>, r: Result<EffectiveMap, MapError>) -> bool {
    match contract_check(c) {
        Err(f) => r matches Err(e) && e@ == f,
        Ok(()) => match persisted_outcome(c, p) {
            Err(f) => r matches Err(e) && e@ == f,
            Ok((ms, evs)) => r matches Ok(m) && m.wf() && m.device() == c.1 && m.controls() == c.3 && m.shipped()
                == c.4 && m.current() == ms && m.pending_events() == evs,
        },
    }
}

/// What loading yields when the store, asked under `stored_id`, answered `answer`: its error,
/// or the map built from what it held.
pub open spec fn loaded(
    c: ContractView,
    stored_id: Seq<char>,
    answer: Result<Option<Vec<Mapping>>, MapError>,
    r: Result<EffectiveMap, MapError>,
) -> bool {
    match answer {
        Err(e) => r == Err::<EffectiveMap, MapError>(e),
        Ok(p) => built(c, carried_from(stored_id, opt_maps(p)), r),
    }
}

/// Every event is a re-resolution from device `stored` to device `current`.
pub open spec fn all_rerouted(evs: Seq<EventView>, stored: Seq<char>, current: Seq<char>) -> bool {
    forall|i: int| 0 <= i < evs.len() ==> (#[trigger] evs[i]).0 == 0 && evs[i].2 == stored && evs[i].3 == current
}

proof fn lemma_reresolve_events(c: ContractView, stored: Seq<char>, ms: Seq<MappingView>)
    ensures
        reresolve_all(c, stored, ms) matches Ok((done, evs)) ==> all_rerouted(evs, stored, c.1),
    decreases ms.len(),
{
    if ms.len() > 0 {
        lemma_reresolve_events(c, stored, ms.drop_last());
    }
}

proof fn lemma_restore_events(c: ContractView, stored: Seq<char>, ms: Seq<MappingView>)
    ensures
        all_rerouted(restore_events(c, stored, ms), stored, c.1),
    decreases ms.len(),
{
    if ms.len() > 0 {
        lemma_restore_events(c, stored, ms.drop_last());
    }
}

/// A map carried from another device reports only re-resolutions, each naming the device it
/// was stored under and the device it now runs on: a carried load reads the stored identity
/// and no other.
pub proof fn law_carried_events_name_both_devices(c: ContractView, stored: Seq<char>, ms: Seq<MappingView>)
    ensures
        persisted_outcome(c, Some((stored, ms))) matches Ok((res, evs)) ==> all_rerouted(evs, stored, c.1),
{
    lemma_reresolve_events(c, stored, ms);
    lemma_restore_events(c, stored, ms);
    if let Ok((res, evs)) = reresolve_all(c, stored, ms) {
        lemma_restore_events(c, stored, res);
        assert forall|i: int| 0 <= i < (evs + restore_events(c, stored, res)).len() implies
            (#[trigger] (evs + restore_events(c, stored, res))[i]).0 == 0
            && (evs + restore_events(c, stored, res))[i].2 == stored
            && (evs + restore_events(c, stored, res))[i].3 == c.1 by {
            if i < evs.len() {
                assert((evs + restore_events(c, stored, res))[i] == evs[i]);
            } else {
                assert((evs + restore_events(c, stored, res))[i] == restore_events(c, stored, res)[i - evs.len()]);
            }
        }
    }
}

/// Every map this library builds keeps each protected action reachable through exactly one
/// mapping whose controls the device has, and no protected gesture is ambiguous.
pub proof fn law_protected_actions_stay_reachable(m: EffectiveMap)
    requires
        m.wf(),
    ensures
        !crate::input_map::contract::unreachable(m.current(), positions(m.controls()), "Activate"@),
        !crate::input_map::contract::unreachable(m.current(), positions(m.controls()), "Back"@),
        !crate::input_map::contract::unreachable(m.current(), positions(m.controls()), "SafeReturn"@),
{
}

/// One call a store received, with what it answered.
pub enum StoreCall {
    /// A load under a device identity.
    Load(Seq<char>, Result<Option<Vec<Mapping>>, MapError>),
    /// A save of mappings under a device identity.
    Save(Seq<char>, Seq<MappingView>, Result<(), MapError>),
}

/// The calls a store has received, oldest first. It exists only for the contracts: every store
/// keeps one and notes each call it answers.
#[derive(Clone, Copy)]
pub struct StoreLog {
    calls: Ghost<Seq<StoreCall>>,
}

impl StoreLog {
    pub closed spec fn calls(self) -> Seq<StoreCall> {
        self.calls@
    }

    /// A log of no calls.
    pub fn new() -> (l: StoreLog)
        ensures
            l.calls() == Seq::<StoreCall>::empty(),
    {
        StoreLog { calls: Ghost(Seq::empty()) }
    }

    /// Note a `load` call and its answer.
    pub fn note_load(&mut self, device_id: &str, r: &Result<Option<Vec<Mapping>>, MapError>)
        ensures
            final(self).calls() == old(self).calls().push(StoreCall::Load(device_id@, *r)),
    {
        self.calls = Ghost(self.calls@.push(StoreCall::Load(device_id@, *r)));
    }

    /// Note a `save` call and its answer.
    pub fn note_save(&mut self, device_id: &str, mappings: &[Mapping], r: &Result<(), MapError>)
        ensures
            final(self).calls() == old(self).calls().push(StoreCall::Save(device_id@, maps_view(mappings@), *r)),
    {
        self.calls = Ghost(self.calls@.push(StoreCall::Save(device_id@, maps_view(mappings@), *r)));
    }
}

/// Where remapped bindings are kept, keyed by device identity.
pub trait RemapStore {
    /// The calls this store has received.
    spec fn log(&self) -> StoreLog;

    /// The mappings saved under `device_id`, if any.
    fn load(&mut self, device_id: &str) -> (r: Result<Option<Vec<Mapping>>, MapError>)
        ensures
            final(self).log().calls() == old(self).log().calls().push(StoreCall::Load(device_id@, r)),
    ;

    /// Save `mappings` under `device_id`.
    fn save(&mut self, device_id: &str, mappings: &[Mapping]) -> (r: Result<(), MapError>)
        ensures
            final(self).log().calls() == old(self).log().calls().push(StoreCall::Save(device_id@, maps_view(mappings@), r)),
    ;
}

/// A device-keyed list of saved mappings as plain values.
pub open spec fn devices_view(d: Seq<(String, Vec<Mapping>)>) -> Seq<(Seq<char>, Seq<MappingView>)> {
    d.map_values(|e: (String, Vec<Mapping>)| (e.0@, maps_view(e.1@)))
}

/// The entry for `device_id` in a device-keyed list with distinct keys.
pub fn find_device(d: &Vec<(String, Vec<Mapping>)>, device_id: &str) -> (r: Option<usize>)
    requires
        keys_distinct(devices_view(d@)),
    ensures
        r matches Some(i) ==> i < d@.len() && d@[i as int].0@ == device_id@ && lookup(devices_view(d@), device_id@)
            == Some(maps_view(d@[i as int].1@)),
        r is None ==> lookup(devices_view(d@), device_id@) is None,
{
    let ghost s = devices_view(d@);
    let mut i: usize = 0;
    while i < d.len()
        invariant
            s == devices_view(d@),
            keys_distinct(s),
            i <= d@.len(),
            forall|j: int| 0 <= j < i ==> s[j].0 != device_id@,
        decreases d@.len() - i,
    {
        assert(s[i as int].0 == d@[i as int].0@);
        if str_eq(d[i].0.as_str(), device_id) {
            proof {
                let k = choose|k: int| 0 <= k < s.len() && s[k].0 == device_id@;
                if k != i {
                    assert(s[k].0 != s[i as int].0);
                }
            }
            return Some(i);
        }
        i += 1;
    }
    None
}

/// Store `mappings` for `device_id`, replacing its earlier entry.
pub fn put_device(d: &mut Vec<(String, Vec<Mapping>)>, device_id: &str, mappings: &[Mapping])
    requires
        keys_distinct(devices_view(old(d)@)),
    ensures
        keys_distinct(devices_view(final(d)@)),
        devices_view(final(d)@) == stored_with(devices_view(old(d)@), device_id@, maps_view(mappings@)),
{
    let ghost before = devices_view(d@);
    let copy = copy_mappings(mappings);
    proof {
        law_read_after_store(before, device_id@, maps_view(mappings@), device_id@);
    }
    match find_device(d, device_id) {
        Some(i) => {
            d.set(i, (string_of(device_id), copy));
            proof {
                let k = choose|k: int| 0 <= k < before.len() && before[k].0 == device_id@;
                assert(before[i as int].0 == device_id@);
                if k != i {
                    assert(before[k].0 != before[i as int].0);
                }
                assert(devices_view(d@) =~= before.update(i as int, (device_id@, maps_view(mappings@))));
            }
        },
        None => {
            d.push((string_of(device_id), copy));
            assert(devices_view(d@) =~= before.push((device_id@, maps_view(mappings@))));
        },
    }
}

/// Whether the device identities of a keyed list are distinct.
pub fn distinct_devices(d: &Vec<(String, Vec<Mapping>)>) -> (b: bool)
    ensures
        b == keys_distinct(devices_view(d@)),
{
    let ghost s = devices_view(d@);
    let n = d.len();
    let mut a: usize = 0;
    while a < n
        invariant
            s == devices_view(d@),
            n == d@.len(),
            a <= n,
            forall|p: int, q: int| 0 <= p < a && 0 <= q < n && p != q ==> s[p].0 != s[q].0,
        decreases n - a,
    {
        let mut b: usize = 0;
        while b < n
            invariant
                s == devices_view(d@),
                n == d@.len(),
                a < n,
                b <= n,
                forall|p: int, q: int| 0 <= p < a && 0 <= q < n && p != q ==> s[p].0 != s[q].0,
                forall|q: int| 0 <= q < b && q != a ==> s[a as int].0 != s[q].0,
            decreases n - b,
        {
            if a != b && str_eq(d[a].0.as_str(), d[b].0.as_str()) {
                assert(s[a as int].0 == d@[a as int].0@ && s[b as int].0 == d@[b as int].0@);
                return false;
            }
            b += 1;
        }
        a += 1;
    }
    true
}

/// A keyed store held in memory; `failing` makes every save fail.
#[derive(Clone)]
pub struct MemoryStore {
    devices: Vec<(String, Vec<Mapping>)>,
    fail_save: bool,
    log: StoreLog,
}

impl MemoryStore {
    /// The saved mappings of each device.
    pub closed spec fn saved(&self) -> Seq<(Seq<char>, Seq<MappingView>)> {
        devices_view(self.devices@)
    }

    /// Whether saves are refused.
    pub closed spec fn fails(&self) -> bool {
        self.fail_save
    }

    pub closed spec fn wf(&self) -> bool {
        keys_distinct(self.saved())
    }

    /// A store whose every save fails.
    pub fn failing() -> (s: MemoryStore)
        ensures
            s.wf(),
            s.fails(),
            s.saved() == Seq::<(Seq<char>, Seq<MappingView>)>::empty(),
    {
        let s = MemoryStore { devices: Vec::new(), fail_save: true, log: StoreLog::new() };
        assert(s.saved() =~= Seq::<(Seq<char>, Seq<MappingView>)>::empty());
        s
    }
}

impl Default for MemoryStore {
    fn default() -> (s: MemoryStore)
        ensures
            s.wf(),
            !s.fails(),
            s.saved() == Seq::<(Seq<char>, Seq<MappingView>)>::empty(),
    {
        let s = MemoryStore { devices: Vec::new(), fail_save: false, log: StoreLog::new() };
        assert(s.saved() =~= Seq::<(Seq<char>, Seq<MappingView>)>::empty());
        s
    }
}

impl RemapStore for MemoryStore {
    closed spec fn log(&self) -> StoreLog {
        self.log
    }

    /// The mappings last saved for `device_id` (every store built here has distinct keys).
    fn load(&mut self, device_id: &str) -> (r: Result<Option<Vec<Mapping>>, MapError>)
        ensures
            old(self).wf() ==> match lookup(old(self).saved(), device_id@) {
                Some(ms) => r matches Ok(Some(v)) && maps_view(v@) == ms,
                None => r == Ok::<Option<Vec<Mapping>>, MapError>(None),
            },
            final(self).saved() == old(self).saved(),
            final(self).fails() == old(self).fails(),
            final(self).wf() == old(self).wf(),
    {
        let r = if !distinct_devices(&self.devices) {
            Ok(None)
        } else {
            match find_device(&self.devices, device_id) {
                Some(i) => Ok(Some(copy_mappings(self.devices[i].1.as_slice()))),
                None => Ok(None),
            }
        };
        self.log.note_load(device_id, &r);
        r
    }

    /// Save `mappings` for `device_id`, replacing what was saved for it; a failing store
    /// refuses and keeps what it had.
    fn save(&mut self, device_id: &str, mappings: &[Mapping]) -> (r: Result<(), MapError>)
        ensures
            final(self).fails() == old(self).fails(),
            old(self).fails() ==> (r matches Err(e) && e@ == fault(8, "injected save failure"@) && final(self).saved()
                == old(self).saved() && final(self).wf() == old(self).wf()),
            !old(self).fails() && old(self).wf() ==> r is Ok && final(self).wf() && final(self).saved() == stored_with(
                old(self).saved(),
                device_id@,
                maps_view(mappings@),
            ),
    {
        let r = if self.fail_save {
            Err(MapError::Persistence(string_of("injected save failure")))
        } else if !distinct_devices(&self.devices) {
            Ok(())
        } else {
            put_device(&mut self.devices, device_id, mappings);
            Ok(())
        };
        self.log.note_save(device_id, mappings, &r);
        r
    }
}

/// The events of restoring the contract's shipped map over `ms` (see [`restore_events`]).
fn restore_shipped_events(contract: &DeviceContract, stored: &str, ms: &Vec<Mapping>) -> (r: Vec<MapEvent>)
    ensures
        events_view(r@) == restore_events(contract@, stored@, maps_view(ms@)),
{
    let ghost c = contract@;
    let ghost v = maps_view(ms@);
    let mut out: Vec<MapEvent> = Vec::new();
    let mut i: usize = 0;
    assert(v.take(0) =~= Seq::<MappingView>::empty());
    assert(events_view(out@) =~= Seq::<EventView>::empty());
    while i < ms.len()
        invariant
            c == contract@,
            v == maps_view(ms@),
            i <= ms@.len(),
            events_view(out@) == restore_events(c, stored@, v.take(i as int)),
        decreases ms@.len() - i,
    {
        let m = &ms[i];
        let ghost prefix = v.take(i + 1);
        assert(prefix.drop_last() =~= v.take(i as int));
        assert(prefix.last() == m@);
        let ghost before = out@;
        match slot_index(contract.effective_map.as_slice(), m.context.as_str(), m.action.as_str()) {
            Some(j) => {
                let shipped = &contract.effective_map[j].binding;
                if !same_binding(&m.binding, shipped) {
                    out.push(MapEvent::BindingReResolved {
                        action: string_of(m.action.as_str()),
                        stored_device_id: string_of(stored),
                        current_device_id: string_of(contract.device_id.as_str()),
                        old_binding: m.binding.copy(),
                        effective_binding: shipped.copy(),
                    });
                    assert(events_view(out@) =~= events_view(before).push(rerouted(m@.1, stored@, c.1, m@.2, shipped@)));
                }
            },
            None => {},
        }
        i += 1;
    }
    assert(v.take(ms@.len() as int) =~= v);
    out
}

/// The semantic action name a shell action resolves through.
pub open spec fn semantic(a: ShellAction) -> Seq<char> {
    match a {
        ShellAction::Move(AxisMove::Up) => "Move.up"@,
        ShellAction::Move(AxisMove::Down) => "Move.down"@,
        ShellAction::Move(AxisMove::Left) => "Move.left"@,
        ShellAction::Move(AxisMove::Right) => "Move.right"@,
        ShellAction::Activate => "Activate"@,
        ShellAction::Back => "Back"@,
        ShellAction::Custom(name) => name@,
    }
}

fn semantic_name(a: &ShellAction) -> (n: &str)
    ensures
        n@ == semantic(*a),
{
    match a {
        ShellAction::Move(AxisMove::Up) => "Move.up",
        ShellAction::Move(AxisMove::Down) => "Move.down",
        ShellAction::Move(AxisMove::Left) => "Move.left",
        ShellAction::Move(AxisMove::Right) => "Move.right",
        ShellAction::Activate => "Activate",
        ShellAction::Back => "Back",
        ShellAction::Custom(name) => name.as_str(),
    }
}

/// The binding of the first mapping for `action`, in any context.
pub open spec fn action_hit(action: Seq<char>) -> spec_fn(MappingView) -> Option<BindingView> {
    |m: MappingView|
        if m.1 == action {
            Some(m.2)
        } else {
            None
        }
}

/// The control at position `p`.
pub open spec fn at_position(p: Seq<char>) -> spec_fn(ControlView) -> Option<ControlView> {
    |c: ControlView|
        if c.0 == p {
            Some(c)
        } else {
            None
        }
}

/// Every control of a binding exists on the device.
pub open spec fn all_known(cs: Seq<ControlView>, ctrls: Seq<Seq<char>>) -> bool {
    forall|i: int| 0 <= i < ctrls.len() ==> first_some(cs, at_position(#[trigger] ctrls[i])) is Some
}

/// The printed labels of the controls that have one, in binding order.
pub open spec fn printed_labels(cs: Seq<ControlView>, ctrls: Seq<Seq<char>>) -> Seq<Seq<char>>
    decreases ctrls.len(),
{
    if ctrls.len() == 0 {
        Seq::empty()
    } else {
        let prior = printed_labels(cs, ctrls.drop_last());
        match first_some(cs, at_position(ctrls.last())) {
            Some(c) => match c.1 {
                Some(l) => prior.push(l),
                None => prior,
            },
            None => prior,
        }
    }
}

/// The source fallback glyph ids of the controls, in binding order.
pub open spec fn fallback_ids(cs: Seq<ControlView>, ctrls: Seq<Seq<char>>) -> Seq<Seq<char>> {
    ctrls.map_values(|p: Seq<char>| glyph_id_at(cs, p))
}

/// The source fallback glyph id of the control at position `p`.
pub open spec fn glyph_id_at(cs: Seq<ControlView>, p: Seq<char>) -> Seq<char> {
    match first_some(cs, at_position(p)) {
        Some(c) => c.4,
        None => Seq::empty(),
    }
}

fn control_index(cs: &Vec<PhysicalControl>, p: &str) -> (r: Option<usize>)
    ensures
        match first_some(controls_view(cs@), at_position(p@)) {
            Some(c) => r matches Some(i) && i < cs@.len() && cs@[i as int]@ == c,
            None => r is None,
        },
{
    let ghost v = controls_view(cs@);
    let ghost f = at_position(p@);
    proof {
        lemma_first_some_ends(v, f);
    }
    let mut i: usize = 0;
    while i < cs.len()
        invariant
            v == controls_view(cs@),
            f == at_position(p@),
            i <= cs@.len(),
            first_some(v, f) == first_some(v.skip(i as int), f),
        decreases cs@.len() - i,
    {
        proof {
            lemma_first_some_step(v, f, i as int);
        }
        assert(v[i as int] == cs@[i as int]@);
        if str_eq(cs[i].position.as_str(), p) {
            return Some(i);
        }
        i += 1;
    }
    proof {
        lemma_first_some_ends(v, f);
    }
    None
}

fn action_index(ms: &Vec<Mapping>, action: &str) -> (r: Option<usize>)
    ensures
        match first_some(maps_view(ms@), action_hit(action@)) {
            Some(b) => r matches Some(i) && i < ms@.len() && ms@[i as int].binding@ == b,
            None => r is None,
        },
{
    let ghost v = maps_view(ms@);
    let ghost f = action_hit(action@);
    proof {
        lemma_first_some_ends(v, f);
    }
    let mut i: usize = 0;
    while i < ms.len()
        invariant
            v == maps_view(ms@),
            f == action_hit(action@),
            i <= ms@.len(),
            first_some(v, f) == first_some(v.skip(i as int), f),
        decreases ms@.len() - i,
    {
        proof {
            lemma_first_some_step(v, f, i as int);
        }
        assert(v[i as int] == ms@[i as int]@);
        if str_eq(ms[i].action.as_str(), action) {
            return Some(i);
        }
        i += 1;
    }
    proof {
        lemma_first_some_ends(v, f);
    }
    None
}

impl GlyphResolver for EffectiveMap {
    /// The glyph of the first mapping bound to the action's semantic name: its binding id, the
    /// controls' printed labels joined with ` + ` (empty unless every control has one), and
    /// their source fallback glyphs joined the same way. A binding naming a control the device
    /// lacks is an invalid binding; an action with no mapping is unsupported.
    fn resolve(&self, action: &ShellAction) -> (r: Result<GlyphResult, GlyphError>)
        ensures
            match first_some(self.current(), action_hit(semantic(*action))) {
                None => r == Ok::<GlyphResult, GlyphError>(GlyphResult::UnsupportedAction),
                Some(b) => if !all_known(self.controls(), b.1) {
                    r == Err::<GlyphResult, GlyphError>(GlyphError::InvalidBinding)
                } else {
                    r matches Ok(GlyphResult::Resolved(g)) && g.binding_id@ == binding_id(b) && g.source_fallback@
                        == joined(fallback_ids(self.controls(), b.1), " + "@) && g.printed_label@ == (if printed_labels(
                        self.controls(),
                        b.1,
                    ).len() == b.1.len() {
                        joined(printed_labels(self.controls(), b.1), " + "@)
                    } else {
                        Seq::empty()
                    })
                },
            },
    {
        let name = semantic_name(action);
        let i = match action_index(&self.mappings, name) {
            Some(i) => i,
            None => {
                return Ok(GlyphResult::UnsupportedAction);
            },
        };
        let binding = &self.mappings[i].binding;
        let ghost cs = self.controls();
        let ghost ctrls = binding@.1;
        let mut labels: Vec<String> = Vec::new();
        let mut fallbacks: Vec<String> = Vec::new();
        let mut k: usize = 0;
        while k < binding.controls.len()
            invariant
                cs == self.controls(),
                ctrls == binding@.1,
                first_some(self.current(), action_hit(semantic(*action))) == Some(binding@),
                k <= binding.controls@.len(),
                all_known(cs, ctrls.take(k as int)),
                strs(labels@) == printed_labels(cs, ctrls.take(k as int)),
                strs(fallbacks@) == fallback_ids(cs, ctrls.take(k as int)),
            decreases binding.controls@.len() - k,
        {
            let ghost t = ctrls.take(k + 1);
            assert(t.drop_last() =~= ctrls.take(k as int));
            assert(t.last() == binding.controls@[k as int]@);
            let ci = match control_index(&self.controls, binding.controls[k].as_str()) {
                Some(ci) => ci,
                None => {
                    assert(!all_known(cs, ctrls)) by {
                        assert(ctrls[k as int] == binding.controls@[k as int]@);
                    }
                    return Err(GlyphError::InvalidBinding);
                },
            };
            let c = &self.controls[ci];
            let ghost before_labels = labels@;
            let ghost before_fallbacks = fallbacks@;
            match &c.printed_label {
                Some(l) => {
                    labels.push(string_of(l.as_str()));
                    assert(strs(labels@) =~= strs(before_labels).push(l@));
                },
                None => {},
            }
            fallbacks.push(string_of(c.fallback_glyph.id.as_str()));
            assert(strs(fallbacks@) =~= strs(before_fallbacks).push(c.fallback_glyph.id@));
            assert(fallback_ids(cs, t) =~= fallback_ids(cs, ctrls.take(k as int)).push(c.fallback_glyph.id@));
            assert forall|j: int| 0 <= j < t.len() implies first_some(cs, at_position(#[trigger] t[j])) is Some by {
                if j < k {
                    assert(t[j] == ctrls.take(k as int)[j]);
                }
            }
            k += 1;
        }
        assert(ctrls.take(binding.controls@.len() as int) =~= ctrls);
        let printed_label = if labels.len() == binding.controls.len() {
            join(&labels, " + ")
        } else {
            String::new()
        };
        proof {
            assert(strs(labels@).len() == labels@.len());
            assert(printed_labels(cs, ctrls).len() == labels@.len());
        }
        Ok(GlyphResult::Resolved(EffectiveBinding {
            binding_id: binding.id(),
            printed_label,
            source_fallback: join(&fallbacks, " + "),
        }))
    }
}


/// Some shipped mapping of the same context and action as `m` has binding `b`.
pub open spec fn shipped_for(shipped: Seq<MappingView>, m: MappingView, b: BindingView) -> bool {
    exists|k: int| 0 <= k < shipped.len() && shipped[k].0 == m.0 && shipped[k].1 == m.1 && #[trigger] shipped[k].2 == b
}

/// The carried mappings whose binding names a control the device lacks, in order.
pub open spec fn missing_mappings(pos: Seq<Seq<char>>, ms: Seq<MappingView>) -> Seq<MappingView>
    decreases ms.len(),
{
    if ms.len() == 0 {
        Seq::empty()
    } else {
        let p = missing_mappings(pos, ms.drop_last());
        let m = ms.last();
        if exists|k: int| 0 <= k < m.2.1.len() && !pos.contains(#[trigger] m.2.1[k]) {
            p.push(m)
        } else {
            p
        }
    }
}

proof fn lemma_first_some_found<A, B>(s: Seq<A>, f: spec_fn(A) -> Option<B>, b: B)
    requires
        first_some(s, f) == Some(b),
    ensures
        exists|i: int| 0 <= i < s.len() && f(s[i]) == Some(b),
    decreases s.len(),
{
    if f(s[0]) is None {
        lemma_first_some_found(s.drop_first(), f, b);
        let i = choose|i: int| 0 <= i < s.drop_first().len() && f(s.drop_first()[i]) == Some(b);
        assert(s[i + 1] == s.drop_first()[i]);
    }
}

proof fn lemma_first_some_none<A, B>(s: Seq<A>, f: spec_fn(A) -> Option<B>, i: int)
    requires
        first_some(s, f) is None,
        0 <= i < s.len(),
    ensures
        f(s[i]) is None,
    decreases s.len(),
{
    if i > 0 {
        lemma_first_some_none(s.drop_first(), f, i - 1);
        assert(s.drop_first()[i - 1] == s[i]);
    }
}

/// In a valid contract every shipped binding names only controls the device has.
proof fn lemma_shipped_present(c: ContractView, context: Seq<char>, action: Seq<char>, b: BindingView)
    requires
        contract_check(c) is Ok,
        first_some(c.4, same_slot(context, action)) == Some(b),
    ensures
        all_present(b.1, positions(c.3)),
{
    let pos = positions(c.3);
    assert(first_some(c.4, mapping_fault(pos)) is None);
    lemma_first_some_found(c.4, same_slot(context, action), b);
    let i = choose|i: int| 0 <= i < c.4.len() && same_slot(context, action)(c.4[i]) == Some(b);
    lemma_first_some_none(c.4, mapping_fault(pos), i);
    assert(c.4[i].2 == b);
}

proof fn lemma_walk_events(c: ContractView, stored: Seq<char>, ms: Seq<MappingView>)
    requires
        contract_check(c) is Ok,
    ensures
        reresolve_all(c, stored, ms) matches Ok((res, evs)) ==> ({
            let miss = missing_mappings(positions(c.3), ms);
            &&& evs.len() == miss.len()
            &&& forall|i: int| 0 <= i < evs.len() ==> evs[i].1 == miss[i].1 && evs[i].4 == miss[i].2 && evs[i].4 != evs[i].5
                && shipped_for(c.4, miss[i], evs[i].5)
        }),
    decreases ms.len(),
{
    if ms.len() > 0 {
        lemma_walk_events(c, stored, ms.drop_last());
        let m = ms.last();
        let pos = positions(c.3);
        if let Ok((res, evs)) = reresolve_all(c, stored, ms) {
            let (done0, evs0) = reresolve_all(c, stored, ms.drop_last())->Ok_0;
            let miss0 = missing_mappings(pos, ms.drop_last());
            if all_present(m.2.1, pos) {
                assert(!(exists|k: int| 0 <= k < m.2.1.len() && !pos.contains(#[trigger] m.2.1[k])));
                assert(evs == evs0);
            } else {
                let k = choose|k: int| 0 <= k < m.2.1.len() && !pos.contains(m.2.1[k]);
                assert(exists|k: int| 0 <= k < m.2.1.len() && !pos.contains(#[trigger] m.2.1[k]));
                let b = first_some(c.4, same_slot(m.0, m.1))->0;
                lemma_shipped_present(c, m.0, m.1, b);
                lemma_first_some_found(c.4, same_slot(m.0, m.1), b);
                let q = choose|q: int| 0 <= q < c.4.len() && same_slot(m.0, m.1)(c.4[q]) == Some(b);
                assert(c.4[q].0 == m.0 && c.4[q].1 == m.1 && c.4[q].2 == b);
                assert(evs == evs0.push(rerouted(m.1, stored, c.1, m.2, b)));
                assert(m.2 != b) by {
                    if m.2 == b {
                        assert(pos.contains(b.1[k]));
                    }
                }
            }
        }
    }
}

proof fn lemma_restore_changes(c: ContractView, stored: Seq<char>, ms: Seq<MappingView>)
    ensures
        forall|i: int| 0 <= i < restore_events(c, stored, ms).len() ==> #[trigger] restore_events(c, stored, ms)[i].4
            != restore_events(c, stored, ms)[i].5,
    decreases ms.len(),
{
    if ms.len() > 0 {
        lemma_restore_changes(c, stored, ms.drop_last());
        let prior = restore_events(c, stored, ms.drop_last());
        let all = restore_events(c, stored, ms);
        assert forall|i: int| 0 <= i < all.len() implies #[trigger] all[i].4 != all[i].5 by {
            if i < prior.len() {
                assert(all[i] == prior[i]);
            }
        }
    }
}

/// Loading a carried map reports first, in order, one re-resolution per carried mapping whose
/// binding names a control the device lacks: it names that mapping's action, gives that
/// mapping's own binding as the old binding, and puts in force a different binding, one that the
/// shipped map gives the same context and action. Every event
/// (a collision that restores the shipped map included) changes the binding it reports.
pub proof fn law_reresolutions_report_the_carried_binding(c: ContractView, stored: Seq<char>, ms: Seq<MappingView>)
    requires
        contract_check(c) is Ok,
    ensures
        persisted_outcome(c, Some((stored, ms))) matches Ok((res, evs)) ==> ({
            let miss = missing_mappings(positions(c.3), ms);
            &&& miss.len() <= evs.len()
            &&& forall|i: int| 0 <= i < miss.len() ==> evs[i].1 == miss[i].1 && evs[i].4 == miss[i].2 && shipped_for(
                c.4,
                miss[i],
                evs[i].5,
            )
            &&& forall|i: int| 0 <= i < evs.len() ==> evs[i].4 != evs[i].5
        }),
{
    lemma_walk_events(c, stored, ms);
    if let Ok((res0, evs0)) = reresolve_all(c, stored, ms) {
        lemma_restore_changes(c, stored, res0);
        if let Ok((res, evs)) = persisted_outcome(c, Some((stored, ms))) {
            if evs != evs0 {
                let r = restore_events(c, stored, res0);
                assert(evs == evs0 + r);
                assert forall|i: int| 0 <= i < evs.len() implies evs[i].4 != evs[i].5 by {
                    if i >= evs0.len() {
                        assert(evs[i] == r[i - evs0.len()]);
                    }
                }
            }
        }
    }
}

} // verus!
