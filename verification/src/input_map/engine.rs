//! Transactional remapping: a remap is previewed, then confirmed (persisted, then put in force
//! and reported) or rolled back. Nothing a failed or abandoned transaction touched becomes
//! visible, and the map in force always keeps the protected actions reachable.
use vstd::prelude::*;
use crate::input_map::binding::{binding_problem, fault, fault_absent, fault_binding, fault_collision, fault_unknown, Binding, BindingView, FaultView, MapError};
use crate::input_map::contract::{
    all_present, candidate_check, clash_of, controls_present, first_some, maps_view, positions, validate_remap_collision,
    validate_candidate, Mapping, MappingView,
};
use crate::input_map::effective::{copy_mappings, glyphs_updated, slot_at, slot_index, EffectiveMap, RemapStore, StoreCall};
use crate::text::string_of;

verus! {

/// A remap awaiting confirmation.
#[derive(Clone, Debug, PartialEq, Eq)]
pub struct RemapPreview {
    pub context: String,
    pub action: String,
    pub old_binding: Binding,
    pub candidate_binding: Binding,
}

/// A preview as plain values: context, action, old binding, candidate binding.
pub type PreviewView = (Seq<char>, Seq<char>, BindingView, BindingView);

impl View for RemapPreview {
    type V = PreviewView;

    open spec fn view(&self) -> PreviewView {
        (self.context@, self.action@, self.old_binding@, self.candidate_binding@)
    }
}

/// Why a transaction was abandoned.
#[derive(Clone, Copy, Debug, PartialEq, Eq, Structural)]
pub enum RollbackReason {
    Timeout,
    Interrupted,
    Reverted,
}

/// How a transaction ended.
#[derive(Clone, Copy, Debug, PartialEq, Eq, Structural)]
pub enum TransactionOutcome {
    Committed,
    RolledBack(RollbackReason),
}

/// `ms` with the candidate of `p` in the first mapping of its slot.
pub open spec fn applied(ms: Seq<MappingView>, p: PreviewView) -> Seq<MappingView> {
    if exists|i: int| slot_at(ms, p.0, p.1, i) {
        let i = choose|i: int| slot_at(ms, p.0, p.1, i);
        ms.update(i, (p.0, p.1, p.3))
    } else {
        ms
    }
}

/// The preview a remap of (`context`, `action`) to `candidate` opens on a map with mappings
/// `ms` over positions `pos`, or the first reason it is refused.
pub open spec fn begin_outcome(
    ms: Seq<MappingView>,
    pos: Seq<Seq<char>>,
    pending: bool,
    context: Seq<char>,
    action: Seq<char>,
    candidate: BindingView,
) -> Result<PreviewView, FaultView> {
    if pending {
        Err(fault(6, Seq::empty()))
    } else {
        match binding_problem(candidate) {
            Some(msg) => Err(fault_binding(msg)),
            None => if !all_present(candidate.1, pos) {
                Err(fault_absent(action))
            } else if !exists|i: int| slot_at(ms, context, action, i) {
                Err(fault_unknown(context, action))
            } else {
                let i = choose|i: int| slot_at(ms, context, action, i);
                let p = (context, action, ms[i].2, candidate);
                match first_some(ms, clash_of((context, action, candidate))) {
                    Some(c) => Err(fault_collision(c.0, c.1)),
                    None => match candidate_check(applied(ms, p), pos) {
                        Err(f) => Err(f),
                        Ok(()) => Ok(p),
                    },
                }
            },
        }
    }
}

/// The engine that runs remap transactions over one effective map and its store.
pub struct RemapEngine<S> {
    map: EffectiveMap,
    store: S,
    pending: Option<RemapPreview>,
}

fn copy_preview(p: &RemapPreview) -> (r: RemapPreview)
    ensures
        r@ == p@,
{
    RemapPreview {
        context: string_of(p.context.as_str()),
        action: string_of(p.action.as_str()),
        old_binding: p.old_binding.copy(),
        candidate_binding: p.candidate_binding.copy(),
    }
}

/// The mappings with the candidate of `p` in the first mapping of its slot.
fn apply_preview(ms: &Vec<Mapping>, p: &RemapPreview) -> (r: Vec<Mapping>)
    ensures
        maps_view(r@) == applied(maps_view(ms@), p@),
{
    let mut out = copy_mappings(ms.as_slice());
    match slot_index(out.as_slice(), p.context.as_str(), p.action.as_str()) {
        Some(i) => {
            let ghost before = out@;
            let m = Mapping { context: string_of(p.context.as_str()), action: string_of(p.action.as_str()), binding: p.candidate_binding.copy() };
            out.set(i, m);
            proof {
                let v = maps_view(ms@);
                let k = choose|k: int| slot_at(v, p@.0, p@.1, k);
                if k < i {
                    assert(!(v[k].0 == p@.0 && v[k].1 == p@.1));
                } else if i < k {
                    assert(!(v[i as int].0 == p@.0 && v[i as int].1 == p@.1));
                }
                assert(maps_view(out@) =~= v.update(i as int, (p@.0, p@.1, p@.3)));
            }
        },
        None => {},
    }
    out
}

impl<S: RemapStore> RemapEngine<S> {
    /// The effective map the engine works on.
    pub closed spec fn map_view(&self) -> EffectiveMap {
        self.map
    }

    /// The open transaction, if any.
    pub closed spec fn pending_view(&self) -> Option<PreviewView> {
        match self.pending {
            Some(p) => Some(p@),
            None => None,
        }
    }

    /// The engine's store.
    pub closed spec fn store_view(&self) -> S {
        self.store
    }

    /// An engine over `map` and `store` with no transaction open.
    pub fn new(map: EffectiveMap, store: S) -> (e: RemapEngine<S>)
        ensures
            e.map_view() == map,
            e.store_view() == store,
            e.pending_view() is None,
    {
        RemapEngine { map, store, pending: None }
    }

    /// The effective map.
    pub fn map(&self) -> (m: &EffectiveMap)
        ensures
            *m == self.map_view(),
    {
        &self.map
    }

    /// The effective map, for draining its events.
    pub fn map_mut(&mut self) -> (m: &mut EffectiveMap)
        ensures
            *m == old(self).map_view(),
            final(self).map_view() == *final(m),
            final(self).pending_view() == old(self).pending_view(),
            final(self).store_view() == old(self).store_view(),
    {
        &mut self.map
    }

    /// Open a remap of (`context`, `action`) to `candidate` (see [`begin_outcome`]). A refused
    /// remap leaves the engine as it was; an accepted one is pending, not yet in force.
    pub fn begin(&mut self, context: &str, action: &str, candidate: Binding) -> (r: Result<RemapPreview, MapError>)
        requires
            old(self).map_view().wf(),
        ensures
            final(self).map_view() == old(self).map_view(),
            final(self).store_view() == old(self).store_view(),
            match begin_outcome(
                old(self).map_view().current(),
                positions(old(self).map_view().controls()),
                old(self).pending_view() is Some,
                context@,
                action@,
                candidate@,
            ) {
                Err(f) => r matches Err(e) && e@ == f && final(self).pending_view() == old(self).pending_view(),
                Ok(p) => r matches Ok(x) && x@ == p && final(self).pending_view() == Some(p),
            },
    {
        if self.pending.is_some() {
            return Err(MapError::TransactionActive);
        }
        match candidate.validate() {
            Ok(()) => {},
            Err(e) => {
                return Err(e);
            },
        }
        let pos = self.map.positions();
        if !controls_present(&candidate, &pos) {
            return Err(MapError::AbsentControl { action: string_of(action) });
        }
        let index = match slot_index(self.map.mappings(), context, action) {
            Some(i) => i,
            None => {
                return Err(MapError::UnknownAction { context: string_of(context), action: string_of(action) });
            },
        };
        let ghost ms = self.map_view().current();
        proof {
            let k = choose|k: int| slot_at(ms, context@, action@, k);
            if k < index {
                assert(!(ms[k].0 == context@ && ms[k].1 == action@));
            } else if index < k {
                assert(!(ms[index as int].0 == context@ && ms[index as int].1 == action@));
            }
        }
        let preview = RemapPreview {
            context: string_of(context),
            action: string_of(action),
            old_binding: self.map.mappings()[index].binding.copy(),
            candidate_binding: candidate,
        };
        let current = copy_mappings(self.map.mappings());
        match validate_remap_collision(&current, context, action, &preview.candidate_binding) {
            Ok(()) => {},
            Err(e) => {
                return Err(e);
            },
        }
        let prospective = apply_preview(&current, &preview);
        match validate_candidate(&prospective, &pos) {
            Ok(()) => {},
            Err(e) => {
                return Err(e);
            },
        }
        self.pending = Some(copy_preview(&preview));
        Ok(preview)
    }

    /// Confirm the pending remap: persist it, then put it in force and report the action's
    /// glyph change. The save is the commit point: when it fails, the map and its events are
    /// as they were. Either way the transaction is closed.
    pub fn confirm(&mut self) -> (r: Result<TransactionOutcome, MapError>)
        requires
            old(self).map_view().wf(),
        ensures
            final(self).map_view().wf(),
            final(self).pending_view() is None,
            match old(self).pending_view() {
                None => r matches Err(e) && e@ == fault(7, Seq::empty()) && final(self).map_view() == old(self).map_view()
                    && final(self).store_view() == old(self).store_view(),
                Some(p) => {
                    let m = old(self).map_view();
                    let next = applied(m.current(), p);
                    match candidate_check(next, positions(m.controls())) {
                        Err(f) => r matches Err(e) && e@ == f && final(self).map_view() == m
                            && final(self).store_view() == old(self).store_view(),
                        Ok(()) => {
                            let h0 = old(self).store_view().log().calls();
                            let h = final(self).store_view().log().calls();
                            &&& h.len() == h0.len() + 1
                            &&& h.drop_last() == h0
                            &&& h.last() matches StoreCall::Save(id, saved, answer)
                            &&& id == m.device() && saved == next
                            &&& match answer {
                                Ok(()) => r == Ok::<TransactionOutcome, MapError>(TransactionOutcome::Committed)
                                    && final(self).map_view().current() == next
                                    && final(self).map_view().pending_events() == m.pending_events().push(
                                    glyphs_updated(m.device(), seq![p.1]),
                                ) && final(self).map_view().device() == m.device() && final(self).map_view().controls()
                                    == m.controls() && final(self).map_view().shipped() == m.shipped(),
                                Err(e) => r == Err::<TransactionOutcome, MapError>(e) && final(self).map_view() == m,
                            }
                        },
                    }
                },
            },
    {
        let preview = match self.pending.take() {
            Some(p) => p,
            None => {
                return Err(MapError::NoTransaction);
            },
        };
        let current = copy_mappings(self.map.mappings());
        let prospective = apply_preview(&current, &preview);
        let pos = self.map.positions();
        match validate_candidate(&prospective, &pos) {
            Ok(()) => {},
            Err(e) => {
                return Err(e);
            },
        }
        let ghost h0 = self.store.log().calls();
        let saved = self.store.save(self.map.device_id(), prospective.as_slice());
        proof {
            assert(self.store.log().calls().drop_last() =~= h0);
        }
        match saved {
            Ok(()) => {},
            Err(e) => {
                return Err(e);
            },
        }
        self.map.commit(prospective, preview.action.as_str());
        Ok(TransactionOutcome::Committed)
    }

    /// Abandon the pending remap because its confirmation window ran out.
    pub fn timeout(&mut self) -> (r: Result<TransactionOutcome, MapError>)
        ensures
            final(self).map_view() == old(self).map_view(),
            final(self).store_view() == old(self).store_view(),
            final(self).pending_view() is None,
            old(self).pending_view() is None ==> (r matches Err(e) && e@ == fault(7, Seq::empty())),
            old(self).pending_view() is Some ==> r == Ok::<TransactionOutcome, MapError>(TransactionOutcome::RolledBack(RollbackReason::Timeout)),
    {
        self.rollback(RollbackReason::Timeout)
    }

    /// Abandon the pending remap because something interrupted it.
    pub fn interrupt(&mut self) -> (r: Result<TransactionOutcome, MapError>)
        ensures
            final(self).map_view() == old(self).map_view(),
            final(self).store_view() == old(self).store_view(),
            final(self).pending_view() is None,
            old(self).pending_view() is None ==> (r matches Err(e) && e@ == fault(7, Seq::empty())),
            old(self).pending_view() is Some ==> r == Ok::<TransactionOutcome, MapError>(TransactionOutcome::RolledBack(RollbackReason::Interrupted)),
    {
        self.rollback(RollbackReason::Interrupted)
    }

    /// Abandon the pending remap at the user's request.
    pub fn revert(&mut self) -> (r: Result<TransactionOutcome, MapError>)
        ensures
            final(self).map_view() == old(self).map_view(),
            final(self).store_view() == old(self).store_view(),
            final(self).pending_view() is None,
            old(self).pending_view() is None ==> (r matches Err(e) && e@ == fault(7, Seq::empty())),
            old(self).pending_view() is Some ==> r == Ok::<TransactionOutcome, MapError>(TransactionOutcome::RolledBack(RollbackReason::Reverted)),
    {
        self.rollback(RollbackReason::Reverted)
    }

    fn rollback(&mut self, reason: RollbackReason) -> (r: Result<TransactionOutcome, MapError>)
        ensures
            final(self).map_view() == old(self).map_view(),
            final(self).store_view() == old(self).store_view(),
            final(self).pending_view() is None,
            old(self).pending_view() is None ==> (r matches Err(e) && e@ == fault(7, Seq::empty())),
            old(self).pending_view() is Some ==> r == Ok::<TransactionOutcome, MapError>(TransactionOutcome::RolledBack(reason)),
    {
        match self.pending.take() {
            Some(_) => Ok(TransactionOutcome::RolledBack(reason)),
            None => Err(MapError::NoTransaction),
        }
    }
}

} // verus!
