//! The rules of the shell's preference boundary over the persistent preference store: how
//! store values and port values translate, which submissions are accepted, how store and
//! daemon failures surface, and which preferences a fresh observation reports as changed.
//! Stored values are never reported as applied: nothing here observes a runtime applying them.
use vstd::prelude::*;
use crate::input_map::contract::{first_some, lemma_first_some_ends, lemma_first_some_step};
use crate::ports::{ChangeAuthority, EffectivePreference, PreferenceChange, PreferenceChangeResult, PreferenceError, PreferenceKey, PreferenceValue};
use crate::prefs::error::PrefError;
use crate::prefs::schema::{
    admissible, enum_view, is_row, kind_view, schema, schema_defaults, schema_index, schema_keys, schema_kinds, spec, validate,
    value_view, KindView, PrefKind, PrefValue, ValueView,
};
use crate::prefs::store::JsonField;
use crate::prefsd::{ClientError, ErrorKind};
use crate::text::{str_eq, string_of};

verus! {

/// The authority name of the standard settings control plane.
pub const USER_AUTHORITY: &'static str = "user";

/// A port value as plain values, in the same shape as a store value's view.
pub open spec fn port_view(v: PreferenceValue) -> ValueView {
    match v {
        PreferenceValue::Bool(b) => (0, b, 0, Seq::empty()),
        PreferenceValue::Integer(n) => (1, false, n, Seq::empty()),
        PreferenceValue::Text(s) => (2, false, 0, s@),
    }
}

/// A store value as a port value.
pub fn to_port_value(value: PrefValue) -> (r: PreferenceValue)
    ensures
        port_view(r) == value_view(value),
{
    match value {
        PrefValue::Bool(b) => PreferenceValue::Bool(b),
        PrefValue::Scalar(n) => PreferenceValue::Integer(n),
        PrefValue::Enum(e) => PreferenceValue::Text(string_of(e)),
    }
}

/// The store value a port value stands for under `key`, before validation: text is a value
/// only for an enum key that lists it.
pub open spec fn port_candidate(key: Seq<char>, v: PreferenceValue) -> Option<ValueView> {
    match v {
        PreferenceValue::Text(t) => match schema_index(key) {
            Some(i) => if schema_kinds()[i].0 == 2 && schema_kinds()[i].3.contains(t@) {
                Some(enum_view(t@))
            } else {
                None
            },
            None => None,
        },
        _ => Some(port_view(v)),
    }
}

/// The validated store value a port value gives for `key`, or `None` when it is invalid.
pub open spec fn port_value_of(key: Seq<char>, v: PreferenceValue) -> Option<ValueView> {
    match port_candidate(key, v) {
        None => None,
        Some(c) => match schema_index(key) {
            None => None,
            Some(i) => if admissible(schema_kinds()[i], c) {
                Some(c)
            } else {
                None
            },
        },
    }
}

/// A port value as a validated store value for `key`; anything invalid is `InvalidValue`.
pub fn from_port_value(key: &str, value: &PreferenceValue) -> (r: Result<PrefValue, PreferenceError>)
    ensures
        match port_value_of(key@, *value) {
            Some(c) => r matches Ok(x) && value_view(x) == c,
            None => r == Err::<PrefValue, PreferenceError>(PreferenceError::InvalidValue),
        },
{
    let candidate = match value {
        PreferenceValue::Bool(b) => PrefValue::Bool(*b),
        PreferenceValue::Integer(n) => PrefValue::Scalar(*n),
        PreferenceValue::Text(t) => {
            let s = match spec(key) {
                Some(s) => s,
                None => {
                    return Err(PreferenceError::InvalidValue);
                },
            };
            match s.kind {
                PrefKind::Enum { variants } => {
                    let ghost m = variants@.map_values(|v: &'static str| v@);
                    let mut i: usize = 0;
                    let mut found: Option<&'static str> = None;
                    while i < variants.len()
                        invariant
                            i <= variants@.len(),
                            m == variants@.map_values(|v: &'static str| v@),
                            found is None ==> forall|j: int| 0 <= j < i ==> variants@[j]@ != t@,
                            found matches Some(f) ==> f@ == t@ && m.contains(t@),
                        decreases variants@.len() - i,
                    {
                        if found.is_none() && str_eq(variants[i], t.as_str()) {
                            assert(m[i as int] == t@);
                            found = Some(variants[i]);
                        }
                        i += 1;
                    }
                    match found {
                        Some(f) => PrefValue::Enum(f),
                        None => {
                            proof {
                                if m.contains(t@) {
                                    let j = choose|j: int| 0 <= j < m.len() && m[j] == t@;
                                    assert(variants@[j]@ == t@);
                                }
                            }
                            return Err(PreferenceError::InvalidValue);
                        },
                    }
                },
                _ => {
                    return Err(PreferenceError::InvalidValue);
                },
            }
        },
    };
    match validate(key, candidate) {
        Ok(v) => Ok(v),
        Err(_) => Err(PreferenceError::InvalidValue),
    }
}

/// How a store failure surfaces at the port: a bad key or value is the caller's, anything
/// else means the backend is unavailable.
pub open spec fn backend_failure(e: PrefError) -> PreferenceError {
    match e {
        PrefError::UnknownKey(_) | PrefError::Type { .. } | PrefError::Range { .. } => PreferenceError::InvalidValue,
        _ => PreferenceError::BackendUnavailable,
    }
}

/// Map a store failure to the port's error (see [`backend_failure`]).
pub fn map_backend_error(error: PrefError) -> (r: PreferenceError)
    ensures
        r == backend_failure(error),
{
    match error {
        PrefError::UnknownKey(_) | PrefError::Type { .. } | PrefError::Range { .. } => PreferenceError::InvalidValue,
        PrefError::Io(_) | PrefError::Parse(_) | PrefError::UnsupportedVersion { .. } => PreferenceError::BackendUnavailable,
    }
}

/// A failed daemon read means the backend is unavailable.
pub fn map_client_error(error: ClientError) -> (r: PreferenceError)
    ensures
        r == PreferenceError::BackendUnavailable,
{
    PreferenceError::BackendUnavailable
}

/// A failed daemon write: only the daemon's own verdict that the value is invalid is the
/// caller's fault; every other failure (including an unknown or missing kind) fails toward
/// the infrastructure.
pub fn map_client_set_error(error: ClientError) -> (r: PreferenceError)
    ensures
        r == (if error matches ClientError::Remote { kind: Some(ErrorKind::InvalidValue), .. } {
            PreferenceError::InvalidValue
        } else {
            PreferenceError::BackendUnavailable
        }),
{
    match error {
        ClientError::Remote { kind: Some(ErrorKind::InvalidValue), .. } => PreferenceError::InvalidValue,
        other => map_client_error(other),
    }
}

/// The port value a daemon's JSON value stands for: a bool, an integer that fits `i64`, or a
/// string; anything else is not a preference value.
pub open spec fn json_port_value(raw: JsonField) -> Option<PreferenceValue> {
    match raw {
        JsonField::Bool(b) => Some(PreferenceValue::Bool(b)),
        JsonField::Integer(n) => Some(PreferenceValue::Integer(n)),
        JsonField::Text(t) => Some(PreferenceValue::Text(t)),
        _ => None,
    }
}

/// A daemon's JSON value for `key` as a validated store value; anything the daemon should
/// never send means the backend is unavailable.
pub fn json_to_pref(key: &str, raw: &JsonField) -> (r: Result<PrefValue, PreferenceError>)
    ensures
        match json_port_value(*raw) {
            Some(pv) => match port_value_of(key@, pv) {
                Some(c) => r matches Ok(x) && value_view(x) == c,
                None => r == Err::<PrefValue, PreferenceError>(PreferenceError::BackendUnavailable),
            },
            None => r == Err::<PrefValue, PreferenceError>(PreferenceError::BackendUnavailable),
        },
{
    let port_value = match raw {
        JsonField::Bool(b) => PreferenceValue::Bool(*b),
        JsonField::Integer(n) => PreferenceValue::Integer(*n),
        JsonField::Text(t) => PreferenceValue::Text(string_of(t.as_str())),
        _ => {
            return Err(PreferenceError::BackendUnavailable);
        },
    };
    match from_port_value(key, &port_value) {
        Ok(v) => Ok(v),
        Err(_) => Err(PreferenceError::BackendUnavailable),
    }
}

/// What the port reports for a known key with stored value `stored`: nothing observes a
/// runtime applying it, so it is not applied and the effective value stays the default.
pub fn effective_preference(key: &str, stored: PrefValue) -> (r: EffectivePreference)
    requires
        schema_index(key@) is Some,
    ensures
        r.key.0@ == key@,
        port_view(r.effective) == schema_defaults()[schema_index(key@)->0],
        port_view(r.stored) == value_view(stored),
        !r.applied,
{
    let default = match spec(key) {
        Some(s) => s.default,
        None => {
            proof {
                assert(false);
            }
            stored
        },
    };
    EffectivePreference {
        key: PreferenceKey(string_of(key)),
        effective: to_port_value(default),
        stored: to_port_value(stored),
        applied: false,
    }
}

/// What the port does with a submission it has accepted, or how it answers one it has not.
#[derive(Debug)]
pub enum Admission {
    /// Answered without touching the store.
    Refuse(PreferenceChangeResult),
    /// Store this validated value.
    Store(PrefValue),
}

/// Gate a submission: only the allowed authority may change preferences, only schema keys
/// can be changed, and only valid values are stored.
pub fn gate_submission(allowed: &ChangeAuthority, change: &PreferenceChange) -> (r: Result<Admission, PreferenceError>)
    ensures
        change.authority.0@ != allowed.0@ ==> (r matches Ok(Admission::Refuse(x)) && x == PreferenceChangeResult::Unauthorized),
        change.authority.0@ == allowed.0@ && schema_index(change.key.0@) is None ==> (r matches Ok(Admission::Refuse(x))
            && x == PreferenceChangeResult::UnsupportedKey),
        change.authority.0@ == allowed.0@ && schema_index(change.key.0@) is Some ==> match port_value_of(
            change.key.0@,
            change.value,
        ) {
            Some(c) => r matches Ok(Admission::Store(v)) && value_view(v) == c,
            None => r == Err::<Admission, PreferenceError>(PreferenceError::InvalidValue),
        },
{
    if !str_eq(change.authority.0.as_str(), allowed.0.as_str()) {
        return Ok(Admission::Refuse(PreferenceChangeResult::Unauthorized));
    }
    if spec(change.key.0.as_str()).is_none() {
        return Ok(Admission::Refuse(PreferenceChangeResult::UnsupportedKey));
    }
    match from_port_value(change.key.0.as_str(), &change.value) {
        Ok(v) => Ok(Admission::Store(v)),
        Err(e) => Err(e),
    }
}

/// The value of the first entry for `key` in a snapshot.
pub open spec fn entry_for(key: Seq<char>) -> spec_fn((Seq<char>, ValueView)) -> Option<ValueView> {
    |e: (Seq<char>, ValueView)|
        if e.0 == key {
            Some(e.1)
        } else {
            None
        }
}

pub open spec fn snapshot_view(s: Seq<(String, PrefValue)>) -> Seq<(Seq<char>, ValueView)> {
    s.map_values(|e: (String, PrefValue)| (e.0@, value_view(e.1)))
}

/// The schema keys among the first `k` whose value differs between two snapshots, with the
/// fresh value, in schema order; `None` when either snapshot lacks one of those keys.
pub open spec fn moved(old: Seq<(Seq<char>, ValueView)>, fresh: Seq<(Seq<char>, ValueView)>, k: nat) -> Option<Seq<(Seq<char>, ValueView)>>
    decreases k,
{
    if k == 0 {
        Some(Seq::empty())
    } else {
        match moved(old, fresh, (k - 1) as nat) {
            None => None,
            Some(acc) => {
                let key = schema_keys()[k - 1];
                match (first_some(old, entry_for(key)), first_some(fresh, entry_for(key))) {
                    (Some(o), Some(n)) => Some(if o != n {
                        acc.push((key, n))
                    } else {
                        acc
                    }),
                    _ => None,
                }
            },
        }
    }
}

fn snapshot_get(s: &Vec<(String, PrefValue)>, key: &str) -> (r: Option<PrefValue>)
    ensures
        match first_some(snapshot_view(s@), entry_for(key@)) {
            Some(v) => r matches Some(x) && value_view(x) == v,
            None => r is None,
        },
{
    let ghost v = snapshot_view(s@);
    let ghost f = entry_for(key@);
    proof {
        lemma_first_some_ends(v, f);
    }
    let mut i: usize = 0;
    while i < s.len()
        invariant
            v == snapshot_view(s@),
            f == entry_for(key@),
            i <= s@.len(),
            first_some(v, f) == first_some(v.skip(i as int), f),
        decreases s@.len() - i,
    {
        proof {
            lemma_first_some_step(v, f, i as int);
        }
        assert(v[i as int] == (s@[i as int].0@, value_view(s@[i as int].1)));
        if str_eq(s[i].0.as_str(), key) {
            return Some(s[i].1);
        }
        i += 1;
    }
    proof {
        lemma_first_some_ends(v, f);
    }
    None
}

/// What a fresh observation reports: one not-applied preference for each schema key whose
/// value moved since the last snapshot, in schema order; a snapshot missing a schema key means
/// the backend is unavailable.
pub fn changed_preferences(old: &Vec<(String, PrefValue)>, fresh: &Vec<(String, PrefValue)>) -> (r: Result<Vec<EffectivePreference>, PreferenceError>)
    ensures
        match moved(snapshot_view(old@), snapshot_view(fresh@), 7) {
            None => r == Err::<Vec<EffectivePreference>, PreferenceError>(PreferenceError::BackendUnavailable),
            Some(m) => r matches Ok(out) && out@.len() == m.len() && forall|j: int|
                0 <= j < m.len() ==> (#[trigger] out@[j]).key.0@ == m[j].0 && port_view(out@[j].stored) == m[j].1
                    && !out@[j].applied,
        },
{
    let rows = schema();
    let ghost ov = snapshot_view(old@);
    let ghost fv = snapshot_view(fresh@);
    let mut out: Vec<EffectivePreference> = Vec::new();
    let mut i: usize = 0;
    while i < 7
        invariant
            rows@.len() == 7,
            forall|j: int| 0 <= j < 7 ==> is_row(#[trigger] rows@[j], j),
            ov == snapshot_view(old@),
            fv == snapshot_view(fresh@),
            i <= 7,
            moved(ov, fv, i as nat) matches Some(m) && out@.len() == m.len() && forall|j: int|
                0 <= j < m.len() ==> (#[trigger] out@[j]).key.0@ == m[j].0 && port_view(out@[j].stored) == m[j].1
                    && !out@[j].applied,
        decreases 7 - i,
    {
        let key = rows[i].key;
        assert(key@ == schema_keys()[i as int]);
        let o = snapshot_get(old, key);
        let n = snapshot_get(fresh, key);
        let ghost before = out@;
        match (o, n) {
            (Some(o), Some(n)) => {
                if !crate::prefs::document::same_value(&o, &n) {
                    proof {
                        crate::prefs::schema::lemma_keys_distinct();
                        assert(schema_index(key@) == Some(i as int));
                    }
                    out.push(effective_preference(key, n));
                }
            },
            _ => {
                proof {
                    assert(moved(ov, fv, (i + 1) as nat) is None);
                    if i < 6 {
                        lemma_moved_none_persists(ov, fv, (i + 1) as nat, 7);
                    }
                }
                return Err(PreferenceError::BackendUnavailable);
            },
        }
        i += 1;
    }
    Ok(out)
}

proof fn lemma_moved_none_persists(old: Seq<(Seq<char>, ValueView)>, fresh: Seq<(Seq<char>, ValueView)>, k: nat, n: nat)
    requires
        k <= n,
        moved(old, fresh, k) is None,
    ensures
        moved(old, fresh, n) is None,
    decreases n - k,
{
    if k < n {
        lemma_moved_none_persists(old, fresh, k, (n - 1) as nat);
    }
}

} // verus!
