//! The in-memory preference document: the effective value of every preference (an explicitly
//! stored value, else the schema default), a read API, and a set seam that reports what
//! changed. Unknown keys met on load are preserved, so a newer writer's key survives an older
//! reader's round trip.
use vstd::prelude::*;
use crate::prefs::error::PrefError;
use crate::prefs::schema::{
    kind_name_spec, schema_defaults, schema_index, schema_kinds, schema_keys, spec, validate,
    validation, value_view, PrefValue, ValueView,
};
use crate::prefs::store::version_key;
use crate::prefs::schema::SCHEMA_VERSION;
use crate::keyed::{keys_distinct, law_read_after_store, lookup, stored_with};
use crate::text::{str_eq, string_of};

verus! {

#[verifier::external_type_specification]
#[verifier::external_body]
pub struct ExJsonValue(serde_json::Value);

/// Where an effective preference value came from.
#[derive(Debug, Clone, Copy, PartialEq, Eq, Structural)]
pub enum Source {
    /// No stored value; the schema default is in effect.
    Default,
    /// A value explicitly written to the store is in effect.
    Stored,
}

impl Source {
    /// Lowercase label for display.
    pub fn label(&self) -> (l: &'static str)
        ensures
            l@ == match self {
                Source::Default => "default"@,
                Source::Stored => "stored"@,
            },
    {
        match self {
            Source::Default => "default",
            Source::Stored => "stored",
        }
    }
}

/// What a write changed: the key and its effective value before and after.
#[derive(Debug, Clone, PartialEq, Eq)]
pub struct PrefChange {
    pub key: String,
    pub old: PrefValue,
    pub new: PrefValue,
}

/// The current-state preference document: the explicitly stored known keys, and the unknown
/// keys preserved from the stored document.
#[derive(Debug, PartialEq)]
pub struct Prefs {
    pub(crate) stored: Vec<(String, PrefValue)>,
    pub(crate) extra: Vec<(String, serde_json::Value)>,
}

/// The effective value of a known key: its stored value, else the schema default.
pub open spec fn effective(s: Seq<(Seq<char>, ValueView)>, key: Seq<char>) -> ValueView {
    match lookup(s, key) {
        Some(v) => v,
        None => schema_defaults()[schema_index(key)->0],
    }
}

impl Prefs {
    /// The stored known keys and their values.
    pub closed spec fn stored_view(&self) -> Seq<(Seq<char>, ValueView)> {
        self.stored@.map_values(|p: (String, PrefValue)| (p.0@, value_view(p.1)))
    }

    /// The preserved unknown keys.
    /// The preserved unknown entries (key and raw JSON value), in order.
    pub closed spec fn extra_entries(&self) -> Seq<(String, serde_json::Value)> {
        self.extra@
    }

    pub closed spec fn extra_keys(&self) -> Seq<Seq<char>> {
        self.extra@.map_values(|p: (String, serde_json::Value)| p.0@)
    }

    /// Every stored key is distinct and known.
    pub closed spec fn wf(&self) -> bool {
        &&& keys_distinct(self.stored_view())
        &&& forall|i: int| 0 <= i < self.stored@.len() ==> schema_index(#[trigger] self.stored@[i].0@) is Some
    }

    /// A well-formed document stores each key once.
    pub proof fn lemma_distinct(&self)
        requires
            self.wf(),
        ensures
            keys_distinct(self.stored_view()),
    {
    }

    /// An all-defaults document (the state of a missing store file).
    pub fn defaults() -> (p: Prefs)
        ensures
            p.wf(),
            p.stored_view() == Seq::<(Seq<char>, ValueView)>::empty(),
            p.extra_keys() == Seq::<Seq<char>>::empty(),
            p.extra_entries() == Seq::<(String, serde_json::Value)>::empty(),
    {
        let p = Prefs { stored: Vec::new(), extra: Vec::new() };
        assert(p.stored_view() =~= Seq::<(Seq<char>, ValueView)>::empty());
        assert(p.extra_keys() =~= Seq::<Seq<char>>::empty());
        p
    }

    fn find(&self, key: &str) -> (r: Option<usize>)
        requires
            self.wf(),
        ensures
            r matches Some(i) ==> i < self.stored@.len() && self.stored@[i as int].0@ == key@
                && lookup(self.stored_view(), key@) == Some(value_view(self.stored@[i as int].1)),
            r is None ==> lookup(self.stored_view(), key@) is None,
    {
        let mut i: usize = 0;
        while i < self.stored.len()
            invariant
                self.wf(),
                i <= self.stored@.len(),
                forall|j: int| 0 <= j < i ==> self.stored@[j].0@ != key@,
            decreases self.stored@.len() - i,
        {
            if str_eq(self.stored[i].0.as_str(), key) {
                proof {
                    let s = self.stored_view();
                    assert(s[i as int].0 == key@);
                    let k = choose|k: int| 0 <= k < s.len() && s[k].0 == key@;
                    assert(s[k].0 == s[i as int].0);
                    if k != i {
                        assert(s[k].0 != s[i as int].0);
                    }
                }
                return Some(i);
            }
            i += 1;
        }
        proof {
            let s = self.stored_view();
            assert forall|k: int| 0 <= k < s.len() implies s[k].0 != key@ by {
                assert(s[k].0 == self.stored@[k].0@);
            }
        }
        None
    }

    /// The effective value of a known key: its stored value, else the schema default. An
    /// unknown key is an error.
    pub fn value(&self, key: &str) -> (r: Result<PrefValue, PrefError>)
        requires
            self.wf(),
        ensures
            schema_index(key@) is None ==> (r matches Err(PrefError::UnknownKey(k)) && k@ == key@),
            schema_index(key@) is Some ==> (r matches Ok(v) && value_view(v) == effective(self.stored_view(), key@)),
    {
        let s = match spec(key) {
            Some(s) => s,
            None => {
                return Err(PrefError::UnknownKey(string_of(key)));
            },
        };
        match self.find(key) {
            Some(i) => Ok(self.stored[i].1),
            None => Ok(s.default),
        }
    }

    /// Where a key's effective value comes from.
    pub fn source(&self, key: &str) -> (r: Source)
        requires
            self.wf(),
        ensures
            r == if lookup(self.stored_view(), key@) is Some {
                Source::Stored
            } else {
                Source::Default
            },
    {
        match self.find(key) {
            Some(_) => Source::Stored,
            None => Source::Default,
        }
    }

    /// Typed bool read: errors if the key is unknown or not a bool preference.
    pub fn get_bool(&self, key: &str) -> (r: Result<bool, PrefError>)
        requires
            self.wf(),
        ensures
            schema_index(key@) is None ==> (r matches Err(PrefError::UnknownKey(k)) && k@ == key@),
            schema_index(key@) is Some ==> ({
                let v = effective(self.stored_view(), key@);
                if v.0 == 0 {
                    r == Ok::<bool, PrefError>(v.1)
                } else {
                    r matches Err(PrefError::Type { key: k, expected, got }) && k@ == key@ && expected@
                        == "bool"@ && got@ == kind_name_spec(v.0)
                }
            }),
    {
        match self.value(key)? {
            PrefValue::Bool(b) => Ok(b),
            other => Err(PrefError::Type { key: string_of(key), expected: "bool", got: other.kind_name() }),
        }
    }

    /// Typed scalar read: errors if the key is unknown or not a scalar preference.
    pub fn get_scalar(&self, key: &str) -> (r: Result<i64, PrefError>)
        requires
            self.wf(),
        ensures
            schema_index(key@) is None ==> (r matches Err(PrefError::UnknownKey(k)) && k@ == key@),
            schema_index(key@) is Some ==> ({
                let v = effective(self.stored_view(), key@);
                if v.0 == 1 {
                    r == Ok::<i64, PrefError>(v.2)
                } else {
                    r matches Err(PrefError::Type { key: k, expected, got }) && k@ == key@ && expected@
                        == "scalar"@ && got@ == kind_name_spec(v.0)
                }
            }),
    {
        match self.value(key)? {
            PrefValue::Scalar(n) => Ok(n),
            other => Err(PrefError::Type { key: string_of(key), expected: "scalar", got: other.kind_name() }),
        }
    }

    /// `reduceMotion`: suppress non-essential cosmetic motion (off when unreadable).
    pub fn reduce_motion(&self) -> (b: bool)
        requires
            self.wf(),
        ensures
            b == {
                let v = effective(self.stored_view(), "reduceMotion"@);
                v.0 == 0 && v.1
            },
    {
        proof {
            reveal_strlit("reduceMotion");
            assert(schema_index("reduceMotion"@) is Some) by {
                assert(schema_keys()[3] == "reduceMotion"@);
            }
        }
        match self.get_bool("reduceMotion") {
            Ok(b) => b,
            Err(_) => false,
        }
    }

    /// `hapticsEnabled`: allow haptic/rumble actuation (on when unreadable).
    pub fn haptics_enabled(&self) -> (b: bool)
        requires
            self.wf(),
        ensures
            b == {
                let v = effective(self.stored_view(), "hapticsEnabled"@);
                v.0 != 0 || v.1
            },
    {
        proof {
            assert(schema_index("hapticsEnabled"@) is Some) by {
                assert(schema_keys()[4] == "hapticsEnabled"@);
            }
        }
        match self.get_bool("hapticsEnabled") {
            Ok(b) => b,
            Err(_) => true,
        }
    }

    /// `monoAudio`: down-mix audio to mono (off when unreadable).
    pub fn mono_audio(&self) -> (b: bool)
        requires
            self.wf(),
        ensures
            b == {
                let v = effective(self.stored_view(), "monoAudio"@);
                v.0 == 0 && v.1
            },
    {
        proof {
            assert(schema_index("monoAudio"@) is Some) by {
                assert(schema_keys()[5] == "monoAudio"@);
            }
        }
        match self.get_bool("monoAudio") {
            Ok(b) => b,
            Err(_) => false,
        }
    }

    /// `brightness`: 0..=100 (100 when unreadable).
    pub fn brightness(&self) -> (n: i64)
        requires
            self.wf(),
        ensures
            n == {
                let v = effective(self.stored_view(), "brightness"@);
                if v.0 == 1 { v.2 } else { 100 }
            },
    {
        proof {
            assert(schema_index("brightness"@) is Some) by {
                assert(schema_keys()[6] == "brightness"@);
            }
        }
        match self.get_scalar("brightness") {
            Ok(n) => n,
            Err(_) => 100,
        }
    }

    /// Validate-and-set a preference in memory. Unknown keys, type mismatches and out-of-range
    /// scalars are rejected with the document unchanged. An accepted value is always recorded
    /// (its source becomes stored); the change is reported iff the effective value moved.
    pub fn set(&mut self, key: &str, value: PrefValue) -> (r: Result<Option<PrefChange>, PrefError>)
        requires
            old(self).wf(),
        ensures
            final(self).wf(),
            final(self).extra_keys() == old(self).extra_keys(),
            final(self).extra_entries() == old(self).extra_entries(),
            schema_index(key@) is None ==> (r matches Err(PrefError::UnknownKey(k)) && k@ == key@)
                && final(self).stored_view() == old(self).stored_view(),
            schema_index(key@) matches Some(i) ==> ({
                let ov = effective(old(self).stored_view(), key@);
                match r {
                    Err(e) => validation(key@, schema_kinds()[i], value_view(value), Err(e))
                        && final(self).stored_view() == old(self).stored_view(),
                    Ok(change) => exists|nv: PrefValue|
                        #![trigger value_view(nv)]
                        validation(key@, schema_kinds()[i], value_view(value), Ok(nv))
                            && final(self).stored_view() == stored_with(old(self).stored_view(), key@, value_view(nv))
                            && (change is Some <==> ov != value_view(nv))
                            && (change matches Some(c) ==> c.key@ == key@ && value_view(c.old) == ov
                                && value_view(c.new) == value_view(nv)),
                }
            }),
    {
        let validated = validate(key, value)?;
        let old_value = self.value(key)?;
        let ghost before = self.stored_view();
        match self.find(key) {
            Some(i) => {
                self.stored.set(i, (string_of(key), validated));
                proof {
                    let k = choose|k: int| 0 <= k < before.len() && before[k].0 == key@;
                    assert(before[i as int].0 == key@);
                    if k != i {
                        assert(before[k].0 != before[i as int].0);
                    }
                    assert(self.stored_view() =~= before.update(i as int, (key@, value_view(validated))));
                }
            },
            None => {
                self.stored.push((string_of(key), validated));
                assert(self.stored_view() =~= before.push((key@, value_view(validated))));
            },
        }
        proof {
            law_read_after_store(before, key@, value_view(validated), key@);
            assert(forall|j: int| 0 <= j < self.stored@.len() ==> schema_index(#[trigger] self.stored@[j].0@) is Some) by {
                assert forall|j: int| 0 <= j < self.stored@.len() implies schema_index(#[trigger] self.stored@[j].0@) is Some by {
                    if self.stored@[j].0@ != key@ {
                        assert(self.stored_view()[j].0 == self.stored@[j].0@);
                        assert(j < old(self).stored@.len());
                        assert(old(self).stored@[j].0@ == self.stored@[j].0@);
                    }
                }
            }
        }
        if !same_value(&old_value, &validated) {
            Ok(Some(PrefChange { key: string_of(key), old: old_value, new: validated }))
        } else {
            Ok(None)
        }
    }

    /// Store a known key that is not yet stored.
    pub(crate) fn push_new(&mut self, key: String, value: PrefValue)
        requires
            old(self).wf(),
            schema_index(key@) is Some,
            lookup(old(self).stored_view(), key@) is None,
        ensures
            final(self).wf(),
            final(self).stored_view() == stored_with(old(self).stored_view(), key@, value_view(value)),
            final(self).extra_keys() == old(self).extra_keys(),
            final(self).extra_entries() == old(self).extra_entries(),
    {
        let ghost before = self.stored_view();
        let ghost kv = key@;
        self.stored.push((key, value));
        assert(self.stored_view() =~= before.push((kv, value_view(value))));
        assert(!(exists|i: int| 0 <= i < before.len() && before[i].0 == kv));
        proof {
            law_read_after_store(before, kv, value_view(value), kv);
            assert forall|j: int| 0 <= j < self.stored@.len() implies schema_index(#[trigger] self.stored@[j].0@) is Some by {
                if j < before.len() {
                    assert(old(self).stored@[j].0@ == self.stored@[j].0@);
                }
            }
        }
    }

    /// Preserve an unknown key's raw value.
    pub(crate) fn preserve(&mut self, key: String, value: serde_json::Value)
        requires
            old(self).wf(),
        ensures
            final(self).wf(),
            final(self).stored_view() == old(self).stored_view(),
            final(self).extra_keys() == old(self).extra_keys().push(key@),
            final(self).extra_entries() == old(self).extra_entries().push((key, value)),
    {
        let ghost kv = key@;
        self.extra.push((key, value));
        assert(self.extra_keys() =~= old(self).extra_keys().push(kv));
    }

    /// The preserved unknown keys.
    pub fn extra(&self) -> (e: &Vec<(String, serde_json::Value)>)
        ensures
            e@.map_values(|p: (String, serde_json::Value)| p.0@) == self.extra_keys(),
            e@ == self.extra_entries(),
    {
        &self.extra
    }

    /// The stored known keys and their values.
    pub fn stored_values(&self) -> (v: Vec<(String, PrefValue)>)
        ensures
            v@.map_values(|p: (String, PrefValue)| (p.0@, value_view(p.1))) == self.stored_view(),
    {
        let mut v: Vec<(String, PrefValue)> = Vec::new();
        let mut i: usize = 0;
        while i < self.stored.len()
            invariant
                i <= self.stored@.len(),
                v@.map_values(|p: (String, PrefValue)| (p.0@, value_view(p.1))) == self.stored_view().take(i as int),
            decreases self.stored@.len() - i,
        {
            let ghost before = v@;
            let k = self.stored[i].0.clone();
            let val = self.stored[i].1;
            v.push((k, val));
            assert(self.stored_view().take(i + 1) =~= self.stored_view().take(i as int).push(self.stored_view()[i as int]));
            assert(v@ =~= before.push((k, val)));
            assert(v@.map_values(|p: (String, PrefValue)| (p.0@, value_view(p.1))) =~= before.map_values(|p: (String, PrefValue)| (p.0@, value_view(p.1))).push((k@, value_view(val))));
            i += 1;
        }
        assert(self.stored_view().take(self.stored@.len() as int) =~= self.stored_view());
        v
    }
}

/// One entry of the document the store writes.
#[derive(Debug, Clone, PartialEq)]
pub enum DocEntry {
    /// The schema version this writer uses.
    Version(u64),
    /// An explicitly stored known key.
    Value(PrefValue),
    /// A preserved unknown key: the index of its raw value in [`Prefs::extra`].
    Preserved(usize),
}

impl Prefs {
    /// The entries of the document to write: the schema version first, then every stored key,
    /// then each preserved unknown key that no stored key shadows.
    pub fn document_entries(&self) -> (r: Vec<(String, DocEntry)>)
        ensures
            r@.len() >= 1 + self.stored_view().len(),
            r@[0].0@ == version_key() && r@[0].1 == DocEntry::Version(SCHEMA_VERSION),
            forall|i: int|
                0 <= i < self.stored_view().len() ==> r@[1 + i].0@ == self.stored_view()[i].0 && (r@[1 + i].1 matches DocEntry::Value(v) && value_view(v) == self.stored_view()[i].1),
            forall|i: int|
                1 + self.stored_view().len() <= i < r@.len() ==> (#[trigger] r@[i].1 matches DocEntry::Preserved(x) && x < self.extra_keys().len() && r@[i].0@ == self.extra_keys()[x as int]
                    && lookup(self.stored_view(), r@[i].0@) is None),
    {
        let mut out: Vec<(String, DocEntry)> = Vec::new();
        out.push((string_of("schemaVersion"), DocEntry::Version(SCHEMA_VERSION)));
        let mut i: usize = 0;
        while i < self.stored.len()
            invariant
                i <= self.stored@.len(),
                out@.len() == 1 + i,
                out@[0].0@ == version_key() && out@[0].1 == DocEntry::Version(SCHEMA_VERSION),
                forall|q: int|
                    0 <= q < i ==> out@[1 + q].0@ == self.stored_view()[q].0 && (out@[1 + q].1 matches DocEntry::Value(v) && value_view(v) == self.stored_view()[q].1),
            decreases self.stored@.len() - i,
        {
            let key = self.stored[i].0.clone();
            let ghost before = out@;
            out.push((key, DocEntry::Value(self.stored[i].1)));
            proof {
                assert(self.stored_view()[i as int] == (self.stored@[i as int].0@, value_view(self.stored@[i as int].1)));
                assert forall|q: int| 0 <= q < i + 1 implies out@[1 + q].0@ == self.stored_view()[q].0 && (out@[1 + q].1 matches DocEntry::Value(v) && value_view(v) == self.stored_view()[q].1) by {
                    if q < i {
                        assert(out@[1 + q] == before[1 + q]);
                    }
                }
            }
            i += 1;
        }
        let base = out.len();
        let mut j: usize = 0;
        while j < self.extra.len()
            invariant
                j <= self.extra@.len(),
                base == 1 + self.stored_view().len(),
                out@.len() >= base,
                out@[0].0@ == version_key() && out@[0].1 == DocEntry::Version(SCHEMA_VERSION),
                forall|q: int|
                    0 <= q < self.stored_view().len() ==> out@[1 + q].0@ == self.stored_view()[q].0 && (out@[1 + q].1 matches DocEntry::Value(v) && value_view(v) == self.stored_view()[q].1),
                forall|q: int|
                    base <= q < out@.len() ==> (#[trigger] out@[q].1 matches DocEntry::Preserved(x) && x < self.extra_keys().len() && out@[q].0@ == self.extra_keys()[x as int]
                        && lookup(self.stored_view(), out@[q].0@) is None),
            decreases self.extra@.len() - j,
        {
            let name = self.extra[j].0.clone();
            let shadowed = self.has_stored(name.as_str());
            if !shadowed {
                let ghost before = out@;
                out.push((name, DocEntry::Preserved(j)));
                assert forall|q: int| 0 <= q < self.stored_view().len() implies out@[1 + q].0@ == self.stored_view()[q].0 && (
                    out@[1 + q].1 matches DocEntry::Value(v) && value_view(v) == self.stored_view()[q].1) by {
                    assert(out@[1 + q] == before[1 + q]);
                }
            }
            j += 1;
        }
        out
    }

    fn has_stored(&self, key: &str) -> (b: bool)
        ensures
            b == lookup(self.stored_view(), key@) is Some,
    {
        let mut i: usize = 0;
        while i < self.stored.len()
            invariant
                i <= self.stored@.len(),
                forall|j: int| 0 <= j < i ==> self.stored@[j].0@ != key@,
            decreases self.stored@.len() - i,
        {
            if str_eq(self.stored[i].0.as_str(), key) {
                assert(self.stored_view()[i as int].0 == key@);
                return true;
            }
            i += 1;
        }
        assert forall|q: int| 0 <= q < self.stored_view().len() implies self.stored_view()[q].0 != key@ by {
            assert(self.stored_view()[q].0 == self.stored@[q].0@);
        }
        false
    }
}

/// Whether two values are the same value.
pub fn same_value(a: &PrefValue, b: &PrefValue) -> (r: bool)
    ensures
        r == (value_view(*a) == value_view(*b)),
{
    match (a, b) {
        (PrefValue::Bool(x), PrefValue::Bool(y)) => *x == *y,
        (PrefValue::Scalar(x), PrefValue::Scalar(y)) => *x == *y,
        (PrefValue::Enum(x), PrefValue::Enum(y)) => str_eq(x, y),
        _ => false,
    }
}

} // verus!
