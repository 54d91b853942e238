//! The persistent home of the preference document: where it lives, and how a stored JSON object
//! becomes a validated document and back. Loading is tolerant: every known key is validated
//! against the schema (a type mismatch or out-of-range scalar is a typed error), unknown keys are
//! preserved, and a document written by a newer schema is refused rather than misread.
use vstd::prelude::*;
use vstd::string::StringSliceAdditionalSpecFns;
use vstd::string::StrSliceExecFns;
use std::path::{Path, PathBuf};
use crate::keyed::{keys_distinct, lookup};
use crate::prefs::document::{effective, Prefs};
use crate::prefs::error::PrefError;
use crate::prefs::schema::{validation, 
    bool_view, enum_view, kind_name_spec, kind_view, scalar_view, schema_index, schema_kinds,
    spec, value_view, KindView, PrefKind, PrefSpec, PrefValue, ValueView, SCHEMA_VERSION,
};
use crate::text::{str_eq, string_of, trim, trimmed};

verus! {

#[verifier::external_type_specification]
#[verifier::external_body]
pub struct ExPath(Path);

#[verifier::external_type_specification]
#[verifier::external_body]
pub struct ExPathBuf(PathBuf);

/// `PathBuf::clone` copies the path; nothing about the copy is relied on.
pub assume_specification[ <PathBuf as Clone>::clone ](p: &PathBuf) -> PathBuf;

/// The shape of one JSON value as the store reads it: integers that fit `i64` are `Integer`,
/// every other number is `Number`.
#[derive(Debug, Clone, PartialEq)]
pub enum JsonField {
    Null,
    Bool(bool),
    Integer(i64),
    Number,
    Text(String),
    Array,
    Object,
}

pub open spec fn json_kind_spec(v: JsonField) -> Seq<char> {
    match v {
        JsonField::Null => "null"@,
        JsonField::Bool(_) => "bool"@,
        JsonField::Integer(_) => "number"@,
        JsonField::Number => "number"@,
        JsonField::Text(_) => "string"@,
        JsonField::Array => "array"@,
        JsonField::Object => "object"@,
    }
}

/// Human name for a JSON value's shape, for type-mismatch diagnostics.
pub fn json_kind(v: &JsonField) -> (n: &'static str)
    ensures
        n@ == json_kind_spec(*v),
{
    match v {
        JsonField::Null => "null",
        JsonField::Bool(_) => "bool",
        JsonField::Integer(_) => "number",
        JsonField::Number => "number",
        JsonField::Text(_) => "string",
        JsonField::Array => "array",
        JsonField::Object => "object",
    }
}

/// The value a stored JSON value gives for a key of `kind`, before the range check: a JSON bool
/// for a bool key, an integer for a scalar key, a listed variant's string for an enum key.
pub open spec fn json_value(kind: KindView, raw: JsonField) -> Option<ValueView> {
    match raw {
        JsonField::Bool(b) => if kind.0 == 0 { Some(bool_view(b)) } else { None },
        JsonField::Integer(n) => if kind.0 == 1 { Some(scalar_view(n)) } else { None },
        JsonField::Text(t) => if kind.0 == 2 && kind.3.contains(t@) { Some(enum_view(t@)) } else { None },
        _ => None,
    }
}

pub open spec fn expected_name(kind: KindView) -> Seq<char> {
    if kind.0 == 2 { "enum variant"@ } else { kind_name_spec(kind.0) }
}

/// A JSON value to a concrete value for a known key, enforcing the key's type.
pub fn json_to_pref(key: &str, kind: PrefKind, raw: &JsonField) -> (r: Result<PrefValue, PrefError>)
    ensures
        match json_value(kind_view(kind), *raw) {
            Some(v) => r matches Ok(p) && value_view(p) == v,
            None => r matches Err(PrefError::Type { key: k, expected, got }) && k@ == key@
                && expected@ == expected_name(kind_view(kind)) && got@ == json_kind_spec(*raw),
        },
{
    match kind {
        PrefKind::Bool => match raw {
            JsonField::Bool(b) => Ok(PrefValue::Bool(*b)),
            _ => Err(PrefError::Type { key: string_of(key), expected: "bool", got: json_kind(raw) }),
        },
        PrefKind::Scalar { .. } => match raw {
            JsonField::Integer(n) => Ok(PrefValue::Scalar(*n)),
            _ => Err(PrefError::Type { key: string_of(key), expected: "scalar", got: json_kind(raw) }),
        },
        PrefKind::Enum { variants } => {
            let ghost m = variants@.map_values(|v: &'static str| v@);
            assert(kind_view(kind).3 == m);
            match raw {
                JsonField::Text(t) => {
                    let mut i: usize = 0;
                    while i < variants.len()
                        invariant
                            i <= variants@.len(),
                            kind == (PrefKind::Enum { variants }),
                            *raw == JsonField::Text(*t),
                            m == variants@.map_values(|v: &'static str| v@),
                            forall|j: int| 0 <= j < i ==> variants@[j]@ != t@,
                        decreases variants@.len() - i,
                    {
                        if str_eq(variants[i], t.as_str()) {
                            assert(m[i as int] == t@);
                            assert(m.contains(t@));
                            let e = variants[i];
                            assert(e@ == t@);
                            assert(json_value(kind_view(kind), *raw) == Some(enum_view(t@)));
                            return Ok(PrefValue::Enum(e));
                        }
                        i += 1;
                    }
                    proof {
                        if m.contains(t@) {
                            let j = choose|j: int| 0 <= j < m.len() && m[j] == t@;
                            assert(variants@[j]@ == t@);
                        }
                    }
                    Err(PrefError::Type { key: string_of(key), expected: "enum variant", got: json_kind(raw) })
                },
                _ => Err(PrefError::Type { key: string_of(key), expected: "enum variant", got: json_kind(raw) }),
            }
        },
    }
}

pub open spec fn version_key() -> Seq<char> {
    "schemaVersion"@
}

/// The value a known key's stored JSON gives, when it is well-typed and in range.
pub open spec fn accepted(kind: KindView, raw: JsonField) -> Option<ValueView> {
    match json_value(kind, raw) {
        Some(v) => if v.0 == 1 && (v.2 < kind.1 || v.2 > kind.2) { None } else { Some(v) },
        None => None,
    }
}

/// Whether one stored field can be loaded: a version this reader supports, a well-typed
/// in-range value for a known key, or any value for an unknown key (preserved).
pub open spec fn field_loads(key: Seq<char>, raw: JsonField) -> bool {
    if key == version_key() {
        raw matches JsonField::Integer(n) && 0 <= n <= SCHEMA_VERSION
    } else {
        match schema_index(key) {
            Some(i) => accepted(schema_kinds()[i], raw) is Some,
            None => true,
        }
    }
}

pub open spec fn field_keys(fields: Seq<(String, JsonField, serde_json::Value)>) -> Seq<Seq<char>> {
    fields.map_values(|f: (String, JsonField, serde_json::Value)| f.0@)
}

/// The field is the version, holding a version newer than this reader's.
pub open spec fn newer_version_at(key: Seq<char>, raw: JsonField) -> bool {
    &&& key == version_key()
    &&& raw matches JsonField::Integer(n) && n > SCHEMA_VERSION
}

/// The error that a field which does not load gives: a version that is not a non-negative
/// integer is a parse error and a newer one is `UnsupportedVersion`; a known key's value of
/// the wrong JSON type is a `Type` error, and a well-typed value that the schema refuses gives
/// the schema's validation error.
pub open spec fn load_error(key: Seq<char>, raw: JsonField, e: PrefError) -> bool {
    if key == version_key() {
        match raw {
            JsonField::Integer(n) => if n < 0 {
                e matches PrefError::Parse(m) && m@ == "schemaVersion is not a non-negative integer"@
            } else {
                e == PrefError::UnsupportedVersion { found: n as u64, supported: SCHEMA_VERSION }
            },
            _ => e matches PrefError::Parse(m) && m@ == "schemaVersion is not a non-negative integer"@,
        }
    } else {
        match schema_index(key) {
            Some(i) => match json_value(schema_kinds()[i], raw) {
                None => e matches PrefError::Type { key: k, expected, got } && k@ == key && expected@
                    == expected_name(schema_kinds()[i]) && got@ == json_kind_spec(raw),
                Some(v) => validation(key, schema_kinds()[i], v, Err(e)),
            },
            None => false,
        }
    }
}

/// The fields that no schema key and not the version claim, with their raw values, in order:
/// what a load keeps aside and a save writes back.
pub open spec fn unknown_fields(fields: Seq<(String, JsonField, serde_json::Value)>) -> Seq<(String, serde_json::Value)>
    decreases fields.len(),
{
    if fields.len() == 0 {
        Seq::empty()
    } else {
        let p = unknown_fields(fields.drop_last());
        let f = fields.last();
        if schema_index(f.0@) is None && f.0@ != version_key() {
            p.push((f.0, f.2))
        } else {
            p
        }
    }
}

/// The field at `j` is the first that does not load.
pub open spec fn first_failure(fields: Seq<(Seq<char>, JsonField)>, j: int) -> bool {
    &&& 0 <= j < fields.len()
    &&& !field_loads(fields[j].0, fields[j].1)
    &&& forall|i: int| 0 <= i < j ==> field_loads(#[trigger] fields[i].0, fields[i].1)
}

proof fn lemma_first_failure_at(f: Seq<(String, JsonField, serde_json::Value)>, k: int)
    requires
        0 <= k < f.len(),
        !field_loads(f[k].0@, f[k].1),
        forall|i: int| 0 <= i < k ==> field_loads(#[trigger] f[i].0@, f[i].1),
    ensures
        forall|j: int| #[trigger] first_failure(shapes(f), j) ==> j == k,
{
    assert forall|j: int| #[trigger] first_failure(shapes(f), j) implies j == k by {
        assert(shapes(f)[j] == (f[j].0@, f[j].1));
        assert(shapes(f)[k] == (f[k].0@, f[k].1));
        if j < k {
            assert(field_loads(f[j].0@, f[j].1));
        } else if j > k {
            assert(field_loads(shapes(f)[k].0, shapes(f)[k].1));
        }
    }
}

proof fn lemma_no_failure(f: Seq<(String, JsonField, serde_json::Value)>)
    requires
        forall|i: int| 0 <= i < f.len() ==> field_loads(#[trigger] f[i].0@, f[i].1),
    ensures
        forall|j: int| !(#[trigger] first_failure(shapes(f), j)),
{
    assert forall|j: int| !(#[trigger] first_failure(shapes(f), j)) by {
        if 0 <= j < f.len() {
            assert(shapes(f)[j] == (f[j].0@, f[j].1));
            assert(field_loads(f[j].0@, f[j].1));
        }
    }
}

/// Decode the fields of a stored JSON object (distinct keys) into a validated document.
///
/// It succeeds exactly when every field loads (see [`field_loads`]); then each known key is
/// stored with its value, every unknown key (other than the version) is preserved, and nothing
/// else is stored. Otherwise the first field that does not load gives the error (see
/// [`load_error`]); so a version newer than this reader's is `UnsupportedVersion`.
pub fn decode(fields: Vec<(String, JsonField, serde_json::Value)>) -> (r: Result<Prefs, PrefError>)
    requires
        field_keys(fields@).no_duplicates(),
    ensures
        r is Ok <==> forall|j: int| 0 <= j < fields@.len() ==> field_loads(#[trigger] fields@[j].0@, fields@[j].1),
        r matches Ok(p) ==> {
            &&& p.wf()
            &&& forall|j: int|
                0 <= j < fields@.len() && schema_index(#[trigger] fields@[j].0@) is Some ==> lookup(p.stored_view(), fields@[j].0@)
                    == accepted(schema_kinds()[schema_index(fields@[j].0@)->0], fields@[j].1)
            &&& forall|k: Seq<char>| lookup(p.stored_view(), k) is Some ==> field_keys(fields@).contains(k)
            &&& forall|k: Seq<char>|
                #![trigger p.extra_keys().contains(k)]
                p.extra_keys().contains(k) <==> (field_keys(fields@).contains(k) && schema_index(k) is None
                    && k != version_key())
            &&& p.extra_entries() == unknown_fields(fields@)
        },
        r matches Err(PrefError::UnsupportedVersion { found, supported }) ==> supported == SCHEMA_VERSION
            && found > SCHEMA_VERSION,
        forall|j: int|
            0 <= j < fields@.len() && newer_version_at(fields@[j].0@, #[trigger] fields@[j].1) && (forall|i: int|
                0 <= i < j ==> field_loads(#[trigger] fields@[i].0@, fields@[i].1)) ==> r == Err::<Prefs, PrefError>(
                PrefError::UnsupportedVersion { found: fields@[j].1->Integer_0 as u64, supported: SCHEMA_VERSION },
            ),
        forall|j: int|
            #[trigger] first_failure(shapes(fields@), j) ==> (r matches Err(e) && load_error(fields@[j].0@, fields@[j].1, e)),
{
    let mut prefs = Prefs::defaults();
    let ghost all = fields@;
    let mut rest = fields;
    let total = rest.len();
    let mut k: usize = 0;
    assert(all.take(0) =~= Seq::<(String, JsonField, serde_json::Value)>::empty());
    while rest.len() > 0
        invariant
            all == fields@,
            all.len() == total,
            field_keys(all).no_duplicates(),
            k + rest@.len() == total,
            rest@ == all.subrange(k as int, total as int),
            prefs.wf(),
            prefs.extra_entries() == unknown_fields(all.take(k as int)),
            forall|j: int| 0 <= j < k ==> field_loads(#[trigger] all[j].0@, all[j].1),
            forall|j: int|
                0 <= j < k && schema_index(#[trigger] all[j].0@) is Some ==> lookup(prefs.stored_view(), all[j].0@)
                    == accepted(schema_kinds()[schema_index(all[j].0@)->0], all[j].1),
            forall|key: Seq<char>| lookup(prefs.stored_view(), key) is Some ==> field_keys(all.take(k as int)).contains(key),
            forall|key: Seq<char>|
                #![trigger prefs.extra_keys().contains(key)]
                prefs.extra_keys().contains(key) <==> (field_keys(all.take(k as int)).contains(key)
                    && schema_index(key) is None && key != version_key()),
        decreases rest@.len(),
    {
        let (key, raw, value) = rest.remove(0);
        let ghost kv = key@;
        assert(all[k as int].0 == key && all[k as int].1 == raw);
        assert(field_keys(all)[k as int] == kv);
        assert(field_keys(all.take(k + 1)) =~= field_keys(all.take(k as int)).push(kv));
        assert(!field_keys(all.take(k as int)).contains(kv)) by {
            if field_keys(all.take(k as int)).contains(kv) {
                let q = choose|q: int| 0 <= q < k && #[trigger] field_keys(all.take(k as int))[q] == kv;
                assert(field_keys(all)[q] == field_keys(all)[k as int]);
            }
        }
        let ghost before = prefs.stored_view();
        let ghost before_extra = prefs.extra_keys();
        let ghost before_entries = prefs.extra_entries();
        proof {
            assert(all.take(k + 1).drop_last() =~= all.take(k as int));
            assert(all.take(k + 1).last() == all[k as int]);
            assert(all[k as int] == (key, raw, value));
        }
        let ghost mut preserved = false;
        proof {
            prefs.lemma_distinct();
            assert(!before_extra.contains(kv));
            assert(lookup(before, kv) is None) by {
                if lookup(before, kv) is Some {
                    assert(field_keys(all.take(k as int)).contains(kv));
                }
            }
        }
        if str_eq(key.as_str(), "schemaVersion") {
            let ok = match raw {
                JsonField::Integer(n) => 0 <= n && n as u64 <= SCHEMA_VERSION,
                _ => false,
            };
            if !ok {
                assert(!field_loads(all[k as int].0@, all[k as int].1));
                assert(!field_loads(fields@[k as int].0@, fields@[k as int].1));
                proof {
                    lemma_first_failure_at(all, k as int);
                }
                return match raw {
                    JsonField::Integer(n) => if n < 0 {
                        Err(PrefError::Parse(string_of("schemaVersion is not a non-negative integer")))
                    } else {
                        Err(PrefError::UnsupportedVersion { found: n as u64, supported: SCHEMA_VERSION })
                    },
                    _ => Err(PrefError::Parse(string_of("schemaVersion is not a non-negative integer"))),
                };
            }
            proof {
                lemma_schema_version_unknown();
            }
        } else {
            match spec(key.as_str()) {
                Some(s) => {
                    let v = match json_to_pref(key.as_str(), s.kind, &raw) {
                        Ok(v) => v,
                        Err(e) => {
                            assert(!field_loads(all[k as int].0@, all[k as int].1));
                            assert(!field_loads(fields@[k as int].0@, fields@[k as int].1));
                            proof {
                                lemma_first_failure_at(all, k as int);
                            }
                            return Err(e);
                        },
                    };
                    let validated = match s.validate(v) {
                        Ok(x) => x,
                        Err(e) => {
                            assert(!field_loads(all[k as int].0@, all[k as int].1));
                            assert(!field_loads(fields@[k as int].0@, fields@[k as int].1));
                            proof {
                                lemma_first_failure_at(all, k as int);
                            }
                            return Err(e);
                        },
                    };
                    assert(accepted(schema_kinds()[schema_index(kv)->0], raw) == Some(value_view(validated)));
                    prefs.push_new(key, validated);
                    proof {
                        crate::keyed::law_read_after_store(before, kv, value_view(validated), kv);
                        assert forall|other: Seq<char>| other != kv implies lookup(prefs.stored_view(), other) == lookup(before, other) by {
                            crate::keyed::law_read_after_store(before, kv, value_view(validated), other);
                        }
                    }
                },
                None => {
                    prefs.preserve(key, value);
                    proof {
                        preserved = true;
                    }
                },
            }
        }
        proof {
            assert(prefs.extra_entries() == unknown_fields(all.take(k + 1)));
            assert(preserved ==> prefs.extra_keys() == before_extra.push(kv) && schema_index(kv) is None && kv != version_key());
            assert(!preserved ==> prefs.extra_keys() == before_extra && (kv == version_key() || schema_index(kv) is Some));
            assert(forall|other: Seq<char>| other != kv ==> lookup(prefs.stored_view(), other) == lookup(before, other));
            assert(field_loads(all[k as int].0@, all[k as int].1));
            assert forall|j: int|
                0 <= j < k + 1 && schema_index(#[trigger] all[j].0@) is Some implies lookup(prefs.stored_view(), all[j].0@)
                    == accepted(schema_kinds()[schema_index(all[j].0@)->0], all[j].1) by {
                if j < k {
                    assert(field_keys(all)[j] != field_keys(all)[k as int]);
                }
            }
            assert forall|key2: Seq<char>| lookup(prefs.stored_view(), key2) is Some implies field_keys(all.take(k + 1)).contains(key2) by {
                if key2 != kv {
                    assert(lookup(before, key2) is Some);
                    assert(field_keys(all.take(k as int)).contains(key2));
                    let q = choose|q: int| 0 <= q < k && #[trigger] field_keys(all.take(k as int))[q] == key2;
                    assert(field_keys(all.take(k + 1))[q] == key2);
                } else {
                    assert(field_keys(all.take(k + 1))[k as int] == kv);
                }
            }
            assert forall|key2: Seq<char>|
                prefs.extra_keys().contains(key2) <==> (field_keys(all.take(k + 1)).contains(key2)
                    && schema_index(key2) is None && key2 != version_key()) by {
                let now = field_keys(all.take(k + 1));
                let was = field_keys(all.take(k as int));
                assert(now[k as int] == kv);
                if key2 == kv {
                    if preserved {
                        assert(prefs.extra_keys()[before_extra.len() as int] == kv);
                    }
                } else {
                    if now.contains(key2) {
                        let q = choose|q: int| 0 <= q < k + 1 && #[trigger] now[q] == key2;
                        assert(q < k);
                        assert(was[q] == key2);
                    }
                    if was.contains(key2) {
                        let q = choose|q: int| 0 <= q < k && #[trigger] was[q] == key2;
                        assert(now[q] == key2);
                    }
                    if prefs.extra_keys().contains(key2) {
                        let q = choose|q: int| 0 <= q < prefs.extra_keys().len() && #[trigger] prefs.extra_keys()[q] == key2;
                        if preserved {
                            assert(q < before_extra.len());
                        }
                        assert(before_extra[q] == key2);
                        assert(before_extra.contains(key2));
                    }
                    if before_extra.contains(key2) {
                        let q = choose|q: int| 0 <= q < before_extra.len() && #[trigger] before_extra[q] == key2;
                        assert(prefs.extra_keys()[q] == key2);
                    }
                }
            }
        }
        k += 1;
    }
    assert(all.take(total as int) =~= all);
    proof {
        lemma_no_failure(all);
    }
    Ok(prefs)
}

/// The shape and key of each field of a parsed JSON text: the key and the value's shape.
pub open spec fn shapes(fields: Seq<(String, JsonField, serde_json::Value)>) -> Seq<(Seq<char>, JsonField)> {
    fields.map_values(|f: (String, JsonField, serde_json::Value)| (f.0@, f.1))
}

/// What a JSON text parses to, as plain values: the fields of its top-level object, `None`
/// when the top-level value is not an object, or the parser's error text.
pub uninterp spec fn json_document(text: Seq<char>) -> Result<Option<Seq<(Seq<char>, JsonField)>>, Seq<char>>;

/// The shape of one parsed JSON value (`serde_json::Value`, and `as_i64` for numbers).
#[verifier::external_body]
fn shape_of(v: &serde_json::Value) -> JsonField {
    match v {
        serde_json::Value::Null => JsonField::Null,
        serde_json::Value::Bool(b) => JsonField::Bool(*b),
        serde_json::Value::Number(n) => n.as_i64().map_or(JsonField::Number, JsonField::Integer),
        serde_json::Value::String(t) => JsonField::Text(t.clone()),
        serde_json::Value::Array(_) => JsonField::Array,
        serde_json::Value::Object(_) => JsonField::Object,
    }
}

/// Parse a JSON text (`serde_json::from_str`) and list its top-level object's fields, each with
/// its value's shape and raw value. The parse depends on the text alone, and the keys of a
/// parsed object are distinct.
#[verifier::external_body]
fn parse_object(text: &str) -> (r: Result<Option<Vec<(String, JsonField, serde_json::Value)>>, String>)
    ensures
        json_document(text@) == match r {
            Ok(Some(v)) => Ok(Some(shapes(v@))),
            Ok(None) => Ok(None),
            Err(e) => Err(e@),
        },
        r matches Ok(Some(v)) ==> field_keys(v@).no_duplicates(),
{
    match serde_json::from_str::<serde_json::Value>(text) {
        Err(e) => Err(e.to_string()),
        Ok(value) => Ok(value.as_object().map(|m| m.iter().map(|(k, x)| (k.clone(), shape_of(x), x.clone())).collect())),
    }
}

/// The keys of a parsed object, in order.
pub open spec fn json_keys(fields: Seq<(Seq<char>, JsonField)>) -> Seq<Seq<char>> {
    fields.map_values(|f: (Seq<char>, JsonField)| f.0)
}

/// Every field of a parsed object loads (see [`field_loads`]).
pub open spec fn all_load(fields: Seq<(Seq<char>, JsonField)>) -> bool {
    forall|j: int| 0 <= j < fields.len() ==> field_loads(#[trigger] fields[j].0, fields[j].1)
}

/// Read the stored document's text: blank text is all defaults; otherwise it must be a JSON
/// object whose fields all load (see [`decode`]); known keys are validated, unknown keys kept
/// aside, nothing else stored, and the first field that does not load gives the error.
pub fn load_text(text: &str) -> (r: Result<Prefs, PrefError>)
    ensures
        trimmed(text@).len() == 0 ==> (r matches Ok(p) && p.wf() && p.stored_view() == Seq::<(Seq<char>, ValueView)>::empty()
            && p.extra_keys() == Seq::<Seq<char>>::empty()),
        trimmed(text@).len() != 0 ==> match json_document(text@) {
            Err(m) => r matches Err(PrefError::Parse(e)) && e@ == m,
            Ok(None) => r matches Err(PrefError::Parse(e)) && e@ == "top-level JSON value is not an object"@,
            Ok(Some(fields)) => {
                &&& r is Ok <==> all_load(fields)
                &&& r matches Ok(p) ==> {
                    &&& p.wf()
                    &&& forall|j: int|
                        0 <= j < fields.len() && schema_index(#[trigger] fields[j].0) is Some ==> lookup(p.stored_view(), fields[j].0)
                            == accepted(schema_kinds()[schema_index(fields[j].0)->0], fields[j].1)
                    &&& forall|k: Seq<char>| lookup(p.stored_view(), k) is Some ==> json_keys(fields).contains(k)
                    &&& forall|k: Seq<char>|
                        #![trigger p.extra_keys().contains(k)]
                        p.extra_keys().contains(k) <==> (json_keys(fields).contains(k) && schema_index(k) is None
                            && k != version_key())
                }
                &&& forall|j: int|
                    0 <= j < fields.len() && newer_version_at(fields[j].0, #[trigger] fields[j].1) && (forall|i: int|
                        0 <= i < j ==> field_loads(#[trigger] fields[i].0, fields[i].1)) ==> r == Err::<Prefs, PrefError>(
                        PrefError::UnsupportedVersion { found: fields[j].1->Integer_0 as u64, supported: SCHEMA_VERSION },
                    )
                &&& forall|j: int|
                    #[trigger] first_failure(fields, j) ==> (r matches Err(e) && load_error(fields[j].0, fields[j].1, e))
            },
        },
{
    if trim(text).unicode_len() == 0 {
        return Ok(Prefs::defaults());
    }
    match parse_object(text) {
        Err(e) => Err(PrefError::Parse(e)),
        Ok(None) => Err(PrefError::Parse(string_of("top-level JSON value is not an object"))),
        Ok(Some(fields)) => {
            let ghost f = fields@;
            let r = decode(fields);
            proof {
                assert forall|j: int| 0 <= j < f.len() implies (#[trigger] shapes(f)[j]) == (f[j].0@, f[j].1) by {}
                if r is Ok {
                    assert forall|j: int| 0 <= j < shapes(f).len() implies field_loads(#[trigger] shapes(f)[j].0, shapes(f)[j].1) by {
                        assert(field_loads(f[j].0@, f[j].1));
                    }
                } else {
                    if all_load(shapes(f)) {
                        assert forall|j: int| 0 <= j < f.len() implies field_loads(#[trigger] f[j].0@, f[j].1) by {
                            assert(shapes(f)[j] == (f[j].0@, f[j].1));
                            assert(field_loads(shapes(f)[j].0, shapes(f)[j].1));
                        }
                    }
                }
                assert(json_keys(shapes(f)) =~= field_keys(f));
                assert forall|j: int| #[trigger] first_failure(shapes(f), j) implies (r matches Err(e) && load_error(
                    shapes(f)[j].0,
                    shapes(f)[j].1,
                    e,
                )) by {
                    assert(shapes(f)[j] == (f[j].0@, f[j].1));
                }
                assert forall|j: int|
                    0 <= j < shapes(f).len() && newer_version_at(shapes(f)[j].0, #[trigger] shapes(f)[j].1) && (forall|i: int|
                        0 <= i < j ==> field_loads(#[trigger] shapes(f)[i].0, shapes(f)[i].1)) implies r == Err::<Prefs, PrefError>(
                        PrefError::UnsupportedVersion { found: shapes(f)[j].1->Integer_0 as u64, supported: SCHEMA_VERSION },
                    ) by {
                    assert(shapes(f)[j] == (f[j].0@, f[j].1));
                    assert forall|i: int| 0 <= i < j implies field_loads(#[trigger] f[i].0@, f[i].1) by {
                        assert(shapes(f)[i] == (f[i].0@, f[i].1));
                        assert(field_loads(shapes(f)[i].0, shapes(f)[i].1));
                    }
                    assert(newer_version_at(f[j].0@, f[j].1));
                }
                if r is Ok {
                    assert forall|j: int| 0 <= j < shapes(f).len() && schema_index(#[trigger] shapes(f)[j].0) is Some implies lookup(
                        r->Ok_0.stored_view(),
                        shapes(f)[j].0,
                    ) == accepted(schema_kinds()[schema_index(shapes(f)[j].0)->0], shapes(f)[j].1) by {
                        assert(shapes(f)[j] == (f[j].0@, f[j].1));
                    }
                }
            }
            r
        },
    }
}

proof fn lemma_schema_version_unknown()
    ensures
        schema_index(version_key()) is None,
{
    reveal_strlit("schemaVersion");
    reveal_strlit("textScale");
    reveal_strlit("highContrast");
    reveal_strlit("reduceFlashing");
    reveal_strlit("reduceMotion");
    reveal_strlit("hapticsEnabled");
    reveal_strlit("monoAudio");
    reveal_strlit("brightness");
    assert forall|i: int| 0 <= i < 7 implies crate::prefs::schema::schema_keys()[i] != version_key() by {
        let k = crate::prefs::schema::schema_keys()[i];
        assert(version_key().len() == 13 && version_key()[0] == 's');
        assert(k.len() != 13 || k[0] != 's');
    }
}

/// The bare document filename inside the store directory.
pub const PREFS_FILE: &'static str = "prefs.json";

/// The encoded bytes of a path (`Path::as_os_str` then `OsStr::as_encoded_bytes`).
pub uninterp spec fn path_bytes(p: &Path) -> Seq<u8>;

/// The encoded bytes of the path a buffer holds (`PathBuf::as_os_str` then
/// `OsStr::as_encoded_bytes`).
pub uninterp spec fn buf_bytes(p: PathBuf) -> Seq<u8>;

/// The bytes of a Unix path with bytes `dir` joined with a relative or absolute path with bytes
/// `name`: an absolute `name` replaces `dir`; otherwise a `/` separates them unless `dir` is
/// empty or already ends in one.
pub open spec fn path_joined(dir: Seq<u8>, name: Seq<u8>) -> Seq<u8> {
    if name.len() > 0 && name[0] == 0x2fu8 {
        name
    } else if dir.len() == 0 || dir.last() == 0x2fu8 {
        dir + name
    } else {
        dir + seq![0x2fu8] + name
    }
}

/// `dir` joined with `name` (`Path::join`, which pushes `name` onto a copy of `dir`): on Unix
/// the result holds the bytes [`path_joined`] describes.
#[verifier::external_body]
fn join_file(dir: &Path, name: &str) -> (r: PathBuf)
    ensures
        buf_bytes(r) == path_joined(path_bytes(dir), name.spec_bytes()),
{
    dir.join(name)
}

/// The path a path buffer holds (`PathBuf::as_path`): the same path, borrowed.
#[verifier::external_body]
pub(crate) fn as_path(p: &PathBuf) -> (r: &Path)
    ensures
        path_bytes(r) == buf_bytes(*p),
{
    p.as_path()
}

/// A handle to the on-disk preference document.
#[derive(Clone, Debug)]
pub struct PrefsStore {
    path: PathBuf,
}

impl PrefsStore {
    /// The encoded bytes of the document's path.
    pub closed spec fn file(&self) -> Seq<u8> {
        buf_bytes(self.path)
    }

    /// The store under an explicit directory (the document is `<dir>/prefs.json`).
    pub fn at(dir: &Path) -> (s: PrefsStore)
        ensures
            s.file() == path_joined(path_bytes(dir), PREFS_FILE.spec_bytes()),
    {
        PrefsStore { path: join_file(dir, PREFS_FILE) }
    }

    /// The full path to the JSON document.
    pub fn path(&self) -> (p: &Path)
        ensures
            path_bytes(p) == self.file(),
    {
        as_path(&self.path)
    }
}

} // verus!
