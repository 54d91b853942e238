//! The preference schema as data: the single source of truth for which preferences exist,
//! their type, their default, and (for scalars) their valid range. The validator, the read
//! API's defaults and the settings listing all derive from this table.
use vstd::prelude::*;
use crate::prefs::error::PrefError;
use crate::text::{
    all_digits, ascii_lowered, int_text, is_ws, lemma_int_text_round_trip, lemma_trimmed_plain, parse_i64,
    parsed_i64, push_i64, str_eq, string_of, to_ascii_lowercase, trim, trimmed,
};

verus! {

/// The runtime type of a preference value.
#[derive(Debug, Clone, Copy, PartialEq, Eq)]
pub enum PrefKind {
    /// An on/off preference.
    Bool,
    /// An integer preference constrained to the inclusive range `[min, max]`.
    Scalar { min: i64, max: i64 },
    /// One of a closed set of stable string values.
    Enum { variants: &'static [&'static str] },
}

/// A concrete preference value.
#[derive(Debug, Clone, Copy, PartialEq, Eq)]
pub enum PrefValue {
    Bool(bool),
    Scalar(i64),
    Enum(&'static str),
}

/// A kind as plain values: tag (0 bool, 1 scalar, 2 enum), range, and enum variants.
pub type KindView = (int, i64, i64, Seq<Seq<char>>);

/// A value as plain values: tag (0 bool, 1 scalar, 2 enum), payload.
pub type ValueView = (int, bool, i64, Seq<char>);

pub open spec fn kind_view(k: PrefKind) -> KindView {
    match k {
        PrefKind::Bool => (0, 0, 0, Seq::empty()),
        PrefKind::Scalar { min, max } => (1, min, max, Seq::empty()),
        PrefKind::Enum { variants } => (2, 0, 0, variants@.map_values(|v: &'static str| v@)),
    }
}

pub open spec fn value_view(v: PrefValue) -> ValueView {
    match v {
        PrefValue::Bool(b) => (0, b, 0, Seq::empty()),
        PrefValue::Scalar(n) => (1, false, n, Seq::empty()),
        PrefValue::Enum(e) => (2, false, 0, e@),
    }
}

pub open spec fn bool_view(b: bool) -> ValueView {
    (0, b, 0, Seq::empty())
}

pub open spec fn scalar_view(n: i64) -> ValueView {
    (1, false, n, Seq::empty())
}

pub open spec fn enum_view(e: Seq<char>) -> ValueView {
    (2, false, 0, e)
}

pub open spec fn kind_name_spec(tag: int) -> Seq<char> {
    if tag == 0 {
        "bool"@
    } else if tag == 1 {
        "scalar"@
    } else {
        "enum"@
    }
}

/// The text form of a value: `true`/`false`, the decimal integer, or the enum variant.
pub open spec fn value_text(v: ValueView) -> Seq<char> {
    if v.0 == 0 {
        if v.1 {
            "true"@
        } else {
            "false"@
        }
    } else if v.0 == 1 {
        int_text(v.2 as int)
    } else {
        v.3
    }
}

impl PrefValue {
    /// The value's text form (what `Display` prints for it).
    pub fn to_text(&self) -> (t: String)
        ensures
            t@ == value_text(value_view(*self)),
    {
        match self {
            PrefValue::Bool(true) => string_of("true"),
            PrefValue::Bool(false) => string_of("false"),
            PrefValue::Scalar(n) => {
                let mut t = String::new();
                push_i64(&mut t, *n);
                t
            },
            PrefValue::Enum(e) => string_of(e),
        }
    }

    /// The kind this value inhabits, for type-match diagnostics.
    pub fn kind_name(&self) -> (n: &'static str)
        ensures
            n@ == kind_name_spec(value_view(*self).0),
    {
        match self {
            PrefValue::Bool(_) => "bool",
            PrefValue::Scalar(_) => "scalar",
            PrefValue::Enum(_) => "enum",
        }
    }
}

/// Human name for a kind, used in type-mismatch errors.
pub fn kind_name(kind: PrefKind) -> (n: &'static str)
    ensures
        n@ == kind_name_spec(kind_view(kind).0),
{
    match kind {
        PrefKind::Bool => "bool",
        PrefKind::Scalar { .. } => "scalar",
        PrefKind::Enum { .. } => "enum",
    }
}

/// One row of the schema: a preference's key, type, default and human description.
#[derive(Debug, Clone, Copy)]
pub struct PrefSpec {
    pub key: &'static str,
    pub kind: PrefKind,
    /// The value in effect when the key is absent from the stored document.
    pub default: PrefValue,
    pub doc: &'static str,
}

/// The value `kind` accepts for `value`, with `key` naming it in errors: matching bool,
/// in-range scalar, or listed enum variant.
pub open spec fn validation(key: Seq<char>, kind: KindView, value: ValueView, r: Result<PrefValue, PrefError>) -> bool {
    if kind.0 == 0 && value.0 == 0 {
        r matches Ok(v) && value_view(v) == value
    } else if kind.0 == 1 && value.0 == 1 {
        if value.2 < kind.1 || value.2 > kind.2 {
            r matches Err(PrefError::Range { key: k, value: n, min, max }) && k@ == key && n == value.2
                && min == kind.1 && max == kind.2
        } else {
            r matches Ok(v) && value_view(v) == value
        }
    } else if kind.0 == 2 && value.0 == 2 {
        if kind.3.contains(value.3) {
            r matches Ok(v) && value_view(v) == value
        } else {
            r matches Err(PrefError::Type { key: k, expected, got }) && k@ == key && expected@
                == "enum variant"@ && got@ == "unknown enum variant"@
        }
    } else {
        r matches Err(PrefError::Type { key: k, expected, got }) && k@ == key && expected@
            == kind_name_spec(kind.0) && got@ == kind_name_spec(value.0)
    }
}

/// Whether `kind` accepts `v`: a bool, an in-range scalar, or a listed variant.
pub open spec fn admissible(kind: KindView, v: ValueView) -> bool {
    ||| kind.0 == 0 && v.0 == 0
    ||| kind.0 == 1 && v.0 == 1 && kind.1 <= v.2 <= kind.2
    ||| kind.0 == 2 && v.0 == 2 && kind.3.contains(v.3)
}

/// Every schema default is a valid value of its own key.
pub proof fn law_defaults_are_admissible()
    ensures
        forall|i: int| 0 <= i < 7 ==> admissible(#[trigger] schema_kinds()[i], schema_defaults()[i]),
{
    assert(text_scale_steps()[0] == "100%"@);
    assert(text_scale_steps().contains("100%"@));
}

/// Validation accepts exactly the admissible values: whatever the key, a value passes its
/// kind's check if and only if the kind admits it, and a passing value comes back unchanged.
pub proof fn law_validation_accepts_admissible(key: Seq<char>, kind: KindView, v: ValueView, r: Result<PrefValue, PrefError>)
    requires
        validation(key, kind, v, r),
    ensures
        r is Ok <==> admissible(kind, v),
        r matches Ok(x) ==> value_view(x) == v,
{
}

/// The first variant equal to `candidate`.
fn find_variant(variants: &'static [&'static str], candidate: &str) -> (r: Option<&'static str>)
    ensures
        r matches Some(v) ==> v@ == candidate@,
        r is Some ==> variants@.map_values(|v: &'static str| v@).contains(candidate@),
        r is None ==> !variants@.map_values(|v: &'static str| v@).contains(candidate@),
{
    let mut i: usize = 0;
    while i < variants.len()
        invariant
            i <= variants@.len(),
            forall|j: int| 0 <= j < i ==> variants@[j]@ != candidate@,
        decreases variants@.len() - i,
    {
        if str_eq(variants[i], candidate) {
            assert(variants@.map_values(|v: &'static str| v@)[i as int] == candidate@);
            return Some(variants[i]);
        }
        i += 1;
    }
    proof {
        let m = variants@.map_values(|v: &'static str| v@);
        if m.contains(candidate@) {
            let j = choose|j: int| 0 <= j < m.len() && m[j] == candidate@;
            assert(variants@[j]@ == candidate@);
        }
    }
    None
}

impl PrefSpec {
    /// Validate a candidate value against this spec's type and range (see [`validation`]).
    pub fn validate(&self, value: PrefValue) -> (r: Result<PrefValue, PrefError>)
        ensures
            validation(self.key@, kind_view(self.kind), value_view(value), r),
    {
        match (self.kind, value) {
            (PrefKind::Bool, PrefValue::Bool(_)) => Ok(value),
            (PrefKind::Scalar { min, max }, PrefValue::Scalar(n)) => {
                if n < min || n > max {
                    Err(PrefError::Range { key: string_of(self.key), value: n, min, max })
                } else {
                    Ok(value)
                }
            },
            (PrefKind::Enum { variants }, PrefValue::Enum(candidate)) => {
                match find_variant(variants, candidate) {
                    Some(v) => Ok(PrefValue::Enum(v)),
                    None => Err(
                        PrefError::Type {
                            key: string_of(self.key),
                            expected: "enum variant",
                            got: "unknown enum variant",
                        },
                    ),
                }
            },
            (kind, got) => Err(
                PrefError::Type { key: string_of(self.key), expected: kind_name(kind), got: got.kind_name() },
            ),
        }
    }
}

/// Current preference-document schema version: version 1 was the original unversioned flat
/// object; version 2 adds the shell accessibility keys and writes `schemaVersion: 2`.
pub const SCHEMA_VERSION: u64 = 2;

const TEXT_SCALE_STEPS: [&'static str; 5] = ["100%", "125%", "150%", "175%", "200%"];

pub open spec fn schema_keys() -> Seq<Seq<char>> {
    seq![
        "textScale"@,
        "highContrast"@,
        "reduceFlashing"@,
        "reduceMotion"@,
        "hapticsEnabled"@,
        "monoAudio"@,
        "brightness"@,
    ]
}

pub open spec fn text_scale_steps() -> Seq<Seq<char>> {
    seq!["100%"@, "125%"@, "150%"@, "175%"@, "200%"@]
}

pub open spec fn schema_kinds() -> Seq<KindView> {
    seq![
        (2, 0i64, 0i64, text_scale_steps()),
        (0, 0i64, 0i64, Seq::empty()),
        (0, 0i64, 0i64, Seq::empty()),
        (0, 0i64, 0i64, Seq::empty()),
        (0, 0i64, 0i64, Seq::empty()),
        (0, 0i64, 0i64, Seq::empty()),
        (1, 0i64, 100i64, Seq::empty()),
    ]
}

pub open spec fn schema_defaults() -> Seq<ValueView> {
    seq![
        enum_view("100%"@),
        bool_view(false),
        bool_view(false),
        bool_view(false),
        bool_view(true),
        bool_view(false),
        scalar_view(100),
    ]
}

pub proof fn lemma_keys_distinct()
    ensures
        forall|i: int, j: int| 0 <= i < 7 && 0 <= j < 7 && i != j ==> schema_keys()[i] != schema_keys()[j],
{
    reveal_strlit("textScale");
    reveal_strlit("highContrast");
    reveal_strlit("reduceFlashing");
    reveal_strlit("reduceMotion");
    reveal_strlit("hapticsEnabled");
    reveal_strlit("monoAudio");
    reveal_strlit("brightness");
    let k = schema_keys();
    assert(k[0].len() == 9 && k[0][0] == 't');
    assert(k[1].len() == 12 && k[1][0] == 'h');
    assert(k[2].len() == 14 && k[2][0] == 'r');
    assert(k[3].len() == 12 && k[3][0] == 'r');
    assert(k[4].len() == 14 && k[4][0] == 'h');
    assert(k[5].len() == 9 && k[5][0] == 'm');
    assert(k[6].len() == 10 && k[6][0] == 'b');
}

/// The row of the schema for `key`.
pub open spec fn schema_index(key: Seq<char>) -> Option<int> {
    if exists|i: int| 0 <= i < 7 && schema_keys()[i] == key {
        Some(choose|i: int| 0 <= i < 7 && schema_keys()[i] == key)
    } else {
        None
    }
}

/// `s` is row `i` of the schema.
pub open spec fn is_row(s: PrefSpec, i: int) -> bool {
    &&& 0 <= i < 7
    &&& s.key@ == schema_keys()[i]
    &&& kind_view(s.kind) == schema_kinds()[i]
    &&& value_view(s.default) == schema_defaults()[i]
}

fn row(i: usize) -> (s: PrefSpec)
    requires
        i < 7,
    ensures
        is_row(s, i as int),
{
    proof {
        reveal_strlit("100%");
        reveal_strlit("125%");
        reveal_strlit("150%");
        reveal_strlit("175%");
        reveal_strlit("200%");
    }
    let s = match i {
        0 => PrefSpec {
            key: "textScale",
            kind: PrefKind::Enum { variants: TEXT_SCALE_STEPS.as_slice() },
            default: PrefValue::Enum("100%"),
            doc: "Scale shell text using a supported step (100%, 125%, 150%, 175%, or 200%).",
        },
        1 => PrefSpec {
            key: "highContrast",
            kind: PrefKind::Bool,
            default: PrefValue::Bool(false),
            doc: "Use the shell's high-contrast presentation.",
        },
        2 => PrefSpec {
            key: "reduceFlashing",
            kind: PrefKind::Bool,
            default: PrefValue::Bool(false),
            doc: "Suppress or replace non-essential flashing effects.",
        },
        3 => PrefSpec {
            key: "reduceMotion",
            kind: PrefKind::Bool,
            default: PrefValue::Bool(false),
            doc: "Suppress non-essential cosmetic motion/animation.",
        },
        4 => PrefSpec {
            key: "hapticsEnabled",
            kind: PrefKind::Bool,
            default: PrefValue::Bool(true),
            doc: "Allow haptic/rumble actuation (honored at the primitive; off => silent no-op).",
        },
        5 => PrefSpec {
            key: "monoAudio",
            kind: PrefKind::Bool,
            default: PrefValue::Bool(false),
            doc: "Down-mix audio to mono for single-ear/hearing accessibility.",
        },
        _ => PrefSpec {
            key: "brightness",
            kind: PrefKind::Scalar { min: 0, max: 100 },
            default: PrefValue::Scalar(100),
            doc: "Display brightness 0..=100 (CONTRACT-ONLY in v1; no sysfs apply leg).",
        },
    };
    proof {
        if i == 0 {
            assert(TEXT_SCALE_STEPS@.map_values(|v: &'static str| v@) =~= text_scale_steps());
        }
    }
    s
}

/// The schema, one row per preference.
pub fn schema() -> (t: Vec<PrefSpec>)
    ensures
        t@.len() == 7,
        forall|i: int| 0 <= i < 7 ==> is_row(#[trigger] t@[i], i),
{
    let mut t: Vec<PrefSpec> = Vec::new();
    let mut i: usize = 0;
    while i < 7
        invariant
            i <= 7,
            t@.len() == i,
            forall|j: int| 0 <= j < i ==> is_row(#[trigger] t@[j], j),
        decreases 7 - i,
    {
        t.push(row(i));
        i += 1;
    }
    t
}

/// Look up the spec for a key, if it is a known preference.
pub fn spec(key: &str) -> (r: Option<PrefSpec>)
    ensures
        match schema_index(key@) {
            Some(i) => r matches Some(s) && is_row(s, i),
            None => r is None,
        },
{
    let mut i: usize = 0;
    while i < 7
        invariant
            i <= 7,
            forall|j: int| 0 <= j < i ==> schema_keys()[j] != key@,
        decreases 7 - i,
    {
        let s = row(i);
        if str_eq(s.key, key) {
            assert(schema_index(key@) == Some(i as int)) by {
                let k = choose|k: int| 0 <= k < 7 && schema_keys()[k] == key@;
                assert(schema_keys()[k] == schema_keys()[i as int]);
                assert(k == i) by {
                    lemma_keys_distinct();
                }
            }
            return Some(s);
        }
        i += 1;
    }
    None
}

/// Validate a value against the schema for `key`; an unknown key is rejected (this is the
/// explicit set path, which must never invent a key).
pub fn validate(key: &str, value: PrefValue) -> (r: Result<PrefValue, PrefError>)
    ensures
        match schema_index(key@) {
            Some(i) => validation(key@, schema_kinds()[i], value_view(value), r),
            None => r matches Err(PrefError::UnknownKey(k)) && k@ == key@,
        },
{
    match spec(key) {
        Some(s) => s.validate(value),
        None => Err(PrefError::UnknownKey(string_of(key))),
    }
}

pub open spec fn bool_true_word(t: Seq<char>) -> bool {
    t == "true"@ || t == "on"@ || t == "1"@ || t == "yes"@
}

pub open spec fn bool_false_word(t: Seq<char>) -> bool {
    t == "false"@ || t == "off"@ || t == "0"@ || t == "no"@
}

/// What parsing `raw` for `key` gives (see [`parse_value`]).
pub open spec fn parse_outcome(key: Seq<char>, raw: Seq<char>, r: Result<PrefValue, PrefError>) -> bool {
    match schema_index(key) {
        None => r matches Err(PrefError::UnknownKey(k)) && k@ == key,
        Some(i) => {
            let kind = schema_kinds()[i];
            let t = trimmed(raw);
            if kind.0 == 0 {
                let l = ascii_lowered(t);
                if bool_true_word(l) {
                    r matches Ok(v) && value_view(v) == bool_view(true)
                } else if bool_false_word(l) {
                    r matches Ok(v) && value_view(v) == bool_view(false)
                } else {
                    r matches Err(PrefError::Type { key: k, expected, got }) && k@ == key
                        && expected@ == "bool"@ && got@ == "unparseable"@
                }
            } else if kind.0 == 1 {
                match parsed_i64(t) {
                    Some(n) => validation(key, kind, scalar_view(n), r),
                    None => r matches Err(PrefError::Type { key: k, expected, got }) && k@ == key
                        && expected@ == "scalar"@ && got@ == "unparseable"@,
                }
            } else {
                if kind.3.contains(t) {
                    r matches Ok(v) && value_view(v) == enum_view(t)
                } else {
                    r matches Err(PrefError::Type { key: k, expected, got }) && k@ == key
                        && expected@ == "enum variant"@ && got@ == "unparseable"@
                }
            }
        },
    }
}

/// Parse a raw command-line string into a validated value for `key`, driven by the key's
/// schema type. Surrounding whitespace is ignored. Bool keys accept `true`/`false`/`on`/`off`/
/// `1`/`0`/`yes`/`no` in any ASCII case; scalar keys accept a signed base-10 integer and are
/// range-checked; enum keys accept exactly one of their variants. Unknown keys, unparseable
/// tokens and out-of-range values are typed errors.
pub fn parse_value(key: &str, raw: &str) -> (r: Result<PrefValue, PrefError>)
    ensures
        parse_outcome(key@, raw@, r),
{
    let s = match spec(key) {
        Some(s) => s,
        None => {
            return Err(PrefError::UnknownKey(string_of(key)));
        },
    };
    let t = trim(raw);
    let value = match s.kind {
        PrefKind::Bool => {
            let l = to_ascii_lowercase(t);
            let ls = l.as_str();
            if str_eq(ls, "true") || str_eq(ls, "on") || str_eq(ls, "1") || str_eq(ls, "yes") {
                PrefValue::Bool(true)
            } else if str_eq(ls, "false") || str_eq(ls, "off") || str_eq(ls, "0") || str_eq(ls, "no") {
                PrefValue::Bool(false)
            } else {
                return Err(PrefError::Type { key: string_of(key), expected: "bool", got: "unparseable" });
            }
        },
        PrefKind::Scalar { .. } => {
            match parse_i64(t) {
                Some(n) => PrefValue::Scalar(n),
                None => {
                    return Err(
                        PrefError::Type { key: string_of(key), expected: "scalar", got: "unparseable" },
                    );
                },
            }
        },
        PrefKind::Enum { variants } => {
            match find_variant(variants, t) {
                Some(v) => PrefValue::Enum(v),
                None => {
                    return Err(
                        PrefError::Type { key: string_of(key), expected: "enum variant", got: "unparseable" },
                    );
                },
            }
        },
    };
    s.validate(value)
}


/// Parsing the text form of a valid value of a key gives the value back.
pub proof fn law_parse_round_trip(key: Seq<char>, v: PrefValue, r: Result<PrefValue, PrefError>)
    requires
        schema_index(key) is Some,
        admissible(schema_kinds()[schema_index(key)->0], value_view(v)),
        parse_outcome(key, value_text(value_view(v)), r),
    ensures
        r matches Ok(x) && value_view(x) == value_view(v),
{
    let i = schema_index(key)->0;
    let kind = schema_kinds()[i];
    let t = value_text(value_view(v));
    match v {
        PrefValue::Bool(b) => {
            reveal_strlit("true");
            reveal_strlit("false");
            reveal_strlit("on");
            reveal_strlit("1");
            reveal_strlit("yes");
            reveal_strlit("off");
            reveal_strlit("0");
            reveal_strlit("no");
            assert(!is_ws(t[0]) && !is_ws(t[t.len() - 1]));
            lemma_trimmed_plain(t);
            assert(ascii_lowered(t) =~= t);
        },
        PrefValue::Scalar(n) => {
            lemma_int_text_round_trip(n);
        },
        PrefValue::Enum(e) => {
            assert(kind.0 == 2);
            assert(i == 0);
            reveal_strlit("100%");
            reveal_strlit("125%");
            reveal_strlit("150%");
            reveal_strlit("175%");
            reveal_strlit("200%");
            assert(text_scale_steps().contains(e@));
            let j = choose|j: int| 0 <= j < text_scale_steps().len() && text_scale_steps()[j] == e@;
            assert(!is_ws(t[0]) && !is_ws(t[t.len() - 1]));
            lemma_trimmed_plain(t);
        },
    }
}


/// For a bool key, the words `true`, `on`, `1` and `yes` (in any ASCII case, surrounding
/// whitespace ignored) parse to true, and `false`, `off`, `0` and `no` to false.
pub proof fn law_bool_words(key: Seq<char>, raw: Seq<char>, r: Result<PrefValue, PrefError>)
    requires
        schema_index(key) is Some,
        schema_kinds()[schema_index(key)->0].0 == 0,
        parse_outcome(key, raw, r),
    ensures
        ({
            let w = ascii_lowered(trimmed(raw));
            &&& (w == "true"@ || w == "on"@ || w == "1"@ || w == "yes"@) ==> r == Ok::<PrefValue, PrefError>(
                PrefValue::Bool(true),
            )
            &&& (w == "false"@ || w == "off"@ || w == "0"@ || w == "no"@) ==> r == Ok::<PrefValue, PrefError>(
                PrefValue::Bool(false),
            )
        }),
{
    reveal_strlit("true");
    reveal_strlit("false");
    reveal_strlit("on");
    reveal_strlit("1");
    reveal_strlit("yes");
    reveal_strlit("off");
    reveal_strlit("0");
    reveal_strlit("no");
    assert("off"@[0] != "yes"@[0]);
    assert("0"@[0] != "1"@[0]);
    assert("no"@[0] != "on"@[0]);
    let w = ascii_lowered(trimmed(raw));
    let i = schema_index(key)->0;
    assert(schema_kinds()[i].0 == 0);
    if w == "true"@ || w == "on"@ || w == "1"@ || w == "yes"@ {
        assert(bool_true_word(w));
        assert(r matches Ok(v) && value_view(v) == bool_view(true));
    }
    if w == "false"@ || w == "off"@ || w == "0"@ || w == "no"@ {
        assert("false"@[0] != "true"@[0]);
        assert("off"@[1] != "on"@[1]);
        assert("off"@ != "yes"@);
        assert("0"@ != "1"@);
        assert("no"@ != "on"@);
        assert("no"@ != "yes"@);
        assert(!bool_true_word(w));
        assert(bool_false_word(w));
        assert(r matches Ok(v) && value_view(v) == bool_view(false));
    }
    if let Ok(v) = r {
        match v {
            PrefValue::Bool(b) => {},
            PrefValue::Scalar(n) => {},
            PrefValue::Enum(e) => {},
        }
    }
}

} // verus!
