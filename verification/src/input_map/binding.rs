//! Bindings: the physical gesture a semantic action is bound to, its validity rules, its
//! collision signature and its stable identifier; and the error type of the input map.
use vstd::prelude::*;
use vstd::string::StrSliceExecFns;
use crate::text::{dec_digits, join, joined, push_str, push_u64, str_eq, string_of, strs};

verus! {

/// The gesture shape of a binding.
#[derive(Clone, Copy, Debug, PartialEq, Eq, Structural)]
pub enum BindingShape {
    SinglePress,
    Chord,
    DoublePress,
    Hold,
}

/// A gesture over one or more physical controls (named by position).
#[derive(Clone, Debug, PartialEq, Eq)]
pub struct Binding {
    pub shape: BindingShape,
    pub controls: Vec<String>,
    pub max_interval_ms: Option<u32>,
    pub min_duration_ms: Option<u32>,
}

/// A binding as plain values: shape, controls, double-press interval, hold duration.
pub type BindingView = (BindingShape, Seq<Seq<char>>, Option<u32>, Option<u32>);

impl View for Binding {
    type V = BindingView;

    open spec fn view(&self) -> BindingView {
        (self.shape, strs(self.controls@), self.max_interval_ms, self.min_duration_ms)
    }
}

/// An input-map error as plain values: a tag, two texts and two numbers.
///
/// Tags: 0 invalid contract, 1 invalid binding, 2 absent control, 3 protected action
/// unreachable, 4 collision, 5 unknown action, 6 transaction active, 7 no transaction,
/// 8 persistence, 9 unsupported version.
pub type FaultView = (int, Seq<char>, Seq<char>, int, int);

pub open spec fn fault(tag: int, a: Seq<char>) -> FaultView {
    (tag, a, Seq::empty(), 0, 0)
}

pub open spec fn fault_contract(m: Seq<char>) -> FaultView {
    fault(0, m)
}

pub open spec fn fault_binding(m: Seq<char>) -> FaultView {
    fault(1, m)
}

pub open spec fn fault_absent(action: Seq<char>) -> FaultView {
    fault(2, action)
}

pub open spec fn fault_unreachable(action: Seq<char>) -> FaultView {
    fault(3, action)
}

pub open spec fn fault_collision(first: Seq<char>, second: Seq<char>) -> FaultView {
    (4, first, second, 0, 0)
}

pub open spec fn fault_unknown(context: Seq<char>, action: Seq<char>) -> FaultView {
    (5, context, action, 0, 0)
}

/// Errors of contract validation, remapping and persistence.
#[derive(Clone, Debug, PartialEq, Eq)]
pub enum MapError {
    InvalidContract(String),
    InvalidBinding(String),
    AbsentControl { action: String },
    ProtectedActionUnreachable(String),
    Collision { first: String, second: String },
    UnknownAction { context: String, action: String },
    TransactionActive,
    NoTransaction,
    Persistence(String),
    UnsupportedVersion { found: u32, supported: u32 },
}

impl View for MapError {
    type V = FaultView;

    open spec fn view(&self) -> FaultView {
        match self {
            MapError::InvalidContract(m) => fault(0, m@),
            MapError::InvalidBinding(m) => fault(1, m@),
            MapError::AbsentControl { action } => fault(2, action@),
            MapError::ProtectedActionUnreachable(a) => fault(3, a@),
            MapError::Collision { first, second } => (4, first@, second@, 0, 0),
            MapError::UnknownAction { context, action } => (5, context@, action@, 0, 0),
            MapError::TransactionActive => fault(6, Seq::empty()),
            MapError::NoTransaction => fault(7, Seq::empty()),
            MapError::Persistence(m) => fault(8, m@),
            MapError::UnsupportedVersion { found, supported } => (9, Seq::empty(), Seq::empty(), *found as int, *supported as int),
        }
    }
}

/// The first problem of a binding, if any (the message of its `InvalidBinding`).
pub open spec fn binding_problem(b: BindingView) -> Option<Seq<char>> {
    if b.1.len() == 0 || exists|i: int| 0 <= i < b.1.len() && #[trigger] b.1[i].len() == 0 {
        Some("controls must be non-empty"@)
    } else if !b.1.no_duplicates() {
        Some("controls must be unique"@)
    } else {
        match b.0 {
            BindingShape::SinglePress => if b.1.len() != 1 {
                Some("single_press requires one control"@)
            } else if b.2 is Some || b.3 is Some {
                Some("timing field is invalid for binding shape"@)
            } else {
                None
            },
            BindingShape::Chord => if b.1.len() < 2 {
                Some("chord requires at least two controls"@)
            } else if b.2 is Some || b.3 is Some {
                Some("timing field is invalid for binding shape"@)
            } else {
                None
            },
            BindingShape::DoublePress => if !(b.2 matches Some(ms) && 100 <= ms <= 2000) {
                Some("double_press requires max_interval_ms from 100 through 2000"@)
            } else if b.3 is Some {
                Some("min_duration_ms is invalid for double_press"@)
            } else {
                None
            },
            BindingShape::Hold => if !(b.3 matches Some(ms) && 250 <= ms <= 5000) {
                Some("hold requires min_duration_ms from 250 through 5000"@)
            } else if b.2 is Some {
                Some("max_interval_ms is invalid for hold"@)
            } else {
                None
            },
        }
    }
}

/// Two bindings are the same gesture: same shape, timing and set of controls.
pub open spec fn same_signature(a: BindingView, b: BindingView) -> bool {
    &&& a.0 == b.0
    &&& a.2 == b.2
    &&& a.3 == b.3
    &&& forall|x: Seq<char>| a.1.contains(x) <==> b.1.contains(x)
}

/// The stable identifier of a binding, e.g. `chord(select+start)` or `hold(guide;1000ms)`.
pub open spec fn binding_id(b: BindingView) -> Seq<char> {
    let c = joined(b.1, "+"@);
    match b.0 {
        BindingShape::SinglePress => "single_press("@ + c + ")"@,
        BindingShape::Chord => "chord("@ + c + ")"@,
        BindingShape::DoublePress => "double_press("@ + c + ";"@ + dec_digits(
            match b.2 {
                Some(ms) => ms as nat,
                None => 0,
            },
        ) + "ms)"@,
        BindingShape::Hold => "hold("@ + c + ";"@ + dec_digits(
            match b.3 {
                Some(ms) => ms as nat,
                None => 0,
            },
        ) + "ms)"@,
    }
}

/// Whether `x` is one of the strings of `v`.
pub fn contains_str(v: &Vec<String>, x: &str) -> (r: bool)
    ensures
        r == strs(v@).contains(x@),
{
    let mut i: usize = 0;
    while i < v.len()
        invariant
            i <= v@.len(),
            forall|j: int| 0 <= j < i ==> v@[j]@ != x@,
        decreases v@.len() - i,
    {
        if str_eq(v[i].as_str(), x) {
            assert(strs(v@)[i as int] == x@);
            return true;
        }
        i += 1;
    }
    assert forall|j: int| 0 <= j < strs(v@).len() implies strs(v@)[j] != x@ by {
        assert(strs(v@)[j] == v@[j]@);
    }
    false
}

/// A fresh copy of a list of strings.
pub fn copy_strs(v: &Vec<String>) -> (r: Vec<String>)
    ensures
        strs(r@) == strs(v@),
{
    let mut r: Vec<String> = Vec::new();
    let mut i: usize = 0;
    while i < v.len()
        invariant
            i <= v@.len(),
            strs(r@) == strs(v@).take(i as int),
        decreases v@.len() - i,
    {
        let ghost before = r@;
        r.push(string_of(v[i].as_str()));
        assert(strs(r@) =~= strs(before).push(v@[i as int]@));
        assert(strs(v@).take(i + 1) =~= strs(v@).take(i as int).push(v@[i as int]@));
        i += 1;
    }
    assert(strs(v@).take(v@.len() as int) =~= strs(v@));
    r
}

fn same_option(a: Option<u32>, b: Option<u32>) -> (r: bool)
    ensures
        r == (a == b),
{
    match (a, b) {
        (Some(x), Some(y)) => x == y,
        (None, None) => true,
        _ => false,
    }
}

fn all_within(a: &Vec<String>, b: &Vec<String>) -> (r: bool)
    ensures
        r == forall|x: Seq<char>| strs(a@).contains(x) ==> strs(b@).contains(x),
{
    let mut i: usize = 0;
    while i < a.len()
        invariant
            i <= a@.len(),
            forall|j: int| 0 <= j < i ==> strs(b@).contains(#[trigger] strs(a@)[j]),
        decreases a@.len() - i,
    {
        if !contains_str(b, a[i].as_str()) {
            assert(strs(a@).contains(strs(a@)[i as int]));
            return false;
        }
        i += 1;
    }
    assert forall|x: Seq<char>| strs(a@).contains(x) implies strs(b@).contains(x) by {
        let j = choose|j: int| 0 <= j < strs(a@).len() && strs(a@)[j] == x;
    }
    true
}

impl Binding {
    /// A single press of one control.
    pub fn single(control: &str) -> (b: Binding)
        ensures
            b@ == (BindingShape::SinglePress, seq![control@], None::<u32>, None::<u32>),
    {
        let mut controls: Vec<String> = Vec::new();
        controls.push(string_of(control));
        let b = Binding { shape: BindingShape::SinglePress, controls, max_interval_ms: None, min_duration_ms: None };
        assert(b@.1 =~= seq![control@]);
        b
    }

    /// A fresh copy of this binding.
    pub fn copy(&self) -> (b: Binding)
        ensures
            b@ == self@,
    {
        Binding {
            shape: self.shape,
            controls: copy_strs(&self.controls),
            max_interval_ms: self.max_interval_ms,
            min_duration_ms: self.min_duration_ms,
        }
    }

    /// Check the binding's shape rules; the error names the first rule broken.
    pub fn validate(&self) -> (r: Result<(), MapError>)
        ensures
            match binding_problem(self@) {
                Some(msg) => r matches Err(e) && e@ == fault_binding(msg),
                None => r is Ok,
            },
    {
        let n = self.controls.len();
        let mut i: usize = 0;
        let mut blank = false;
        while i < n
            invariant
                n == self.controls@.len(),
                i <= n,
                blank == exists|j: int| 0 <= j < i && #[trigger] self@.1[j].len() == 0,
            decreases n - i,
        {
            assert(self@.1[i as int] == self.controls@[i as int]@);
            if self.controls[i].as_str().unicode_len() == 0 {
                blank = true;
            }
            i += 1;
        }
        if n == 0 || blank {
            return Err(MapError::InvalidBinding(string_of("controls must be non-empty")));
        }
        let mut a: usize = 0;
        while a < n
            invariant
                n == self.controls@.len(),
                n > 0,
                !exists|j: int| 0 <= j < n && #[trigger] self@.1[j].len() == 0,
                a <= n,
                forall|p: int, q: int| 0 <= p < a && 0 <= q < n && p != q ==> self@.1[p] != self@.1[q],
            decreases n - a,
        {
            let mut b: usize = 0;
            while b < n
                invariant
                    n == self.controls@.len(),
                    n > 0,
                    !exists|j: int| 0 <= j < n && #[trigger] self@.1[j].len() == 0,
                    a < n,
                    b <= n,
                    forall|p: int, q: int| 0 <= p < a && 0 <= q < n && p != q ==> self@.1[p] != self@.1[q],
                    forall|q: int| 0 <= q < b && q != a ==> self@.1[a as int] != self@.1[q],
                decreases n - b,
            {
                if a != b && str_eq(self.controls[a].as_str(), self.controls[b].as_str()) {
                    assert(self@.1[a as int] == self.controls@[a as int]@);
                    assert(self@.1[b as int] == self.controls@[b as int]@);
                    assert(!self@.1.no_duplicates());
                    return Err(MapError::InvalidBinding(string_of("controls must be unique")));
                }
                b += 1;
            }
            a += 1;
        }
        assert(self@.1.no_duplicates());
        let timed = self.max_interval_ms.is_some() || self.min_duration_ms.is_some();
        match self.shape {
            BindingShape::SinglePress => if n != 1 {
                Err(MapError::InvalidBinding(string_of("single_press requires one control")))
            } else if timed {
                Err(MapError::InvalidBinding(string_of("timing field is invalid for binding shape")))
            } else {
                Ok(())
            },
            BindingShape::Chord => if n < 2 {
                Err(MapError::InvalidBinding(string_of("chord requires at least two controls")))
            } else if timed {
                Err(MapError::InvalidBinding(string_of("timing field is invalid for binding shape")))
            } else {
                Ok(())
            },
            BindingShape::DoublePress => {
                let in_range = match self.max_interval_ms {
                    Some(ms) => 100 <= ms && ms <= 2000,
                    None => false,
                };
                if !in_range {
                    Err(MapError::InvalidBinding(string_of("double_press requires max_interval_ms from 100 through 2000")))
                } else if self.min_duration_ms.is_some() {
                    Err(MapError::InvalidBinding(string_of("min_duration_ms is invalid for double_press")))
                } else {
                    Ok(())
                }
            },
            BindingShape::Hold => {
                let in_range = match self.min_duration_ms {
                    Some(ms) => 250 <= ms && ms <= 5000,
                    None => false,
                };
                if !in_range {
                    Err(MapError::InvalidBinding(string_of("hold requires min_duration_ms from 250 through 5000")))
                } else if self.max_interval_ms.is_some() {
                    Err(MapError::InvalidBinding(string_of("max_interval_ms is invalid for hold")))
                } else {
                    Ok(())
                }
            },
        }
    }

    /// Whether two bindings are the same gesture (see [`same_signature`]).
    pub fn same_signature(&self, other: &Binding) -> (r: bool)
        ensures
            r == same_signature(self@, other@),
    {
        let timing = self.shape == other.shape && same_option(self.max_interval_ms, other.max_interval_ms)
            && same_option(self.min_duration_ms, other.min_duration_ms);
        let forth = all_within(&self.controls, &other.controls);
        let back = all_within(&other.controls, &self.controls);
        proof {
            if !(forth && back) {
                if !forth {
                    let x = choose|x: Seq<char>| !(self@.1.contains(x) ==> other@.1.contains(x));
                    assert(!(self@.1.contains(x) <==> other@.1.contains(x)));
                } else {
                    let x = choose|x: Seq<char>| !(other@.1.contains(x) ==> self@.1.contains(x));
                    assert(!(self@.1.contains(x) <==> other@.1.contains(x)));
                }
            }
        }
        timing && forth && back
    }

    /// The binding's stable identifier (see [`binding_id`]).
    pub fn id(&self) -> (s: String)
        ensures
            s@ == binding_id(self@),
    {
        let c = join(&self.controls, "+");
        let mut s = String::new();
        match self.shape {
            BindingShape::SinglePress => {
                push_str(&mut s, "single_press(");
                push_str(&mut s, c.as_str());
                push_str(&mut s, ")");
            },
            BindingShape::Chord => {
                push_str(&mut s, "chord(");
                push_str(&mut s, c.as_str());
                push_str(&mut s, ")");
            },
            BindingShape::DoublePress => {
                push_str(&mut s, "double_press(");
                push_str(&mut s, c.as_str());
                push_str(&mut s, ";");
                let ms: u32 = match self.max_interval_ms {
                    Some(ms) => ms,
                    None => 0,
                };
                push_u64(&mut s, ms as u64);
                push_str(&mut s, "ms)");
            },
            BindingShape::Hold => {
                push_str(&mut s, "hold(");
                push_str(&mut s, c.as_str());
                push_str(&mut s, ";");
                let ms: u32 = match self.min_duration_ms {
                    Some(ms) => ms,
                    None => 0,
                };
                push_u64(&mut s, ms as u64);
                push_str(&mut s, "ms)");
            },
        }
        proof {
            assert(s@ =~= binding_id(self@));
        }
        s
    }
}

} // verus!
