//! Keyed documents as sequences of (key, value) pairs with distinct keys: reading a key, storing
//! a key, and the law that a read gives back what was stored.
use vstd::prelude::*;

verus! {

/// The stored value of `key` in `s`.
pub open spec fn lookup<V>(s: Seq<(Seq<char>, V)>, key: Seq<char>) -> Option<V> {
    if exists|i: int| 0 <= i < s.len() && s[i].0 == key {
        Some(s[choose|i: int| 0 <= i < s.len() && s[i].0 == key].1)
    } else {
        None
    }
}

pub open spec fn keys_distinct<V>(s: Seq<(Seq<char>, V)>) -> bool {
    forall|i: int, j: int| 0 <= i < s.len() && 0 <= j < s.len() && i != j ==> s[i].0 != s[j].0
}

/// `s` with `key` stored as `v` (replacing any earlier value).
pub open spec fn stored_with<V>(s: Seq<(Seq<char>, V)>, key: Seq<char>, v: V) -> Seq<(Seq<char>, V)> {
    if exists|i: int| 0 <= i < s.len() && s[i].0 == key {
        s.update(choose|i: int| 0 <= i < s.len() && s[i].0 == key, (key, v))
    } else {
        s.push((key, v))
    }
}

/// Storing a value and reading it back gives that value, and leaves every other key as it
/// was; a document with distinct keys keeps them distinct.
pub proof fn law_read_after_store<V>(s: Seq<(Seq<char>, V)>, key: Seq<char>, v: V, other: Seq<char>)
    requires
        keys_distinct(s),
    ensures
        keys_distinct(stored_with(s, key, v)),
        lookup(stored_with(s, key, v), key) == Some(v),
        other != key ==> lookup(stored_with(s, key, v), other) == lookup(s, other),
{
    let t = stored_with(s, key, v);
    if exists|i: int| 0 <= i < s.len() && s[i].0 == key {
        let i = choose|i: int| 0 <= i < s.len() && s[i].0 == key;
        assert(t[i].0 == key);
        assert forall|a: int| 0 <= a < t.len() && t[a].0 == key implies a == i by {
            if a != i {
                assert(s[a].0 == key);
            }
        }
        if other != key {
            if exists|j: int| 0 <= j < s.len() && s[j].0 == other {
                let j = choose|j: int| 0 <= j < s.len() && s[j].0 == other;
                assert(t[j].0 == other);
                assert forall|a: int| 0 <= a < t.len() && t[a].0 == other implies a == j by {
                    if a != j && a != i {
                        assert(s[a].0 == other);
                    }
                }
            } else {
                assert forall|a: int| 0 <= a < t.len() implies t[a].0 != other by {
                    if a != i {
                        assert(s[a].0 != other);
                    }
                }
            }
        }
    } else {
        assert(t[s.len() as int].0 == key);
        assert forall|a: int| 0 <= a < t.len() && t[a].0 == key implies a == s.len() by {
            if a < s.len() {
                assert(s[a].0 == key);
            }
        }
        if other != key {
            if exists|j: int| 0 <= j < s.len() && s[j].0 == other {
                let j = choose|j: int| 0 <= j < s.len() && s[j].0 == other;
                assert(t[j].0 == other);
                assert forall|a: int| 0 <= a < t.len() && t[a].0 == other implies a == j by {
                    if a < s.len() && a != j {
                        assert(s[a].0 == other);
                    }
                }
            } else {
                assert forall|a: int| 0 <= a < t.len() implies t[a].0 != other by {
                    if a < s.len() {
                        assert(s[a].0 != other);
                    }
                }
            }
        }
    }
}

} // verus!
