//! The one typed error the preference layer returns. Nothing here panics on bad input: a
//! malformed stored document is a typed error, never an unwrap.
use vstd::prelude::*;
use crate::text::{int_text, push_i64, push_str, push_u64, dec_digits};

verus! {

/// Why a preference read, validation or write failed.
#[derive(Debug)]
pub enum PrefError {
    /// The store file could not be read or written.
    Io(std::io::Error),
    /// The store file exists but is not a valid JSON object.
    Parse(String),
    /// A value was set for a key that is not in the schema.
    UnknownKey(String),
    /// A stored or attempted value had the wrong type for its key.
    Type { key: String, expected: &'static str, got: &'static str },
    /// A scalar value fell outside its schema range.
    Range { key: String, value: i64, min: i64, max: i64 },
    /// The stored document was written by a newer schema than this reader supports.
    UnsupportedVersion { found: u64, supported: u64 },
}

/// The text of an I/O error (`<std::io::Error as Display>`).
#[verifier::external_body]
pub(crate) fn io_text(e: &std::io::Error) -> String {
    format!("{e}")
}

impl PrefError {
    /// A one-line human description of the error.
    pub fn message(&self) -> (m: String)
        ensures
            match self {
                PrefError::Io(_) => m@.len() >= 28 && m@.subrange(0, 28) == "preference store I/O error: "@,
                PrefError::Parse(msg) => m@ == "preference store is not a valid JSON object: "@ + msg@,
                PrefError::UnknownKey(k) => m@ == "unknown preference key '"@ + k@ + "'"@,
                PrefError::Type { key, expected, got } => m@ == "preference '"@ + key@ + "' expects a "@
                    + expected@ + " value, got a "@ + got@,
                PrefError::Range { key, value, min, max } => m@ == "preference '"@ + key@ + "' value "@
                    + int_text(*value as int) + " is out of range "@ + int_text(*min as int) + "..="@
                    + int_text(*max as int),
                PrefError::UnsupportedVersion { found, supported } => m@
                    == "preference store schema version "@ + dec_digits(*found as nat)
                    + " is newer than the supported version "@ + dec_digits(*supported as nat),
            },
    {
        let mut m = String::new();
        match self {
            PrefError::Io(e) => {
                push_str(&mut m, "preference store I/O error: ");
                let ghost head = m@;
                let t = io_text(e);
                push_str(&mut m, t.as_str());
                proof {
                    reveal_strlit("preference store I/O error: ");
                    assert(m@.subrange(0, 28) =~= head);
                }
            },
            PrefError::Parse(msg) => {
                push_str(&mut m, "preference store is not a valid JSON object: ");
                push_str(&mut m, msg.as_str());
            },
            PrefError::UnknownKey(k) => {
                push_str(&mut m, "unknown preference key '");
                push_str(&mut m, k.as_str());
                push_str(&mut m, "'");
            },
            PrefError::Type { key, expected, got } => {
                push_str(&mut m, "preference '");
                push_str(&mut m, key.as_str());
                push_str(&mut m, "' expects a ");
                push_str(&mut m, expected);
                push_str(&mut m, " value, got a ");
                push_str(&mut m, got);
            },
            PrefError::Range { key, value, min, max } => {
                push_str(&mut m, "preference '");
                push_str(&mut m, key.as_str());
                push_str(&mut m, "' value ");
                push_i64(&mut m, *value);
                push_str(&mut m, " is out of range ");
                push_i64(&mut m, *min);
                push_str(&mut m, "..=");
                push_i64(&mut m, *max);
            },
            PrefError::UnsupportedVersion { found, supported } => {
                push_str(&mut m, "preference store schema version ");
                push_u64(&mut m, *found);
                push_str(&mut m, " is newer than the supported version ");
                push_u64(&mut m, *supported);
            },
        }
        m
    }
}

} // verus!
