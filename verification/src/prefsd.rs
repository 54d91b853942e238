//! The preference service's rules: who may connect, how a request's JSON value becomes a typed
//! preference value, how store failures are classified for clients, and how the daemon's
//! command line is read. The socket, the frames and the serving loop are the caller's.
use vstd::prelude::*;
use std::path::{Path, PathBuf};
use crate::prefs::document::{effective, Prefs};
use crate::prefs::error::{io_text, PrefError};
use crate::prefs::schema::{
    kind_name, kind_name_spec, kind_view, schema, schema_index, schema_keys, schema_kinds, spec, validate,
    validation, value_view, PrefKind, PrefValue,
};
use crate::prefs::store::{as_path, buf_bytes, json_kind, json_kind_spec, path_bytes, JsonField};
use crate::text::{dec_digits, int_text, push_i64, push_str, push_u64, str_eq, string_of, strs};

verus! {

/// Machine-readable classification of a daemon failure.
#[derive(Clone, Copy, Debug, PartialEq, Eq, Structural)]
pub enum ErrorKind {
    InvalidValue,
    Store,
    Internal,
    Unknown,
}

/// Why a request to the preference daemon failed.
#[derive(Debug)]
pub enum ClientError {
    /// The daemon could not be reached or the exchange broke off.
    Transport(std::io::Error),
    /// The daemon answered with something that is not a valid response.
    Protocol(String),
    /// The daemon refused the request.
    Remote { message: String, kind: Option<ErrorKind> },
}

impl ClientError {
    /// A one-line human description of the error.
    pub fn message(&self) -> (m: String)
        ensures
            match self {
                ClientError::Transport(_) => m@.len() >= 31 && m@.subrange(0, 31) == "preference daemon unavailable: "@,
                ClientError::Protocol(e) => m@ == "invalid preference daemon response: "@ + e@,
                ClientError::Remote { message, .. } => m@ == "preference daemon rejected request: "@ + message@,
            },
    {
        let mut m = String::new();
        match self {
            ClientError::Transport(e) => {
                push_str(&mut m, "preference daemon unavailable: ");
                let ghost head = m@;
                let t = io_text(e);
                push_str(&mut m, t.as_str());
                proof {
                    reveal_strlit("preference daemon unavailable: ");
                    assert(m@.subrange(0, 31) =~= head);
                }
            },
            ClientError::Protocol(e) => {
                push_str(&mut m, "invalid preference daemon response: ");
                push_str(&mut m, e.as_str());
            },
            ClientError::Remote { message, .. } => {
                push_str(&mut m, "preference daemon rejected request: ");
                push_str(&mut m, message.as_str());
            },
        }
        m
    }
}

/// The owned path of a borrowed one (`Path::to_path_buf`): the same path, owned.
#[verifier::external_body]
fn to_path_buf(p: &Path) -> (r: PathBuf)
    ensures
        buf_bytes(r) == path_bytes(p),
{
    p.to_path_buf()
}

/// The text of a path, when it is valid Unicode (`Path::to_str` of the buffer's path).
pub uninterp spec fn path_text(p: PathBuf) -> Option<Seq<char>>;

/// A path holding the text `s` (`PathBuf::from`): the buffer takes the string's bytes, so its
/// text is `s`.
#[verifier::external_body]
fn path_from(s: String) -> (r: PathBuf)
    ensures
        path_text(r) == Some(s@),
{
    PathBuf::from(s)
}

/// Whether an I/O error's kind is `PermissionDenied` (`std::io::Error::kind`).
pub uninterp spec fn denies_permission(e: std::io::Error) -> bool;

/// An I/O error of kind `PermissionDenied` carrying `message` (`std::io::Error::new`); its
/// `kind()` is the kind it was made with.
#[verifier::external_body]
fn permission_denied(message: String) -> (e: std::io::Error)
    ensures
        denies_permission(e),
{
    std::io::Error::new(std::io::ErrorKind::PermissionDenied, message)
}

/// A client of the daemon listening on one socket; each request uses a fresh connection.
#[derive(Clone, Debug)]
pub struct Client {
    socket: PathBuf,
}

impl Client {
    /// A client of the daemon at `socket`.
    pub fn new(socket: &Path) -> (c: Client)
        ensures
            c.socket_path() == path_bytes(socket),
    {
        Client { socket: to_path_buf(socket) }
    }

    /// The encoded bytes of the daemon's socket path.
    pub closed spec fn socket_path(&self) -> Seq<u8> {
        buf_bytes(self.socket)
    }

    /// The daemon's socket path.
    pub fn socket(&self) -> (p: &Path)
        ensures
            path_bytes(p) == self.socket_path(),
    {
        as_path(&self.socket)
    }
}

/// A connected peer's kernel-attested credentials.
#[derive(Clone, Copy, Debug, PartialEq, Eq, Structural)]
pub struct PeerCred {
    pub pid: i32,
    pub uid: u32,
    pub gid: u32,
}

/// The text of a refused peer.
pub open spec fn refusal(cred: PeerCred, allowed_uid: u32) -> Seq<char> {
    "refused peer pid="@ + int_text(cred.pid as int) + " uid="@ + dec_digits(cred.uid as nat) + " (expected uid="@
        + dec_digits(allowed_uid as nat) + ")"@
}

/// The text of a refused peer, e.g. `refused peer pid=7 uid=41 (expected uid=42)`.
pub fn refusal_text(cred: PeerCred, allowed_uid: u32) -> (m: String)
    ensures
        m@ == refusal(cred, allowed_uid),
{
    let mut m = String::new();
    push_str(&mut m, "refused peer pid=");
    push_i64(&mut m, cred.pid as i64);
    push_str(&mut m, " uid=");
    push_u64(&mut m, cred.uid as u64);
    push_str(&mut m, " (expected uid=");
    push_u64(&mut m, allowed_uid as u64);
    push_str(&mut m, ")");
    m
}

/// Accept a peer only when it runs as the daemon's own user; a refusal is a
/// `PermissionDenied` error carrying [`refusal_text`].
pub fn verify_peer_uid(cred: PeerCred, allowed_uid: u32) -> (r: std::io::Result<()>)
    ensures
        r is Ok <==> cred.uid == allowed_uid,
        r matches Err(e) ==> denies_permission(e),
{
    if cred.uid == allowed_uid {
        Ok(())
    } else {
        Err(permission_denied(refusal_text(cred, allowed_uid)))
    }
}

/// How a store failure is reported to a client.
pub open spec fn classified(e: PrefError) -> ErrorKind {
    match e {
        PrefError::UnknownKey(_) | PrefError::Type { .. } | PrefError::Range { .. } => ErrorKind::InvalidValue,
        PrefError::Io(_) | PrefError::Parse(_) | PrefError::UnsupportedVersion { .. } => ErrorKind::Store,
    }
}

/// Classify a store failure: a bad key or value is the client's, anything else the store's.
pub fn classify_pref_error(error: &PrefError) -> (k: ErrorKind)
    ensures
        k == classified(*error),
{
    match error {
        PrefError::UnknownKey(_) | PrefError::Type { .. } | PrefError::Range { .. } => ErrorKind::InvalidValue,
        PrefError::Io(_) | PrefError::Parse(_) | PrefError::UnsupportedVersion { .. } => ErrorKind::Store,
    }
}

/// The candidate a request's JSON value gives for a key of `kind`: a JSON bool for a bool
/// key, an integer for a scalar key, a listed variant's string for an enum key.
pub open spec fn request_candidate(kind: crate::prefs::schema::KindView, raw: JsonField) -> Option<crate::prefs::schema::ValueView> {
    crate::prefs::store::json_value(kind, raw)
}

/// A set request's JSON value as a validated value for `key`: an unknown key, a JSON value of
/// the wrong shape, or an invalid value is an error.
pub fn json_to_value(key: &str, value: &JsonField) -> (r: Result<PrefValue, PrefError>)
    ensures
        match schema_index(key@) {
            None => r matches Err(PrefError::UnknownKey(k)) && k@ == key@,
            Some(i) => match request_candidate(schema_kinds()[i], *value) {
                None => r matches Err(PrefError::Type { key: k, expected, got }) && k@ == key@ && expected@
                    == kind_name_spec(schema_kinds()[i].0) && got@ == json_kind_spec(*value),
                Some(c) => validation(key@, schema_kinds()[i], c, r),
            },
        },
{
    let s = match spec(key) {
        Some(s) => s,
        None => {
            return Err(PrefError::UnknownKey(string_of(key)));
        },
    };
    let candidate = match crate::prefs::store::json_to_pref(key, s.kind, value) {
        Ok(v) => v,
        Err(_) => {
            return Err(PrefError::Type { key: string_of(key), expected: kind_name(s.kind), got: json_kind(value) });
        },
    };
    validate(key, candidate)
}

/// Every preference's effective value, in schema order (the answer to a request for all).
pub fn schema_values(prefs: &Prefs) -> (r: Vec<(String, PrefValue)>)
    requires
        prefs.wf(),
    ensures
        r@.len() == 7,
        forall|i: int|
            0 <= i < 7 ==> (#[trigger] r@[i]).0@ == schema_keys()[i] && value_view(r@[i].1) == effective(
                prefs.stored_view(),
                schema_keys()[i],
            ),
{
    let rows = schema();
    let mut out: Vec<(String, PrefValue)> = Vec::new();
    let mut i: usize = 0;
    while i < 7
        invariant
            prefs.wf(),
            rows@.len() == 7,
            forall|j: int| 0 <= j < 7 ==> crate::prefs::schema::is_row(#[trigger] rows@[j], j),
            i <= 7,
            out@.len() == i,
            forall|j: int|
                0 <= j < i ==> (#[trigger] out@[j]).0@ == schema_keys()[j] && value_view(out@[j].1) == effective(
                    prefs.stored_view(),
                    schema_keys()[j],
                ),
        decreases 7 - i,
    {
        let key = rows[i].key;
        proof {
            crate::prefs::schema::lemma_keys_distinct();
            assert(key@ == schema_keys()[i as int]);
            assert(schema_index(key@) == Some(i as int));
        }
        let v = match prefs.value(key) {
            Ok(v) => v,
            Err(_) => {
                proof {
                    assert(false);
                }
                rows[i].default
            },
        };
        out.push((string_of(key), v));
        i += 1;
    }
    out
}

/// The daemon's command line: where it keeps the store and where it listens.
#[derive(Debug)]
pub struct Args {
    pub state_dir: PathBuf,
    pub socket: PathBuf,
}

/// The flags read so far, walking the arguments in `--flag value` pairs from `i`.
pub open spec fn walk_flags(args: Seq<Seq<char>>, i: int, state_dir: Option<Seq<char>>, socket: Option<Seq<char>>) -> Result<(Option<Seq<char>>, Option<Seq<char>>), Seq<char>>
    decreases args.len() - i,
{
    if i < 0 || i >= args.len() {
        Ok((state_dir, socket))
    } else if i + 1 >= args.len() {
        Err("missing value for "@ + args[i])
    } else if args[i] == "--state-dir"@ {
        walk_flags(args, i + 2, Some(args[i + 1]), socket)
    } else if args[i] == "--socket"@ {
        walk_flags(args, i + 2, state_dir, Some(args[i + 1]))
    } else {
        Err("unknown argument: "@ + args[i])
    }
}

/// The state directory and socket path the arguments name, or why they are refused (the
/// last of a repeated flag wins).
pub open spec fn flags_of(args: Seq<Seq<char>>) -> Result<(Seq<char>, Seq<char>), Seq<char>> {
    match walk_flags(args, 0, None, None) {
        Err(m) => Err(m),
        Ok((d, s)) => match d {
            None => Err("--state-dir is required"@),
            Some(d) => match s {
                None => Err("--socket is required"@),
                Some(s) => Ok((d, s)),
            },
        },
    }
}

/// Read `--state-dir PATH --socket PATH` (in either order) from the arguments.
pub fn parse_flags(args: &Vec<String>) -> (r: Result<(String, String), String>)
    ensures
        match flags_of(strs(args@)) {
            Ok((d, s)) => r matches Ok((rd, rs)) && rd@ == d && rs@ == s,
            Err(m) => r matches Err(e) && e@ == m,
        },
{
    let ghost a = strs(args@);
    let mut state_dir: Option<String> = None;
    let mut socket: Option<String> = None;
    let mut i: usize = 0;
    while i < args.len()
        invariant
            a == strs(args@),
            i <= args@.len(),
            walk_flags(a, 0, None, None) == walk_flags(
                a,
                i as int,
                match state_dir {
                    Some(d) => Some(d@),
                    None => None,
                },
                match socket {
                    Some(s) => Some(s@),
                    None => None,
                },
            ),
        decreases args@.len() - i,
    {
        let flag = args[i].as_str();
        assert(a[i as int] == flag@);
        if i + 1 >= args.len() {
            let mut m = string_of("missing value for ");
            push_str(&mut m, flag);
            return Err(m);
        }
        assert(a[i + 1] == args@[i + 1]@);
        let value = string_of(args[i + 1].as_str());
        if str_eq(flag, "--state-dir") {
            state_dir = Some(value);
        } else if str_eq(flag, "--socket") {
            socket = Some(value);
        } else {
            let mut m = string_of("unknown argument: ");
            push_str(&mut m, flag);
            return Err(m);
        }
        i += 2;
    }
    match state_dir {
        None => Err(string_of("--state-dir is required")),
        Some(d) => match socket {
            None => Err(string_of("--socket is required")),
            Some(s) => Ok((d, s)),
        },
    }
}

/// Read the daemon's command line (see [`parse_flags`]).
pub fn parse_args(args: Vec<String>) -> (r: Result<Args, String>)
    ensures
        r is Ok <==> flags_of(strs(args@)) is Ok,
        match flags_of(strs(args@)) {
            Err(m) => r matches Err(e) && e@ == m,
            Ok((d, s)) => r matches Ok(a) && path_text(a.state_dir) == Some(d) && path_text(a.socket) == Some(s),
        },
{
    match parse_flags(&args) {
        Ok((d, s)) => Ok(Args { state_dir: path_from(d), socket: path_from(s) }),
        Err(e) => Err(e),
    }
}

} // verus!
