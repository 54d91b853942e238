//! Synchronous, pull-based boundary contracts for a semantic shell core, with deterministic
//! fakes. Every wait is bounded by a [`Deadline`] drawn from a [`Clock`]; nothing sleeps and
//! nothing depends on an async runtime, so core behaviour is reproducible under [`TestClock`].
//!
//! System-control ports report the state an adapter actually applied: a successful call is
//! never, by itself, evidence that the requested value became effective.
use vstd::prelude::*;
use std::collections::VecDeque;
use std::time::{Duration, SystemTime};
use crate::scene::AxisMove;
use crate::scene::tree::{NodeEntry, Scene};
use crate::text::{push_str, str_eq};

verus! {

#[verifier::external_type_specification]
#[verifier::external_body]
pub struct ExSystemTime(SystemTime);

/// `SystemTime` is `Copy`: its `clone` returns the same instant.
pub assume_specification[ <SystemTime as Clone>::clone ](t: &SystemTime) -> (r: SystemTime)
    ensures
        r == *t,
;

/// `Duration` is `Copy`: its `clone` returns the same span.
pub assume_specification[ <Duration as Clone>::clone ](d: &Duration) -> (r: Duration)
    ensures
        r == *d,
;

/// Monotonic time in nanoseconds from an adapter-defined origin.
#[derive(Clone, Copy, Debug, Default, Eq, Ord, PartialEq, PartialOrd, Structural)]
pub struct MonotonicTime(u64);

/// The whole nanoseconds in a duration, as `Duration::as_nanos` reports them.
pub uninterp spec fn nanos_in(d: Duration) -> u128;

/// The whole nanoseconds in a duration (`Duration::as_nanos`).
#[verifier::external_body]
fn duration_nanos(d: &Duration) -> (r: u128)
    ensures
        r == nanos_in(*d),
{
    d.as_nanos()
}

/// `t` advanced by `n` nanoseconds, saturating at the largest representable time.
pub open spec fn saturated(t: nat, n: u128) -> nat {
    let step: nat = if n > u64::MAX { u64::MAX as nat } else { n as nat };
    if t + step > u64::MAX { u64::MAX as nat } else { t + step }
}

impl MonotonicTime {
    /// The origin (`ZERO`).
    pub fn zero() -> (t: MonotonicTime)
        ensures
            t.nanos() == 0,
    {
        MonotonicTime(0)
    }

    pub closed spec fn nanos(self) -> nat {
        self.0 as nat
    }

    pub fn from_nanos(nanos: u64) -> (t: MonotonicTime)
        ensures
            t.nanos() == nanos,
    {
        MonotonicTime(nanos)
    }

    pub fn as_nanos(self) -> (n: u64)
        ensures
            n == self.nanos(),
    {
        self.0
    }

    /// This time advanced by `duration`, saturating at the largest representable time.
    pub fn saturating_add(self, duration: Duration) -> (t: MonotonicTime)
        ensures
            t.nanos() == saturated(self.nanos(), nanos_in(duration)),
    {
        let n = duration_nanos(&duration);
        let step: u64 = if n > u64::MAX as u128 { u64::MAX } else { n as u64 };
        MonotonicTime(self.0.saturating_add(step))
    }
}

/// An absolute monotonic deadline.
#[derive(Clone, Copy, Debug, Eq, Ord, PartialEq, PartialOrd, Structural)]
pub struct Deadline(pub MonotonicTime);

/// Provides monotonic time and constructs absolute deadlines: the only time source
/// deadline-driven core logic uses.
pub trait Clock {
    /// The clock's current reading.
    spec fn current(&self) -> MonotonicTime;

    fn now(&self) -> (t: MonotonicTime)
        ensures
            t == self.current(),
    ;

    /// A deadline `duration` after now (saturating), never before now.
    fn deadline_after(&self, duration: Duration) -> (d: Deadline)
        ensures
            d.0.nanos() >= self.current().nanos(),
        default_ensures
            d.0.nanos() == saturated(self.current().nanos(), nanos_in(duration)),
    {
        Deadline(self.now().saturating_add(duration))
    }
}

/// A clock that moves only when told to.
#[derive(Clone, Debug, Default)]
pub struct TestClock {
    now: MonotonicTime,
}

impl TestClock {
    pub fn new() -> (c: TestClock)
        ensures
            c.current().nanos() == 0,
    {
        TestClock { now: MonotonicTime(0) }
    }

    /// Move the clock forward by `duration` (saturating).
    pub fn advance(&mut self, duration: Duration)
        ensures
            final(self).current().nanos() == saturated(old(self).current().nanos(), nanos_in(duration)),
    {
        self.now = self.now.saturating_add(duration);
    }
}

impl Clock for TestClock {
    closed spec fn current(&self) -> MonotonicTime {
        self.now
    }

    fn now(&self) -> (t: MonotonicTime) {
        self.now
    }
}

/// Device-independent input understood by shell logic.
#[derive(Clone, Debug, Eq, PartialEq)]
pub enum ShellAction {
    Move(AxisMove),
    Activate,
    Back,
    Custom(String),
}

#[derive(Clone, Debug, Eq, Hash, PartialEq)]
pub struct InputSourceId(pub String);

#[derive(Clone, Debug, Eq, PartialEq)]
pub enum ActionEvent {
    Action(ShellAction),
    ActiveSourceChanged(Option<InputSourceId>),
}

#[derive(Clone, Debug, Eq, PartialEq)]
pub enum ActionPoll {
    Event(ActionEvent),
    DeadlineReached,
    Closed,
}

#[derive(Clone, Debug, Eq, PartialEq)]
pub enum ActionSourceError {
    Unavailable,
    CorruptSequence,
}

/// Delivers ordered semantic actions and active-input-source changes, obeying monotonic
/// deadlines. No evdev events, SDL values, file descriptors or scan codes cross it.
pub trait ActionSource {
    fn next_action(&mut self, deadline: Deadline) -> Result<ActionPoll, ActionSourceError>;
}

#[derive(Clone, Debug, Eq, PartialEq)]
pub struct EffectiveBinding {
    pub binding_id: String,
    pub printed_label: String,
    pub source_fallback: String,
}

#[derive(Clone, Debug, Eq, PartialEq)]
pub enum GlyphResult {
    Resolved(EffectiveBinding),
    UnsupportedAction,
    NoActiveSource,
}

#[derive(Clone, Debug, Eq, PartialEq)]
pub enum GlyphError {
    ResolverUnavailable,
    InvalidBinding,
}

/// Resolves a semantic action to its effective binding, printed label and source fallback.
pub trait GlyphResolver {
    fn resolve(&self, action: &ShellAction) -> Result<GlyphResult, GlyphError>;
}

pub type CatalogRevision = u64;

#[derive(Clone, Debug, Eq, PartialEq)]
pub struct CatalogItem {
    pub id: String,
    pub title: String,
    pub favorite: bool,
}

#[derive(Clone, Debug, Eq, PartialEq)]
pub struct CatalogSnapshot {
    pub revision: CatalogRevision,
    pub items: Vec<CatalogItem>,
}

#[derive(Clone, Debug, Eq, PartialEq)]
pub enum ProviderResult<T> {
    Ready(T),
    Pending,
    Unavailable,
}

#[derive(Clone, Debug, Eq, PartialEq)]
pub enum FavoriteCommitResult {
    Committed(CatalogRevision),
    RevisionConflict { current: CatalogRevision },
    ItemNotFound,
}

#[derive(Clone, Debug, Eq, PartialEq)]
pub enum CatalogError {
    ProviderFailure,
    InvalidSnapshot,
}

/// Supplies immutable, revisioned catalog snapshots and revision-producing favorite commits.
pub trait CatalogPort {
    fn snapshot(&self) -> Result<ProviderResult<CatalogSnapshot>, CatalogError>;

    fn set_favorite(
        &mut self,
        item_id: &str,
        favorite: bool,
        expected_revision: CatalogRevision,
    ) -> Result<FavoriteCommitResult, CatalogError>;
}

#[derive(Clone, Debug, Eq, PartialEq)]
pub struct LaunchRequest {
    pub item_id: String,
}

#[derive(Clone, Debug, Eq, PartialEq)]
pub enum LaunchResult {
    Accepted { session_id: String },
    RejectedBusy,
    ItemUnavailable,
}

#[derive(Clone, Debug, Eq, PartialEq, Structural)]
pub enum ObservedSessionState {
    Starting,
    Running,
    Suspended,
    ObservationComplete,
}

#[derive(Clone, Debug, Eq, PartialEq)]
pub enum TerminalReceipt {
    Returned { session_id: String },
    ForcedClose { session_id: String },
    Crash { session_id: String, summary: String },
}

#[derive(Clone, Debug, Eq, PartialEq)]
pub struct RecoveryRequired {
    pub session_id: String,
    pub reason: String,
}

#[derive(Clone, Debug, Eq, PartialEq)]
pub enum SessionEvent {
    Observed(ObservedSessionState),
    Terminal(TerminalReceipt),
    RecoveryRequired(RecoveryRequired),
}

#[derive(Clone, Debug, Eq, PartialEq)]
pub enum SessionPoll {
    Event(SessionEvent),
    DeadlineReached,
    Idle,
}

#[derive(Clone, Debug, Eq, PartialEq)]
pub enum SessionError {
    BackendUnavailable,
    ReceiptBeforeObservationComplete,
    InvalidLifecycle,
}

/// Submits launches and exposes observed lifecycle and history with typed terminal receipts,
/// publishing a receipt only after observation completed.
pub trait SessionPort {
    fn launch(&mut self, request: LaunchRequest) -> Result<LaunchResult, SessionError>;

    fn next_event(&mut self, deadline: Deadline) -> Result<SessionPoll, SessionError>;

    fn history(&self) -> &[SessionEvent];
}

#[derive(Clone, Debug, Eq, Hash, PartialEq)]
pub struct PreferenceKey(pub String);

#[derive(Clone, Debug, PartialEq)]
pub enum PreferenceValue {
    Bool(bool),
    Integer(i64),
    Text(String),
}

#[derive(Clone, Debug, PartialEq)]
pub struct EffectivePreference {
    pub key: PreferenceKey,
    pub effective: PreferenceValue,
    pub stored: PreferenceValue,
    pub applied: bool,
}

#[derive(Clone, Debug, Eq, PartialEq)]
pub struct ChangeAuthority(pub String);

#[derive(Clone, Debug, PartialEq)]
pub struct PreferenceChange {
    pub key: PreferenceKey,
    pub value: PreferenceValue,
    pub authority: ChangeAuthority,
}

#[derive(Clone, Debug, Eq, PartialEq)]
pub enum PreferenceChangeResult {
    Accepted,
    UnsupportedKey,
    Unauthorized,
    StoredNotApplied,
}

#[derive(Clone, Debug, PartialEq)]
pub enum PreferencePoll {
    Changed(EffectivePreference),
    DeadlineReached,
    Closed,
}

#[derive(Clone, Debug, Eq, PartialEq)]
pub enum PreferenceError {
    BackendUnavailable,
    InvalidValue,
}

/// Reads and subscribes to effective supported preferences and submits authority-scoped
/// changes, distinguishing applied effective state from merely stored state per key.
pub trait PreferencePort {
    fn read(&self, key: &PreferenceKey) -> Result<Option<EffectivePreference>, PreferenceError>;

    fn next_change(&mut self, deadline: Deadline) -> Result<PreferencePoll, PreferenceError>;

    fn submit_change(&mut self, change: PreferenceChange) -> Result<PreferenceChangeResult, PreferenceError>;
}

/// A power action; `capabilities` is authoritative for each.
#[derive(Clone, Copy, Debug, Eq, Hash, PartialEq, Structural)]
pub enum PowerAction {
    PowerOff,
    Restart,
    Sleep,
}

#[derive(Clone, Copy, Debug, Eq, PartialEq, Structural)]
pub enum Support {
    Supported,
    Unsupported,
}

#[derive(Clone, Debug, Eq, PartialEq)]
pub struct PowerCapability {
    pub action: PowerAction,
    pub support: Support,
}

#[derive(Clone, Debug, Eq, PartialEq)]
pub enum PowerRequestResult {
    Accepted,
    Unsupported,
    Refused { reason: String },
}

#[derive(Clone, Debug, Default, Eq, PartialEq)]
pub struct IdlePolicy {
    pub sleep_after: Option<Duration>,
    pub power_off_after: Option<Duration>,
}

#[derive(Clone, Debug, Eq, PartialEq)]
pub struct AppliedIdlePolicy {
    pub requested: IdlePolicy,
    pub applied: IdlePolicy,
}

#[derive(Clone, Debug, Eq, PartialEq)]
pub enum PowerError {
    BackendUnavailable,
    InvalidPolicy,
}

/// Power control: typed acceptance or refusal per action, and idle-policy writes that report
/// both the requested and the applied policy.
pub trait PowerPort {
    fn capabilities(&self) -> Result<Vec<PowerCapability>, PowerError>;

    fn request(&mut self, action: PowerAction) -> Result<PowerRequestResult, PowerError>;

    fn idle_policy(&self) -> Result<IdlePolicy, PowerError>;

    fn set_idle_policy(&mut self, policy: IdlePolicy) -> Result<AppliedIdlePolicy, PowerError>;
}

/// Network time synchronisation state; unsupported is distinct from inactive.
#[derive(Clone, Copy, Debug, Eq, PartialEq, Structural)]
pub enum NtpState {
    Supported,
    Active,
    Inactive,
    Unsupported,
}

#[derive(Clone, Copy, Debug, Eq, PartialEq, Structural)]
pub struct TimeCapabilities {
    pub manual_set_time: Support,
}

#[derive(Clone, Debug, Eq, PartialEq)]
pub struct TimeState {
    pub wall_clock: SystemTime,
    pub timezone: String,
    pub ntp_state: NtpState,
}

#[derive(Clone, Debug, Eq, PartialEq)]
pub struct AppliedValue<T> {
    pub requested: T,
    pub applied: T,
}

#[derive(Clone, Debug, Eq, PartialEq)]
pub enum TimeError {
    BackendUnavailable,
    InvalidTimezone,
    InvalidTime,
    Unsupported,
}

/// Wall-clock control: setters return requested and applied values; manual time changes are
/// gated by `manual_set_time`.
pub trait TimePort {
    fn capabilities(&self) -> Result<TimeCapabilities, TimeError>;

    fn read(&self) -> Result<TimeState, TimeError>;

    fn set_timezone(&mut self, timezone: String) -> Result<AppliedValue<String>, TimeError>;

    fn set_ntp_enabled(&mut self, enabled: bool) -> Result<AppliedValue<bool>, TimeError>;

    fn set_time(&mut self, wall_clock: SystemTime) -> Result<AppliedValue<SystemTime>, TimeError>;
}

#[derive(Clone, Copy, Debug, Eq, PartialEq, Structural)]
pub enum WifiSecurity {
    Open,
    Personal,
    Enterprise,
    Unknown,
}

#[derive(Clone, Debug, Eq, PartialEq)]
pub struct WifiNetwork {
    pub ssid: String,
    pub security: WifiSecurity,
    pub strength: u8,
}

#[derive(Clone, Debug, Eq, PartialEq)]
pub struct NetworkState {
    pub interface_present: bool,
    pub enabled: bool,
    pub connected_ssid: Option<String>,
    pub signal: Option<u8>,
}

/// An opaque WiFi credential. Its description is always redacted.
#[derive(Clone, Eq, PartialEq)]
pub struct WifiCredential(Vec<u8>);

impl WifiCredential {
    pub closed spec fn secret(&self) -> Seq<u8> {
        self.0@
    }

    pub fn new(secret: Vec<u8>) -> (c: WifiCredential)
        ensures
            c.secret() == secret@,
    {
        WifiCredential(secret)
    }

    pub fn expose_secret(&self) -> (s: &[u8])
        ensures
            s@ == self.secret(),
    {
        self.0.as_slice()
    }

    /// The debug description of a credential, which never contains the secret.
    pub fn debug_text(&self) -> (t: String)
        ensures
            t@ == "WifiCredential([REDACTED])"@,
    {
        crate::text::string_of("WifiCredential([REDACTED])")
    }
}

#[derive(Clone, Copy, Debug, Eq, PartialEq, Structural)]
pub enum ConnectProgress {
    Authenticating,
    Associating,
    ObtainingAddress,
}

#[derive(Clone, Debug, Eq, PartialEq)]
pub enum ConnectResult {
    Progress(ConnectProgress),
    Connected { ssid: String },
    Refused,
    NetworkNotFound,
}

#[derive(Clone, Debug, Eq, PartialEq)]
pub struct AppliedNetworkEnabled {
    pub requested: bool,
    pub applied: NetworkState,
}

#[derive(Clone, Debug, Eq, PartialEq)]
pub enum NetworkError {
    BackendUnavailable,
    InterfaceAbsent,
    ScanFailed,
    InvalidCredential,
}

/// WiFi control: state and scans are observations; mutations report typed outcomes.
pub trait NetworkPort {
    fn state(&self) -> Result<NetworkState, NetworkError>;

    fn scan(&mut self) -> Result<Vec<WifiNetwork>, NetworkError>;

    fn connect(&mut self, ssid: &str, credential: WifiCredential) -> Result<ConnectResult, NetworkError>;

    fn forget(&mut self, ssid: &str) -> Result<bool, NetworkError>;

    fn set_enabled(&mut self, enabled: bool) -> Result<AppliedNetworkEnabled, NetworkError>;
}

#[derive(Clone, Copy, Debug, Eq, Hash, PartialEq, Structural)]
pub enum TransferService {
    Sftp,
    UsbMassStorage,
}

#[derive(Clone, Debug, Eq, PartialEq)]
pub struct TransferServiceState {
    pub service: TransferService,
    pub support: Support,
    pub enabled: bool,
    pub endpoint_info: Option<String>,
}

#[derive(Clone, Debug, Eq, PartialEq)]
pub enum TransferWarning {
    ExclusiveStorageAccessRequired,
    Message(String),
}

#[derive(Clone, Debug, Eq, PartialEq)]
pub struct AppliedTransferState {
    pub requested: bool,
    pub applied: TransferServiceState,
    pub warning: Option<TransferWarning>,
}

#[derive(Clone, Debug, Eq, PartialEq)]
pub enum TransferError {
    BackendUnavailable,
    UnknownService,
    Refused,
}

/// File-transfer services: the inventory includes unsupported services for honest display;
/// mutations return the requested value, the applied state and any operational warning.
pub trait TransferPort {
    fn services(&self) -> Result<Vec<TransferServiceState>, TransferError>;

    fn set_enabled(&mut self, service: TransferService, enabled: bool) -> Result<AppliedTransferState, TransferError>;
}

#[derive(Clone, Debug, Eq, PartialEq)]
pub struct PresentAck {
    pub sequence: u64,
}

#[derive(Clone, Debug, Eq, PartialEq)]
pub enum PresentFailure {
    SurfaceLost,
    Rejected,
    Backend(String),
}

pub type PresentResult = Result<PresentAck, PresentFailure>;

/// Presents semantic scenes to a surface and reports acknowledgement or failure.
///
/// Responsibility: expose the current surface metrics (of type `M`) and acknowledge each
/// presentation. Forbidden leakage: rendering policy, focus policy, routes, renderer/device
/// handles, framebuffer details, theme resolution, or ownership of scene mutation.
pub trait FrameHost<M, B> {
    fn metrics(&self) -> M;

    fn present(&mut self, scene: &Scene<B>) -> PresentResult;
}

// ------------------------------------------------------------------------------------------
// Exact copies (a field-for-field clone whose result equals its source).
// ------------------------------------------------------------------------------------------

fn copy_string(s: &String) -> (r: String)
    ensures
        r == *s,
{
    s.clone()
}

fn copy_opt_string(s: &Option<String>) -> (r: Option<String>)
    ensures
        r == *s,
{
    match s {
        Some(t) => Some(t.clone()),
        None => None,
    }
}

fn copy_glyph(r: &Result<GlyphResult, GlyphError>) -> (c: Result<GlyphResult, GlyphError>)
    ensures
        c == *r,
{
    match r {
        Ok(GlyphResult::Resolved(b)) => Ok(
            GlyphResult::Resolved(
                EffectiveBinding {
                    binding_id: copy_string(&b.binding_id),
                    printed_label: copy_string(&b.printed_label),
                    source_fallback: copy_string(&b.source_fallback),
                },
            ),
        ),
        Ok(GlyphResult::UnsupportedAction) => Ok(GlyphResult::UnsupportedAction),
        Ok(GlyphResult::NoActiveSource) => Ok(GlyphResult::NoActiveSource),
        Err(GlyphError::ResolverUnavailable) => Err(GlyphError::ResolverUnavailable),
        Err(GlyphError::InvalidBinding) => Err(GlyphError::InvalidBinding),
    }
}

fn copy_items(v: &Vec<CatalogItem>) -> (r: Vec<CatalogItem>)
    ensures
        r@ == v@,
{
    let mut r: Vec<CatalogItem> = Vec::new();
    let mut i: usize = 0;
    while i < v.len()
        invariant
            i <= v@.len(),
            r@ == v@.take(i as int),
        decreases v@.len() - i,
    {
        let it = &v[i];
        r.push(CatalogItem { id: copy_string(&it.id), title: copy_string(&it.title), favorite: it.favorite });
        assert(v@.take(i + 1) =~= v@.take(i as int).push(v@[i as int]));
        i += 1;
    }
    assert(v@.take(v@.len() as int) =~= v@);
    r
}

/// Two provider states are the same: same variant, and for a ready snapshot the same revision
/// and items.
pub open spec fn same_catalog_state(
    a: Result<ProviderResult<CatalogSnapshot>, CatalogError>,
    b: Result<ProviderResult<CatalogSnapshot>, CatalogError>,
) -> bool {
    match (a, b) {
        (Ok(ProviderResult::Ready(x)), Ok(ProviderResult::Ready(y))) => x.revision == y.revision
            && x.items@ == y.items@,
        (Ok(ProviderResult::Ready(_)), _) => false,
        (_, Ok(ProviderResult::Ready(_))) => false,
        _ => a == b,
    }
}

fn copy_catalog_state(s: &Result<ProviderResult<CatalogSnapshot>, CatalogError>) -> (r: Result<
    ProviderResult<CatalogSnapshot>,
    CatalogError,
>)
    ensures
        same_catalog_state(r, *s),
{
    match s {
        Ok(ProviderResult::Ready(snap)) => Ok(
            ProviderResult::Ready(CatalogSnapshot { revision: snap.revision, items: copy_items(&snap.items) }),
        ),
        Ok(ProviderResult::Pending) => Ok(ProviderResult::Pending),
        Ok(ProviderResult::Unavailable) => Ok(ProviderResult::Unavailable),
        Err(CatalogError::ProviderFailure) => Err(CatalogError::ProviderFailure),
        Err(CatalogError::InvalidSnapshot) => Err(CatalogError::InvalidSnapshot),
    }
}

fn copy_launch(r: &Result<LaunchResult, SessionError>) -> (c: Result<LaunchResult, SessionError>)
    ensures
        c == *r,
{
    match r {
        Ok(LaunchResult::Accepted { session_id }) => Ok(LaunchResult::Accepted { session_id: copy_string(session_id) }),
        Ok(LaunchResult::RejectedBusy) => Ok(LaunchResult::RejectedBusy),
        Ok(LaunchResult::ItemUnavailable) => Ok(LaunchResult::ItemUnavailable),
        Err(SessionError::BackendUnavailable) => Err(SessionError::BackendUnavailable),
        Err(SessionError::ReceiptBeforeObservationComplete) => Err(SessionError::ReceiptBeforeObservationComplete),
        Err(SessionError::InvalidLifecycle) => Err(SessionError::InvalidLifecycle),
    }
}

fn copy_session_event(e: &SessionEvent) -> (c: SessionEvent)
    ensures
        c == *e,
{
    match e {
        SessionEvent::Observed(o) => SessionEvent::Observed(
            match o {
                ObservedSessionState::Starting => ObservedSessionState::Starting,
                ObservedSessionState::Running => ObservedSessionState::Running,
                ObservedSessionState::Suspended => ObservedSessionState::Suspended,
                ObservedSessionState::ObservationComplete => ObservedSessionState::ObservationComplete,
            },
        ),
        SessionEvent::Terminal(TerminalReceipt::Returned { session_id }) => SessionEvent::Terminal(
            TerminalReceipt::Returned { session_id: copy_string(session_id) },
        ),
        SessionEvent::Terminal(TerminalReceipt::ForcedClose { session_id }) => SessionEvent::Terminal(
            TerminalReceipt::ForcedClose { session_id: copy_string(session_id) },
        ),
        SessionEvent::Terminal(TerminalReceipt::Crash { session_id, summary }) => SessionEvent::Terminal(
            TerminalReceipt::Crash { session_id: copy_string(session_id), summary: copy_string(summary) },
        ),
        SessionEvent::RecoveryRequired(r) => SessionEvent::RecoveryRequired(
            RecoveryRequired { session_id: copy_string(&r.session_id), reason: copy_string(&r.reason) },
        ),
    }
}

fn copy_pref_value(v: &PreferenceValue) -> (c: PreferenceValue)
    ensures
        c == *v,
{
    match v {
        PreferenceValue::Bool(b) => PreferenceValue::Bool(*b),
        PreferenceValue::Integer(i) => PreferenceValue::Integer(*i),
        PreferenceValue::Text(t) => PreferenceValue::Text(copy_string(t)),
    }
}

fn copy_pref(p: &EffectivePreference) -> (c: EffectivePreference)
    ensures
        c == *p,
{
    EffectivePreference {
        key: PreferenceKey(copy_string(&p.key.0)),
        effective: copy_pref_value(&p.effective),
        stored: copy_pref_value(&p.stored),
        applied: p.applied,
    }
}

fn copy_time_state(s: &TimeState) -> (c: TimeState)
    ensures
        c == *s,
{
    TimeState { wall_clock: s.wall_clock, timezone: copy_string(&s.timezone), ntp_state: s.ntp_state }
}

fn copy_network_state(s: &NetworkState) -> (c: NetworkState)
    ensures
        c == *s,
{
    NetworkState {
        interface_present: s.interface_present,
        enabled: s.enabled,
        connected_ssid: copy_opt_string(&s.connected_ssid),
        signal: s.signal,
    }
}

fn copy_transfer_state(s: &TransferServiceState) -> (c: TransferServiceState)
    ensures
        c == *s,
{
    TransferServiceState {
        service: s.service,
        support: s.support,
        enabled: s.enabled,
        endpoint_info: copy_opt_string(&s.endpoint_info),
    }
}

fn copy_transfer_states(v: &Vec<TransferServiceState>) -> (r: Vec<TransferServiceState>)
    ensures
        r@ == v@,
{
    let mut r: Vec<TransferServiceState> = Vec::new();
    let mut i: usize = 0;
    while i < v.len()
        invariant
            i <= v@.len(),
            r@ == v@.take(i as int),
        decreases v@.len() - i,
    {
        r.push(copy_transfer_state(&v[i]));
        assert(v@.take(i + 1) =~= v@.take(i as int).push(v@[i as int]));
        i += 1;
    }
    assert(v@.take(v@.len() as int) =~= v@);
    r
}

fn copy_capabilities(v: &Vec<PowerCapability>) -> (r: Vec<PowerCapability>)
    ensures
        r@ == v@,
{
    let mut r: Vec<PowerCapability> = Vec::new();
    let mut i: usize = 0;
    while i < v.len()
        invariant
            i <= v@.len(),
            r@ == v@.take(i as int),
        decreases v@.len() - i,
    {
        r.push(PowerCapability { action: v[i].action, support: v[i].support });
        assert(v@.take(i + 1) =~= v@.take(i as int).push(v@[i as int]));
        i += 1;
    }
    assert(v@.take(v@.len() as int) =~= v@);
    r
}

fn copy_idle_policy(p: &IdlePolicy) -> (c: IdlePolicy)
    ensures
        c == *p,
{
    IdlePolicy { sleep_after: p.sleep_after, power_off_after: p.power_off_after }
}

/// A queue built from a vector, front first.
fn queue_of<T>(v: Vec<T>) -> (q: VecDeque<T>)
    ensures
        q@ == v@,
{
    let ghost all = v@;
    let mut v = v;
    let mut q: VecDeque<T> = VecDeque::new();
    while v.len() > 0
        invariant
            all == v@ + q@,
        decreases v@.len(),
    {
        let ghost before = v@;
        let x = v.pop().unwrap();
        q.push_front(x);
        assert(all =~= v@ + q@) by {
            assert(before =~= v@.push(x));
        }
    }
    assert(all =~= q@);
    q
}

// ------------------------------------------------------------------------------------------
// Deterministic fakes.
// ------------------------------------------------------------------------------------------

/// Script item for [`FakeActionSource`].
#[derive(Clone, Debug)]
pub enum ScriptedAction {
    /// An event that becomes available at the given time.
    At(MonotonicTime, ActionEvent),
    Error(ActionSourceError),
    Close,
}

/// A scripted action source paced by its own clock.
pub struct FakeActionSource<C> {
    clock: C,
    script: VecDeque<ScriptedAction>,
}

impl<C> FakeActionSource<C> {
    pub closed spec fn clock_state(&self) -> C {
        self.clock
    }

    /// The script items not yet delivered, in order.
    pub closed spec fn pending(&self) -> Seq<ScriptedAction> {
        self.script@
    }

    pub fn new(clock: C, script: Vec<ScriptedAction>) -> (s: FakeActionSource<C>)
        ensures
            s.clock_state() == clock,
            s.pending() == script@,
    {
        FakeActionSource { clock, script: queue_of(script) }
    }

    /// The fake's clock, so a test can advance time explicitly.
    pub fn clock_mut(&mut self) -> (c: &mut C)
        ensures
            *c == old(self).clock_state(),
            final(self).clock_state() == *final(c),
            final(self).pending() == old(self).pending(),
    {
        &mut self.clock
    }
}

impl<C: Clock> ActionSource for FakeActionSource<C> {
    /// The next scripted item: an event whose time has not come (by the clock or by the
    /// deadline) answers `DeadlineReached` and stays queued; otherwise the item is consumed and
    /// delivered; an exhausted script reads as closed.
    fn next_action(&mut self, deadline: Deadline) -> (r: Result<ActionPoll, ActionSourceError>)
        ensures
            final(self).clock_state() == old(self).clock_state(),
            ({
                let s = old(self).pending();
                let now = old(self).clock_state().current();
                if s.len() == 0 {
                    r == Ok::<ActionPoll, ActionSourceError>(ActionPoll::Closed) && final(self).pending() == s
                } else {
                    match s[0] {
                        ScriptedAction::At(at, ev) => if at.nanos() > now.nanos() || at.nanos()
                            > deadline.0.nanos() {
                            r == Ok::<ActionPoll, ActionSourceError>(ActionPoll::DeadlineReached)
                                && final(self).pending() == s
                        } else {
                            r == Ok::<ActionPoll, ActionSourceError>(ActionPoll::Event(ev))
                                && final(self).pending() == s.drop_first()
                        },
                        ScriptedAction::Error(e) => r == Err::<ActionPoll, ActionSourceError>(e)
                            && final(self).pending() == s.drop_first(),
                        ScriptedAction::Close => r == Ok::<ActionPoll, ActionSourceError>(
                            ActionPoll::Closed,
                        ) && final(self).pending() == s.drop_first(),
                    }
                }
            }),
    {
        if self.script.len() == 0 {
            return Ok(ActionPoll::Closed);
        }
        let not_yet = match &self.script[0] {
            ScriptedAction::At(at, _) => {
                let now = self.clock.now();
                at.0 > now.0 || at.0 > deadline.0.0
            },
            _ => false,
        };
        if not_yet {
            return Ok(ActionPoll::DeadlineReached);
        }
        match self.script.pop_front() {
            Some(ScriptedAction::At(_, event)) => Ok(ActionPoll::Event(event)),
            Some(ScriptedAction::Error(error)) => Err(error),
            Some(ScriptedAction::Close) => Ok(ActionPoll::Closed),
            None => Ok(ActionPoll::Closed),
        }
    }
}

/// A glyph resolver that answers every action with one configured result.
#[derive(Debug)]
pub struct FakeGlyphResolver {
    pub result: Result<GlyphResult, GlyphError>,
}

impl GlyphResolver for FakeGlyphResolver {
    fn resolve(&self, action: &ShellAction) -> (r: Result<GlyphResult, GlyphError>)
        ensures
            r == self.result,
    {
        copy_glyph(&self.result)
    }
}

/// A catalog over one in-memory provider state.
#[derive(Debug)]
pub struct FakeCatalog {
    state: Result<ProviderResult<CatalogSnapshot>, CatalogError>,
}

/// Index of the first item with id `id`.
pub open spec fn item_index(items: Seq<CatalogItem>, id: Seq<char>) -> Option<int> {
    if exists|i: int| 0 <= i < items.len() && items[i].id@ == id {
        Some(choose|i: int| 0 <= i < items.len() && items[i].id@ == id && forall|j: int| 0 <= j < i ==> items[j].id@ != id)
    } else {
        None
    }
}

impl FakeCatalog {
    pub closed spec fn provider_state(&self) -> Result<ProviderResult<CatalogSnapshot>, CatalogError> {
        self.state
    }

    /// A catalog serving a ready snapshot.
    pub fn fixture(snapshot: CatalogSnapshot) -> (c: FakeCatalog)
        ensures
            c.provider_state() == Ok::<ProviderResult<CatalogSnapshot>, CatalogError>(ProviderResult::Ready(snapshot)),
    {
        FakeCatalog { state: Ok(ProviderResult::Ready(snapshot)) }
    }

    /// A catalog serving the given provider state.
    pub fn returning(state: Result<ProviderResult<CatalogSnapshot>, CatalogError>) -> (c: FakeCatalog)
        ensures
            c.provider_state() == state,
    {
        FakeCatalog { state }
    }
}

/// The index of the first item with id `id`.
fn find_item(items: &Vec<CatalogItem>, id: &str) -> (r: Option<usize>)
    ensures
        r matches Some(i) ==> i < items@.len() && item_index(items@, id@) == Some(i as int),
        r is None ==> item_index(items@, id@) is None,
{
    let mut i: usize = 0;
    while i < items.len()
        invariant
            i <= items@.len(),
            forall|j: int| 0 <= j < i ==> items@[j].id@ != id@,
        decreases items@.len() - i,
    {
        if str_eq(items[i].id.as_str(), id) {
            assert(item_index(items@, id@) == Some(i as int)) by {
                assert(items@[i as int].id@ == id@);
                let k = choose|k: int|
                    0 <= k < items@.len() && items@[k].id@ == id@ && forall|j: int|
                        0 <= j < k ==> items@[j].id@ != id@;
                if k > i {
                    assert(items@[i as int].id@ != id@);
                }
            }
            return Some(i);
        }
        i += 1;
    }
    None
}

impl CatalogPort for FakeCatalog {
    fn snapshot(&self) -> (r: Result<ProviderResult<CatalogSnapshot>, CatalogError>)
        ensures
            same_catalog_state(r, self.provider_state()),
    {
        copy_catalog_state(&self.state)
    }

    /// Commit a favorite flag against an expected revision: a stale revision is a conflict
    /// naming the current one, an unknown item is reported, and a commit flips the first item
    /// with that id and yields the next revision. A provider that is not ready fails.
    fn set_favorite(&mut self, item_id: &str, favorite: bool, expected_revision: u64) -> (r: Result<
        FavoriteCommitResult,
        CatalogError,
    >)
        ensures
            match old(self).provider_state() {
                Err(e) => r == Err::<FavoriteCommitResult, CatalogError>(e) && final(self).provider_state() == old(self).provider_state(),
                Ok(ProviderResult::Ready(snap)) => if snap.revision != expected_revision {
                    r == Ok::<FavoriteCommitResult, CatalogError>(FavoriteCommitResult::RevisionConflict { current: snap.revision })
                        && final(self).provider_state() == old(self).provider_state()
                } else {
                    match item_index(snap.items@, item_id@) {
                        None => r == Ok::<FavoriteCommitResult, CatalogError>(FavoriteCommitResult::ItemNotFound)
                            && final(self).provider_state() == old(self).provider_state(),
                        Some(i) => {
                            let rev: u64 = if snap.revision == u64::MAX { 0 } else { (snap.revision + 1) as u64 };
                            &&& r == Ok::<FavoriteCommitResult, CatalogError>(FavoriteCommitResult::Committed(rev))
                            &&& final(self).provider_state() matches Ok(ProviderResult::Ready(ns))
                            &&& ns.revision == rev
                            &&& ns.items@ == snap.items@.update(i, CatalogItem { favorite, ..snap.items@[i] })
                        },
                    }
                },
                _ => r == Err::<FavoriteCommitResult, CatalogError>(CatalogError::ProviderFailure)
                    && final(self).provider_state() == old(self).provider_state(),
            },
    {
        let mut found: usize = 0;
        match &self.state {
            Err(CatalogError::ProviderFailure) => {
                return Err(CatalogError::ProviderFailure);
            },
            Err(CatalogError::InvalidSnapshot) => {
                return Err(CatalogError::InvalidSnapshot);
            },
            Ok(ProviderResult::Ready(snap)) => {
                if snap.revision != expected_revision {
                    return Ok(FavoriteCommitResult::RevisionConflict { current: snap.revision });
                }
                match find_item(&snap.items, item_id) {
                    Some(i) => {
                        found = i;
                    },
                    None => {
                        return Ok(FavoriteCommitResult::ItemNotFound);
                    },
                }
            },
            Ok(_) => {
                return Err(CatalogError::ProviderFailure);
            },
        }
        let mut st: Result<ProviderResult<CatalogSnapshot>, CatalogError> = Err(CatalogError::ProviderFailure);
        std::mem::swap(&mut st, &mut self.state);
        match st {
            Ok(ProviderResult::Ready(snap)) => {
                let mut snap = snap;
                let ghost before = snap.items@;
                let mut item = snap.items.remove(found);
                item.favorite = favorite;
                snap.items.insert(found, item);
                assert(snap.items@ =~= before.update(found as int, CatalogItem { favorite, ..before[found as int] }));
                snap.revision = snap.revision.wrapping_add(1);
                let rev = snap.revision;
                proof {
                    let os = old(self).provider_state();
                    assert(os matches Ok(ProviderResult::Ready(o)) && o.items@ == before);
                    assert(item_index(before, item_id@) == Some(found as int));
                }
                self.state = Ok(ProviderResult::Ready(snap));
                Ok(FavoriteCommitResult::Committed(rev))
            },
            other => {
                self.state = other;
                Err(CatalogError::ProviderFailure)
            },
        }
    }
}

/// Script item for [`FakeSession`].
#[derive(Clone, Debug)]
pub enum ScriptedSession {
    Event(SessionEvent),
    Deadline,
    Idle,
    Error(SessionError),
}

/// A scripted session backend that enforces observation before receipts.
pub struct FakeSession {
    launch_result: Result<LaunchResult, SessionError>,
    script: VecDeque<ScriptedSession>,
    history: Vec<SessionEvent>,
    observation_complete: bool,
}

impl FakeSession {
    pub closed spec fn launch_reply(&self) -> Result<LaunchResult, SessionError> {
        self.launch_result
    }

    pub closed spec fn pending(&self) -> Seq<ScriptedSession> {
        self.script@
    }

    pub closed spec fn recorded(&self) -> Seq<SessionEvent> {
        self.history@
    }

    /// Whether observation completed since the last launch.
    pub closed spec fn observed_complete(&self) -> bool {
        self.observation_complete
    }

    pub fn new(launch_result: Result<LaunchResult, SessionError>, script: Vec<ScriptedSession>) -> (s: FakeSession)
        ensures
            s.launch_reply() == launch_result,
            s.pending() == script@,
            s.recorded() == Seq::<SessionEvent>::empty(),
            !s.observed_complete(),
    {
        FakeSession { launch_result, script: queue_of(script), history: Vec::new(), observation_complete: false }
    }
}

impl SessionPort for FakeSession {
    fn launch(&mut self, request: LaunchRequest) -> (r: Result<LaunchResult, SessionError>)
        ensures
            r == old(self).launch_reply(),
            !final(self).observed_complete(),
            final(self).pending() == old(self).pending(),
            final(self).recorded() == old(self).recorded(),
            final(self).launch_reply() == old(self).launch_reply(),
    {
        self.observation_complete = false;
        copy_launch(&self.launch_result)
    }

    /// The next scripted item (idle once the script is exhausted). A terminal receipt before
    /// observation completed is refused; every delivered event is appended to the history.
    fn next_event(&mut self, deadline: Deadline) -> (r: Result<SessionPoll, SessionError>)
        ensures
            final(self).launch_reply() == old(self).launch_reply(),
            old(self).pending().len() == 0 ==> r == Ok::<SessionPoll, SessionError>(SessionPoll::Idle)
                && final(self).pending() == old(self).pending() && final(self).recorded() == old(self).recorded()
                && final(self).observed_complete() == old(self).observed_complete(),
            old(self).pending().len() > 0 ==> final(self).pending() == old(self).pending().drop_first() && match old(self).pending()[0] {
                ScriptedSession::Event(SessionEvent::Terminal(t)) if !old(self).observed_complete() =>
                    r == Err::<SessionPoll, SessionError>(SessionError::ReceiptBeforeObservationComplete)
                    && final(self).recorded() == old(self).recorded() && !final(self).observed_complete(),
                ScriptedSession::Event(ev) => r == Ok::<SessionPoll, SessionError>(SessionPoll::Event(ev))
                    && final(self).recorded() == old(self).recorded().push(ev)
                    && final(self).observed_complete() == (old(self).observed_complete()
                        || ev == SessionEvent::Observed(ObservedSessionState::ObservationComplete)),
                ScriptedSession::Deadline => r == Ok::<SessionPoll, SessionError>(SessionPoll::DeadlineReached)
                    && final(self).recorded() == old(self).recorded() && final(self).observed_complete() == old(self).observed_complete(),
                ScriptedSession::Idle => r == Ok::<SessionPoll, SessionError>(SessionPoll::Idle)
                    && final(self).recorded() == old(self).recorded() && final(self).observed_complete() == old(self).observed_complete(),
                ScriptedSession::Error(e) => r == Err::<SessionPoll, SessionError>(e)
                    && final(self).recorded() == old(self).recorded() && final(self).observed_complete() == old(self).observed_complete(),
            },
            r matches Ok(SessionPoll::Event(SessionEvent::Terminal(_))) ==> old(self).observed_complete(),
    {
        let item = match self.script.pop_front() {
            Some(it) => it,
            None => ScriptedSession::Idle,
        };
        match item {
            ScriptedSession::Event(event) => {
                let terminal = match &event {
                    SessionEvent::Terminal(_) => true,
                    _ => false,
                };
                if terminal && !self.observation_complete {
                    return Err(SessionError::ReceiptBeforeObservationComplete);
                }
                let complete = match &event {
                    SessionEvent::Observed(ObservedSessionState::ObservationComplete) => true,
                    _ => false,
                };
                if complete {
                    self.observation_complete = true;
                }
                self.history.push(copy_session_event(&event));
                Ok(SessionPoll::Event(event))
            },
            ScriptedSession::Deadline => Ok(SessionPoll::DeadlineReached),
            ScriptedSession::Idle => Ok(SessionPoll::Idle),
            ScriptedSession::Error(error) => Err(error),
        }
    }

    fn history(&self) -> (h: &[SessionEvent])
        ensures
            h@ == self.recorded(),
    {
        self.history.as_slice()
    }
}

/// Index of the entry for `key` among preference entries.
pub open spec fn pref_index(entries: Seq<EffectivePreference>, key: Seq<char>) -> Option<int> {
    if exists|i: int| 0 <= i < entries.len() && entries[i].key.0@ == key {
        Some(choose|i: int| 0 <= i < entries.len() && entries[i].key.0@ == key)
    } else {
        None
    }
}

/// Some entry among the first `n` has key `k`.
pub open spec fn has_key(entries: Seq<EffectivePreference>, n: int, k: Seq<char>) -> bool {
    exists|i: int| 0 <= i < n && i < entries.len() && entries[i].key.0@ == k
}

/// The last of the first `n` entries with key `k`, if any.
pub open spec fn last_for(entries: Seq<EffectivePreference>, n: int, k: Seq<char>) -> Option<EffectivePreference>
    decreases n,
{
    if n <= 0 {
        None
    } else if entries[n - 1].key.0@ == k {
        Some(entries[n - 1])
    } else {
        last_for(entries, n - 1, k)
    }
}

/// No two entries share a key.
pub open spec fn keys_unique(entries: Seq<EffectivePreference>) -> bool {
    forall|i: int, j: int|
        0 <= i < entries.len() && 0 <= j < entries.len() && i != j ==> entries[i].key.0@ != entries[j].key.0@
}

fn find_pref(entries: &Vec<EffectivePreference>, key: &str) -> (r: Option<usize>)
    requires
        keys_unique(entries@),
    ensures
        r matches Some(i) ==> i < entries@.len() && pref_index(entries@, key@) == Some(i as int),
        r is None ==> pref_index(entries@, key@) is None,
{
    let mut i: usize = 0;
    while i < entries.len()
        invariant
            i <= entries@.len(),
            keys_unique(entries@),
            forall|j: int| 0 <= j < i ==> entries@[j].key.0@ != key@,
        decreases entries@.len() - i,
    {
        if str_eq(entries[i].key.0.as_str(), key) {
            assert(entries@[i as int].key.0@ == key@);
            return Some(i);
        }
        i += 1;
    }
    None
}

/// A preference port over in-memory entries (one per key), a queue of change notifications,
/// and the one authority allowed to change them.
pub struct FakePreferencePort {
    values: Vec<EffectivePreference>,
    changes: VecDeque<Result<PreferencePoll, PreferenceError>>,
    allowed_authority: ChangeAuthority,
}

impl FakePreferencePort {
    pub closed spec fn entries(&self) -> Seq<EffectivePreference> {
        self.values@
    }

    pub closed spec fn queued(&self) -> Seq<Result<PreferencePoll, PreferenceError>> {
        self.changes@
    }

    pub closed spec fn authority(&self) -> Seq<char> {
        self.allowed_authority.0@
    }

    pub closed spec fn wf(&self) -> bool {
        keys_unique(self.values@)
    }

    /// A port over `values` (a later entry for a key replaces an earlier one) that accepts
    /// changes from `allowed_authority` only.
    pub fn new(values: Vec<EffectivePreference>, allowed_authority: ChangeAuthority) -> (p: FakePreferencePort)
        ensures
            p.wf(),
            p.queued() == Seq::<Result<PreferencePoll, PreferenceError>>::empty(),
            p.authority() == allowed_authority.0@,
            forall|k: Seq<char>|
                (#[trigger] pref_index(p.entries(), k) is Some) <==> has_key(values@, values@.len() as int, k),
            forall|i: int| 0 <= i < p.entries().len() ==> Some(#[trigger] p.entries()[i]) == last_for(
                values@,
                values@.len() as int,
                p.entries()[i].key.0@,
            ),
    {
        let mut entries: Vec<EffectivePreference> = Vec::new();
        let mut values = values;
        let ghost all = values@;
        let total = values.len();
        let mut taken: usize = 0;
        while values.len() > 0
            invariant
                all.len() == total,
                keys_unique(entries@),
                taken + values@.len() == all.len(),
                values@ == all.subrange(taken as int, all.len() as int),
                forall|k: Seq<char>|
                    #[trigger] has_key(entries@, entries@.len() as int, k) <==> has_key(all, taken as int, k),
                forall|i: int| 0 <= i < entries@.len() ==> Some(#[trigger] entries@[i]) == last_for(all, taken as int, entries@[i].key.0@),
            decreases values@.len(),
        {
            assert(values@[0] == all[taken as int]);
            let v = values.remove(0);
            let ghost ke = v.key.0@;
            let ghost before = entries@;
            match find_pref(&entries, v.key.0.as_str()) {
                Some(i) => {
                    entries.set(i, v);
                    assert forall|a: int, b: int|
                        0 <= a < entries@.len() && 0 <= b < entries@.len() && a != b implies entries@[a].key.0@
                            != entries@[b].key.0@ by {
                        if a == i {
                            assert(before[b].key.0@ != before[i as int].key.0@);
                        } else if b == i {
                            assert(before[a].key.0@ != before[i as int].key.0@);
                        }
                    }
                    assert forall|k: Seq<char>|
                        #[trigger] has_key(entries@, entries@.len() as int, k) <==> has_key(all, taken + 1, k) by {
                        if has_key(all, taken + 1, k) {
                            let q = choose|q: int| 0 <= q < taken + 1 && q < all.len() && all[q].key.0@ == k;
                            if q < taken {
                                assert(has_key(all, taken as int, k));
                                assert(has_key(before, before.len() as int, k));
                                let w = choose|w: int| 0 <= w < before.len() && w < before.len() && before[w].key.0@ == k;
                                assert(entries@[w].key.0@ == k);
                            } else {
                                assert(entries@[i as int].key.0@ == k);
                            }
                        }
                        if has_key(entries@, entries@.len() as int, k) {
                            let q = choose|q: int| 0 <= q < entries@.len() && q < entries@.len() && entries@[q].key.0@ == k;
                            if q != i {
                                assert(before[q].key.0@ == k);
                                assert(has_key(before, before.len() as int, k));
                            } else {
                                assert(all[taken as int].key.0@ == k);
                            }
                        }
                    }
                },
                None => {
                    entries.push(v);
                    assert forall|a: int, b: int|
                        0 <= a < entries@.len() && 0 <= b < entries@.len() && a != b implies entries@[a].key.0@
                            != entries@[b].key.0@ by {
                        if a == before.len() as int {
                            assert(before[b].key.0@ != ke);
                        } else if b == before.len() as int {
                            assert(before[a].key.0@ != ke);
                        }
                    }
                    assert forall|k: Seq<char>|
                        #[trigger] has_key(entries@, entries@.len() as int, k) <==> has_key(all, taken + 1, k) by {
                        if has_key(all, taken + 1, k) {
                            let q = choose|q: int| 0 <= q < taken + 1 && q < all.len() && all[q].key.0@ == k;
                            if q < taken {
                                assert(has_key(all, taken as int, k));
                                assert(has_key(before, before.len() as int, k));
                                let w = choose|w: int| 0 <= w < before.len() && w < before.len() && before[w].key.0@ == k;
                                assert(entries@[w].key.0@ == k);
                            } else {
                                assert(entries@[before.len() as int].key.0@ == k);
                            }
                        }
                        if has_key(entries@, entries@.len() as int, k) {
                            let q = choose|q: int| 0 <= q < entries@.len() && q < entries@.len() && entries@[q].key.0@ == k;
                            if q < before.len() {
                                assert(before[q].key.0@ == k);
                                assert(has_key(before, before.len() as int, k));
                            } else {
                                assert(all[taken as int].key.0@ == k);
                            }
                        }
                    }
                },
            }
            taken += 1;
        }
        assert(all.subrange(0, all.len() as int) =~= all);
        let p = FakePreferencePort { values: entries, changes: VecDeque::new(), allowed_authority };
        assert forall|k: Seq<char>|
            (#[trigger] pref_index(p.entries(), k) is Some) <==> has_key(all, all.len() as int, k) by {
            assert(has_key(p.values@, p.values@.len() as int, k) <==> has_key(all, taken as int, k));
            if has_key(p.values@, p.values@.len() as int, k) {
                let q = choose|q: int| 0 <= q < p.values@.len() && q < p.values@.len() && p.values@[q].key.0@ == k;
                assert(p.values@[q].key.0@ == k);
            }
        }
        p
    }

    /// Queue a change notification (or failure) for `next_change`.
    pub fn script_poll(&mut self, poll: Result<PreferencePoll, PreferenceError>)
        ensures
            final(self).queued() == old(self).queued().push(poll),
            final(self).entries() == old(self).entries(),
            final(self).authority() == old(self).authority(),
            final(self).wf() == old(self).wf(),
    {
        self.changes.push_back(poll);
    }
}

impl PreferencePort for FakePreferencePort {
    fn read(&self, key: &PreferenceKey) -> (r: Result<Option<EffectivePreference>, PreferenceError>)
        ensures
            self.wf() ==> match pref_index(self.entries(), key.0@) {
                Some(i) => r == Ok::<Option<EffectivePreference>, PreferenceError>(Some(self.entries()[i])),
                None => r == Ok::<Option<EffectivePreference>, PreferenceError>(None),
            },
    {
        if !self.wf_check() {
            return Ok(None);
        }
        match find_pref(&self.values, key.0.as_str()) {
            Some(i) => Ok(Some(copy_pref(&self.values[i]))),
            None => Ok(None),
        }
    }

    /// The next queued notification, or `DeadlineReached` when none is queued.
    fn next_change(&mut self, deadline: Deadline) -> (r: Result<PreferencePoll, PreferenceError>)
        ensures
            final(self).entries() == old(self).entries(),
            final(self).authority() == old(self).authority(),
            final(self).wf() == old(self).wf(),
            old(self).queued().len() == 0 ==> r == Ok::<PreferencePoll, PreferenceError>(PreferencePoll::DeadlineReached)
                && final(self).queued() == old(self).queued(),
            old(self).queued().len() > 0 ==> r == old(self).queued()[0] && final(self).queued() == old(self).queued().drop_first(),
    {
        match self.changes.pop_front() {
            Some(p) => p,
            None => Ok(PreferencePoll::DeadlineReached),
        }
    }

    /// Submit a change: a foreign authority is unauthorized; an unknown key is unsupported; the
    /// stored value always takes the new value; the effective value changes (and a change
    /// notification is queued) only when the key is applied.
    fn submit_change(&mut self, change: PreferenceChange) -> (r: Result<PreferenceChangeResult, PreferenceError>)
        ensures
            final(self).authority() == old(self).authority(),
            final(self).wf() == old(self).wf(),
            old(self).wf() ==> if change.authority.0@ != old(self).authority() {
                r == Ok::<PreferenceChangeResult, PreferenceError>(PreferenceChangeResult::Unauthorized)
                    && final(self).entries() == old(self).entries() && final(self).queued() == old(self).queued()
            } else {
                match pref_index(old(self).entries(), change.key.0@) {
                    None => r == Ok::<PreferenceChangeResult, PreferenceError>(PreferenceChangeResult::UnsupportedKey)
                        && final(self).entries() == old(self).entries() && final(self).queued() == old(self).queued(),
                    Some(i) => {
                        let cur = old(self).entries()[i];
                        if cur.applied {
                            let upd = EffectivePreference { stored: change.value, effective: change.value, ..cur };
                            &&& r == Ok::<PreferenceChangeResult, PreferenceError>(PreferenceChangeResult::Accepted)
                            &&& final(self).entries() == old(self).entries().update(i, upd)
                            &&& final(self).queued() == old(self).queued().push(Ok(PreferencePoll::Changed(upd)))
                        } else {
                            &&& r == Ok::<PreferenceChangeResult, PreferenceError>(PreferenceChangeResult::StoredNotApplied)
                            &&& final(self).entries() == old(self).entries().update(
                                i,
                                EffectivePreference { stored: change.value, ..cur },
                            )
                            &&& final(self).queued() == old(self).queued()
                        }
                    },
                }
            },
    {
        if !str_eq(change.authority.0.as_str(), self.allowed_authority.0.as_str()) {
            return Ok(PreferenceChangeResult::Unauthorized);
        }
        if !self.wf_check() {
            return Ok(PreferenceChangeResult::UnsupportedKey);
        }
        let i = match find_pref(&self.values, change.key.0.as_str()) {
            Some(i) => i,
            None => {
                return Ok(PreferenceChangeResult::UnsupportedKey);
            },
        };
        let ghost before = self.values@;
        let mut cur = self.values.remove(i);
        cur.stored = copy_pref_value(&change.value);
        if !cur.applied {
            self.values.insert(i, cur);
            assert(self.values@ =~= before.update(i as int, EffectivePreference { stored: change.value, ..before[i as int] }));
            assert(self.wf()) by {
                assert forall|a: int, b: int|
                    0 <= a < self.values@.len() && 0 <= b < self.values@.len() && a != b implies self.values@[a].key.0@
                        != self.values@[b].key.0@ by {
                    assert(self.values@[a].key == before[a].key);
                    assert(self.values@[b].key == before[b].key);
                }
            }
            return Ok(PreferenceChangeResult::StoredNotApplied);
        }
        cur.effective = change.value;
        let note = copy_pref(&cur);
        self.values.insert(i, cur);
        assert(self.values@ =~= before.update(i as int, note));
        assert(self.wf()) by {
            assert forall|a: int, b: int|
                0 <= a < self.values@.len() && 0 <= b < self.values@.len() && a != b implies self.values@[a].key.0@
                    != self.values@[b].key.0@ by {
                assert(self.values@[a].key == before[a].key);
                assert(self.values@[b].key == before[b].key);
            }
        }
        self.changes.push_back(Ok(PreferencePoll::Changed(note)));
        Ok(PreferenceChangeResult::Accepted)
    }
}

impl FakePreferencePort {
    /// Whether the entries still have one per key (always, for a port built by `new`).
    fn wf_check(&self) -> (b: bool)
        ensures
            b == self.wf(),
    {
        let mut i: usize = 0;
        while i < self.values.len()
            invariant
                i <= self.values@.len(),
                forall|a: int, b: int|
                    0 <= a < i && 0 <= b < self.values@.len() && a != b ==> self.values@[a].key.0@
                        != self.values@[b].key.0@,
            decreases self.values@.len() - i,
        {
            let mut j: usize = 0;
            while j < self.values.len()
                invariant
                    i < self.values@.len(),
                    j <= self.values@.len(),
                    forall|b: int|
                        0 <= b < j && b != i ==> self.values@[i as int].key.0@ != self.values@[b].key.0@,
                decreases self.values@.len() - j,
            {
                if j != i && str_eq(self.values[i].key.0.as_str(), self.values[j].key.0.as_str()) {
                    return false;
                }
                j += 1;
            }
            i += 1;
        }
        true
    }
}

/// Whether `caps` lists `action` as supported.
pub open spec fn supports(caps: Seq<PowerCapability>, action: PowerAction) -> bool {
    exists|i: int| 0 <= i < caps.len() && caps[i].action == action && caps[i].support == Support::Supported
}

/// A power port over configured capabilities and idle policy, with scripted replies.
pub struct FakePowerPort {
    pub capabilities_result: Result<Vec<PowerCapability>, PowerError>,
    pub idle_policy_result: Result<IdlePolicy, PowerError>,
    requests: VecDeque<Result<PowerRequestResult, PowerError>>,
    policy_writes: VecDeque<Result<AppliedIdlePolicy, PowerError>>,
}

impl FakePowerPort {
    pub closed spec fn caps_state(&self) -> Result<Vec<PowerCapability>, PowerError> {
        self.capabilities_result
    }

    pub closed spec fn idle_state(&self) -> Result<IdlePolicy, PowerError> {
        self.idle_policy_result
    }

    pub closed spec fn scripted_requests(&self) -> Seq<Result<PowerRequestResult, PowerError>> {
        self.requests@
    }

    pub closed spec fn scripted_writes(&self) -> Seq<Result<AppliedIdlePolicy, PowerError>> {
        self.policy_writes@
    }

    pub fn new(capabilities: Vec<PowerCapability>, idle_policy: IdlePolicy) -> (p: FakePowerPort)
        ensures
            p.caps_state() matches Ok(c) && c@ == capabilities@,
            p.idle_state() == Ok::<IdlePolicy, PowerError>(idle_policy),
            p.scripted_requests().len() == 0,
            p.scripted_writes().len() == 0,
    {
        FakePowerPort {
            capabilities_result: Ok(capabilities),
            idle_policy_result: Ok(idle_policy),
            requests: VecDeque::new(),
            policy_writes: VecDeque::new(),
        }
    }

    /// Queue the reply to the next `request`.
    pub fn script_request(&mut self, result: Result<PowerRequestResult, PowerError>)
        ensures
            final(self).scripted_requests() == old(self).scripted_requests().push(result),
            final(self).scripted_writes() == old(self).scripted_writes(),
            final(self).caps_state() == old(self).caps_state(),
            final(self).idle_state() == old(self).idle_state(),
    {
        self.requests.push_back(result);
    }

    /// Queue the reply to the next `set_idle_policy`.
    pub fn script_policy_write(&mut self, result: Result<AppliedIdlePolicy, PowerError>)
        ensures
            final(self).scripted_writes() == old(self).scripted_writes().push(result),
            final(self).scripted_requests() == old(self).scripted_requests(),
            final(self).caps_state() == old(self).caps_state(),
            final(self).idle_state() == old(self).idle_state(),
    {
        self.policy_writes.push_back(result);
    }
}

fn any_supported(caps: &Vec<PowerCapability>, action: PowerAction) -> (b: bool)
    ensures
        b == supports(caps@, action),
{
    let mut i: usize = 0;
    while i < caps.len()
        invariant
            i <= caps@.len(),
            forall|j: int| 0 <= j < i ==> !(caps@[j].action == action && caps@[j].support == Support::Supported),
        decreases caps@.len() - i,
    {
        if caps[i].action == action && caps[i].support == Support::Supported {
            return true;
        }
        i += 1;
    }
    false
}

impl PowerPort for FakePowerPort {
    fn capabilities(&self) -> (r: Result<Vec<PowerCapability>, PowerError>)
        ensures
            match self.caps_state() {
                Ok(c) => r matches Ok(d) && d@ == c@,
                Err(e) => r == Err::<Vec<PowerCapability>, PowerError>(e),
            },
    {
        match &self.capabilities_result {
            Ok(c) => Ok(copy_capabilities(c)),
            Err(PowerError::BackendUnavailable) => Err(PowerError::BackendUnavailable),
            Err(PowerError::InvalidPolicy) => Err(PowerError::InvalidPolicy),
        }
    }

    /// A scripted reply if one is queued; otherwise accepted exactly when the capabilities
    /// list the action as supported.
    fn request(&mut self, action: PowerAction) -> (r: Result<PowerRequestResult, PowerError>)
        ensures
            final(self).caps_state() == old(self).caps_state(),
            final(self).idle_state() == old(self).idle_state(),
            final(self).scripted_writes() == old(self).scripted_writes(),
            old(self).scripted_requests().len() > 0 ==> r == old(self).scripted_requests()[0]
                && final(self).scripted_requests() == old(self).scripted_requests().drop_first(),
            old(self).scripted_requests().len() == 0 ==> final(self).scripted_requests() == old(self).scripted_requests()
                && r == Ok::<PowerRequestResult, PowerError>(
                if old(self).caps_state() matches Ok(c) && supports(c@, action) {
                    PowerRequestResult::Accepted
                } else {
                    PowerRequestResult::Unsupported
                },
            ),
    {
        match self.requests.pop_front() {
            Some(r) => r,
            None => {
                let ok = match &self.capabilities_result {
                    Ok(c) => any_supported(c, action),
                    Err(_) => false,
                };
                if ok {
                    Ok(PowerRequestResult::Accepted)
                } else {
                    Ok(PowerRequestResult::Unsupported)
                }
            },
        }
    }

    fn idle_policy(&self) -> (r: Result<IdlePolicy, PowerError>)
        ensures
            r == self.idle_state(),
    {
        match &self.idle_policy_result {
            Ok(p) => Ok(copy_idle_policy(p)),
            Err(PowerError::BackendUnavailable) => Err(PowerError::BackendUnavailable),
            Err(PowerError::InvalidPolicy) => Err(PowerError::InvalidPolicy),
        }
    }

    /// A scripted reply if one is queued, else the policy applied as requested; on success
    /// the applied policy becomes the current one.
    fn set_idle_policy(&mut self, policy: IdlePolicy) -> (r: Result<AppliedIdlePolicy, PowerError>)
        ensures
            final(self).caps_state() == old(self).caps_state(),
            final(self).scripted_requests() == old(self).scripted_requests(),
            ({
                let reply = if old(self).scripted_writes().len() > 0 {
                    old(self).scripted_writes()[0]
                } else {
                    Ok(AppliedIdlePolicy { requested: policy, applied: policy })
                };
                &&& r == reply
                &&& final(self).scripted_writes() == if old(self).scripted_writes().len() > 0 {
                    old(self).scripted_writes().drop_first()
                } else {
                    old(self).scripted_writes()
                }
                &&& final(self).idle_state() == match reply {
                    Ok(a) => Ok::<IdlePolicy, PowerError>(a.applied),
                    Err(_) => old(self).idle_state(),
                }
            }),
    {
        let result = match self.policy_writes.pop_front() {
            Some(r) => r,
            None => Ok(AppliedIdlePolicy { requested: copy_idle_policy(&policy), applied: policy }),
        };
        match result {
            Ok(a) => {
                self.idle_policy_result = Ok(copy_idle_policy(&a.applied));
                Ok(a)
            },
            Err(e) => Err(e),
        }
    }
}

/// A time port over configured capabilities and state, with scripted replies.
pub struct FakeTimePort {
    pub capabilities_result: Result<TimeCapabilities, TimeError>,
    pub state_result: Result<TimeState, TimeError>,
    timezone_writes: VecDeque<Result<AppliedValue<String>, TimeError>>,
    ntp_writes: VecDeque<Result<AppliedValue<bool>, TimeError>>,
    time_writes: VecDeque<Result<AppliedValue<SystemTime>, TimeError>>,
}

fn copy_time_error(e: &TimeError) -> (c: TimeError)
    ensures
        c == *e,
{
    match e {
        TimeError::BackendUnavailable => TimeError::BackendUnavailable,
        TimeError::InvalidTimezone => TimeError::InvalidTimezone,
        TimeError::InvalidTime => TimeError::InvalidTime,
        TimeError::Unsupported => TimeError::Unsupported,
    }
}

impl FakeTimePort {
    pub closed spec fn caps_state(&self) -> Result<TimeCapabilities, TimeError> {
        self.capabilities_result
    }

    pub closed spec fn time_state(&self) -> Result<TimeState, TimeError> {
        self.state_result
    }

    pub closed spec fn scripted_timezones(&self) -> Seq<Result<AppliedValue<String>, TimeError>> {
        self.timezone_writes@
    }

    pub closed spec fn scripted_ntp(&self) -> Seq<Result<AppliedValue<bool>, TimeError>> {
        self.ntp_writes@
    }

    pub closed spec fn scripted_times(&self) -> Seq<Result<AppliedValue<SystemTime>, TimeError>> {
        self.time_writes@
    }

    pub fn new(capabilities: TimeCapabilities, state: TimeState) -> (p: FakeTimePort)
        ensures
            p.caps_state() == Ok::<TimeCapabilities, TimeError>(capabilities),
            p.time_state() == Ok::<TimeState, TimeError>(state),
            p.scripted_timezones().len() == 0,
            p.scripted_ntp().len() == 0,
            p.scripted_times().len() == 0,
    {
        FakeTimePort {
            capabilities_result: Ok(capabilities),
            state_result: Ok(state),
            timezone_writes: VecDeque::new(),
            ntp_writes: VecDeque::new(),
            time_writes: VecDeque::new(),
        }
    }

    pub fn script_timezone(&mut self, result: Result<AppliedValue<String>, TimeError>)
        ensures
            final(self).scripted_timezones() == old(self).scripted_timezones().push(result),
            final(self).scripted_ntp() == old(self).scripted_ntp(),
            final(self).scripted_times() == old(self).scripted_times(),
            final(self).caps_state() == old(self).caps_state(),
            final(self).time_state() == old(self).time_state(),
    {
        self.timezone_writes.push_back(result);
    }

    pub fn script_ntp(&mut self, result: Result<AppliedValue<bool>, TimeError>)
        ensures
            final(self).scripted_ntp() == old(self).scripted_ntp().push(result),
            final(self).scripted_timezones() == old(self).scripted_timezones(),
            final(self).scripted_times() == old(self).scripted_times(),
            final(self).caps_state() == old(self).caps_state(),
            final(self).time_state() == old(self).time_state(),
    {
        self.ntp_writes.push_back(result);
    }

    pub fn script_time(&mut self, result: Result<AppliedValue<SystemTime>, TimeError>)
        ensures
            final(self).scripted_times() == old(self).scripted_times().push(result),
            final(self).scripted_timezones() == old(self).scripted_timezones(),
            final(self).scripted_ntp() == old(self).scripted_ntp(),
            final(self).caps_state() == old(self).caps_state(),
            final(self).time_state() == old(self).time_state(),
    {
        self.time_writes.push_back(result);
    }
}

impl TimePort for FakeTimePort {
    fn capabilities(&self) -> (r: Result<TimeCapabilities, TimeError>)
        ensures
            r == self.caps_state(),
    {
        match &self.capabilities_result {
            Ok(c) => Ok(*c),
            Err(e) => Err(copy_time_error(e)),
        }
    }

    fn read(&self) -> (r: Result<TimeState, TimeError>)
        ensures
            r == self.time_state(),
    {
        match &self.state_result {
            Ok(s) => Ok(copy_time_state(s)),
            Err(e) => Err(copy_time_error(e)),
        }
    }

    /// A scripted reply if one is queued, else the zone applied as requested; on success a
    /// readable state takes the applied zone.
    fn set_timezone(&mut self, timezone: String) -> (r: Result<AppliedValue<String>, TimeError>)
        ensures
            final(self).caps_state() == old(self).caps_state(),
            final(self).scripted_ntp() == old(self).scripted_ntp(),
            final(self).scripted_times() == old(self).scripted_times(),
            ({
                let reply = if old(self).scripted_timezones().len() > 0 {
                    old(self).scripted_timezones()[0]
                } else {
                    Ok(AppliedValue { requested: timezone, applied: timezone })
                };
                &&& r == reply
                &&& final(self).scripted_timezones() == if old(self).scripted_timezones().len() > 0 {
                    old(self).scripted_timezones().drop_first()
                } else {
                    old(self).scripted_timezones()
                }
                &&& final(self).time_state() == match (reply, old(self).time_state()) {
                    (Ok(a), Ok(st)) => Ok::<TimeState, TimeError>(TimeState { timezone: a.applied, ..st }),
                    _ => old(self).time_state(),
                }
            }),
    {
        let result = match self.timezone_writes.pop_front() {
            Some(r) => r,
            None => Ok(AppliedValue { requested: copy_string(&timezone), applied: timezone }),
        };
        let a = match result {
            Ok(a) => a,
            Err(e) => {
                return Err(e);
            },
        };
        let mut st: Result<TimeState, TimeError> = Err(TimeError::BackendUnavailable);
        std::mem::swap(&mut st, &mut self.state_result);
        match st {
            Ok(s) => {
                let mut s = s;
                s.timezone = copy_string(&a.applied);
                self.state_result = Ok(s);
            },
            Err(e) => {
                self.state_result = Err(e);
            },
        }
        Ok(a)
    }

    /// A scripted reply if one is queued; otherwise unsupported synchronisation is refused and
    /// anything else is applied as requested. On success a readable state reports active or
    /// inactive per the applied value.
    fn set_ntp_enabled(&mut self, enabled: bool) -> (r: Result<AppliedValue<bool>, TimeError>)
        ensures
            final(self).caps_state() == old(self).caps_state(),
            final(self).scripted_timezones() == old(self).scripted_timezones(),
            final(self).scripted_times() == old(self).scripted_times(),
            final(self).scripted_ntp() == if old(self).scripted_ntp().len() > 0 {
                old(self).scripted_ntp().drop_first()
            } else {
                old(self).scripted_ntp()
            },
            ({
                let reply = if old(self).scripted_ntp().len() > 0 {
                    old(self).scripted_ntp()[0]
                } else if old(self).time_state() matches Ok(st) && st.ntp_state == NtpState::Unsupported {
                    Err(TimeError::Unsupported)
                } else {
                    Ok(AppliedValue { requested: enabled, applied: enabled })
                };
                &&& r == reply
                &&& final(self).time_state() == match (reply, old(self).time_state()) {
                    (Ok(a), Ok(st)) => Ok::<TimeState, TimeError>(
                        TimeState { ntp_state: if a.applied { NtpState::Active } else { NtpState::Inactive }, ..st },
                    ),
                    _ => old(self).time_state(),
                }
            }),
    {
        let result = match self.ntp_writes.pop_front() {
            Some(r) => r,
            None => {
                let unsupported = match &self.state_result {
                    Ok(st) => st.ntp_state == NtpState::Unsupported,
                    Err(_) => false,
                };
                if unsupported {
                    return Err(TimeError::Unsupported);
                }
                Ok(AppliedValue { requested: enabled, applied: enabled })
            },
        };
        let a = match result {
            Ok(a) => a,
            Err(e) => {
                return Err(e);
            },
        };
        let mut st: Result<TimeState, TimeError> = Err(TimeError::BackendUnavailable);
        std::mem::swap(&mut st, &mut self.state_result);
        match st {
            Ok(s) => {
                let mut s = s;
                s.ntp_state = if a.applied { NtpState::Active } else { NtpState::Inactive };
                self.state_result = Ok(s);
            },
            Err(e) => {
                self.state_result = Err(e);
            },
        }
        Ok(a)
    }

    /// Refused when manual time is unsupported; otherwise a scripted reply if one is queued,
    /// else the time applied as requested; on success a readable state takes the applied time.
    fn set_time(&mut self, wall_clock: SystemTime) -> (r: Result<AppliedValue<SystemTime>, TimeError>)
        ensures
            final(self).caps_state() == old(self).caps_state(),
            final(self).scripted_timezones() == old(self).scripted_timezones(),
            final(self).scripted_ntp() == old(self).scripted_ntp(),
            (old(self).caps_state() matches Ok(c) && c.manual_set_time == Support::Unsupported) ==> (
            r == Err::<AppliedValue<SystemTime>, TimeError>(TimeError::Unsupported) && final(self).time_state()
                == old(self).time_state() && final(self).scripted_times() == old(self).scripted_times()),
            !(old(self).caps_state() matches Ok(c) && c.manual_set_time == Support::Unsupported) ==> ({
                let reply = if old(self).scripted_times().len() > 0 {
                    old(self).scripted_times()[0]
                } else {
                    Ok(AppliedValue { requested: wall_clock, applied: wall_clock })
                };
                &&& r == reply
                &&& final(self).scripted_times() == if old(self).scripted_times().len() > 0 {
                    old(self).scripted_times().drop_first()
                } else {
                    old(self).scripted_times()
                }
                &&& final(self).time_state() == match (reply, old(self).time_state()) {
                    (Ok(a), Ok(st)) => Ok::<TimeState, TimeError>(TimeState { wall_clock: a.applied, ..st }),
                    _ => old(self).time_state(),
                }
            }),
    {
        let gated = match &self.capabilities_result {
            Ok(c) => c.manual_set_time == Support::Unsupported,
            Err(_) => false,
        };
        if gated {
            return Err(TimeError::Unsupported);
        }
        let result = match self.time_writes.pop_front() {
            Some(r) => r,
            None => Ok(AppliedValue { requested: wall_clock, applied: wall_clock }),
        };
        let a = match result {
            Ok(a) => a,
            Err(e) => {
                return Err(e);
            },
        };
        let mut st: Result<TimeState, TimeError> = Err(TimeError::BackendUnavailable);
        std::mem::swap(&mut st, &mut self.state_result);
        match st {
            Ok(s) => {
                let mut s = s;
                s.wall_clock = a.applied;
                self.state_result = Ok(s);
            },
            Err(e) => {
                self.state_result = Err(e);
            },
        }
        Ok(a)
    }
}

fn copy_network_error(e: &NetworkError) -> (c: NetworkError)
    ensures
        c == *e,
{
    match e {
        NetworkError::BackendUnavailable => NetworkError::BackendUnavailable,
        NetworkError::InterfaceAbsent => NetworkError::InterfaceAbsent,
        NetworkError::ScanFailed => NetworkError::ScanFailed,
        NetworkError::InvalidCredential => NetworkError::InvalidCredential,
    }
}

/// A WiFi port over a configured state, with scripted replies.
pub struct FakeNetworkPort {
    pub state_result: Result<NetworkState, NetworkError>,
    scans: VecDeque<Result<Vec<WifiNetwork>, NetworkError>>,
    connections: VecDeque<Result<ConnectResult, NetworkError>>,
    forgets: VecDeque<Result<bool, NetworkError>>,
    enabled_writes: VecDeque<Result<AppliedNetworkEnabled, NetworkError>>,
}

impl FakeNetworkPort {
    pub closed spec fn net_state(&self) -> Result<NetworkState, NetworkError> {
        self.state_result
    }

    pub closed spec fn scripted_scans(&self) -> Seq<Result<Vec<WifiNetwork>, NetworkError>> {
        self.scans@
    }

    pub closed spec fn scripted_connects(&self) -> Seq<Result<ConnectResult, NetworkError>> {
        self.connections@
    }

    pub closed spec fn scripted_forgets(&self) -> Seq<Result<bool, NetworkError>> {
        self.forgets@
    }

    pub closed spec fn scripted_enables(&self) -> Seq<Result<AppliedNetworkEnabled, NetworkError>> {
        self.enabled_writes@
    }

    pub fn new(state: NetworkState) -> (p: FakeNetworkPort)
        ensures
            p.net_state() == Ok::<NetworkState, NetworkError>(state),
            p.scripted_scans().len() == 0,
            p.scripted_connects().len() == 0,
            p.scripted_forgets().len() == 0,
            p.scripted_enables().len() == 0,
    {
        FakeNetworkPort {
            state_result: Ok(state),
            scans: VecDeque::new(),
            connections: VecDeque::new(),
            forgets: VecDeque::new(),
            enabled_writes: VecDeque::new(),
        }
    }

    pub fn script_scan(&mut self, result: Result<Vec<WifiNetwork>, NetworkError>)
        ensures
            final(self).scripted_scans() == old(self).scripted_scans().push(result),
            final(self).scripted_connects() == old(self).scripted_connects(),
            final(self).scripted_forgets() == old(self).scripted_forgets(),
            final(self).scripted_enables() == old(self).scripted_enables(),
            final(self).net_state() == old(self).net_state(),
    {
        self.scans.push_back(result);
    }

    pub fn script_connect(&mut self, result: Result<ConnectResult, NetworkError>)
        ensures
            final(self).scripted_connects() == old(self).scripted_connects().push(result),
            final(self).scripted_scans() == old(self).scripted_scans(),
            final(self).scripted_forgets() == old(self).scripted_forgets(),
            final(self).scripted_enables() == old(self).scripted_enables(),
            final(self).net_state() == old(self).net_state(),
    {
        self.connections.push_back(result);
    }

    pub fn script_forget(&mut self, result: Result<bool, NetworkError>)
        ensures
            final(self).scripted_forgets() == old(self).scripted_forgets().push(result),
            final(self).scripted_scans() == old(self).scripted_scans(),
            final(self).scripted_connects() == old(self).scripted_connects(),
            final(self).scripted_enables() == old(self).scripted_enables(),
            final(self).net_state() == old(self).net_state(),
    {
        self.forgets.push_back(result);
    }

    pub fn script_enabled(&mut self, result: Result<AppliedNetworkEnabled, NetworkError>)
        ensures
            final(self).scripted_enables() == old(self).scripted_enables().push(result),
            final(self).scripted_scans() == old(self).scripted_scans(),
            final(self).scripted_connects() == old(self).scripted_connects(),
            final(self).scripted_forgets() == old(self).scripted_forgets(),
            final(self).net_state() == old(self).net_state(),
    {
        self.enabled_writes.push_back(result);
    }
}

impl NetworkPort for FakeNetworkPort {
    fn state(&self) -> (r: Result<NetworkState, NetworkError>)
        ensures
            r == self.net_state(),
    {
        match &self.state_result {
            Ok(s) => Ok(copy_network_state(s)),
            Err(e) => Err(copy_network_error(e)),
        }
    }

    /// A scripted scan if one is queued, else no networks.
    fn scan(&mut self) -> (r: Result<Vec<WifiNetwork>, NetworkError>)
        ensures
            final(self).net_state() == old(self).net_state(),
            old(self).scripted_scans().len() > 0 ==> r == old(self).scripted_scans()[0]
                && final(self).scripted_scans() == old(self).scripted_scans().drop_first(),
            old(self).scripted_scans().len() == 0 ==> (r matches Ok(v) && v@.len() == 0)
                && final(self).scripted_scans() == old(self).scripted_scans(),
    {
        match self.scans.pop_front() {
            Some(r) => r,
            None => Ok(Vec::new()),
        }
    }

    /// A scripted reply if one is queued, else connected to `ssid`; a connection makes a
    /// readable state report that network.
    fn connect(&mut self, ssid: &str, credential: WifiCredential) -> (r: Result<ConnectResult, NetworkError>)
        ensures
            final(self).scripted_scans() == old(self).scripted_scans(),
            final(self).scripted_forgets() == old(self).scripted_forgets(),
            final(self).scripted_enables() == old(self).scripted_enables(),
            final(self).scripted_connects() == if old(self).scripted_connects().len() > 0 {
                old(self).scripted_connects().drop_first()
            } else {
                old(self).scripted_connects()
            },
            old(self).scripted_connects().len() > 0 ==> r == old(self).scripted_connects()[0],
            old(self).scripted_connects().len() == 0 ==> (r matches Ok(ConnectResult::Connected { ssid: s }) && s@ == ssid@),
            match (r, old(self).net_state()) {
                (Ok(ConnectResult::Connected { ssid: s }), Ok(st)) => final(self).net_state() matches Ok(ns)
                    && ns == (NetworkState { connected_ssid: Some(s), ..st }),
                _ => final(self).net_state() == old(self).net_state(),
            },
    {
        let result = match self.connections.pop_front() {
            Some(r) => r,
            None => Ok(ConnectResult::Connected { ssid: crate::text::string_of(ssid) }),
        };
        let res = match result {
            Ok(res) => res,
            Err(e) => {
                return Err(e);
            },
        };
        match &res {
            ConnectResult::Connected { ssid: s } => {
                let mut st: Result<NetworkState, NetworkError> = Err(NetworkError::BackendUnavailable);
                std::mem::swap(&mut st, &mut self.state_result);
                match st {
                    Ok(n) => {
                        let mut n = n;
                        n.connected_ssid = Some(copy_string(s));
                        self.state_result = Ok(n);
                    },
                    Err(e) => {
                        self.state_result = Err(e);
                    },
                }
            },
            _ => {},
        }
        Ok(res)
    }

    /// A scripted reply if one is queued, else forgotten; forgetting the connected network
    /// clears the connection and signal of a readable state.
    fn forget(&mut self, ssid: &str) -> (r: Result<bool, NetworkError>)
        ensures
            final(self).scripted_scans() == old(self).scripted_scans(),
            final(self).scripted_connects() == old(self).scripted_connects(),
            final(self).scripted_enables() == old(self).scripted_enables(),
            final(self).scripted_forgets() == if old(self).scripted_forgets().len() > 0 {
                old(self).scripted_forgets().drop_first()
            } else {
                old(self).scripted_forgets()
            },
            r == if old(self).scripted_forgets().len() > 0 {
                old(self).scripted_forgets()[0]
            } else {
                Ok(true)
            },
            match (r, old(self).net_state()) {
                (Ok(true), Ok(st)) => if st.connected_ssid matches Some(c) && c@ == ssid@ {
                    final(self).net_state() == Ok::<NetworkState, NetworkError>(
                        NetworkState { connected_ssid: None, signal: None, ..st },
                    )
                } else {
                    final(self).net_state() == old(self).net_state()
                },
                _ => final(self).net_state() == old(self).net_state(),
            },
    {
        let forgotten = match self.forgets.pop_front() {
            Some(r) => r,
            None => Ok(true),
        };
        let f = match forgotten {
            Ok(f) => f,
            Err(e) => {
                return Err(e);
            },
        };
        if f {
            let mut st: Result<NetworkState, NetworkError> = Err(NetworkError::BackendUnavailable);
            std::mem::swap(&mut st, &mut self.state_result);
            match st {
                Ok(n) => {
                    let mut n = n;
                    let same = match &n.connected_ssid {
                        Some(c) => str_eq(c.as_str(), ssid),
                        None => false,
                    };
                    if same {
                        n.connected_ssid = None;
                        n.signal = None;
                    }
                    self.state_result = Ok(n);
                },
                Err(e) => {
                    self.state_result = Err(e);
                },
            }
        }
        Ok(f)
    }

    /// A scripted reply if one is queued, else the current state (or a present, unconnected
    /// interface when unreadable) with the requested enablement; on success the applied state
    /// becomes the current one.
    fn set_enabled(&mut self, enabled: bool) -> (r: Result<AppliedNetworkEnabled, NetworkError>)
        ensures
            final(self).scripted_scans() == old(self).scripted_scans(),
            final(self).scripted_connects() == old(self).scripted_connects(),
            final(self).scripted_forgets() == old(self).scripted_forgets(),
            final(self).scripted_enables() == if old(self).scripted_enables().len() > 0 {
                old(self).scripted_enables().drop_first()
            } else {
                old(self).scripted_enables()
            },
            ({
                let base = match old(self).net_state() {
                    Ok(st) => st,
                    Err(_) => NetworkState { interface_present: true, enabled, connected_ssid: None, signal: None },
                };
                let reply = if old(self).scripted_enables().len() > 0 {
                    old(self).scripted_enables()[0]
                } else {
                    Ok(AppliedNetworkEnabled { requested: enabled, applied: NetworkState { enabled, ..base } })
                };
                &&& r == reply
                &&& final(self).net_state() == match reply {
                    Ok(a) => Ok::<NetworkState, NetworkError>(a.applied),
                    Err(_) => old(self).net_state(),
                }
            }),
    {
        let result = match self.enabled_writes.pop_front() {
            Some(r) => r,
            None => {
                let mut applied = match &self.state_result {
                    Ok(s) => copy_network_state(s),
                    Err(_) => NetworkState { interface_present: true, enabled, connected_ssid: None, signal: None },
                };
                applied.enabled = enabled;
                Ok(AppliedNetworkEnabled { requested: enabled, applied })
            },
        };
        match result {
            Ok(a) => {
                self.state_result = Ok(copy_network_state(&a.applied));
                Ok(a)
            },
            Err(e) => Err(e),
        }
    }
}

/// The index of the first service state for `service`.
pub open spec fn service_index(states: Seq<TransferServiceState>, service: TransferService) -> Option<int> {
    if exists|i: int| 0 <= i < states.len() && states[i].service == service {
        Some(choose|i: int| 0 <= i < states.len() && states[i].service == service && forall|j: int| 0 <= j < i ==> states[j].service != service)
    } else {
        None
    }
}

fn find_service(states: &Vec<TransferServiceState>, service: TransferService) -> (r: Option<usize>)
    ensures
        r matches Some(i) ==> i < states@.len() && service_index(states@, service) == Some(i as int),
        r is None ==> service_index(states@, service) is None,
{
    let mut i: usize = 0;
    while i < states.len()
        invariant
            i <= states@.len(),
            forall|j: int| 0 <= j < i ==> states@[j].service != service,
        decreases states@.len() - i,
    {
        if states[i].service == service {
            assert(service_index(states@, service) == Some(i as int)) by {
                let k = choose|k: int| 0 <= k < states@.len() && states@[k].service == service && forall|j: int| 0 <= j < k ==> states@[j].service != service;
                if k > i {
                    assert(states@[i as int].service != service);
                }
            }
            return Some(i);
        }
        i += 1;
    }
    None
}

fn copy_transfer_error(e: &TransferError) -> (c: TransferError)
    ensures
        c == *e,
{
    match e {
        TransferError::BackendUnavailable => TransferError::BackendUnavailable,
        TransferError::UnknownService => TransferError::UnknownService,
        TransferError::Refused => TransferError::Refused,
    }
}

/// A file-transfer port over a configured service inventory, with scripted replies.
pub struct FakeTransferPort {
    pub services_result: Result<Vec<TransferServiceState>, TransferError>,
    writes: VecDeque<Result<AppliedTransferState, TransferError>>,
}

impl FakeTransferPort {
    /// The service inventory (`None` when it reports an error).
    pub closed spec fn inventory(&self) -> Option<Seq<TransferServiceState>> {
        match self.services_result {
            Ok(v) => Some(v@),
            Err(_) => None,
        }
    }

    pub closed spec fn inventory_error(&self) -> Option<TransferError> {
        match self.services_result {
            Ok(_) => None,
            Err(e) => Some(e),
        }
    }

    pub closed spec fn scripted_writes(&self) -> Seq<Result<AppliedTransferState, TransferError>> {
        self.writes@
    }

    pub fn new(services: Vec<TransferServiceState>) -> (p: FakeTransferPort)
        ensures
            p.inventory() == Some(services@),
            p.scripted_writes().len() == 0,
    {
        FakeTransferPort { services_result: Ok(services), writes: VecDeque::new() }
    }

    pub fn script_enabled(&mut self, result: Result<AppliedTransferState, TransferError>)
        ensures
            final(self).scripted_writes() == old(self).scripted_writes().push(result),
            final(self).inventory() == old(self).inventory(),
            final(self).inventory_error() == old(self).inventory_error(),
    {
        self.writes.push_back(result);
    }
}

impl TransferPort for FakeTransferPort {
    fn services(&self) -> (r: Result<Vec<TransferServiceState>, TransferError>)
        ensures
            match self.inventory() {
                Some(v) => r matches Ok(w) && w@ == v,
                None => r == Err::<Vec<TransferServiceState>, TransferError>(self.inventory_error()->0),
            },
    {
        match &self.services_result {
            Ok(v) => Ok(copy_transfer_states(v)),
            Err(e) => Err(copy_transfer_error(e)),
        }
    }

    /// A scripted reply if one is queued; otherwise an unknown service fails, an unsupported
    /// one is refused, and a supported one is applied as requested. On success the inventory
    /// entry for the applied service takes the applied state.
    fn set_enabled(&mut self, service: TransferService, enabled: bool) -> (r: Result<AppliedTransferState, TransferError>)
        ensures
            final(self).scripted_writes() == if old(self).scripted_writes().len() > 0 {
                old(self).scripted_writes().drop_first()
            } else {
                old(self).scripted_writes()
            },
            old(self).scripted_writes().len() > 0 ==> r == old(self).scripted_writes()[0],
            old(self).scripted_writes().len() == 0 ==> match old(self).inventory() {
                None => r == Err::<AppliedTransferState, TransferError>(old(self).inventory_error()->0),
                Some(v) => match service_index(v, service) {
                    None => r == Err::<AppliedTransferState, TransferError>(TransferError::UnknownService),
                    Some(i) => if v[i].support == Support::Unsupported {
                        r == Err::<AppliedTransferState, TransferError>(TransferError::Refused)
                    } else {
                        r == Ok::<AppliedTransferState, TransferError>(
                            AppliedTransferState { requested: enabled, applied: TransferServiceState { enabled, ..v[i] }, warning: None },
                        )
                    },
                },
            },
            final(self).inventory_error() == old(self).inventory_error(),
            match (r, old(self).inventory()) {
                (Ok(a), Some(v)) => match service_index(v, a.applied.service) {
                    Some(i) => final(self).inventory() == Some(v.update(i, a.applied)),
                    None => final(self).inventory() == old(self).inventory(),
                },
                _ => final(self).inventory() == old(self).inventory(),
            },
    {
        let a = match self.writes.pop_front() {
            Some(r) => match r {
                Ok(a) => a,
                Err(e) => {
                    return Err(e);
                },
            },
            None => {
                match &self.services_result {
                    Err(e) => {
                        return Err(copy_transfer_error(e));
                    },
                    Ok(states) => {
                        let i = match find_service(states, service) {
                            Some(i) => i,
                            None => {
                                return Err(TransferError::UnknownService);
                            },
                        };
                        if states[i].support == Support::Unsupported {
                            return Err(TransferError::Refused);
                        }
                        let mut applied = copy_transfer_state(&states[i]);
                        applied.enabled = enabled;
                        AppliedTransferState { requested: enabled, applied, warning: None }
                    },
                }
            },
        };
        let mut st: Result<Vec<TransferServiceState>, TransferError> = Err(TransferError::BackendUnavailable);
        std::mem::swap(&mut st, &mut self.services_result);
        match st {
            Ok(states) => {
                let mut states = states;
                match find_service(&states, a.applied.service) {
                    Some(i) => {
                        states.set(i, copy_transfer_state(&a.applied));
                    },
                    None => {},
                }
                self.services_result = Ok(states);
            },
            Err(e) => {
                self.services_result = Err(e);
            },
        }
        Ok(a)
    }
}

/// A frame host with fixed metrics that records every presented scene and answers with
/// injected results first, then with acknowledgements numbered from zero.
pub struct FakeFrameHost<M, B> {
    metrics: M,
    presented: Vec<Scene<B>>,
    results: VecDeque<PresentResult>,
    next_sequence: u64,
}

impl<M: Copy, B: Copy> FakeFrameHost<M, B> {
    pub closed spec fn metrics_view(&self) -> M {
        self.metrics
    }

    /// Snapshots of the presented scenes, oldest first.
    pub closed spec fn presented_view(&self) -> Seq<(Seq<NodeEntry<B>>, Seq<char>, Seq<char>)> {
        self.presented@.map_values(|s: Scene<B>| s.snapshot())
    }

    /// Injected results not yet handed out, in order.
    pub closed spec fn injected(&self) -> Seq<PresentResult> {
        self.results@
    }

    /// The sequence number of the next acknowledgement.
    pub closed spec fn next_sequence(&self) -> u64 {
        self.next_sequence
    }

    pub fn new(metrics: M) -> (h: Self)
        ensures
            h.metrics_view() == metrics,
            h.presented_view().len() == 0,
            h.injected().len() == 0,
            h.next_sequence() == 0,
    {
        let h = FakeFrameHost { metrics, presented: Vec::new(), results: VecDeque::new(), next_sequence: 0 };
        assert(h.presented_view() =~= Seq::empty());
        h
    }

    /// Queues a result for a later presentation.
    pub fn inject(&mut self, result: PresentResult)
        ensures
            final(self).injected() == old(self).injected().push(result),
            final(self).presented_view() == old(self).presented_view(),
            final(self).metrics_view() == old(self).metrics_view(),
            final(self).next_sequence() == old(self).next_sequence(),
    {
        self.results.push_back(result);
    }

    /// The presented scenes, oldest first.
    pub fn presented(&self) -> (r: &[Scene<B>])
        ensures
            r@.map_values(|s: Scene<B>| s.snapshot()) == self.presented_view(),
    {
        self.presented.as_slice()
    }
}

impl<M: Copy, B: Copy> FrameHost<M, B> for FakeFrameHost<M, B> {
    fn metrics(&self) -> (r: M)
        ensures
            r == self.metrics_view(),
    {
        self.metrics
    }

    /// Records the scene, then hands out the oldest injected result, or else acknowledges with
    /// the next sequence number (which wraps after `u64::MAX`).
    fn present(&mut self, scene: &Scene<B>) -> (r: PresentResult)
        ensures
            final(self).presented_view() == old(self).presented_view().push(scene.snapshot()),
            final(self).metrics_view() == old(self).metrics_view(),
            old(self).injected().len() > 0 ==> r == old(self).injected()[0]
                && final(self).injected() == old(self).injected().drop_first()
                && final(self).next_sequence() == old(self).next_sequence(),
            old(self).injected().len() == 0 ==> r == Ok::<PresentAck, PresentFailure>(PresentAck { sequence: old(self).next_sequence() })
                && final(self).injected().len() == 0
                && final(self).next_sequence() == (if old(self).next_sequence() == u64::MAX { 0 } else { old(self).next_sequence() + 1 }),
    {
        let ghost before = self.presented_view();
        self.presented.push(scene.clone());
        assert(self.presented_view() =~= before.push(scene.snapshot()));
        if let Some(result) = self.results.pop_front() {
            return result;
        }
        let sequence = self.next_sequence;
        self.next_sequence = self.next_sequence.wrapping_add(1);
        Ok(PresentAck { sequence })
    }
}

} // verus!
