//! A Discord session through the forwarder: the options, the events shown to
//! the user, and the decisions taken while Discord runs.
//!
//! The launcher samples once a second and waits for the proxy's first
//! connection and for the user's request to go direct; `SessionMonitor` decides
//! what each of these means. Times are milliseconds since Discord was launched.
use vstd::prelude::*;

verus! {

#[verifier::external_type_specification]
#[verifier::external_body]
pub struct ExPathBuf(std::path::PathBuf);

#[verifier::external_type_specification]
#[verifier::external_body]
pub struct ExInstant(std::time::Instant);

/// What the user chose for a session.
#[derive(Debug, Clone)]
pub struct Options {
    /// The Tor exit country.
    pub country: String,
    /// Seconds spent on Tor after Discord's first connection.
    pub warmup_secs: u64,
    /// Switch to the direct connection only when the user asks.
    pub manual: bool,
    /// The Discord executable or launcher, when not discovered.
    pub discord: Option<std::path::PathBuf>,
}

/// What a running session reports to the user.
#[derive(Debug, Clone)]
pub enum Event {
    Status(String),
    /// Discord connected through Tor; the automatic switch is due at the
    /// instant given, or waits for the user.
    Warming(Option<std::time::Instant>),
    Direct,
    Finished,
    Error(String),
}

/// How long Discord may take to appear after the launch.
pub const DISCORD_APPEAR_MS: u64 = 45_000;

/// How long Discord may take to use the proxy after the launch.
pub const PROXY_USE_MS: u64 = 90_000;

/// Consecutive samples without Discord that end the session.
pub const ABSENT_SAMPLES: u32 = 3;

/// Why a session fails while Discord runs.
#[derive(Clone, Copy, Debug, PartialEq, Eq)]
pub enum SessionError {
    /// No Discord process appeared within 45 seconds.
    DiscordNotFound,
    /// Discord did not use the proxy within 90 seconds.
    ProxyNotUsed,
    /// The launcher exited unsuccessfully before Discord appeared.
    LauncherFailed,
    /// The Tor worker exited before the switch to the direct connection.
    WorkerExited,
}

/// One sample of the outside world.
#[derive(Clone, Copy, Debug, PartialEq, Eq)]
pub struct Observation {
    /// Milliseconds since Discord was launched.
    pub now_ms: u64,
    /// A Discord process is running.
    pub discord_running: bool,
    /// The launched process has exited unsuccessfully.
    pub launcher_failed: bool,
    /// The Tor worker has exited.
    pub worker_exited: bool,
}

/// What the launcher does next.
#[derive(Clone, Copy, Debug, PartialEq, Eq)]
pub enum SessionAction {
    /// Nothing; keep waiting.
    Continue,
    /// Discord reached the proxy; the automatic switch is due at this time,
    /// or never in manual mode.
    Warming(Option<u64>),
    /// Route new connections directly, close the Tor tunnels, stop the worker.
    SwitchDirect,
    /// Discord has gone; end the session normally.
    Finish,
    /// End the session with this error.
    Fail(SessionError),
}

/// The state of a session while Discord runs.
#[derive(Clone, Copy, Debug, PartialEq, Eq)]
pub struct SessionMonitor {
    pub manual: bool,
    pub warmup_ms: u64,
    pub seen_discord: bool,
    pub absent_samples: u32,
    pub deadline: Option<u64>,
    pub received_connection: bool,
    pub direct: bool,
}

/// Sessions only ever reach states where: a deadline exists only after the
/// first connection and never in manual mode, the direct route is taken only
/// after the first connection, and the absent count is below the limit.
pub open spec fn monitor_wf(m: SessionMonitor) -> bool {
    &&& m.deadline is Some ==> m.received_connection && !m.manual
    &&& m.direct ==> m.received_connection
    &&& m.absent_samples < ABSENT_SAMPLES
    &&& !m.seen_discord ==> m.absent_samples == 0
}

/// The state when Discord has just been launched.
pub open spec fn monitor_init(manual: bool, warmup_secs: u64) -> SessionMonitor {
    SessionMonitor {
        manual,
        warmup_ms: (warmup_secs * 1000) as u64,
        seen_discord: false,
        absent_samples: 0,
        deadline: None,
        received_connection: false,
        direct: false,
    }
}

/// The first connection through the proxy starts the warm-up.
pub open spec fn on_first_connection(m: SessionMonitor, now_ms: u64) -> (SessionMonitor, SessionAction) {
    if m.received_connection {
        (m, SessionAction::Continue)
    } else {
        let deadline = if m.manual {
            None
        } else {
            Some((now_ms + m.warmup_ms) as u64)
        };
        (
            SessionMonitor { received_connection: true, deadline, ..m },
            SessionAction::Warming(deadline),
        )
    }
}

/// The user's request to go direct is honoured once Discord reached the proxy
/// and the route is not direct yet.
pub open spec fn on_direct_request(m: SessionMonitor) -> (SessionMonitor, SessionAction) {
    if m.received_connection && !m.direct {
        (SessionMonitor { direct: true, ..m }, SessionAction::SwitchDirect)
    } else {
        (m, SessionAction::Continue)
    }
}

/// One sample: Discord's presence is tracked; three absent samples in a row
/// after it appeared end the session; then, in order, the deadlines for Discord
/// to appear and to use the proxy, a failed launcher before Discord appeared,
/// an exited worker before the switch, and the automatic switch when due.
pub open spec fn on_sample(m: SessionMonitor, o: Observation) -> (SessionMonitor, SessionAction) {
    let seen = m.seen_discord || o.discord_running;
    let absent: int = if o.discord_running {
        0
    } else if m.seen_discord {
        m.absent_samples + 1
    } else {
        m.absent_samples as int
    };
    if !o.discord_running && m.seen_discord && absent >= ABSENT_SAMPLES {
        (m, SessionAction::Finish)
    } else {
        let n = SessionMonitor { seen_discord: seen, absent_samples: absent as u32, ..m };
        if !seen && o.now_ms > DISCORD_APPEAR_MS {
            (n, SessionAction::Fail(SessionError::DiscordNotFound))
        } else if !m.received_connection && o.now_ms > PROXY_USE_MS {
            (n, SessionAction::Fail(SessionError::ProxyNotUsed))
        } else if o.launcher_failed && !seen {
            (n, SessionAction::Fail(SessionError::LauncherFailed))
        } else if !m.direct && o.worker_exited {
            (n, SessionAction::Fail(SessionError::WorkerExited))
        } else if !m.direct && m.deadline is Some && o.now_ms >= m.deadline->0 {
            (SessionMonitor { direct: true, ..n }, SessionAction::SwitchDirect)
        } else {
            (n, SessionAction::Continue)
        }
    }
}

impl SessionMonitor {
    /// The state right after Discord's launch.
    pub fn new(manual: bool, warmup_secs: u64) -> (r: SessionMonitor)
        requires
            warmup_secs <= u64::MAX / 1000,
        ensures
            r == monitor_init(manual, warmup_secs),
            monitor_wf(r),
    {
        SessionMonitor {
            manual,
            warmup_ms: warmup_secs * 1000,
            seen_discord: false,
            absent_samples: 0,
            deadline: None,
            received_connection: false,
            direct: false,
        }
    }

    /// Whether the first connection is still awaited.
    pub fn awaits_first_connection(&self) -> (r: bool)
        ensures
            r == !self.received_connection,
    {
        !self.received_connection
    }

    /// Whether a request to go direct would be honoured now.
    pub fn accepts_direct_request(&self) -> (r: bool)
        ensures
            r == (self.received_connection && !self.direct),
    {
        self.received_connection && !self.direct
    }

    /// Whether the route is direct.
    pub fn is_direct(&self) -> (r: bool)
        ensures
            r == self.direct,
    {
        self.direct
    }

    pub fn first_connection(&mut self, now_ms: u64) -> (r: SessionAction)
        requires
            monitor_wf(*old(self)),
            now_ms + old(self).warmup_ms <= u64::MAX,
        ensures
            (*final(self), r) == on_first_connection(*old(self), now_ms),
            monitor_wf(*final(self)),
    {
        if self.received_connection {
            return SessionAction::Continue;
        }
        let deadline = if self.manual {
            None
        } else {
            Some(now_ms + self.warmup_ms)
        };
        self.received_connection = true;
        self.deadline = deadline;
        SessionAction::Warming(deadline)
    }

    pub fn direct_requested(&mut self) -> (r: SessionAction)
        requires
            monitor_wf(*old(self)),
        ensures
            (*final(self), r) == on_direct_request(*old(self)),
            monitor_wf(*final(self)),
    {
        if self.received_connection && !self.direct {
            self.direct = true;
            SessionAction::SwitchDirect
        } else {
            SessionAction::Continue
        }
    }

    pub fn sample(&mut self, o: Observation) -> (r: SessionAction)
        requires
            monitor_wf(*old(self)),
        ensures
            (*final(self), r) == on_sample(*old(self), o),
            monitor_wf(*final(self)),
    {
        let seen = self.seen_discord || o.discord_running;
        let absent = if o.discord_running {
            0
        } else if self.seen_discord {
            self.absent_samples + 1
        } else {
            self.absent_samples
        };
        if !o.discord_running && self.seen_discord && absent >= ABSENT_SAMPLES {
            return SessionAction::Finish;
        }
        self.seen_discord = seen;
        self.absent_samples = absent;
        if !seen && o.now_ms > DISCORD_APPEAR_MS {
            return SessionAction::Fail(SessionError::DiscordNotFound);
        }
        if !self.received_connection && o.now_ms > PROXY_USE_MS {
            return SessionAction::Fail(SessionError::ProxyNotUsed);
        }
        if o.launcher_failed && !seen {
            return SessionAction::Fail(SessionError::LauncherFailed);
        }
        if !self.direct && o.worker_exited {
            return SessionAction::Fail(SessionError::WorkerExited);
        }
        if !self.direct {
            if let Some(deadline) = self.deadline {
                if o.now_ms >= deadline {
                    self.direct = true;
                    return SessionAction::SwitchDirect;
                }
            }
        }
        SessionAction::Continue
    }
}

/// How a sample can end a session, stated on its inputs:
/// - Discord is reported missing (`DiscordNotFound`) exactly when it has never
///   been seen, is not running now, and 45 seconds have passed; once seen, it
///   never is;
/// - the session finishes exactly when Discord, once seen, is missing for a
///   third sample in a row; a first or second missing sample changes nothing
///   else than the count;
/// - an exited worker fails the session only before the switch to the direct
///   route; once direct, it never does;
/// - the proxy counts as unused only before the first connection and after 90
///   seconds;
/// - a failed launcher counts only while Discord has never been seen.
pub proof fn lemma_sample_endings(m: SessionMonitor, o: Observation)
    requires
        monitor_wf(m),
    ensures
        on_sample(m, o).1 == SessionAction::Fail(SessionError::DiscordNotFound) <==> (!m.seen_discord
            && !o.discord_running && o.now_ms > 45_000),
        on_sample(m, o).1 == SessionAction::Finish <==> (m.seen_discord && !o.discord_running
            && m.absent_samples + 1 >= 3),
        m.seen_discord && !o.discord_running && m.absent_samples == 0 ==> on_sample(m, o).0.absent_samples
            == 1 && on_sample(m, o).1 != SessionAction::Finish,
        o.discord_running ==> on_sample(m, o).0.absent_samples == 0 && on_sample(m, o).0.seen_discord,
        m.direct ==> on_sample(m, o).1 != SessionAction::Fail(SessionError::WorkerExited),
        on_sample(m, o).1 == SessionAction::Fail(SessionError::WorkerExited) ==> !m.direct
            && o.worker_exited,
        on_sample(m, o).1 == SessionAction::Fail(SessionError::ProxyNotUsed) ==> !m.received_connection
            && o.now_ms > 90_000,
        on_sample(m, o).1 == SessionAction::Fail(SessionError::LauncherFailed) ==> o.launcher_failed
            && !m.seen_discord && !o.discord_running,
        on_sample(m, o).1 == SessionAction::SwitchDirect ==> !m.direct && m.deadline is Some
            && o.now_ms >= m.deadline->0 && on_sample(m, o).0.direct,
        o.discord_running && !m.received_connection && o.now_ms > 90_000 ==> on_sample(m, o).1
            == SessionAction::Fail(SessionError::ProxyNotUsed),
        o.launcher_failed && !m.seen_discord && !o.discord_running && o.now_ms <= 45_000 && (
        m.received_connection || o.now_ms <= 90_000) ==> on_sample(m, o).1 == SessionAction::Fail(
            SessionError::LauncherFailed,
        ),
        !m.direct && o.worker_exited && o.discord_running && m.received_connection ==> on_sample(
            m,
            o,
        ).1 == SessionAction::Fail(SessionError::WorkerExited),
        o.discord_running && m.received_connection && !o.worker_exited && (m.direct || m.deadline is None
            || o.now_ms < m.deadline->0) ==> on_sample(m, o).1 == SessionAction::Continue,
{
}

/// The warm-up deadline is the first connection's time plus the warm-up, and
/// manual mode sets none; a later first connection changes nothing.
pub proof fn lemma_first_connection_deadline(m: SessionMonitor, now_ms: u64)
    requires
        now_ms + m.warmup_ms <= u64::MAX,
    ensures
        !m.received_connection && !m.manual ==> on_first_connection(m, now_ms).1
            == SessionAction::Warming(Some((now_ms + m.warmup_ms) as u64)),
        !m.received_connection && m.manual ==> on_first_connection(m, now_ms).1
            == SessionAction::Warming(None),
        m.received_connection ==> on_first_connection(m, now_ms) == (m, SessionAction::Continue),
        on_first_connection(m, now_ms).0.received_connection,
{
}

/// A session started with a warm-up of `secs` seconds, in automatic mode,
/// schedules the switch `secs` seconds after the first connection; in manual
/// mode it schedules none.
pub proof fn lemma_session_warmup(manual: bool, secs: u64, now_ms: u64)
    requires
        secs <= u64::MAX / 1000,
        now_ms + secs * 1000 <= u64::MAX,
    ensures
        on_first_connection(monitor_init(manual, secs), now_ms).1 == SessionAction::Warming(
            if manual {
                None
            } else {
                Some((now_ms + secs * 1000) as u64)
            },
        ),
        monitor_wf(monitor_init(manual, secs)),
{
}

/// Once the deadline is reached, a sample that finds Discord running and the
/// worker alive switches to the direct route; before the deadline the same
/// sample changes nothing but the bookkeeping.
pub proof fn lemma_automatic_switch(m: SessionMonitor, o: Observation)
    requires
        monitor_wf(m),
        m.received_connection,
        !m.direct,
        m.deadline is Some,
        o.discord_running,
        !o.worker_exited,
    ensures
        o.now_ms >= m.deadline->0 ==> on_sample(m, o).1 == SessionAction::SwitchDirect
            && on_sample(m, o).0.direct,
        o.now_ms < m.deadline->0 ==> on_sample(m, o).1 == SessionAction::Continue
            && !on_sample(m, o).0.direct,
{
}

/// A request to go direct switches exactly once Discord reached the proxy and
/// the route is not direct yet; otherwise it changes nothing.
pub proof fn lemma_direct_request(m: SessionMonitor)
    ensures
        on_direct_request(m).1 == SessionAction::SwitchDirect <==> (m.received_connection && !m.direct),
        on_direct_request(m).1 != SessionAction::SwitchDirect ==> on_direct_request(m).0 == m,
        on_direct_request(m).0.direct == (m.direct || m.received_connection),
{
}

/// One input of a session: the proxy's first connection at a time, the
/// user's request to go direct, or a sample.
pub enum SessionInput {
    FirstConnection(u64),
    DirectRequest,
    Sample(Observation),
}

pub open spec fn session_step(m: SessionMonitor, i: SessionInput) -> (SessionMonitor, SessionAction) {
    match i {
        SessionInput::FirstConnection(t) => on_first_connection(m, t),
        SessionInput::DirectRequest => on_direct_request(m),
        SessionInput::Sample(o) => on_sample(m, o),
    }
}

/// The actions taken for a sequence of inputs, and the state after them.
pub open spec fn session_run(m: SessionMonitor, inputs: Seq<SessionInput>) -> (SessionMonitor, Seq<SessionAction>)
    decreases inputs.len(),
{
    if inputs.len() == 0 {
        (m, Seq::empty())
    } else {
        let (m1, a) = session_step(m, inputs[0]);
        let (m2, rest) = session_run(m1, inputs.drop_first());
        (m2, seq![a] + rest)
    }
}

pub open spec fn switch_count(actions: Seq<SessionAction>) -> nat
    decreases actions.len(),
{
    if actions.len() == 0 {
        0
    } else {
        (if actions[0] == SessionAction::SwitchDirect { 1nat } else { 0nat }) + switch_count(
            actions.drop_first(),
        )
    }
}

/// Every step keeps the state well-formed, never leaves the direct route, and
/// never forgets the first connection.
pub proof fn lemma_step_keeps_state(m: SessionMonitor, i: SessionInput)
    requires
        monitor_wf(m),
    ensures
        monitor_wf(session_step(m, i).0),
        m.direct ==> session_step(m, i).0.direct,
        m.received_connection ==> session_step(m, i).0.received_connection,
        session_step(m, i).0.manual == m.manual,
        session_step(m, i).1 == SessionAction::SwitchDirect ==> !m.direct && session_step(m, i).0.direct
            && m.received_connection,
        !(i is FirstConnection) ==> session_step(m, i).0.received_connection == m.received_connection,
{
}

/// Whatever happens, a session switches to the direct route at most once, and
/// never again once it is direct.
pub proof fn lemma_switch_at_most_once(m: SessionMonitor, inputs: Seq<SessionInput>)
    requires
        monitor_wf(m),
    ensures
        switch_count(session_run(m, inputs).1) <= if m.direct { 0nat } else { 1nat },
    decreases inputs.len(),
{
    if inputs.len() > 0 {
        let (m1, a) = session_step(m, inputs[0]);
        lemma_step_keeps_state(m, inputs[0]);
        lemma_switch_at_most_once(m1, inputs.drop_first());
        let out = session_run(m, inputs).1;
        assert(out.drop_first() =~= session_run(m1, inputs.drop_first()).1);
    }
}

/// In manual mode the route becomes direct only at the user's request.
pub proof fn lemma_manual_switch_on_request(m: SessionMonitor, inputs: Seq<SessionInput>)
    requires
        monitor_wf(m),
        m.manual,
    ensures
        session_run(m, inputs).1.len() == inputs.len(),
        forall|k: int|
            0 <= k < inputs.len() && #[trigger] session_run(m, inputs).1[k]
                == SessionAction::SwitchDirect ==> inputs[k] is DirectRequest,
    decreases inputs.len(),
{
    if inputs.len() > 0 {
        let (m1, a) = session_step(m, inputs[0]);
        lemma_step_keeps_state(m, inputs[0]);
        lemma_manual_switch_on_request(m1, inputs.drop_first());
        let out = session_run(m, inputs).1;
        assert forall|k: int|
            0 <= k < inputs.len() && #[trigger] out[k] == SessionAction::SwitchDirect implies inputs[k] is DirectRequest by {
            if k > 0 {
                assert(out[k] == session_run(m1, inputs.drop_first()).1[k - 1]);
                assert(inputs.drop_first()[k - 1] == inputs[k]);
            }
        }
    }
}

/// The route never becomes direct before Discord's first connection through
/// the proxy: every switch comes after a first-connection input.
pub proof fn lemma_no_switch_before_first_connection(m: SessionMonitor, inputs: Seq<SessionInput>)
    requires
        monitor_wf(m),
        !m.received_connection,
    ensures
        session_run(m, inputs).1.len() == inputs.len(),
        forall|k: int|
            0 <= k < inputs.len() && #[trigger] session_run(m, inputs).1[k]
                == SessionAction::SwitchDirect ==> exists|j: int| 0 <= j < k && inputs[j] is FirstConnection,
    decreases inputs.len(),
{
    if inputs.len() > 0 {
        let (m1, a) = session_step(m, inputs[0]);
        lemma_step_keeps_state(m, inputs[0]);
        let out = session_run(m, inputs).1;
        if inputs[0] is FirstConnection {
            lemma_run_len(m1, inputs.drop_first());
            assert forall|k: int|
                0 <= k < inputs.len() && #[trigger] out[k] == SessionAction::SwitchDirect implies exists|j: int|
                    0 <= j < k && inputs[j] is FirstConnection by {
                assert(k > 0);
                assert(inputs[0] is FirstConnection);
            }
        } else {
            lemma_no_switch_before_first_connection(m1, inputs.drop_first());
            assert forall|k: int|
                0 <= k < inputs.len() && #[trigger] out[k] == SessionAction::SwitchDirect implies exists|j: int|
                    0 <= j < k && inputs[j] is FirstConnection by {
                assert(k > 0);
                assert(out[k] == session_run(m1, inputs.drop_first()).1[k - 1]);
                let j = choose|j: int| 0 <= j < k - 1 && inputs.drop_first()[j] is FirstConnection;
                assert(inputs[j + 1] is FirstConnection);
            }
        }
    }
}

pub open spec fn warming_count(actions: Seq<SessionAction>) -> nat
    decreases actions.len(),
{
    if actions.len() == 0 {
        0
    } else {
        (if actions[0] is Warming { 1nat } else { 0nat }) + warming_count(actions.drop_first())
    }
}

/// The warm-up is reported at most once in a session, and never again once
/// Discord's first connection has been taken in.
pub proof fn lemma_warming_at_most_once(m: SessionMonitor, inputs: Seq<SessionInput>)
    requires
        monitor_wf(m),
    ensures
        warming_count(session_run(m, inputs).1) <= if m.received_connection { 0nat } else { 1nat },
    decreases inputs.len(),
{
    if inputs.len() > 0 {
        let (m1, a) = session_step(m, inputs[0]);
        lemma_step_keeps_state(m, inputs[0]);
        lemma_warming_at_most_once(m1, inputs.drop_first());
        let out = session_run(m, inputs).1;
        assert(out.drop_first() =~= session_run(m1, inputs.drop_first()).1);
    }
}

/// The switch to the direct route is reported only after the warm-up: every
/// switch in a session that starts before the first connection comes after a
/// Warming action.
pub proof fn lemma_direct_after_warming(m: SessionMonitor, inputs: Seq<SessionInput>)
    requires
        monitor_wf(m),
        !m.received_connection,
    ensures
        forall|k: int|
            0 <= k < session_run(m, inputs).1.len() && #[trigger] session_run(m, inputs).1[k]
                == SessionAction::SwitchDirect ==> exists|j: int|
                0 <= j < k && session_run(m, inputs).1[j] is Warming,
    decreases inputs.len(),
{
    lemma_run_len(m, inputs);
    if inputs.len() > 0 {
        let (m1, a) = session_step(m, inputs[0]);
        lemma_step_keeps_state(m, inputs[0]);
        let out = session_run(m, inputs).1;
        let rest = session_run(m1, inputs.drop_first()).1;
        assert(out.drop_first() =~= rest);
        if inputs[0] is FirstConnection {
            assert(out[0] is Warming);
            assert forall|k: int|
                0 <= k < out.len() && #[trigger] out[k] == SessionAction::SwitchDirect implies exists|j: int|
                    0 <= j < k && out[j] is Warming by {
                assert(k > 0);
            }
        } else {
            lemma_direct_after_warming(m1, inputs.drop_first());
            assert forall|k: int|
                0 <= k < out.len() && #[trigger] out[k] == SessionAction::SwitchDirect implies exists|j: int|
                    0 <= j < k && out[j] is Warming by {
                assert(k > 0);
                assert(out[k] == rest[k - 1]);
                let j = choose|j: int| 0 <= j < k - 1 && rest[j] is Warming;
                assert(out[j + 1] == rest[j]);
            }
        }
    }
}

proof fn lemma_run_len(m: SessionMonitor, inputs: Seq<SessionInput>)
    ensures
        session_run(m, inputs).1.len() == inputs.len(),
    decreases inputs.len(),
{
    if inputs.len() > 0 {
        lemma_run_len(session_step(m, inputs[0]).0, inputs.drop_first());
    }
}

} // verus!
