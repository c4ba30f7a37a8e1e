//! The server's control state machine: one explicit [`Phase`] plus the client
//! counters, and the decisions the supervisor takes on it.
//!
//! The threads, sockets and pipes that drive it live in the program around the
//! library; here are the transitions, each a pure step on [`Core`], and the
//! properties that hold across them.

use vstd::prelude::*;
use vstd::string::{StrSliceExecFns, StringSliceAdditionalSpecFns};
use vstd::utf8::encode_utf8;

use std::time::Instant;

use crate::bytes::{dec_bytes, decimal_bytes};
use crate::marker::{
    drop_empty, feed_result, response_feed, Feed, MarkerList, MarkerScanner, Markers, Outcome,
    ResponseScanner,
};
use crate::protocol::{encode, encoded, STREAM_CTL, STREAM_ERR, STREAM_OUT};
use crate::config::{Bind, BindView, PidfileSpec, PidfileView, PIDFILE_SUFFIX, SOCKET_SUFFIX};
use crate::names::{default_name, default_pidfile_path, default_socket_path};
use crate::text::{decimal, decimal_string, lossy_string, utf8_lossy};

verus! {

/// `std::time::Instant`, carried through the state machine as an opaque
/// point in time.
#[verifier::external_type_specification]
#[verifier::external_body]
pub struct ExInstant(Instant);

/// The REPL/request lifecycle. Every variant holds only `Copy` data, so a
/// snapshot is cheap.
#[derive(Clone, Copy, Debug)]
pub enum Phase {
    /// REPL spawned, not yet ready. A client may be attached but its input is
    /// held until the REPL becomes ready.
    Booting { since: Instant },
    /// Ready, running the one-shot warmup input before serving; a client's
    /// input is still held.
    Warmup,
    /// Ready, no request in flight (a client may or may not be attached).
    Idle,
    /// A request's input was forwarded; awaiting an end-of-response marker.
    Busy,
    /// The client left mid-request; the REPL is still finishing. A deadline, if
    /// present, bounds how long to wait before treating it as wedged.
    Draining { deadline: Option<Instant> },
    /// Terminal.
    Stopped,
}

/// The consolidated control state: the lifecycle phase and the counters.
#[derive(Clone, Copy, Debug)]
pub struct Core {
    pub phase: Phase,
    /// This REPL instance has accepted at least one client (startup-failure
    /// accounting).
    pub served: bool,
    pub requests: u64,
    pub next_gen: u64,
    /// A warmup input is configured: a REPL that becomes ready runs it
    /// before serving.
    pub warmup: bool,
    /// The attached client's request has started and the client is still
    /// attached: the REPL's output goes to it.
    pub serving: bool,
    /// This REPL instance has been sent its warmup input.
    pub warmup_sent: bool,
}

/// The phase a freshly (re)spawned REPL starts in: booting when a readiness
/// mechanism is configured, else warming up when a warmup is configured,
/// else idle.
pub open spec fn boot_phase_spec(ready: bool, warmup: bool, now: Instant) -> Phase {
    if !ready {
        Phase::Booting { since: now }
    } else if warmup {
        Phase::Warmup
    } else {
        Phase::Idle
    }
}

/// A REPL with no readiness mechanism configured is ready (Idle) immediately;
/// otherwise it starts Booting.
pub open spec fn initial_phase_spec(ready: bool, now: Instant) -> Phase {
    boot_phase_spec(ready, false, now)
}

/// The REPL is not serving yet: booting or warming up. Client input is held.
pub open spec fn pre_serving(p: Phase) -> bool {
    p is Booting || p is Warmup
}

/// The phases in which a new client may attach.
pub open spec fn acceptable(p: Phase) -> bool {
    p is Booting || p is Warmup || p is Idle
}

/// The accept gate: the state after it and the new client's generation.
pub open spec fn accept_step(c: Core, has_sink: bool) -> (Core, Option<u64>) {
    if has_sink || !acceptable(c.phase) {
        (c, None)
    } else {
        (
            Core {
                next_gen: (c.next_gen + 1) as u64,
                requests: (c.requests + 1) as u64,
                served: true,
                serving: false,
                ..c
            },
            Some(c.next_gen),
        )
    }
}

/// A request's input was forwarded: the client is now being served, and in
/// framed mode a ready REPL becomes busy.
pub open spec fn request_start_step(c: Core, protocol: bool) -> Core {
    if protocol && c.phase is Idle {
        Core { phase: Phase::Busy, serving: true, ..c }
    } else {
        Core { serving: true, ..c }
    }
}

/// An end-of-response marker was seen.
pub open spec fn response_end_step(c: Core) -> Core {
    if c.phase is Busy || c.phase is Draining {
        Core { phase: Phase::Idle, ..c }
    } else {
        c
    }
}

/// The active client departed: it is no longer served, and a request in
/// flight leaves the REPL draining.
pub open spec fn client_gone_step(c: Core, deadline: Option<Instant>) -> Core {
    if c.phase is Busy {
        Core { phase: Phase::Draining { deadline }, serving: false, ..c }
    } else {
        Core { serving: false, ..c }
    }
}

/// The REPL became ready: the new state and whether it transitioned.
pub open spec fn ready_step(c: Core) -> (Core, bool) {
    if c.phase is Booting {
        (Core { phase: if c.warmup { Phase::Warmup } else { Phase::Idle }, ..c }, true)
    } else {
        (c, false)
    }
}

/// The warmup finished: the new state and whether it transitioned.
pub open spec fn warmup_done_step(c: Core) -> (Core, bool) {
    if c.phase is Warmup {
        (Core { phase: Phase::Idle, ..c }, true)
    } else {
        (c, false)
    }
}

/// A freshly (re)spawned REPL instance begins its boot phase.
pub open spec fn begin_booting_step(c: Core, ready: bool, now: Instant) -> Core {
    Core {
        phase: boot_phase_spec(ready, c.warmup, now),
        served: false,
        serving: false,
        warmup_sent: false,
        ..c
    }
}

/// The state of a server that has just started.
pub open spec fn new_core(ready: bool, warmup: bool, now: Instant) -> Core {
    Core {
        phase: boot_phase_spec(ready, warmup, now),
        served: false,
        requests: 0,
        next_gen: 1,
        warmup,
        serving: false,
        warmup_sent: false,
    }
}

/// Whether the warmup input is due now, and the state after the answer: it
/// is due once per REPL instance, when the warmup phase has begun.
pub open spec fn warmup_turn_step(c: Core) -> (Core, bool) {
    if c.phase is Warmup && !c.warmup_sent {
        (Core { warmup_sent: true, ..c }, true)
    } else {
        (c, false)
    }
}

/// Where the REPL's output goes now: the stage it is in, and whether the
/// output goes to the client (only a served client, and only once the REPL is
/// serving).
pub open spec fn output_route_spec(c: Core) -> (Stage, bool) {
    (stage_spec(c.phase), stage_spec(c.phase) is Serve && c.serving)
}

/// The phase a freshly (re)spawned REPL starts in.
pub fn boot_phase(ready: bool, warmup: bool, now: Instant) -> (p: Phase)
    ensures
        p == boot_phase_spec(ready, warmup, now),
{
    if !ready {
        Phase::Booting { since: now }
    } else if warmup {
        Phase::Warmup
    } else {
        Phase::Idle
    }
}

/// A REPL with no readiness mechanism configured is ready (Idle) immediately;
/// otherwise it starts Booting.
pub fn initial_phase(ready: bool, now: Instant) -> (p: Phase)
    ensures
        p == initial_phase_spec(ready, now),
{
    boot_phase(ready, false, now)
}

impl Core {
    /// The state of a server without a warmup that has just started.
    pub fn new(ready: bool, now: Instant) -> (c: Core)
        ensures
            c == new_core(ready, false, now),
    {
        Core::with_warmup(ready, false, now)
    }

    /// The state of a server that has just started; `warmup` is whether a
    /// warmup input is configured.
    pub fn with_warmup(ready: bool, warmup: bool, now: Instant) -> (c: Core)
        ensures
            c == new_core(ready, warmup, now),
    {
        Core {
            phase: boot_phase(ready, warmup, now),
            served: false,
            requests: 0,
            next_gen: 1,
            warmup,
            serving: false,
            warmup_sent: false,
        }
    }

    /// Whether to send the warmup input now; it is sent once per REPL
    /// instance, when the warmup phase has begun.
    pub fn take_warmup_turn(&mut self) -> (due: bool)
        ensures
            (*final(self), due) == warmup_turn_step(*old(self)),
    {
        if let Phase::Warmup = self.phase {
            if !self.warmup_sent {
                self.warmup_sent = true;
                return true;
            }
        }
        false
    }

    /// Where the REPL's output goes now: its stage, and whether it goes to
    /// the client.
    pub fn output_route(&self) -> (r: (Stage, bool))
        ensures
            r == output_route_spec(*self),
    {
        let stage = stage_of(&self.phase);
        let to_client = match stage {
            Stage::Serve => self.serving,
            _ => false,
        };
        (stage, to_client)
    }

    pub fn is_booting(&self) -> (b: bool)
        ensures
            b == self.phase is Booting,
    {
        match self.phase {
            Phase::Booting { .. } => true,
            _ => false,
        }
    }

    /// Booting or warming up: client input is held.
    pub fn is_pre_serving(&self) -> (b: bool)
        ensures
            b == pre_serving(self.phase),
    {
        match self.phase {
            Phase::Booting { .. } | Phase::Warmup => true,
            _ => false,
        }
    }

    /// Accept gate. `has_sink` is whether a client sink is already stored.
    /// Accepts only when no client is attached and the REPL is not
    /// mid-request. On success bumps the counters and returns the new client
    /// generation.
    pub fn try_accept(&mut self, has_sink: bool) -> (g: Option<u64>)
        requires
            old(self).next_gen < u64::MAX,
            old(self).requests < u64::MAX,
        ensures
            (*final(self), g) == accept_step(*old(self), has_sink),
    {
        let acceptable = match self.phase {
            Phase::Booting { .. } | Phase::Warmup | Phase::Idle => true,
            _ => false,
        };
        if has_sink || !acceptable {
            return None;
        }
        let g = self.next_gen;
        self.next_gen = self.next_gen + 1;
        self.requests = self.requests + 1;
        self.served = true;
        self.serving = false;
        Some(g)
    }

    /// A request's input was forwarded: Idle -> Busy in framed mode; raw mode
    /// has no end-of-response marker, so it never becomes Busy.
    pub fn request_start(&mut self, protocol: bool)
        ensures
            *final(self) == request_start_step(*old(self), protocol),
            final(self).serving,
    {
        if protocol {
            if let Phase::Idle = self.phase {
                self.phase = Phase::Busy;
            }
        }
        self.serving = true;
    }

    /// End-of-response marker seen: Busy/Draining -> Idle.
    pub fn response_end(&mut self)
        ensures
            *final(self) == response_end_step(*old(self)),
    {
        match self.phase {
            Phase::Busy | Phase::Draining { .. } => {
                self.phase = Phase::Idle;
            },
            _ => {},
        }
    }

    /// The active client departed. Busy -> Draining (arming `deadline`); in any
    /// other phase the phase is unchanged.
    pub fn client_gone(&mut self, deadline: Option<Instant>)
        ensures
            *final(self) == client_gone_step(*old(self), deadline),
    {
        if let Phase::Busy = self.phase {
            self.phase = Phase::Draining { deadline };
        }
        self.serving = false;
    }

    /// The REPL became ready: Booting -> Warmup (when a warmup is configured)
    /// or Idle. Returns whether it transitioned.
    pub fn ready(&mut self) -> (t: bool)
        ensures
            (*final(self), t) == ready_step(*old(self)),
    {
        if self.is_booting() {
            self.phase = if self.warmup {
                Phase::Warmup
            } else {
                Phase::Idle
            };
            true
        } else {
            false
        }
    }

    /// The warmup finished: Warmup -> Idle. Returns whether it transitioned.
    pub fn warmup_done(&mut self) -> (t: bool)
        ensures
            (*final(self), t) == warmup_done_step(*old(self)),
    {
        if let Phase::Warmup = self.phase {
            self.phase = Phase::Idle;
            true
        } else {
            false
        }
    }

    /// A freshly (re)spawned REPL instance begins its boot phase.
    pub fn begin_booting(&mut self, ready: bool, now: Instant)
        ensures
            *final(self) == begin_booting_step(*old(self), ready, now),
    {
        self.phase = boot_phase(ready, self.warmup, now);
        self.served = false;
        self.serving = false;
        self.warmup_sent = false;
    }

    pub fn stop(&mut self)
        ensures
            *final(self) == (Core { phase: Phase::Stopped, ..*old(self) }),
    {
        self.phase = Phase::Stopped;
    }
}

// ---- properties across transitions -------------------------------------------------

/// One client at a time: no new client gets in, and the state stays as it
/// was, while a client is attached, while a request is in flight, while the
/// REPL finishes the request of a client that left, and once the server has
/// shut down.
pub proof fn law_single_client_gate(c: Core, has_sink: bool)
    ensures
        has_sink ==> accept_step(c, has_sink) == (c, None::<u64>),
        (c.phase is Busy || c.phase is Draining || c.phase is Stopped) ==> accept_step(c, has_sink)
            == (c, None::<u64>),
        !has_sink && acceptable(c.phase) ==> accept_step(c, has_sink).1 is Some,
{
}

/// Accepting a client never moves the lifecycle: a booting REPL stays
/// booting until it is ready, and a new client is not served before its
/// request starts.
pub proof fn law_accept_keeps_phase(c: Core, has_sink: bool)
    ensures
        accept_step(c, has_sink).0.phase == c.phase,
        accept_step(c, has_sink).1 is Some ==> !accept_step(c, has_sink).0.serving,
{
}

/// Client generations are never reused: an accepted client gets the next
/// generation, which then moves past it, and no other transition touches the
/// counters.
pub proof fn law_generations_increase(
    c: Core,
    has_sink: bool,
    protocol: bool,
    deadline: Option<Instant>,
    ready: bool,
    now: Instant,
)
    requires
        c.next_gen < u64::MAX,
        c.requests < u64::MAX,
    ensures
        accept_step(c, has_sink).1 matches Some(g) ==> g == c.next_gen && accept_step(
            c,
            has_sink,
        ).0.next_gen == g + 1 && accept_step(c, has_sink).0.requests == c.requests + 1,
        request_start_step(c, protocol).next_gen == c.next_gen,
        request_start_step(c, protocol).requests == c.requests,
        response_end_step(c).next_gen == c.next_gen,
        response_end_step(c).requests == c.requests,
        client_gone_step(c, deadline).next_gen == c.next_gen,
        client_gone_step(c, deadline).requests == c.requests,
        ready_step(c).0.next_gen == c.next_gen,
        ready_step(c).0.requests == c.requests,
        warmup_done_step(c).0.next_gen == c.next_gen,
        warmup_done_step(c).0.requests == c.requests,
        begin_booting_step(c, ready, now).next_gen == c.next_gen,
        begin_booting_step(c, ready, now).requests == c.requests,
{
}

/// A request on a ready REPL makes it busy, and the end-of-response marker
/// makes it idle again, still serving the client.
pub proof fn law_request_response_cycle(c: Core)
    requires
        c.phase is Idle,
    ensures
        request_start_step(c, true).phase is Busy,
        response_end_step(request_start_step(c, true)) == (Core { serving: true, ..c }),
{
}

/// Raw mode has no end-of-response marker, so a request never makes the
/// REPL busy (which would never clear).
pub proof fn law_raw_never_busy(c: Core)
    ensures
        request_start_step(c, false).phase == c.phase,
{
}

/// Starting a request serves the attached client, in framed and in raw mode
/// alike: from then on the REPL's output goes to the client whenever the REPL
/// is serving.
pub proof fn law_request_serves_client(c: Core, protocol: bool)
    ensures
        request_start_step(c, protocol).serving,
        stage_spec(request_start_step(c, protocol).phase) is Serve ==> output_route_spec(
            request_start_step(c, protocol),
        ).1,
        stage_spec(c.phase) is Serve ==> output_route_spec(request_start_step(c, false)).1,
{
}

/// A client that leaves mid-request leaves the REPL draining, which keeps
/// new clients out until the response ends; leaving at any other time
/// leaves the phase as it is. Either way the REPL's output no longer goes to
/// it.
pub proof fn law_client_gone_drains(c: Core, deadline: Option<Instant>, has_sink: bool)
    ensures
        c.phase is Busy ==> client_gone_step(c, deadline).phase == (Phase::Draining { deadline }),
        c.phase is Busy ==> accept_step(client_gone_step(c, deadline), has_sink).1 is None,
        c.phase is Busy ==> response_end_step(client_gone_step(c, deadline)).phase is Idle,
        !(c.phase is Busy) ==> client_gone_step(c, deadline).phase == c.phase,
        !client_gone_step(c, deadline).serving,
{
}

/// Readiness ends the boot phase once, into the warmup when one is
/// configured; the warmup ends once; after that both are no-ops.
pub proof fn law_ready_once(c: Core)
    ensures
        c.phase is Booting ==> ready_step(c).1 && ready_step(c).0.phase == (if c.warmup {
            Phase::Warmup
        } else {
            Phase::Idle
        }),
        !ready_step(ready_step(c).0).1,
        ready_step(ready_step(c).0).0 == ready_step(c).0,
        c.phase is Warmup ==> warmup_done_step(c).1 && warmup_done_step(c).0.phase is Idle,
        !warmup_done_step(warmup_done_step(c).0).1,
{
}

/// No client input is forwarded before the REPL is ready and warmed up: a
/// request can only make the REPL busy from Idle, and the phases before
/// serving are left only by readiness and the end of the warmup.
pub proof fn law_no_request_before_serving(c: Core, protocol: bool, has_sink: bool, deadline: Option<Instant>)
    requires
        pre_serving(c.phase),
    ensures
        pre_serving(request_start_step(c, protocol).phase),
        pre_serving(accept_step(c, has_sink).0.phase),
        pre_serving(response_end_step(c).phase),
        pre_serving(client_gone_step(c, deadline).phase),
{
}

/// A respawned REPL has served no client yet, serves none until a request
/// starts, and is booting exactly when a readiness mechanism is configured.
pub proof fn law_begin_booting_resets(c: Core, ready: bool, now: Instant)
    ensures
        !begin_booting_step(c, ready, now).served,
        !begin_booting_step(c, ready, now).serving,
        begin_booting_step(c, ready, now).phase is Booting == !ready,
        pre_serving(begin_booting_step(c, ready, now).phase) == (!ready || c.warmup),
{
}

/// Boot and warmup output never reaches a client: before the REPL is
/// serving, its output goes to the server's own streams, and afterwards only
/// to a client whose request has started.
pub proof fn law_output_before_serving_stays_home(c: Core)
    ensures
        pre_serving(c.phase) ==> !output_route_spec(c).1,
        output_route_spec(c).1 ==> c.serving,
{
}

/// The warmup input is sent once per REPL instance: the first turn in the
/// warmup phase is due, every later one is not, until a respawn starts a new
/// instance.
pub proof fn law_warmup_sent_once(c: Core, ready: bool, now: Instant)
    ensures
        c.phase is Warmup && !c.warmup_sent ==> warmup_turn_step(c).1,
        !warmup_turn_step(warmup_turn_step(c).0).1,
        !begin_booting_step(c, ready, now).warmup_sent,
        !(c.phase is Warmup) ==> !warmup_turn_step(c).1,
{
}

/// Stopped is terminal: no event but a respawn leaves it, and no client is
/// accepted.
pub proof fn law_stopped_is_terminal(c: Core, has_sink: bool, protocol: bool, deadline: Option<Instant>)
    requires
        c.phase is Stopped,
    ensures
        accept_step(c, has_sink) == (c, None::<u64>),
        request_start_step(c, protocol).phase is Stopped,
        response_end_step(c) == c,
        client_gone_step(c, deadline).phase is Stopped,
        ready_step(c) == (c, false),
        warmup_done_step(c) == (c, false),
{
}

// ---- supervision ---------------------------------------------------------------

/// A REPL that exits within this many milliseconds of being spawned, before
/// serving any client, counts as a startup failure.
pub const STARTUP_GRACE_MS: u64 = 500;

/// Consecutive startup failures before the crash-loop breaker gives up.
pub const MAX_STARTUP_FAILURES: u32 = 5;

/// `100 * 2^k` milliseconds.
pub open spec fn doubled(k: nat) -> nat
    decreases k,
{
    if k == 0 {
        100
    } else {
        2 * doubled((k - 1) as nat)
    }
}

/// The pause before respawning after `failures` consecutive startup
/// failures, in milliseconds: none after a good start, then 100 ms doubling
/// per failure, capped at 2 s.
pub open spec fn backoff_spec(failures: u32) -> nat {
    if failures == 0 {
        0
    } else {
        let k: nat = if failures - 1 < 5 { (failures - 1) as nat } else { 5 };
        if doubled(k) < 2000 {
            doubled(k)
        } else {
            2000
        }
    }
}

/// The respawn pause after `failures` consecutive startup failures, in
/// milliseconds.
pub fn backoff_for(failures: u32) -> (ms: u64)
    ensures
        ms == backoff_spec(failures),
{
    if failures == 0 {
        return 0;
    }
    let shift: u32 = if failures - 1 < 5 {
        failures - 1
    } else {
        5
    };
    let mut ms: u64 = 100;
    let mut k: u32 = 0;
    while k < shift
        invariant
            k <= shift <= 5,
            ms == doubled(k as nat),
            ms <= 3200,
        decreases shift - k,
    {
        proof {
            reveal_with_fuel(doubled, 6);
            assert(doubled((k + 1) as nat) == 2 * doubled(k as nat));
            assert(doubled(k as nat) <= doubled(4)) by {
                lemma_doubled_grows(k as nat, 4);
            }
        }
        ms = ms * 2;
        k = k + 1;
    }
    if ms < 2000 {
        ms
    } else {
        2000
    }
}

proof fn lemma_doubled_grows(a: nat, b: nat)
    requires
        a <= b,
    ensures
        doubled(a) <= doubled(b),
    decreases b,
{
    if a < b {
        lemma_doubled_grows(a, (b - 1) as nat);
    }
}

/// The respawn pause never shrinks as failures accumulate, and never exceeds
/// two seconds.
pub proof fn law_backoff_grows_and_caps(f1: u32, f2: u32)
    requires
        f1 <= f2,
    ensures
        backoff_spec(f1) <= backoff_spec(f2),
        backoff_spec(f2) <= 2000,
{
    if f1 > 0 {
        let k1: nat = if f1 - 1 < 5 { (f1 - 1) as nat } else { 5 };
        let k2: nat = if f2 - 1 < 5 { (f2 - 1) as nat } else { 5 };
        lemma_doubled_grows(k1, k2);
    }
}

/// What the supervisor does when the REPL process has exited.
#[derive(Clone, Copy, Debug, PartialEq, Eq, Structural)]
pub enum ExitAction {
    /// Report that the REPL exited and stop the server.
    Stop,
    /// The REPL failed to start too many times in a row: report it and stop
    /// with an error.
    GiveUp,
    /// Wait `backoff_ms`, then respawn; `failures` is the new count of
    /// consecutive startup failures.
    Respawn { failures: u32, backoff_ms: u64 },
}

/// Whether an exit counts as a startup failure: the REPL was torn down for
/// never signalling readiness, or it died quickly without serving anyone.
pub open spec fn startup_failure(stuck: bool, served: bool, quick: bool) -> bool {
    stuck || (!served && quick)
}

/// The decision on a REPL exit. `restart` is `-r`; `forced` is whether a
/// draining deadline had the REPL terminated (restart even without `-r`);
/// `stuck` is whether a readiness timeout did; `served` is whether this
/// instance accepted a client; `quick` is whether it exited within the
/// startup grace period; `failures` counts the startup failures before it.
pub open spec fn exit_action_spec(
    restart: bool,
    forced: bool,
    stuck: bool,
    served: bool,
    quick: bool,
    failures: u32,
) -> ExitAction {
    if !(restart || forced) {
        ExitAction::Stop
    } else {
        let n: int = if startup_failure(stuck, served, quick) {
            failures + 1
        } else {
            0
        };
        if n >= MAX_STARTUP_FAILURES {
            ExitAction::GiveUp
        } else {
            ExitAction::Respawn { failures: n as u32, backoff_ms: backoff_spec(n as u32) as u64 }
        }
    }
}

/// Decide what to do now that the REPL process has exited.
pub fn on_repl_exit(
    restart: bool,
    forced: bool,
    stuck: bool,
    served: bool,
    quick: bool,
    failures: u32,
) -> (a: ExitAction)
    requires
        failures < u32::MAX,
    ensures
        a == exit_action_spec(restart, forced, stuck, served, quick, failures),
        !restart && !forced ==> a == ExitAction::Stop,
        restart || forced ==> a != ExitAction::Stop,
{
    if !(restart || forced) {
        return ExitAction::Stop;
    }
    let n: u32 = if stuck || (!served && quick) {
        failures + 1
    } else {
        0
    };
    if n >= MAX_STARTUP_FAILURES {
        ExitAction::GiveUp
    } else {
        ExitAction::Respawn { failures: n, backoff_ms: backoff_for(n) }
    }
}

/// Without `-r`, and without a restart forced by a draining deadline, every
/// REPL exit stops the server, whatever happened before; with either, the
/// server never stops on a REPL exit (it respawns or gives up).
pub proof fn law_no_restart_stops(restart: bool, forced: bool, stuck: bool, served: bool, quick: bool, failures: u32)
    ensures
        !restart && !forced ==> exit_action_spec(restart, forced, stuck, served, quick, failures)
            == ExitAction::Stop,
        restart || forced ==> exit_action_spec(restart, forced, stuck, served, quick, failures)
            != ExitAction::Stop,
{
}

/// The crash-loop breaker: a REPL that keeps failing at startup is respawned
/// with a growing pause until the count reaches `MAX_STARTUP_FAILURES`, and
/// then the server gives up; a start that does not fail resets the count and
/// respawns at once.
pub proof fn law_crash_loop_breaker(restart: bool, forced: bool, stuck: bool, served: bool, quick: bool, failures: u32)
    requires
        restart || forced,
        failures < u32::MAX,
    ensures
        startup_failure(stuck, served, quick) && failures + 1 < MAX_STARTUP_FAILURES
            ==> exit_action_spec(restart, forced, stuck, served, quick, failures) == (
        ExitAction::Respawn { failures: (failures + 1) as u32, backoff_ms: backoff_spec((failures + 1) as u32) as u64 }),
        startup_failure(stuck, served, quick) && failures + 1 >= MAX_STARTUP_FAILURES
            ==> exit_action_spec(restart, forced, stuck, served, quick, failures) == ExitAction::GiveUp,
        !startup_failure(stuck, served, quick) ==> exit_action_spec(restart, forced, stuck, served, quick, failures)
            == (ExitAction::Respawn { failures: 0, backoff_ms: 0 }),
        stuck ==> startup_failure(stuck, served, quick),
{
}

/// What a periodic supervision check asks for.
#[derive(Clone, Copy, Debug, PartialEq, Eq, Structural)]
pub enum Tick {
    Nothing,
    /// The fixed ready wait has elapsed: the REPL counts as ready.
    SignalReady,
    /// The fixed warmup wait has elapsed: the warmup counts as finished.
    WarmupDone,
    /// No ready or warmup marker within its timeout: terminate the REPL as
    /// stuck.
    TerminateStuck,
    /// The draining deadline passed: terminate the REPL and restart it.
    TerminateForced,
}

/// Which of the configured waits have elapsed. Each is `None` when the
/// option is not set, else whether its time has passed: `ready_wait` and
/// `ready_timeout` since the boot began, `warmup_wait` and `warmup_timeout`
/// since the warmup began; `deadline_passed` is whether a draining deadline
/// has passed.
#[derive(Clone, Copy, Debug)]
pub struct Clocks {
    pub ready_wait: Option<bool>,
    pub ready_timeout: Option<bool>,
    pub warmup_wait: Option<bool>,
    pub warmup_timeout: Option<bool>,
    pub deadline_passed: bool,
}

/// The time-based supervision decision, driven off the current phase.
/// `stuck` and `forced` are whether the REPL is already being terminated for
/// either reason.
pub open spec fn tick_spec(phase: Phase, clocks: Clocks, stuck: bool, forced: bool) -> Tick {
    match phase {
        Phase::Booting { .. } => match clocks.ready_wait {
            Some(elapsed) => if elapsed {
                Tick::SignalReady
            } else {
                Tick::Nothing
            },
            None => match clocks.ready_timeout {
                Some(elapsed) => if !stuck && elapsed {
                    Tick::TerminateStuck
                } else {
                    Tick::Nothing
                },
                None => Tick::Nothing,
            },
        },
        Phase::Warmup => if clocks.warmup_wait == Some(true) {
            Tick::WarmupDone
        } else if !stuck && clocks.warmup_timeout == Some(true) {
            Tick::TerminateStuck
        } else {
            Tick::Nothing
        },
        Phase::Draining { deadline: Some(_) } => if !forced && clocks.deadline_passed {
            Tick::TerminateForced
        } else {
            Tick::Nothing
        },
        _ => Tick::Nothing,
    }
}

/// The periodic supervision check.
pub fn supervise(phase: &Phase, clocks: Clocks, stuck: bool, forced: bool) -> (t: Tick)
    ensures
        t == tick_spec(*phase, clocks, stuck, forced),
{
    match phase {
        Phase::Booting { .. } => match clocks.ready_wait {
            Some(elapsed) => if elapsed {
                Tick::SignalReady
            } else {
                Tick::Nothing
            },
            None => match clocks.ready_timeout {
                Some(elapsed) => if !stuck && elapsed {
                    Tick::TerminateStuck
                } else {
                    Tick::Nothing
                },
                None => Tick::Nothing,
            },
        },
        Phase::Warmup => {
            let wait_over = match clocks.warmup_wait {
                Some(e) => e,
                None => false,
            };
            let timed_out = match clocks.warmup_timeout {
                Some(e) => e,
                None => false,
            };
            if wait_over {
                Tick::WarmupDone
            } else if !stuck && timed_out {
                Tick::TerminateStuck
            } else {
                Tick::Nothing
            }
        },
        Phase::Draining { deadline: Some(_) } => if !forced && clocks.deadline_passed {
            Tick::TerminateForced
        } else {
            Tick::Nothing
        },
        _ => Tick::Nothing,
    }
}

// ---- bind resolution & names -------------------------------------------------------

/// The unix socket path a server listens on: the one given, or the default
/// name for this command and process.
pub open spec fn socket_path_spec(path: Option<Seq<u8>>, cmdname: Seq<char>, pid: u32) -> Seq<u8> {
    match path {
        Some(p) => p,
        None => encode_utf8(default_name(cmdname, pid, SOCKET_SUFFIX@)),
    }
}

/// The bind a server listens on, with a unix socket's path filled in, and
/// the socket file it creates (to remove on exit).
pub fn resolve_bind(bind: Bind, cmdname: &str, pid: u32) -> (r: (Bind, Option<Vec<u8>>))
    ensures
        match bind@ {
            BindView::Tcp { .. } => r.0@ == bind@ && r.1 is None,
            BindView::Unix { path } => {
                let p = socket_path_spec(path, cmdname@, pid);
                &&& r.0@ == (BindView::Unix { path: Some(p) })
                &&& r.1 matches Some(v) && v@ == p
            },
        },
        bind@ matches BindView::Unix { path: Some(p) } ==> (r.0@ == (BindView::Unix { path: Some(p) })
            && r.1 is Some && r.1->0@ == p),
{
    match bind {
        Bind::Tcp { addr, port } => (Bind::Tcp { addr, port }, None),
        Bind::Unix { path } => {
            let p = match path {
                Some(p) => p,
                None => default_socket_path(cmdname, pid).as_str().as_bytes_vec(),
            };
            let copy = crate::cli::copy_bytes(&p);
            (Bind::Unix { path: Some(p) }, Some(copy))
        },
    }
}

/// A socket path given on the command line is the one listened on, so
/// different given paths give different sockets; the default name stands in
/// only when no path is given.
pub proof fn law_given_socket_path_kept(p: Seq<u8>, cmdname: Seq<char>, pid: u32, q: Seq<u8>)
    ensures
        socket_path_spec(Some(p), cmdname, pid) == p,
        socket_path_spec(Some(p), cmdname, pid) != socket_path_spec(Some(q), cmdname, pid) <==> p != q,
{
}

/// How a bind is shown to clients: `addr:port`, or the socket path.
pub open spec fn describe_spec(b: BindView) -> Seq<char> {
    match b {
        BindView::Tcp { addr, port } => addr + ":"@ + decimal(port as nat),
        BindView::Unix { path } => match path {
            Some(p) => utf8_lossy(p),
            None => Seq::empty(),
        },
    }
}

/// How a bind is shown to clients.
pub fn describe(bind: &Bind) -> (s: String)
    ensures
        s@ == describe_spec(bind@),
{
    match bind {
        Bind::Tcp { addr, port } => {
            let mut s = crate::text::cat(addr.as_str(), ":");
            let digits = decimal_string(*port as u64);
            s.append(digits.as_str());
            s
        },
        Bind::Unix { path } => match path {
            Some(p) => lossy_string(p.as_slice()),
            None => {
                let s = String::new();
                assert(s@ =~= Seq::<char>::empty());
                s
            },
        },
    }
}

/// The pidfile a server writes, if any: the path given, or the default name
/// for this command and process.
pub open spec fn pidfile_path_spec(spec: Option<PidfileView>, cmdname: Seq<char>, pid: u32) -> Option<Seq<u8>> {
    match spec {
        None => None,
        Some(PidfileView::Default) => Some(encode_utf8(default_name(cmdname, pid, PIDFILE_SUFFIX@))),
        Some(PidfileView::Path(p)) => Some(p),
    }
}

/// The pidfile a server writes, if any.
pub fn pidfile_path(spec: &Option<PidfileSpec>, cmdname: &str, pid: u32) -> (r: Option<Vec<u8>>)
    ensures
        match r {
            Some(v) => pidfile_path_spec(
                match spec {
                    Some(s) => Some(s@),
                    None => None,
                },
                cmdname@,
                pid,
            ) == Some(v@),
            None => spec is None,
        },
{
    match spec {
        None => None,
        Some(PidfileSpec::Default) => Some(
            default_pidfile_path(cmdname, pid).as_str().as_bytes_vec(),
        ),
        Some(PidfileSpec::Path(p)) => Some(crate::cli::copy_bytes(p)),
    }
}

/// What a pidfile holds: the process id and a newline.
pub fn pidfile_text(pid: u32) -> (r: Vec<u8>)
    ensures
        r@ == dec_bytes(pid as nat).push(10u8),
{
    let mut r = decimal_bytes(pid as u64);
    r.push(10u8);
    r
}

// ---- output delivery ---------------------------------------------------------------

/// The three streams the server sends to a client.
#[derive(Clone, Copy, Debug, PartialEq, Eq, Structural)]
pub enum Channel {
    Stdout,
    Stderr,
    Control,
}

/// A channel's stream name on the wire.
pub open spec fn channel_name(c: Channel) -> Seq<u8> {
    match c {
        Channel::Stdout => STREAM_OUT.spec_bytes(),
        Channel::Stderr => STREAM_ERR.spec_bytes(),
        Channel::Control => STREAM_CTL.spec_bytes(),
    }
}

/// What the server writes to a client for a chunk on a channel: framed
/// packets, or in raw mode the bytes as they are.
pub fn frame_chunk(protocol: bool, channel: Channel, chunk: &[u8]) -> (r: Vec<u8>)
    ensures
        r@ == if protocol {
            encoded(channel_name(channel), chunk@)
        } else {
            chunk@
        },
{
    if !protocol {
        return crate::bytes::slice_range(chunk, 0, chunk.len());
    }
    let name: &str = match channel {
        Channel::Stdout => STREAM_OUT,
        Channel::Stderr => STREAM_ERR,
        Channel::Control => STREAM_CTL,
    };
    proof {
        reveal_strlit("out");
        reveal_strlit("err");
        reveal_strlit("ctl");
        vstd::string::is_ascii_spec_bytes(STREAM_OUT);
        vstd::string::is_ascii_spec_bytes(STREAM_ERR);
        vstd::string::is_ascii_spec_bytes(STREAM_CTL);
        assert(name.spec_bytes().len() == 3);
        crate::protocol::lemma_overhead_small(3);
    }
    let mut out: Vec<u8> = Vec::new();
    encode(&mut out, name, chunk);
    assert(out@ =~= encoded(channel_name(channel), chunk@));
    out
}

/// The fields of the status message a client gets on connecting.
pub open spec fn status_fields_spec(
    server_pid: u32,
    repl_pid: u32,
    requests: u64,
    uptime_s: u64,
    started: Seq<char>,
    listening: Seq<char>,
) -> Seq<char> {
    "server_pid="@ + decimal(server_pid as nat) + " repl_pid="@ + decimal(repl_pid as nat)
        + " requests="@ + decimal(requests as nat) + " uptime_s="@ + decimal(uptime_s as nat)
        + " started="@ + started + " listening="@ + listening
}

/// `server_pid=.. repl_pid=.. requests=.. uptime_s=.. started=.. listening=..`
pub fn status_fields(
    server_pid: u32,
    repl_pid: u32,
    requests: u64,
    uptime_s: u64,
    started: &str,
    listening: &str,
) -> (s: String)
    ensures
        s@ == status_fields_spec(server_pid, repl_pid, requests, uptime_s, started@, listening@),
{
    let mut s = crate::text::owned("server_pid=");
    s.append(decimal_string(server_pid as u64).as_str());
    s.append(" repl_pid=");
    s.append(decimal_string(repl_pid as u64).as_str());
    s.append(" requests=");
    s.append(decimal_string(requests).as_str());
    s.append(" uptime_s=");
    s.append(decimal_string(uptime_s).as_str());
    s.append(" started=");
    s.append(started);
    s.append(" listening=");
    s.append(listening);
    s
}

// ---- watching the REPL's output ---------------------------------------------------------

/// Where the REPL is in its lifecycle, as far as its output is concerned.
#[derive(Clone, Copy, Debug, PartialEq, Eq, Structural)]
pub enum Stage {
    /// Booting: output is watched for the ready marker.
    Boot,
    /// Warming up: output is watched for the warmup marker.
    Warmup,
    /// Ready: output is a response, watched for end-of-response markers.
    Serve,
}

/// The stage of a phase.
pub open spec fn stage_spec(p: Phase) -> Stage {
    match p {
        Phase::Booting { .. } => Stage::Boot,
        Phase::Warmup => Stage::Warmup,
        _ => Stage::Serve,
    }
}

/// The stage of a phase.
pub fn stage_of(p: &Phase) -> (s: Stage)
    ensures
        s == stage_spec(*p),
{
    match p {
        Phase::Booting { .. } => Stage::Boot,
        Phase::Warmup => Stage::Warmup,
        _ => Stage::Serve,
    }
}

/// What to do with a chunk the REPL wrote: deliver `bytes` (to the client
/// being served in the serving stage, else to the server's own stream), and
/// signal what its markers said.
pub struct PumpOutput {
    pub bytes: Vec<u8>,
    /// The ready marker was seen.
    pub ready: bool,
    /// The warmup marker was seen.
    pub warmup_done: bool,
    /// An end-of-response marker was seen.
    pub response_end: bool,
}

/// One marker watched until it is seen: the scanner after feeding `chunk`,
/// and whether this chunk completed the marker.
pub open spec fn watched(before: Option<MarkerScanner>, after: Option<MarkerScanner>, chunk: Seq<u8>, hit: bool) -> bool {
    match before {
        None => !hit && after is None,
        Some(s) => {
            let (o, _) = feed_result(s.marker_list(), s.strips(), s.seen(), chunk);
            &&& hit == o is Some
            &&& if hit {
                after is None
            } else {
                after matches Some(t) && t.wf() && !t.is_done() && t.marker_list() == s.marker_list()
                    && t.strips() == s.strips() && t.seen() == s.seen() + chunk
            }
        },
    }
}

/// A watcher for a single marker (empty: none).
fn single_marker(marker: Vec<u8>) -> (r: Option<MarkerScanner>)
    ensures
        match r {
            None => marker@.len() == 0,
            Some(s) => marker@.len() > 0 && crate::client::fresh(s, seq![(marker@, Outcome::End)], false),
        },
{
    if marker.len() > 0 {
        let ghost m = marker@;
        let mut v: Vec<(Vec<u8>, Outcome)> = Vec::new();
        v.push((marker, Outcome::End));
        assert(crate::marker::pairs_view(v@) =~= seq![(m, Outcome::End)]);
        let markers = Markers::new(v);
        assert(drop_empty(seq![(m, Outcome::End)]) =~= seq![(m, Outcome::End)]) by {
            reveal_with_fuel(drop_empty, 2);
        }
        Some(MarkerScanner::new(markers, false))
    } else {
        None
    }
}

/// Feed a single-marker watcher; returns whether the marker was seen (the
/// watcher is then dropped).
fn watch(w: &mut Option<MarkerScanner>, chunk: &[u8]) -> (hit: bool)
    requires
        crate::client::live(*old(w)),
    ensures
        watched(*old(w), *final(w), chunk@, hit),
{
    let mut hit = false;
    match w {
        None => {},
        Some(s) => match s.feed(chunk) {
            Feed::Done { .. } => {
                hit = true;
            },
            Feed::More(_) => {},
        },
    }
    if hit {
        *w = None;
    }
    hit
}

/// Watches one of the REPL's output streams: for the ready marker while it
/// boots, for the warmup marker while it warms up, then for end-of-response
/// markers (framed mode only; raw mode is a plain byte forwarder).
pub struct Pump {
    ready: Option<MarkerScanner>,
    warmup: Option<MarkerScanner>,
    response: Option<ResponseScanner>,
}

impl Pump {
    /// The watcher for the ready marker, until it is seen.
    pub closed spec fn ready_scanner(&self) -> Option<MarkerScanner> {
        self.ready
    }

    /// The watcher for the warmup marker, until it is seen.
    pub closed spec fn warmup_scanner(&self) -> Option<MarkerScanner> {
        self.warmup
    }

    /// The scanner for the end-of-response markers, in framed mode.
    pub closed spec fn response_scanner(&self) -> Option<ResponseScanner> {
        self.response
    }

    /// Consistent: the watchers are live, and a response scanner with no
    /// markers holds nothing back.
    pub open spec fn wf(&self) -> bool {
        &&& crate::client::live(self.ready_scanner())
        &&& crate::client::live(self.warmup_scanner())
        &&& match self.response_scanner() {
            Some(r) => r.marker_list().len() == 0 ==> r.held().len() == 0,
            None => true,
        }
    }

    /// A pump for one stream: its ready and warmup markers (empty: none),
    /// whether the connection is framed, the stream's end and error markers,
    /// and whether to strip a matched marker.
    pub fn new(
        ready_marker: Vec<u8>,
        warmup_marker: Vec<u8>,
        protocol: bool,
        end_marker: Vec<u8>,
        error_marker: Vec<u8>,
        strip: bool,
    ) -> (p: Pump)
        ensures
            p.wf(),
            match p.ready_scanner() {
                None => ready_marker@.len() == 0,
                Some(s) => ready_marker@.len() > 0 && crate::client::fresh(
                    s,
                    seq![(ready_marker@, Outcome::End)],
                    false,
                ),
            },
            match p.warmup_scanner() {
                None => warmup_marker@.len() == 0,
                Some(s) => warmup_marker@.len() > 0 && crate::client::fresh(
                    s,
                    seq![(warmup_marker@, Outcome::End)],
                    false,
                ),
            },
            match p.response_scanner() {
                None => !protocol,
                Some(r) => protocol && r.marker_list() == drop_empty(
                    seq![(end_marker@, Outcome::End), (error_marker@, Outcome::Error)],
                ) && r.strips() == strip && r.held() == Seq::<u8>::empty(),
            },
    {
        let ready = single_marker(ready_marker);
        let warmup = single_marker(warmup_marker);
        let response = if protocol {
            let mut v: Vec<(Vec<u8>, Outcome)> = Vec::new();
            let ghost em = end_marker@;
            let ghost xm = error_marker@;
            v.push((end_marker, Outcome::End));
            v.push((error_marker, Outcome::Error));
            assert(crate::marker::pairs_view(v@) =~= seq![(em, Outcome::End), (xm, Outcome::Error)]);
            Some(ResponseScanner::new(Markers::new(v), strip))
        } else {
            None
        };
        Pump { ready, warmup, response }
    }

    /// Handle a chunk of the REPL's output in the given stage. Boot and
    /// warmup output is only watched for its marker and passed on as it is;
    /// response output is scanned for end-of-response markers.
    pub fn on_chunk(&mut self, stage: Stage, chunk: &[u8]) -> (r: PumpOutput)
        requires
            old(self).wf(),
        ensures
            final(self).wf(),
            stage is Serve || (r.bytes@ == chunk@ && !r.response_end && final(self).response_scanner()
                == old(self).response_scanner()),
            stage is Boot ==> watched(old(self).ready_scanner(), final(self).ready_scanner(), chunk@, r.ready)
                && !r.warmup_done && final(self).warmup_scanner() == old(self).warmup_scanner(),
            stage is Warmup ==> watched(
                old(self).warmup_scanner(),
                final(self).warmup_scanner(),
                chunk@,
                r.warmup_done,
            ) && !r.ready && final(self).ready_scanner() == old(self).ready_scanner(),
            stage is Serve ==> ({
                &&& !r.ready
                &&& !r.warmup_done
                &&& final(self).ready_scanner() == old(self).ready_scanner()
                &&& final(self).warmup_scanner() == old(self).warmup_scanner()
                &&& match old(self).response_scanner() {
                    None => r.bytes@ == chunk@ && !r.response_end && final(self).response_scanner() is None,
                    Some(s) => {
                        let (emit, found, hold) = response_feed(
                            s.marker_list(),
                            s.strips(),
                            s.held(),
                            chunk@,
                        );
                        &&& r.bytes@ == emit
                        &&& r.response_end == (found > 0)
                        &&& final(self).response_scanner() matches Some(t) && t.marker_list()
                            == s.marker_list() && t.strips() == s.strips() && t.held() == hold
                    },
                }
            }),
    {
        match stage {
            Stage::Boot => {
                let ready = watch(&mut self.ready, chunk);
                PumpOutput {
                    bytes: crate::bytes::slice_range(chunk, 0, chunk.len()),
                    ready,
                    warmup_done: false,
                    response_end: false,
                }
            },
            Stage::Warmup => {
                let done = watch(&mut self.warmup, chunk);
                PumpOutput {
                    bytes: crate::bytes::slice_range(chunk, 0, chunk.len()),
                    ready: false,
                    warmup_done: done,
                    response_end: false,
                }
            },
            Stage::Serve => match &mut self.response {
                None => PumpOutput {
                    bytes: crate::bytes::slice_range(chunk, 0, chunk.len()),
                    ready: false,
                    warmup_done: false,
                    response_end: false,
                },
                Some(s) => {
                    let (emit, found) = s.feed(chunk);
                    PumpOutput { bytes: emit, ready: false, warmup_done: false, response_end: found > 0 }
                },
            },
        }
    }

    /// The stream ended: what the response scanner still held back.
    pub fn finish(self) -> (r: Vec<u8>)
        ensures
            r@ == match self.response_scanner() {
                Some(s) => s.held(),
                None => Seq::empty(),
            },
    {
        match self.response {
            Some(s) => s.flush(),
            None => Vec::new(),
        }
    }
}

} // verus!
