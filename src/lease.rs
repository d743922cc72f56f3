//! The lease keep-alive state machine and the decisions around it.
//!
//! Times are monotonic instants in milliseconds, counted from any fixed
//! origin; time-to-live values (TTL) are in seconds. The task that runs a
//! driver owns the heartbeat stream: it performs each `KeepAliveAction` and
//! hands back what happened as a `KeepAliveEvent`, observing events in the
//! order of a biased select (a ready response first, then cancellation, then
//! the heartbeat timer).

use vstd::prelude::*;

verus! {

/// Milliseconds in a second.
pub const MILLIS_PER_SEC: u64 = 1000;

/// Why a lease can no longer be kept alive.
#[derive(Debug, Clone, Copy, PartialEq, Eq, Structural)]
pub enum LeaseError {
    /// No response came before the deadline: the lease is lost.
    DeadlineExceeded,
    /// The server answered a heartbeat with a TTL of zero: the lease expired or was revoked.
    Expired,
    /// The server closed the heartbeat stream.
    StreamClosed,
    /// Receiving from the heartbeat stream failed.
    StreamFailed,
    /// The deadline does not fit in the clock's range.
    DeadlineOverflow,
}

/// The instant, in milliseconds, that lies `ttl` seconds after `now`.
pub open spec fn deadline_after(now: u64, ttl: u64) -> int {
    now + ttl * MILLIS_PER_SEC
}

/// The deadline `ttl` seconds after `now`, or `DeadlineOverflow` when it
/// does not fit in a `u64`.
pub fn create_deadline(now: u64, ttl: u64) -> (r: Result<u64, LeaseError>)
    ensures
        deadline_after(now, ttl) <= u64::MAX ==> r == Ok::<u64, LeaseError>(
            deadline_after(now, ttl) as u64,
        ),
        deadline_after(now, ttl) > u64::MAX ==> r == Err::<u64, LeaseError>(
            LeaseError::DeadlineOverflow,
        ),
{
    let room = u64::MAX - now;
    let most = room / MILLIS_PER_SEC;
    if ttl > most {
        proof {
            let (t, m, q) = (ttl as int, room as int, most as int);
            assert(t * 1000 > m) by (nonlinear_arith)
                requires
                    t > q,
                    q == m / 1000,
            ;
        }
        Err(LeaseError::DeadlineOverflow)
    } else {
        proof {
            let (t, m, q) = (ttl as int, room as int, most as int);
            assert(t * 1000 <= m) by (nonlinear_arith)
                requires
                    0 <= t <= q,
                    q == m / 1000,
                    m >= 0,
            ;
        }
        Ok(now + ttl * MILLIS_PER_SEC)
    }
}

/// The state of a keep-alive driver: the lease it keeps, the TTL the server
/// last granted and the instant by which the next response must arrive.
#[derive(Debug, Clone, Copy, PartialEq, Eq, Structural)]
pub struct KeepAlive {
    pub lease_id: u64,
    pub ttl: u64,
    pub deadline: u64,
}

/// What the task that runs a driver saw.
#[derive(Debug, Clone, Copy, PartialEq, Eq, Structural)]
pub enum KeepAliveEvent {
    /// The heartbeat stream yielded a response carrying this TTL.
    Response(u64),
    /// The heartbeat stream ended.
    StreamClosed,
    /// Receiving from the heartbeat stream failed.
    StreamFailed,
    /// The driver's cancellation token fired.
    Cancelled,
    /// The heartbeat timer of the last `Wait` elapsed first.
    Tick,
    /// A heartbeat was sent.
    HeartbeatSent,
    /// Sending a heartbeat failed.
    HeartbeatFailed,
}

/// What the task that runs a driver must do next.
#[derive(Debug, Clone, Copy, PartialEq, Eq, Structural)]
pub enum KeepAliveAction {
    /// Wait for a response or cancellation; if neither comes within this
    /// many seconds, report `Tick`.
    Wait(u64),
    /// Send a heartbeat and report how it went.
    SendHeartbeat,
    /// Revoke the lease (ignoring a failure: the lease may be gone already)
    /// and stop with success.
    Revoke,
    /// Stop with this error.
    Fail(LeaseError),
}

/// The check made before every wait: a passed deadline loses the lease, else
/// the driver waits, with a heartbeat due after half the TTL.
pub open spec fn deadline_action(s: KeepAlive, now: u64) -> KeepAliveAction {
    if now >= s.deadline {
        KeepAliveAction::Fail(LeaseError::DeadlineExceeded)
    } else {
        KeepAliveAction::Wait(s.ttl / 2)
    }
}

/// The driver's transition on an event at instant `now`: its next state and
/// the action to take.
pub open spec fn keep_alive_step(s: KeepAlive, e: KeepAliveEvent, now: u64) -> (KeepAlive, KeepAliveAction) {
    match e {
        KeepAliveEvent::Response(t) => {
            if t == 0 {
                (s, KeepAliveAction::Fail(LeaseError::Expired))
            } else if deadline_after(now, t) > u64::MAX {
                (s, KeepAliveAction::Fail(LeaseError::DeadlineOverflow))
            } else {
                let next = KeepAlive { ttl: t, deadline: deadline_after(now, t) as u64, ..s };
                (next, deadline_action(next, now))
            }
        },
        KeepAliveEvent::StreamClosed => (s, KeepAliveAction::Fail(LeaseError::StreamClosed)),
        KeepAliveEvent::StreamFailed => (s, KeepAliveAction::Fail(LeaseError::StreamFailed)),
        KeepAliveEvent::Cancelled => (s, KeepAliveAction::Revoke),
        KeepAliveEvent::Tick => (s, KeepAliveAction::SendHeartbeat),
        KeepAliveEvent::HeartbeatSent => (s, deadline_action(s, now)),
        KeepAliveEvent::HeartbeatFailed => {
            let next = KeepAlive { ttl: 0, ..s };
            (next, deadline_action(next, now))
        },
    }
}

impl KeepAlive {
    /// A driver for `lease_id`, granted `ttl` seconds at instant `now`.
    pub fn start(lease_id: u64, ttl: u64, now: u64) -> (r: Result<KeepAlive, LeaseError>)
        ensures
            deadline_after(now, ttl) <= u64::MAX ==> r == Ok::<KeepAlive, LeaseError>(
                KeepAlive { lease_id, ttl, deadline: deadline_after(now, ttl) as u64 },
            ),
            deadline_after(now, ttl) > u64::MAX ==> r == Err::<KeepAlive, LeaseError>(
                LeaseError::DeadlineOverflow,
            ),
    {
        match create_deadline(now, ttl) {
            Ok(deadline) => Ok(KeepAlive { lease_id, ttl, deadline }),
            Err(e) => Err(e),
        }
    }

    /// The action to take before waiting at instant `now`: see `deadline_action`.
    pub fn next_action(&self, now: u64) -> (r: KeepAliveAction)
        ensures
            r == deadline_action(*self, now),
    {
        if now >= self.deadline {
            KeepAliveAction::Fail(LeaseError::DeadlineExceeded)
        } else {
            KeepAliveAction::Wait(self.ttl / 2)
        }
    }

    /// Takes in an event seen at instant `now` and says what to do next: see
    /// `keep_alive_step`.
    pub fn on_event(&mut self, event: KeepAliveEvent, now: u64) -> (r: KeepAliveAction)
        ensures
            (*final(self), r) == keep_alive_step(*old(self), event, now),
    {
        match event {
            KeepAliveEvent::Response(t) => {
                if t == 0 {
                    KeepAliveAction::Fail(LeaseError::Expired)
                } else {
                    match create_deadline(now, t) {
                        Ok(deadline) => {
                            self.ttl = t;
                            self.deadline = deadline;
                            self.next_action(now)
                        },
                        Err(e) => KeepAliveAction::Fail(e),
                    }
                }
            },
            KeepAliveEvent::StreamClosed => KeepAliveAction::Fail(LeaseError::StreamClosed),
            KeepAliveEvent::StreamFailed => KeepAliveAction::Fail(LeaseError::StreamFailed),
            KeepAliveEvent::Cancelled => KeepAliveAction::Revoke,
            KeepAliveEvent::Tick => KeepAliveAction::SendHeartbeat,
            KeepAliveEvent::HeartbeatSent => self.next_action(now),
            KeepAliveEvent::HeartbeatFailed => {
                self.ttl = 0;
                self.next_action(now)
            },
        }
    }
}

/// The driver's state and actions after a run of events, each with the
/// instant it was seen, taken in order.
pub open spec fn keep_alive_run(s: KeepAlive, events: Seq<(KeepAliveEvent, u64)>) -> (KeepAlive, Seq<KeepAliveAction>)
    decreases events.len(),
{
    if events.len() == 0 {
        (s, Seq::empty())
    } else {
        let (before, actions) = keep_alive_run(s, events.drop_last());
        let (after, action) = keep_alive_step(before, events.last().0, events.last().1);
        (after, actions.push(action))
    }
}

/// Whether an event leaves the server's silence unbroken: the heartbeat
/// timer, and sending a heartbeat, successfully or not.
pub open spec fn is_silent(e: KeepAliveEvent) -> bool {
    e == KeepAliveEvent::Tick || e == KeepAliveEvent::HeartbeatSent || e
        == KeepAliveEvent::HeartbeatFailed
}

/// A response with a positive TTL `t` at instant `now` (where the deadline
/// fits) leaves the driver waiting, with its deadline `t` seconds away and its
/// next heartbeat due after `t / 2` seconds, strictly before that deadline: a
/// server that answers each heartbeat keeps the lease for ever.
pub proof fn lemma_healthy_response_keeps_lease(s: KeepAlive, t: u64, now: u64)
    requires
        t > 0,
        deadline_after(now, t) <= u64::MAX,
    ensures
        ({
            let (next, action) = keep_alive_step(s, KeepAliveEvent::Response(t), now);
            &&& next.ttl == t
            &&& next.deadline == deadline_after(now, t)
            &&& action == KeepAliveAction::Wait(t / 2)
            &&& now + (t / 2) * MILLIS_PER_SEC < next.deadline
        }),
{
    assert((t / 2) * 1000 < t * 1000) by (nonlinear_arith)
        requires
            t > 0,
    ;
}

/// While the server is silent (only timer ticks and heartbeat sends, failed
/// or not), the deadline stays where the last response put it; the driver
/// never gives up before it, and gives up with `DeadlineExceeded` at the
/// first check made at or after it.
pub proof fn lemma_silence_until_deadline(s: KeepAlive, events: Seq<(KeepAliveEvent, u64)>)
    requires
        forall|i: int| 0 <= i < events.len() ==> is_silent(#[trigger] events[i].0),
    ensures
        ({
            let (last, actions) = keep_alive_run(s, events);
            &&& last.deadline == s.deadline
            &&& last.lease_id == s.lease_id
            &&& actions.len() == events.len()
            &&& forall|i: int|
                0 <= i < events.len() && events[i].1 < s.deadline ==> !(#[trigger] actions[i] is Fail)
            &&& forall|i: int|
                0 <= i < events.len() && events[i].1 >= s.deadline && events[i].0
                    != KeepAliveEvent::Tick ==> #[trigger] actions[i] == KeepAliveAction::Fail(
                    LeaseError::DeadlineExceeded,
                )
        }),
    decreases events.len(),
{
    if events.len() > 0 {
        let rest = events.drop_last();
        assert forall|i: int| 0 <= i < rest.len() implies is_silent(#[trigger] rest[i].0) by {
            assert(rest[i] == events[i]);
        }
        lemma_silence_until_deadline(s, rest);
        let (before, actions) = keep_alive_run(s, rest);
        let (_, all) = keep_alive_run(s, events);
        assert forall|i: int| 0 <= i < rest.len() implies all[i] == actions[i] && events[i] == rest[i] by {}
    }
}

/// Whether an event at instant `now` is one a healthy server allows: no
/// closed or failed stream, and every response grants time that the clock
/// can hold.
pub open spec fn is_healthy(e: KeepAliveEvent, now: u64) -> bool {
    match e {
        KeepAliveEvent::Response(t) => t > 0 && deadline_after(now, t) <= u64::MAX,
        KeepAliveEvent::StreamClosed => false,
        KeepAliveEvent::StreamFailed => false,
        _ => true,
    }
}

/// Against a healthy server whose every event comes before the deadline in
/// force at the time, the driver never fails: the lease stays valid for as
/// long as the run goes on.
pub proof fn lemma_healthy_run_never_fails(s: KeepAlive, events: Seq<(KeepAliveEvent, u64)>)
    requires
        forall|i: int|
            0 <= i < events.len() ==> is_healthy(#[trigger] events[i].0, events[i].1)
                && events[i].1 < keep_alive_run(s, events.subrange(0, i)).0.deadline,
    ensures
        keep_alive_run(s, events).1.len() == events.len(),
        forall|i: int| 0 <= i < events.len() ==> !(#[trigger] keep_alive_run(s, events).1[i] is Fail),
    decreases events.len(),
{
    if events.len() > 0 {
        let n = events.len() - 1;
        let rest = events.drop_last();
        assert forall|i: int| 0 <= i < rest.len() implies is_healthy(#[trigger] rest[i].0, rest[i].1)
            && rest[i].1 < keep_alive_run(s, rest.subrange(0, i)).0.deadline by {
            assert(rest[i] == events[i]);
            assert(rest.subrange(0, i) == events.subrange(0, i));
        }
        lemma_healthy_run_never_fails(s, rest);
        assert(events.subrange(0, n) == rest);
        let (before, actions) = keep_alive_run(s, rest);
        let (_, all) = keep_alive_run(s, events);
        assert forall|i: int| 0 <= i < rest.len() implies all[i] == actions[i] by {}
        let (e, now) = events[n];
        assert(is_healthy(e, now) && now < before.deadline);
        if let KeepAliveEvent::Response(t) = e {
            assert(t * MILLIS_PER_SEC > 0) by (nonlinear_arith)
                requires
                    t > 0,
                    MILLIS_PER_SEC == 1000,
            ;
        }
    }
}

/// Cancellation always wins: whatever the state, a driver that sees its token
/// fire revokes the lease and stops, and its state is left as it was.
pub proof fn lemma_cancel_revokes(s: KeepAlive, now: u64)
    ensures
        keep_alive_step(s, KeepAliveEvent::Cancelled, now) == (s, KeepAliveAction::Revoke),
{
}

/// The unsigned form of a lease id as the server writes it (a signed 64-bit
/// integer): the same bits, so a positive id keeps its value.
pub open spec fn lease_id_spec(raw: i64) -> u64 {
    if raw >= 0 {
        raw as u64
    } else {
        (raw + 0x1_0000_0000_0000_0000) as u64
    }
}

/// Reads a lease id sent by the server.
pub fn lease_id_from_server(raw: i64) -> (r: u64)
    ensures
        r == lease_id_spec(raw),
{
    if raw >= 0 {
        raw as u64
    } else {
        (raw as i128 + 0x1_0000_0000_0000_0000i128) as u64
    }
}

/// Writes a lease id the way the server reads it: the inverse of `lease_id_from_server`.
pub fn lease_id_to_server(id: u64) -> (r: i64)
    ensures
        lease_id_spec(r) == id,
        id <= i64::MAX ==> r == id,
{
    if id <= i64::MAX as u64 {
        id as i64
    } else {
        (id as i128 - 0x1_0000_0000_0000_0000i128) as i64
    }
}

/// A TTL sent by the server, in seconds; a negative one counts as expired (zero).
pub fn ttl_from_server(raw: i64) -> (r: u64)
    ensures
        raw > 0 ==> r == raw,
        raw <= 0 ==> r == 0,
{
    if raw > 0 {
        raw as u64
    } else {
        0
    }
}

/// What the supervisor does once the server granted a lease.
#[derive(Debug, Clone, Copy, PartialEq, Eq, Structural)]
pub enum GrantPlan {
    /// The caller's token fired meanwhile: revoke this lease at once.
    Revoke(u64),
    /// Keep the lease alive: start a driver for it with this state.
    Keep(KeepAlive),
}

/// Decides what to do with a lease that the server granted (`raw_id`,
/// `raw_ttl`, as it sent them) at instant `now`, given whether the caller's
/// token has fired since: revoke it when it has, else start a driver on the
/// granted TTL (which may be less than the one asked for).
pub fn plan_after_grant(raw_id: i64, raw_ttl: i64, parent_cancelled: bool, now: u64) -> (r: Result<
    GrantPlan,
    LeaseError,
>)
    ensures
        parent_cancelled ==> r == Ok::<GrantPlan, LeaseError>(
            GrantPlan::Revoke(lease_id_spec(raw_id)),
        ),
        !parent_cancelled ==> ({
            let ttl: u64 = if raw_ttl > 0 {
                raw_ttl as u64
            } else {
                0
            };
            &&& deadline_after(now, ttl) <= u64::MAX ==> r == Ok::<GrantPlan, LeaseError>(
                GrantPlan::Keep(
                    KeepAlive {
                        lease_id: lease_id_spec(raw_id),
                        ttl,
                        deadline: deadline_after(now, ttl) as u64,
                    },
                ),
            )
            &&& deadline_after(now, ttl) > u64::MAX ==> r == Err::<GrantPlan, LeaseError>(
                LeaseError::DeadlineOverflow,
            )
        }),
{
    let id = lease_id_from_server(raw_id);
    if parent_cancelled {
        return Ok(GrantPlan::Revoke(id));
    }
    let ttl = ttl_from_server(raw_ttl);
    match KeepAlive::start(id, ttl, now) {
        Ok(driver) => Ok(GrantPlan::Keep(driver)),
        Err(e) => Err(e),
    }
}

/// How often, and after what pause, the supervisor restarts a driver that
/// failed for a reason that may pass (the heartbeat stream broke).
#[derive(Debug, Clone, Copy, PartialEq, Eq, Structural)]
pub struct RestartPolicy {
    pub max_restarts: u32,
    pub delay_secs: u64,
}

/// What the supervisor does when a driver has stopped.
#[derive(Debug, Clone, Copy, PartialEq, Eq, Structural)]
pub enum SupervisorAction {
    /// The driver stopped because it was cancelled: nothing more to do.
    Finish,
    /// Reopen the heartbeat stream after this many seconds and resume the
    /// driver with the state it stopped in, deadline included.
    Restart(u64),
    /// The lease is lost: cancel the parent token.
    CancelParent,
}

/// Whether a driver error may pass on a fresh heartbeat stream. A passed
/// deadline, an expired lease or an unrepresentable deadline never do.
pub open spec fn is_transient(e: LeaseError) -> bool {
    e == LeaseError::StreamClosed || e == LeaseError::StreamFailed
}

/// The supervisor's decision after a driver stopped with `exit`, having been
/// restarted `restarts` times already.
pub open spec fn supervise_spec(policy: RestartPolicy, restarts: u32, exit: Result<(), LeaseError>) -> SupervisorAction {
    match exit {
        Ok(()) => SupervisorAction::Finish,
        Err(e) => {
            if is_transient(e) && restarts < policy.max_restarts {
                SupervisorAction::Restart(policy.delay_secs)
            } else {
                SupervisorAction::CancelParent
            }
        },
    }
}

impl RestartPolicy {
    /// The policy that never restarts: any driver error cancels the parent token.
    pub fn never() -> (r: RestartPolicy)
        ensures
            r.max_restarts == 0,
            r.delay_secs == 0,
    {
        RestartPolicy { max_restarts: 0, delay_secs: 0 }
    }

    /// How many restarts in a row precede the next decision, given the count
    /// so far and whether the server answered during the run that just
    /// stopped: an answered run starts the count afresh, so the limit bounds
    /// failures in a row rather than over the lease's whole life.
    pub fn restarts_in_a_row(restarts: u32, answered: bool) -> (r: u32)
        ensures
            r == if answered {
                0
            } else {
                restarts
            },
    {
        if answered {
            0
        } else {
            restarts
        }
    }

    /// Decides what follows a driver's stop: see `supervise_spec`.
    pub fn after_exit(&self, restarts: u32, exit: Result<(), LeaseError>) -> (r: SupervisorAction)
        ensures
            r == supervise_spec(*self, restarts, exit),
    {
        match exit {
            Ok(()) => SupervisorAction::Finish,
            Err(e) => {
                let transient = match e {
                    LeaseError::StreamClosed | LeaseError::StreamFailed => true,
                    _ => false,
                };
                if transient && restarts < self.max_restarts {
                    SupervisorAction::Restart(self.delay_secs)
                } else {
                    SupervisorAction::CancelParent
                }
            },
        }
    }
}

/// A driver error is never swallowed: under any policy, an error either
/// restarts the driver, at most `max_restarts` times in a row, or cancels the
/// parent token; only a cancelled driver finishes quietly.
pub proof fn lemma_errors_reach_parent(policy: RestartPolicy, restarts: u32, e: LeaseError)
    ensures
        supervise_spec(policy, restarts, Ok(())) == SupervisorAction::Finish,
        supervise_spec(policy, restarts, Err(e)) != SupervisorAction::Finish,
        restarts >= policy.max_restarts ==> supervise_spec(policy, restarts, Err(e))
            == SupervisorAction::CancelParent,
        !is_transient(e) ==> supervise_spec(policy, restarts, Err(e))
            == SupervisorAction::CancelParent,
{
}

/// The handle of a lease that a driver keeps alive. Its cancellation token
/// lives beside it, with the task that runs the driver.
#[derive(Debug, Clone, Copy, PartialEq, Eq, Structural)]
pub struct Lease {
    pub id: u64,
}

impl Lease {
    pub fn new(id: u64) -> (r: Lease)
        ensures
            r.id == id,
    {
        Lease { id }
    }

    /// The lease id.
    pub fn id(&self) -> (r: u64)
        ensures
            r == self.id,
    {
        self.id
    }

    /// Whether the server must be asked about the lease: not once its token
    /// has fired, for then the lease is invalid whatever the server says.
    pub fn must_query_server(cancelled: bool) -> (r: bool)
        ensures
            r == !cancelled,
    {
        !cancelled
    }

    /// Whether the lease is valid: its token has not fired and the server
    /// reports time left on it.
    pub fn is_valid_given(cancelled: bool, remaining_ttl: i64) -> (r: bool)
        ensures
            r == (!cancelled && remaining_ttl > 0),
    {
        !cancelled && remaining_ttl > 0
    }
}

} // verus!
