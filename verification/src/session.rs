//! The capture backend's decisions between PipeWire events: what the
//! commands from the interface settle, how long a lost session waits
//! before the next attempt, and when the capture is planned again.
use crate::capture::CaptureView;
use crate::links::{OwnedLinks, RESOURCE_RETRY_MIN_NS};
use crate::routing::{config_text, CaptureConfig};
use crate::text::opt_view;
use crate::transport::{next_retry_delay, take_retry_delay, RESOURCE_RETRY_MAX_NS};
use vstd::arithmetic::power2::pow2;
use vstd::prelude::*;

verus! {

/// The first wait before a lost session is tried again, in nanoseconds.
pub const SESSION_RETRY_MIN_NS: u64 = 250_000_000;

/// The longest wait between session attempts, in nanoseconds.
pub const SESSION_RETRY_MAX_NS: u64 = 8_000_000_000;

/// A request to the backend thread.
pub enum Command {
    Configure(CaptureConfig),
    Shutdown,
}

/// What ends the wait before the next session attempt.
#[derive(Debug, Clone, Copy, PartialEq, Eq, Structural)]
pub enum Retry {
    /// The wait ran out.
    Timeout,
    /// A new configuration arrived and was taken.
    Configured,
    /// The backend is to stop.
    Stop,
}

/// What one look at the command channel found.
pub enum CommandPoll {
    Received(Command),
    /// Nothing is waiting (or, for a timed wait, nothing came in time).
    Empty,
    /// Every sender is gone.
    Disconnected,
}

/// How the first look at the commands opens a wait: a configuration to
/// settle, or the end of the wait.  A shutdown or a lost channel stops the
/// backend; nothing in time ends the wait by timeout.
pub fn open_wait(polled: CommandPoll) -> (r: Result<CaptureConfig, Retry>)
    ensures
        match polled {
            CommandPoll::Received(Command::Configure(c)) => r == Ok::<CaptureConfig, Retry>(c),
            CommandPoll::Received(Command::Shutdown) => r == Err::<CaptureConfig, Retry>(Retry::Stop),
            CommandPoll::Disconnected => r == Err::<CaptureConfig, Retry>(Retry::Stop),
            CommandPoll::Empty => r == Err::<CaptureConfig, Retry>(Retry::Timeout),
        },
{
    match polled {
        CommandPoll::Received(Command::Configure(c)) => Ok(c),
        CommandPoll::Received(Command::Shutdown) => Err(Retry::Stop),
        CommandPoll::Disconnected => Err(Retry::Stop),
        CommandPoll::Empty => Err(Retry::Timeout),
    }
}

/// Takes one more queued command into the configuration `next` that the
/// wait settles on: a newer configuration replaces it and the wait goes
/// on; a shutdown or a lost channel stops; once the queue is empty the
/// wait ends with `next` configured.
pub fn absorb_command(next: &mut CaptureConfig, polled: CommandPoll) -> (r: Option<Retry>)
    ensures
        match polled {
            CommandPoll::Received(Command::Configure(c)) => r is None && *final(next) == c,
            CommandPoll::Received(Command::Shutdown) => r == Some(Retry::Stop) && *final(next)
                == *old(next),
            CommandPoll::Disconnected => r == Some(Retry::Stop) && *final(next) == *old(next),
            CommandPoll::Empty => r == Some(Retry::Configured) && *final(next) == *old(next),
        },
{
    match polled {
        CommandPoll::Received(Command::Configure(c)) => {
            *next = c;
            None
        },
        CommandPoll::Received(Command::Shutdown) => Some(Retry::Stop),
        CommandPoll::Disconnected => Some(Retry::Stop),
        CommandPoll::Empty => Some(Retry::Configured),
    }
}

/// What one look at the commands means to a running session.
#[derive(Debug, Clone, Copy, PartialEq, Eq, Structural)]
pub enum SessionStep {
    /// Nothing waits: the session goes on.
    Idle,
    /// A configuration was taken; `true` when it says something other than
    /// the one before, so that the capture is planned anew.
    Configured(bool),
    /// The session is to end.
    Stop,
}

/// Takes one command during a session.  A configuration replaces `config`
/// only where it says something else; a shutdown or a lost channel ends the
/// session; an empty queue lets it go on.
pub fn session_command(config: &mut CaptureConfig, polled: CommandPoll) -> (r: SessionStep)
    ensures
        match polled {
            CommandPoll::Received(Command::Configure(c)) => if config_text(c) == config_text(
                *old(config),
            ) {
                r == SessionStep::Configured(false) && *final(config) == *old(config)
            } else {
                r == SessionStep::Configured(true) && *final(config) == c
            },
            CommandPoll::Received(Command::Shutdown) => r == SessionStep::Stop && *final(config)
                == *old(config),
            CommandPoll::Disconnected => r == SessionStep::Stop && *final(config) == *old(config),
            CommandPoll::Empty => r == SessionStep::Idle && *final(config) == *old(config),
        },
{
    match polled {
        CommandPoll::Received(Command::Configure(c)) => {
            if config.same_as(&c) {
                SessionStep::Configured(false)
            } else {
                *config = c;
                SessionStep::Configured(true)
            }
        },
        CommandPoll::Received(Command::Shutdown) => SessionStep::Stop,
        CommandPoll::Disconnected => SessionStep::Stop,
        CommandPoll::Empty => SessionStep::Idle,
    }
}

/// The back-off between attempts to run a PipeWire session.
#[derive(Debug, Clone, Copy, PartialEq, Eq)]
pub struct SessionBackoff {
    /// The wait before the next attempt, in nanoseconds.
    pub retry_delay: u64,
    /// Whether the backend is known to be disconnected.
    pub outage: bool,
}

impl SessionBackoff {
    /// No outage, and the shortest wait.
    pub fn new() -> (r: SessionBackoff)
        ensures
            r.retry_delay == SESSION_RETRY_MIN_NS,
            !r.outage,
    {
        SessionBackoff { retry_delay: SESSION_RETRY_MIN_NS, outage: false }
    }

    /// A session ended in an error; `alive` says whether it had come up.
    /// A session that came up starts the back-off over.  Returns how long
    /// to wait, and whether the outage is new (the backend then publishes
    /// an empty view); the next wait doubles, up to its maximum.
    pub fn session_failed(&mut self, alive: bool) -> (r: (u64, bool))
        ensures
            ({
                let delay = if alive {
                    SESSION_RETRY_MIN_NS
                } else {
                    old(self).retry_delay
                };
                &&& r.0 == delay
                &&& r.1 == (alive || !old(self).outage)
                &&& final(self).retry_delay == next_retry_delay(delay, SESSION_RETRY_MAX_NS)
                &&& final(self).outage
            }),
    {
        if alive {
            self.retry_delay = SESSION_RETRY_MIN_NS;
            self.outage = false;
        }
        let announce = !self.outage;
        self.outage = true;
        let wait = take_retry_delay(&mut self.retry_delay, SESSION_RETRY_MAX_NS);
        (wait, announce)
    }

    /// The wait ended with `outcome`: a new configuration starts the
    /// back-off over.
    pub fn wait_ended(&mut self, outcome: Retry)
        ensures
            final(self).outage == old(self).outage,
            final(self).retry_delay == if outcome == Retry::Configured {
                SESSION_RETRY_MIN_NS
            } else {
                old(self).retry_delay
            },
    {
        if outcome == Retry::Configured {
            self.retry_delay = SESSION_RETRY_MIN_NS;
        }
    }
}

/// The state of the capture stream as its listener last reported it.
#[derive(Debug, Clone, Copy, PartialEq, Eq, Structural)]
pub enum StreamStatus {
    Starting,
    Paused,
    Streaming,
    Failed,
    Stopped,
}

/// When the capture is planned again: after any change, when a link retry
/// is due, and not before a scheduled stream retry.
#[derive(Debug, Clone, Copy, PartialEq, Eq)]
pub struct CaptureSchedule {
    /// Something changed since the last pass.
    pub dirty: bool,
    /// When the capture stream may be set up again after a failure.
    pub stream_retry_at: Option<u64>,
    /// The wait before the next stream retry, in nanoseconds.
    pub stream_retry_delay: u64,
}

impl CaptureSchedule {
    /// A schedule that plans at once.
    pub fn new() -> (r: CaptureSchedule)
        ensures
            r.dirty,
            r.stream_retry_at is None,
            r.stream_retry_delay == RESOURCE_RETRY_MIN_NS,
    {
        CaptureSchedule { dirty: true, stream_retry_at: None, stream_retry_delay: RESOURCE_RETRY_MIN_NS }
    }

    /// The configuration changed: plan at once, without waiting for a
    /// stream retry.
    pub fn configuration_changed(&mut self)
        ensures
            final(self).dirty,
            final(self).stream_retry_at is None,
            final(self).stream_retry_delay == RESOURCE_RETRY_MIN_NS,
    {
        self.dirty = true;
        self.stream_retry_at = None;
        self.stream_retry_delay = RESOURCE_RETRY_MIN_NS;
    }

    /// The stream failed at `now`: try again after the current delay,
    /// which doubles for next time.
    pub fn defer_stream_retry(&mut self, now: u64)
        requires
            now + old(self).stream_retry_delay <= u64::MAX,
        ensures
            final(self).dirty,
            final(self).stream_retry_at == Some((now + old(self).stream_retry_delay) as u64),
            final(self).stream_retry_delay == next_retry_delay(
                old(self).stream_retry_delay,
                RESOURCE_RETRY_MAX_NS,
            ),
    {
        self.dirty = true;
        let delay = take_retry_delay(&mut self.stream_retry_delay, RESOURCE_RETRY_MAX_NS);
        self.stream_retry_at = Some(now + delay);
    }

    /// Takes the stream's status at `now` into account.  A running stream
    /// resets the stream back-off; a failed or stopped one drops the owned
    /// links and defers a stream retry.  Returns whether the stream's
    /// failure is to be cleared.
    pub fn observe_status(&mut self, status: Option<StreamStatus>, links: &mut OwnedLinks, now: u64) -> (r: bool)
        requires
            now + old(self).stream_retry_delay <= u64::MAX,
        ensures
            r == (status == Some(StreamStatus::Failed) || status == Some(StreamStatus::Stopped)),
            status == Some(StreamStatus::Paused) || status == Some(StreamStatus::Streaming) ==> {
                &&& final(self).dirty == old(self).dirty
                &&& final(self).stream_retry_at == old(self).stream_retry_at
                &&& final(self).stream_retry_delay == RESOURCE_RETRY_MIN_NS
                &&& *final(links) == *old(links)
            },
            r ==> {
                &&& final(self).dirty
                &&& final(self).stream_retry_at == Some((now + old(self).stream_retry_delay) as u64)
                &&& final(self).stream_retry_delay == next_retry_delay(
                    old(self).stream_retry_delay,
                    RESOURCE_RETRY_MAX_NS,
                )
                &&& final(links).desired@.len() == 0
                &&& final(links).retry_at is None
                &&& final(links).retry_delay == RESOURCE_RETRY_MIN_NS
            },
            status is None || status == Some(StreamStatus::Starting) ==> *final(self) == *old(self)
                && *final(links) == *old(links),
    {
        match status {
            Some(StreamStatus::Paused) | Some(StreamStatus::Streaming) => {
                self.stream_retry_delay = RESOURCE_RETRY_MIN_NS;
                false
            },
            Some(StreamStatus::Failed) | Some(StreamStatus::Stopped) => {
                links.clear();
                self.defer_stream_retry(now);
                true
            },
            _ => false,
        }
    }

    /// Whether to plan the capture at `now`: only after a change or when a
    /// link retry is due, and not while a stream retry is scheduled for
    /// later.  A pass that goes ahead takes the change.
    pub fn begin_pass(&mut self, links: &OwnedLinks, now: u64) -> (r: bool)
        ensures
            r == ((old(self).dirty || (links.retry_at matches Some(d) && now >= d)) && !(old(
                self,
            ).stream_retry_at matches Some(deadline) && now < deadline)),
            final(self).dirty == (old(self).dirty && !r),
            final(self).stream_retry_at == old(self).stream_retry_at,
            final(self).stream_retry_delay == old(self).stream_retry_delay,
    {
        if !self.dirty && !links.retry_due(now) {
            return false;
        }
        match self.stream_retry_at {
            Some(deadline) => if now < deadline {
                return false;
            },
            None => {},
        }
        self.dirty = false;
        true
    }

    /// The stream was set up as planned: no stream retry is pending.
    pub fn stream_configured(&mut self)
        ensures
            final(self).dirty == old(self).dirty,
            final(self).stream_retry_at is None,
            final(self).stream_retry_delay == old(self).stream_retry_delay,
    {
        self.stream_retry_at = None;
    }

    /// One step of a reconcile pass at `now`: the event that the backend
    /// reports, and what it does next.  A pass begins by taking in the
    /// stream's status and goes on only when it is due; a stream that does
    /// not follow the plan is set up anew with its owned links dropped; a
    /// failed set-up defers a stream retry and ends the pass; otherwise the
    /// links are planned.
    pub fn pass_step(&mut self, links: &mut OwnedLinks, event: PassEvent, now: u64) -> (r: PassAction)
        requires
            now + old(self).stream_retry_delay <= u64::MAX,
        ensures
            match event {
                PassEvent::Begin(status) => {
                    let mid = schedule_after_status(*old(self), status, now);
                    let due = pass_due(mid, *final(links), now);
                    &&& stream_lost(status) ==> links_cleared(*final(links))
                    &&& !stream_lost(status) ==> *final(links) == *old(links)
                    &&& r == (if due {
                        PassAction::CheckPlan { reset_stream: stream_lost(status) }
                    } else {
                        PassAction::Stop { reset_stream: stream_lost(status) }
                    })
                    &&& *final(self) == (CaptureSchedule {
                        dirty: mid.dirty && !due,
                        stream_retry_at: mid.stream_retry_at,
                        stream_retry_delay: mid.stream_retry_delay,
                    })
                },
                PassEvent::PlanChecked(true) => r == PassAction::Link && *final(self) == *old(self)
                    && *final(links) == *old(links),
                PassEvent::PlanChecked(false) => r == PassAction::Reconfigure && *final(self)
                    == *old(self) && links_cleared(*final(links)),
                PassEvent::Configured(true) => r == PassAction::Link && *final(self) == (CaptureSchedule {
                    dirty: old(self).dirty,
                    stream_retry_at: None,
                    stream_retry_delay: old(self).stream_retry_delay,
                }) && *final(links) == *old(links),
                PassEvent::Configured(false) => r == PassAction::GiveUp && *final(self) == (
                CaptureSchedule {
                    dirty: true,
                    stream_retry_at: Some((now + old(self).stream_retry_delay) as u64),
                    stream_retry_delay: next_retry_delay(
                        old(self).stream_retry_delay,
                        RESOURCE_RETRY_MAX_NS,
                    ),
                }) && *final(links) == *old(links),
            },
    {
        match event {
            PassEvent::Begin(status) => {
                let reset_stream = self.observe_status(status, links, now);
                let ghost mid = *self;
                proof {
                    if status == Some(StreamStatus::Paused) || status == Some(StreamStatus::Streaming) {
                        assert(mid == schedule_after_status(*old(self), status, now));
                    } else if stream_lost(status) {
                        assert(mid.dirty);
                        assert(mid.stream_retry_at == Some((now + old(self).stream_retry_delay) as u64));
                        assert(mid == schedule_after_status(*old(self), status, now));
                    } else {
                        assert(status is None || status == Some(StreamStatus::Starting)) by {
                            match status {
                                Some(StreamStatus::Starting) => {},
                                Some(_) => {},
                                None => {},
                            }
                        }
                        assert(mid == *old(self));
                    }
                }
                if self.begin_pass(links, now) {
                    PassAction::CheckPlan { reset_stream }
                } else {
                    PassAction::Stop { reset_stream }
                }
            },
            PassEvent::PlanChecked(true) => PassAction::Link,
            PassEvent::PlanChecked(false) => {
                links.clear();
                PassAction::Reconfigure
            },
            PassEvent::Configured(true) => {
                self.stream_configured();
                PassAction::Link
            },
            PassEvent::Configured(false) => {
                self.defer_stream_retry(now);
                PassAction::GiveUp
            },
        }
    }
}

/// The stream failed or stopped.
pub open spec fn stream_lost(status: Option<StreamStatus>) -> bool {
    status == Some(StreamStatus::Failed) || status == Some(StreamStatus::Stopped)
}

/// The schedule once the stream's status at `now` is taken in: a running
/// stream resets the stream back-off; a lost one defers a stream retry.
pub open spec fn schedule_after_status(
    s: CaptureSchedule,
    status: Option<StreamStatus>,
    now: u64,
) -> CaptureSchedule {
    if status == Some(StreamStatus::Paused) || status == Some(StreamStatus::Streaming) {
        CaptureSchedule {
            dirty: s.dirty,
            stream_retry_at: s.stream_retry_at,
            stream_retry_delay: RESOURCE_RETRY_MIN_NS,
        }
    } else if stream_lost(status) {
        CaptureSchedule {
            dirty: true,
            stream_retry_at: Some((now + s.stream_retry_delay) as u64),
            stream_retry_delay: next_retry_delay(s.stream_retry_delay, RESOURCE_RETRY_MAX_NS),
        }
    } else {
        s
    }
}

/// The owned links are emptied, with the link back-off reset.
pub open spec fn links_cleared(l: OwnedLinks) -> bool {
    &&& l.desired@.len() == 0
    &&& l.retry_at is None
    &&& l.retry_delay == RESOURCE_RETRY_MIN_NS
}

/// A pass is due at `now`: after a change or when a link retry is due, and
/// not while a stream retry is scheduled for later.
pub open spec fn pass_due(s: CaptureSchedule, links: OwnedLinks, now: u64) -> bool {
    &&& (s.dirty || (links.retry_at matches Some(d) && now >= d))
    &&& !(s.stream_retry_at matches Some(deadline) && now < deadline)
}

/// What happens next in a reconcile pass, as the library tells the
/// backend.
#[derive(Debug, Clone, Copy, PartialEq, Eq, Structural)]
pub enum PassAction {
    /// The pass ends; with `reset_stream`, the stream's links are dropped and
    /// its failure cleared first.
    Stop { reset_stream: bool },
    /// Compare the stream with the plan; with `reset_stream`, drop the
    /// stream's links and clear its failure first.
    CheckPlan { reset_stream: bool },
    /// Drop the stream's links and set the stream up as planned.
    Reconfigure,
    /// The stream could not be set up: clear its failure and end the pass.
    GiveUp,
    /// Plan the links and apply them.
    Link,
}

/// What the backend reports back during a reconcile pass.
#[derive(Debug, Clone, Copy, PartialEq, Eq, Structural)]
pub enum PassEvent {
    /// A pass begins, with the stream's status.
    Begin(Option<StreamStatus>),
    /// The stream was compared with the plan: whether it already follows it.
    PlanChecked(bool),
    /// The stream was set up anew: whether that worked.
    Configured(bool),
}

/// Failed main-loop iterations in a row after which a loop gives up.
pub const MAX_LOOP_ERRORS: u32 = 10;

/// What a PipeWire main loop does after an iteration.
#[derive(Debug, Clone, Copy, PartialEq, Eq, Structural)]
pub enum IterationVerdict {
    /// Go on at once.
    Continue,
    /// Pause this many milliseconds, then go on.
    Pause(u64),
    /// Too many failures in a row: give up.
    GiveUp,
}

/// `base` milliseconds doubled once per failure, at most `cap` times.
pub open spec fn loop_backoff_ms(base: u64, errors: u32, cap: u32) -> int {
    base * pow2((if errors < cap {
        errors
    } else {
        cap
    }) as nat)
}

/// The verdict after an iteration, given the failures in a row before it.
pub open spec fn iteration_spec(errors: u32, failed: bool, base: u64, cap: u32) -> (u32, IterationVerdict) {
    if !failed {
        (0, IterationVerdict::Continue)
    } else if errors + 1 >= MAX_LOOP_ERRORS {
        ((errors + 1) as u32, IterationVerdict::GiveUp)
    } else {
        ((errors + 1) as u32, IterationVerdict::Pause(loop_backoff_ms(base, (errors + 1) as u32, cap) as u64))
    }
}

fn record_iteration(errors: &mut u32, failed: bool, base: u64, cap: u32) -> (r: IterationVerdict)
    requires
        *old(errors) < MAX_LOOP_ERRORS,
        base <= 100,
        cap <= 5,
    ensures
        (*final(errors), r) == iteration_spec(*old(errors), failed, base, cap),
{
    if !failed {
        *errors = 0;
        return IterationVerdict::Continue;
    }
    *errors = *errors + 1;
    if *errors >= MAX_LOOP_ERRORS {
        return IterationVerdict::GiveUp;
    }
    let shift: u32 = if *errors < cap {
        *errors
    } else {
        cap
    };
    proof {
        assert(pow2(shift as nat) <= 32) by {
            vstd::arithmetic::power2::lemma2_to64();
        }
        assert(base * pow2(shift as nat) <= 100 * 32) by (nonlinear_arith)
            requires
                base <= 100,
                pow2(shift as nat) <= 32,
        ;
        vstd::bits::lemma_u64_shl_is_mul(base, shift as u64);
    }
    IterationVerdict::Pause(base << (shift as u64))
}

/// The capture session's loop after an iteration: a success clears the
/// failures; a failure pauses 25 ms doubled per failure in a row, at most
/// five times, and the tenth in a row gives the session up.
pub fn session_iteration(errors: &mut u32, failed: bool) -> (r: IterationVerdict)
    requires
        *old(errors) < MAX_LOOP_ERRORS,
    ensures
        (*final(errors), r) == iteration_spec(*old(errors), failed, 25, 5),
{
    record_iteration(errors, failed, 25, 5)
}

/// The registry thread's loop after an iteration: a success clears the
/// failures; a failure pauses 50 ms doubled per failure in a row, at most
/// four times, and the tenth in a row stops the thread.
pub fn registry_iteration(errors: &mut u32, failed: bool) -> (r: IterationVerdict)
    requires
        *old(errors) < MAX_LOOP_ERRORS,
    ensures
        (*final(errors), r) == iteration_spec(*old(errors), failed, 50, 4),
{
    record_iteration(errors, failed, 50, 4)
}

/// Makes the configuration follow the device that the published view
/// shows as selected; the rest of it stays.
pub fn follow_selected_device(config: &mut CaptureConfig, view: &CaptureView)
    ensures
        final(config).mode == old(config).mode,
        final(config).disabled_streams == old(config).disabled_streams,
        opt_view(final(config).device) == match view.selected_device {
            Some(s) => Some(s@),
            None => opt_view(old(config).device),
        },
{
    match &view.selected_device {
        Some(selected) => {
            config.device = Some(selected.clone());
        },
        None => {},
    }
}

} // verus!
