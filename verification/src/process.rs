//! How a child process is launched, waited for and ended.
use crate::clock::{min_int, remaining};
use crate::codec::WireError;
use crate::protocol::ClientEvent;
use crate::signals::{sigkill, sigterm};
use vstd::prelude::*;

verus! {

/// How long a wait pauses between two looks at the child, in nanoseconds.
pub const POLL_INTERVAL: u64 = 10_000_000;

/// The shortest pause between two looks at the child, in nanoseconds.
pub const SHORTEST_PAUSE: u64 = 1_000_000;

/// The time between asking a process group to end and killing it, in
/// nanoseconds.
pub const TERMINATION_GRACE: u64 = 2_000_000_000;

/// What a client has said about its request so far.
#[derive(Clone, Copy, Debug, PartialEq, Eq, Structural)]
pub struct RequestControl {
    pub cancelled: bool,
    pub streams_closed: bool,
    pub signal: i32,
}

impl Default for RequestControl {
    fn default() -> (control: Self)
        ensures
            control == (RequestControl { cancelled: false, streams_closed: false, signal: 0 }),
    {
        RequestControl { cancelled: false, streams_closed: false, signal: 0 }
    }
}

impl RequestControl {
    /// The client's caller ended the request with a signal.
    pub fn cancel(&mut self, signal: i32)
        ensures
            *final(self) == (RequestControl { cancelled: true, signal, ..*old(self) }),
    {
        self.signal = signal;
        self.cancelled = true;
    }

    /// The client is gone.
    pub fn disconnect(&mut self)
        ensures
            *final(self) == (RequestControl {
                cancelled: true,
                streams_closed: true,
                ..*old(self)
            }),
    {
        self.streams_closed = true;
        self.cancelled = true;
    }

    /// The command's output streams were read to their ends.
    pub fn close_streams(&mut self)
        ensures
            *final(self) == (RequestControl { streams_closed: true, ..*old(self) }),
    {
        self.streams_closed = true;
    }

    /// Whether the request is to end.
    pub fn is_cancelled(&self) -> (cancelled: bool)
        ensures
            cancelled == self.cancelled,
    {
        self.cancelled
    }

    /// The signal that the request was ended with, or zero.
    pub fn signal(&self) -> (signal: i32)
        ensures
            signal == self.signal,
    {
        self.signal
    }

    /// Takes in what came from the client, and tells whether more can come.
    pub fn observe(&mut self, event: Result<ClientEvent, WireError>) -> (more: bool)
        ensures
            *final(self) == controlled(
                *old(self),
                match event {
                    Ok(event) => Some(event),
                    Err(_) => None,
                },
            ),
            more == event is Ok,
    {
        match event {
            Ok(ClientEvent::StreamsClosed) => {
                self.close_streams();
                true
            },
            Ok(ClientEvent::Cancel(signal)) => {
                self.cancel(signal);
                true
            },
            Err(_) => {
                self.disconnect();
                false
            },
        }
    }
}

/// A request's control after a report from the client, or after the client
/// was lost.
pub open spec fn controlled(control: RequestControl, event: Option<ClientEvent>) -> RequestControl {
    match event {
        Some(ClientEvent::StreamsClosed) => RequestControl { streams_closed: true, ..control },
        Some(ClientEvent::Cancel(signal)) => RequestControl { cancelled: true, signal, ..control },
        None => RequestControl { cancelled: true, streams_closed: true, ..control },
    }
}

/// How a process ended, or was ended.
#[derive(Clone, Copy, Debug, PartialEq, Eq, Structural)]
pub enum ProcessOutcome {
    Exited(i32),
    Signaled(i32),
    TimedOut,
    Cancelled(i32),
    Shutdown,
}

/// What a look at the child found.
#[derive(Clone, Copy, Debug, PartialEq, Eq, Structural)]
pub enum Waited {
    StillAlive,
    Exited(i32),
    Signaled(i32),
    Other,
}

/// The outcome that a child's own end stands for.
pub open spec fn own_outcome(status: Waited) -> ProcessOutcome {
    match status {
        Waited::Exited(code) => ProcessOutcome::Exited(code),
        Waited::Signaled(signal) => ProcessOutcome::Signaled(signal),
        _ => ProcessOutcome::Signaled(9),
    }
}

/// The outcome that a child's own end stands for.
pub fn map_wait_status(status: Waited) -> (outcome: ProcessOutcome)
    ensures
        outcome == own_outcome(status),
{
    match status {
        Waited::Exited(code) => ProcessOutcome::Exited(code),
        Waited::Signaled(signal) => ProcessOutcome::Signaled(signal),
        _ => ProcessOutcome::Signaled(sigkill()),
    }
}

/// A wait for a child: when its time is up, how it ended, why it is being
/// ended, and when it is to be killed.
#[derive(Clone, Copy, Debug, PartialEq, Eq, Structural)]
pub struct Wait {
    pub deadline: Option<u64>,
    pub status: Option<Waited>,
    pub termination: Option<ProcessOutcome>,
    pub kill_deadline: Option<u64>,
}

/// What a look at a child and at its request sees.
#[derive(Clone, Copy, Debug, PartialEq, Eq, Structural)]
pub struct Look {
    pub waited: Waited,
    pub shutdown: bool,
    pub control: RequestControl,
    pub now: u64,
}

impl Wait {
    /// The reason to end the child that a look gives: the broker stops, the
    /// request was cancelled, or the time is up.
    pub open spec fn reason(self, look: Look) -> Option<ProcessOutcome> {
        if look.shutdown {
            Some(ProcessOutcome::Shutdown)
        } else if look.control.cancelled {
            Some(ProcessOutcome::Cancelled(look.control.signal))
        } else if self.deadline is Some && look.now >= self.deadline->0 {
            Some(ProcessOutcome::TimedOut)
        } else {
            None
        }
    }

    /// The signal to send to the child's group after a look: to end it, once
    /// there is a reason to; to kill it, once the grace period is over.
    pub open spec fn due_signal(self, look: Look) -> Option<i32> {
        if self.termination is None {
            if self.reason(look) is Some {
                Some(15)
            } else {
                None
            }
        } else if self.kill_deadline is Some && look.now >= self.kill_deadline->0 {
            Some(9)
        } else {
            None
        }
    }

    /// The wait after a look. The child's status and the reason to end it,
    /// once known, stay.
    pub open spec fn looked(self, look: Look) -> Wait {
        Wait {
            deadline: self.deadline,
            status: if self.status is None && look.waited != Waited::StillAlive {
                Some(look.waited)
            } else {
                self.status
            },
            termination: if self.termination is None {
                self.reason(look)
            } else {
                self.termination
            },
            kill_deadline: if self.due_signal(look) == Some(9i32) {
                None
            } else {
                self.kill_deadline
            },
        }
    }

    /// The wait after the group was asked to end.
    pub open spec fn grace_begun(self, now: u64) -> Wait {
        Wait {
            kill_deadline: Some(min_int(now + TERMINATION_GRACE, u64::MAX as int) as u64),
            ..self
        }
    }

    /// What the wait ends in. A child that nothing ended gives its own end,
    /// once it was reaped and its output was read to the end. One that was
    /// ended gives the reason, once its whole group is gone; then nobody waits
    /// for its output when the broker stops.
    pub open spec fn conclusion(
        self,
        streams_closed: bool,
        shutdown: bool,
        group_exists: bool,
    ) -> Option<ProcessOutcome> {
        match (self.status, self.termination) {
            (Some(status), None) if streams_closed => Some(own_outcome(status)),
            (Some(_), Some(reason)) if (streams_closed || shutdown) && !group_exists => Some(
                reason,
            ),
            _ => None,
        }
    }

    /// A wait that has seen nothing yet.
    pub fn new(deadline: Option<u64>) -> (wait: Self)
        ensures
            wait == (Wait { deadline, status: None, termination: None, kill_deadline: None }),
    {
        Wait { deadline, status: None, termination: None, kill_deadline: None }
    }

    /// Takes in a look, and tells which signal to send to the child's group.
    pub fn look(&mut self, look: &Look) -> (signal: Option<i32>)
        ensures
            *final(self) == old(self).looked(*look),
            signal == old(self).due_signal(*look),
    {
        if self.status.is_none() && look.waited != Waited::StillAlive {
            self.status = Some(look.waited);
        }
        if self.termination.is_none() {
            let timed_out = match self.deadline {
                Some(deadline) => look.now >= deadline,
                None => false,
            };
            if look.shutdown {
                self.termination = Some(ProcessOutcome::Shutdown);
            } else if look.control.is_cancelled() {
                self.termination = Some(ProcessOutcome::Cancelled(look.control.signal()));
            } else if timed_out {
                self.termination = Some(ProcessOutcome::TimedOut);
            } else {
                return None;
            }
            Some(sigterm())
        } else {
            let grace_over = match self.kill_deadline {
                Some(deadline) => look.now >= deadline,
                None => false,
            };
            if grace_over {
                self.kill_deadline = None;
                Some(sigkill())
            } else {
                None
            }
        }
    }

    /// The child's group was asked to end.
    pub fn begin_grace(&mut self, now: u64)
        ensures
            *final(self) == old(self).grace_begun(now),
    {
        self.kill_deadline = Some(crate::clock::add(now, TERMINATION_GRACE as u128));
    }

    /// Whether the end of the wait hangs on the child's group.
    pub fn awaits_group(&self, streams_closed: bool, shutdown: bool) -> (awaits: bool)
        ensures
            awaits == (self.conclusion(streams_closed, shutdown, true) is None && self.conclusion(
                streams_closed,
                shutdown,
                false,
            ) is Some),
    {
        self.status.is_some() && (streams_closed || shutdown) && self.termination.is_some()
    }

    /// What the wait ends in, if it ends.
    pub fn conclude(&self, streams_closed: bool, shutdown: bool, group_exists: bool) -> (outcome:
        Option<ProcessOutcome>)
        ensures
            outcome == self.conclusion(streams_closed, shutdown, group_exists),
    {
        match (self.status, self.termination) {
            (Some(status), None) => {
                if streams_closed {
                    Some(map_wait_status(status))
                } else {
                    None
                }
            },
            (Some(_), Some(reason)) => {
                if (streams_closed || shutdown) && !group_exists {
                    Some(reason)
                } else {
                    None
                }
            },
            _ => None,
        }
    }

    /// How long to pause before the next look, in nanoseconds: until the
    /// child's time is up, within bounds.
    pub fn pause(&self, now: u64) -> (pause: u64)
        ensures
            SHORTEST_PAUSE <= pause <= POLL_INTERVAL,
            self.deadline is None ==> pause == POLL_INTERVAL,
            self.deadline matches Some(deadline) ==> pause == if deadline - now > POLL_INTERVAL {
                POLL_INTERVAL as int
            } else if deadline - now < SHORTEST_PAUSE {
                SHORTEST_PAUSE as int
            } else {
                deadline - now
            },
            is_pause(pause, self.deadline, now),
    {
        let pause: u64 = match self.deadline {
            Some(deadline) => {
                let left = remaining(now, deadline);
                if left < POLL_INTERVAL {
                    left
                } else {
                    POLL_INTERVAL
                }
            },
            None => POLL_INTERVAL,
        };
        if pause < SHORTEST_PAUSE {
            SHORTEST_PAUSE
        } else {
            pause
        }
    }
}

/// `libc::ESRCH`, which is 3 on macOS and on Linux.
#[verifier::external_body]
fn esrch() -> (code: i32)
    ensures
        code == 3,
{
    libc::ESRCH
}

/// `libc::EPERM`, which is 1 on macOS and on Linux.
#[verifier::external_body]
fn eperm() -> (code: i32)
    ensures
        code == 1,
{
    libc::EPERM
}

/// Whether sending a signal to a group counts as done, by the error it ended
/// in. A group that is gone needs no signal.
pub fn terminate_group(error: Option<i32>) -> (done: bool)
    ensures
        done == (error is None || error == Some(3i32)),
        done == is_delivered(error),
{
    match error {
        Some(code) => code == esrch(),
        None => true,
    }
}

/// Whether a group exists, by the error that sending it no signal ended in;
/// nothing where that cannot be told.
pub fn process_group_exists(error: Option<i32>) -> (found: Option<bool>)
    ensures
        found == (match error {
            None => Some(true),
            Some(code) => if code == 3 {
                Some(false)
            } else if code == 1 {
                Some(true)
            } else {
                None
            },
        }),
        found == group_found(error),
{
    match error {
        Some(code) => {
            if code == esrch() {
                Some(false)
            } else if code == eperm() {
                Some(true)
            } else {
                None
            }
        },
        None => Some(true),
    }
}

/// One turn of a wait: a look, and when the group was asked to end, if it was.
pub struct Turn {
    pub look: Look,
    pub asked_at: u64,
}

/// The wait after a number of turns.
pub open spec fn after_turns(deadline: Option<u64>, turns: Seq<Turn>) -> Wait
    decreases turns.len(),
{
    if turns.len() == 0 {
        Wait { deadline, status: None, termination: None, kill_deadline: None }
    } else {
        let before = after_turns(deadline, turns.drop_last());
        let turn = turns.last();
        if before.due_signal(turn.look) == Some(15i32) {
            before.looked(turn.look).grace_begun(turn.asked_at)
        } else {
            before.looked(turn.look)
        }
    }
}

/// The signal that one of the turns sends.
pub open spec fn signal_in(deadline: Option<u64>, turns: Seq<Turn>, index: int) -> Option<i32> {
    after_turns(deadline, turns.take(index)).due_signal(turns[index].look)
}

proof fn lemma_turn(deadline: Option<u64>, turns: Seq<Turn>, index: int)
    requires
        0 <= index < turns.len(),
    ensures
        after_turns(deadline, turns.take(index + 1)) == ({
            let before = after_turns(deadline, turns.take(index));
            if signal_in(deadline, turns, index) == Some(15i32) {
                before.looked(turns[index].look).grace_begun(turns[index].asked_at)
            } else {
                before.looked(turns[index].look)
            }
        }),
{
    assert(turns.take(index + 1).drop_last() =~= turns.take(index));
}

/// Once there is a reason to end a child, it stays the reason, whatever
/// happens later.
pub proof fn first_reason_stays(deadline: Option<u64>, turns: Seq<Turn>, early: int, late: int)
    requires
        0 <= early <= late <= turns.len(),
        after_turns(deadline, turns.take(early)).termination is Some,
    ensures
        after_turns(deadline, turns.take(late)).termination == after_turns(
            deadline,
            turns.take(early),
        ).termination,
    decreases late - early,
{
    if early < late {
        first_reason_stays(deadline, turns, early, late - 1);
        lemma_turn(deadline, turns, late - 1);
    }
}

/// A child's group is asked to end at most once, and killed at most once.
pub proof fn signals_are_sent_once(deadline: Option<u64>, turns: Seq<Turn>, i: int, j: int)
    requires
        0 <= i < j < turns.len(),
        signal_in(deadline, turns, i) is Some,
    ensures
        signal_in(deadline, turns, j) != signal_in(deadline, turns, i),
{
    lemma_turn(deadline, turns, i);
    first_reason_stays(deadline, turns, i + 1, j);
    if signal_in(deadline, turns, i) == Some(9i32) {
        lemma_grace_is_over(deadline, turns, i + 1, j);
    }
}

proof fn lemma_grace_is_over(deadline: Option<u64>, turns: Seq<Turn>, early: int, late: int)
    requires
        0 <= early <= late <= turns.len(),
        after_turns(deadline, turns.take(early)).termination is Some,
        after_turns(deadline, turns.take(early)).kill_deadline is None,
    ensures
        after_turns(deadline, turns.take(late)).termination is Some,
        after_turns(deadline, turns.take(late)).kill_deadline is None,
    decreases late - early,
{
    if early < late {
        lemma_grace_is_over(deadline, turns, early, late - 1);
        lemma_turn(deadline, turns, late - 1);
    }
}

/// A child's group is killed only after it was asked to end, and not before
/// the whole grace period has passed since.
pub proof fn killing_follows_the_grace_period(
    deadline: Option<u64>,
    turns: Seq<Turn>,
    index: int,
) -> (asked: int)
    requires
        0 <= index < turns.len(),
        signal_in(deadline, turns, index) == Some(9i32),
    ensures
        0 <= asked < index,
        signal_in(deadline, turns, asked) == Some(15i32),
        turns[index].look.now >= min_int(
            turns[asked].asked_at + TERMINATION_GRACE,
            u64::MAX as int,
        ),
{
    lemma_asked(deadline, turns, index)
}

proof fn lemma_asked(deadline: Option<u64>, turns: Seq<Turn>, count: int) -> (asked: int)
    requires
        0 <= count <= turns.len(),
        after_turns(deadline, turns.take(count)).kill_deadline is Some,
    ensures
        0 <= asked < count,
        signal_in(deadline, turns, asked) == Some(15i32),
        after_turns(deadline, turns.take(count)).kill_deadline->0 == min_int(
            turns[asked].asked_at + TERMINATION_GRACE,
            u64::MAX as int,
        ),
    decreases count,
{
    if count == 0 {
        0
    } else {
        lemma_turn(deadline, turns, count - 1);
        if signal_in(deadline, turns, count - 1) == Some(15i32) {
            count - 1
        } else {
            lemma_asked(deadline, turns, count - 1)
        }
    }
}

/// A natural end is reported only after the child was reaped and its output
/// was read to the end. A child that was ended gives the reason, once it was
/// reaped and its whole group is gone.
pub proof fn natural_end_is_reported_late(
    wait: Wait,
    streams_closed: bool,
    shutdown: bool,
    group_exists: bool,
)
    requires
        wait.conclusion(streams_closed, shutdown, group_exists) is Some,
    ensures
        wait.status is Some,
        wait.termination is None ==> streams_closed && wait.conclusion(
            streams_closed,
            shutdown,
            group_exists,
        ) == Some(own_outcome(wait.status->0)),
        wait.termination is Some ==> !group_exists && wait.conclusion(
            streams_closed,
            shutdown,
            group_exists,
        ) == wait.termination,
{
}

/// The first look that gives a reason to end a child asks its group to end, at
/// that look: because the broker stops, or else because the request was
/// cancelled, with whatever signal, or else because the time is up. Without a
/// reason nothing is sent.
pub proof fn first_reason_ends_the_child(wait: Wait, look: Look)
    requires
        wait.termination is None,
    ensures
        look.shutdown ==> wait.looked(look).termination == Some(ProcessOutcome::Shutdown),
        !look.shutdown && look.control.cancelled ==> wait.looked(look).termination == Some(
            ProcessOutcome::Cancelled(look.control.signal),
        ),
        !look.shutdown && !look.control.cancelled && (wait.deadline matches Some(deadline)
            && deadline <= look.now) ==> wait.looked(look).termination == Some(
            ProcessOutcome::TimedOut,
        ),
        !look.shutdown && !look.control.cancelled && (wait.deadline matches Some(deadline)
            ==> look.now < deadline) ==> wait.looked(look).termination is None,
        wait.looked(look).termination is Some ==> wait.due_signal(look) == Some(15i32),
        wait.looked(look).termination is None ==> wait.due_signal(look) is None,
        wait.looked(look).kill_deadline == wait.kill_deadline,
{
}

/// A child that was asked to end is killed at the first look at or after its
/// group's grace period, and gets no other signal.
pub proof fn grace_period_ends_in_killing(wait: Wait, look: Look)
    requires
        wait.termination is Some,
    ensures
        (wait.kill_deadline matches Some(deadline) && deadline <= look.now) ==> wait.due_signal(
            look,
        ) == Some(9i32) && wait.looked(look).kill_deadline is None,
        (wait.kill_deadline matches Some(deadline) ==> look.now < deadline) ==> wait.due_signal(
            look,
        ) is None && wait.looked(look).kill_deadline == wait.kill_deadline,
{
}

/// A group that is asked to end is given two seconds, and nothing else about
/// the wait changes.
pub proof fn grace_period_is_two_seconds(wait: Wait, now: u64)
    ensures
        now + 2_000_000_000 <= u64::MAX ==> wait.grace_begun(now).kill_deadline == Some(
            (now + 2_000_000_000) as u64,
        ),
        now + 2_000_000_000 > u64::MAX ==> wait.grace_begun(now).kill_deadline == Some(u64::MAX),
        wait.grace_begun(now).deadline == wait.deadline,
        wait.grace_begun(now).status == wait.status,
        wait.grace_begun(now).termination == wait.termination,
{
}

/// The first end of a child that is seen is kept, and so is its deadline.
pub proof fn first_end_is_kept(wait: Wait, look: Look)
    ensures
        wait.looked(look).deadline == wait.deadline,
        wait.status is Some ==> wait.looked(look).status == wait.status,
        wait.status is None && look.waited == Waited::StillAlive ==> wait.looked(look).status
            is None,
        wait.status is None && look.waited != Waited::StillAlive ==> wait.looked(look).status
            == Some(look.waited),
{
}

/// A wait comes to an end as soon as it can: with the child's own end, once it
/// was reaped and its output was read to the end, if nothing ended it; with the
/// reason, once it was reaped, its group is gone, and its output was read to
/// the end or the broker stops, if something did.
pub proof fn wait_ends_when_it_can(
    wait: Wait,
    streams_closed: bool,
    shutdown: bool,
    group_exists: bool,
)
    ensures
        ({
            let end = wait.conclusion(streams_closed, shutdown, group_exists);
            &&& wait.status is None ==> end is None
            &&& wait.termination is None && !streams_closed ==> end is None
            &&& wait.termination is None && streams_closed ==> match wait.status {
                Some(Waited::Exited(code)) => end == Some(ProcessOutcome::Exited(code)),
                Some(Waited::Signaled(signal)) => end == Some(ProcessOutcome::Signaled(signal)),
                Some(_) => end == Some(ProcessOutcome::Signaled(9)),
                None => end is None,
            }
            &&& wait.termination is Some && wait.status is Some ==> if !group_exists && (
            streams_closed || shutdown) {
                end == wait.termination
            } else {
                end is None
            }
        }),
{
}

/// A client that goes away, or whose caller sends a signal, cancels its
/// request; that its output streams are closed does not. Nothing that is heard
/// of a client reopens its streams.
pub proof fn reports_are_taken_in(control: RequestControl, signal: i32)
    ensures
        ({
            let lost = controlled(control, None);
            &&& lost.cancelled
            &&& lost.streams_closed
            &&& lost.signal == control.signal
        }),
        ({
            let signaled = controlled(control, Some(ClientEvent::Cancel(signal)));
            &&& signaled.cancelled
            &&& signaled.signal == signal
            &&& signaled.streams_closed == control.streams_closed
        }),
        ({
            let closed = controlled(control, Some(ClientEvent::StreamsClosed));
            &&& closed.cancelled == control.cancelled
            &&& closed.signal == control.signal
            &&& closed.streams_closed
        }),
{
}

/// A client that goes away while its command runs ends the command: unless the
/// broker stops or there was another reason before, the group is asked to end
/// at the next look, and the wait ends in a cancellation.
pub proof fn lost_client_ends_its_command(wait: Wait, control: RequestControl, look: Look)
    requires
        wait.termination is None,
        look.control == controlled(control, None),
        !look.shutdown,
    ensures
        wait.due_signal(look) == Some(15i32),
        ({
            let after = wait.looked(look);
            &&& after.termination == Some(ProcessOutcome::Cancelled(control.signal))
            &&& after.status is Some ==> after.conclusion(true, false, false) == Some(
                ProcessOutcome::Cancelled(control.signal),
            )
        }),
{
}

/// A request that was cancelled stays cancelled, whatever is heard of its
/// client afterwards, and keeps the signal unless its client sends another.
pub proof fn cancellation_is_final(control: RequestControl, event: Option<ClientEvent>)
    requires
        control.cancelled,
    ensures
        controlled(control, event).cancelled,
        event is None || event->0 is StreamsClosed ==> controlled(control, event).signal
            == control.signal,
{
}

/// Where the launch of a child stands: the next thing to do, or what it came
/// to. A probe first opens pipes and starts to drain them.
#[derive(Clone, Copy, Debug, PartialEq, Eq, Structural)]
pub enum Launch {
    OpenPipes,
    Drain,
    Spawn,
    TakeForeground,
    Continue,
    Await,
    RestoreForeground(Option<ProcessOutcome>),
    Finished(Option<ProcessOutcome>),
}

impl Launch {
    /// What comes next, and whether the child's group is killed and the child
    /// reaped before that. `outcome` is what a wait came to.
    pub open spec fn next(self, succeeded: bool, outcome: Option<ProcessOutcome>) -> (Launch, bool) {
        match self {
            Launch::OpenPipes => (
                if succeeded {
                    Launch::Drain
                } else {
                    Launch::Finished(None)
                },
                false,
            ),
            Launch::Drain => (
                if succeeded {
                    Launch::Spawn
                } else {
                    Launch::Finished(None)
                },
                false,
            ),
            Launch::Spawn => (
                if succeeded {
                    Launch::TakeForeground
                } else {
                    Launch::Finished(None)
                },
                false,
            ),
            Launch::TakeForeground => if succeeded {
                (Launch::Continue, false)
            } else {
                (Launch::Finished(None), true)
            },
            Launch::Continue => if succeeded {
                (Launch::Await, false)
            } else {
                (Launch::RestoreForeground(None), true)
            },
            Launch::Await => (Launch::RestoreForeground(outcome), outcome is None),
            Launch::RestoreForeground(came_to) => (
                Launch::Finished(
                    if succeeded {
                        came_to
                    } else {
                        None
                    },
                ),
                false,
            ),
            Launch::Finished(came_to) => (Launch::Finished(came_to), false),
        }
    }

    /// Takes in whether the next thing succeeded, and tells whether to kill
    /// the child's group and reap the child.
    pub fn advance(&mut self, succeeded: bool, outcome: Option<ProcessOutcome>) -> (kill: bool)
        ensures
            (*final(self), kill) == old(self).next(succeeded, outcome),
    {
        let (next, kill) = match *self {
            Launch::OpenPipes => {
                if succeeded {
                    (Launch::Drain, false)
                } else {
                    (Launch::Finished(None), false)
                }
            },
            Launch::Drain => {
                if succeeded {
                    (Launch::Spawn, false)
                } else {
                    (Launch::Finished(None), false)
                }
            },
            Launch::Spawn => {
                if succeeded {
                    (Launch::TakeForeground, false)
                } else {
                    (Launch::Finished(None), false)
                }
            },
            Launch::TakeForeground => {
                if succeeded {
                    (Launch::Continue, false)
                } else {
                    (Launch::Finished(None), true)
                }
            },
            Launch::Continue => {
                if succeeded {
                    (Launch::Await, false)
                } else {
                    (Launch::RestoreForeground(None), true)
                }
            },
            Launch::Await => (Launch::RestoreForeground(outcome), outcome.is_none()),
            Launch::RestoreForeground(came_to) => {
                if succeeded {
                    (Launch::Finished(came_to), false)
                } else {
                    (Launch::Finished(None), false)
                }
            },
            Launch::Finished(came_to) => (Launch::Finished(came_to), false),
        };
        *self = next;
        kill
    }
}

/// What a launch has done so far.
pub struct Launched {
    pub launch: Launch,
    pub spawned: bool,
    pub reaped: bool,
    pub foreground_taken: bool,
    pub foreground_restored: bool,
}

/// One step of a launch: whether it succeeded, and what a wait came to.
pub struct LaunchStep {
    pub succeeded: bool,
    pub outcome: Option<ProcessOutcome>,
}

/// What a launch has done after a number of steps. A wait that comes to an
/// outcome has reaped the child.
pub open spec fn after_steps(start: Launch, steps: Seq<LaunchStep>) -> Launched
    decreases steps.len(),
{
    if steps.len() == 0 {
        Launched {
            launch: start,
            spawned: false,
            reaped: false,
            foreground_taken: false,
            foreground_restored: false,
        }
    } else {
        let before = after_steps(start, steps.drop_last());
        let step = steps.last();
        let (next, killed) = before.launch.next(step.succeeded, step.outcome);
        Launched {
            launch: next,
            spawned: before.spawned || before.launch == Launch::Spawn && step.succeeded,
            reaped: before.reaped || killed || before.launch == Launch::Await && step.outcome is Some,
            foreground_taken: before.foreground_taken || before.launch == Launch::TakeForeground
                && step.succeeded,
            foreground_restored: before.foreground_restored || before.launch is RestoreForeground,
        }
    }
}

/// However a launch goes, it ends with the child reaped if there was one, and
/// with the terminal's foreground given back if the child was given it. It
/// comes to an outcome only if a wait did.
pub proof fn launch_leaves_nothing_behind(start: Launch, steps: Seq<LaunchStep>)
    requires
        start == Launch::OpenPipes || start == Launch::Spawn,
        after_steps(start, steps).launch is Finished,
    ensures
        after_steps(start, steps).spawned ==> after_steps(start, steps).reaped,
        after_steps(start, steps).foreground_taken
            == after_steps(start, steps).foreground_restored,
        after_steps(start, steps).launch != Launch::Finished(None) ==> after_steps(
            start,
            steps,
        ).spawned,
{
    lemma_launch(start, steps);
}

/// A launch in which everything succeeds comes to what its wait came to, and
/// nothing is killed.
pub proof fn launch_comes_to_what_its_wait_did(outcome: ProcessOutcome, other: Option<ProcessOutcome>)
    ensures
        Launch::OpenPipes.next(true, other) == (Launch::Drain, false),
        Launch::Drain.next(true, other) == (Launch::Spawn, false),
        Launch::Spawn.next(true, other) == (Launch::TakeForeground, false),
        Launch::TakeForeground.next(true, other) == (Launch::Continue, false),
        Launch::Continue.next(true, other) == (Launch::Await, false),
        ({
            let (restore, killed) = Launch::Await.next(true, Some(outcome));
            &&& !killed
            &&& restore is RestoreForeground
            &&& restore.next(true, other) == (Launch::Finished(Some(outcome)), false)
        }),
{
}

/// A launch in which something fails comes to nothing. Where there is a child
/// by then, its group is killed and the child reaped, and where it was given
/// the terminal's foreground, that is given back first.
pub proof fn failed_launch_comes_to_nothing(launch: Launch, outcome: Option<ProcessOutcome>)
    ensures
        launch is OpenPipes || launch is Drain || launch is Spawn ==> launch.next(false, outcome)
            == (Launch::Finished(None), false),
        launch is TakeForeground ==> launch.next(false, outcome) == (Launch::Finished(None), true),
        launch is Continue ==> launch.next(false, outcome) == (
            Launch::RestoreForeground(None),
            true,
        ),
        launch is Await ==> launch.next(false, None) == (Launch::RestoreForeground(None), true),
        launch is RestoreForeground ==> launch.next(false, outcome) == (
            Launch::Finished(None),
            false,
        ),
        launch is Finished ==> launch.next(false, outcome) == (launch, false) && launch.next(
            true,
            outcome,
        ) == (launch, false),
{
}

proof fn lemma_launch(start: Launch, steps: Seq<LaunchStep>)
    requires
        start == Launch::OpenPipes || start == Launch::Spawn,
    ensures
        ({
            let state = after_steps(start, steps);
            match state.launch {
                Launch::OpenPipes | Launch::Drain | Launch::Spawn => !state.spawned
                    && !state.foreground_taken && !state.foreground_restored && !state.reaped,
                Launch::TakeForeground => state.spawned && !state.foreground_taken
                    && !state.foreground_restored && !state.reaped,
                Launch::Continue | Launch::Await => state.spawned && state.foreground_taken
                    && !state.foreground_restored && !state.reaped,
                Launch::RestoreForeground(_) => state.spawned && state.foreground_taken
                    && !state.foreground_restored && state.reaped,
                Launch::Finished(outcome) => (state.spawned ==> state.reaped) && (
                state.foreground_taken == state.foreground_restored) && (outcome is Some
                    ==> state.spawned),
            }
        }),
    decreases steps.len(),
{
    if steps.len() > 0 {
        lemma_launch(start, steps.drop_last());
    }
}

/// A signal counts as delivered where there was no error, or nobody left to
/// get it.
pub open spec fn is_delivered(error: Option<i32>) -> bool {
    match error {
        None => true,
        Some(code) => code == 3,
    }
}

/// Whether a group exists, by the error that sending it no signal ended in.
pub open spec fn group_found(error: Option<i32>) -> Option<bool> {
    if error is None || error == Some(1i32) {
        Some(true)
    } else if error == Some(3i32) {
        Some(false)
    } else {
        None
    }
}

/// A pause between two looks: as long as there is time left, but between a
/// thousandth and a hundredth of a second.
pub open spec fn is_pause(pause: u64, deadline: Option<u64>, now: u64) -> bool {
    match deadline {
        None => pause == POLL_INTERVAL,
        Some(deadline) => {
            let left = if now < deadline {
                deadline - now
            } else {
                0
            };
            ||| pause == left && SHORTEST_PAUSE <= left <= POLL_INTERVAL
            ||| pause == SHORTEST_PAUSE && left < SHORTEST_PAUSE
            ||| pause == POLL_INTERVAL && left > POLL_INTERVAL
        },
    }
}

/// A group is gone only where the system says that there is none; one that may
/// not be signalled exists. A signal to a group that is gone is not missed.
pub proof fn groups_are_found(error: Option<i32>)
    ensures
        group_found(error) == Some(false) <==> error == Some(3i32),
        group_found(error) == Some(true) <==> error is None || error == Some(1i32),
        is_delivered(error) <==> error is None || error == Some(3i32),
{
}

/// No look is further from the next one than a hundredth of a second, nor closer
/// than a thousandth, and none is put off past the child's deadline by more
/// than that.
pub proof fn looks_are_close_together(pause: u64, deadline: Option<u64>, now: u64)
    requires
        is_pause(pause, deadline, now),
    ensures
        1_000_000 <= pause <= 10_000_000,
        deadline is None ==> pause == 10_000_000,
        deadline matches Some(deadline) ==> (now + 1_000_000 <= deadline ==> now + pause
            <= deadline),
        deadline matches Some(deadline) ==> (deadline < now + 1_000_000 ==> pause == 1_000_000),
        deadline matches Some(deadline) ==> (now + 10_000_000 <= deadline ==> pause == 10_000_000),
{
}

} // verus!
