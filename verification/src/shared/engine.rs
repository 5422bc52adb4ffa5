//! The worker pool as a state machine: which tasks are running, which
//! messages have been settled and how, and what each event does to that.
//! The executor refines this machine; the laws of the pool are proved here.

use crate::shared::models::ExecutionMode;
use vstd::prelude::*;
use vstd::string::StringExecFns;

verus! {

/// Where the engine is in its life. It starts idle, runs while messages
/// arrive, drains once they stop while tasks are still running, and has
/// stopped when nothing is left.
#[derive(Clone, Copy, Debug, PartialEq, Eq, Structural)]
pub enum Phase {
    Idle,
    Running,
    Draining,
    Stopped,
}

/// Why the engine stopped taking messages.
#[derive(Clone, Copy, Debug, PartialEq, Eq, Structural)]
pub enum ExecutorError {
    /// The topic could not be bound.
    ConsumeFailed,
    /// The bus ended the sequence of messages.
    StreamEnded,
    /// Waiting for the next message failed.
    PullFailed,
    /// A payload was not a task.
    MalformedTask,
}

impl ExecutorError {
    /// What the error says to an operator.
    pub fn message(&self) -> (text: String)
        ensures
            text@ == match self {
                ExecutorError::ConsumeFailed => "Failed to consume the topic"@,
                ExecutorError::StreamEnded => "The message stream has ended"@,
                ExecutorError::PullFailed => "Failed to pull the next message"@,
                ExecutorError::MalformedTask => "Failed to decode a task"@,
            },
    {
        match self {
            ExecutorError::ConsumeFailed => String::from_str("Failed to consume the topic"),
            ExecutorError::StreamEnded => String::from_str("The message stream has ended"),
            ExecutorError::PullFailed => String::from_str("Failed to pull the next message"),
            ExecutorError::MalformedTask => String::from_str("Failed to decode a task"),
        }
    }
}

/// How a task's subprocess ended.
#[derive(Clone, Copy, Debug, PartialEq, Eq, Structural)]
pub enum Outcome {
    /// It ran and exited with this code.
    Exited(i32),
    /// It could not be started or waited for, or ended without an exit code.
    Failed,
}

/// What the engine asks of a message once its task is over.
#[derive(Clone, Copy, Debug, PartialEq, Eq, Structural)]
pub enum Resolution {
    Ack,
    Nack { requeue: bool },
}

/// Exit code 0 is acknowledged; everything else is refused and put back on
/// the queue.
pub open spec fn resolution_of(outcome: Outcome) -> Resolution {
    if outcome == Outcome::Exited(0) {
        Resolution::Ack
    } else {
        Resolution::Nack { requeue: true }
    }
}

/// A task in flight: its ticket, which is its place in the order of
/// admission counted from 0, how the pool treats it, and its message.
pub struct Entry<M> {
    pub ticket: nat,
    pub mode: ExecutionMode,
    pub message: M,
}

/// What happens to the engine.
pub enum Event<M> {
    /// The topic was bound and messages will arrive.
    Start,
    /// A message was pulled and decoded, and asks to be run.
    Offer { mode: ExecutionMode, message: M },
    /// The subprocess of the task with this ticket is over.
    Finish { ticket: nat, outcome: Outcome },
    /// No further message will be taken.
    Halt { cause: ExecutorError },
}

/// How many of `running` are treated as `mode`.
pub open spec fn count_mode<M>(running: Seq<Entry<M>>, mode: ExecutionMode) -> nat
    decreases running.len(),
{
    if running.len() == 0 {
        0
    } else {
        count_mode(running.drop_last(), mode) + if running.last().mode == mode {
            1nat
        } else {
            0nat
        }
    }
}

/// The engine's state.
pub struct EngineView<M> {
    /// The number of admission tokens.
    pub capacity: nat,
    pub phase: Phase,
    /// Why no further message is taken, once that is so.
    pub fault: Option<ExecutorError>,
    /// The number of tickets handed out; the next ticket.
    pub issued: nat,
    /// The tasks whose subprocess has been admitted and is not yet settled.
    pub running: Seq<Entry<M>>,
    /// Every settled ticket with what was asked of its message.
    pub settled: Map<nat, Resolution>,
}

impl<M> EngineView<M> {
    /// An idle engine with `capacity` tokens.
    pub open spec fn init(capacity: nat) -> Self {
        EngineView {
            capacity,
            phase: Phase::Idle,
            fault: None,
            issued: 0,
            running: Seq::empty(),
            settled: Map::empty(),
        }
    }

    /// The number of pooled tasks in flight: the tokens held.
    pub open spec fn pooled(self) -> nat {
        count_mode(self.running, ExecutionMode::Pooled)
    }

    /// The number of exclusive tasks in flight.
    pub open spec fn exclusive(self) -> nat {
        count_mode(self.running, ExecutionMode::Exclusive)
    }

    /// The tokens that are free.
    pub open spec fn available(self) -> nat {
        if self.pooled() <= self.capacity {
            (self.capacity - self.pooled()) as nat
        } else {
            0
        }
    }

    /// Whether the task with this ticket is in flight.
    pub open spec fn holds(self, ticket: nat) -> bool {
        exists|i: int| 0 <= i < self.running.len() && (#[trigger] self.running[i]).ticket == ticket
    }

    /// Where the task with this ticket stands among those in flight.
    pub open spec fn position(self, ticket: nat) -> int {
        choose|i: int| 0 <= i < self.running.len() && (#[trigger] self.running[i]).ticket == ticket
    }

    /// Whether the control thread may pull a message: the engine runs and no
    /// exclusive task is in flight.
    pub open spec fn may_pull(self) -> bool {
        self.phase is Running && self.exclusive() == 0
    }

    /// Whether a task of this mode is admitted now: a message may be pulled,
    /// and a pooled task finds a free token.
    pub open spec fn admits(self, mode: ExecutionMode) -> bool {
        &&& self.may_pull()
        &&& (mode is Pooled ==> self.pooled() < self.capacity)
    }

    /// Binding the topic takes an idle engine to running and changes no
    /// other.
    pub open spec fn start(self) -> Self {
        if self.phase is Idle {
            EngineView { phase: Phase::Running, ..self }
        } else {
            self
        }
    }

    /// An admitted task gets the next ticket and is in flight at once; one
    /// that is not admitted changes nothing.
    pub open spec fn offer(self, mode: ExecutionMode, message: M) -> Self {
        if self.admits(mode) {
            EngineView {
                issued: self.issued + 1,
                running: self.running.push(Entry { ticket: self.issued, mode, message }),
                ..self
            }
        } else {
            self
        }
    }

    /// The end of a subprocess takes its task out of flight, which frees its
    /// token if it held one, and records what is asked of its message. The
    /// last task to leave a draining engine stops it. A ticket that is not
    /// in flight changes nothing.
    pub open spec fn finish(self, ticket: nat, outcome: Outcome) -> Self {
        if self.holds(ticket) {
            let running = self.running.remove(self.position(ticket));
            EngineView {
                running,
                settled: self.settled.insert(ticket, resolution_of(outcome)),
                phase: if self.phase is Draining && running.len() == 0 {
                    Phase::Stopped
                } else {
                    self.phase
                },
                ..self
            }
        } else {
            self
        }
    }

    /// The end of the message sequence, or a fatal error, stops an engine
    /// with nothing in flight and lets any other drain. The first cause is
    /// kept.
    pub open spec fn halt(self, cause: ExecutorError) -> Self {
        if self.phase is Idle || self.phase is Running {
            EngineView {
                phase: if self.running.len() == 0 {
                    Phase::Stopped
                } else {
                    Phase::Draining
                },
                fault: Some(cause),
                ..self
            }
        } else {
            self
        }
    }

    /// The state after one event.
    pub open spec fn step(self, event: Event<M>) -> Self {
        match event {
            Event::Start => self.start(),
            Event::Offer { mode, message } => self.offer(mode, message),
            Event::Finish { ticket, outcome } => self.finish(ticket, outcome),
            Event::Halt { cause } => self.halt(cause),
        }
    }

    /// The state after a sequence of events, oldest first.
    pub open spec fn run(self, events: Seq<Event<M>>) -> Self
        decreases events.len(),
    {
        if events.len() == 0 {
            self
        } else {
            self.run(events.drop_last()).step(events.last())
        }
    }

    /// What holds of every state that an engine can reach.
    pub open spec fn inv(self) -> bool {
        &&& self.pooled() <= self.capacity
        &&& self.exclusive() <= 1
        &&& self.exclusive() == 1 ==> self.running.last().mode is Exclusive
        &&& forall|i: int|
            0 <= i < self.running.len() ==> (#[trigger] self.running[i]).ticket < self.issued
        &&& forall|i: int, j: int|
            0 <= i < j < self.running.len() ==> (#[trigger] self.running[i]).ticket < (
            #[trigger] self.running[j]).ticket
        &&& forall|t: nat| #[trigger]
            self.settled.contains_key(t) ==> t < self.issued && !self.holds(t)
        &&& forall|t: nat| t < self.issued ==> self.holds(t) || #[trigger] self.settled.contains_key(t)
        &&& self.phase is Idle ==> self.issued == 0
        &&& self.phase is Draining ==> self.running.len() > 0
        &&& self.phase is Stopped ==> self.running.len() == 0
        &&& (self.phase is Draining || self.phase is Stopped) <==> self.fault is Some
    }
}

/// Counting after one more task is in flight.
pub proof fn lemma_count_push<M>(running: Seq<Entry<M>>, entry: Entry<M>, mode: ExecutionMode)
    ensures
        count_mode(running.push(entry), mode) == count_mode(running, mode) + if entry.mode == mode {
            1nat
        } else {
            0nat
        },
{
    assert(running.push(entry).drop_last() =~= running);
}

/// Counting after the task at `at` has left.
pub proof fn lemma_count_remove<M>(running: Seq<Entry<M>>, at: int, mode: ExecutionMode)
    requires
        0 <= at < running.len(),
    ensures
        count_mode(running, mode) == count_mode(running.remove(at), mode) + if running[at].mode
            == mode {
            1nat
        } else {
            0nat
        },
    decreases running.len(),
{
    if at == running.len() - 1 {
        assert(running.remove(at) =~= running.drop_last());
    } else {
        lemma_count_remove(running.drop_last(), at, mode);
        assert(running.remove(at).drop_last() =~= running.drop_last().remove(at));
        assert(running.remove(at).last() == running.last());
    }
}

/// No more tasks of one mode are in flight than tasks at all.
pub proof fn lemma_count_at_most_len<M>(running: Seq<Entry<M>>, mode: ExecutionMode)
    ensures
        count_mode(running, mode) <= running.len(),
    decreases running.len(),
{
    if running.len() > 0 {
        lemma_count_at_most_len(running.drop_last(), mode);
    }
}

impl<M> EngineView<M> {
    /// An idle engine is in a state that the invariant admits.
    pub proof fn lemma_init_inv(capacity: nat)
        ensures
            Self::init(capacity).inv(),
    {
    }

    /// A ticket in flight stands at exactly one position.
    pub proof fn lemma_position(self, ticket: nat, at: int)
        requires
            self.inv(),
            0 <= at < self.running.len(),
            self.running[at].ticket == ticket,
        ensures
            self.holds(ticket),
            self.position(ticket) == at,
    {
        let found = self.position(ticket);
        assert(0 <= found < self.running.len() && self.running[found].ticket == ticket);
        if found < at {
            assert(self.running[found].ticket < self.running[at].ticket);
        } else if at < found {
            assert(self.running[at].ticket < self.running[found].ticket);
        }
    }

    proof fn lemma_offer_inv(self, mode: ExecutionMode, message: M)
        requires
            self.inv(),
        ensures
            self.offer(mode, message).inv(),
    {
        if self.admits(mode) {
            let entry = Entry { ticket: self.issued, mode, message };
            let next = self.offer(mode, message);
            lemma_count_push(self.running, entry, ExecutionMode::Pooled);
            lemma_count_push(self.running, entry, ExecutionMode::Exclusive);
            assert forall|t: nat| #[trigger] next.settled.contains_key(t) implies t < next.issued
                && !next.holds(t) by {
                assert(!self.holds(t));
                if next.holds(t) {
                    let i = next.position(t);
                    if i < self.running.len() {
                        assert(self.running[i].ticket == t);
                    }
                }
            }
            assert forall|t: nat| t < next.issued implies next.holds(t)
                || #[trigger] next.settled.contains_key(t) by {
                if t == self.issued {
                    assert(next.running[self.running.len() as int].ticket == t);
                } else if self.holds(t) {
                    let i = self.position(t);
                    assert(next.running[i].ticket == t);
                }
            }
        }
    }

    proof fn lemma_finish_inv(self, ticket: nat, outcome: Outcome)
        requires
            self.inv(),
        ensures
            self.finish(ticket, outcome).inv(),
    {
        if self.holds(ticket) {
            let at = self.position(ticket);
            let next = self.finish(ticket, outcome);
            lemma_count_remove(self.running, at, ExecutionMode::Pooled);
            lemma_count_remove(self.running, at, ExecutionMode::Exclusive);
            assert forall|i: int| 0 <= i < next.running.len() implies (
            #[trigger] next.running[i]).ticket < next.issued by {
                if i < at {
                    assert(next.running[i] == self.running[i]);
                } else {
                    assert(next.running[i] == self.running[i + 1]);
                }
            }
            assert forall|i: int, j: int| 0 <= i < j < next.running.len() implies (
            #[trigger] next.running[i]).ticket < (#[trigger] next.running[j]).ticket by {
                let from_i = if i < at { i } else { i + 1 };
                let from_j = if j < at { j } else { j + 1 };
                assert(next.running[i] == self.running[from_i]);
                assert(next.running[j] == self.running[from_j]);
            }
            assert forall|t: nat| #[trigger] next.settled.contains_key(t) implies t < next.issued
                && !next.holds(t) by {
                if next.holds(t) {
                    let i = next.position(t);
                    let from = if i < at { i } else { i + 1 };
                    assert(next.running[i] == self.running[from]);
                    self.lemma_position(t, from);
                    if t != ticket {
                        assert(self.settled.contains_key(t));
                    }
                }
            }
            assert forall|t: nat| t < next.issued implies next.holds(t)
                || #[trigger] next.settled.contains_key(t) by {
                if t != ticket && self.holds(t) {
                    let i = self.position(t);
                    let to = if i < at { i } else { i - 1 };
                    assert(next.running[to] == self.running[i]);
                }
            }
            if next.exclusive() == 1 {
                assert(self.running.last().mode is Exclusive);
                assert(at != self.running.len() - 1);
                assert(next.running.last() == self.running.last());
            }
        }
    }

    /// Every event takes a state that the invariant admits to another, and
    /// leaves the number of tokens as it is.
    pub proof fn lemma_step_inv(self, event: Event<M>)
        requires
            self.inv(),
        ensures
            self.step(event).inv(),
            self.step(event).capacity == self.capacity,
    {
        match event {
            Event::Start => {},
            Event::Offer { mode, message } => self.lemma_offer_inv(mode, message),
            Event::Finish { ticket, outcome } => self.lemma_finish_inv(ticket, outcome),
            Event::Halt { cause } => {},
        }
    }

    /// So does every sequence of events.
    pub proof fn lemma_run_inv(self, events: Seq<Event<M>>)
        requires
            self.inv(),
        ensures
            self.run(events).inv(),
            self.run(events).capacity == self.capacity,
        decreases events.len(),
    {
        if events.len() > 0 {
            self.lemma_run_inv(events.drop_last());
            self.run(events.drop_last()).lemma_step_inv(events.last());
        }
    }
}

/// However many tasks are offered, and in whatever order tasks are offered
/// and end, the pooled tasks in flight never outnumber the tokens.
pub proof fn lemma_pool_never_exceeds_capacity<M>(
    capacity: nat,
    events: Seq<Event<M>>,
)
    ensures
        EngineView::<M>::init(capacity).run(events).pooled() <= capacity,
{
    EngineView::<M>::lemma_init_inv(capacity);
    EngineView::<M>::init(capacity).lemma_run_inv(events);
}

/// A message is settled once. What was asked of a settled ticket's message
/// stays as it is under every event, and the ticket is not in flight again.
/// A ticket becomes settled only by the end of its own subprocess, while it
/// is in flight, and what is then asked of its message is the resolution of
/// that outcome.
pub proof fn lemma_settled_once<M>(state: EngineView<M>, event: Event<M>, ticket: nat)
    requires
        state.inv(),
    ensures
        state.settled.contains_key(ticket) ==> {
            &&& state.step(event).settled.contains_key(ticket)
            &&& state.step(event).settled[ticket] == state.settled[ticket]
            &&& !state.step(event).holds(ticket)
        },
        !state.settled.contains_key(ticket) && state.step(event).settled.contains_key(ticket) ==> {
            &&& state.holds(ticket)
            &&& event matches Event::Finish { ticket: ended, outcome }
            &&& ended == ticket
            &&& state.step(event).settled[ticket] == resolution_of(outcome)
        },
{
    state.lemma_step_inv(event);
}

/// No message is lost on the way: in every state that an engine reaches,
/// each ticket handed out is either in flight or settled, never both, and
/// once the engine has stopped every one is settled.
pub proof fn lemma_every_ticket_accounted<M>(
    capacity: nat,
    events: Seq<Event<M>>,
    ticket: nat,
)
    ensures
        ({
            let reached = EngineView::<M>::init(capacity).run(events);
            &&& ticket < reached.issued ==> reached.holds(ticket) != reached.settled.contains_key(
                ticket,
            )
            &&& ticket >= reached.issued ==> !reached.holds(ticket)
                && !reached.settled.contains_key(ticket)
            &&& reached.phase is Stopped && ticket < reached.issued
                ==> reached.settled.contains_key(ticket)
        }),
{
    let reached = EngineView::<M>::init(capacity).run(events);
    EngineView::<M>::lemma_init_inv(capacity);
    EngineView::<M>::init(capacity).lemma_run_inv(events);
    if reached.holds(ticket) {
        let at = reached.position(ticket);
        assert(reached.running[at].ticket < reached.issued);
    }
}

/// Tokens are neither lost nor made: in every state that an engine reaches
/// the free tokens and the pooled tasks in flight add up to the capacity,
/// so with nothing in flight every token is free.
pub proof fn lemma_tokens_balanced<M>(capacity: nat, events: Seq<Event<M>>)
    ensures
        ({
            let reached = EngineView::<M>::init(capacity).run(events);
            &&& reached.available() + reached.pooled() == capacity
            &&& reached.running.len() == 0 ==> reached.available() == capacity
        }),
{
    let reached = EngineView::<M>::init(capacity).run(events);
    EngineView::<M>::lemma_init_inv(capacity);
    EngineView::<M>::init(capacity).lemma_run_inv(events);
    lemma_count_at_most_len(reached.running, ExecutionMode::Pooled);
}

/// The end of a pooled task frees exactly its one token, and the end of an
/// exclusive task frees none, whether the subprocess succeeded, failed or
/// never started.
pub proof fn lemma_finish_frees_token<M>(state: EngineView<M>, ticket: nat, outcome: Outcome)
    requires
        state.inv(),
        state.holds(ticket),
    ensures
        state.running[state.position(ticket)].mode is Pooled ==> state.finish(
            ticket,
            outcome,
        ).available() == state.available() + 1,
        state.running[state.position(ticket)].mode is Exclusive ==> state.finish(
            ticket,
            outcome,
        ).available() == state.available(),
{
    let at = state.position(ticket);
    lemma_count_remove(state.running, at, ExecutionMode::Pooled);
}

/// While an exclusive task is in flight no new work starts: nothing may be
/// pulled and every offer is turned down. Tasks admitted before it go on and
/// may end: it is the newest of those in flight.
pub proof fn lemma_exclusive_holds_the_gate<M>(
    state: EngineView<M>,
    mode: ExecutionMode,
    message: M,
)
    requires
        state.inv(),
        state.exclusive() > 0,
    ensures
        !state.may_pull(),
        state.offer(mode, message) == state,
        state.running.len() > 0,
        state.running.last().mode is Exclusive,
        forall|i: int|
            0 <= i < state.running.len() - 1 ==> (#[trigger] state.running[i]).mode is Pooled,
{
    lemma_count_at_most_len(state.running, ExecutionMode::Exclusive);
    let earlier = state.running.drop_last();
    assert(count_mode(earlier, ExecutionMode::Exclusive) == 0);
    assert forall|i: int| 0 <= i < state.running.len() - 1 implies (
    #[trigger] state.running[i]).mode is Pooled by {
        lemma_none_of_mode(earlier, ExecutionMode::Exclusive, i);
        assert(earlier[i] == state.running[i]);
    }
}

/// Where no task of `mode` is in flight, the one at `at` is of another mode.
pub proof fn lemma_none_of_mode<M>(running: Seq<Entry<M>>, mode: ExecutionMode, at: int)
    requires
        count_mode(running, mode) == 0,
        0 <= at < running.len(),
    ensures
        running[at].mode != mode,
    decreases running.len(),
{
    if at < running.len() - 1 {
        lemma_none_of_mode(running.drop_last(), mode, at);
    }
}

/// An exclusive task does not wait for pooled tasks: wherever a message may
/// be pulled it is admitted and in flight at once, however many pooled
/// tasks are in flight, also where they hold every token. It takes no
/// token, and the pooled tasks go on as they were.
pub proof fn lemma_exclusive_needs_no_token<M>(state: EngineView<M>, message: M)
    requires
        state.may_pull(),
    ensures
        state.admits(ExecutionMode::Exclusive),
        state.offer(ExecutionMode::Exclusive, message).running == state.running.push(
            Entry { ticket: state.issued, mode: ExecutionMode::Exclusive, message },
        ),
        state.offer(ExecutionMode::Exclusive, message).exclusive() == 1,
        state.offer(ExecutionMode::Exclusive, message).pooled() == state.pooled(),
        state.offer(ExecutionMode::Exclusive, message).available() == state.available(),
{
    let entry = Entry { ticket: state.issued, mode: ExecutionMode::Exclusive, message };
    lemma_count_push(state.running, entry, ExecutionMode::Pooled);
    lemma_count_push(state.running, entry, ExecutionMode::Exclusive);
}

} // verus!
