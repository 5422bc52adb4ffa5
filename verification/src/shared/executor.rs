//! The worker-pool engine. It decides which pulled task runs where, settles
//! each message when its subprocess is over, and keeps the books on the
//! admission tokens. Pulling messages and running subprocesses is the
//! caller's part: the caller reports each event and does what the answer
//! says.

use crate::shared::engine::{EngineView, Entry, ExecutorError, Outcome, Phase, Resolution};
use crate::shared::models::{ExecutionMode, Task};
use crate::shared::msgbus::bus::{BusError, Message};
use vstd::prelude::*;

verus! {

/// What the caller does with an offered task. An admitted task comes with
/// a ticket: the number under which the caller reports the end of its
/// subprocess to `finish`.
#[derive(Debug)]
pub enum Admission<M> {
    /// Run the task on the control thread and pull nothing until it has been
    /// reported as finished.
    Inline { ticket: u64, task: Task },
    /// A token has been taken for the task: run it on a unit of work of its
    /// own and go on pulling.
    Pooled { ticket: u64, task: Task },
    /// The task cannot start now. Message and task come back untouched, to
    /// be offered again once a running task has finished.
    Deferred { message: M, task: Task },
    /// The payload was not a task. The message comes back unsettled and the
    /// engine takes no further message.
    Malformed { message: M },
}

/// A message whose task is over, after the engine has settled it.
#[derive(Debug)]
pub struct Settled<M> {
    pub message: M,
    pub mode: ExecutionMode,
    /// What the engine asked of the message.
    pub resolution: Resolution,
    /// Whether the request went through. A failure is for the log only: the
    /// task has left the pool all the same.
    pub delivered: Result<(), BusError>,
}

struct Slot<M> {
    handle: u64,
    ticket: Ghost<nat>,
    mode: ExecutionMode,
    message: M,
}

/// The worker-pool engine for one topic.
pub struct Executor<M: Message> {
    topic: String,
    workers: usize,
    phase: Phase,
    fault: Option<ExecutorError>,
    issued: Ghost<nat>,
    slots: Vec<Slot<M>>,
    free: Vec<u64>,
    held: usize,
    exclusive: usize,
    ledger: Ghost<Map<nat, Resolution>>,
}

/// Decides what is asked of a message whose subprocess ended with `outcome`.
pub fn resolve(outcome: Outcome) -> (resolution: Resolution)
    ensures
        resolution == crate::shared::engine::resolution_of(outcome),
{
    match outcome {
        Outcome::Exited(code) => {
            if code == 0 {
                Resolution::Ack
            } else {
                Resolution::Nack { requeue: true }
            }
        },
        Outcome::Failed => Resolution::Nack { requeue: true },
    }
}

/// What `resolution` makes of a message that stood at `before`.
pub open spec fn settlement_after(
    before: crate::shared::msgbus::bus::Settlement,
    resolution: Resolution,
) -> crate::shared::msgbus::bus::Settlement {
    match resolution {
        Resolution::Ack => before.after_ack(),
        Resolution::Nack { requeue } => before.after_nack(requeue),
    }
}

/// What `resolution` asks of a message.
pub open spec fn asked_by(resolution: Resolution) -> crate::shared::msgbus::bus::Settlement {
    match resolution {
        Resolution::Ack => crate::shared::msgbus::bus::Settlement::Acked,
        Resolution::Nack { requeue } => crate::shared::msgbus::bus::Settlement::Nacked { requeue },
    }
}

/// The tasks in flight as the state of the pool holds them.
spec fn entries<M>(slots: Seq<Slot<M>>) -> Seq<Entry<M>> {
    Seq::new(
        slots.len(),
        |i: int| Entry { ticket: slots[i].ticket@, mode: slots[i].mode, message: slots[i].message },
    )
}

/// Whether a task in flight holds this number.
spec fn in_use<M>(slots: Seq<Slot<M>>, handle: u64) -> bool {
    exists|i: int| 0 <= i < slots.len() && (#[trigger] slots[i]).handle == handle
}

/// Where the task that holds this number stands.
spec fn slot_of<M>(slots: Seq<Slot<M>>, handle: u64) -> int {
    choose|i: int| 0 <= i < slots.len() && (#[trigger] slots[i]).handle == handle
}

/// The numbers in use, each with the ticket of the task that holds it.
spec fn numbered<M>(slots: Seq<Slot<M>>) -> Map<u64, nat> {
    Map::new(|handle: u64| in_use(slots, handle), |handle: u64| slots[slot_of(slots, handle)].ticket@)
}

/// Every number is either held by one task in flight or waits once among
/// the free ones, and there are as many numbers as tasks and free numbers
/// together.
spec fn numbers_in_order<M>(slots: Seq<Slot<M>>, free: Seq<u64>) -> bool {
    &&& forall|i: int| 0 <= i < slots.len() ==> (#[trigger] slots[i]).handle < slots.len() + free.len()
    &&& forall|k: int| 0 <= k < free.len() ==> (#[trigger] free[k]) < slots.len() + free.len()
    &&& forall|i: int, j: int|
        0 <= i < j < slots.len() ==> (#[trigger] slots[i]).handle != (#[trigger] slots[j]).handle
    &&& forall|k: int, l: int| 0 <= k < l < free.len() ==> (#[trigger] free[k]) != (#[trigger] free[l])
    &&& forall|i: int, k: int|
        0 <= i < slots.len() && 0 <= k < free.len() ==> (#[trigger] slots[i]).handle != (
        #[trigger] free[k])
}

proof fn lemma_numbered_at<M>(slots: Seq<Slot<M>>, free: Seq<u64>, at: int)
    requires
        numbers_in_order(slots, free),
        0 <= at < slots.len(),
    ensures
        in_use(slots, slots[at].handle),
        slot_of(slots, slots[at].handle) == at,
        numbered(slots).contains_key(slots[at].handle),
        numbered(slots)[slots[at].handle] == slots[at].ticket@,
{
    let found = slot_of(slots, slots[at].handle);
    assert(0 <= found < slots.len() && slots[found].handle == slots[at].handle);
    if found < at {
        assert(slots[found].handle != slots[at].handle);
    } else if at < found {
        assert(slots[at].handle != slots[found].handle);
    }
}

proof fn lemma_numbered_push<M>(slots: Seq<Slot<M>>, free: Seq<u64>, slot: Slot<M>)
    requires
        numbers_in_order(slots, free),
        !in_use(slots, slot.handle),
    ensures
        numbered(slots.push(slot)) == numbered(slots).insert(slot.handle, slot.ticket@),
{
    let grown = slots.push(slot);
    assert forall|handle: u64| #[trigger]
        numbered(grown).contains_key(handle) <==> numbered(slots).insert(
            slot.handle,
            slot.ticket@,
        ).contains_key(handle) by {
        if in_use(grown, handle) {
            let i = slot_of(grown, handle);
            if i < slots.len() {
                assert(slots[i].handle == handle);
            }
        }
        if in_use(slots, handle) {
            let i = slot_of(slots, handle);
            assert(grown[i].handle == handle);
        }
        if handle == slot.handle {
            assert(grown[slots.len() as int].handle == handle);
        }
    }
    assert forall|handle: u64| #[trigger] numbered(grown).contains_key(handle) implies numbered(
        grown,
    )[handle] == numbered(slots).insert(slot.handle, slot.ticket@)[handle] by {
        let i = slot_of(grown, handle);
        if i < slots.len() {
            assert(slots[i].handle == handle);
            lemma_numbered_at(slots, free, i);
        } else {
            assert(grown[i] == slot);
        }
    }
    assert(numbered(grown) =~= numbered(slots).insert(slot.handle, slot.ticket@));
}

proof fn lemma_numbered_remove<M>(slots: Seq<Slot<M>>, free: Seq<u64>, at: int)
    requires
        numbers_in_order(slots, free),
        0 <= at < slots.len(),
    ensures
        numbered(slots.remove(at)) == numbered(slots).remove(slots[at].handle),
        !in_use(slots.remove(at), slots[at].handle),
{
    let fewer = slots.remove(at);
    let gone = slots[at].handle;
    assert forall|i: int| 0 <= i < fewer.len() implies (#[trigger] fewer[i]).handle != gone by {
        let from = if i < at { i } else { i + 1 };
        assert(fewer[i] == slots[from]);
        if from < at {
            assert(slots[from].handle != slots[at].handle);
        } else {
            assert(slots[at].handle != slots[from].handle);
        }
    }
    assert forall|handle: u64| #[trigger]
        numbered(fewer).contains_key(handle) <==> numbered(slots).remove(gone).contains_key(
            handle,
        ) by {
        if in_use(fewer, handle) {
            let i = slot_of(fewer, handle);
            let from = if i < at { i } else { i + 1 };
            assert(fewer[i] == slots[from]);
            assert(slots[from].handle == handle);
        }
        if in_use(slots, handle) && handle != gone {
            let i = slot_of(slots, handle);
            let to = if i < at { i } else { i - 1 };
            assert(fewer[to] == slots[i]);
            assert(fewer[to].handle == handle);
        }
    }
    assert forall|handle: u64| #[trigger] numbered(fewer).contains_key(handle) implies numbered(
        fewer,
    )[handle] == numbered(slots).remove(gone)[handle] by {
        let i = slot_of(fewer, handle);
        let from = if i < at { i } else { i + 1 };
        assert(fewer[i] == slots[from]);
        lemma_numbered_at(slots, free, from);
    }
    assert(numbered(fewer) =~= numbered(slots).remove(gone));
}

impl<M: Message> Executor<M> {
    /// The engine's state: tokens, phase, tasks in flight, settled tickets.
    pub closed spec fn view(&self) -> EngineView<M> {
        EngineView {
            capacity: self.workers as nat,
            phase: self.phase,
            fault: self.fault,
            issued: self.issued@,
            running: entries(self.slots@),
            settled: self.ledger@,
        }
    }

    /// The topic that the engine works on.
    pub closed spec fn topic_view(&self) -> Seq<char> {
        self.topic@
    }

    /// The numbers that callers hold for the tasks in flight, each with the
    /// place of its task in the order of admission, by which the state of
    /// the pool knows the task. A number is free again once its task is
    /// finished, and may then be given to a later task; a place in the order
    /// of admission is never given again. So the engine never runs out of
    /// numbers, however long it runs.
    pub closed spec fn tickets(&self) -> Map<u64, nat> {
        numbered(self.slots@)
    }

    /// The engine's books are in order: its state is one that the invariant
    /// of the pool admits, its counters agree with the tasks in flight, and
    /// no number is held twice.
    #[verifier::type_invariant]
    spec fn wf(&self) -> bool {
        &&& self@.inv()
        &&& self.held == self@.pooled()
        &&& self.exclusive == self@.exclusive()
        &&& numbers_in_order(self.slots@, self.free@)
    }

    /// What `offer` answers and does to the numbers in use, for an engine
    /// that went from `before` to `after`.
    pub open spec fn answers(
        before: Self,
        after: Self,
        message: M,
        task: Task,
        admission: Admission<M>,
    ) -> bool {
        match admission {
            Admission::Inline { ticket, task: admitted } => {
                &&& before@.admits(task.execution_mode)
                &&& task.execution_mode is Exclusive
                &&& !before.tickets().contains_key(ticket)
                &&& after.tickets() == before.tickets().insert(ticket, before@.issued)
                &&& admitted == task
            },
            Admission::Pooled { ticket, task: admitted } => {
                &&& before@.admits(task.execution_mode)
                &&& task.execution_mode is Pooled
                &&& !before.tickets().contains_key(ticket)
                &&& after.tickets() == before.tickets().insert(ticket, before@.issued)
                &&& admitted == task
            },
            Admission::Deferred { message: returned, task: refused } => {
                &&& !before@.admits(task.execution_mode)
                &&& after.tickets() == before.tickets()
                &&& returned == message
                &&& refused == task
            },
            Admission::Malformed { .. } => false,
        }
    }

    /// An idle engine for `topic` with `cpus` admission tokens.
    pub fn new(cpus: usize, topic: String) -> (engine: Self)
        ensures
            engine@ == EngineView::<M>::init(cpus as nat),
            engine@.inv(),
            engine.tickets() == Map::<u64, nat>::empty(),
            engine.topic_view() == topic@,
    {
        let slots: Vec<Slot<M>> = Vec::new();
        assert(entries(slots@) =~= Seq::empty());
        assert(numbered(slots@) =~= Map::empty());
        Executor {
            topic,
            workers: cpus,
            phase: Phase::Idle,
            fault: None,
            issued: Ghost(0),
            slots,
            free: Vec::new(),
            held: 0,
            exclusive: 0,
            ledger: Ghost(Map::empty()),
        }
    }

    /// Hands the engine out as a value and leaves an idle one behind, so
    /// that the whole state can be replaced at once.
    fn take(&mut self) -> (taken: Self)
        ensures
            taken == *old(self),
            taken.wf(),
    {
        proof {
            use_type_invariant(&*self);
        }
        let mut taken = Self::new(0, String::new());
        std::mem::swap(self, &mut taken);
        taken
    }

    /// The topic has been bound: an idle engine starts running.
    pub fn start(&mut self)
        ensures
            final(self)@ == old(self)@.start(),
            final(self)@.inv(),
            final(self).tickets() == old(self).tickets(),
            final(self).topic_view() == old(self).topic_view(),
    {
        let taken = self.take();
        let Executor {
            topic,
            workers,
            phase,
            fault,
            issued,
            slots,
            free,
            held,
            exclusive,
            ledger,
        } = taken;
        let phase = match phase {
            Phase::Idle => Phase::Running,
            other => other,
        };
        *self = Executor {
            topic,
            workers,
            phase,
            fault,
            issued,
            slots,
            free,
            held,
            exclusive,
            ledger,
        };
    }

    /// A message has been pulled and decoded into `task`. An exclusive task
    /// is admitted wherever a message may be pulled; a pooled task also
    /// needs a free token, which it then holds until it is finished. An
    /// admitted task gets a number that no task in flight holds, under
    /// which its end is reported. A task that is not admitted comes back
    /// with its message, and nothing has changed.
    pub fn offer(&mut self, message: M, task: Task) -> (admission: Admission<M>)
        ensures
            final(self)@ == old(self)@.offer(task.execution_mode, message),
            final(self)@.inv(),
            final(self).topic_view() == old(self).topic_view(),
            Self::answers(*old(self), *final(self), message, task, admission),
    {
        proof {
            use_type_invariant(&*self);
        }
        let open = match self.phase {
            Phase::Running => self.exclusive == 0,
            _ => false,
        };
        let mode = task.execution_mode;
        let admitted = match mode {
            ExecutionMode::Exclusive => open,
            ExecutionMode::Pooled => open && self.held < self.workers,
        };
        if !admitted {
            return Admission::Deferred { message, task };
        }
        let ghost before = self@;
        let taken = self.take();
        let Executor {
            topic,
            workers,
            phase,
            fault,
            issued,
            slots,
            free,
            held,
            exclusive,
            ledger,
        } = taken;
        let mut slots = slots;
        let mut free = free;
        let ghost flying = slots@;
        let ghost waiting = free@;
        let ticket: u64 = match free.pop() {
            Some(number) => number,
            None => slots.len() as u64,
        };
        let slot = Slot { handle: ticket, ticket: Ghost(issued@), mode, message };
        proof {
            let entry = Entry { ticket: issued@, mode, message };
            crate::shared::engine::lemma_count_push(before.running, entry, ExecutionMode::Pooled);
            crate::shared::engine::lemma_count_push(
                before.running,
                entry,
                ExecutionMode::Exclusive,
            );
            before.lemma_step_inv(crate::shared::engine::Event::Offer { mode, message });
            if waiting.len() > 0 {
                assert(ticket == waiting[waiting.len() - 1]);
                assert(free@ =~= waiting.drop_last());
            }
            assert(!in_use(flying, ticket)) by {
                if in_use(flying, ticket) {
                    let i = slot_of(flying, ticket);
                    assert(flying[i].handle == ticket);
                    if waiting.len() > 0 {
                        assert(flying[i].handle != waiting[waiting.len() - 1]);
                    }
                }
            }
            lemma_numbered_push(flying, waiting, slot);
            assert(entries(flying.push(slot)) =~= before.running.push(entry));
            assert(numbers_in_order(flying.push(slot), free@)) by {
                let grown = flying.push(slot);
                assert forall|i: int| 0 <= i < grown.len() implies (#[trigger] grown[i]).handle
                    < grown.len() + free@.len() by {
                    if i < flying.len() {
                        assert(grown[i] == flying[i]);
                    }
                }
                assert forall|k: int| 0 <= k < free@.len() implies (#[trigger] free@[k])
                    < grown.len() + free@.len() by {
                    assert(free@[k] == waiting[k]);
                }
                assert forall|i: int, j: int| 0 <= i < j < grown.len() implies (
                #[trigger] grown[i]).handle != (#[trigger] grown[j]).handle by {
                    assert(grown[i] == flying[i]);
                    if j < flying.len() {
                        assert(grown[j] == flying[j]);
                    }
                }
                assert forall|k: int, l: int| 0 <= k < l < free@.len() implies (
                #[trigger] free@[k]) != (#[trigger] free@[l]) by {
                    assert(free@[k] == waiting[k]);
                    assert(free@[l] == waiting[l]);
                }
                assert forall|i: int, k: int|
                    0 <= i < grown.len() && 0 <= k < free@.len() implies (
                #[trigger] grown[i]).handle != (#[trigger] free@[k]) by {
                    assert(free@[k] == waiting[k]);
                    if i < flying.len() {
                        assert(grown[i] == flying[i]);
                    } else {
                        assert(waiting[k] != waiting[waiting.len() - 1]);
                    }
                }
            }
        }
        slots.push(slot);
        let (held, exclusive) = match mode {
            ExecutionMode::Pooled => (held + 1, exclusive),
            ExecutionMode::Exclusive => (held, exclusive + 1),
        };
        *self = Executor {
            topic,
            workers,
            phase,
            fault,
            issued: Ghost(issued@ + 1),
            slots,
            free,
            held,
            exclusive,
            ledger,
        };
        match mode {
            ExecutionMode::Exclusive => Admission::Inline { ticket, task },
            ExecutionMode::Pooled => Admission::Pooled { ticket, task },
        }
    }

    /// A message has been pulled, and its payload decoded into a task or
    /// found to be none. A task is offered as by `offer`. A payload that is
    /// not a task is fatal: the engine halts for that cause and hands the
    /// message back unsettled.
    pub fn receive(&mut self, message: M, decoded: Option<Task>) -> (admission: Admission<M>)
        ensures
            final(self)@.inv(),
            final(self).topic_view() == old(self).topic_view(),
            match decoded {
                Some(task) => {
                    &&& final(self)@ == old(self)@.offer(task.execution_mode, message)
                    &&& Self::answers(*old(self), *final(self), message, task, admission)
                },
                None => {
                    &&& final(self)@ == old(self)@.halt(ExecutorError::MalformedTask)
                    &&& final(self).tickets() == old(self).tickets()
                    &&& admission matches Admission::Malformed { message: returned }
                    &&& returned == message
                },
            },
    {
        match decoded {
            Some(task) => self.offer(message, task),
            None => {
                self.halt(ExecutorError::MalformedTask);
                Admission::Malformed { message }
            },
        }
    }

    /// The subprocess of the task that holds the number `ticket` is over.
    /// The engine settles the task's message, with an acknowledgment after
    /// exit code 0 and with a refusal that asks for redelivery after
    /// anything else, and takes the task out of flight, which frees its
    /// token if it held one, and its number. It does so whether or not the
    /// request to the bus went through. It asks once: the message has
    /// exactly this one request more on record, with the answer that is
    /// handed back as `delivered`. The settled message is handed back.
    /// A number that no task in flight holds gets nothing and changes
    /// nothing.
    pub fn finish(&mut self, ticket: u64, outcome: Outcome) -> (done: Option<Settled<M>>)
        ensures
            final(self)@.inv(),
            final(self).topic_view() == old(self).topic_view(),
            done is Some <==> old(self).tickets().contains_key(ticket),
            match done {
                Some(settled) => {
                    let place = old(self).tickets()[ticket];
                    let entry = old(self)@.running[old(self)@.position(place)];
                    &&& old(self)@.holds(place)
                    &&& final(self)@ == old(self)@.finish(place, outcome)
                    &&& final(self).tickets() == old(self).tickets().remove(ticket)
                    &&& settled.mode == entry.mode
                    &&& settled.resolution == crate::shared::engine::resolution_of(outcome)
                    &&& settled.message.payload() == entry.message.payload()
                    &&& settled.message.settlement() == settlement_after(
                        entry.message.settlement(),
                        settled.resolution,
                    )
                    &&& !(entry.message.settlement() is Pending) ==> settled.delivered is Err
                    &&& settled.message.requests() == entry.message.requests().push(
                        crate::shared::msgbus::bus::request_of(
                            asked_by(settled.resolution),
                            settled.delivered,
                        ),
                    )
                },
                None => {
                    &&& final(self)@ == old(self)@
                    &&& final(self).tickets() == old(self).tickets()
                },
            },
    {
        proof {
            use_type_invariant(&*self);
        }
        let ghost before = self@;
        let mut at: usize = 0;
        while at < self.slots.len() && self.slots[at].handle != ticket
            invariant
                at <= self.slots.len(),
                forall|i: int| 0 <= i < at ==> (#[trigger] self.slots@[i]).handle != ticket,
            decreases self.slots.len() - at,
        {
            at = at + 1;
        }
        if at >= self.slots.len() {
            proof {
                if in_use(self.slots@, ticket) {
                    let found = slot_of(self.slots@, ticket);
                    assert(self.slots@[found].handle == ticket);
                }
            }
            return None;
        }
        let ghost place = self.slots@[at as int].ticket@;
        proof {
            lemma_numbered_at(self.slots@, self.free@, at as int);
            assert(before.running[at as int].ticket == place);
            before.lemma_position(place, at as int);
            crate::shared::engine::lemma_count_remove(
                before.running,
                at as int,
                ExecutionMode::Pooled,
            );
            crate::shared::engine::lemma_count_remove(
                before.running,
                at as int,
                ExecutionMode::Exclusive,
            );
            before.lemma_step_inv(crate::shared::engine::Event::Finish { ticket: place, outcome });
        }
        let taken = self.take();
        let Executor {
            topic,
            workers,
            phase,
            fault,
            issued,
            slots,
            free,
            held,
            exclusive,
            ledger,
        } = taken;
        let mut slots = slots;
        let mut free = free;
        let ghost flying = slots@;
        let ghost waiting = free@;
        proof {
            lemma_numbered_remove(flying, waiting, at as int);
        }
        let slot = slots.remove(at);
        free.push(ticket);
        let mode = slot.mode;
        let mut message = slot.message;
        let resolution = resolve(outcome);
        let delivered = match resolution {
            Resolution::Ack => message.ack(),
            Resolution::Nack { requeue } => message.nack(requeue),
        };
        let (held, exclusive) = match mode {
            ExecutionMode::Pooled => (held - 1, exclusive),
            ExecutionMode::Exclusive => (held, exclusive - 1),
        };
        let phase = match phase {
            Phase::Draining => if slots.len() == 0 {
                Phase::Stopped
            } else {
                Phase::Draining
            },
            other => other,
        };
        proof {
            assert(entries(slots@) =~= before.running.remove(at as int));
            assert(numbers_in_order(slots@, free@)) by {
                let fewer = slots@;
                assert forall|i: int| 0 <= i < fewer.len() implies (#[trigger] fewer[i]).handle
                    < fewer.len() + free@.len() && fewer[i].handle != ticket by {
                    let from = if i < at { i } else { i + 1 };
                    assert(fewer[i] == flying[from]);
                    if from < at {
                        assert(flying[from].handle != flying[at as int].handle);
                    } else {
                        assert(flying[at as int].handle != flying[from].handle);
                    }
                }
                assert forall|k: int| 0 <= k < free@.len() implies (#[trigger] free@[k])
                    < fewer.len() + free@.len() by {
                    if k < waiting.len() {
                        assert(free@[k] == waiting[k]);
                    } else {
                        assert(free@[k] == flying[at as int].handle);
                    }
                }
                assert forall|i: int, j: int| 0 <= i < j < fewer.len() implies (
                #[trigger] fewer[i]).handle != (#[trigger] fewer[j]).handle by {
                    let from_i = if i < at { i } else { i + 1 };
                    let from_j = if j < at { j } else { j + 1 };
                    assert(fewer[i] == flying[from_i]);
                    assert(fewer[j] == flying[from_j]);
                }
                assert forall|k: int, l: int| 0 <= k < l < free@.len() implies (
                #[trigger] free@[k]) != (#[trigger] free@[l]) by {
                    assert(free@[k] == waiting[k]);
                    if l < waiting.len() {
                        assert(free@[l] == waiting[l]);
                    } else {
                        assert(flying[at as int].handle != waiting[k]);
                    }
                }
                assert forall|i: int, k: int|
                    0 <= i < fewer.len() && 0 <= k < free@.len() implies (
                #[trigger] fewer[i]).handle != (#[trigger] free@[k]) by {
                    let from = if i < at { i } else { i + 1 };
                    assert(fewer[i] == flying[from]);
                    if k < waiting.len() {
                        assert(free@[k] == waiting[k]);
                        assert(flying[from].handle != waiting[k]);
                    }
                }
            }
        }
        *self = Executor {
            topic,
            workers,
            phase,
            fault,
            issued,
            slots,
            free,
            held,
            exclusive,
            ledger: Ghost(ledger@.insert(place, resolution)),
        };
        Some(Settled { message, mode, resolution, delivered })
    }

    pub fn phase(&self) -> (phase: Phase)
        ensures
            phase == self@.phase,
    {
        self.phase
    }

    /// Why the engine takes no further task, once that is so.
    pub fn fault(&self) -> (fault: Option<ExecutorError>)
        ensures
            fault == self@.fault,
    {
        self.fault
    }

    /// The number of admission tokens.
    pub fn workers(&self) -> (workers: usize)
        ensures
            workers == self@.capacity,
    {
        self.workers
    }

    /// The number of free tokens.
    pub fn available(&self) -> (free: usize)
        ensures
            free == self@.available(),
            self@.inv(),
    {
        proof {
            use_type_invariant(self);
        }
        self.workers - self.held
    }

    /// The number of tasks in flight, pooled and exclusive.
    pub fn in_flight(&self) -> (tasks: usize)
        ensures
            tasks == self@.running.len(),
    {
        self.slots.len()
    }

    /// Whether the control thread may pull the next message.
    pub fn may_pull(&self) -> (open: bool)
        ensures
            open == self@.may_pull(),
            self@.inv(),
    {
        proof {
            use_type_invariant(self);
        }
        match self.phase {
            Phase::Running => self.exclusive == 0,
            _ => false,
        }
    }

    pub fn topic(&self) -> (topic: String)
        ensures
            topic@ == self.topic_view(),
    {
        self.topic.clone()
    }

    /// The sequence of messages has ended, or a fatal error has occurred:
    /// the engine takes no further task. It has stopped if nothing is in
    /// flight, and drains otherwise. Only the first cause is kept.
    pub fn halt(&mut self, cause: ExecutorError)
        ensures
            final(self)@ == old(self)@.halt(cause),
            final(self)@.inv(),
            final(self).tickets() == old(self).tickets(),
            final(self).topic_view() == old(self).topic_view(),
    {
        let taken = self.take();
        let Executor {
            topic,
            workers,
            phase,
            fault,
            issued,
            slots,
            free,
            held,
            exclusive,
            ledger,
        } = taken;
        let (phase, fault) = match phase {
            Phase::Idle | Phase::Running => (
                if slots.len() == 0 {
                    Phase::Stopped
                } else {
                    Phase::Draining
                },
                Some(cause),
            ),
            other => (other, fault),
        };
        *self = Executor {
            topic,
            workers,
            phase,
            fault,
            issued,
            slots,
            free,
            held,
            exclusive,
            ledger,
        };
    }
}

} // verus!
