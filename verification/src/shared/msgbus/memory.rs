//! A bus that lives in memory: named queues that hand out their payloads in
//! the order in which they came. It stands in for a broker where none is at
//! hand, and follows the same rules: queues are made by whoever touches
//! them first, a message is settled once, and a queue is deleted on close
//! only if it is empty and nobody else consumes it.

use crate::shared::msgbus::bus::{
    request_of, Attempt, BusError, Closer, Consumer, Message, Publisher, Request, Settlement,
};
use vstd::prelude::*;
use vstd::string::StringExecFns;

verus! {

/// A message that an in-memory bus delivered.
pub struct MemoryMessage {
    topic: String,
    body: String,
    state: Settlement,
    asked: Ghost<Seq<Request>>,
}

impl MemoryMessage {
    /// The topic that the message was delivered from.
    pub closed spec fn origin(&self) -> Seq<char> {
        self.topic@
    }

    pub fn topic(&self) -> (topic: String)
        ensures
            topic@ == self.origin(),
    {
        self.topic.clone()
    }

    /// What has been asked of the message so far.
    pub fn state(&self) -> (state: Settlement)
        ensures
            state == self.settlement(),
    {
        self.state
    }
}

impl Message for MemoryMessage {
    closed spec fn requests(&self) -> Seq<Request> {
        self.asked@
    }

    closed spec fn payload(&self) -> Seq<char> {
        self.body@
    }

    closed spec fn settlement(&self) -> Settlement {
        self.state
    }

    fn ack(&mut self) -> (done: Result<(), BusError>)
        ensures
            final(self).origin() == old(self).origin(),
            old(self).settlement() is Pending <==> done is Ok,
    {
        let done = match self.state {
            Settlement::Pending => {
                self.state = Settlement::Acked;
                Ok(())
            },
            _ => Err(BusError { reason: String::from_str("The message is settled already") }),
        };
        proof {
            self.asked@ = self.asked@.push(request_of(Settlement::Acked, done));
        }
        done
    }

    fn nack(&mut self, requeue: bool) -> (done: Result<(), BusError>)
        ensures
            final(self).origin() == old(self).origin(),
            old(self).settlement() is Pending <==> done is Ok,
    {
        let done = match self.state {
            Settlement::Pending => {
                self.state = Settlement::Nacked { requeue };
                Ok(())
            },
            _ => Err(BusError { reason: String::from_str("The message is settled already") }),
        };
        proof {
            self.asked@ = self.asked@.push(request_of(Settlement::Nacked { requeue }, done));
        }
        done
    }

    fn body(&self) -> (payload: String) {
        self.body.clone()
    }
}

struct Queue {
    name: String,
    ready: Vec<String>,
    consumers: usize,
}

/// A queue in contracts.
pub struct QueueView {
    /// The payloads that wait for delivery, oldest first.
    pub ready: Seq<Seq<char>>,
    /// The number of consumers that are bound to the queue.
    pub consumers: nat,
}

/// An in-memory bus in contracts.
pub struct MemoryBusView {
    /// The queues that exist, by name.
    pub queues: Map<Seq<char>, QueueView>,
    /// The queue that this bus consumes, if it consumes one.
    pub bound: Option<Seq<char>>,
    /// Every publication so far, as topic and payload, oldest first.
    pub confirmed: Seq<(Seq<char>, Seq<char>)>,
}


/// The queues once the queue `topic` exists: a missing queue is made, empty
/// and without consumers; an existing one stays as it is.
pub open spec fn declare_queue(
    queues: Map<Seq<char>, QueueView>,
    topic: Seq<char>,
) -> Map<Seq<char>, QueueView> {
    if queues.contains_key(topic) {
        queues
    } else {
        queues.insert(topic, QueueView { ready: Seq::empty(), consumers: 0 })
    }
}

/// The queues with `payload` at the back of the queue `topic`.
pub open spec fn enqueue(
    queues: Map<Seq<char>, QueueView>,
    topic: Seq<char>,
    payload: Seq<char>,
) -> Map<Seq<char>, QueueView> {
    let made = declare_queue(queues, topic);
    made.insert(topic, QueueView { ready: made[topic].ready.push(payload), ..made[topic] })
}

/// The queues with one consumer more on the queue `topic`.
pub open spec fn add_consumer(
    queues: Map<Seq<char>, QueueView>,
    topic: Seq<char>,
) -> Map<Seq<char>, QueueView> {
    let made = declare_queue(queues, topic);
    made.insert(topic, QueueView { consumers: made[topic].consumers + 1, ..made[topic] })
}

/// The queues with one consumer less on the queue `topic`, if it exists and
/// has one.
pub open spec fn drop_consumer(
    queues: Map<Seq<char>, QueueView>,
    topic: Seq<char>,
) -> Map<Seq<char>, QueueView> {
    if queues.contains_key(topic) && queues[topic].consumers > 0 {
        queues.insert(
            topic,
            QueueView { consumers: (queues[topic].consumers - 1) as nat, ..queues[topic] },
        )
    } else {
        queues
    }
}

/// The oldest payload of the queue `topic`, if the queue exists and holds
/// one.
pub open spec fn oldest(queues: Map<Seq<char>, QueueView>, topic: Seq<char>) -> Option<Seq<char>> {
    if queues.contains_key(topic) && queues[topic].ready.len() > 0 {
        Some(queues[topic].ready[0])
    } else {
        None
    }
}

/// The queues after the oldest payload of the queue `topic` has left.
pub open spec fn dequeue(
    queues: Map<Seq<char>, QueueView>,
    topic: Seq<char>,
) -> Map<Seq<char>, QueueView> {
    if queues.contains_key(topic) && queues[topic].ready.len() > 0 {
        queues.insert(
            topic,
            QueueView { ready: queues[topic].ready.drop_first(), ..queues[topic] },
        )
    } else {
        queues
    }
}

/// Deleting the queue `topic` on condition that it is empty and has no
/// consumer: a queue that holds a message or has a consumer stays.
pub open spec fn delete_if_idle(
    queues: Map<Seq<char>, QueueView>,
    topic: Seq<char>,
) -> Map<Seq<char>, QueueView> {
    if queues.contains_key(topic) && queues[topic].ready.len() == 0 && queues[topic].consumers
        == 0 {
        queues.remove(topic)
    } else {
        queues
    }
}

impl MemoryBusView {
    /// A bus without queues.
    pub open spec fn empty() -> Self {
        MemoryBusView { queues: Map::empty(), bound: None, confirmed: Seq::empty() }
    }

    /// A publication puts the payload at the back of its queue, which is
    /// made if it is missing, and is confirmed.
    pub open spec fn published(self, topic: Seq<char>, payload: Seq<char>) -> Self {
        MemoryBusView {
            queues: enqueue(self.queues, topic, payload),
            confirmed: self.confirmed.push((topic, payload)),
            ..self
        }
    }

    /// Whether the queue `topic` can count one more consumer.
    pub open spec fn has_room(self, topic: Seq<char>) -> bool {
        self.queues.contains_key(topic) ==> self.queues[topic].consumers < usize::MAX
    }

    /// The bus with one consumer more on the queue `topic`, which is made
    /// if it is missing.
    pub open spec fn joined(self, topic: Seq<char>) -> Self {
        MemoryBusView { queues: add_consumer(self.queues, topic), ..self }
    }

    /// The bus after it has let go of the queue that it consumes: that
    /// queue has one consumer less.
    pub open spec fn released(self) -> Self {
        match self.bound {
            Some(topic) => MemoryBusView {
                queues: drop_consumer(self.queues, topic),
                bound: None,
                ..self
            },
            None => self,
        }
    }

    /// Consuming `topic` lets go of what was consumed before and binds the
    /// bus to the queue `topic` as one more consumer.
    pub open spec fn consumed(self, topic: Seq<char>) -> Self {
        MemoryBusView { bound: Some(topic), ..self.released().joined(topic) }
    }

    /// The payload that is delivered next: the oldest of the consumed queue.
    pub open spec fn next(self) -> Option<Seq<char>> {
        match self.bound {
            Some(topic) => oldest(self.queues, topic),
            None => None,
        }
    }

    /// The bus after the next delivery, which leaves its queue.
    pub open spec fn delivered(self) -> Self {
        match self.bound {
            Some(topic) => MemoryBusView { queues: dequeue(self.queues, topic), ..self },
            None => self,
        }
    }

    /// Closing lets go of the consumed queue and then deletes it on
    /// condition that it is empty and has no consumer left. A bus that
    /// consumes nothing stays as it is.
    pub open spec fn closed(self) -> Self {
        match self.bound {
            Some(topic) => MemoryBusView {
                queues: delete_if_idle(drop_consumer(self.queues, topic), topic),
                bound: None,
                ..self
            },
            None => self,
        }
    }

    /// A settled message that asks for redelivery goes to the back of the
    /// queue that it came from; any other message is gone.
    pub open spec fn returned(
        self,
        origin: Seq<char>,
        payload: Seq<char>,
        state: Settlement,
    ) -> Self {
        if state == (Settlement::Nacked { requeue: true }) {
            MemoryBusView { queues: enqueue(self.queues, origin, payload), ..self }
        } else {
            self
        }
    }
}

/// Closing never deletes a queue that holds a message or that another
/// consumer is bound to: such a queue is there after the close, with the
/// messages it held. A queue that is empty and has no other consumer is
/// deleted. No other queue is touched, and closing again changes nothing.
pub proof fn lemma_close_spares_busy_queue(bus: MemoryBusView, topic: Seq<char>)
    requires
        bus.bound == Some(topic),
        bus.queues.contains_key(topic),
    ensures
        bus.queues[topic].ready.len() > 0 || bus.queues[topic].consumers > 1 ==> {
            &&& bus.closed().queues.contains_key(topic)
            &&& bus.closed().queues[topic].ready == bus.queues[topic].ready
        },
        bus.queues[topic].ready.len() == 0 && bus.queues[topic].consumers <= 1
            ==> !bus.closed().queues.contains_key(topic),
        forall|other: Seq<char>|
            other != topic ==> (bus.closed().queues.contains_key(other)
                <==> bus.queues.contains_key(other)) && (bus.queues.contains_key(other)
                ==> #[trigger] bus.closed().queues[other] == bus.queues[other]),
        bus.closed().bound is None,
        bus.closed().closed() == bus.closed(),
{
}

/// A queue as contracts see it.
spec fn queue_view(queue: Queue) -> QueueView {
    QueueView {
        ready: crate::shared::text::texts(queue.ready@),
        consumers: queue.consumers as nat,
    }
}

/// No two queues have one name.
spec fn unique(queues: Seq<Queue>) -> bool {
    forall|i: int, j: int|
        0 <= i < j < queues.len() ==> (#[trigger] queues[i]).name@ != (#[trigger] queues[j]).name@
}

/// Whether a queue of this name is among `queues`.
spec fn listed(queues: Seq<Queue>, name: Seq<char>) -> bool {
    exists|i: int| 0 <= i < queues.len() && (#[trigger] queues[i]).name@ == name
}

/// Where the queue of this name stands.
spec fn place(queues: Seq<Queue>, name: Seq<char>) -> int {
    choose|i: int| 0 <= i < queues.len() && (#[trigger] queues[i]).name@ == name
}

/// The queues by name.
spec fn table(queues: Seq<Queue>) -> Map<Seq<char>, QueueView> {
    Map::new(
        |name: Seq<char>| listed(queues, name),
        |name: Seq<char>| queue_view(queues[place(queues, name)]),
    )
}

proof fn lemma_table_at(queues: Seq<Queue>, at: int)
    requires
        unique(queues),
        0 <= at < queues.len(),
    ensures
        listed(queues, queues[at].name@),
        place(queues, queues[at].name@) == at,
        table(queues).contains_key(queues[at].name@),
        table(queues)[queues[at].name@] == queue_view(queues[at]),
{
    let name = queues[at].name@;
    let found = place(queues, name);
    assert(0 <= found < queues.len() && queues[found].name@ == name);
    if found < at {
        assert(queues[found].name@ != queues[at].name@);
    } else if at < found {
        assert(queues[at].name@ != queues[found].name@);
    }
}

proof fn lemma_table_push(queues: Seq<Queue>, queue: Queue)
    requires
        unique(queues),
        !listed(queues, queue.name@),
    ensures
        unique(queues.push(queue)),
        table(queues.push(queue)) == table(queues).insert(queue.name@, queue_view(queue)),
{
    let grown = queues.push(queue);
    assert forall|i: int, j: int| 0 <= i < j < grown.len() implies (#[trigger] grown[i]).name@ != (
    #[trigger] grown[j]).name@ by {
        if j == queues.len() {
            assert(queues[i].name@ != queue.name@);
        } else {
            assert(queues[i].name@ != queues[j].name@);
        }
    }
    assert forall|name: Seq<char>| #[trigger]
        table(grown).contains_key(name) <==> table(queues).insert(
            queue.name@,
            queue_view(queue),
        ).contains_key(name) by {
        if listed(grown, name) {
            let i = place(grown, name);
            if i < queues.len() {
                assert(queues[i].name@ == name);
            }
        }
        if listed(queues, name) {
            let i = place(queues, name);
            assert(grown[i].name@ == name);
        }
        if name == queue.name@ {
            assert(grown[queues.len() as int].name@ == name);
        }
    }
    assert forall|name: Seq<char>| #[trigger] table(grown).contains_key(name) implies table(
        grown,
    )[name] == table(queues).insert(queue.name@, queue_view(queue))[name] by {
        let i = place(grown, name);
        lemma_table_at(grown, i);
        if i < queues.len() {
            lemma_table_at(queues, i);
        }
    }
    assert(table(grown) =~= table(queues).insert(queue.name@, queue_view(queue)));
}

proof fn lemma_table_update(queues: Seq<Queue>, at: int, queue: Queue)
    requires
        unique(queues),
        0 <= at < queues.len(),
        queue.name@ == queues[at].name@,
    ensures
        unique(queues.update(at, queue)),
        table(queues.update(at, queue)) == table(queues).insert(queue.name@, queue_view(queue)),
{
    let changed = queues.update(at, queue);
    assert forall|i: int, j: int| 0 <= i < j < changed.len() implies (
    #[trigger] changed[i]).name@ != (#[trigger] changed[j]).name@ by {
        assert(queues[i].name@ != queues[j].name@);
    }
    assert forall|name: Seq<char>| #[trigger]
        table(changed).contains_key(name) <==> table(queues).insert(
            queue.name@,
            queue_view(queue),
        ).contains_key(name) by {
        if listed(changed, name) {
            let i = place(changed, name);
            assert(queues[i].name@ == name);
        }
        if listed(queues, name) {
            let i = place(queues, name);
            assert(changed[i].name@ == name);
        }
        if name == queue.name@ {
            assert(changed[at].name@ == name);
        }
    }
    assert forall|name: Seq<char>| #[trigger] table(changed).contains_key(name) implies table(
        changed,
    )[name] == table(queues).insert(queue.name@, queue_view(queue))[name] by {
        let i = place(changed, name);
        lemma_table_at(changed, i);
        if i != at {
            assert(queues[i].name@ == name);
            lemma_table_at(queues, i);
        }
    }
    assert(table(changed) =~= table(queues).insert(queue.name@, queue_view(queue)));
}

proof fn lemma_table_remove(queues: Seq<Queue>, at: int)
    requires
        unique(queues),
        0 <= at < queues.len(),
    ensures
        unique(queues.remove(at)),
        table(queues.remove(at)) == table(queues).remove(queues[at].name@),
{
    let fewer = queues.remove(at);
    let gone = queues[at].name@;
    assert forall|i: int, j: int| 0 <= i < j < fewer.len() implies (#[trigger] fewer[i]).name@ != (
    #[trigger] fewer[j]).name@ by {
        let from_i = if i < at { i } else { i + 1 };
        let from_j = if j < at { j } else { j + 1 };
        assert(queues[from_i].name@ != queues[from_j].name@);
    }
    assert forall|name: Seq<char>| #[trigger]
        table(fewer).contains_key(name) <==> table(queues).remove(gone).contains_key(name) by {
        if listed(fewer, name) {
            let i = place(fewer, name);
            let from = if i < at { i } else { i + 1 };
            assert(queues[from].name@ == name);
            if from < at {
                assert(queues[from].name@ != queues[at].name@);
            } else {
                assert(queues[at].name@ != queues[from].name@);
            }
        }
        if listed(queues, name) && name != gone {
            let i = place(queues, name);
            let to = if i < at { i } else { i - 1 };
            assert(fewer[to].name@ == name);
        }
    }
    assert forall|name: Seq<char>| #[trigger] table(fewer).contains_key(name) implies table(
        fewer,
    )[name] == table(queues).remove(gone)[name] by {
        let i = place(fewer, name);
        lemma_table_at(fewer, i);
        let from = if i < at { i } else { i + 1 };
        assert(queues[from].name@ == name);
        lemma_table_at(queues, from);
    }
    assert(table(fewer) =~= table(queues).remove(gone));
}

fn find(queues: &Vec<Queue>, name: &String) -> (at: Option<usize>)
    requires
        unique(queues@),
    ensures
        match at {
            Some(i) => i < queues@.len() && queues@[i as int].name@ == name@ && table(
                queues@,
            )[name@] == queue_view(queues@[i as int]),
            None => !listed(queues@, name@),
        },
        at is Some <==> table(queues@).contains_key(name@),
{
    let mut i: usize = 0;
    while i < queues.len()
        invariant
            unique(queues@),
            i <= queues@.len(),
            forall|j: int| 0 <= j < i ==> (#[trigger] queues@[j]).name@ != name@,
        decreases queues.len() - i,
    {
        if queues[i].name == *name {
            proof {
                lemma_table_at(queues@, i as int);
            }
            return Some(i);
        }
        i = i + 1;
    }
    None
}

/// Makes sure that the queue `topic` exists and says where it stands.
fn declare(queues: &mut Vec<Queue>, topic: &String) -> (at: usize)
    requires
        unique(old(queues)@),
    ensures
        unique(final(queues)@),
        table(final(queues)@) == declare_queue(table(old(queues)@), topic@),
        at < final(queues)@.len(),
        final(queues)@[at as int].name@ == topic@,
{
    match find(queues, topic) {
        Some(at) => at,
        None => {
            let queue = Queue { name: topic.clone(), ready: Vec::new(), consumers: 0 };
            proof {
                lemma_table_push(queues@, queue);
                assert(queue_view(queue).ready =~= Seq::empty());
            }
            queues.push(queue);
            queues.len() - 1
        },
    }
}

/// Takes the queue at `at` out, to be put back by `put_back`.
fn take_out(queues: &mut Vec<Queue>, at: usize) -> (queue: Queue)
    requires
        at < old(queues)@.len(),
    ensures
        queue == old(queues)@[at as int],
        final(queues)@ == old(queues)@.remove(at as int),
{
    queues.remove(at)
}

/// Puts a changed queue back where the one of its name stood.
fn put_back(queues: &mut Vec<Queue>, at: usize, queue: Queue, Ghost(before): Ghost<Seq<Queue>>)
    requires
        unique(before),
        at < before.len(),
        before[at as int].name@ == queue.name@,
        old(queues)@ == before.remove(at as int),
    ensures
        unique(final(queues)@),
        table(final(queues)@) == table(before).insert(queue.name@, queue_view(queue)),
{
    proof {
        lemma_table_update(before, at as int, queue);
    }
    queues.insert(at, queue);
    assert(queues@ =~= before.update(at as int, queue));
}

/// Puts `payload` at the back of the queue `topic`.
fn put(queues: &mut Vec<Queue>, topic: &String, payload: String)
    requires
        unique(old(queues)@),
    ensures
        unique(final(queues)@),
        table(final(queues)@) == enqueue(table(old(queues)@), topic@, payload@),
{
    let at = declare(queues, topic);
    let ghost made = queues@;
    proof {
        lemma_table_at(made, at as int);
    }
    let mut queue = take_out(queues, at);
    queue.ready.push(payload);
    assert(queue_view(queue).ready =~= queue_view(made[at as int]).ready.push(payload@));
    put_back(queues, at, queue, Ghost(made));
}

/// Counts one more consumer on the queue `topic`, which must have room.
fn enroll(queues: &mut Vec<Queue>, topic: &String)
    requires
        unique(old(queues)@),
        table(old(queues)@).contains_key(topic@) ==> table(old(queues)@)[topic@].consumers
            < usize::MAX,
    ensures
        unique(final(queues)@),
        table(final(queues)@) == add_consumer(table(old(queues)@), topic@),
{
    let at = declare(queues, topic);
    let ghost made = queues@;
    proof {
        lemma_table_at(made, at as int);
    }
    let mut queue = take_out(queues, at);
    queue.consumers = queue.consumers + 1;
    put_back(queues, at, queue, Ghost(made));
}

/// Counts one consumer less on the queue `topic`, if it exists and has one.
fn leave(queues: &mut Vec<Queue>, topic: &String)
    requires
        unique(old(queues)@),
    ensures
        unique(final(queues)@),
        table(final(queues)@) == drop_consumer(table(old(queues)@), topic@),
{
    match find(queues, topic) {
        Some(at) => {
            if queues[at].consumers > 0 {
                let ghost listed = queues@;
                let mut queue = take_out(queues, at);
                queue.consumers = queue.consumers - 1;
                put_back(queues, at, queue, Ghost(listed));
            }
        },
        None => {},
    }
}

/// Takes the oldest payload of the queue `topic`, if there is one.
fn take_oldest(queues: &mut Vec<Queue>, topic: &String) -> (payload: Option<String>)
    requires
        unique(old(queues)@),
    ensures
        unique(final(queues)@),
        crate::shared::text::option_text(payload) == oldest(table(old(queues)@), topic@),
        table(final(queues)@) == dequeue(table(old(queues)@), topic@),
{
    match find(queues, topic) {
        Some(at) => {
            if queues[at].ready.len() > 0 {
                let ghost listed = queues@;
                let mut queue = take_out(queues, at);
                let payload = queue.ready.remove(0);
                assert(queue_view(queue).ready =~= queue_view(listed[at as int]).ready.drop_first());
                put_back(queues, at, queue, Ghost(listed));
                Some(payload)
            } else {
                None
            }
        },
        None => None,
    }
}

/// Deletes the queue `topic` if it is empty and has no consumer.
fn delete_idle(queues: &mut Vec<Queue>, topic: &String)
    requires
        unique(old(queues)@),
    ensures
        unique(final(queues)@),
        table(final(queues)@) == delete_if_idle(table(old(queues)@), topic@),
{
    match find(queues, topic) {
        Some(at) => {
            if queues[at].ready.len() == 0 && queues[at].consumers == 0 {
                proof {
                    lemma_table_remove(queues@, at as int);
                }
                let _ = take_out(queues, at);
            }
        },
        None => {},
    }
}

/// A bus in memory.
pub struct MemoryBus {
    queues: Vec<Queue>,
    bound: Option<String>,
    log: Ghost<Seq<(Seq<char>, Seq<char>)>>,
}

impl MemoryBus {
    /// No two queues of the bus have one name.
    #[verifier::type_invariant]
    spec fn wf(&self) -> bool {
        unique(self.queues@)
    }

    /// The queues, the binding and the publications so far.
    pub closed spec fn view(&self) -> MemoryBusView {
        MemoryBusView {
            queues: table(self.queues@),
            bound: crate::shared::text::option_text(self.bound),
            confirmed: self.log@,
        }
    }

    /// A bus without queues.
    pub fn new() -> (bus: Self)
        ensures
            bus@ == MemoryBusView::empty(),
    {
        let bus = MemoryBus { queues: Vec::new(), bound: None, log: Ghost(Seq::empty()) };
        assert(bus@.queues =~= Map::empty());
        bus
    }

    /// Hands the queues out, leaving none behind, so that they can be
    /// changed and put back.
    fn lend(&mut self) -> (queues: Vec<Queue>)
        ensures
            unique(queues@),
            queues@ == old(self).queues@,
            final(self).bound == old(self).bound,
            final(self).log == old(self).log,
    {
        proof {
            use_type_invariant(&*self);
        }
        let mut queues: Vec<Queue> = Vec::new();
        std::mem::swap(&mut self.queues, &mut queues);
        queues
    }

    /// Binds one more consumer to the queue `topic`, which is made if it is
    /// missing, as a second worker on the same topic would. Nothing changes
    /// where the queue cannot count another consumer.
    pub fn join(&mut self, topic: String) -> (joined: bool)
        ensures
            joined <==> old(self)@.has_room(topic@),
            final(self)@ == if joined {
                old(self)@.joined(topic@)
            } else {
                old(self)@
            },
    {
        let mut queues = self.lend();
        let room = match find(&queues, &topic) {
            Some(at) => queues[at].consumers < usize::MAX,
            None => true,
        };
        if room {
            enroll(&mut queues, &topic);
        }
        self.queues = queues;
        room
    }

    /// Takes back a message that was delivered from this bus and has been
    /// settled since. One that asks for redelivery goes to the back of its
    /// queue, to be delivered again; any other is gone.
    pub fn take_back(&mut self, message: MemoryMessage)
        ensures
            final(self)@ == old(self)@.returned(
                message.origin(),
                message.payload(),
                message.settlement(),
            ),
    {
        match message.state {
            Settlement::Nacked { requeue } => {
                if requeue {
                    let mut queues = self.lend();
                    put(&mut queues, &message.topic, message.body);
                    self.queues = queues;
                }
            },
            _ => {},
        }
    }

    /// The number of payloads that wait in the queue `topic`, or nothing
    /// where no such queue exists.
    pub fn waiting(&self, topic: String) -> (count: Option<usize>)
        ensures
            match count {
                Some(n) => self@.queues.contains_key(topic@) && n
                    == self@.queues[topic@].ready.len(),
                None => !self@.queues.contains_key(topic@),
            },
    {
        proof {
            use_type_invariant(self);
        }
        match find(&self.queues, &topic) {
            Some(at) => Some(self.queues[at].ready.len()),
            None => None,
        }
    }
}

/// The record of publications that all succeeded.
pub open spec fn all_confirmed(log: Seq<(Seq<char>, Seq<char>)>) -> Seq<Attempt> {
    Seq::new(
        log.len(),
        |i: int| Attempt { topic: log[i].0, payload: log[i].1, refusal: None },
    )
}

impl Publisher for MemoryBus {
    /// Every publication succeeded, so the record is that of the confirmed
    /// publications.
    open spec fn attempts(&self) -> Seq<Attempt> {
        all_confirmed(self.confirmed())
    }

    open spec fn confirmed(&self) -> Seq<(Seq<char>, Seq<char>)> {
        self@.confirmed
    }

    /// Puts `msg` at the back of the queue `topic`, which is made if it is
    /// missing. This never fails.
    fn publish(&mut self, topic: String, msg: String) -> (sent: Result<(), BusError>)
        ensures
            sent is Ok,
            final(self)@ == old(self)@.published(topic@, msg@),
    {
        let mut queues = self.lend();
        put(&mut queues, &topic, msg);
        self.queues = queues;
        let ghost before = self.log@;
        proof {
            self.log@ = self.log@.push((topic@, msg@));
        }
        let sent = Ok(());
        assert(all_confirmed(self.log@) =~= all_confirmed(before).push(
            crate::shared::msgbus::bus::attempt_of(topic@, msg@, sent),
        ));
        sent
    }
}

impl Consumer for MemoryBus {
    type Delivery = MemoryMessage;

    open spec fn bound(&self) -> Option<Seq<char>> {
        self@.bound
    }

    /// Lets go of the queue consumed so far and binds the bus to the queue
    /// `topic`, which is made if it is missing. It fails, and changes
    /// nothing, only where that queue cannot count another consumer.
    fn consume(&mut self, topic: String) -> (opened: Result<(), BusError>)
        ensures
            opened is Ok <==> old(self)@.released().has_room(topic@),
            final(self)@ == if opened is Ok {
                old(self)@.consumed(topic@)
            } else {
                old(self)@
            },
    {
        let mut queues = self.lend();
        let ghost listed = queues@;
        let held = match &self.bound {
            Some(name) => Some(name.clone()),
            None => None,
        };
        let room = match find(&queues, &topic) {
            Some(at) => {
                let same = match &held {
                    Some(name) => *name == topic,
                    None => false,
                };
                queues[at].consumers < usize::MAX || (same && queues[at].consumers > 0)
            },
            None => true,
        };
        if room {
            match &held {
                Some(name) => leave(&mut queues, name),
                None => {},
            }
            enroll(&mut queues, &topic);
            self.queues = queues;
            self.bound = Some(topic);
            Ok(())
        } else {
            self.queues = queues;
            Err(BusError { reason: String::from_str("The queue has too many consumers") })
        }
    }

    /// The oldest payload of the consumed queue as an unsettled message, or
    /// nothing where the queue holds none or no queue is consumed.
    fn next_message(&mut self) -> (next: Option<MemoryMessage>)
        ensures
            final(self)@ == old(self)@.delivered(),
            match next {
                Some(message) => old(self)@.next() == Some(message.payload())
                    && old(self)@.bound == Some(message.origin()) && message.requests()
                    == Seq::<Request>::empty(),
                None => old(self)@.next() is None,
            },
    {
        let held = match &self.bound {
            Some(name) => Some(name.clone()),
            None => None,
        };
        match held {
            Some(topic) => {
                let mut queues = self.lend();
                let payload = take_oldest(&mut queues, &topic);
                self.queues = queues;
                match payload {
                    Some(body) => Some(
                        MemoryMessage {
                            topic,
                            body,
                            state: Settlement::Pending,
                            asked: Ghost(Seq::empty()),
                        },
                    ),
                    None => None,
                }
            },
            None => None,
        }
    }
}

impl Closer for MemoryBus {
    open spec fn consuming(&self) -> Option<Seq<char>> {
        self@.bound
    }

    /// Lets go of the consumed queue and deletes it if it is then empty and
    /// without consumers. This never fails, and does nothing where no queue
    /// is consumed.
    fn close(&mut self) -> (closed: Result<(), BusError>)
        ensures
            closed is Ok,
            final(self)@ == old(self)@.closed(),
    {
        let held = match &self.bound {
            Some(name) => Some(name.clone()),
            None => None,
        };
        match held {
            Some(topic) => {
                let mut queues = self.lend();
                leave(&mut queues, &topic);
                delete_idle(&mut queues, &topic);
                self.queues = queues;
                self.bound = None;
            },
            None => {},
        }
        Ok(())
    }
}

} // verus!
