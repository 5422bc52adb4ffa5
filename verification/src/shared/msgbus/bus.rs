//! What a message bus offers, whatever carries the messages: publishing to a
//! topic, consuming a topic message by message, settling each message once,
//! and giving up what consuming took hold of.
//!
//! The contracts of the four traits speak through spec functions that an
//! implementation defines. Only an implementation inside the verified
//! library can define them and is held to the contracts. For one written
//! outside, such as a driver that talks to a broker, the spec functions
//! keep their unspecified defaults, and what is proved through the trait
//! says nothing of it.

use vstd::prelude::*;

verus! {

/// Why a bus operation failed, in words for an operator.
#[derive(Debug)]
pub struct BusError {
    pub reason: String,
}

/// What has been asked of a message so far.
#[derive(Clone, Copy, Debug, PartialEq, Eq, Structural)]
pub enum Settlement {
    /// Neither acknowledged nor refused yet.
    Pending,
    /// Acknowledged: the work is done and the message may go.
    Acked,
    /// Refused, with the request to deliver the message again, to this or
    /// another consumer, or without, which drops it for good. Whether a
    /// message is in fact delivered again is up to the bus and its policy.
    Nacked { requeue: bool },
}

impl Settlement {
    /// The state after an acknowledgment is asked for: the first request is
    /// kept, a later one changes nothing.
    pub open spec fn after_ack(self) -> Settlement {
        if self is Pending {
            Settlement::Acked
        } else {
            self
        }
    }

    /// The state after a refusal is asked for: the first request is kept, a
    /// later one changes nothing.
    pub open spec fn after_nack(self, requeue: bool) -> Settlement {
        if self is Pending {
            Settlement::Nacked { requeue }
        } else {
            self
        }
    }
}

/// One call of `ack` or `nack`: what was asked of the message, and how the
/// bus answered.
pub struct Request {
    /// `Acked` for an acknowledgment, `Nacked` with the flag given for a
    /// refusal.
    pub asked: Settlement,
    /// The reason of the error that the call returned, or nothing where it
    /// succeeded.
    pub refusal: Option<Seq<char>>,
}

/// The record of the call that asked `asked` of a message and returned
/// `done`.
pub open spec fn request_of(asked: Settlement, done: Result<(), BusError>) -> Request {
    Request {
        asked,
        refusal: match done {
            Ok(_) => None,
            Err(error) => Some(error.reason@),
        },
    }
}

/// One delivery: a payload and the handle that settles it. A message is
/// settled by its first `ack` or `nack`; any later one fails and changes
/// nothing.
pub trait Message {
    /// Every call of `ack` or `nack` on this message, oldest first, whether
    /// it succeeded or not. An implementation that does not define it
    /// leaves it unspecified.
    open spec fn requests(&self) -> Seq<Request> {
        arbitrary()
    }

    /// The payload, which settling never changes. An implementation that
    /// does not define it leaves it unspecified.
    open spec fn payload(&self) -> Seq<char> {
        arbitrary()
    }

    /// What has been asked of this message so far. An implementation that
    /// does not define it leaves it unspecified.
    open spec fn settlement(&self) -> Settlement {
        arbitrary()
    }

    /// Tells the bus that the work is done. An error means that the request
    /// was refused, as every request after the first is, or that it may not
    /// have reached the bus.
    fn ack(&mut self) -> (done: Result<(), BusError>)
        ensures
            final(self).payload() == old(self).payload(),
            final(self).settlement() == old(self).settlement().after_ack(),
            !(old(self).settlement() is Pending) ==> done is Err,
            final(self).requests() == old(self).requests().push(
                request_of(Settlement::Acked, done),
            ),
    ;

    /// Tells the bus that the work failed, and whether the message should be
    /// delivered again. Errors as for `ack`.
    fn nack(&mut self, requeue: bool) -> (done: Result<(), BusError>)
        ensures
            final(self).payload() == old(self).payload(),
            final(self).settlement() == old(self).settlement().after_nack(requeue),
            !(old(self).settlement() is Pending) ==> done is Err,
            final(self).requests() == old(self).requests().push(
                request_of((Settlement::Nacked { requeue }), done),
            ),
    ;

    fn body(&self) -> (payload: String)
        ensures
            payload@ == self.payload(),
    ;
}

/// One call of `publish`: what the publisher was asked to send, and how it
/// answered.
pub struct Attempt {
    pub topic: Seq<char>,
    pub payload: Seq<char>,
    /// The reason of the error that the call returned, or nothing where it
    /// succeeded.
    pub refusal: Option<Seq<char>>,
}

/// The record of the call of `publish` with `topic` and `payload` that
/// returned `sent`.
pub open spec fn attempt_of(
    topic: Seq<char>,
    payload: Seq<char>,
    sent: Result<(), BusError>,
) -> Attempt {
    Attempt {
        topic,
        payload,
        refusal: match sent {
            Ok(_) => None,
            Err(error) => Some(error.reason@),
        },
    }
}

/// Sends payloads to named topics.
pub trait Publisher {
    /// Every call of `publish` on this publisher, oldest first, whether it
    /// succeeded or not. An implementation that does not define it leaves
    /// it unspecified.
    open spec fn attempts(&self) -> Seq<Attempt> {
        arbitrary()
    }

    /// The publications that the bus has confirmed to this publisher, as
    /// topic and payload, oldest first. An implementation that does not
    /// define it leaves it unspecified.
    open spec fn confirmed(&self) -> Seq<(Seq<char>, Seq<char>)> {
        arbitrary()
    }

    /// Sends `msg` to `topic` and waits until the bus has taken charge of it.
    /// Success means that the bus confirmed this publication; after an error
    /// none was confirmed. Either way the call is on record with its answer.
    fn publish(&mut self, topic: String, msg: String) -> (sent: Result<(), BusError>)
        ensures
            sent is Ok ==> final(self).confirmed() == old(self).confirmed().push((topic@, msg@)),
            sent is Err ==> final(self).confirmed() == old(self).confirmed(),
            final(self).attempts() == old(self).attempts().push(attempt_of(topic@, msg@, sent)),
    ;
}

/// Receives the messages of a topic, one at a time and without end.
pub trait Consumer {
    type Delivery: Message;

    /// The topic that the last successful `consume` bound, if there was one.
    /// An implementation that does not define it leaves it unspecified.
    open spec fn bound(&self) -> Option<Seq<char>> {
        arbitrary()
    }

    /// Binds this consumer to `topic`; the messages are then had from
    /// `next_message`. Calling it again starts over. A call that fails
    /// binds nothing: the consumer is bound as it was.
    fn consume(&mut self, topic: String) -> (opened: Result<(), BusError>)
        ensures
            opened is Ok ==> final(self).bound() == Some(topic@),
            opened is Err ==> final(self).bound() == old(self).bound(),
    ;

    /// Waits for the next message of the bound topic, in the order in which
    /// the bus delivers; nothing means that the bus has ended the sequence.
    /// Every message arrives unsettled.
    fn next_message(&mut self) -> (next: Option<Self::Delivery>)
        ensures
            final(self).bound() == old(self).bound(),
            next matches Some(message) ==> message.settlement() is Pending,
    ;
}

/// Gives up what a consumer took hold of.
pub trait Closer: Sized {
    /// The topic that an earlier `consume` took hold of and no `close` has
    /// given up since, if there is one. An implementation that does not
    /// define it leaves it unspecified.
    open spec fn consuming(&self) -> Option<Seq<char>> {
        arbitrary()
    }

    /// Cleans up after an earlier `consume`, as far as the bus allows, and
    /// holds nothing afterwards, whether the bus let everything go or not.
    /// Where nothing is held, because nothing was consumed or because it
    /// has been closed before, it succeeds and changes nothing.
    fn close(&mut self) -> (closed: Result<(), BusError>)
        ensures
            final(self).consuming() is None,
            old(self).consuming() is None ==> closed is Ok && *final(self) == *old(self),
    ;
}

} // verus!
