//! The producer's side: hands encoded tasks to a publisher, one at a time.

use crate::shared::msgbus::bus::{BusError, Publisher};
use vstd::prelude::*;

verus! {

/// Publishes task payloads through a bus that it borrows.
pub struct Dispatcher<'a, T: Publisher> {
    pub bus: &'a mut T,
}

impl<'a, T: Publisher> Dispatcher<'a, T> {
    /// A dispatcher that publishes through `bus`.
    pub fn new(bus: &'a mut T) -> (dispatcher: Self)
        ensures
            *dispatcher.bus == *old(bus),
            *final(dispatcher.bus) == *final(bus),
    {
        Dispatcher { bus }
    }

    /// Publishes the encoded task `payload` to `topic`: one call of the
    /// bus's `publish` with exactly these two, and its answer handed back as
    /// it is. Nothing is retried and nothing is held back: the bus has
    /// exactly this one call more on record, with the answer that is
    /// returned here.
    pub fn dispatch(&mut self, topic: String, payload: String) -> (sent: Result<(), BusError>)
        ensures
            final(self).bus.attempts() == old(self).bus.attempts().push(
                crate::shared::msgbus::bus::attempt_of(topic@, payload@, sent),
            ),
            sent is Ok ==> final(self).bus.confirmed() == old(self).bus.confirmed().push(
                (topic@, payload@),
            ),
            sent is Err ==> final(self).bus.confirmed() == old(self).bus.confirmed(),
            *final(final(self).bus) == *final(old(self).bus),
    {
        self.bus.publish(topic, payload)
    }
}

} // verus!
