use mqdish::shared::dispatcher::Dispatcher;
use mqdish::shared::msgbus::bus::{BusError, Closer, Consumer, Message, Publisher, Settlement};
use mqdish::shared::msgbus::memory::MemoryBus;

#[test]
fn messages_come_out_in_the_order_they_went_in() {
    let mut bus = MemoryBus::new();
    assert_eq!(bus.waiting("work".to_string()), None);
    bus.publish("work".to_string(), "first".to_string()).unwrap();
    bus.publish("other".to_string(), "elsewhere".to_string()).unwrap();
    bus.publish("work".to_string(), "second".to_string()).unwrap();
    assert_eq!(bus.waiting("work".to_string()), Some(2));
    assert!(bus.next_message().is_none());
    bus.consume("work".to_string()).unwrap();
    let first = bus.next_message().unwrap();
    assert_eq!(first.body(), "first");
    assert_eq!(first.topic(), "work");
    assert_eq!(first.state(), Settlement::Pending);
    assert_eq!(bus.next_message().unwrap().body(), "second");
    assert!(bus.next_message().is_none());
    assert_eq!(bus.waiting("work".to_string()), Some(0));
    assert_eq!(bus.waiting("other".to_string()), Some(1));
}

#[test]
fn consuming_makes_the_queue() {
    let mut bus = MemoryBus::new();
    bus.consume("work".to_string()).unwrap();
    assert_eq!(bus.waiting("work".to_string()), Some(0));
    assert!(bus.next_message().is_none());
}

#[test]
fn message_is_settled_by_its_first_request() {
    let mut bus = MemoryBus::new();
    bus.publish("work".to_string(), "a".to_string()).unwrap();
    bus.publish("work".to_string(), "b".to_string()).unwrap();
    bus.consume("work".to_string()).unwrap();
    let mut a = bus.next_message().unwrap();
    assert!(a.ack().is_ok());
    assert_eq!(a.state(), Settlement::Acked);
    assert!(a.ack().is_err());
    assert!(a.nack(true).is_err());
    assert_eq!(a.state(), Settlement::Acked);
    assert_eq!(a.body(), "a");
    let mut b = bus.next_message().unwrap();
    assert!(b.nack(false).is_ok());
    assert_eq!(b.state(), Settlement::Nacked { requeue: false });
    assert!(b.ack().is_err());
    assert_eq!(b.state(), Settlement::Nacked { requeue: false });
}

#[test]
fn refused_message_with_requeue_is_delivered_again() {
    let mut bus = MemoryBus::new();
    bus.publish("work".to_string(), "retry".to_string()).unwrap();
    bus.publish("work".to_string(), "drop".to_string()).unwrap();
    bus.publish("work".to_string(), "done".to_string()).unwrap();
    bus.consume("work".to_string()).unwrap();
    let mut retry = bus.next_message().unwrap();
    let mut dropped = bus.next_message().unwrap();
    let mut done = bus.next_message().unwrap();
    retry.nack(true).unwrap();
    dropped.nack(false).unwrap();
    done.ack().unwrap();
    bus.take_back(done);
    bus.take_back(dropped);
    assert_eq!(bus.waiting("work".to_string()), Some(0));
    bus.take_back(retry);
    assert_eq!(bus.waiting("work".to_string()), Some(1));
    let again = bus.next_message().unwrap();
    assert_eq!(again.body(), "retry");
    assert_eq!(again.state(), Settlement::Pending);
}

#[test]
fn unsettled_message_is_not_requeued() {
    let mut bus = MemoryBus::new();
    bus.publish("work".to_string(), "a".to_string()).unwrap();
    bus.consume("work".to_string()).unwrap();
    let a = bus.next_message().unwrap();
    bus.take_back(a);
    assert_eq!(bus.waiting("work".to_string()), Some(0));
}

#[test]
fn close_deletes_an_empty_unused_queue() {
    let mut bus = MemoryBus::new();
    bus.consume("work".to_string()).unwrap();
    assert!(bus.close().is_ok());
    assert_eq!(bus.waiting("work".to_string()), None);
    assert!(bus.close().is_ok());
    assert_eq!(bus.waiting("work".to_string()), None);
}

#[test]
fn close_without_consume_does_nothing() {
    let mut bus = MemoryBus::new();
    bus.publish("work".to_string(), "a".to_string()).unwrap();
    assert!(bus.close().is_ok());
    assert_eq!(bus.waiting("work".to_string()), Some(1));
}

#[test]
fn close_spares_a_queue_that_holds_messages() {
    let mut bus = MemoryBus::new();
    bus.publish("work".to_string(), "a".to_string()).unwrap();
    bus.publish("work".to_string(), "b".to_string()).unwrap();
    bus.consume("work".to_string()).unwrap();
    assert_eq!(bus.next_message().unwrap().body(), "a");
    assert!(bus.close().is_ok());
    assert_eq!(bus.waiting("work".to_string()), Some(1));
    assert!(bus.next_message().is_none());
    bus.consume("work".to_string()).unwrap();
    assert_eq!(bus.next_message().unwrap().body(), "b");
}

#[test]
fn close_spares_a_queue_with_a_second_consumer() {
    let mut bus = MemoryBus::new();
    bus.consume("work".to_string()).unwrap();
    assert!(bus.join("work".to_string()));
    assert!(bus.close().is_ok());
    assert_eq!(bus.waiting("work".to_string()), Some(0));
    bus.publish("work".to_string(), "kept".to_string()).unwrap();
    assert_eq!(bus.waiting("work".to_string()), Some(1));
}

#[test]
fn consuming_another_topic_lets_go_of_the_first() {
    let mut bus = MemoryBus::new();
    bus.consume("first".to_string()).unwrap();
    bus.consume("second".to_string()).unwrap();
    bus.publish("first".to_string(), "x".to_string()).unwrap();
    assert!(bus.next_message().is_none());
    assert!(bus.close().is_ok());
    assert_eq!(bus.waiting("second".to_string()), None);
    assert_eq!(bus.waiting("first".to_string()), Some(1));
    bus.consume("first".to_string()).unwrap();
    assert_eq!(bus.next_message().unwrap().body(), "x");
    assert!(bus.close().is_ok());
    assert_eq!(bus.waiting("first".to_string()), None);
}

#[test]
fn dispatcher_publishes_each_payload_once() {
    let mut bus = MemoryBus::new();
    {
        let mut dispatcher = Dispatcher::new(&mut bus);
        assert!(dispatcher.dispatch("work".to_string(), "one".to_string()).is_ok());
        assert!(dispatcher.dispatch("work".to_string(), String::new()).is_ok());
        assert!(dispatcher.dispatch("side".to_string(), "two".to_string()).is_ok());
    }
    assert_eq!(bus.waiting("work".to_string()), Some(2));
    assert_eq!(bus.waiting("side".to_string()), Some(1));
    bus.consume("work".to_string()).unwrap();
    assert_eq!(bus.next_message().unwrap().body(), "one");
    assert_eq!(bus.next_message().unwrap().body(), "");
}

struct Unreachable {
    calls: Vec<(String, String)>,
}

impl Publisher for Unreachable {
    fn publish(&mut self, topic: String, msg: String) -> Result<(), BusError> {
        self.calls.push((topic, msg));
        Err(BusError { reason: "Failed to publish message: connection reset".to_string() })
    }
}

#[test]
fn dispatcher_hands_the_publish_error_back_as_it_is() {
    let mut bus = Unreachable { calls: Vec::new() };
    let sent = Dispatcher::new(&mut bus).dispatch("work".to_string(), "one".to_string());
    assert_eq!(sent.unwrap_err().reason, "Failed to publish message: connection reset");
    assert_eq!(bus.calls, vec![("work".to_string(), "one".to_string())]);
}
