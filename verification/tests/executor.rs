use mqdish::shared::dispatcher::Dispatcher;
use mqdish::shared::engine::{ExecutorError, Outcome, Phase, Resolution};
use mqdish::shared::executor::{resolve, Admission, Executor};
use mqdish::shared::models::{ExecutionMode, Task};
use mqdish::shared::msgbus::bus::{Consumer, Message, Publisher, Settlement};
use mqdish::shared::msgbus::memory::{MemoryBus, MemoryMessage};

fn task(command: &str, mode: ExecutionMode) -> Task {
    Task {
        shell: "sh".to_string(),
        command: command.to_string(),
        execution_mode: mode,
        concurrency_hint: None,
    }
}

fn deliveries(commands: &[&str]) -> (MemoryBus, Vec<MemoryMessage>) {
    let mut bus = MemoryBus::new();
    for command in commands {
        bus.publish("work".to_string(), command.to_string()).unwrap();
    }
    bus.consume("work".to_string()).unwrap();
    let mut messages = Vec::new();
    while let Some(message) = bus.next_message() {
        messages.push(message);
    }
    (bus, messages)
}

fn running(workers: usize) -> Executor<MemoryMessage> {
    let mut engine = Executor::new(workers, "work".to_string());
    engine.start();
    engine
}

fn ticket_of(admission: Admission<MemoryMessage>) -> u64 {
    match admission {
        Admission::Inline { ticket, .. } => ticket,
        Admission::Pooled { ticket, .. } => ticket,
        Admission::Deferred { .. } => panic!("the task was not admitted"),
        Admission::Malformed { .. } => panic!("the task was taken for none"),
    }
}

#[test]
fn exit_code_zero_is_acknowledged() {
    assert_eq!(resolve(Outcome::Exited(0)), Resolution::Ack);
}

#[test]
fn every_other_outcome_is_refused_with_requeue() {
    assert_eq!(resolve(Outcome::Exited(1)), Resolution::Nack { requeue: true });
    assert_eq!(resolve(Outcome::Exited(-1)), Resolution::Nack { requeue: true });
    assert_eq!(resolve(Outcome::Exited(255)), Resolution::Nack { requeue: true });
    assert_eq!(resolve(Outcome::Exited(i32::MIN)), Resolution::Nack { requeue: true });
    assert_eq!(resolve(Outcome::Failed), Resolution::Nack { requeue: true });
}

#[test]
fn new_engine_is_idle_with_all_tokens_free() {
    let engine: Executor<MemoryMessage> = Executor::new(4, "work".to_string());
    assert_eq!(engine.phase(), Phase::Idle);
    assert_eq!(engine.workers(), 4);
    assert_eq!(engine.available(), 4);
    assert_eq!(engine.in_flight(), 0);
    assert_eq!(engine.fault(), None);
    assert_eq!(engine.topic(), "work");
    assert!(!engine.may_pull());
}

#[test]
fn idle_engine_defers_every_offer() {
    let (_bus, mut messages) = deliveries(&["exit 0"]);
    let mut engine: Executor<MemoryMessage> = Executor::new(2, "work".to_string());
    let admission = engine.offer(messages.remove(0), task("exit 0", ExecutionMode::Pooled));
    match admission {
        Admission::Deferred { message, task } => {
            assert_eq!(message.body(), "exit 0");
            assert_eq!(task.command, "exit 0");
        }
        _ => panic!("an idle engine admitted a task"),
    }
    assert_eq!(engine.in_flight(), 0);
}

#[test]
fn pooled_tasks_never_outnumber_tokens() {
    let (_bus, mut messages) = deliveries(&["a", "b", "c"]);
    let mut engine = running(2);
    let first = ticket_of(engine.offer(messages.remove(0), task("a", ExecutionMode::Pooled)));
    let second = ticket_of(engine.offer(messages.remove(0), task("b", ExecutionMode::Pooled)));
    assert_ne!(first, second);
    assert_eq!(engine.available(), 0);
    let third = engine.offer(messages.remove(0), task("c", ExecutionMode::Pooled));
    let (message, refused) = match third {
        Admission::Deferred { message, task } => (message, task),
        _ => panic!("a third pooled task was admitted with two tokens"),
    };
    assert_eq!(engine.in_flight(), 2);
    assert!(engine.finish(first, Outcome::Exited(0)).is_some());
    assert_eq!(engine.available(), 1);
    match engine.offer(message, refused) {
        Admission::Pooled { ticket, task } => {
            assert_ne!(ticket, second);
            assert_eq!(task.command, "c");
        }
        _ => panic!("a free token was not handed out"),
    }
    assert_eq!(engine.available(), 0);
    assert_eq!(engine.in_flight(), 2);
}

#[test]
fn five_pooled_tasks_on_two_workers() {
    let mut bus = MemoryBus::new();
    {
        let mut dispatcher = Dispatcher::new(&mut bus);
        for command in ["exit 0", "exit 0", "exit 1", "exit 0", "exit 0"] {
            dispatcher.dispatch("work".to_string(), command.to_string()).unwrap();
        }
    }
    bus.consume("work".to_string()).unwrap();
    let mut engine = running(2);
    let mut in_flight: Vec<(u64, String)> = Vec::new();
    let mut acks = 0;
    let mut requeues = 0;
    let mut pulled = 0;
    let mut most_at_once = 0;
    while pulled < 5 {
        let message = bus.next_message().expect("five messages were published");
        pulled += 1;
        let command = message.body();
        let mut offered = Some((message, task(&command, ExecutionMode::Pooled)));
        while let Some((message, task)) = offered.take() {
            match engine.offer(message, task) {
                Admission::Pooled { ticket, task } => in_flight.push((ticket, task.command)),
                Admission::Inline { .. } => panic!("a pooled task ran inline"),
                Admission::Malformed { .. } => panic!("the task was taken for none"),
                Admission::Deferred { message, task } => {
                    let (ticket, command) = in_flight.remove(0);
                    let code = if command == "exit 0" { 0 } else { 1 };
                    let settled = engine.finish(ticket, Outcome::Exited(code)).unwrap();
                    match settled.resolution {
                        Resolution::Ack => acks += 1,
                        Resolution::Nack { requeue: true } => requeues += 1,
                        Resolution::Nack { requeue: false } => panic!("a message was dropped"),
                    }
                    assert!(settled.delivered.is_ok());
                    offered = Some((message, task));
                }
            }
            most_at_once = most_at_once.max(engine.in_flight());
            assert!(engine.in_flight() <= 2);
        }
    }
    while !in_flight.is_empty() {
        let (ticket, command) = in_flight.remove(0);
        let code = if command == "exit 0" { 0 } else { 1 };
        let settled = engine.finish(ticket, Outcome::Exited(code)).unwrap();
        match settled.resolution {
            Resolution::Ack => acks += 1,
            _ => requeues += 1,
        }
        bus.take_back(settled.message);
    }
    assert_eq!(most_at_once, 2);
    assert_eq!(acks, 4);
    assert_eq!(requeues, 1);
    assert_eq!(engine.available(), 2);
    assert_eq!(engine.in_flight(), 0);
    assert_eq!(engine.phase(), Phase::Running);
    assert!(engine.may_pull());
}

#[test]
fn exclusive_task_holds_the_gate_but_not_the_pool() {
    let (_bus, mut messages) = deliveries(&["pooled", "exclusive", "late"]);
    let mut engine = running(1);
    let pooled = ticket_of(engine.offer(messages.remove(0), task("pooled", ExecutionMode::Pooled)));
    assert_eq!(engine.available(), 0);
    let exclusive = match engine.offer(messages.remove(0), task("exclusive", ExecutionMode::Exclusive)) {
        Admission::Inline { ticket, task } => {
            assert_eq!(task.command, "exclusive");
            ticket
        }
        _ => panic!("the exclusive task waited for the pool"),
    };
    assert!(!engine.may_pull());
    assert_eq!(engine.in_flight(), 2);
    let late = match engine.offer(messages.remove(0), task("late", ExecutionMode::Exclusive)) {
        Admission::Deferred { message, task } => (message, task),
        _ => panic!("new work started beside an exclusive task"),
    };
    let done = engine.finish(pooled, Outcome::Exited(0)).unwrap();
    assert_eq!(done.mode, ExecutionMode::Pooled);
    assert_eq!(engine.available(), 1);
    assert!(!engine.may_pull());
    let done = engine.finish(exclusive, Outcome::Exited(0)).unwrap();
    assert_eq!(done.mode, ExecutionMode::Exclusive);
    assert_eq!(engine.available(), 1);
    assert!(engine.may_pull());
    assert!(matches!(engine.offer(late.0, late.1), Admission::Inline { .. }));
    assert_eq!(engine.in_flight(), 1);
}

#[test]
fn exclusive_task_needs_no_token() {
    let (_bus, mut messages) = deliveries(&["x", "p"]);
    let mut engine = running(0);
    let deferred = engine.offer(messages.remove(1), task("p", ExecutionMode::Pooled));
    assert!(matches!(deferred, Admission::Deferred { .. }));
    let admitted = engine.offer(messages.remove(0), task("x", ExecutionMode::Exclusive));
    assert!(matches!(admitted, Admission::Inline { .. }));
    assert_eq!(engine.available(), 0);
}

#[test]
fn message_is_settled_once_after_its_task() {
    let (_bus, mut messages) = deliveries(&["ok", "bad", "lost"]);
    let mut engine = running(3);
    let ok = ticket_of(engine.offer(messages.remove(0), task("ok", ExecutionMode::Pooled)));
    let bad = ticket_of(engine.offer(messages.remove(0), task("bad", ExecutionMode::Pooled)));
    let lost = ticket_of(engine.offer(messages.remove(0), task("lost", ExecutionMode::Pooled)));

    let settled = engine.finish(ok, Outcome::Exited(0)).unwrap();
    assert_eq!(settled.resolution, Resolution::Ack);
    assert_eq!(settled.message.state(), Settlement::Acked);
    assert_eq!(settled.message.body(), "ok");
    assert!(settled.delivered.is_ok());
    assert!(engine.finish(ok, Outcome::Exited(0)).is_none());
    assert!(engine.finish(ok, Outcome::Exited(1)).is_none());

    let settled = engine.finish(bad, Outcome::Exited(3)).unwrap();
    assert_eq!(settled.resolution, Resolution::Nack { requeue: true });
    assert_eq!(settled.message.state(), Settlement::Nacked { requeue: true });

    let settled = engine.finish(lost, Outcome::Failed).unwrap();
    assert_eq!(settled.resolution, Resolution::Nack { requeue: true });
    assert_eq!(settled.message.state(), Settlement::Nacked { requeue: true });

    assert!(engine.finish(99, Outcome::Exited(0)).is_none());
    assert_eq!(engine.available(), 3);
}

#[test]
fn failed_settlement_still_frees_the_token() {
    let (_bus, mut messages) = deliveries(&["twice"]);
    let mut message = messages.remove(0);
    message.nack(false).unwrap();
    let mut engine = running(1);
    let ticket = ticket_of(engine.offer(message, task("twice", ExecutionMode::Pooled)));
    assert_eq!(engine.available(), 0);
    let settled = engine.finish(ticket, Outcome::Exited(0)).unwrap();
    assert_eq!(settled.resolution, Resolution::Ack);
    assert!(settled.delivered.is_err());
    assert_eq!(settled.message.state(), Settlement::Nacked { requeue: false });
    assert_eq!(engine.available(), 1);
    assert_eq!(engine.phase(), Phase::Running);
}

#[test]
fn halt_stops_an_empty_engine_and_drains_a_busy_one() {
    let mut engine = running(2);
    engine.halt(ExecutorError::StreamEnded);
    assert_eq!(engine.phase(), Phase::Stopped);
    assert_eq!(engine.fault(), Some(ExecutorError::StreamEnded));

    let (_bus, mut messages) = deliveries(&["a", "b", "c"]);
    let mut engine = running(2);
    let a = ticket_of(engine.offer(messages.remove(0), task("a", ExecutionMode::Pooled)));
    let b = ticket_of(engine.offer(messages.remove(0), task("b", ExecutionMode::Pooled)));
    engine.halt(ExecutorError::MalformedTask);
    assert_eq!(engine.phase(), Phase::Draining);
    engine.halt(ExecutorError::PullFailed);
    assert_eq!(engine.fault(), Some(ExecutorError::MalformedTask));
    assert!(!engine.may_pull());
    let refused = engine.offer(messages.remove(0), task("c", ExecutionMode::Exclusive));
    assert!(matches!(refused, Admission::Deferred { .. }));
    assert!(engine.finish(a, Outcome::Exited(0)).is_some());
    assert_eq!(engine.phase(), Phase::Draining);
    assert!(engine.finish(b, Outcome::Exited(2)).is_some());
    assert_eq!(engine.phase(), Phase::Stopped);
    assert_eq!(engine.available(), 2);
}

#[test]
fn halt_before_start_stops_the_engine() {
    let mut engine: Executor<MemoryMessage> = Executor::new(2, "work".to_string());
    engine.halt(ExecutorError::ConsumeFailed);
    assert_eq!(engine.phase(), Phase::Stopped);
    engine.start();
    assert_eq!(engine.phase(), Phase::Stopped);
    assert_eq!(engine.fault(), Some(ExecutorError::ConsumeFailed));
}

#[test]
fn executor_errors_have_messages() {
    assert_eq!(ExecutorError::ConsumeFailed.message(), "Failed to consume the topic");
    assert_eq!(ExecutorError::StreamEnded.message(), "The message stream has ended");
    assert_eq!(ExecutorError::PullFailed.message(), "Failed to pull the next message");
    assert_eq!(ExecutorError::MalformedTask.message(), "Failed to decode a task");
}

#[test]
fn malformed_payload_halts_the_engine() {
    let (_bus, mut messages) = deliveries(&["a", "not a task", "b"]);
    let mut engine = running(2);
    let a = match engine.receive(messages.remove(0), Some(task("a", ExecutionMode::Pooled))) {
        Admission::Pooled { ticket, .. } => ticket,
        _ => panic!("a decoded task was not admitted"),
    };
    match engine.receive(messages.remove(0), None) {
        Admission::Malformed { message } => {
            assert_eq!(message.body(), "not a task");
            assert_eq!(message.state(), Settlement::Pending);
        }
        _ => panic!("a payload that is no task was admitted"),
    }
    assert_eq!(engine.phase(), Phase::Draining);
    assert_eq!(engine.fault(), Some(ExecutorError::MalformedTask));
    let late = engine.receive(messages.remove(0), Some(task("b", ExecutionMode::Pooled)));
    assert!(matches!(late, Admission::Deferred { .. }));
    assert!(engine.finish(a, Outcome::Exited(0)).is_some());
    assert_eq!(engine.phase(), Phase::Stopped);
}

#[test]
fn malformed_payload_stops_an_empty_engine() {
    let (_bus, mut messages) = deliveries(&["{"]);
    let mut engine = running(2);
    assert!(matches!(engine.receive(messages.remove(0), None), Admission::Malformed { .. }));
    assert_eq!(engine.phase(), Phase::Stopped);
    assert_eq!(engine.available(), 2);
}

#[test]
fn exclusive_task_starts_while_every_token_is_held() {
    let (_bus, mut messages) = deliveries(&["a", "b", "c", "x"]);
    let mut engine = running(3);
    for command in ["a", "b", "c"] {
        ticket_of(engine.offer(messages.remove(0), task(command, ExecutionMode::Pooled)));
    }
    assert_eq!(engine.available(), 0);
    assert_eq!(engine.in_flight(), 3);
    let admitted = engine.offer(messages.remove(0), task("x", ExecutionMode::Exclusive));
    assert!(matches!(admitted, Admission::Inline { .. }));
    assert_eq!(engine.in_flight(), 4);
    assert_eq!(engine.available(), 0);
}

#[test]
fn numbers_of_tasks_in_flight_are_distinct_and_reused_later() {
    let (_bus, mut messages) = deliveries(&["a", "b", "c", "d", "e"]);
    let mut engine = running(3);
    let a = ticket_of(engine.offer(messages.remove(0), task("a", ExecutionMode::Pooled)));
    let b = ticket_of(engine.offer(messages.remove(0), task("b", ExecutionMode::Pooled)));
    let c = ticket_of(engine.offer(messages.remove(0), task("c", ExecutionMode::Pooled)));
    assert!(a != b && b != c && a != c);
    assert_eq!(engine.finish(b, Outcome::Exited(0)).unwrap().message.body(), "b");
    let d = ticket_of(engine.offer(messages.remove(0), task("d", ExecutionMode::Pooled)));
    assert!(d != a && d != c);
    assert_eq!(engine.finish(a, Outcome::Exited(1)).unwrap().message.body(), "a");
    assert_eq!(engine.finish(d, Outcome::Exited(0)).unwrap().message.body(), "d");
    assert_eq!(engine.finish(c, Outcome::Failed).unwrap().message.body(), "c");
    assert!(engine.finish(c, Outcome::Failed).is_none());
    let e = ticket_of(engine.offer(messages.remove(0), task("e", ExecutionMode::Pooled)));
    assert_eq!(engine.finish(e, Outcome::Exited(0)).unwrap().message.body(), "e");
    assert_eq!(engine.available(), 3);
    assert_eq!(engine.in_flight(), 0);
}
