//! Distribution of shell-command tasks to a pool of workers through a durable
//! message broker: the task model, the bus abstraction, the decisions of the
//! broker-backed driver, and the worker-pool engine that admits, runs and
//! settles tasks under bounded concurrency.

pub mod shared;
