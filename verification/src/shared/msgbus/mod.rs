pub mod amqp;
pub mod bus;
pub mod memory;
