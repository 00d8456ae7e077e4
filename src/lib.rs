//! A small cooperative task-runtime kernel: a task table with a FIFO run
//! queue and a blocking pool, a deadline-ordered timer queue, a bounded
//! multi-producer channel, and a round-robin select policy. Each component
//! is a state machine whose transitions are proved against a mathematical
//! model; a driver outside the library performs the actual waiting and
//! running of work.
pub mod channel;
pub mod error;
pub mod jitter;
pub mod naming;
pub mod scheduler;
pub mod select;
pub mod timer;

