//! Scheduling core of the `epox` executor: run queues with priorities, the
//! sleep queue, task bookkeeping, the decisions of the run loop, and the
//! readiness logic of file descriptors registered with epoll.
//!
//! The actual I/O (epoll, pipes, timer and signal file descriptors) and the
//! polling of futures live around this library; every decision they make is
//! taken here.

pub mod queue;
pub mod executor;
pub mod task;
pub mod yield_task;
pub mod fd;
pub mod signal;
pub mod laws;
