//! A bounded multi-producer, multi-consumer queue whose values are broadcast to a set of
//! independent streams.
//!
//! All values that are sent form one log. Each stream receives the whole log, in order, from where
//! it was subscribed. A stream can have several consumers, which share its values out among them.
//! Senders can go ahead of the slowest stream by as much as the queue can hold.
//!
//! The queue is a value of its own. Senders and receivers are handles that are given the queue for
//! each operation, so that the owner decides how it is shared. Every operation is one step: where
//! one has to wait, it says what for, and is taken up again later.
//!
//! [`model`] says what a queue is, [`laws`] what holds over any number of operations, [`history`] what
//! every answer is by what was asked before, and [`strategies`] that how receivers wait makes no
//! difference to the answers.

pub mod atomicsignal;
pub mod countedindex;
pub mod errors;
pub mod futures_queue;
pub mod futures_wait;
pub mod history;
pub mod inline;
pub mod iterators;
pub mod laws;
pub mod lists;
pub mod memory;
pub mod model;
pub mod mpmc;
pub mod multicast;
pub mod multiqueue;
pub mod read_cursor;
pub mod receiver;
pub mod sender;
pub mod strategies;
pub mod wait;

pub use crate::mpmc::{mpmc_fut_queue, mpmc_queue, mpmc_queue_with};
pub use crate::mpmc::{MPMCFutReceiver, MPMCFutSender, MPMCFutUniReceiver};
pub use crate::mpmc::{MPMCReceiver, MPMCSender, MPMCUniReceiver};
pub use crate::multicast::{multicast_fut_queue, multicast_queue, multicast_queue_with};
pub use crate::multicast::{MulticastFutReceiver, MulticastFutSender, MulticastFutUniReceiver};
pub use crate::multicast::{MulticastReceiver, MulticastSender, MulticastUniReceiver};
