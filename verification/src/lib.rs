//! A reactive dataflow library: composable push-based sequences of typed
//! events, in two variants distinguished by backpressure semantics. An
//! observable source pushes as fast as it wishes; a flow source must respect
//! the credit its subscriber signals, or mediate excess through an explicit
//! buffering policy. Every sink is owed the protocol
//! `Subscribe · Item* · (Error | Completed)?`, stated here as a specification
//! over event traces and proved of every stage.
//!
//! Pipelines are composed on the sink side: each operator wraps the sink a
//! stage below it, carrying the ghost trace of the events it received and an
//! invariant tying that trace to what its downstream observed. A source then
//! takes the whole chain, pushes events through it, and hands it back with
//! everything the sinks observed. The threaded schedulers live outside the
//! verified core; their decision logic — which event a worker task delivers,
//! and what a cancellation before the hand-off prevents — is modelled and
//! proved here.

pub mod buffer;
pub mod cancellable;
pub mod emitter;
pub mod flow;
pub mod into;
pub mod observable;
pub mod observer;
pub mod operators;
pub mod scheduler;
pub mod signal;
pub mod subject;
pub mod subscriber;

use vstd::prelude::*;

verus! {

pub use crate::signal::Signal;
pub use crate::signal::FlowError;
pub use crate::signal::BufferStrategy;

} // verus!
