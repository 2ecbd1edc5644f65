//! A request-pipeline dispatcher with recoverable-error semantics.
//!
//! A [`pipeline::ChainBuilder`] routes a request through an ordered list of
//! before-stages, a single (possibly wrapped or nested) handler, and an
//! ordered list of after-stages.  A failure at any stage is a catchable
//! event: every stage at or after the point of failure in the same phase is
//! offered the error through a distinct `catch` operation, and an uncaught
//! error is handed on to the next phase rather than aborting the call.
//!
//! The dispatch algorithm is specified by a fuelled interpreter in
//! [`pipeline`] (`spec_befores`, `spec_afters`, `spec_chain_call`, ...);
//! every executable entry point is proved to produce, for some fuel,
//! exactly the trace and outcome of that interpreter, whose settled answer
//! is unique.  The laws the resumption rules obey are stated and proved in
//! [`laws`].

pub mod laws;
pub mod pipeline;
