//! The core of a stackful coroutine runtime: the state record of one
//! switchable stack, the per-thread tree of such records, the typed exchange
//! of values across a switch, and the handler that decides what becomes of a
//! finished coroutine's stack.
//!
//! - [`value`] and [`error`]: what crosses a switch, and what can go wrong.
//! - [`context`]: the record of one stack and its transfer slots.
//! - [`tree`]: the model of a thread's contexts, over which every contract
//!   of the runtime is stated.
//! - [`runtime`]: the context stack of a thread and its operations.
//! - [`protocol`]: what follows for the exchange between resumer and body.
//! - [`done`]: the completion handler.
//! - [`date`] and [`buffer`]: the date line that responses carry.

pub mod buffer;
pub mod context;
pub mod date;
pub mod done;
pub mod error;
pub mod protocol;
pub mod runtime;
pub mod tree;
pub mod value;
