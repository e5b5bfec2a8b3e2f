//! The process side of a pair of rings shared with the kernel: one on which
//! the process queues descriptions of operations, one on which the kernel
//! queues their outcomes.
//!
//! The library keeps a view of the shared memory and decides every step of
//! the protocol on it: where the next entry goes and whether there is room,
//! what the enter call is asked, what its answer means, and which
//! completions are there to drain. Making the kernel calls, mapping the
//! memory and copying between it and the view is left to the caller, who
//! hands over what was read and carries out what was decided.
//!
//! - `bindings`: the records and numbers of the kernel interface.
//! - `index`: positions on a ring, their slots, and wrap-around.
//! - `uring`: the submission ring, the completion ring, operations and
//!   their builder, and the ring as a whole.
//! - `laws`: what holds of a ring over several steps.

pub mod bindings;
pub mod index;
pub mod laws;
pub mod uring;
