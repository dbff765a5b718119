//! The process-facing core of a small kernel: the timer arithmetic, the
//! per-task instrumentation, the address-space mapper, the per-process
//! synchronization tables and the deadlock detector that guards them.
//!
//! Nothing here touches hardware or suspends a task. The kernel around this
//! crate reads the tick counter, switches tasks and copies results to user
//! memory; this crate decides what happens and keeps the books.

pub mod timer;
pub mod deadlock;
pub mod mm;
pub mod syscall;
