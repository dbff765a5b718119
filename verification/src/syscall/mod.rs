//! The system calls, each as a function of the state it works on.

pub mod process;
pub mod sync;
pub mod task;
