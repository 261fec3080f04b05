//! The process and communication core of a small Unix-like kernel: the
//! process table with its round-robin scheduler, bounded message queues,
//! shared-memory segments, signals, and the system calls that reach them.
//!
//! Every operation comes with a contract over a plain-value model of the
//! state it acts on, and the laws that tie the operations together are
//! proved beside them. The library owns no global state and touches no
//! device: the kernel binary keeps the managers behind its locks and does
//! the input and output.

pub mod address;
pub mod assoc;
pub mod ipc;
pub mod process;
pub mod shm;
pub mod signal;
pub mod syscall;
