//! Verified core of a teaching kernel's process-management and
//! synchronisation system calls: argument checking for memory mapping,
//! the time value handed to user space, slot allocation for mutexes,
//! semaphores and condition variables, and deadlock avoidance by the
//! banker's safety check.

pub mod banker;
pub mod table;
pub mod sync;
pub mod memory;
pub mod time;
pub mod trace;
