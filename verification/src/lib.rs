//! A model of the task-management and system-call layer of a small
//! RISC-V teaching kernel: address spaces, physical frames, tasks and
//! their scheduling state, the task manager, an in-memory flat file
//! system and the system calls built on them.
use vstd::prelude::*;

pub mod config;
pub mod mm;
pub mod properties;
pub mod syscall;
pub mod trap;
pub mod task;

pub mod fs;
pub mod kernel;
