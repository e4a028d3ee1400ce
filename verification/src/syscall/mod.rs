//! The system calls.
pub mod fs;
pub mod process;
