//! Files: open flags, the per-task file kinds, file status, and the flat file system.
pub mod file;
pub mod inode;
pub mod stat;
