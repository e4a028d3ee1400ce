//! Memory management: addresses, page-table entries, physical frames and address spaces.
pub mod address;
pub mod page_table;
pub mod frame;
pub mod memory_set;
pub mod user_access;
pub mod elf;
