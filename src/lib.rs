//! Address-space management for a freestanding x86_64 kernel: physical frame
//! allocation, page-table mapping, heap bootstrap and the firmware-table
//! walk that sits on top of them.
pub mod frame_allocator;
pub mod paging;
pub mod memory;
pub mod heap;
pub mod laws;
pub mod acpi;
pub mod color;
pub mod backtrace;
pub mod runner;
pub mod logger;
