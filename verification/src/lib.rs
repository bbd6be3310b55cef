//! A model of a minimal preemptive microkernel for x86_64: a timer-driven
//! round-robin scheduler over task control blocks, a register-level context
//! switch, per-task mailboxes with blocking receive, a counting semaphore,
//! a bump frame allocator fed from a firmware memory map, and the mapping
//! plan for a fixed-range kernel heap.
//!
//! The hardware edges (interrupt controller, IDT, VGA memory, page-table
//! writes) live outside this crate; everything here is plain data and the
//! decisions the kernel takes on it.

pub mod boot;
pub mod interrupts;
pub mod memory;
pub mod registry;
pub mod sync;
pub mod task;
pub mod vga_buffer;
