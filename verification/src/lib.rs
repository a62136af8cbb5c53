//! Memory-management and interrupt-to-concurrency core of a cooperative,
//! single-threaded kernel: a boot-map frame allocator, a multi-level page
//! table mapper, and a lock-free scancode channel with a single-slot wake
//! handle bridging interrupt-context producers to a polled consumer.

pub mod memory;
pub mod paging;
pub mod keyboard;
pub mod decode;
