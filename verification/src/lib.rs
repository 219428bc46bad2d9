//! Core of a keyboard firmware for a single-core microcontroller: a
//! segmented four-window free-list allocator and the critical-section
//! based synchronization primitives (atomic cell, spin mutex,
//! reader-writer lock with downgrade) it is built on.
//!
//! On the target there is no hardware compare-and-swap: every atomic
//! step is made indivisible by masking interrupts. Here each such step
//! is a verified transition on exclusively borrowed state; the
//! interrupt-masking shell that shares these values between the main
//! line and interrupt handlers lives outside the verified library.

pub mod allocator;
pub mod atomic;
pub mod sync;
