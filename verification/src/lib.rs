//! A minimal type-1-style hypervisor host library: page-aligned address
//! arithmetic, a guest-physical page pool, a software model of 4-level
//! hardware page tables, host-backed physical region bookkeeping, an ELF
//! kernel loader, and the hypercall/exit-handling protocol of the VM
//! control loop.
//!
//! All decision logic lives here and is verified; the host-facing side
//! (KVM ioctls, mmap, file reading) lives in the surrounding application,
//! which hands this library plain values.
#![allow(non_snake_case)]

pub mod addr;
pub mod common;
pub mod elf;
pub mod mem;
pub mod pagetable;
pub mod print;
pub mod shared;
pub mod vm;
pub mod vmspace;

pub use common::Error;
