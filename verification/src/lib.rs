//! Verified core of a small security microkernel: physical frame allocation,
//! stage-1 page tables, capabilities, IPC endpoints, HSM slot registry,
//! the lumen wire protocol, entropy health testing and ELF loading checks.
pub mod memory_map;
pub mod allocator;
pub mod mmu;
pub mod capability;
pub mod health;
pub mod hsm_attest;
pub mod bus;
pub mod ipc;
pub mod syscall;
pub mod hsm_registry;
pub mod crypto_service;
pub mod keystore;
pub mod elf;
pub mod air_gap;
pub mod platform;
pub mod descriptors;
pub mod jitter;
pub mod multiboot2;
