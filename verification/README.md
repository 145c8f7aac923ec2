# iso_light_k0

The verified core of a small security microkernel for x86_64 and aarch64.

- `src/` is the library, checked by Verus: the multiboot2 hand-off parser,
  the memory map and the bitmap frame allocator, stage-1 page tables with
  W^X, the TSS/IDT/PIC values the boot loads, control-register settings,
  capabilities and IPC endpoints, the HSM slot registry and its syscall
  argument checks, the lumen wire protocol and its buses, the crypto service
  request handling (SHA-2/SHA-3/HMAC/HKDF/X448 through their crates), the
  software key store, entropy health tests and the jitter decisions, the ELF
  loader checks, the air-gap capabilities and the audit ring.
- `app/` is ordinary Rust around it: the syscall glue that copies between
  user memory and the handlers, the crypto service loop, the boot bring-up
  over a `Machine` trait and its x86_64 implementation, and the serde form of
  the wire header.
- `tests/` exercise the library with known answers and the scenarios of the
  syscall and wire protocols.
