//! Low-level memory subsystem for a single-core, bare-metal 64-bit ARM
//! kernel: a physical frame allocator over a compact bitmap with sub-page
//! "squeeze" reuse, a multi-level page-table builder with hardware
//! descriptor encoding, and a state machine that activates the address
//! space by programming translation-control values in a fixed order.

pub mod boot_alloc;
pub mod driver;
pub mod error;
pub mod fonts;
pub mod kalloc;
pub mod mmu;
pub mod sync;
pub mod utils;
