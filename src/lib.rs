//! Boot-time memory bootstrap: a physical frame allocator over an explicit
//! free list, the translation-root address check, and the order in which
//! segment registers are loaded.

pub mod gdt;
pub mod memory;
