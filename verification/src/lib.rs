//! Pointer redaction for process crash dumps.
//!
//! A crash dump is handled here as a byte buffer together with the values
//! decoded from its streams: the loaded modules, the thread stacks, the
//! memory regions and the pointer width of the target. The library checks the
//! modules against an allow-list, checks that every thread stack is a listed
//! memory region, and then zeroes every pointer-sized window of every region
//! whose value does not point into a loaded module.
pub mod address_index;
pub mod consistency;
pub mod laws;
pub mod model;
pub mod pipeline;
pub mod report;
pub mod scanner;
pub mod trust_gate;
