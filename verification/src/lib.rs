//! A verified model of a scripting VM's introspection and patching layer.
//!
//! The layer exposes normally-hidden interpreter internals: the operand
//! stack, function constants, nested prototypes and upvalues, table
//! read-only flags and metatables, the registry, and a hook registry that
//! maps an original function's identity to its replacement.
//!
//! The VM state itself (tables, functions, frames, the operand stack) is
//! modeled as plain verified data, so every operation of the layer carries
//! a contract that pins down its result and its effect on the state. The
//! state is kept as open public data so that hosts and tests can inspect
//! it directly; the operations' contracts, not field privacy, are what
//! the layer guarantees.

pub mod debug_api;
pub mod function_api;
pub mod gc_api;
pub mod globals;
pub mod laws;
pub mod table;
pub mod value;
pub mod vm;
