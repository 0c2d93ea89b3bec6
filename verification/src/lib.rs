//! A verified model of a cross-runtime interop boundary: a fixed-layout
//! tagged value, a string-interning table, a reference-counted handle
//! registry, buffer-negotiated list marshalling, a procedure dispatcher,
//! and a bind-once forwarding table.
//!
//! The host engine owns all real object storage; this library states and
//! proves the boundary semantics that both runtimes must honor. The raw
//! C-ABI shell that carries these operations across a foreign interface
//! lives outside the verified core.

pub mod dispatch;
pub mod guard;
pub mod host;
pub mod intern;
pub mod lists;
pub mod numbits;
pub mod registry;
pub mod spatial;
pub mod table;
pub mod text;
pub mod trampoline;
pub mod value;
