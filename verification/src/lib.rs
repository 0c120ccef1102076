//! Building blocks for memory shared between processes: slot maps of fixed capacity with
//! stable integer keys, the allocator from which they take their place, and checked paths
//! of the file system.
//!
//! A slot map hands out a [`slotmap::SlotMapKey`] for every stored value. The key stays valid
//! while other values are inserted or removed. Every operation carries a contract over the
//! mathematical model in [`model`]; [`laws`] holds what follows for every slot map.
//!
//! A [`path::Path`] holds bytes that were checked when they went in.

pub mod allocator;
pub mod key;
pub mod laws;
pub mod math;
pub mod model;
pub mod path;
pub mod pointer;
pub mod slotmap;
