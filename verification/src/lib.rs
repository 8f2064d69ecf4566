//! A dynamic instance store for instanced rendering.
//!
//! Many short-lived rectangular instances (wires, pins, board tiles) are
//! inserted, updated and removed at high frequency while all live records
//! must stay packed in one contiguous buffer for a single instanced draw
//! call. The store hands out stable, copyable handles and keeps the packed
//! array dense with O(1) swap-removal; a mirror of the packed records is
//! kept in sync for upload to the graphics device.

pub mod gesture;
pub mod instance;
pub mod wire;

pub use instance::Handle;
pub use instance::InstanceManager;
