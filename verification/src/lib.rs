//! Core of a Bluetooth LE mesh chat: every message floods over all
//! connections, with de-duplication.
//!
//! - [`protocol`]: the packet format.
//! - [`seen`]: the memory of message ids.
//! - [`mesh`]: links, de-dup, TTL and fan-out.
//! - [`address`], [`peer_registry`]: who dials whom, and one link per peer.
//! - [`gatt_ids`]: the GATT service, and finding its characteristic.
//! - [`active`], [`central`]: the dialling role, with and without retries.
//! - [`peripheral`]: the accepting role.
//! - [`pump`]: moving bytes between a link and the mesh.
//! - [`chat`]: names and typed lines.
pub mod active;
pub mod address;
pub mod central;
pub mod chat;
pub mod gatt_ids;
pub mod mesh;
pub mod peer_registry;
pub mod peripheral;
pub mod protocol;
pub mod pump;
pub mod seen;
