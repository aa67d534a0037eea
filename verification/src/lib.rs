//! Crust: a Minecraft layer-7 reverse proxy.
//!
//! This crate holds the protocol logic of the proxy: the wire encodings
//! (VarInt, strings, NBT, packets), chat components and their JSON form,
//! the packet id registry, and the decisions the proxy makes on the data
//! it reads.  Reading and writing sockets is left to the binary that
//! drives the library.
use vstd::prelude::*;

pub mod auth;
pub mod chat;
pub mod haproxy;
pub mod inet;
pub mod permission;
pub mod plugin;
pub mod server;
pub mod util;
pub mod version;

verus! {

} // verus!
