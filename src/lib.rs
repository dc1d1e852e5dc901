//! Peer-to-peer segment exchange: the decisions of a peer node's event loop,
//! the bounded registry of pending segment requests, and the wire rules they
//! rely on.

pub mod actions;
pub mod address;
pub mod config;
pub mod discovery;
pub mod event_loop;
pub mod events;
pub mod protocol;
pub mod registry;
pub mod segment_protocol;
pub mod storage;
