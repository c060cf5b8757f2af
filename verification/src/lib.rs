//! Client-side building blocks for talking to locally running GNUnet
//! services over length-prefixed binary byte streams.
//!
//! The crate covers the protocol substrate shared by the individual
//! service bindings: the wire frame codec, the decisions of the
//! background dispatch loop, the correlation registry that matches
//! reply frames to outstanding requests, and the synchronous
//! request/reply and sentinel-terminated streaming patterns, with
//! the name-resolution and identity bindings built on them.
//! All byte-level work happens on plain values; the sockets, threads
//! and channels that drive it live outside the library.

pub mod configuration;
pub mod data;
pub mod ecdsa;
pub mod gns;
pub mod hashcode;
pub mod hello;
pub mod identity;
pub mod peerinfo;
pub mod record;
pub mod service;
pub mod time;
pub mod transport;
pub mod util;
pub mod wire;

pub use configuration::Cfg;
pub use ecdsa::{EcdsaPrivateKey, EcdsaPublicKey};
pub use gns::{LocalOptions, GNS};
pub use hashcode::HashCode;
pub use hello::Hello;
pub use identity::{Ego, IdentityService};
pub use peerinfo::{iterate_peers, PeerIdentity};
pub use record::{Record, RecordType};
