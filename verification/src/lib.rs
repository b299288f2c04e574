//! A modified Dandelion protocol for private broadcasting in a peer-to-peer network.
//!
//! A message does not go out to everyone at once. It first travels along a stem, from one peer to
//! the next, and only then, at a moment that chance decides, turns to fluff and spreads to many. A
//! peer that sees the message come cannot tell where it began.
//!
//! The crate holds what a node keeps and decides: which messages wait, which of them are due, whom
//! they are handed to and in what form they are stored meanwhile. The network, the store, the clock
//! and the drawing of sequence numbers are left to the program around it.

pub mod address;
pub mod bytes;
pub mod codec;
pub mod command;
pub mod connect;
pub mod dandelion;
pub mod laws;
pub mod message;
pub mod message_id;
pub mod node;
pub mod peer;
pub mod pending;
pub mod propagation;
pub mod selection;
pub mod spread;
pub mod validation;

pub use crate::dandelion::Dandelion;
pub use crate::message::{FluffTransitionMessage, PendingMessage};
pub use crate::node::DandelionNode;
pub use crate::peer::PeerId;
