//! Signaling substrate for peer-to-peer media sessions: the wire message
//! model and its codec, the role-scoped negotiation state machine, the
//! relay's subscriber registry, and the per-line decisions of the bridge.

pub mod bridge;
pub mod codec;
pub mod json;
pub mod negotiation;
pub mod relay;
pub mod scan;
pub mod signal;

pub use crate::relay::MsgType;
pub use crate::signal::Signal;
