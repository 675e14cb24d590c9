//! A typed message-channel router between application code and a
//! message-based network transport.
//!
//! Each registered message type owns three transport channels, one per
//! delivery mode, and a delivery queue. Writers encode a message and hand
//! it to the transport on the channel of the chosen mode; once per tick a
//! pump moves what the transport has received into the queues; readers
//! empty the queue of their type and decode what they find. For messages
//! of many types on one shared channel there are envelopes, which name the
//! type of their payload, and a registry that finds the handler of a named
//! type. An identity map pairs local entities with their remote
//! counterparts.

pub mod names;
pub mod channel_map;
pub mod message;
pub mod delivery;
pub mod transport;
pub mod setup;
pub mod pump;
pub mod endpoint;
pub mod envelope;
pub mod dispatch;
pub mod entity_map;
