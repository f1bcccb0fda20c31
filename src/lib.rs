//! A relay for shared game sessions: the binary wire format of state updates,
//! the length-prefixed framing used on each stream, the registry of attached
//! connections, and the per-connection session state machine.

pub mod debugutils;
pub mod frame;
pub mod identity;
pub mod item;
pub mod map;
pub mod packet;
pub mod player;
pub mod registry;
pub mod session;

