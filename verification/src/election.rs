//! Leader election on a ring of central servers, failure detection by
//! heartbeats, and topology synchronisation.

pub mod heartbeat;
pub mod messages;
pub mod ring_election;
