//! Registration of a regional server with the central servers.

use vstd::prelude::*;

verus! {

/// Operation code of a batch of transactions sent by a regional server.
pub const REGIONAL_BATCH: u8 = 6;

/// Operation code of the registration of a regional server.
pub const REGISTER_REGIONAL: u8 = 8;

/// A regional server announces its unique alphanumeric name and the
/// `ip:port` where it listens for updates from the central servers.
#[derive(Debug, Clone)]
pub struct RegisterRegionalMessage {
    pub name: String,
    pub sync_address: String,
}

impl RegisterRegionalMessage {
    pub fn new(name: String, sync_address: String) -> (m: Self)
        ensures
            m.name@ == name@,
            m.sync_address@ == sync_address@,
    {
        RegisterRegionalMessage { name, sync_address }
    }
}

} // verus!
