//! A fuel pump: where it waits for the answers about its sales, and under
//! which address it tells the gas station to send them.

use vstd::prelude::*;

verus! {

/// A fuel pump.
pub struct Pump {
    response_listener_port: u16,
    local_address: String,
}

impl View for Pump {
    /// `(response_listener_port, local_address)`
    type V = (u16, Seq<char>);

    closed spec fn view(&self) -> (u16, Seq<char>) {
        (self.response_listener_port, self.local_address@)
    }
}

impl Pump {
    /// A pump that takes answers on `response_listener_port` and reports
    /// `local_address` as its own.
    pub fn new(response_listener_port: u16, local_address: String) -> (p: Self)
        ensures
            p@ == (response_listener_port, local_address@),
    {
        Pump { response_listener_port, local_address }
    }

    /// The port where the pump takes answers.
    pub fn response_listener_port(&self) -> (r: u16)
        ensures
            r == self@.0,
    {
        self.response_listener_port
    }

    /// The address the pump reports as its own.
    pub fn local_address(&self) -> (r: String)
        ensures
            r@ == self@.1,
    {
        self.local_address.clone()
    }
}

} // verus!
