//! From the address of a connection to the address on which the peer listens.
use vstd::prelude::*;

use crate::address::SocketAddr;
use crate::table::Table;

verus! {

/// The listener address of the peer at the other end of each connection.
pub struct Resolver {
    to_listener: Table<SocketAddr, SocketAddr>,
}

impl View for Resolver {
    type V = Map<SocketAddr, SocketAddr>;

    closed spec fn view(&self) -> Map<SocketAddr, SocketAddr> {
        self.to_listener@
    }
}

impl Resolver {
    /// Makes a resolver that knows of no connection.
    pub fn new() -> (resolver: Self)
        ensures
            resolver@ == Map::<SocketAddr, SocketAddr>::empty(),
    {
        Resolver { to_listener: Table::new() }
    }

    /// Returns the listener address of the peer at the other end of the connection.
    pub fn get_listener(&self, connected_addr: &SocketAddr) -> (listener_addr: Option<SocketAddr>)
        ensures
            listener_addr == self@.get(*connected_addr),
    {
        match self.to_listener.get(connected_addr) {
            Some(listener_addr) => Some(*listener_addr),
            None => None,
        }
    }

    /// Notes the listener address of the peer at the other end of the connection.
    pub fn insert_peer(&mut self, listener_addr: SocketAddr, connected_addr: SocketAddr)
        ensures
            final(self)@ == old(self)@.insert(connected_addr, listener_addr),
    {
        self.to_listener.insert(connected_addr, listener_addr);
    }

    /// Forgets the connection.
    pub fn remove_peer(&mut self, connected_addr: &SocketAddr)
        ensures
            final(self)@ == old(self)@.remove(*connected_addr),
    {
        let _ = self.to_listener.remove(connected_addr);
    }
}

} // verus!
