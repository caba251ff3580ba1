//! Peers and the status of the connection to them.
use vstd::prelude::*;

use crate::address::SocketAddr;

verus! {

/// The role of a node in the network.
#[derive(Clone, Copy, Debug, PartialEq, Eq, Hash, Structural)]
pub enum NodeType {
    /// A client node.
    Client,
    /// A prover node.
    Prover,
    /// A validator node.
    Validator,
}

/// A peer that is known but not connected to.
#[derive(Clone, Copy, Debug)]
pub struct CandidatePeer {
    /// The address on which the peer listens.
    pub listener_addr: SocketAddr,
    /// Whether the peer is trusted.
    pub trusted: bool,
    /// The greatest block height that is known of the peer.
    pub last_height_seen: Option<u32>,
}

/// A peer with which a handshake is under way.
#[derive(Clone, Copy, Debug)]
pub struct ConnectingPeer {
    /// The address on which the peer listens.
    pub listener_addr: SocketAddr,
    /// Whether the peer is trusted.
    pub trusted: bool,
}

/// A peer with which a handshake has been completed; `A` is the type of account addresses.
#[derive(Clone, Copy, Debug)]
pub struct ConnectedPeer<A> {
    /// The address on which the peer listens.
    pub listener_addr: SocketAddr,
    /// The (ambiguous) address of the connection.
    pub connected_addr: SocketAddr,
    /// Whether the peer is trusted.
    pub trusted: bool,
    /// The account address of the peer.
    pub aleo_addr: A,
    /// The role of the peer.
    pub node_type: NodeType,
    /// The greatest block height that is known of the peer.
    pub last_height_seen: Option<u32>,
    /// The time of the last message from the peer, in milliseconds on the node's clock.
    pub last_seen: u64,
}

/// A peer of any connection status; `A` is the type of account addresses.
#[derive(Clone, Copy, Debug)]
pub enum Peer<A> {
    /// A peer that is known but not connected to.
    Candidate(CandidatePeer),
    /// A peer with which a handshake is under way.
    Connecting(ConnectingPeer),
    /// A peer with which a handshake has been completed.
    Connected(ConnectedPeer<A>),
}

/// The candidate peer at `listener_addr` of which no block height is known.
pub open spec fn fresh_candidate<A>(listener_addr: SocketAddr, trusted: bool) -> Peer<A> {
    Peer::Candidate(CandidatePeer { listener_addr, trusted, last_height_seen: None })
}

impl<A: Copy> Peer<A> {
    /// Whether the peer is trusted.
    pub open spec fn trusted(self) -> bool {
        match self {
            Peer::Candidate(peer) => peer.trusted,
            Peer::Connecting(peer) => peer.trusted,
            Peer::Connected(peer) => peer.trusted,
        }
    }

    /// The address on which the peer listens.
    pub open spec fn listener(self) -> SocketAddr {
        match self {
            Peer::Candidate(peer) => peer.listener_addr,
            Peer::Connecting(peer) => peer.listener_addr,
            Peer::Connected(peer) => peer.listener_addr,
        }
    }

    /// The greatest block height that is known of the peer.
    pub open spec fn height(self) -> Option<u32> {
        match self {
            Peer::Candidate(peer) => peer.last_height_seen,
            Peer::Connecting(_) => None,
            Peer::Connected(peer) => peer.last_height_seen,
        }
    }

    /// The peer as a candidate at `listener_addr`, as trusted as before and with what was known
    /// of its block height.
    pub open spec fn as_candidate(self, listener_addr: SocketAddr) -> Peer<A> {
        Peer::Candidate(
            CandidatePeer {
                listener_addr,
                trusted: self.trusted(),
                last_height_seen: self.height(),
            },
        )
    }

    /// The peer after a message from it at time `now`.
    pub open spec fn seen_at(self, now: u64) -> Peer<A> {
        match self {
            Peer::Connected(peer) => Peer::Connected(ConnectedPeer { last_seen: now, ..peer }),
            _ => self,
        }
    }

    /// Makes a candidate peer.
    pub fn new_candidate(listener_addr: SocketAddr, trusted: bool) -> (peer: Self)
        ensures
            peer == fresh_candidate::<A>(listener_addr, trusted),
    {
        Peer::Candidate(CandidatePeer { listener_addr, trusted, last_height_seen: None })
    }

    /// Makes a connecting peer.
    pub fn new_connecting(listener_addr: SocketAddr, trusted: bool) -> (peer: Self)
        ensures
            peer == Peer::<A>::Connecting(ConnectingPeer { listener_addr, trusted }),
    {
        Peer::Connecting(ConnectingPeer { listener_addr, trusted })
    }

    /// Returns `true` if the peer is a candidate.
    pub fn is_candidate(&self) -> (b: bool)
        ensures
            b == (self is Candidate),
    {
        match self {
            Peer::Candidate(_) => true,
            _ => false,
        }
    }

    /// Returns `true` if a handshake with the peer is under way.
    pub fn is_connecting(&self) -> (b: bool)
        ensures
            b == (self is Connecting),
    {
        match self {
            Peer::Connecting(_) => true,
            _ => false,
        }
    }

    /// Returns `true` if the peer is connected.
    pub fn is_connected(&self) -> (b: bool)
        ensures
            b == (self is Connected),
    {
        match self {
            Peer::Connected(_) => true,
            _ => false,
        }
    }

    /// Returns `true` if the peer is trusted.
    pub fn is_trusted(&self) -> (b: bool)
        ensures
            b == self.trusted(),
    {
        match self {
            Peer::Candidate(peer) => peer.trusted,
            Peer::Connecting(peer) => peer.trusted,
            Peer::Connected(peer) => peer.trusted,
        }
    }

    /// Returns the address on which the peer listens.
    pub fn listener_addr(&self) -> (addr: SocketAddr)
        ensures
            addr == self.listener(),
    {
        match self {
            Peer::Candidate(peer) => peer.listener_addr,
            Peer::Connecting(peer) => peer.listener_addr,
            Peer::Connected(peer) => peer.listener_addr,
        }
    }

    /// Returns the greatest block height that is known of the peer.
    pub fn last_height_seen(&self) -> (height: Option<u32>)
        ensures
            height == self.height(),
    {
        match self {
            Peer::Candidate(peer) => peer.last_height_seen,
            Peer::Connecting(_) => None,
            Peer::Connected(peer) => peer.last_height_seen,
        }
    }

    /// Turns the peer into a candidate at `listener_addr`.
    pub fn downgrade_to_candidate(&mut self, listener_addr: SocketAddr)
        ensures
            *final(self) == old(self).as_candidate(listener_addr),
    {
        *self = Peer::Candidate(
            CandidatePeer {
                listener_addr,
                trusted: self.is_trusted(),
                last_height_seen: self.last_height_seen(),
            },
        );
    }

    /// Notes that a message from the peer came at time `now`; only a connected peer keeps that.
    pub fn update_last_seen(&mut self, now: u64)
        ensures
            *final(self) == old(self).seen_at(now),
    {
        if let Peer::Connected(peer) = self {
            peer.last_seen = now;
        }
    }
}

} // verus!
