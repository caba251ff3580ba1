//! The networks that a node can join, and the peers through which it finds its way in.
use vstd::prelude::*;

use crate::address::{v4_addr, SocketAddr};

verus! {

/// The default port used by the router.
pub const DEFAULT_NODE_PORT: u16 = 4130;

/// The network that a node joins.
#[derive(Clone, Copy, Debug, PartialEq, Eq, Structural)]
pub struct Network {
    /// The id of the network.
    pub id: u16,
    /// Whether the node is a build for tests, which knows of no bootstrap peers.
    pub is_test: bool,
}

/// The id of mainnet, `<snarkvm::console::network::MainnetV0 as Network>::ID`, which is 0.
#[verifier::external_body]
fn mainnet_id() -> (id: u16)
    ensures
        id == 0,
{
    <snarkvm::console::network::MainnetV0 as snarkvm::console::network::Network>::ID
}

/// The id of testnet, `<snarkvm::console::network::TestnetV0 as Network>::ID`, which is 1.
#[verifier::external_body]
fn testnet_id() -> (id: u16)
    ensures
        id == 1,
{
    <snarkvm::console::network::TestnetV0 as snarkvm::console::network::Network>::ID
}

/// The id of canary, `<snarkvm::console::network::CanaryV0 as Network>::ID`, which is 2.
#[verifier::external_body]
fn canary_id() -> (id: u16)
    ensures
        id == 2,
{
    <snarkvm::console::network::CanaryV0 as snarkvm::console::network::Network>::ID
}

/// The bootstrap peers of a network, for a node that is in development mode or not.
pub open spec fn bootstrap_addrs(network: Network, is_dev: bool) -> Seq<SocketAddr> {
    if network.is_test || is_dev {
        seq![]
    } else if network.id == 0 {
        seq![
            v4_addr(35, 231, 67, 219, 4130),
            v4_addr(34, 73, 195, 196, 4130),
            v4_addr(34, 23, 225, 202, 4130),
            v4_addr(34, 148, 16, 111, 4130),
        ]
    } else if network.id == 1 {
        seq![
            v4_addr(34, 138, 104, 159, 4130),
            v4_addr(35, 231, 46, 237, 4130),
            v4_addr(34, 148, 251, 155, 4130),
            v4_addr(35, 190, 141, 234, 4130),
        ]
    } else if network.id == 2 {
        seq![
            v4_addr(34, 139, 88, 58, 4130),
            v4_addr(34, 139, 252, 207, 4130),
            v4_addr(35, 185, 98, 12, 4130),
            v4_addr(35, 231, 106, 26, 4130),
        ]
    } else {
        seq![]
    }
}

/// Returns the list of bootstrap peers.
pub fn bootstrap_peers(network: Network, is_dev: bool) -> (peers: Vec<SocketAddr>)
    ensures
        peers@ == bootstrap_addrs(network, is_dev),
{
    let mut peers: Vec<SocketAddr> = Vec::new();
    if network.is_test || is_dev {
        // Development testing contains no bootstrap peers.
    } else if network.id == mainnet_id() {
        // Mainnet contains the following bootstrap peers.
        peers.push(SocketAddr::v4(35, 231, 67, 219, 4130));
        peers.push(SocketAddr::v4(34, 73, 195, 196, 4130));
        peers.push(SocketAddr::v4(34, 23, 225, 202, 4130));
        peers.push(SocketAddr::v4(34, 148, 16, 111, 4130));
    } else if network.id == testnet_id() {
        // Testnet contains the following bootstrap peers.
        peers.push(SocketAddr::v4(34, 138, 104, 159, 4130));
        peers.push(SocketAddr::v4(35, 231, 46, 237, 4130));
        peers.push(SocketAddr::v4(34, 148, 251, 155, 4130));
        peers.push(SocketAddr::v4(35, 190, 141, 234, 4130));
    } else if network.id == canary_id() {
        // Canary contains the following bootstrap peers.
        peers.push(SocketAddr::v4(34, 139, 88, 58, 4130));
        peers.push(SocketAddr::v4(34, 139, 252, 207, 4130));
        peers.push(SocketAddr::v4(35, 185, 98, 12, 4130));
        peers.push(SocketAddr::v4(35, 231, 106, 26, 4130));
    } else {
        // Unrecognized networks contain no bootstrap peers.
    }
    peers
}

} // verus!
