//! The router: what a node knows of its peers, and what it does about them.
use std::ops::Deref;

use vstd::prelude::*;

use crate::address::SocketAddr;
use crate::network::Network;
use crate::peer::{fresh_candidate, ConnectedPeer, NodeType, Peer};
use crate::pool::{
    candidate_set, connected_at, connected_set, leads_to, PeerPool, PeerPoolHandling, Tcp,
};
use crate::resolver::Resolver;
use crate::table::{lists, Table};

verus! {

/// The minimum permitted interval between connection attempts for an IP, in seconds; anything
/// shorter is considered malicious.
pub const CONNECTION_ATTEMPTS_SINCE_SECS: i64 = 10;

/// The maximum amount of connection attempts within that interval.
pub const MAX_CONNECTION_ATTEMPTS: usize = 10;

/// The duration, in seconds, after which a connected peer is considered inactive or disconnected
/// if no message has been received in the meantime.
pub const MAX_RADIO_SILENCE_SECS: u64 = 150;

/// The maximum number of candidate peers permitted to be stored in the node.
pub const MAXIMUM_CANDIDATE_PEERS: usize = 10_000;

/// The account of a node: its private key, its view key and its address.
pub struct Account<P, V, A> {
    /// The private key.
    pub private_key: P,
    /// The view key.
    pub view_key: V,
    /// The address.
    pub address: A,
}

/// The state of a router, the locks and the tasks around it aside.
pub struct InnerRouter<P, V, A: Copy> {
    /// What the rules read of the TCP stack.
    tcp: Tcp,
    /// The network that the node has joined.
    network: Network,
    /// The node type.
    node_type: NodeType,
    /// The account of the node.
    account: Account<P, V, A>,
    /// The resolver.
    resolver: Resolver,
    /// The collection of both candidate and connected peers.
    peer_pool: PeerPool<A>,
    /// If the flag is set, the node will periodically evict more external peers.
    rotate_external_peers: bool,
    /// If the flag is set, the node will engage in P2P gossip to request more peers.
    allow_external_peers: bool,
    /// The boolean flag for the development mode.
    is_dev: bool,
}

/// The router keeps track of connected and connecting peers; `P`, `V` and `A` are the types of
/// private keys, view keys and addresses of accounts.
pub struct Router<P, V, A: Copy>(InnerRouter<P, V, A>);

/// A request for the blocks from `start_height` on, up to but without `end_height`.
#[derive(Clone, Copy, Debug, PartialEq, Eq, Structural)]
pub struct BlockRequest {
    /// The first height that is requested.
    pub start_height: u32,
    /// The height before which the request ends.
    pub end_height: u32,
}

/// What a router holds.
pub struct RouterView<P, V, A> {
    pub tcp: Tcp,
    pub network: Network,
    pub node_type: NodeType,
    pub account: Account<P, V, A>,
    /// From the addresses of connections to listener addresses.
    pub resolver: Map<SocketAddr, SocketAddr>,
    /// The known peers, by their listener addresses.
    pub pool: Map<SocketAddr, Peer<A>>,
    pub rotate_external_peers: bool,
    pub allow_external_peers: bool,
    pub is_dev: bool,
}

impl<P, V, A: Copy> View for InnerRouter<P, V, A> {
    type V = RouterView<P, V, A>;

    closed spec fn view(&self) -> RouterView<P, V, A> {
        RouterView {
            tcp: self.tcp,
            network: self.network,
            node_type: self.node_type,
            account: self.account,
            resolver: self.resolver@,
            pool: self.peer_pool@,
            rotate_external_peers: self.rotate_external_peers,
            allow_external_peers: self.allow_external_peers,
            is_dev: self.is_dev,
        }
    }
}

impl<P, V, A: Copy> View for Router<P, V, A> {
    type V = RouterView<P, V, A>;

    closed spec fn view(&self) -> RouterView<P, V, A> {
        self.0@
    }
}

impl<P, V, A: Copy> Deref for Router<P, V, A> {
    type Target = InnerRouter<P, V, A>;

    fn deref(&self) -> (inner: &InnerRouter<P, V, A>)
        ensures
            inner@ == self@,
    {
        &self.0
    }
}

impl<P, V, A: Copy> PeerPoolHandling<A> for Router<P, V, A> {
    open spec fn pool(&self) -> Map<SocketAddr, Peer<A>> {
        self@.pool
    }

    open spec fn tcp_state(&self) -> Tcp {
        self@.tcp
    }

    open spec fn joined(&self) -> Network {
        self@.network
    }

    open spec fn same_but_pool(&self, other: &Self) -> bool {
        other@ == (RouterView { pool: other@.pool, ..self@ })
    }

    fn peer_pool(&self) -> (pool: &PeerPool<A>) {
        &self.0.peer_pool
    }

    fn peer_pool_mut(&mut self) -> (pool: &mut PeerPool<A>) {
        &mut self.0.peer_pool
    }

    fn tcp(&self) -> (tcp: Tcp) {
        self.0.tcp
    }

    fn network(&self) -> (network: Network) {
        self.0.network
    }
}

/// The pool of a router that starts with some cached and some trusted peers. A peer that is both
/// is trusted.
pub open spec fn initial_pool<A>(cached: Seq<SocketAddr>, trusted: Seq<SocketAddr>) -> Map<
    SocketAddr,
    Peer<A>,
> {
    Map::new(
        |k: SocketAddr| cached.contains(k) || trusted.contains(k),
        |k: SocketAddr| fresh_candidate::<A>(k, trusted.contains(k)),
    )
}

/// A node of the given type accepts the message version. Provers accept no version before the
/// latest one; validators and clients accept all from the lowest accepted one on.
pub open spec fn accepts_version(
    node_type: NodeType,
    message_version: u32,
    latest: u32,
    lowest_accepted: u32,
) -> bool {
    match node_type {
        NodeType::Prover => message_version >= latest,
        NodeType::Validator | NodeType::Client => message_version >= lowest_accepted,
    }
}

/// How many more candidate peers may be stored.
pub open spec fn candidate_quota<A>(pool: Map<SocketAddr, Peer<A>>) -> nat {
    if candidate_set(pool).len() < MAXIMUM_CANDIDATE_PEERS {
        (MAXIMUM_CANDIDATE_PEERS - candidate_set(pool).len()) as nat
    } else {
        0
    }
}

/// The addresses of `peers` that are neither this node nor known.
pub open spec fn eligible_addrs<A>(
    pool: Map<SocketAddr, Peer<A>>,
    local: SocketAddr,
    peers: Seq<SocketAddr>,
) -> Seq<SocketAddr> {
    peers.filter(|a: SocketAddr| !leads_to(local, a) && !pool.contains_key(a))
}

/// The addresses of `peers` that are added as candidates: the first eligible ones, as many as
/// there is room for.
pub open spec fn accepted_addrs<A>(
    pool: Map<SocketAddr, Peer<A>>,
    local: SocketAddr,
    peers: Seq<SocketAddr>,
) -> Seq<SocketAddr> {
    let eligible = eligible_addrs(pool, local, peers);
    if eligible.len() <= candidate_quota(pool) {
        eligible
    } else {
        eligible.take(candidate_quota(pool) as int)
    }
}

/// `pool` with new, untrusted candidates at the addresses `added`.
pub open spec fn with_candidates<A>(
    pool: Map<SocketAddr, Peer<A>>,
    added: Seq<SocketAddr>,
) -> Map<SocketAddr, Peer<A>> {
    Map::new(
        |k: SocketAddr| pool.contains_key(k) || added.contains(k),
        |k: SocketAddr|
            if added.contains(k) {
                fresh_candidate::<A>(k, false)
            } else {
                pool[k]
            },
    )
}

/// `pool` after the peer under `addr`, if there is one, was turned into a candidate.
pub open spec fn with_downgraded<A: Copy>(
    pool: Map<SocketAddr, Peer<A>>,
    addr: SocketAddr,
) -> Map<SocketAddr, Peer<A>> {
    if pool.contains_key(addr) {
        pool.insert(addr, pool[addr].as_candidate(addr))
    } else {
        pool
    }
}

/// `resolver` without the connection to the peer under `addr`, if it is connected.
pub open spec fn without_connection<A>(
    resolver: Map<SocketAddr, SocketAddr>,
    pool: Map<SocketAddr, Peer<A>>,
    addr: SocketAddr,
) -> Map<SocketAddr, SocketAddr> {
    if connected_set(pool).contains(addr) {
        resolver.remove(pool[addr]->Connected_0.connected_addr)
    } else {
        resolver
    }
}

/// `pool` after a message at time `now` from the peer under `addr`, if there is one.
pub open spec fn with_seen<A: Copy>(
    pool: Map<SocketAddr, Peer<A>>,
    addr: SocketAddr,
    now: u64,
) -> Map<SocketAddr, Peer<A>> {
    if pool.contains_key(addr) {
        pool.insert(addr, pool[addr].seen_at(now))
    } else {
        pool
    }
}

/// Puts candidates at the addresses `added` into the pool, in place of the peers that were there.
fn insert_candidates<A: Copy>(pool: &mut PeerPool<A>, added: &[SocketAddr], trusted: bool)
    ensures
        final(pool)@.dom() == old(pool)@.dom().union(added@.to_set()),
        forall|k: SocketAddr| #[trigger]
            final(pool)@.contains_key(k) ==> final(pool)@[k] == (if added@.contains(k) {
                fresh_candidate::<A>(k, trusted)
            } else {
                old(pool)@[k]
            }),
{
    let mut i: usize = 0;
    let ghost before = pool@;
    assert(before.dom() =~= before.dom().union(added@.take(0).to_set()));
    while i < added.len()
        invariant
            i <= added@.len(),
            before == old(pool)@,
            pool@.dom() == before.dom().union(added@.take(i as int).to_set()),
            forall|k: SocketAddr| #[trigger]
                pool@.contains_key(k) ==> pool@[k] == (if added@.take(i as int).contains(k) {
                    fresh_candidate::<A>(k, trusted)
                } else {
                    before[k]
                }),
        decreases added@.len() - i,
    {
        proof {
            let seen = added@.take(i as int);
            let next = added@.take(i + 1);
            assert(next =~= seen.push(added@[i as int]));
            assert forall|k: SocketAddr| #[trigger]
                next.contains(k) <==> seen.contains(k) || k == added@[i as int] by {
                if seen.contains(k) {
                    assert(next[seen.index_of(k)] == k);
                }
                assert(next[i as int] == added@[i as int]);
            }
        }
        pool.insert(added[i], Peer::new_candidate(added[i], trusted));
        i += 1;
        assert(pool@.dom() =~= before.dom().union(added@.take(i as int).to_set()));
    }
    assert(added@.take(i as int) =~= added@);
}

impl<P, V, A: Copy> Router<P, V, A> {
    /// Initializes a new `Router` instance, whose listener is not enabled yet. `cached_peers` are
    /// the entries of the peer cache.
    pub fn new(
        node_ip: SocketAddr,
        node_type: NodeType,
        account: Account<P, V, A>,
        network: Network,
        cached_peers: &[SocketAddr],
        trusted_peers: &[SocketAddr],
        max_peers: u16,
        rotate_external_peers: bool,
        allow_external_peers: bool,
        is_dev: bool,
    ) -> (router: Self)
        ensures
            router@ == (RouterView {
                tcp: Tcp { node_ip, listening_addr: None, max_connections: max_peers },
                network,
                node_type,
                account,
                resolver: Map::empty(),
                pool: initial_pool::<A>(cached_peers@, trusted_peers@),
                rotate_external_peers,
                allow_external_peers,
                is_dev,
            }),
    {
        // Prepare the collection of the initial peers.
        let mut initial_peers: PeerPool<A> = Table::new();
        // Introduce the entries from the peer cache.
        insert_candidates(&mut initial_peers, cached_peers, false);
        // Add the trusted peers to the list of the initial peers; this may promote
        // some of the cached peers to trusted ones.
        insert_candidates(&mut initial_peers, trusted_peers, true);
        assert(initial_peers@ =~= initial_pool::<A>(cached_peers@, trusted_peers@));
        // Initialize the router.
        Router(
            InnerRouter {
                tcp: Tcp { node_ip, listening_addr: None, max_connections: max_peers },
                network,
                node_type,
                account,
                resolver: Resolver::new(),
                peer_pool: initial_peers,
                rotate_external_peers,
                allow_external_peers,
                is_dev,
            },
        )
    }

    /// Notes the address on which the node listens, or that it no longer listens.
    pub fn set_listening_addr(&mut self, listening_addr: Option<SocketAddr>)
        ensures
            final(self)@ == (RouterView {
                tcp: Tcp { listening_addr, ..old(self)@.tcp },
                ..old(self)@
            }),
    {
        self.0.tcp.listening_addr = listening_addr;
    }

    /// Returns the resolver, to be changed.
    pub fn resolver_mut(&mut self) -> (resolver: &mut Resolver)
        ensures
            resolver@ == old(self)@.resolver,
            final(self)@ == (RouterView { resolver: final(resolver)@, ..old(self)@ }),
    {
        &mut self.0.resolver
    }

    /// Returns `true` if the message version is valid. Which is the latest message version, and
    /// which is the lowest one that is accepted at the current block height, is given.
    pub fn is_valid_message_version(
        &self,
        message_version: u32,
        latest_message_version: u32,
        lowest_accepted_message_version: u32,
    ) -> (b: bool)
        ensures
            b == accepts_version(
                self@.node_type,
                message_version,
                latest_message_version,
                lowest_accepted_message_version,
            ),
    {
        // Determine the minimum message version this node will accept, based on its role.
        // - Provers always operate at the latest message version.
        // - Validators and clients may accept older versions, depending on their current block height.
        let lowest_accepted: u32 = match self.0.node_type {
            // Provers should always use the latest version.
            NodeType::Prover => latest_message_version,
            // Validators and clients accept messages from lower version based on the migration height.
            NodeType::Validator | NodeType::Client => lowest_accepted_message_version,
        };
        // Check if the incoming message version is valid.
        message_version >= lowest_accepted
    }

    /// Returns the node type.
    pub fn node_type(&self) -> (node_type: NodeType)
        ensures
            node_type == self@.node_type,
    {
        self.0.node_type
    }

    /// Returns the account private key of the node.
    pub fn private_key(&self) -> (private_key: &P)
        ensures
            *private_key == self@.account.private_key,
    {
        &self.0.account.private_key
    }

    /// Returns the account view key of the node.
    pub fn view_key(&self) -> (view_key: &V)
        ensures
            *view_key == self@.account.view_key,
    {
        &self.0.account.view_key
    }

    /// Returns the account address of the node.
    pub fn address(&self) -> (address: A)
        ensures
            address == self@.account.address,
    {
        self.0.account.address
    }

    /// Returns `true` if the node is in development mode.
    pub fn is_dev(&self) -> (b: bool)
        ensures
            b == self@.is_dev,
    {
        self.0.is_dev
    }

    /// Returns `true` if the node is periodically evicting more external peers.
    pub fn rotate_external_peers(&self) -> (b: bool)
        ensures
            b == self@.rotate_external_peers,
    {
        self.0.rotate_external_peers
    }

    /// Returns `true` if the node is engaging in P2P gossip to request more peers.
    pub fn allow_external_peers(&self) -> (b: bool)
        ensures
            b == self@.allow_external_peers,
    {
        self.0.allow_external_peers
    }

    /// Returns the listener IP address from the (ambiguous) peer address.
    pub fn resolve_to_listener(&self, connected_addr: &SocketAddr) -> (listener_addr: Option<
        SocketAddr,
    >)
        ensures
            listener_addr == self@.resolver.get(*connected_addr),
    {
        self.0.resolver.get_listener(connected_addr)
    }

    /// Returns the list of metrics for the connected peers.
    pub fn connected_metrics(&self) -> (metrics: Vec<(SocketAddr, NodeType)>)
        ensures
            exists|keys: Seq<SocketAddr>|
                lists(keys, connected_set(self@.pool)) && metrics@ == (#[trigger] connected_at(
                    self@.pool,
                    keys,
                )).map_values(|peer: ConnectedPeer<A>| (peer.listener_addr, peer.node_type)),
    {
        let peers = self.get_connected_peers();
        let mut metrics: Vec<(SocketAddr, NodeType)> = Vec::new();
        let mut i: usize = 0;
        while i < peers.len()
            invariant
                i <= peers@.len(),
                metrics@ == peers@.take(i as int).map_values(
                    |peer: ConnectedPeer<A>| (peer.listener_addr, peer.node_type),
                ),
            decreases peers@.len() - i,
        {
            metrics.push((peers[i].listener_addr, peers[i].node_type));
            i += 1;
        }
        assert(peers@.take(i as int) =~= peers@);
        metrics
    }

    /// Inserts the given peer IPs to the set of candidate peers.
    ///
    /// This method skips adding any given peers if the combined size exceeds the threshold,
    /// as the peer providing this list could be subverting the protocol.
    pub fn insert_candidate_peers(&mut self, peers: &[SocketAddr])
        requires
            old(self)@.tcp.listening_addr is Some || peers@.len() == 0 || candidate_quota(
                old(self)@.pool,
            ) == 0,
        ensures
            final(self)@ == (RouterView {
                pool: with_candidates(
                    old(self)@.pool,
                    accepted_addrs(old(self)@.pool, old(self)@.tcp.listening_addr->0, peers@),
                ),
                ..old(self)@
            }),
    {
        // Compute the maximum number of candidate peers.
        let candidates = self.number_of_candidate_peers();
        let max_candidate_peers: usize = if candidates < MAXIMUM_CANDIDATE_PEERS {
            MAXIMUM_CANDIDATE_PEERS - candidates
        } else {
            0
        };
        let ghost pool = self@.pool;
        let ghost local = self@.tcp.listening_addr->0;
        let ghost pred = |a: SocketAddr| !leads_to(local, a) && !pool.contains_key(a);
        // Ensure the combined number of peers does not surpass the threshold.
        let mut eligible_peers: Vec<SocketAddr> = Vec::new();
        let mut i: usize = 0;
        assert(peers@.take(0).filter(pred) =~= Seq::empty()) by {
            reveal(Seq::filter);
        }
        while i < peers.len() && eligible_peers.len() < max_candidate_peers
            invariant
                i <= peers@.len(),
                *self == *old(self),
                pool == self@.pool,
                peers@.len() > 0 && max_candidate_peers > 0 ==> self@.tcp.listening_addr is Some,
                local == self@.tcp.listening_addr->0,
                pred == (|a: SocketAddr| !leads_to(local, a) && !pool.contains_key(a)),
                eligible_peers@ == peers@.take(i as int).filter(pred),
                eligible_peers@.len() <= max_candidate_peers,
            decreases peers@.len() - i,
        {
            proof {
                assert(peers@.take(i + 1) =~= peers@.take(i as int).push(peers@[i as int]));
                peers@.take(i as int).lemma_filter_push(peers@[i as int], pred);
            }
            // Ensure the peer is not itself, and is not already known.
            if !self.is_local_ip(peers[i]) && !self.0.peer_pool.contains_key(&peers[i]) {
                eligible_peers.push(peers[i]);
            }
            i += 1;
        }
        proof {
            assert(peers@ =~= peers@.take(i as int) + peers@.skip(i as int));
            Seq::filter_distributes_over_add(
                peers@.take(i as int),
                peers@.skip(i as int),
                pred,
            );
            let eligible = eligible_addrs(pool, local, peers@);
            assert(eligible == eligible_peers@ + peers@.skip(i as int).filter(pred));
            if i == peers@.len() {
                assert(peers@.take(i as int) =~= peers@);
            } else {
                assert(eligible.take(max_candidate_peers as int) =~= eligible_peers@);
            }
            assert(accepted_addrs(pool, local, peers@) =~= eligible_peers@);
        }
        // Proceed to insert the eligible candidate peer IPs.
        insert_candidates(&mut self.0.peer_pool, eligible_peers.as_slice(), false);
        assert(self@.pool =~= with_candidates(pool, eligible_peers@));
    }

    /// Notes that a message from the given peer came at time `now`.
    pub fn update_last_seen_for_connected_peer(&mut self, peer_ip: SocketAddr, now: u64)
        ensures
            final(self)@ == (RouterView {
                pool: with_seen(old(self)@.pool, peer_ip, now),
                ..old(self)@
            }),
    {
        if let Some(peer) = self.0.peer_pool.get(&peer_ip) {
            let mut peer: Peer<A> = *peer;
            peer.update_last_seen(now);
            self.0.peer_pool.insert(peer_ip, peer);
        }
    }

    /// Removes the connected peer and adds them to the candidate peers. Returns the peer whose
    /// cached entries are to be cleared.
    #[must_use]
    pub fn remove_connected_peer(&mut self, peer_ip: SocketAddr) -> (to_clear: SocketAddr)
        ensures
            final(self)@ == (RouterView {
                pool: with_downgraded(old(self)@.pool, peer_ip),
                resolver: without_connection(old(self)@.resolver, old(self)@.pool, peer_ip),
                ..old(self)@
            }),
            to_clear == peer_ip,
    {
        if let Some(peer) = self.0.peer_pool.get(&peer_ip) {
            let mut peer: Peer<A> = *peer;
            if let Peer::Connected(peer) = &peer {
                self.0.resolver.remove_peer(&peer.connected_addr);
            }
            peer.downgrade_to_candidate(peer_ip);
            self.0.peer_pool.insert(peer_ip, peer);
        }
        // Clear cached entries applicable to the peer.
        peer_ip
    }

    /// Prepares a block request to be sent.
    pub fn prepare_block_request(start_height: u32, end_height: u32) -> (request: BlockRequest)
        requires
            start_height < end_height,
        ensures
            request == (BlockRequest { start_height, end_height }),
    {
        BlockRequest { start_height, end_height }
    }
}

} // verus!
