//! The pool of known peers and the rules of connecting to them.
use vstd::prelude::*;

use crate::address::{IpAddr, SocketAddr};
use crate::cache_file::{is_reading, lines_of, parses_as, read_cache};
use crate::network::{bootstrap_addrs, bootstrap_peers, Network};
use crate::peer::{ConnectedPeer, ConnectingPeer, Peer};
use crate::ranking::{are_best, best_peers, KnownPeers};
use crate::table::{lists, Table};

verus! {

/// The known peers, each under the address on which it listens; `A` is the type of account
/// addresses.
pub type PeerPool<A> = Table<SocketAddr, Peer<A>>;

/// What the rules read of the TCP stack.
#[derive(Clone, Copy, Debug)]
pub struct Tcp {
    /// The address on which the node is asked to listen.
    pub node_ip: SocketAddr,
    /// The address on which the node listens, once its listener is enabled.
    pub listening_addr: Option<SocketAddr>,
    /// The maximum number of connections.
    pub max_connections: u16,
}

/// `addr` leads back to the node that listens on `local`.
pub open spec fn leads_to(local: SocketAddr, addr: SocketAddr) -> bool {
    ||| addr == local
    ||| (addr.spec_ip().unspecified() || addr.spec_ip().loopback()) && addr.spec_port()
        == local.spec_port()
}

/// The addresses of the connected peers.
pub open spec fn connected_set<A>(pool: Map<SocketAddr, Peer<A>>) -> Set<SocketAddr> {
    pool.dom().filter(|k: SocketAddr| pool[k] is Connected)
}

/// The addresses of the connecting peers.
pub open spec fn connecting_set<A>(pool: Map<SocketAddr, Peer<A>>) -> Set<SocketAddr> {
    pool.dom().filter(|k: SocketAddr| pool[k] is Connecting)
}

/// The addresses of the candidate peers.
pub open spec fn candidate_set<A>(pool: Map<SocketAddr, Peer<A>>) -> Set<SocketAddr> {
    pool.dom().filter(|k: SocketAddr| pool[k] is Candidate)
}

/// The addresses of the trusted peers.
pub open spec fn trusted_set<A: Copy>(pool: Map<SocketAddr, Peer<A>>) -> Set<SocketAddr> {
    pool.dom().filter(|k: SocketAddr| pool[k].trusted())
}

/// The peers of `pool` under `keys`, in their order.
pub open spec fn peers_at<A>(pool: Map<SocketAddr, Peer<A>>, keys: Seq<SocketAddr>) -> Seq<
    Peer<A>,
> {
    keys.map_values(|k: SocketAddr| pool[k])
}

/// The connected peers of `pool` under `keys`, in their order.
pub open spec fn connected_at<A>(pool: Map<SocketAddr, Peer<A>>, keys: Seq<SocketAddr>) -> Seq<
    ConnectedPeer<A>,
> {
    keys.map_values(|k: SocketAddr| pool[k]->Connected_0)
}

/// `f` picks from `pool` exactly the peers whose addresses are in `picked`.
spec fn picks<A: Copy, F: Fn(&SocketAddr, &Peer<A>) -> bool>(
    f: F,
    pool: Map<SocketAddr, Peer<A>>,
    picked: Set<SocketAddr>,
) -> bool {
    &&& picked.subset_of(pool.dom())
    &&& forall|k: &SocketAddr, p: &Peer<A>| call_requires(f, (k, p))
    &&& forall|k: SocketAddr, b: bool| #[trigger]
        call_ensures(f, (&k, &pool[k]), b) && pool.contains_key(k) ==> b == picked.contains(k)
}

/// `seen` lists the elements of `picked` that occur among the first `i` of `order`.
spec fn lists_first<K>(seen: Seq<K>, picked: Set<K>, order: Seq<K>, i: int) -> bool {
    &&& seen.no_duplicates()
    &&& seen.len() <= i
    &&& forall|k: K| #[trigger]
        seen.contains(k) <==> picked.contains(k) && order.take(i).contains(k)
}

proof fn lemma_push_contains<K>(items: Seq<K>, item: K)
    ensures
        forall|k: K| #[trigger] items.push(item).contains(k) <==> items.contains(k) || k == item,
{
    let after = items.push(item);
    assert forall|k: K| #[trigger] after.contains(k) <==> items.contains(k) || k == item by {
        if items.contains(k) {
            assert(after[items.index_of(k)] == k);
        }
        assert(after[items.len() as int] == item);
    }
}

proof fn lemma_take_next<K>(order: Seq<K>, i: int)
    requires
        0 <= i < order.len(),
        order.no_duplicates(),
    ensures
        !order.take(i).contains(order[i]),
        forall|k: K| #[trigger]
            order.take(i + 1).contains(k) <==> order.take(i).contains(k) || k == order[i],
{
    assert(order.take(i + 1) =~= order.take(i).push(order[i]));
    lemma_push_contains(order.take(i), order[i]);
    if order.take(i).contains(order[i]) {
        assert(order[order.take(i).index_of(order[i])] == order[i]);
    }
}

proof fn lemma_lists_first_step<K>(seen: Seq<K>, picked: Set<K>, order: Seq<K>, i: int)
    requires
        0 <= i < order.len(),
        order.no_duplicates(),
        lists_first(seen, picked, order, i),
    ensures
        picked.contains(order[i]) ==> lists_first(seen.push(order[i]), picked, order, i + 1),
        !picked.contains(order[i]) ==> lists_first(seen, picked, order, i + 1),
{
    lemma_take_next(order, i);
    lemma_push_contains(seen, order[i]);
    assert(!seen.contains(order[i]));
    assert(seen.push(order[i]).no_duplicates());
}

proof fn lemma_lists_first_all<K>(seen: Seq<K>, picked: Set<K>, order: Seq<K>)
    requires
        lists_first(seen, picked, order, order.len() as int),
        picked.subset_of(order.to_set()),
    ensures
        lists(seen, picked),
        seen.len() == picked.len(),
{
    assert(order.take(order.len() as int) =~= order);
    assert forall|k: K| seen.contains(k) <==> picked.contains(k) by {
        if picked.contains(k) {
            assert(order.to_set().contains(k));
        }
    }
    assert(seen.to_set() =~= picked);
    seen.unique_seq_to_set();
}

/// Counts the peers that `f` picks; `picked` is the set of their addresses.
fn count_peers<A: Copy, F: Fn(&SocketAddr, &Peer<A>) -> bool>(
    pool: &PeerPool<A>,
    f: F,
    Ghost(picked): Ghost<Set<SocketAddr>>,
) -> (n: usize)
    requires
        picks(f, pool@, picked),
    ensures
        n == picked.len(),
{
    let len = pool.len();
    let ghost mut seen: Seq<SocketAddr> = Seq::empty();
    let mut n: usize = 0;
    let mut i: usize = 0;
    while i < len
        invariant
            i <= len == pool.order().len(),
            lists(pool.order(), pool@.dom()),
            picks(f, pool@, picked),
            lists_first(seen, picked, pool.order(), i as int),
            n == seen.len(),
        decreases len - i,
    {
        let key = pool.key_at(i);
        proof {
            lemma_lists_first_step(seen, picked, pool.order(), i as int);
        }
        if f(&key, pool.value_at(i)) {
            n += 1;
            proof {
                seen = seen.push(key);
            }
        }
        i += 1;
    }
    proof {
        lemma_lists_first_all(seen, picked, pool.order());
    }
    n
}

/// Lists the addresses of the peers that `f` picks; `picked` is the set of these addresses.
fn list_peers<A: Copy, F: Fn(&SocketAddr, &Peer<A>) -> bool>(
    pool: &PeerPool<A>,
    f: F,
    Ghost(picked): Ghost<Set<SocketAddr>>,
) -> (addrs: Vec<SocketAddr>)
    requires
        picks(f, pool@, picked),
    ensures
        lists(addrs@, picked),
        addrs@.len() == picked.len(),
{
    let len = pool.len();
    let mut addrs: Vec<SocketAddr> = Vec::new();
    let mut i: usize = 0;
    while i < len
        invariant
            i <= len == pool.order().len(),
            lists(pool.order(), pool@.dom()),
            picks(f, pool@, picked),
            lists_first(addrs@, picked, pool.order(), i as int),
        decreases len - i,
    {
        let key = pool.key_at(i);
        proof {
            lemma_lists_first_step(addrs@, picked, pool.order(), i as int);
        }
        if f(&key, pool.value_at(i)) {
            addrs.push(key);
        }
        i += 1;
    }
    proof {
        lemma_lists_first_all(addrs@, picked, pool.order());
    }
    addrs
}

/// Returns `true` if `ip` is one of `ips`.
fn contains_ip(ips: &Vec<IpAddr>, ip: IpAddr) -> (b: bool)
    ensures
        b == ips@.contains(ip),
{
    let mut i: usize = 0;
    while i < ips.len()
        invariant
            i <= ips@.len(),
            forall|j: int| 0 <= j < i ==> ips@[j] != ip,
        decreases ips@.len() - i,
    {
        if ips[i] == ip {
            return true;
        }
        i += 1;
    }
    false
}

/// Returns `true` if `addr` is one of `addrs`.
fn contains_addr(addrs: &Vec<SocketAddr>, addr: SocketAddr) -> (b: bool)
    ensures
        b == addrs@.contains(addr),
{
    let mut i: usize = 0;
    while i < addrs.len()
        invariant
            i <= addrs@.len(),
            forall|j: int| 0 <= j < i ==> addrs@[j] != addr,
        decreases addrs@.len() - i,
    {
        if addrs[i] == addr {
            return true;
        }
        i += 1;
    }
    false
}

/// Why a connection attempt is not allowed.
#[derive(Clone, Copy, Debug, PartialEq, Eq, Structural)]
pub enum ConnectionError {
    /// The address is that of this node.
    SelfConnect,
    /// The node has as many connected peers as it may have.
    MaximumPeersReached,
}

impl ConnectionError {
    /// Returns the reason in words.
    pub fn reason(&self) -> (reason: &'static str)
        ensures
            reason@ == match self {
                ConnectionError::SelfConnect => "attempted to self-connect"@,
                ConnectionError::MaximumPeersReached => "maximum peers reached"@,
            },
    {
        match self {
            ConnectionError::SelfConnect => "attempted to self-connect",
            ConnectionError::MaximumPeersReached => "maximum peers reached",
        }
    }
}

/// What becomes of an attempt to connect to the listener address `addr`: `Ok(true)` if already
/// connected or connecting, be the limit reached or not; `Ok(false)` if it is allowed.
pub open spec fn attempt_outcome<A>(
    pool: Map<SocketAddr, Peer<A>>,
    local: SocketAddr,
    max_connected: nat,
    addr: SocketAddr,
) -> Result<bool, ConnectionError> {
    if leads_to(local, addr) {
        Err(ConnectionError::SelfConnect)
    } else if pool.contains_key(addr) && !(pool[addr] is Candidate) {
        Ok(true)
    } else if connected_set(pool).len() >= max_connected {
        Err(ConnectionError::MaximumPeersReached)
    } else {
        Ok(false)
    }
}

/// A connection that is to be opened.
#[derive(Clone, Copy, Debug, PartialEq, Eq, Structural)]
pub struct ConnectionPlan {
    /// The address to connect to.
    pub listener_addr: SocketAddr,
    /// Whether a failure to connect is worth a warning, since the peer is trusted or a bootstrap
    /// peer.
    pub is_trusted_or_bootstrap: bool,
}

/// What a ban of a peer brings with it.
#[derive(Clone, Copy, Debug, PartialEq, Eq, Structural)]
pub struct BanPlan {
    /// The IP address to ban.
    pub ip: IpAddr,
    /// The connection to close, if the peer is connected.
    pub disconnect_from: Option<SocketAddr>,
}

/// The address of the connection to the peer that listens on `addr`, if it is connected.
pub open spec fn connection_to<A>(
    pool: Map<SocketAddr, Peer<A>>,
    addr: SocketAddr,
) -> Option<SocketAddr> {
    if connected_set(pool).contains(addr) {
        Some(pool[addr]->Connected_0.connected_addr)
    } else {
        None
    }
}

/// `pool` after the peer that listens on `addr` was added as a connecting one, which only an
/// unknown or a candidate peer can be.
pub open spec fn with_connecting<A: Copy>(
    pool: Map<SocketAddr, Peer<A>>,
    addr: SocketAddr,
) -> Map<SocketAddr, Peer<A>> {
    if pool.contains_key(addr) && !(pool[addr] is Candidate) {
        pool
    } else {
        pool.insert(
            addr,
            Peer::Connecting(
                ConnectingPeer {
                    listener_addr: addr,
                    trusted: pool.contains_key(addr) && pool[addr].trusted(),
                },
            ),
        )
    }
}

/// The addresses that could be parsed, in their order.
pub open spec fn parsed_addrs(lines: Seq<Option<SocketAddr>>) -> Seq<SocketAddr> {
    lines.filter_map(|addr: Option<SocketAddr>| addr)
}

/// The addresses in the text of a peer cache, in their order; `parse` says which address a line
/// holds, if any.
pub open spec fn text_addrs(
    text: Seq<char>,
    parse: spec_fn(Seq<char>) -> Option<SocketAddr>,
) -> Seq<SocketAddr> {
    parsed_addrs(lines_of(text).map_values(parse))
}

proof fn lemma_parsed_addrs_next(lines: Seq<Option<SocketAddr>>, i: int)
    requires
        0 <= i < lines.len(),
    ensures
        parsed_addrs(lines.take(i + 1)) == match lines[i] {
            Some(addr) => parsed_addrs(lines.take(i)).push(addr),
            None => parsed_addrs(lines.take(i)),
        },
{
    lines.lemma_filter_map_take_succ(|addr: Option<SocketAddr>| addr, i);
    assert(parsed_addrs(lines.take(i + 1)) =~= match lines[i] {
        Some(addr) => parsed_addrs(lines.take(i)).push(addr),
        None => parsed_addrs(lines.take(i)),
    });
}

/// `chosen` are the connected peers of `pool` of which `predicate` has answered `true`, each
/// once; of the others it has answered `false`.
pub open spec fn is_filtered<A, P: FnMut(&ConnectedPeer<A>) -> bool>(
    pool: Map<SocketAddr, Peer<A>>,
    predicate: P,
    chosen: Seq<ConnectedPeer<A>>,
) -> bool {
    exists|keys: Seq<SocketAddr>|
        {
            &&& keys.no_duplicates()
            &&& keys.to_set().subset_of(connected_set(pool))
            &&& chosen == #[trigger] connected_at(pool, keys)
            &&& forall|k: SocketAddr| #[trigger]
                connected_set(pool).contains(k) ==> call_ensures(
                    predicate,
                    (&pool[k]->Connected_0,),
                    keys.contains(k),
                )
        }
}

/// `pool` with what `g` makes of the peer under `addr` in its place, if that peer is connected.
pub open spec fn with_updated<A>(
    pool: Map<SocketAddr, Peer<A>>,
    addr: SocketAddr,
    g: spec_fn(ConnectedPeer<A>) -> ConnectedPeer<A>,
) -> Map<SocketAddr, Peer<A>> {
    if connected_set(pool).contains(addr) {
        pool.insert(addr, Peer::Connected(g(pool[addr]->Connected_0)))
    } else {
        pool
    }
}

/// A node that keeps a pool of known peers; `A` is the type of account addresses.
pub trait PeerPoolHandling<A: Copy>: Sized {
    /// The known peers.
    spec fn pool(&self) -> Map<SocketAddr, Peer<A>>;

    /// What the rules read of the TCP stack.
    spec fn tcp_state(&self) -> Tcp;

    /// The network that the node has joined.
    spec fn joined(&self) -> Network;

    /// `other` is this node, save for its pool.
    spec fn same_but_pool(&self, other: &Self) -> bool;

    /// Returns the pool of known peers.
    fn peer_pool(&self) -> (pool: &PeerPool<A>)
        ensures
            pool@ == self.pool(),
    ;

    /// Returns the pool of known peers, to be changed.
    fn peer_pool_mut(&mut self) -> (pool: &mut PeerPool<A>)
        ensures
            pool@ == old(self).pool(),
            final(self).pool() == final(pool)@,
            old(self).same_but_pool(final(self)),
    ;

    /// Returns what the rules read of the TCP stack.
    fn tcp(&self) -> (tcp: Tcp)
        ensures
            tcp == self.tcp_state(),
    ;

    /// Returns the network that the node has joined.
    fn network(&self) -> (network: Network)
        ensures
            network == self.joined(),
    ;

    /// Returns the listener address of this node.
    fn local_ip(&self) -> (addr: SocketAddr)
        requires
            self.tcp_state().listening_addr is Some,
        ensures
            addr == self.tcp_state().listening_addr->0,
    {
        self.tcp().listening_addr.unwrap()
    }

    /// Returns `true` if the given IP is this node.
    fn is_local_ip(&self, addr: SocketAddr) -> (b: bool)
        requires
            self.tcp_state().listening_addr is Some,
        ensures
            b == leads_to(self.tcp_state().listening_addr->0, addr),
    {
        addr == self.local_ip() || (addr.ip().is_unspecified() || addr.ip().is_loopback())
            && addr.port() == self.local_ip().port()
    }

    /// Returns `true` if the given IP is not this node, is not a bogon address, and is not
    /// unspecified or a broadcast address. Whether it is a bogon, and whether it is unspecified
    /// or a broadcast address, is for the TCP stack to say.
    fn is_valid_peer_ip(
        &self,
        ip: SocketAddr,
        is_bogon_ip: bool,
        is_unspecified_or_broadcast_ip: bool,
    ) -> (b: bool)
        requires
            self.tcp_state().listening_addr is Some,
        ensures
            b == (!leads_to(self.tcp_state().listening_addr->0, ip) && !is_bogon_ip
                && !is_unspecified_or_broadcast_ip),
    {
        !self.is_local_ip(ip) && !is_bogon_ip && !is_unspecified_or_broadcast_ip
    }

    /// Returns the maximum number of connected peers.
    fn max_connected_peers(&self) -> (n: usize)
        ensures
            n == self.tcp_state().max_connections,
    {
        self.tcp().max_connections as usize
    }

    /// Ensures that we are allowed to connect to the given listener address of a peer.
    ///
    /// - `Ok(true)` if already connected (or connecting) to the peer.
    /// - `Ok(false)` if not connected to the peer but allowed to.
    /// - `Err(err)` if not allowed to connect to the peer.
    fn check_connection_attempt(&self, listener_addr: SocketAddr) -> (outcome: Result<
        bool,
        ConnectionError,
    >)
        requires
            self.tcp_state().listening_addr is Some,
        ensures
            outcome == attempt_outcome(
                self.pool(),
                self.tcp_state().listening_addr->0,
                self.tcp_state().max_connections as nat,
                listener_addr,
            ),
    {
        // Ensure the peer IP is not this node.
        if self.is_local_ip(listener_addr) {
            return Err(ConnectionError::SelfConnect);
        }
        // Ensure the node is not already connected to this peer.
        if self.is_connected(listener_addr) {
            return Ok(true);
        }
        // Ensure the node is not already connecting to this peer.
        if self.is_connecting(listener_addr) {
            return Ok(true);
        }
        // Ensure the node does not surpass the maximum number of peer connections.
        if self.number_of_connected_peers() >= self.max_connected_peers() {
            return Err(ConnectionError::MaximumPeersReached);
        }
        Ok(false)
    }

    /// Decides on an attempt to connect to the given peer's listener address.
    ///
    /// Returns `None` if we are already connected to the peer or cannot connect. Otherwise, it
    /// returns the connection that is to be opened.
    fn connect(&self, listener_addr: SocketAddr) -> (plan: Option<ConnectionPlan>)
        requires
            self.tcp_state().listening_addr is Some,
        ensures
            plan == (if attempt_outcome(
                self.pool(),
                self.tcp_state().listening_addr->0,
                self.tcp_state().max_connections as nat,
                listener_addr,
            ) == Ok::<bool, ConnectionError>(false) {
                Some(
                    ConnectionPlan {
                        listener_addr,
                        is_trusted_or_bootstrap: trusted_set(self.pool()).contains(listener_addr)
                            || bootstrap_addrs(self.joined(), false).contains(listener_addr),
                    },
                )
            } else {
                None
            }),
    {
        // Return early if the attempt is against the protocol rules.
        match self.check_connection_attempt(listener_addr) {
            Ok(true) => return None,
            Ok(false) => {},
            Err(_) => return None,
        }
        // Determine whether the peer is trusted or a bootstrap node in order to decide
        // how problematic any potential connection issues are.
        let is_trusted_or_bootstrap = self.is_trusted(listener_addr) || contains_addr(
            &bootstrap_peers(self.network(), false),
            listener_addr,
        );
        Some(ConnectionPlan { listener_addr, is_trusted_or_bootstrap })
    }

    /// Returns the connection to close in order to disconnect from the given peer; there is none
    /// if the peer is not connected, and disconnecting from it does nothing.
    fn disconnect(&self, listener_addr: SocketAddr) -> (connected_addr: Option<SocketAddr>)
        ensures
            connected_addr == connection_to(self.pool(), listener_addr),
    {
        self.resolve_to_ambiguous(listener_addr)
    }

    /// Returns the connected peer address from the listener IP address.
    fn resolve_to_ambiguous(&self, listener_addr: SocketAddr) -> (connected_addr: Option<
        SocketAddr,
    >)
        ensures
            connected_addr == connection_to(self.pool(), listener_addr),
    {
        if let Some(Peer::Connected(peer)) = self.peer_pool().get(&listener_addr) {
            Some(peer.connected_addr)
        } else {
            None
        }
    }

    /// Returns the connected peer aleo address from the listener IP address.
    fn resolve_to_aleo_addr(&self, listener_addr: SocketAddr) -> (aleo_addr: Option<A>)
        ensures
            aleo_addr == (if connected_set(self.pool()).contains(listener_addr) {
                Some(self.pool()[listener_addr]->Connected_0.aleo_addr)
            } else {
                None
            }),
    {
        if let Some(Peer::Connected(peer)) = self.peer_pool().get(&listener_addr) {
            Some(peer.aleo_addr)
        } else {
            None
        }
    }

    /// Returns `true` if the node is connecting to the given peer's listener address.
    fn is_connecting(&self, listener_addr: SocketAddr) -> (b: bool)
        ensures
            b == connecting_set(self.pool()).contains(listener_addr),
    {
        match self.peer_pool().get(&listener_addr) {
            Some(peer) => peer.is_connecting(),
            None => false,
        }
    }

    /// Returns `true` if the node is connected to the given peer listener address.
    fn is_connected(&self, listener_addr: SocketAddr) -> (b: bool)
        ensures
            b == connected_set(self.pool()).contains(listener_addr),
    {
        match self.peer_pool().get(&listener_addr) {
            Some(peer) => peer.is_connected(),
            None => false,
        }
    }

    /// Returns `true` if the given listener address is trusted.
    fn is_trusted(&self, listener_addr: SocketAddr) -> (b: bool)
        ensures
            b == trusted_set(self.pool()).contains(listener_addr),
    {
        match self.peer_pool().get(&listener_addr) {
            Some(peer) => peer.is_trusted(),
            None => false,
        }
    }

    /// Returns the number of connected peers.
    fn number_of_connected_peers(&self) -> (n: usize)
        ensures
            n == connected_set(self.pool()).len(),
    {
        let picked = |_addr: &SocketAddr, peer: &Peer<A>| -> (b: bool)
            ensures
                b == (peer is Connected),
            { peer.is_connected() };
        count_peers(self.peer_pool(), picked, Ghost(connected_set(self.pool())))
    }

    /// Returns the number of connecting peers.
    fn number_of_connecting_peers(&self) -> (n: usize)
        ensures
            n == connecting_set(self.pool()).len(),
    {
        let picked = |_addr: &SocketAddr, peer: &Peer<A>| -> (b: bool)
            ensures
                b == (peer is Connecting),
            { peer.is_connecting() };
        count_peers(self.peer_pool(), picked, Ghost(connecting_set(self.pool())))
    }

    /// Returns the number of candidate peers.
    fn number_of_candidate_peers(&self) -> (n: usize)
        ensures
            n == candidate_set(self.pool()).len(),
    {
        let picked = |_addr: &SocketAddr, peer: &Peer<A>| -> (b: bool)
            ensures
                b == (peer is Candidate),
            { peer.is_candidate() };
        count_peers(self.peer_pool(), picked, Ghost(candidate_set(self.pool())))
    }

    /// Returns the connected peer given the peer IP, if it exists.
    fn get_connected_peer(&self, listener_addr: SocketAddr) -> (peer: Option<ConnectedPeer<A>>)
        ensures
            peer == (if connected_set(self.pool()).contains(listener_addr) {
                Some(self.pool()[listener_addr]->Connected_0)
            } else {
                None
            }),
    {
        if let Some(Peer::Connected(peer)) = self.peer_pool().get(&listener_addr) {
            Some(*peer)
        } else {
            None
        }
    }

    /// Updates the connected peer - if it exists - given the peer IP and a closure. The returned
    /// status indicates whether the update was successful, i.e. the peer had existed.
    fn update_connected_peer<F: FnOnce(&mut ConnectedPeer<A>)>(
        &mut self,
        listener_addr: &SocketAddr,
        update_fn: F,
    ) -> (updated: bool)
        requires
            connected_set(old(self).pool()).contains(*listener_addr) ==> forall|
                peer: &mut ConnectedPeer<A>,
            |
                *peer == old(self).pool()[*listener_addr]->Connected_0 ==> #[trigger] call_requires(
                    update_fn,
                    (peer,),
                ),
        ensures
            updated == connected_set(old(self).pool()).contains(*listener_addr),
            updated ==> exists|peer: &mut ConnectedPeer<A>|
                {
                    &&& *peer == old(self).pool()[*listener_addr]->Connected_0
                    &&& #[trigger] call_ensures(update_fn, (peer,), ())
                    &&& final(self).pool() == old(self).pool().insert(
                        *listener_addr,
                        Peer::Connected(*final(peer)),
                    )
                },
            !updated ==> final(self).pool() == old(self).pool(),
            forall|g: spec_fn(ConnectedPeer<A>) -> ConnectedPeer<A>|
                (forall|peer: &mut ConnectedPeer<A>| #[trigger]
                    call_ensures(update_fn, (peer,), ()) ==> *final(peer) == g(*peer))
                    ==> final(self).pool() == #[trigger] with_updated(
                    old(self).pool(),
                    *listener_addr,
                    g,
                ),
            old(self).same_but_pool(final(self)),
    {
        let pool = self.peer_pool_mut();
        if let Some(Peer::Connected(peer)) = pool.get(listener_addr) {
            let mut peer: ConnectedPeer<A> = *peer;
            update_fn(&mut peer);
            pool.insert(*listener_addr, Peer::Connected(peer));
            true
        } else {
            false
        }
    }

    /// Returns the list of all peers (connected, connecting, and candidate).
    fn get_peers(&self) -> (peers: Vec<Peer<A>>)
        ensures
            exists|keys: Seq<SocketAddr>|
                lists(keys, self.pool().dom()) && peers@ == #[trigger] peers_at(self.pool(), keys),
    {
        let pool = self.peer_pool();
        let len = pool.len();
        let mut peers: Vec<Peer<A>> = Vec::new();
        let mut i: usize = 0;
        while i < len
            invariant
                i <= len == pool.order().len(),
                peers@ == peers_at(pool@, pool.order().take(i as int)),
            decreases len - i,
        {
            peers.push(*pool.value_at(i));
            i += 1;
        }
        assert(pool.order().take(len as int) =~= pool.order());
        peers
    }

    /// Returns all connected peers.
    fn get_connected_peers(&self) -> (peers: Vec<ConnectedPeer<A>>)
        ensures
            exists|keys: Seq<SocketAddr>|
                lists(keys, connected_set(self.pool())) && peers@ == #[trigger] connected_at(
                    self.pool(),
                    keys,
                ),
    {
        let all = |_peer: &ConnectedPeer<A>| -> (b: bool)
            ensures
                b,
            { true };
        let peers = self.filter_connected_peers(all);
        proof {
            let pool = self.pool();
            let keys = choose|keys: Seq<SocketAddr>|
                {
                    &&& keys.no_duplicates()
                    &&& keys.to_set().subset_of(connected_set(pool))
                    &&& peers@ == #[trigger] connected_at(pool, keys)
                    &&& forall|k: SocketAddr| #[trigger]
                        connected_set(pool).contains(k) ==> call_ensures(
                            all,
                            (&pool[k]->Connected_0,),
                            keys.contains(k),
                        )
                };
            assert(keys.to_set() =~= connected_set(pool));
        }
        peers
    }

    /// Returns all connected peers that satisfy the given predicate.
    fn filter_connected_peers<P: FnMut(&ConnectedPeer<A>) -> bool>(&self, predicate: P) -> (peers:
        Vec<ConnectedPeer<A>>)
        requires
            forall|k: SocketAddr| #[trigger]
                connected_set(self.pool()).contains(k) ==> call_requires(
                    predicate,
                    (&self.pool()[k]->Connected_0,),
                ),
        ensures
            is_filtered(self.pool(), predicate, peers@),
    {
        let ghost stated = predicate;
        let mut predicate = predicate;
        let pool = self.peer_pool();
        let len = pool.len();
        let mut peers: Vec<ConnectedPeer<A>> = Vec::new();
        let ghost mut keys: Seq<SocketAddr> = Seq::empty();
        let mut i: usize = 0;
        while i < len
            invariant
                i <= len == pool.order().len(),
                lists(pool.order(), pool@.dom()),
                predicate == stated,
                forall|k: SocketAddr| #[trigger]
                    connected_set(pool@).contains(k) ==> call_requires(
                        predicate,
                        (&pool@[k]->Connected_0,),
                    ),
                peers@ == connected_at(pool@, keys),
                keys.no_duplicates(),
                forall|k: SocketAddr| #[trigger]
                    keys.contains(k) ==> connected_set(pool@).contains(k) && pool.order().take(
                        i as int,
                    ).contains(k),
                forall|k: SocketAddr| #[trigger]
                    connected_set(pool@).contains(k) && pool.order().take(i as int).contains(k)
                        ==> call_ensures(predicate, (&pool@[k]->Connected_0,), keys.contains(k)),
            decreases len - i,
        {
            let ghost key = pool.order()[i as int];
            proof {
                lemma_take_next(pool.order(), i as int);
                lemma_push_contains(keys, key);
            }
            if let Peer::Connected(peer) = pool.value_at(i) {
                assert(connected_set(pool@).contains(key));
                if predicate(peer) {
                    peers.push(*peer);
                    proof {
                        assert(!keys.contains(key));
                        keys = keys.push(key);
                    }
                }
            }
            i += 1;
        }
        assert(pool.order().take(len as int) =~= pool.order());
        peers
    }

    /// Returns the list of connected peers.
    fn connected_peers(&self) -> (addrs: Vec<SocketAddr>)
        ensures
            lists(addrs@, connected_set(self.pool())),
    {
        let picked = |_addr: &SocketAddr, peer: &Peer<A>| -> (b: bool)
            ensures
                b == (peer is Connected),
            { peer.is_connected() };
        list_peers(self.peer_pool(), picked, Ghost(connected_set(self.pool())))
    }

    /// Returns the list of trusted peers.
    fn trusted_peers(&self) -> (addrs: Vec<SocketAddr>)
        ensures
            lists(addrs@, trusted_set(self.pool())),
    {
        let picked = |_addr: &SocketAddr, peer: &Peer<A>| -> (b: bool)
            ensures
                b == peer.trusted(),
            { peer.is_trusted() };
        list_peers(self.peer_pool(), picked, Ghost(trusted_set(self.pool())))
    }

    /// Returns the list of candidate peers, without those whose IP address is one of
    /// `banned_ips`.
    fn candidate_peers(&self, banned_ips: &Vec<IpAddr>) -> (addrs: Vec<SocketAddr>)
        ensures
            lists(
                addrs@,
                candidate_set(self.pool()).filter(
                    |k: SocketAddr| !banned_ips@.contains(k.spec_ip()),
                ),
            ),
    {
        let picked = |addr: &SocketAddr, peer: &Peer<A>| -> (b: bool)
            ensures
                b == (peer is Candidate && !banned_ips@.contains(addr.spec_ip())),
            { peer.is_candidate() && !contains_ip(banned_ips, addr.ip()) };
        list_peers(
            self.peer_pool(),
            picked,
            Ghost(
                candidate_set(self.pool()).filter(
                    |k: SocketAddr| !banned_ips@.contains(k.spec_ip()),
                ),
            ),
        )
    }

    /// Returns the list of unconnected trusted peers.
    fn unconnected_trusted_peers(&self) -> (addrs: Vec<SocketAddr>)
        ensures
            lists(addrs@, candidate_set(self.pool()).intersect(trusted_set(self.pool()))),
    {
        let picked = |_addr: &SocketAddr, peer: &Peer<A>| -> (b: bool)
            ensures
                b == (peer is Candidate && peer.trusted()),
            {
                if let Peer::Candidate(peer) = peer {
                    peer.trusted
                } else {
                    false
                }
            };
        list_peers(self.peer_pool(), picked, Ghost(candidate_set(self.pool()).intersect(trusted_set(self.pool()))))
    }

    /// Returns the previously cached peer addresses so they can be introduced as initial candidate
    /// peers to connect to. `lines` holds the address on each line of the peer cache, where it
    /// could be parsed; there are no lines if the cache does not exist or could not be read.
    fn load_cached_peers(lines: Option<Vec<Option<SocketAddr>>>) -> (addrs: Vec<SocketAddr>)
        ensures
            addrs@ == match lines {
                Some(lines) => parsed_addrs(lines@),
                None => Seq::empty(),
            },
    {
        let mut addrs: Vec<SocketAddr> = Vec::new();
        if let Some(lines) = lines {
            let mut i: usize = 0;
            assert(lines@.take(0) =~= Seq::empty());
            while i < lines.len()
                invariant
                    i <= lines@.len(),
                    addrs@ == parsed_addrs(lines@.take(i as int)),
                decreases lines@.len() - i,
            {
                proof {
                    lemma_parsed_addrs_next(lines@, i as int);
                }
                if let Some(addr) = lines[i] {
                    addrs.push(addr);
                }
                i += 1;
            }
            assert(lines@.take(i as int) =~= lines@);
        }
        addrs
    }

    /// Returns the peer addresses in the text of a peer cache, of which `parse` reads one line;
    /// there is no text if the cache does not exist or could not be read.
    fn load_cached_text<F: Fn(&String) -> Option<SocketAddr>>(
        text: Option<&str>,
        parse: F,
    ) -> (addrs: Vec<SocketAddr>)
        requires
            forall|line: &String| #[trigger] call_requires(parse, (line,)),
        ensures
            match text {
                Some(text) => {
                    &&& exists|read: Seq<Option<SocketAddr>>| #[trigger]
                        is_reading(parse, text@, read) && addrs@ == parsed_addrs(read)
                    &&& forall|f: spec_fn(Seq<char>) -> Option<SocketAddr>| #[trigger]
                        parses_as(parse, f) ==> addrs@ == text_addrs(text@, f)
                },
                None => addrs@ == Seq::<SocketAddr>::empty(),
            },
    {
        match text {
            Some(text) => Self::load_cached_peers(Some(read_cache(text, parse))),
            None => Self::load_cached_peers(None),
        }
    }

    /// Returns the peers to preserve: those who have the greatest known block heights, and the
    /// lowest number of registered network failures.
    fn save_best_peers(&self, known_peers: &KnownPeers, max_entries: Option<usize>) -> (saved: Vec<
        SocketAddr,
    >)
        ensures
            are_best(self.pool(), known_peers@, max_entries, saved@),
    {
        best_peers(self.peer_pool(), known_peers, max_entries)
    }

    /// Introduces a new connecting peer into the peer pool if unknown, or promotes a known
    /// candidate peer to a connecting one. The returned boolean indicates whether the peer has
    /// been added/promoted, or rejected due to already being shaken hands with or connected.
    fn add_connecting_peer(&mut self, listener_addr: SocketAddr) -> (added: bool)
        ensures
            added == !(old(self).pool().contains_key(listener_addr) && !(
            old(self).pool()[listener_addr] is Candidate)),
            final(self).pool() == with_connecting(old(self).pool(), listener_addr),
            old(self).same_but_pool(final(self)),
    {
        let pool = self.peer_pool_mut();
        let trusted = match pool.get(&listener_addr) {
            None => false,
            Some(Peer::Candidate(peer)) => peer.trusted,
            Some(_) => return false,
        };
        pool.insert(listener_addr, Peer::new_connecting(listener_addr, trusted));
        true
    }

    /// Returns what a temporary IP-ban of the peer with the given listener address brings with
    /// it: the ban itself, and the end of the connection to the peer.
    fn ip_ban_peer(&self, listener_addr: SocketAddr) -> (plan: BanPlan)
        ensures
            plan == (BanPlan {
                ip: listener_addr.spec_ip(),
                disconnect_from: connection_to(self.pool(), listener_addr),
            }),
    {
        BanPlan { ip: listener_addr.ip(), disconnect_from: self.disconnect(listener_addr) }
    }
}

} // verus!
