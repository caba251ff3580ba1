//! What a node answers, and what it does to its pool, said of the fields of addresses and peers.
use vstd::prelude::*;

use crate::address::{IpAddr, SocketAddr};
use crate::cache_file::{cache_lines, lines_of, shows_as, strings_view, write_cache};
use crate::laws::{
    law_peers_have_one_status, law_saved_peers_are_loaded, lemma_parsed_addrs_empty,
};
use crate::network::bootstrap_peers;
use crate::peer::{ConnectedPeer, ConnectingPeer, Peer};
use crate::pool::{
    candidate_set, connected_at, connected_set, connecting_set, is_filtered, peers_at,
    text_addrs, trusted_set, with_updated, BanPlan, ConnectionError, ConnectionPlan,
    PeerPoolHandling,
};
use crate::ranking::{is_ranking, no_worse, saved_len, KnownPeers};
use crate::table::lists;

verus! {

/// An address is taken for this node exactly if it is the one on which the node listens, or has
/// the same port and an unspecified or a loopback IP address. An address with another port, or
/// with the IP address of another host, is never taken for this node, and an attempt to connect to
/// it is not answered with `SelfConnect`.
pub proof fn law_other_nodes_are_not_this_node<A: Copy, N: PeerPoolHandling<A>>(
    node: N,
    addr: SocketAddr,
    local: SocketAddr,
    is_local: bool,
    answer: Result<bool, ConnectionError>,
)
    requires
        node.tcp_state().listening_addr == Some(local),
        call_ensures(N::is_local_ip, (&node, addr), is_local),
        call_ensures(N::check_connection_attempt, (&node, addr), answer),
    ensures
        ({
            let port = |a: SocketAddr|
                match a {
                    SocketAddr::V4 { port, .. } => port,
                    SocketAddr::V6 { port, .. } => port,
                };
            let this_host = match addr {
                SocketAddr::V4 { ip, .. } => ip == 0 || ip / 0x100_0000 == 127,
                SocketAddr::V6 { ip, .. } => ip == 0 || ip == 1,
            };
            let refused = answer == Err::<bool, ConnectionError>(ConnectionError::SelfConnect);
            &&& addr == local ==> is_local && refused
            &&& this_host && port(addr) == port(local) ==> is_local && refused
            &&& addr != local && port(addr) != port(local) ==> !is_local && !refused
            &&& addr != local && !this_host ==> !is_local && !refused
        }),
{
}

/// The address of the node is the one on which it listens. The address of a peer is valid exactly
/// if it is not taken for this node and the TCP stack has no objection. The node may have as many
/// connected peers as the TCP stack may have connections.
pub proof fn law_answers_of_the_tcp_stack<A: Copy, N: PeerPoolHandling<A>>(
    node: N,
    addr: SocketAddr,
    is_bogon_ip: bool,
    is_unspecified_or_broadcast_ip: bool,
    local: SocketAddr,
    is_local: bool,
    is_valid: bool,
    max: usize,
)
    requires
        node.tcp_state().listening_addr is Some,
        call_ensures(N::local_ip, (&node,), local),
        call_ensures(N::is_local_ip, (&node, addr), is_local),
        call_ensures(
            N::is_valid_peer_ip,
            (&node, addr, is_bogon_ip, is_unspecified_or_broadcast_ip),
            is_valid,
        ),
        call_ensures(N::max_connected_peers, (&node,), max),
    ensures
        node.tcp_state().listening_addr == Some(local),
        is_local || is_bogon_ip || is_unspecified_or_broadcast_ip ==> !is_valid,
        !is_local && !is_bogon_ip && !is_unspecified_or_broadcast_ip ==> is_valid,
        max == node.tcp_state().max_connections,
{
}

/// An attempt to connect is answered with `SelfConnect` exactly if the address is taken for this
/// node. Of any other address, `Ok(true)` is the answer if the peer there is connecting or
/// connected; otherwise the attempt is refused exactly if there are as many `Connected` peers as
/// there may be connections.
pub proof fn law_attempt_answers<A: Copy, N: PeerPoolHandling<A>>(
    node: N,
    addr: SocketAddr,
    is_local: bool,
    answer: Result<bool, ConnectionError>,
)
    requires
        node.tcp_state().listening_addr is Some,
        call_ensures(N::is_local_ip, (&node, addr), is_local),
        call_ensures(N::check_connection_attempt, (&node, addr), answer),
    ensures
        ({
            let pool = node.pool();
            let under_way = pool.contains_key(addr) && match pool[addr] {
                Peer::Candidate(_) => false,
                Peer::Connecting(_) => true,
                Peer::Connected(_) => true,
            };
            let connected = pool.dom().filter(
                |k: SocketAddr|
                    match pool[k] {
                        Peer::Connected(_) => true,
                        _ => false,
                    },
            ).len();
            let room = connected < node.tcp_state().max_connections;
            &&& match answer {
                Err(ConnectionError::SelfConnect) => is_local,
                Ok(true) => !is_local && under_way,
                Err(ConnectionError::MaximumPeersReached) => !is_local && !under_way && !room,
                Ok(false) => !is_local && !under_way && room,
            }
        }),
{
    let pool = node.pool();
    assert(connected_set(pool) =~= pool.dom().filter(
        |k: SocketAddr|
            match pool[k] {
                Peer::Connected(_) => true,
                _ => false,
            },
    ));
}

/// A connection is to be opened exactly if the attempt is allowed, and it is one to the given
/// address. Its failure is worth a warning exactly if the address is that of a trusted peer or of
/// a bootstrap peer of the network, as it is outside development mode.
pub proof fn law_connections_are_to_allowed_peers<A: Copy, N: PeerPoolHandling<A>>(
    node: N,
    addr: SocketAddr,
    answer: Result<bool, ConnectionError>,
    bootstrap: Vec<SocketAddr>,
    plan: Option<ConnectionPlan>,
)
    requires
        node.tcp_state().listening_addr is Some,
        call_ensures(N::check_connection_attempt, (&node, addr), answer),
        call_ensures(bootstrap_peers, (node.joined(), false), bootstrap),
        call_ensures(N::connect, (&node, addr), plan),
    ensures
        plan is Some <==> answer == Ok::<bool, ConnectionError>(false),
        plan is Some ==> {
            &&& plan->0.listener_addr == addr
            &&& plan->0.is_trusted_or_bootstrap == {
                ||| node.pool().contains_key(addr) && match node.pool()[addr] {
                    Peer::Candidate(p) => p.trusted,
                    Peer::Connecting(p) => p.trusted,
                    Peer::Connected(p) => p.trusted,
                }
                ||| exists|i: int| 0 <= i < bootstrap@.len() && bootstrap@[i] == addr
            }
        },
{
}

/// There is a connection to close exactly if the peer under the address is `Connected`, and it is
/// the one in that peer's field, whatever its other fields say.
pub proof fn law_every_connection_can_be_closed<A: Copy, N: PeerPoolHandling<A>>(
    node: N,
    addr: SocketAddr,
    resolved: Option<SocketAddr>,
    to_close: Option<SocketAddr>,
    ban: BanPlan,
)
    requires
        call_ensures(N::resolve_to_ambiguous, (&node, addr), resolved),
        call_ensures(N::disconnect, (&node, addr), to_close),
        call_ensures(N::ip_ban_peer, (&node, addr), ban),
    ensures
        ({
            let connection = if node.pool().contains_key(addr) {
                match node.pool()[addr] {
                    Peer::Connected(p) => Some(p.connected_addr),
                    Peer::Connecting(_) => None,
                    Peer::Candidate(_) => None,
                }
            } else {
                None
            };
            &&& resolved == connection
            &&& to_close == connection
            &&& ban.disconnect_from == connection
            &&& ban.ip == match addr {
                SocketAddr::V4 { ip, .. } => IpAddr::V4(ip),
                SocketAddr::V6 { ip, .. } => IpAddr::V6(ip),
            }
        }),
{
}

/// A connected peer, and its account address, are found as the pool holds them exactly if the
/// peer under the address is `Connected`.
pub proof fn law_connected_peers_are_found<A: Copy, N: PeerPoolHandling<A>>(
    node: N,
    addr: SocketAddr,
    found: Option<ConnectedPeer<A>>,
    aleo_addr: Option<A>,
)
    requires
        call_ensures(N::get_connected_peer, (&node, addr), found),
        call_ensures(N::resolve_to_aleo_addr, (&node, addr), aleo_addr),
    ensures
        match found {
            Some(p) => {
                &&& node.pool().contains_key(addr)
                &&& node.pool()[addr] == Peer::Connected(p)
                &&& aleo_addr == Some(p.aleo_addr)
            },
            None => {
                &&& aleo_addr is None
                &&& node.pool().contains_key(addr) ==> match node.pool()[addr] {
                    Peer::Connected(_) => false,
                    _ => true,
                }
            },
        },
{
}

/// What is told of the status and the trust of a peer is what the pool holds under its address;
/// of an unknown address nothing is true.
pub proof fn law_status_is_the_variant<A: Copy, N: PeerPoolHandling<A>>(
    node: N,
    addr: SocketAddr,
    connecting: bool,
    connected: bool,
    trusted: bool,
)
    requires
        call_ensures(N::is_connecting, (&node, addr), connecting),
        call_ensures(N::is_connected, (&node, addr), connected),
        call_ensures(N::is_trusted, (&node, addr), trusted),
    ensures
        !node.pool().contains_key(addr) ==> !connecting && !connected && !trusted,
        node.pool().contains_key(addr) ==> match node.pool()[addr] {
            Peer::Candidate(p) => !connecting && !connected && trusted == p.trusted,
            Peer::Connecting(p) => connecting && !connected && trusted == p.trusted,
            Peer::Connected(p) => !connecting && connected && trusted == p.trusted,
        },
{
}

/// A list of a set holds nothing but elements of the set, all of them, and none of them twice.
proof fn lemma_lists(items: Seq<SocketAddr>, set: Set<SocketAddr>)
    requires
        lists(items, set),
    ensures
        items.no_duplicates(),
        items.len() == set.len(),
        forall|k: SocketAddr| #[trigger] items.contains(k) <==> set.contains(k),
{
    items.unique_seq_to_set();
    assert forall|k: SocketAddr| #[trigger] items.contains(k) <==> set.contains(k) by {
        assert(items.to_set().contains(k) <==> items.contains(k));
    }
}

/// The lists of addresses hold no address twice, and they hold an address exactly if the peer in
/// the pool under it has the status and the trust that is asked for. A candidate is not listed if
/// its IP address is banned.
pub proof fn law_address_lists<A: Copy, N: PeerPoolHandling<A>>(
    node: N,
    banned_ips: Vec<IpAddr>,
    connected: Vec<SocketAddr>,
    trusted: Vec<SocketAddr>,
    candidates: Vec<SocketAddr>,
    unconnected: Vec<SocketAddr>,
    k: SocketAddr,
)
    requires
        call_ensures(N::connected_peers, (&node,), connected),
        call_ensures(N::trusted_peers, (&node,), trusted),
        call_ensures(N::candidate_peers, (&node, &banned_ips), candidates),
        call_ensures(N::unconnected_trusted_peers, (&node,), unconnected),
    ensures
        connected@.no_duplicates(),
        trusted@.no_duplicates(),
        candidates@.no_duplicates(),
        unconnected@.no_duplicates(),
        connected@.contains(k) <==> node.pool().contains_key(k) && match node.pool()[k] {
            Peer::Connected(_) => true,
            _ => false,
        },
        trusted@.contains(k) <==> node.pool().contains_key(k) && match node.pool()[k] {
            Peer::Candidate(p) => p.trusted,
            Peer::Connecting(p) => p.trusted,
            Peer::Connected(p) => p.trusted,
        },
        candidates@.contains(k) <==> node.pool().contains_key(k) && match node.pool()[k] {
            Peer::Candidate(_) => true,
            _ => false,
        } && match k {
            SocketAddr::V4 { ip, .. } => !banned_ips@.contains(IpAddr::V4(ip)),
            SocketAddr::V6 { ip, .. } => !banned_ips@.contains(IpAddr::V6(ip)),
        },
        unconnected@.contains(k) <==> node.pool().contains_key(k) && match node.pool()[k] {
            Peer::Candidate(p) => p.trusted,
            _ => false,
        },
{
    let pool = node.pool();
    lemma_lists(connected@, connected_set(pool));
    lemma_lists(trusted@, trusted_set(pool));
    lemma_lists(
        candidates@,
        candidate_set(pool).filter(|a: SocketAddr| !banned_ips@.contains(a.spec_ip())),
    );
    lemma_lists(unconnected@, candidate_set(pool).intersect(trusted_set(pool)));
}

/// The numbers of connected, connecting and candidate peers are those of the peers in the pool
/// with that variant. They add up to the number of all peers, and as many connected peers and,
/// with no IP address banned, as many candidates are listed.
pub proof fn law_counts<A: Copy, N: PeerPoolHandling<A>>(
    node: N,
    n_connected: usize,
    n_connecting: usize,
    n_candidates: usize,
    all: Vec<Peer<A>>,
    connected: Vec<SocketAddr>,
    no_ips: Vec<IpAddr>,
    candidates: Vec<SocketAddr>,
)
    requires
        node.pool().dom().finite(),
        call_ensures(N::number_of_connected_peers, (&node,), n_connected),
        call_ensures(N::number_of_connecting_peers, (&node,), n_connecting),
        call_ensures(N::number_of_candidate_peers, (&node,), n_candidates),
        call_ensures(N::get_peers, (&node,), all),
        call_ensures(N::connected_peers, (&node,), connected),
        no_ips@.len() == 0,
        call_ensures(N::candidate_peers, (&node, &no_ips), candidates),
    ensures
        n_connected == node.pool().dom().filter(
            |k: SocketAddr|
                match node.pool()[k] {
                    Peer::Connected(_) => true,
                    _ => false,
                },
        ).len(),
        n_connecting == node.pool().dom().filter(
            |k: SocketAddr|
                match node.pool()[k] {
                    Peer::Connecting(_) => true,
                    _ => false,
                },
        ).len(),
        n_candidates == node.pool().dom().filter(
            |k: SocketAddr|
                match node.pool()[k] {
                    Peer::Candidate(_) => true,
                    _ => false,
                },
        ).len(),
        n_connected + n_connecting + n_candidates == all@.len(),
        connected@.len() == n_connected,
        candidates@.len() == n_candidates,
{
    let pool = node.pool();
    assert(connected_set(pool) =~= pool.dom().filter(
        |k: SocketAddr|
            match pool[k] {
                Peer::Connected(_) => true,
                _ => false,
            },
    ));
    assert(connecting_set(pool) =~= pool.dom().filter(
        |k: SocketAddr|
            match pool[k] {
                Peer::Connecting(_) => true,
                _ => false,
            },
    ));
    assert(candidate_set(pool) =~= pool.dom().filter(
        |k: SocketAddr|
            match pool[k] {
                Peer::Candidate(_) => true,
                _ => false,
            },
    ));
    law_peers_have_one_status(pool);
    let keys = choose|keys: Seq<SocketAddr>|
        lists(keys, pool.dom()) && all@ == #[trigger] peers_at(pool, keys);
    lemma_lists(keys, pool.dom());
    lemma_lists(connected@, connected_set(pool));
    let open = candidate_set(pool).filter(|a: SocketAddr| !no_ips@.contains(a.spec_ip()));
    assert(open =~= candidate_set(pool));
    lemma_lists(candidates@, open);
}

/// The list of all peers holds the peers as the pool holds them: there is a list of all addresses
/// of the pool, each once, such that the peers are, one by one, the values under these addresses.
pub proof fn law_all_peers_are_listed_as_held<A: Copy, N: PeerPoolHandling<A>>(
    node: N,
    peers: Vec<Peer<A>>,
)
    requires
        call_ensures(N::get_peers, (&node,), peers),
    ensures
        exists|keys: Seq<SocketAddr>|
            {
                &&& #[trigger] keys.no_duplicates()
                &&& forall|k: SocketAddr| #[trigger]
                    keys.contains(k) <==> node.pool().contains_key(k)
                &&& peers@.len() == keys.len()
                &&& forall|i: int|
                    0 <= i < keys.len() ==> #[trigger] peers@[i] == node.pool()[keys[i]]
            },
        forall|k: SocketAddr| #[trigger]
            node.pool().contains_key(k) ==> peers@.contains(node.pool()[k]),
{
    let pool = node.pool();
    let keys = choose|keys: Seq<SocketAddr>|
        lists(keys, pool.dom()) && peers@ == #[trigger] peers_at(pool, keys);
    lemma_lists(keys, pool.dom());
    assert(keys.no_duplicates());
    assert forall|k: SocketAddr| #[trigger] pool.contains_key(k) implies peers@.contains(
        pool[k],
    ) by {
        assert(keys.contains(k));
        assert(peers@[keys.index_of(k)] == pool[k]);
    }
}

/// The list of connected peers holds each `Connected` peer as the pool holds it, once, and no
/// other.
pub proof fn law_connected_peers_are_listed_as_held<A: Copy, N: PeerPoolHandling<A>>(
    node: N,
    peers: Vec<ConnectedPeer<A>>,
)
    requires
        call_ensures(N::get_connected_peers, (&node,), peers),
    ensures
        exists|keys: Seq<SocketAddr>|
            {
                &&& #[trigger] keys.no_duplicates()
                &&& peers@.len() == keys.len()
                &&& forall|i: int|
                    0 <= i < keys.len() ==> node.pool().contains_key(keys[i])
                        && node.pool()[keys[i]] == Peer::Connected(#[trigger] peers@[i])
                &&& forall|k: SocketAddr| #[trigger]
                    node.pool().contains_key(k) ==> match node.pool()[k] {
                        Peer::Connected(_) => keys.contains(k),
                        _ => true,
                    }
            },
{
    let pool = node.pool();
    let keys = choose|keys: Seq<SocketAddr>|
        lists(keys, connected_set(pool)) && peers@ == #[trigger] connected_at(pool, keys);
    lemma_lists(keys, connected_set(pool));
    assert(keys.no_duplicates());
    assert forall|i: int| 0 <= i < keys.len() implies pool.contains_key(keys[i]) && pool[keys[i]]
        == Peer::Connected(#[trigger] peers@[i]) by {
        assert(keys.contains(keys[i]));
        assert(connected_set(pool).contains(keys[i]));
    }
    assert forall|k: SocketAddr| #[trigger] pool.contains_key(k) implies match pool[k] {
        Peer::Connected(_) => keys.contains(k),
        _ => true,
    } by {
        assert(keys.contains(k) <==> connected_set(pool).contains(k));
    }
}

/// The filtered list holds each `Connected` peer that the predicate approves, as the pool holds
/// it and once, and no other. `f` says what the predicate answers.
pub proof fn law_filtered_peers_are_the_approved_ones<
    A: Copy,
    P: FnMut(&ConnectedPeer<A>) -> bool,
>(
    pool: Map<SocketAddr, Peer<A>>,
    predicate: P,
    f: spec_fn(ConnectedPeer<A>) -> bool,
    peers: Seq<ConnectedPeer<A>>,
)
    requires
        forall|p: &ConnectedPeer<A>, b: bool| #[trigger]
            call_ensures(predicate, (p,), b) ==> b == f(*p),
        is_filtered(pool, predicate, peers),
    ensures
        exists|keys: Seq<SocketAddr>|
            {
                &&& #[trigger] keys.no_duplicates()
                &&& peers.len() == keys.len()
                &&& forall|i: int|
                    0 <= i < keys.len() ==> {
                        &&& pool.contains_key(keys[i])
                        &&& pool[keys[i]] == Peer::Connected(#[trigger] peers[i])
                        &&& f(peers[i])
                    }
                &&& forall|k: SocketAddr| #[trigger]
                    pool.contains_key(k) ==> match pool[k] {
                        Peer::Connected(p) => f(p) ==> keys.contains(k),
                        _ => true,
                    }
            },
{
    let keys = choose|keys: Seq<SocketAddr>|
        {
            &&& keys.no_duplicates()
            &&& keys.to_set().subset_of(connected_set(pool))
            &&& peers == #[trigger] connected_at(pool, keys)
            &&& forall|k: SocketAddr| #[trigger]
                connected_set(pool).contains(k) ==> call_ensures(
                    predicate,
                    (&pool[k]->Connected_0,),
                    keys.contains(k),
                )
        };
    assert forall|i: int| 0 <= i < keys.len() implies {
        &&& pool.contains_key(keys[i])
        &&& pool[keys[i]] == Peer::Connected(#[trigger] peers[i])
        &&& f(peers[i])
    } by {
        assert(keys.to_set().contains(keys[i]));
        assert(connected_set(pool).contains(keys[i]));
    }
    assert forall|k: SocketAddr| #[trigger] pool.contains_key(k) implies match pool[k] {
        Peer::Connected(p) => f(p) ==> keys.contains(k),
        _ => true,
    } by {
        if pool[k] is Connected {
            assert(connected_set(pool).contains(k));
        }
    }
}

/// An update puts what it makes of a connected peer in that peer's place, whatever the peer's
/// fields say, and leaves all other peers alone. It does nothing if the peer is not connected.
pub proof fn law_updates_concern_one_connected_peer<A: Copy>(
    pool: Map<SocketAddr, Peer<A>>,
    addr: SocketAddr,
    g: spec_fn(ConnectedPeer<A>) -> ConnectedPeer<A>,
)
    ensures
        ({
            let after = with_updated(pool, addr, g);
            &&& after.dom() == pool.dom()
            &&& forall|k: SocketAddr| #[trigger]
                pool.contains_key(k) && k != addr ==> after[k] == pool[k]
            &&& pool.contains_key(addr) ==> match pool[addr] {
                Peer::Connected(p) => after[addr] == Peer::Connected(g(p)),
                other => after[addr] == other,
            }
        }),
{
    assert(with_updated(pool, addr, g).dom() =~= pool.dom());
}

/// Adding a connecting peer turns an unknown address into an untrusted connecting peer, and a
/// candidate into a connecting peer with the candidate's trust, and reports that it did. A peer
/// that is connecting or connected stays as it is, which is reported too. All other peers are
/// left alone.
pub proof fn law_connecting_peers_keep_their_trust<A: Copy, N: PeerPoolHandling<A>>(
    node: &mut N,
    addr: SocketAddr,
    added: bool,
)
    requires
        call_ensures(N::add_connecting_peer, (node, addr), added),
    ensures
        final(node).pool().dom() == old(node).pool().dom().insert(addr),
        forall|k: SocketAddr| #[trigger]
            old(node).pool().contains_key(k) && k != addr ==> final(node).pool()[k] == old(
                node,
            ).pool()[k],
        !old(node).pool().contains_key(addr) ==> added && final(node).pool()[addr] == Peer::<
            A,
        >::Connecting(ConnectingPeer { listener_addr: addr, trusted: false }),
        old(node).pool().contains_key(addr) ==> match old(node).pool()[addr] {
            Peer::Candidate(p) => added && final(node).pool()[addr] == Peer::<A>::Connecting(
                ConnectingPeer { listener_addr: addr, trusted: p.trusted },
            ),
            other => !added && final(node).pool()[addr] == other,
        },
{
    assert(final(node).pool().dom() =~= old(node).pool().dom().insert(addr));
}

/// No address is loaded if there are no lines. A further line is loaded at the end if it holds an
/// address, and skipped if it does not.
pub proof fn law_loading_is_line_by_line<A: Copy, N: PeerPoolHandling<A>>(
    lines: Vec<Option<SocketAddr>>,
    more: Vec<Option<SocketAddr>>,
    line: Option<SocketAddr>,
    none: Vec<SocketAddr>,
    loaded: Vec<SocketAddr>,
    loaded_more: Vec<SocketAddr>,
)
    requires
        more@ == lines@.push(line),
        call_ensures(N::load_cached_peers, (None,), none),
        call_ensures(N::load_cached_peers, (Some(lines),), loaded),
        call_ensures(N::load_cached_peers, (Some(more),), loaded_more),
    ensures
        none@.len() == 0,
        lines@.len() == 0 ==> loaded@.len() == 0,
        match line {
            Some(addr) => loaded_more@ == loaded@.push(addr),
            None => loaded_more@ == loaded@,
        },
{
    lemma_parsed_addrs_empty();
    if lines@.len() == 0 {
        assert(lines@ =~= Seq::empty());
    }
    reveal(Seq::filter_map);
    assert(more@.drop_last() =~= lines@);
    match line {
        Some(addr) => {
            assert(loaded_more@ =~= loaded@.push(addr));
        },
        None => {
            assert(loaded_more@ =~= loaded@);
        },
    }
}

/// The addresses in a text are those that are loaded from its lines, each as `f` reads it.
pub proof fn law_text_is_loaded_by_its_lines<A: Copy, N: PeerPoolHandling<A>>(
    text: &str,
    f: spec_fn(Seq<char>) -> Option<SocketAddr>,
    lines: Vec<String>,
    read: Vec<Option<SocketAddr>>,
    loaded: Vec<SocketAddr>,
)
    requires
        call_ensures(cache_lines, (text,), lines),
        read@.len() == lines@.len(),
        forall|i: int| 0 <= i < read@.len() ==> #[trigger] read@[i] == f(lines@[i]@),
        call_ensures(N::load_cached_peers, (Some(read),), loaded),
    ensures
        text_addrs(text@, f) == loaded@,
{
    let views = strings_view(lines@);
    assert(forall|i: int| 0 <= i < lines@.len() ==> #[trigger] views[i] == lines@[i]@);
    assert(read@ =~= lines_of(text@).map_values(f));
}

/// What is saved to the text of a peer cache is loaded from it again, in the same order, as long
/// as each address is written as one line, without a newline and without a carriage return at its
/// end, that is read back as that address.
pub proof fn law_saved_text_is_loaded<G: Fn(&SocketAddr) -> String>(
    saved: Vec<SocketAddr>,
    show: G,
    g: spec_fn(SocketAddr) -> Seq<char>,
    f: spec_fn(Seq<char>) -> Option<SocketAddr>,
    text: String,
)
    requires
        forall|a: &SocketAddr, s: String| #[trigger]
            call_ensures(show, (a,), s) ==> s@ == g(*a),
        forall|i: int|
            0 <= i < saved@.len() ==> {
                let line = g(#[trigger] saved@[i]);
                &&& !line.contains('\n')
                &&& line.len() > 0 ==> line.last() != '\r'
                &&& f(line) == Some(saved@[i])
            },
        call_ensures(write_cache::<G>, (&saved, show), text),
    ensures
        text_addrs(text@, f) == saved@,
{
    assert(shows_as(show, g));
    law_saved_peers_are_loaded(saved@, g, f);
}

/// The saved addresses are the listener addresses of the first peers of a list of all peers, as
/// many as there are but no more than the limit. Each saved peer has a greater known block height
/// than every later peer of the list, or the same one, known or not, and no more failures
/// registered of its IP address.
pub proof fn law_saved_peers_come_first<A: Copy, N: PeerPoolHandling<A>>(
    node: N,
    known_peers: KnownPeers,
    max_entries: Option<usize>,
    saved: Vec<SocketAddr>,
)
    requires
        call_ensures(N::save_best_peers, (&node, &known_peers, max_entries), saved),
    ensures
        ({
            let pool = node.pool();
            let listener = |k: SocketAddr|
                match pool[k] {
                    Peer::Candidate(p) => p.listener_addr,
                    Peer::Connecting(p) => p.listener_addr,
                    Peer::Connected(p) => p.listener_addr,
                };
            let height = |k: SocketAddr|
                match pool[k] {
                    Peer::Candidate(p) => p.last_height_seen,
                    Peer::Connecting(_) => None,
                    Peer::Connected(p) => p.last_height_seen,
                };
            let failures = |k: SocketAddr|
                {
                    let ip = match listener(k) {
                        SocketAddr::V4 { ip, .. } => IpAddr::V4(ip),
                        SocketAddr::V6 { ip, .. } => IpAddr::V6(ip),
                    };
                    if known_peers@.contains_key(ip) {
                        known_peers@[ip]
                    } else {
                        0
                    }
                };
            exists|keys: Seq<SocketAddr>|
                {
                    &&& #[trigger] keys.no_duplicates()
                    &&& forall|k: SocketAddr| #[trigger] keys.contains(k) <==> pool.contains_key(k)
                    &&& saved@.len() <= keys.len()
                    &&& match max_entries {
                        Some(max) => saved@.len() <= max && (saved@.len() == max || saved@.len()
                            == keys.len()),
                        None => saved@.len() == keys.len(),
                    }
                    &&& forall|i: int|
                        0 <= i < saved@.len() ==> #[trigger] saved@[i] == listener(keys[i])
                    &&& forall|i: int, j: int|
                        #![trigger keys[i], keys[j]]
                        0 <= i < j < keys.len() && i < saved@.len() ==> {
                            &&& height(keys[i]) == height(keys[j]) ==> failures(keys[i])
                                <= failures(keys[j])
                            &&& height(keys[i]) != height(keys[j]) ==> match (
                                height(keys[i]),
                                height(keys[j]),
                            ) {
                                (Some(h1), Some(h2)) => h1 > h2,
                                (Some(_), None) => true,
                                (None, _) => false,
                            }
                        }
                }
        }),
{
    let pool = node.pool();
    let keys = choose|keys: Seq<SocketAddr>|
        {
            &&& #[trigger] is_ranking(pool, known_peers@, keys)
            &&& saved@ == keys.take(saved_len(keys.len(), max_entries) as int).map_values(
                |k: SocketAddr| pool[k].listener(),
            )
        };
    lemma_lists(keys, pool.dom());
    assert(keys.no_duplicates());
    assert forall|k: SocketAddr| #[trigger] keys.contains(k) <==> pool.contains_key(k) by {}
    assert(forall|i: int, j: int|
        #![trigger keys[i], keys[j]]
        0 <= i < j < keys.len() ==> no_worse(pool, known_peers@, keys[i], keys[j]));
}

/// Where each peer stands under the address on which it listens, the saved addresses are distinct
/// addresses of the pool, as many as there are but no more than the limit. If a saved peer comes
/// before another, or another is left out, and both have the same known block height or none,
/// then no more failures are registered of the IP address of the first; if their heights differ,
/// that of the first is known, and that of the other is unknown or less.
pub proof fn law_saved_peers_are_no_worse<A: Copy, N: PeerPoolHandling<A>>(
    node: N,
    known_peers: KnownPeers,
    max_entries: Option<usize>,
    saved: Vec<SocketAddr>,
)
    requires
        call_ensures(N::save_best_peers, (&node, &known_peers, max_entries), saved),
        node.pool().dom().finite(),
        forall|k: SocketAddr| #[trigger]
            node.pool().contains_key(k) ==> match node.pool()[k] {
                Peer::Candidate(p) => p.listener_addr == k,
                Peer::Connecting(p) => p.listener_addr == k,
                Peer::Connected(p) => p.listener_addr == k,
            },
    ensures
        ({
            let pool = node.pool();
            let height = |k: SocketAddr|
                match pool[k] {
                    Peer::Candidate(p) => p.last_height_seen,
                    Peer::Connecting(_) => None,
                    Peer::Connected(p) => p.last_height_seen,
                };
            let failures = |k: SocketAddr|
                {
                    let ip = match k {
                        SocketAddr::V4 { ip, .. } => IpAddr::V4(ip),
                        SocketAddr::V6 { ip, .. } => IpAddr::V6(ip),
                    };
                    if known_peers@.contains_key(ip) {
                        known_peers@[ip]
                    } else {
                        0
                    }
                };
            let better = |a: SocketAddr, b: SocketAddr|
                {
                    &&& height(a) == height(b) ==> failures(a) <= failures(b)
                    &&& height(a) != height(b) ==> match (height(a), height(b)) {
                        (Some(h1), Some(h2)) => h1 > h2,
                        (Some(_), None) => true,
                        (None, _) => false,
                    }
                };
            let n = pool.dom().len();
            &&& saved@.len() == match max_entries {
                Some(max) => if max < n {
                    max as nat
                } else {
                    n
                },
                None => n,
            }
            &&& forall|i: int| 0 <= i < saved@.len() ==> pool.contains_key(#[trigger] saved@[i])
            &&& forall|i: int, j: int|
                #![trigger saved@[i], saved@[j]]
                0 <= i < j < saved@.len() ==> saved@[i] != saved@[j] && better(saved@[i], saved@[j])
            &&& forall|i: int, b: SocketAddr|
                #![trigger saved@[i], pool.contains_key(b)]
                0 <= i < saved@.len() && pool.contains_key(b) && !saved@.contains(b) ==> better(
                    saved@[i],
                    b,
                )
        }),
{
    let pool = node.pool();
    let keys = choose|keys: Seq<SocketAddr>|
        {
            &&& #[trigger] is_ranking(pool, known_peers@, keys)
            &&& saved@ == keys.take(saved_len(keys.len(), max_entries) as int).map_values(
                |k: SocketAddr| pool[k].listener(),
            )
        };
    lemma_lists(keys, pool.dom());
    assert forall|i: int| 0 <= i < keys.len() implies pool.contains_key(#[trigger] keys[i]) by {
        assert(keys.contains(keys[i]));
    }
    assert forall|i: int| 0 <= i < saved@.len() implies #[trigger] saved@[i] == keys[i] by {
        assert(pool.contains_key(keys[i]));
    }
    assert(forall|i: int, j: int|
        #![trigger keys[i], keys[j]]
        0 <= i < j < keys.len() ==> no_worse(pool, known_peers@, keys[i], keys[j]));
    assert forall|i: int, b: SocketAddr|
        #![trigger saved@[i], pool.contains_key(b)]
        0 <= i < saved@.len() && pool.contains_key(b) && !saved@.contains(b) implies exists|j: int|
        i < j < keys.len() && keys[i] == saved@[i] && keys[j] == b by {
        assert(keys.contains(b));
        let j = keys.index_of(b);
        if j < saved@.len() {
            assert(saved@[j] == b);
        }
        assert(keys[i] == saved@[i] && keys[j] == b);
    }
}

} // verus!
