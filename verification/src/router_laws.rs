//! What a router answers, and what each of its operations changes, said of its fields and of those
//! of its peers.
use vstd::prelude::*;

use crate::address::SocketAddr;
use crate::laws::lemma_accepted;
use crate::network::Network;
use crate::peer::{CandidatePeer, ConnectedPeer, NodeType, Peer};
use crate::pool::{
    candidate_set, connected_at, connected_set, leads_to, PeerPool, PeerPoolHandling, Tcp,
};
use crate::resolver::Resolver;
use crate::router::{
    accepted_addrs, candidate_quota, with_candidates, Account, BlockRequest, Router,
};
use crate::table::lists;

verus! {

/// A new router returns what it was made with, listens nowhere yet, and knows of no connection.
pub proof fn law_new_router_returns_its_parts<P, V, A: Copy>(
    node_ip: SocketAddr,
    node_type: NodeType,
    account: Account<P, V, A>,
    network: Network,
    cached: &[SocketAddr],
    trusted: &[SocketAddr],
    max_peers: u16,
    rotate: bool,
    allow: bool,
    is_dev: bool,
    router: Router<P, V, A>,
)
    requires
        call_ensures(
            Router::<P, V, A>::new,
            (
                node_ip,
                node_type,
                account,
                network,
                cached,
                trusted,
                max_peers,
                rotate,
                allow,
                is_dev,
            ),
            router,
        ),
    ensures
        forall|t: NodeType| #[trigger]
            call_ensures(Router::<P, V, A>::node_type, (&router,), t) ==> t == node_type,
        forall|k: &P| #[trigger]
            call_ensures(Router::<P, V, A>::private_key, (&router,), k) ==> *k
                == account.private_key,
        forall|k: &V| #[trigger]
            call_ensures(Router::<P, V, A>::view_key, (&router,), k) ==> *k == account.view_key,
        forall|a: A| #[trigger]
            call_ensures(Router::<P, V, A>::address, (&router,), a) ==> a == account.address,
        forall|b: bool| #[trigger]
            call_ensures(Router::<P, V, A>::is_dev, (&router,), b) ==> b == is_dev,
        forall|b: bool| #[trigger]
            call_ensures(Router::<P, V, A>::rotate_external_peers, (&router,), b) ==> b == rotate,
        forall|b: bool| #[trigger]
            call_ensures(Router::<P, V, A>::allow_external_peers, (&router,), b) ==> b == allow,
        forall|n: Network| #[trigger]
            call_ensures(<Router<P, V, A> as PeerPoolHandling<A>>::network, (&router,), n) ==> n
                == network,
        forall|t: Tcp| #[trigger]
            call_ensures(<Router<P, V, A> as PeerPoolHandling<A>>::tcp, (&router,), t) ==> {
                &&& t.node_ip == node_ip
                &&& t.listening_addr is None
                &&& t.max_connections == max_peers
            },
        forall|n: usize| #[trigger]
            call_ensures(
                <Router<P, V, A> as PeerPoolHandling<A>>::max_connected_peers,
                (&router,),
                n,
            ) ==> n == max_peers,
        forall|k: SocketAddr, a: Option<SocketAddr>| #[trigger]
            call_ensures(Router::<P, V, A>::resolve_to_listener, (&router, &k), a) ==> a is None,
{
}

/// A new router knows the cached and the trusted addresses and no others, each as a candidate at
/// that address of which no block height is known, and which is trusted exactly if it is one of
/// the trusted addresses.
pub proof fn law_new_router_knows_the_given_peers<P, V, A: Copy>(
    node_ip: SocketAddr,
    node_type: NodeType,
    account: Account<P, V, A>,
    network: Network,
    cached: &[SocketAddr],
    trusted: &[SocketAddr],
    max_peers: u16,
    rotate: bool,
    allow: bool,
    is_dev: bool,
    router: Router<P, V, A>,
    k: SocketAddr,
)
    requires
        call_ensures(
            Router::<P, V, A>::new,
            (
                node_ip,
                node_type,
                account,
                network,
                cached,
                trusted,
                max_peers,
                rotate,
                allow,
                is_dev,
            ),
            router,
        ),
    ensures
        ({
            let given = exists|i: int| 0 <= i < trusted@.len() && trusted@[i] == k;
            let found = exists|i: int| 0 <= i < cached@.len() && cached@[i] == k;
            &&& router.pool().contains_key(k) <==> given || found
            &&& given || found ==> router.pool()[k] == Peer::<A>::Candidate(
                CandidatePeer { listener_addr: k, trusted: given, last_height_seen: None },
            )
        }),
{
}

/// The pool that a router hands out is the one that its answers speak of, and so is the one that
/// it hands out to be changed: nothing else of the router changes with it.
pub proof fn law_pool_is_handed_out<P, V, A: Copy>(
    router: &mut Router<P, V, A>,
    shared: &PeerPool<A>,
    pool: &mut PeerPool<A>,
)
    requires
        call_ensures(
            <Router<P, V, A> as PeerPoolHandling<A>>::peer_pool,
            (old(router),),
            shared,
        ),
        call_ensures(
            <Router<P, V, A> as PeerPoolHandling<A>>::peer_pool_mut,
            (router,),
            pool,
        ),
    ensures
        shared@ == old(router)@.pool,
        old(pool)@ == old(router)@.pool,
        final(router)@.pool == final(pool)@,
        final(router)@.tcp == old(router)@.tcp,
        final(router)@.network == old(router)@.network,
        final(router)@.node_type == old(router)@.node_type,
        final(router)@.account == old(router)@.account,
        final(router)@.resolver == old(router)@.resolver,
        final(router)@.rotate_external_peers == old(router)@.rotate_external_peers,
        final(router)@.allow_external_peers == old(router)@.allow_external_peers,
        final(router)@.is_dev == old(router)@.is_dev,
{
}

/// To enable or disable the listener changes the address on which the node listens and nothing
/// else.
pub proof fn law_listener_is_noted<P, V, A: Copy>(
    router: &mut Router<P, V, A>,
    listening_addr: Option<SocketAddr>,
)
    requires
        call_ensures(Router::<P, V, A>::set_listening_addr, (router, listening_addr), ()),
    ensures
        final(router)@.tcp.listening_addr == listening_addr,
        final(router)@.tcp.node_ip == old(router)@.tcp.node_ip,
        final(router)@.tcp.max_connections == old(router)@.tcp.max_connections,
        final(router)@.network == old(router)@.network,
        final(router)@.node_type == old(router)@.node_type,
        final(router)@.account == old(router)@.account,
        final(router)@.resolver == old(router)@.resolver,
        final(router)@.pool == old(router)@.pool,
        final(router)@.rotate_external_peers == old(router)@.rotate_external_peers,
        final(router)@.allow_external_peers == old(router)@.allow_external_peers,
        final(router)@.is_dev == old(router)@.is_dev,
{
}

/// The resolver that a router hands out to be changed is the one by which it resolves
/// connections, and nothing else of the router changes with it.
pub proof fn law_resolver_is_handed_out<P, V, A: Copy>(
    router: &mut Router<P, V, A>,
    resolver: &mut Resolver,
    connected_addr: SocketAddr,
    before: Option<SocketAddr>,
)
    requires
        call_ensures(Router::<P, V, A>::resolver_mut, (router,), resolver),
        call_ensures(
            Router::<P, V, A>::resolve_to_listener,
            (old(router), &connected_addr),
            before,
        ),
    ensures
        forall|a: Option<SocketAddr>| #[trigger]
            call_ensures(Resolver::get_listener, (old(resolver), &connected_addr), a) ==> a
                == before,
        forall|a: Option<SocketAddr>, b: Option<SocketAddr>|
            #[trigger] call_ensures(Resolver::get_listener, (final(resolver), &connected_addr), a)
                && #[trigger] call_ensures(
                Router::<P, V, A>::resolve_to_listener,
                (final(router), &connected_addr),
                b,
            ) ==> a == b,
        final(router)@.tcp == old(router)@.tcp,
        final(router)@.network == old(router)@.network,
        final(router)@.node_type == old(router)@.node_type,
        final(router)@.account == old(router)@.account,
        final(router)@.pool == old(router)@.pool,
        final(router)@.rotate_external_peers == old(router)@.rotate_external_peers,
        final(router)@.allow_external_peers == old(router)@.allow_external_peers,
        final(router)@.is_dev == old(router)@.is_dev,
{
}

/// A validator or a client accepts the given lowest accepted version, and none below it, whatever
/// the latest version is; a prover accepts the latest version, and none below it, whatever the
/// lowest accepted one is. Whatever is accepted, all later versions are.
pub proof fn law_least_accepted_version<P, V, A: Copy>(
    router: Router<P, V, A>,
    latest: u32,
    lowest: u32,
)
    ensures
        ({
            let least = match router@.node_type {
                NodeType::Prover => latest,
                NodeType::Validator => lowest,
                NodeType::Client => lowest,
            };
            forall|version: u32, b: bool| #[trigger]
                call_ensures(
                    Router::<P, V, A>::is_valid_message_version,
                    (&router, version, latest, lowest),
                    b,
                ) ==> b == (least <= version)
        }),
{
}

/// The metrics hold the listener address and the node type in the fields of each `Connected` peer
/// of the pool, once, and of no other peer.
pub proof fn law_metrics_are_of_connected_peers<P, V, A: Copy>(
    router: Router<P, V, A>,
    metrics: Vec<(SocketAddr, NodeType)>,
)
    requires
        call_ensures(Router::<P, V, A>::connected_metrics, (&router,), metrics),
    ensures
        exists|keys: Seq<SocketAddr>|
            {
                &&& #[trigger] keys.no_duplicates()
                &&& metrics@.len() == keys.len()
                &&& forall|i: int|
                    #![trigger keys[i]]
                    0 <= i < keys.len() ==> router@.pool.contains_key(keys[i])
                        && match router@.pool[keys[i]] {
                        Peer::Connected(p) => metrics@[i] == (p.listener_addr, p.node_type),
                        _ => false,
                    }
                &&& forall|k: SocketAddr| #[trigger]
                    router@.pool.contains_key(k) ==> match router@.pool[k] {
                        Peer::Connected(_) => keys.contains(k),
                        _ => true,
                    }
            },
{
    let pool = router@.pool;
    let keys = choose|keys: Seq<SocketAddr>|
        {
            &&& lists(keys, connected_set(pool))
            &&& metrics@.len() == (#[trigger] connected_at(pool, keys)).len()
            &&& forall|i: int|
                #![trigger metrics@[i]]
                0 <= i < metrics@.len() ==> metrics@[i] == (
                    connected_at(pool, keys)[i].listener_addr,
                    connected_at(pool, keys)[i].node_type,
                )
        };
    assert(keys.no_duplicates());
    assert forall|i: int|
        #![trigger keys[i]]
        0 <= i < keys.len() implies pool.contains_key(keys[i]) && match pool[keys[i]] {
        Peer::Connected(p) => metrics@[i] == (p.listener_addr, p.node_type),
        _ => false,
    } by {
        assert(keys.to_set().contains(keys[i]));
    }
    assert forall|k: SocketAddr| #[trigger] pool.contains_key(k) implies match pool[k] {
        Peer::Connected(_) => keys.contains(k),
        _ => true,
    } by {
        assert(connected_set(pool).contains(k) <==> keys.to_set().contains(k));
    }
}

/// The first `n` of the items that satisfy `pred` are those before which fewer than `n` items
/// satisfy it.
proof fn lemma_filter_prefix(
    items: Seq<SocketAddr>,
    pred: spec_fn(SocketAddr) -> bool,
    n: nat,
    k: SocketAddr,
)
    ensures
        ({
            let picked = items.filter(pred);
            let first = if picked.len() <= n {
                picked
            } else {
                picked.take(n as int)
            };
            first.contains(k) <==> exists|j: int|
                0 <= j < items.len() && #[trigger] items[j] == k && pred(k) && items.take(j).filter(
                    pred,
                ).len() < n
        }),
    decreases items.len(),
{
    let picked = items.filter(pred);
    let first = if picked.len() <= n {
        picked
    } else {
        picked.take(n as int)
    };
    if items.len() == 0 {
        assert(picked.len() == 0) by {
            reveal(Seq::filter);
        }
    } else {
        let rest = items.drop_last();
        let last = items.last();
        let m = rest.len() as int;
        lemma_filter_prefix(rest, pred, n, k);
        let rest_picked = rest.filter(pred);
        let rest_first = if rest_picked.len() <= n {
            rest_picked
        } else {
            rest_picked.take(n as int)
        };
        assert(items =~= rest.push(last));
        rest.lemma_filter_push(last, pred);
        assert(items.take(m) =~= rest);
        if first.contains(k) && !rest_first.contains(k) {
            assert(picked =~= rest_picked.push(last));
            let i = first.index_of(k);
            assert(picked[i] == k);
            if i < rest_picked.len() {
                assert(rest_first[i] == k);
            }
            assert(items[m] == k);
        }
        if rest_first.contains(k) {
            let i = rest_first.index_of(k);
            assert(first[i] == k);
            let j = choose|j: int|
                0 <= j < rest.len() && #[trigger] rest[j] == k && pred(k) && rest.take(j).filter(
                    pred,
                ).len() < n;
            assert(items.take(j) =~= rest.take(j));
            assert(items[j] == k);
        }
        if exists|j: int|
            0 <= j < items.len() && #[trigger] items[j] == k && pred(k) && items.take(j).filter(
                pred,
            ).len() < n {
            let j = choose|j: int|
                0 <= j < items.len() && #[trigger] items[j] == k && pred(k) && items.take(j).filter(
                    pred,
                ).len() < n;
            if j < m {
                assert(items.take(j) =~= rest.take(j));
                assert(rest[j] == k);
                assert(rest_first.contains(k));
            } else {
                assert(picked =~= rest_picked.push(k));
                assert(first[rest_picked.len() as int] == k);
            }
        }
    }
}

/// Inserting candidates leaves the known peers alone. An unknown address becomes known exactly if
/// it is given at a place before which there is still room: where the candidates of the pool,
/// together with the addresses given before that are neither known nor this node, are fewer than
/// 10 000. It must not be this node, which is to say the address on which the node listens, or an
/// unspecified or loopback IP address with the same port. It becomes an untrusted candidate at that
/// address of which no block height is known. Nothing else of the router changes.
pub proof fn law_candidates_are_inserted_while_there_is_room<P, V, A: Copy>(
    router: &mut Router<P, V, A>,
    peers: &[SocketAddr],
    local: SocketAddr,
    k: SocketAddr,
)
    requires
        old(router)@.tcp.listening_addr == Some(local),
        call_ensures(Router::<P, V, A>::insert_candidate_peers, (router, peers), ()),
    ensures
        ({
            let pool = old(router)@.pool;
            let after = final(router)@.pool;
            let port = |a: SocketAddr|
                match a {
                    SocketAddr::V4 { port, .. } => port,
                    SocketAddr::V6 { port, .. } => port,
                };
            let this_host = |a: SocketAddr|
                match a {
                    SocketAddr::V4 { ip, .. } => ip == 0 || ip / 0x100_0000 == 127,
                    SocketAddr::V6 { ip, .. } => ip == 0 || ip == 1,
                };
            let is_new = |a: SocketAddr|
                {
                    &&& !pool.contains_key(a)
                    &&& a != local
                    &&& !(this_host(a) && port(a) == port(local))
                };
            let stored = pool.dom().filter(
                |a: SocketAddr|
                    match pool[a] {
                        Peer::Candidate(_) => true,
                        _ => false,
                    },
            ).len();
            &&& pool.contains_key(k) ==> after.contains_key(k) && after[k] == pool[k]
            &&& !pool.contains_key(k) ==> (after.contains_key(k) <==> exists|j: int|
                0 <= j < peers@.len() && #[trigger] peers@[j] == k && is_new(k) && stored
                    + peers@.take(j).filter(is_new).len() < 10_000)
            &&& !pool.contains_key(k) && after.contains_key(k) ==> after[k] == Peer::<
                A,
            >::Candidate(
                CandidatePeer { listener_addr: k, trusted: false, last_height_seen: None },
            )
        }),
        final(router)@.tcp == old(router)@.tcp,
        final(router)@.network == old(router)@.network,
        final(router)@.node_type == old(router)@.node_type,
        final(router)@.account == old(router)@.account,
        final(router)@.resolver == old(router)@.resolver,
        final(router)@.rotate_external_peers == old(router)@.rotate_external_peers,
        final(router)@.allow_external_peers == old(router)@.allow_external_peers,
        final(router)@.is_dev == old(router)@.is_dev,
{
    let pool = old(router)@.pool;
    let port = |a: SocketAddr|
        match a {
            SocketAddr::V4 { port, .. } => port,
            SocketAddr::V6 { port, .. } => port,
        };
    let this_host = |a: SocketAddr|
        match a {
            SocketAddr::V4 { ip, .. } => ip == 0 || ip / 0x100_0000 == 127,
            SocketAddr::V6 { ip, .. } => ip == 0 || ip == 1,
        };
    let is_new = |a: SocketAddr|
        {
            &&& !pool.contains_key(a)
            &&& a != local
            &&& !(this_host(a) && port(a) == port(local))
        };
    let pred = |a: SocketAddr| !leads_to(local, a) && !pool.contains_key(a);
    assert(is_new =~= pred);
    assert(candidate_set(pool) =~= pool.dom().filter(
        |a: SocketAddr|
            match pool[a] {
                Peer::Candidate(_) => true,
                _ => false,
            },
    ));
    lemma_accepted(pool, local, peers@);
    lemma_filter_prefix(peers@, pred, candidate_quota(pool), k);
}

/// Inserting candidates changes nothing if none are given, or if 10 000 candidates or more are
/// stored, whether the node listens or not.
pub proof fn law_no_candidates_are_inserted_without_room<P, V, A: Copy>(
    router: &mut Router<P, V, A>,
    peers: &[SocketAddr],
)
    requires
        call_ensures(Router::<P, V, A>::insert_candidate_peers, (router, peers), ()),
        peers@.len() == 0 || old(router)@.pool.dom().filter(
            |a: SocketAddr|
                match old(router)@.pool[a] {
                    Peer::Candidate(_) => true,
                    _ => false,
                },
        ).len() >= 10_000,
    ensures
        final(router)@ == old(router)@,
{
    let pool = old(router)@.pool;
    let local = old(router)@.tcp.listening_addr->0;
    let accepted = accepted_addrs(pool, local, peers@);
    assert(candidate_set(pool) =~= pool.dom().filter(
        |a: SocketAddr|
            match pool[a] {
                Peer::Candidate(_) => true,
                _ => false,
            },
    ));
    lemma_accepted(pool, local, peers@);
    if accepted.len() > 0 {
        assert(accepted.contains(accepted[0]));
    }
    assert(with_candidates(pool, accepted) =~= pool);
}

/// A message changes when the peer under the given address was last seen if that peer is
/// `Connected`, and nothing else of the router.
pub proof fn law_messages_concern_their_sender<P, V, A: Copy>(
    router: &mut Router<P, V, A>,
    addr: SocketAddr,
    now: u64,
    k: SocketAddr,
)
    requires
        call_ensures(
            Router::<P, V, A>::update_last_seen_for_connected_peer,
            (router, addr, now),
            (),
        ),
    ensures
        final(router)@.pool.contains_key(k) == old(router)@.pool.contains_key(k),
        old(router)@.pool.contains_key(k) ==> final(router)@.pool[k] == match old(router)@.pool[k] {
            Peer::Connected(p) if k == addr => Peer::Connected(
                ConnectedPeer {
                    listener_addr: p.listener_addr,
                    connected_addr: p.connected_addr,
                    trusted: p.trusted,
                    aleo_addr: p.aleo_addr,
                    node_type: p.node_type,
                    last_height_seen: p.last_height_seen,
                    last_seen: now,
                },
            ),
            other => other,
        },
        final(router)@.tcp == old(router)@.tcp,
        final(router)@.network == old(router)@.network,
        final(router)@.node_type == old(router)@.node_type,
        final(router)@.account == old(router)@.account,
        final(router)@.resolver == old(router)@.resolver,
        final(router)@.rotate_external_peers == old(router)@.rotate_external_peers,
        final(router)@.allow_external_peers == old(router)@.allow_external_peers,
        final(router)@.is_dev == old(router)@.is_dev,
{
}

/// The removal of a peer makes it a candidate at its address, as trusted as it was and with what
/// was known of its block height. If it was `Connected`, whatever its fields say, its connection
/// no longer resolves; every other connection resolves as before. All other peers and everything
/// else of the router are left alone, and the cached entries to clear are those of that peer.
pub proof fn law_removal_of_any_peer<P, V, A: Copy>(
    router: &mut Router<P, V, A>,
    addr: SocketAddr,
    to_clear: SocketAddr,
    k: SocketAddr,
    connection: SocketAddr,
)
    requires
        call_ensures(Router::<P, V, A>::remove_connected_peer, (router, addr), to_clear),
    ensures
        to_clear == addr,
        final(router)@.pool.contains_key(k) == old(router)@.pool.contains_key(k),
        old(router)@.pool.contains_key(k) && k != addr ==> final(router)@.pool[k] == old(
            router,
        )@.pool[k],
        old(router)@.pool.contains_key(addr) ==> final(router)@.pool[addr] == Peer::<A>::Candidate(
            match old(router)@.pool[addr] {
                Peer::Candidate(p) => CandidatePeer {
                    listener_addr: addr,
                    trusted: p.trusted,
                    last_height_seen: p.last_height_seen,
                },
                Peer::Connecting(p) => CandidatePeer {
                    listener_addr: addr,
                    trusted: p.trusted,
                    last_height_seen: None,
                },
                Peer::Connected(p) => CandidatePeer {
                    listener_addr: addr,
                    trusted: p.trusted,
                    last_height_seen: p.last_height_seen,
                },
            },
        ),
        ({
            let removed = old(router)@.pool.contains_key(addr) && match old(router)@.pool[addr] {
                Peer::Connected(p) => p.connected_addr == connection,
                _ => false,
            };
            let before = old(router)@.resolver;
            let after = final(router)@.resolver;
            &&& removed ==> !after.contains_key(connection)
            &&& !removed ==> after.contains_key(connection) == before.contains_key(connection)
            &&& !removed && before.contains_key(connection) ==> after[connection]
                == before[connection]
        }),
        final(router)@.tcp == old(router)@.tcp,
        final(router)@.network == old(router)@.network,
        final(router)@.node_type == old(router)@.node_type,
        final(router)@.account == old(router)@.account,
        final(router)@.rotate_external_peers == old(router)@.rotate_external_peers,
        final(router)@.allow_external_peers == old(router)@.allow_external_peers,
        final(router)@.is_dev == old(router)@.is_dev,
{
}

/// After the removal of a `Connected` peer, whatever its fields say, there is no connection to
/// close, and the address of the connection that there was resolves to nothing.
pub proof fn law_nothing_leads_to_a_removed_peer<P, V, A: Copy>(
    router: &mut Router<P, V, A>,
    addr: SocketAddr,
    connection: Option<SocketAddr>,
    to_clear: SocketAddr,
)
    requires
        call_ensures(
            <Router<P, V, A> as PeerPoolHandling<A>>::resolve_to_ambiguous,
            (old(router), addr),
            connection,
        ),
        call_ensures(Router::<P, V, A>::remove_connected_peer, (router, addr), to_clear),
    ensures
        forall|c: Option<SocketAddr>| #[trigger]
            call_ensures(
                <Router<P, V, A> as PeerPoolHandling<A>>::resolve_to_ambiguous,
                (final(router), addr),
                c,
            ) ==> c is None,
        connection is Some ==> forall|a: Option<SocketAddr>| #[trigger]
            call_ensures(
                Router::<P, V, A>::resolve_to_listener,
                (final(router), &connection->0),
                a,
            ) ==> a is None,
{
}

/// A router resolves a connection to the listener address that its resolver holds of it, and to
/// nothing if it holds none.
pub proof fn law_connections_resolve<P, V, A: Copy>(
    router: Router<P, V, A>,
    connected_addr: SocketAddr,
    listener_addr: Option<SocketAddr>,
)
    requires
        call_ensures(
            Router::<P, V, A>::resolve_to_listener,
            (&router, &connected_addr),
            listener_addr,
        ),
    ensures
        match listener_addr {
            Some(addr) => router@.resolver.contains_key(connected_addr)
                && router@.resolver[connected_addr] == addr,
            None => !router@.resolver.contains_key(connected_addr),
        },
{
}

/// A block request asks for the heights that it was prepared for.
pub proof fn law_block_request<P, V, A: Copy>(
    start_height: u32,
    end_height: u32,
    request: BlockRequest,
)
    requires
        start_height < end_height,
        call_ensures(
            Router::<P, V, A>::prepare_block_request,
            (start_height, end_height),
            request,
        ),
    ensures
        request.start_height == start_height,
        request.end_height == end_height,
{
}

} // verus!
