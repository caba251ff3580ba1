//! What holds of a router whatever is asked of it.
use vstd::prelude::*;
use vstd::set_lib::{lemma_len_union, lemma_set_disjoint_lens};

use crate::address::{IpAddr, SocketAddr};
use crate::cache_file::{
    is_line, law_lines_of_text, lemma_line_end, lemma_line_end_is_first, line_end, lines_of,
    text_of, without_cr,
};
use crate::network::{bootstrap_addrs, Network, DEFAULT_NODE_PORT};
use crate::peer::{fresh_candidate, ConnectedPeer, NodeType, Peer};
use crate::pool::{
    attempt_outcome, candidate_set, connected_at, connected_set, connecting_set, connection_to,
    leads_to, parsed_addrs, peers_at, text_addrs, trusted_set, with_connecting, ConnectionError,
};
use crate::ranking::{are_best, is_ranking, no_worse, saved_len};
use crate::router::{
    accepted_addrs, accepts_version, candidate_quota, eligible_addrs, initial_pool,
    with_candidates, with_downgraded, with_seen, without_connection, MAXIMUM_CANDIDATE_PEERS,
};
use crate::table::lists;

verus! {

/// Each peer stands under the address on which it listens.
pub open spec fn is_keyed<A: Copy>(pool: Map<SocketAddr, Peer<A>>) -> bool {
    forall|k: SocketAddr| #[trigger] pool.contains_key(k) ==> pool[k].listener() == k
}

pub(crate) proof fn lemma_accepted<A>(
    pool: Map<SocketAddr, Peer<A>>,
    local: SocketAddr,
    peers: Seq<SocketAddr>,
)
    ensures
        accepted_addrs(pool, local, peers).len() <= candidate_quota(pool),
        forall|k: SocketAddr| #[trigger]
            accepted_addrs(pool, local, peers).contains(k) ==> peers.contains(k) && !leads_to(
                local,
                k,
            ) && !pool.contains_key(k),
        accepted_addrs(pool, local, peers).len() < candidate_quota(pool) ==> forall|k: SocketAddr|
            peers.contains(k) && !leads_to(local, k) && !pool.contains_key(k)
                ==> #[trigger] accepted_addrs(pool, local, peers).contains(k),
{
    let pred = |a: SocketAddr| !leads_to(local, a) && !pool.contains_key(a);
    let eligible = eligible_addrs(pool, local, peers);
    let accepted = accepted_addrs(pool, local, peers);
    assert forall|k: SocketAddr| #[trigger] accepted.contains(k) implies peers.contains(k)
        && !leads_to(local, k) && !pool.contains_key(k) by {
        let i = accepted.index_of(k);
        assert(eligible[i] == k);
        peers.lemma_filter_pred(pred, i);
        peers.lemma_filter_contains_rev(pred, k);
    }
    if accepted.len() < candidate_quota(pool) {
        assert(accepted == eligible);
        assert forall|k: SocketAddr|
            peers.contains(k) && !leads_to(local, k) && !pool.contains_key(
                k,
            ) implies #[trigger] accepted.contains(k) by {
            let i = peers.index_of(k);
            peers.lemma_filter_contains(pred, i);
        }
    }
}

/// In the pool that a router starts with, each peer stands under the address on which it
/// listens.
pub proof fn law_initial_pool_is_keyed<A: Copy>(cached: Seq<SocketAddr>, trusted: Seq<SocketAddr>)
    ensures
        is_keyed(initial_pool::<A>(cached, trusted)),
{
}

/// Adding a connecting peer, inserting candidates, removing a connected peer and noting a message
/// keep each peer under the address on which it listens; so does an update of a connected peer
/// that leaves that address alone.
pub proof fn law_operations_keep_pool_keyed<A: Copy>(
    pool: Map<SocketAddr, Peer<A>>,
    addr: SocketAddr,
    added: Seq<SocketAddr>,
    now: u64,
    updated: ConnectedPeer<A>,
)
    requires
        is_keyed(pool),
        updated.listener_addr == addr,
    ensures
        is_keyed(with_connecting(pool, addr)),
        is_keyed(with_candidates(pool, added)),
        is_keyed(with_downgraded(pool, addr)),
        is_keyed(with_seen(pool, addr, now)),
        is_keyed(pool.insert(addr, Peer::Connected(updated))),
{
}

/// A router starts with trust in exactly the peers that it was told to trust.
pub proof fn law_initial_trust<A: Copy>(cached: Seq<SocketAddr>, trusted: Seq<SocketAddr>)
    ensures
        trusted_set(initial_pool::<A>(cached, trusted)) == trusted.to_set(),
{
    assert(trusted_set(initial_pool::<A>(cached, trusted)) =~= trusted.to_set());
}

/// Which peers are trusted never changes: not by adding a connecting peer, inserting candidates,
/// removing a connected peer or noting a message.
pub proof fn law_operations_keep_trust<A: Copy>(
    pool: Map<SocketAddr, Peer<A>>,
    addr: SocketAddr,
    local: SocketAddr,
    peers: Seq<SocketAddr>,
    now: u64,
)
    ensures
        trusted_set(with_connecting(pool, addr)) == trusted_set(pool),
        trusted_set(with_candidates(pool, accepted_addrs(pool, local, peers))) == trusted_set(pool),
        trusted_set(with_downgraded(pool, addr)) == trusted_set(pool),
        trusted_set(with_seen(pool, addr, now)) == trusted_set(pool),
{
    lemma_accepted(pool, local, peers);
    assert(trusted_set(with_connecting(pool, addr)) =~= trusted_set(pool));
    assert(trusted_set(with_candidates(pool, accepted_addrs(pool, local, peers))) =~= trusted_set(
        pool,
    ));
    assert(trusted_set(with_downgraded(pool, addr)) =~= trusted_set(pool));
    assert(trusted_set(with_seen(pool, addr, now)) =~= trusted_set(pool));
}

/// A known peer is never forgotten, and only the insertion of candidates and the addition of a
/// connecting peer make a peer known.
pub proof fn law_operations_keep_peers_known<A: Copy>(
    pool: Map<SocketAddr, Peer<A>>,
    addr: SocketAddr,
    added: Seq<SocketAddr>,
    now: u64,
)
    ensures
        with_connecting(pool, addr).dom() == pool.dom().insert(addr),
        with_candidates(pool, added).dom() == pool.dom().union(added.to_set()),
        with_downgraded(pool, addr).dom() == pool.dom(),
        with_seen(pool, addr, now).dom() == pool.dom(),
{
    assert(with_connecting(pool, addr).dom() =~= pool.dom().insert(addr));
    assert(with_candidates(pool, added).dom() =~= pool.dom().union(added.to_set()));
    assert(with_downgraded(pool, addr).dom() =~= pool.dom());
    assert(with_seen(pool, addr, now).dom() =~= pool.dom());
}

/// Connected peers stay connected, and as they are, while connecting peers and candidates are
/// added.
pub proof fn law_additions_leave_connected_peers_alone<A: Copy>(
    pool: Map<SocketAddr, Peer<A>>,
    addr: SocketAddr,
    local: SocketAddr,
    peers: Seq<SocketAddr>,
    k: SocketAddr,
)
    ensures
        connected_set(with_connecting(pool, addr)) == connected_set(pool),
        connected_set(with_candidates(pool, accepted_addrs(pool, local, peers))) == connected_set(
            pool,
        ),
        connected_set(pool).contains(k) ==> with_connecting(pool, addr)[k] == pool[k],
        connected_set(pool).contains(k) ==> with_candidates(
            pool,
            accepted_addrs(pool, local, peers),
        )[k] == pool[k],
{
    lemma_accepted(pool, local, peers);
    assert(connected_set(with_connecting(pool, addr)) =~= connected_set(pool));
    assert(connected_set(with_candidates(pool, accepted_addrs(pool, local, peers)))
        =~= connected_set(pool));
}

/// To remove a connected peer takes that peer, and no other, from the connected and the
/// connecting ones and makes it a candidate. Nothing then leads to it: there is no connection to
/// close, and the address of the connection that there was no longer resolves. The other
/// connections resolve as before.
pub proof fn law_removal<A: Copy>(
    pool: Map<SocketAddr, Peer<A>>,
    resolver: Map<SocketAddr, SocketAddr>,
    addr: SocketAddr,
    other: SocketAddr,
)
    requires
        pool.contains_key(addr),
    ensures
        connected_set(with_downgraded(pool, addr)) == connected_set(pool).remove(addr),
        connecting_set(with_downgraded(pool, addr)) == connecting_set(pool).remove(addr),
        candidate_set(with_downgraded(pool, addr)) == candidate_set(pool).insert(addr),
        connection_to(with_downgraded(pool, addr), addr) is None,
        connection_to(pool, addr) is Some ==> without_connection(resolver, pool, addr).get(
            connection_to(pool, addr)->0,
        ) is None,
        connection_to(pool, addr) != Some(other) ==> without_connection(resolver, pool, addr).get(
            other,
        ) == resolver.get(other),
{
    let after = with_downgraded(pool, addr);
    assert(connected_set(after) =~= connected_set(pool).remove(addr));
    assert(connecting_set(after) =~= connecting_set(pool).remove(addr));
    assert(candidate_set(after) =~= candidate_set(pool).insert(addr));
}

/// A message from a peer changes nothing but when that peer was last seen, and that only if it is
/// connected.
pub proof fn law_messages_change_only_last_seen<A: Copy>(
    pool: Map<SocketAddr, Peer<A>>,
    addr: SocketAddr,
    now: u64,
)
    ensures
        connected_set(with_seen(pool, addr, now)) == connected_set(pool),
        connecting_set(with_seen(pool, addr, now)) == connecting_set(pool),
        candidate_set(with_seen(pool, addr, now)) == candidate_set(pool),
        !connected_set(pool).contains(addr) ==> with_seen(pool, addr, now) == pool,
        connected_set(pool).contains(addr) ==> with_seen(pool, addr, now) == pool.insert(
            addr,
            Peer::Connected(ConnectedPeer { last_seen: now, ..pool[addr]->Connected_0 }),
        ),
{
    let after = with_seen(pool, addr, now);
    assert(connected_set(after) =~= connected_set(pool));
    assert(connecting_set(after) =~= connecting_set(pool));
    assert(candidate_set(after) =~= candidate_set(pool));
    assert(!connected_set(pool).contains(addr) ==> after =~= pool);
}

/// Every known peer is either connected, connecting or a candidate.
pub proof fn law_peers_have_one_status<A: Copy>(pool: Map<SocketAddr, Peer<A>>)
    requires
        pool.dom().finite(),
    ensures
        connected_set(pool).disjoint(connecting_set(pool)),
        connected_set(pool).disjoint(candidate_set(pool)),
        connecting_set(pool).disjoint(candidate_set(pool)),
        connected_set(pool).union(connecting_set(pool)).union(candidate_set(pool)) == pool.dom(),
        connected_set(pool).len() + connecting_set(pool).len() + candidate_set(pool).len()
            == pool.dom().len(),
{
    let unsettled = connected_set(pool).union(connecting_set(pool));
    assert(unsettled.union(candidate_set(pool)) =~= pool.dom());
    lemma_set_disjoint_lens(connected_set(pool), connecting_set(pool));
    lemma_set_disjoint_lens(unsettled, candidate_set(pool));
}

/// The number of candidates that are stored does not grow past its limit.
pub proof fn law_candidates_are_limited<A: Copy>(
    pool: Map<SocketAddr, Peer<A>>,
    local: SocketAddr,
    peers: Seq<SocketAddr>,
)
    requires
        pool.dom().finite(),
    ensures
        ({
            let after = with_candidates(pool, accepted_addrs(pool, local, peers));
            candidate_set(after).len() <= MAXIMUM_CANDIDATE_PEERS || candidate_set(after)
                == candidate_set(pool)
        }),
{
    let accepted = accepted_addrs(pool, local, peers);
    let after = with_candidates(pool, accepted);
    lemma_accepted(pool, local, peers);
    lemma_candidates_after(pool, local, peers);
    accepted.lemma_cardinality_of_set();
    lemma_len_union(candidate_set(pool), accepted.to_set());
    if candidate_quota(pool) == 0 {
        assert(accepted.to_set() =~= Set::empty());
        assert(candidate_set(after) =~= candidate_set(pool));
    }
}

proof fn lemma_candidates_after<A: Copy>(
    pool: Map<SocketAddr, Peer<A>>,
    local: SocketAddr,
    peers: Seq<SocketAddr>,
)
    ensures
        ({
            let accepted = accepted_addrs(pool, local, peers);
            &&& candidate_set(with_candidates(pool, accepted)) == candidate_set(pool).union(
                accepted.to_set(),
            )
            &&& candidate_set(pool).disjoint(accepted.to_set())
        }),
{
    let accepted = accepted_addrs(pool, local, peers);
    lemma_accepted(pool, local, peers);
    assert(candidate_set(with_candidates(pool, accepted)) =~= candidate_set(pool).union(
        accepted.to_set(),
    ));
}

/// An address that leads back to this node is not taken in as a candidate.
pub proof fn law_own_address_is_no_candidate<A: Copy>(
    pool: Map<SocketAddr, Peer<A>>,
    local: SocketAddr,
    peers: Seq<SocketAddr>,
    addr: SocketAddr,
)
    requires
        leads_to(local, addr),
        !pool.contains_key(addr),
    ensures
        !with_candidates(pool, accepted_addrs(pool, local, peers)).contains_key(addr),
{
    lemma_accepted(pool, local, peers);
}

proof fn lemma_filter_no_duplicates(items: Seq<SocketAddr>, pred: spec_fn(SocketAddr) -> bool)
    requires
        items.no_duplicates(),
    ensures
        items.filter(pred).no_duplicates(),
    decreases items.len(),
{
    reveal(Seq::filter);
    if items.len() > 0 {
        let rest = items.drop_last();
        lemma_filter_no_duplicates(rest, pred);
        if pred(items.last()) {
            if rest.filter(pred).contains(items.last()) {
                rest.lemma_filter_contains_rev(pred, items.last());
            }
            assert(items.filter(pred).no_duplicates());
        }
    }
}

/// To insert a list of candidates in which no address occurs twice a second time changes nothing.
pub proof fn law_insertion_is_idempotent<A: Copy>(
    pool: Map<SocketAddr, Peer<A>>,
    local: SocketAddr,
    peers: Seq<SocketAddr>,
)
    requires
        pool.dom().finite(),
        peers.no_duplicates(),
    ensures
        ({
            let once = with_candidates(pool, accepted_addrs(pool, local, peers));
            with_candidates(once, accepted_addrs(once, local, peers)) == once
        }),
{
    let accepted = accepted_addrs(pool, local, peers);
    let once = with_candidates(pool, accepted);
    let again = accepted_addrs(once, local, peers);
    lemma_accepted(pool, local, peers);
    lemma_accepted(once, local, peers);
    lemma_candidates_after(pool, local, peers);
    if accepted.len() == candidate_quota(pool) {
        lemma_filter_no_duplicates(
            peers,
            |a: SocketAddr| !leads_to(local, a) && !pool.contains_key(a),
        );
        assert(accepted.no_duplicates());
        accepted.unique_seq_to_set();
        lemma_set_disjoint_lens(candidate_set(pool), accepted.to_set());
    } else if again.len() > 0 {
        assert(again.contains(again[0]));
        assert(accepted.contains(again[0]));
        assert(once.contains_key(again[0]));
    }
    assert(again.len() == 0);
    assert(with_candidates(once, again) =~= once);
}

/// An attempt that is allowed leaves room for the connection, is not to this node, and is to a
/// peer that is unknown or a candidate. A peer that is already connected or connecting is
/// answered for, whether there is room or not.
pub proof fn law_attempts<A: Copy>(
    pool: Map<SocketAddr, Peer<A>>,
    local: SocketAddr,
    max_connected: nat,
    addr: SocketAddr,
)
    ensures
        attempt_outcome(pool, local, max_connected, addr) == Ok::<bool, ConnectionError>(false)
            <==> {
            &&& connected_set(pool).len() < max_connected
            &&& !leads_to(local, addr)
            &&& pool.contains_key(addr) ==> candidate_set(pool).contains(addr)
        },
        attempt_outcome(pool, local, max_connected, addr) == Ok::<bool, ConnectionError>(true)
            <==> {
            &&& !leads_to(local, addr)
            &&& connected_set(pool).contains(addr) || connecting_set(pool).contains(addr)
        },
{
}

/// A node never connects to itself: not by its own address, and not by an unspecified or a
/// loopback address with its port.
pub proof fn law_no_connection_to_oneself<A: Copy>(
    pool: Map<SocketAddr, Peer<A>>,
    local: SocketAddr,
    max_connected: nat,
    addr: SocketAddr,
)
    requires
        addr == local || addr.spec_port() == local.spec_port() && (addr.spec_ip().unspecified()
            || addr.spec_ip().loopback()),
    ensures
        attempt_outcome(pool, local, max_connected, addr) == Err::<bool, ConnectionError>(
            ConnectionError::SelfConnect,
        ),
{
}

/// Once a peer was added as a connecting one, it is connecting; to add it again is refused and
/// changes nothing, and an attempt to connect to it finds that under way.
pub proof fn law_connecting_once<A: Copy>(
    pool: Map<SocketAddr, Peer<A>>,
    local: SocketAddr,
    max_connected: nat,
    addr: SocketAddr,
)
    requires
        pool.contains_key(addr) ==> pool[addr] is Candidate,
    ensures
        ({
            let after = with_connecting(pool, addr);
            &&& connecting_set(after) == connecting_set(pool).insert(addr)
            &&& candidate_set(after) == candidate_set(pool).remove(addr)
            &&& after.contains_key(addr) && !(after[addr] is Candidate)
            &&& with_connecting(after, addr) == after
            &&& !leads_to(local, addr) ==> attempt_outcome(after, local, max_connected, addr)
                == Ok::<bool, ConnectionError>(true)
        }),
{
    let after = with_connecting(pool, addr);
    assert(connecting_set(after) =~= connecting_set(pool).insert(addr));
    assert(candidate_set(after) =~= candidate_set(pool).remove(addr));
    assert(connected_set(after) =~= connected_set(pool));
}

/// A peer with which the handshake fails is a candidate again, as trusted as before. Of an
/// unknown peer a fresh, untrusted candidate remains; a candidate of which no block height was
/// known is as it was.
pub proof fn law_failed_handshake<A: Copy>(pool: Map<SocketAddr, Peer<A>>, addr: SocketAddr)
    requires
        pool.contains_key(addr) ==> pool[addr] is Candidate,
    ensures
        with_downgraded(with_connecting(pool, addr), addr) == pool.insert(
            addr,
            fresh_candidate::<A>(addr, trusted_set(pool).contains(addr)),
        ),
        pool.contains_key(addr) && pool[addr].listener() == addr && pool[addr].height() is None
            ==> with_downgraded(with_connecting(pool, addr), addr) == pool,
{
    let after = with_downgraded(with_connecting(pool, addr), addr);
    assert(after =~= pool.insert(
        addr,
        fresh_candidate::<A>(addr, trusted_set(pool).contains(addr)),
    ));
    if pool.contains_key(addr) && pool[addr].listener() == addr && pool[addr].height() is None {
        assert(after =~= pool);
    }
}

/// The connection to each connected peer resolves to the address under which the peer stands.
pub open spec fn is_resolvable<A: Copy>(
    pool: Map<SocketAddr, Peer<A>>,
    resolver: Map<SocketAddr, SocketAddr>,
) -> bool {
    forall|k: SocketAddr| #[trigger]
        connected_set(pool).contains(k) ==> resolver.get(pool[k]->Connected_0.connected_addr)
            == Some(k)
}

/// A router starts with no connected peer, so that every connection resolves.
pub proof fn law_initial_connections_resolve<A: Copy>(
    cached: Seq<SocketAddr>,
    trusted: Seq<SocketAddr>,
)
    ensures
        connected_set(initial_pool::<A>(cached, trusted)) == Set::<SocketAddr>::empty(),
        is_resolvable(initial_pool::<A>(cached, trusted), Map::empty()),
{
    assert(connected_set(initial_pool::<A>(cached, trusted)) =~= Set::empty());
}

/// As long as the connection to each connected peer resolves to that peer, it goes on doing so
/// whatever peer is added, inserted, removed or heard of. The same holds when a peer completes
/// its handshake over a connection that leads to no other peer and the resolver is told so.
pub proof fn law_operations_keep_connections_resolvable<A: Copy>(
    pool: Map<SocketAddr, Peer<A>>,
    resolver: Map<SocketAddr, SocketAddr>,
    addr: SocketAddr,
    local: SocketAddr,
    peers: Seq<SocketAddr>,
    now: u64,
    connected: ConnectedPeer<A>,
)
    requires
        is_resolvable(pool, resolver),
        !resolver.contains_key(connected.connected_addr),
    ensures
        is_resolvable(with_connecting(pool, addr), resolver),
        is_resolvable(with_candidates(pool, accepted_addrs(pool, local, peers)), resolver),
        is_resolvable(with_seen(pool, addr, now), resolver),
        is_resolvable(with_downgraded(pool, addr), without_connection(resolver, pool, addr)),
        is_resolvable(
            pool.insert(addr, Peer::Connected(connected)),
            resolver.insert(connected.connected_addr, addr),
        ),
{
    lemma_accepted(pool, local, peers);
    assert forall|k: SocketAddr| #[trigger]
        connected_set(with_connecting(pool, addr)).contains(k) implies connected_set(
        pool,
    ).contains(k) && with_connecting(pool, addr)[k] == pool[k] by {}
    let inserted = with_candidates(pool, accepted_addrs(pool, local, peers));
    assert forall|k: SocketAddr| #[trigger]
        connected_set(inserted).contains(k) implies connected_set(pool).contains(k) && inserted[k]
        == pool[k] by {}
    assert forall|k: SocketAddr| #[trigger]
        connected_set(with_seen(pool, addr, now)).contains(k) implies connected_set(
        pool,
    ).contains(k) && with_seen(pool, addr, now)[k]->Connected_0.connected_addr
        == pool[k]->Connected_0.connected_addr by {}
    assert forall|k: SocketAddr| #[trigger]
        connected_set(with_downgraded(pool, addr)).contains(k) implies connected_set(
        pool,
    ).contains(k) && k != addr && with_downgraded(pool, addr)[k] == pool[k] by {}
    let joined = pool.insert(addr, Peer::Connected(connected));
    assert forall|k: SocketAddr| #[trigger]
        connected_set(joined).contains(k) && k != addr implies connected_set(pool).contains(k)
        && joined[k] == pool[k] by {}
}

/// A list of some peers, by their addresses or in full, holds as many of them as are counted.
pub proof fn law_listings_agree_with_counts<A: Copy>(
    pool: Map<SocketAddr, Peer<A>>,
    keys: Seq<SocketAddr>,
    set: Set<SocketAddr>,
)
    requires
        lists(keys, set),
    ensures
        keys.len() == set.len(),
        peers_at(pool, keys).len() == set.len(),
        connected_at(pool, keys).len() == set.len(),
{
    keys.unique_seq_to_set();
}

/// The peers that are saved are distinct, as many as there are but no more than the limit, and no
/// peer that is left out is better than one that is saved.
pub proof fn law_best_peers_are_saved<A: Copy>(
    pool: Map<SocketAddr, Peer<A>>,
    known_peers: Map<IpAddr, u64>,
    max_entries: Option<usize>,
    saved: Seq<SocketAddr>,
)
    requires
        is_keyed(pool),
        pool.dom().finite(),
        are_best(pool, known_peers, max_entries, saved),
    ensures
        saved.no_duplicates(),
        saved.len() == saved_len(pool.dom().len(), max_entries),
        forall|a: SocketAddr| #[trigger] saved.contains(a) ==> pool.contains_key(a),
        forall|a: SocketAddr, b: SocketAddr|
            #![trigger saved.contains(a), pool.contains_key(b)]
            saved.contains(a) && pool.contains_key(b) && !saved.contains(b) ==> no_worse(
                pool,
                known_peers,
                a,
                b,
            ),
{
    let keys = choose|keys: Seq<SocketAddr>|
        {
            &&& #[trigger] is_ranking(pool, known_peers, keys)
            &&& saved == keys.take(saved_len(keys.len(), max_entries) as int).map_values(
                |k: SocketAddr| pool[k].listener(),
            )
        };
    let n = saved_len(keys.len(), max_entries) as int;
    keys.unique_seq_to_set();
    assert(forall|i: int|
        #![trigger keys[i]]
        0 <= i < keys.len() ==> keys.to_set().contains(keys[i]));
    assert(saved =~= keys.take(n));
    assert forall|a: SocketAddr, b: SocketAddr|
        #![trigger saved.contains(a), pool.contains_key(b)]
        saved.contains(a) && pool.contains_key(b) && !saved.contains(b) implies no_worse(
        pool,
        known_peers,
        a,
        b,
    ) by {
        assert(keys.to_set().contains(b));
        let i = saved.index_of(a);
        let j = keys.index_of(b);
        assert(keys[i] == a && keys[j] == b);
        if j < n {
            assert(saved[j] == b);
        }
    }
}

proof fn lemma_parsed_addrs_add(a: Seq<Option<SocketAddr>>, b: Seq<Option<SocketAddr>>)
    ensures
        parsed_addrs(a + b) == parsed_addrs(a) + parsed_addrs(b),
    decreases b.len(),
{
    reveal(Seq::filter_map);
    if b.len() > 0 {
        lemma_parsed_addrs_add(a, b.drop_last());
        assert((a + b).drop_last() =~= a + b.drop_last());
        assert(parsed_addrs(a + b) =~= parsed_addrs(a) + parsed_addrs(b));
    } else {
        assert(a + b =~= a);
        assert(parsed_addrs(a + b) =~= parsed_addrs(a) + parsed_addrs(b));
    }
}

pub(crate) proof fn lemma_parsed_addrs_empty()
    ensures
        parsed_addrs(Seq::empty()) == Seq::<SocketAddr>::empty(),
{
    reveal(Seq::filter_map);
}

proof fn lemma_parsed_addrs_none()
    ensures
        parsed_addrs(seq![None]) == Seq::<SocketAddr>::empty(),
{
    let none: Seq<Option<SocketAddr>> = seq![None];
    lemma_parsed_addrs_empty();
    reveal(Seq::filter_map);
    assert(none.drop_last() =~= Seq::<Option<SocketAddr>>::empty());
    assert(none.last() is None);
}

/// Lines that each hold an address are loaded as these addresses.
pub proof fn law_parsed_lines_are_loaded(saved: Seq<SocketAddr>)
    ensures
        parsed_addrs(saved.map_values(|addr: SocketAddr| Some(addr))) == saved,
    decreases saved.len(),
{
    let lines = saved.map_values(|addr: SocketAddr| Some(addr));
    reveal(Seq::filter_map);
    if saved.len() > 0 {
        let rest = saved.drop_last();
        law_parsed_lines_are_loaded(rest);
        assert(lines.drop_last() =~= rest.map_values(|addr: SocketAddr| Some(addr)));
        assert(parsed_addrs(lines) =~= saved);
    } else {
        assert(parsed_addrs(lines) =~= saved);
    }
}

/// A line that does not parse is skipped; the lines around it are loaded all the same.
pub proof fn law_unreadable_lines_are_skipped(
    before: Seq<Option<SocketAddr>>,
    after: Seq<Option<SocketAddr>>,
)
    ensures
        parsed_addrs(before + seq![None] + after) == parsed_addrs(before) + parsed_addrs(after),
{
    let none: Seq<Option<SocketAddr>> = seq![None];
    lemma_parsed_addrs_add(before + none, after);
    lemma_parsed_addrs_add(before, none);
    lemma_parsed_addrs_none();
    assert(parsed_addrs(before) + Seq::empty() =~= parsed_addrs(before));
}

/// The addresses that were saved to the text of a peer cache are those that are loaded from it,
/// in the same order, as long as each is written as one line that is read back as that address.
pub proof fn law_saved_peers_are_loaded(
    saved: Seq<SocketAddr>,
    show: spec_fn(SocketAddr) -> Seq<char>,
    parse: spec_fn(Seq<char>) -> Option<SocketAddr>,
)
    requires
        forall|i: int|
            0 <= i < saved.len() ==> is_line(show(#[trigger] saved[i])) && parse(show(saved[i]))
                == Some(saved[i]),
    ensures
        text_addrs(text_of(saved.map_values(show)), parse) == saved,
{
    let lines = saved.map_values(show);
    assert forall|i: int| 0 <= i < lines.len() implies is_line(#[trigger] lines[i]) by {
        assert(lines[i] == show(saved[i]));
    }
    law_lines_of_text(lines);
    assert(lines.map_values(parse) =~= saved.map_values(|addr: SocketAddr| Some(addr)));
    law_parsed_lines_are_loaded(saved);
}

/// Each line of the text of a peer cache is judged on its own: the addresses in two texts that
/// are joined by a newline are those in the first, followed by those in the second. The first
/// text must not end with a carriage return, which would become part of the line ending, and an
/// empty line must not be read as an address.
pub proof fn law_lines_are_judged_alone(
    a: Seq<char>,
    b: Seq<char>,
    parse: spec_fn(Seq<char>) -> Option<SocketAddr>,
)
    requires
        a.len() > 0 ==> a.last() != '\r',
        parse(Seq::<char>::empty()) is None,
    ensures
        text_addrs(a + seq!['\n'] + b, parse) == text_addrs(a, parse) + text_addrs(b, parse),
    decreases a.len(),
{
    let text = a + seq!['\n'] + b;
    let end = line_end(a) as int;
    lemma_line_end_is_first(a);
    assert(forall|j: int| 0 <= j < a.len() ==> text[j] == a[j]);
    assert(text[a.len() as int] == '\n');
    lemma_line_end(text, end);
    let line = without_cr(text.take(end));
    let rest = text.skip(end + 1);
    let head = seq![parse(line)];
    assert(lines_of(text) =~= seq![line] + lines_of(rest));
    assert(lines_of(text).map_values(parse) =~= head + lines_of(rest).map_values(parse));
    lemma_parsed_addrs_add(head, lines_of(rest).map_values(parse));
    if end < a.len() {
        let a_rest = a.skip(end + 1);
        assert(text.take(end) =~= a.take(end));
        assert(rest =~= a_rest + seq!['\n'] + b);
        law_lines_are_judged_alone(a_rest, b, parse);
        assert(lines_of(a).map_values(parse) =~= head + lines_of(a_rest).map_values(parse));
        lemma_parsed_addrs_add(head, lines_of(a_rest).map_values(parse));
        assert(text_addrs(text, parse) =~= text_addrs(a, parse) + text_addrs(b, parse));
    } else {
        assert(text.take(end) =~= a);
        assert(rest =~= b);
        if a.len() > 0 {
            assert(lines_of(a).map_values(parse) =~= head);
        } else {
            assert(line =~= Seq::empty());
            assert(lines_of(a).map_values(parse) =~= Seq::empty());
            lemma_parsed_addrs_none();
            lemma_parsed_addrs_empty();
        }
        assert(text_addrs(text, parse) =~= text_addrs(a, parse) + text_addrs(b, parse));
    }
}

/// A candidate whose IP address is banned is not listed among the candidates.
pub proof fn law_banned_candidates_are_hidden<A: Copy>(
    pool: Map<SocketAddr, Peer<A>>,
    banned_ips: Seq<IpAddr>,
    listed: Seq<SocketAddr>,
    addr: SocketAddr,
)
    requires
        lists(
            listed,
            candidate_set(pool).filter(|k: SocketAddr| !banned_ips.contains(k.spec_ip())),
        ),
        banned_ips.contains(addr.spec_ip()),
    ensures
        !listed.contains(addr),
{
    if listed.contains(addr) {
        assert(listed.to_set().contains(addr));
    }
}

/// If a node accepts a message version, it accepts all later ones. What a prover accepts, a
/// validator or a client accepts too, as long as the latest version is accepted at all.
pub proof fn law_later_versions_are_accepted(
    node_type: NodeType,
    version: u32,
    later: u32,
    latest: u32,
    lowest_accepted: u32,
)
    requires
        version <= later,
        accepts_version(node_type, version, latest, lowest_accepted),
    ensures
        accepts_version(node_type, later, latest, lowest_accepted),
        node_type is Prover && lowest_accepted <= latest ==> accepts_version(
            NodeType::Validator,
            version,
            latest,
            lowest_accepted,
        ) && accepts_version(NodeType::Client, version, latest, lowest_accepted),
{
}

/// The bootstrap peers of a network are distinct, listen on the default port, and serve no other
/// network. There are none in development mode, in a build for tests, and for an unrecognized
/// network.
pub proof fn law_bootstrap_peers(network: Network, other: Network, is_dev: bool, addr: SocketAddr)
    ensures
        bootstrap_addrs(network, is_dev).no_duplicates(),
        bootstrap_addrs(network, is_dev).contains(addr) ==> {
            &&& addr.spec_port() == DEFAULT_NODE_PORT
            &&& other.id != network.id ==> !bootstrap_addrs(other, is_dev).contains(addr)
        },
        bootstrap_addrs(network, is_dev).len() == (if is_dev || network.is_test || network.id > 2 {
            0nat
        } else {
            4nat
        }),
{
}

} // verus!
