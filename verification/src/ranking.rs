//! Which peers are worth remembering.
use vstd::prelude::*;
use vstd::seq_lib::lemma_multiset_commutative;

use crate::address::{IpAddr, SocketAddr};
use crate::peer::Peer;
use crate::pool::PeerPool;
use crate::table::{lists, Table};

verus! {

/// The number of network failures that is registered of each known IP address.
pub type KnownPeers = Table<IpAddr, u64>;

/// The number of failures that is registered of `ip`.
pub open spec fn failures_of(known_peers: Map<IpAddr, u64>, ip: IpAddr) -> u64 {
    if known_peers.contains_key(ip) {
        known_peers[ip]
    } else {
        0
    }
}

/// A known block height; an unknown one is less than any other.
pub open spec fn height_value(height: Option<u32>) -> int {
    match height {
        Some(height) => height as int,
        None => -1,
    }
}

/// The greater height comes first, and of two equal heights the one with fewer failures.
pub open spec fn ranks_first(h1: Option<u32>, f1: u64, h2: Option<u32>, f2: u64) -> bool {
    ||| height_value(h1) > height_value(h2)
    ||| height_value(h1) == height_value(h2) && f1 <= f2
}

/// The peer under `k1` is worth remembering at least as much as the one under `k2`.
pub open spec fn no_worse<A: Copy>(
    pool: Map<SocketAddr, Peer<A>>,
    known_peers: Map<IpAddr, u64>,
    k1: SocketAddr,
    k2: SocketAddr,
) -> bool {
    ranks_first(
        pool[k1].height(),
        failures_of(known_peers, pool[k1].listener().spec_ip()),
        pool[k2].height(),
        failures_of(known_peers, pool[k2].listener().spec_ip()),
    )
}

/// `keys` lists the peers of `pool` from the best to the worst.
pub open spec fn is_ranking<A: Copy>(
    pool: Map<SocketAddr, Peer<A>>,
    known_peers: Map<IpAddr, u64>,
    keys: Seq<SocketAddr>,
) -> bool {
    &&& lists(keys, pool.dom())
    &&& forall|i: int, j: int|
        0 <= i <= j < keys.len() ==> no_worse(pool, known_peers, keys[i], keys[j])
}

/// How many of `n` peers are saved.
pub open spec fn saved_len(n: nat, max_entries: Option<usize>) -> nat {
    match max_entries {
        Some(max) => if max < n {
            max as nat
        } else {
            n
        },
        None => n,
    }
}

/// `saved` are the listener addresses of the best peers of `pool`, from the best to the worst,
/// as many as there are but no more than `max_entries`.
pub open spec fn are_best<A: Copy>(
    pool: Map<SocketAddr, Peer<A>>,
    known_peers: Map<IpAddr, u64>,
    max_entries: Option<usize>,
    saved: Seq<SocketAddr>,
) -> bool {
    exists|keys: Seq<SocketAddr>|
        {
            &&& #[trigger] is_ranking(pool, known_peers, keys)
            &&& saved == keys.take(saved_len(keys.len(), max_entries) as int).map_values(
                |k: SocketAddr| pool[k].listener(),
            )
        }
}

/// A peer together with what it is ranked by.
#[derive(Clone, Copy)]
struct Ranked {
    key: SocketAddr,
    listener_addr: SocketAddr,
    height: Option<u32>,
    failures: u64,
}

/// What the peer of `pool` under `key` is ranked by.
spec fn ranked<A: Copy>(
    pool: Map<SocketAddr, Peer<A>>,
    known_peers: Map<IpAddr, u64>,
    key: SocketAddr,
) -> Ranked {
    Ranked {
        key,
        listener_addr: pool[key].listener(),
        height: pool[key].height(),
        failures: failures_of(known_peers, pool[key].listener().spec_ip()),
    }
}

spec fn le(a: Ranked, b: Ranked) -> bool {
    ranks_first(a.height, a.failures, b.height, b.failures)
}

spec fn sorted(items: Seq<Ranked>) -> bool {
    forall|i: int, j: int| 0 <= i <= j < items.len() ==> le(items[i], items[j])
}

fn is_le(a: &Ranked, b: &Ranked) -> (r: bool)
    ensures
        r == le(*a, *b),
{
    match (a.height, b.height) {
        (Some(h1), Some(h2)) => h1 > h2 || h1 == h2 && a.failures <= b.failures,
        (Some(_), None) => true,
        (None, Some(_)) => false,
        (None, None) => a.failures <= b.failures,
    }
}

/// Merges two sorted lists into one.
fn merge(a: &Vec<Ranked>, b: &Vec<Ranked>) -> (items: Vec<Ranked>)
    requires
        sorted(a@),
        sorted(b@),
    ensures
        sorted(items@),
        items@.to_multiset() == a@.to_multiset().add(b@.to_multiset()),
{
    let mut items: Vec<Ranked> = Vec::new();
    let mut i: usize = 0;
    let mut j: usize = 0;
    proof {
        assert(a@.take(0) + b@.take(0) =~= items@);
    }
    while i < a.len() || j < b.len()
        invariant
            i <= a@.len(),
            j <= b@.len(),
            sorted(a@),
            sorted(b@),
            sorted(items@),
            items@.to_multiset() == (a@.take(i as int) + b@.take(j as int)).to_multiset(),
            forall|x: int, y: int|
                0 <= x < items@.len() && i <= y < a@.len() ==> le(items@[x], a@[y]),
            forall|x: int, y: int|
                0 <= x < items@.len() && j <= y < b@.len() ==> le(items@[x], b@[y]),
        decreases a@.len() - i + b@.len() - j,
    {
        broadcast use vstd::seq_lib::group_to_multiset_ensures;
        if j >= b.len() || i < a.len() && is_le(&a[i], &b[j]) {
            proof {
                lemma_multiset_commutative(a@.take(i as int), b@.take(j as int));
                lemma_multiset_commutative(a@.take(i + 1), b@.take(j as int));
                assert(a@.take(i + 1) =~= a@.take(i as int).push(a@[i as int]));
                assert forall|y: int| j <= y < b@.len() implies le(a@[i as int], b@[y]) by {
                    assert(le(b@[j as int], b@[y]));
                }
            }
            items.push(a[i]);
            i += 1;
        } else {
            proof {
                lemma_multiset_commutative(a@.take(i as int), b@.take(j as int));
                lemma_multiset_commutative(a@.take(i as int), b@.take(j + 1));
                assert(b@.take(j + 1) =~= b@.take(j as int).push(b@[j as int]));
                assert forall|y: int| i <= y < a@.len() implies le(b@[j as int], a@[y]) by {
                    assert(le(a@[i as int], a@[y]));
                }
            }
            items.push(b[j]);
            j += 1;
        }
        assert(items@.to_multiset() =~= (a@.take(i as int) + b@.take(j as int)).to_multiset());
    }
    proof {
        assert(a@.take(i as int) =~= a@);
        assert(b@.take(j as int) =~= b@);
        lemma_multiset_commutative(a@, b@);
    }
    items
}

/// Sorts `items[from..to]`.
fn sort(items: &Vec<Ranked>, from: usize, to: usize) -> (result: Vec<Ranked>)
    requires
        from <= to <= items@.len(),
    ensures
        sorted(result@),
        result@.to_multiset() == items@.subrange(from as int, to as int).to_multiset(),
    decreases to - from,
{
    let mut result: Vec<Ranked> = Vec::new();
    if to - from >= 2 {
        let middle = from + (to - from) / 2;
        let low = sort(items, from, middle);
        let high = sort(items, middle, to);
        result = merge(&low, &high);
        proof {
            let a = items@.subrange(from as int, middle as int);
            let b = items@.subrange(middle as int, to as int);
            assert(items@.subrange(from as int, to as int) =~= a + b);
            lemma_multiset_commutative(a, b);
        }
    } else if to - from == 1 {
        result.push(items[from]);
        assert(items@.subrange(from as int, to as int) =~= result@);
    } else {
        assert(items@.subrange(from as int, to as int) =~= result@);
    }
    result
}

proof fn lemma_sorted_keys(items: Seq<Ranked>, result: Seq<Ranked>)
    requires
        result.to_multiset() == items.to_multiset(),
        forall|i: int, j: int|
            0 <= i < items.len() && 0 <= j < items.len() && i != j ==> items[i].key
                != items[j].key,
    ensures
        result.len() == items.len(),
        forall|x: Ranked| result.contains(x) <==> items.contains(x),
        forall|i: int, j: int|
            0 <= i < result.len() && 0 <= j < result.len() && i != j ==> result[i].key
                != result[j].key,
{
    broadcast use vstd::seq_lib::group_to_multiset_ensures;

    assert(result.len() == result.to_multiset().len());
    assert(items.len() == items.to_multiset().len());
    assert forall|x: Ranked| result.contains(x) <==> items.contains(x) by {
        assert(result.contains(x) <==> result.to_multiset().count(x) > 0);
        assert(items.contains(x) <==> items.to_multiset().count(x) > 0);
    }
    assert(items.no_duplicates());
    items.lemma_multiset_has_no_duplicates();
    result.lemma_multiset_has_no_duplicates_conv();
    assert forall|i: int, j: int|
        0 <= i < result.len() && 0 <= j < result.len() && i != j implies result[i].key
        != result[j].key by {
        assert(items.contains(result[i]));
        assert(items.contains(result[j]));
        let x = items.index_of(result[i]);
        let y = items.index_of(result[j]);
        assert(items[x] == result[i] && items[y] == result[j]);
    }
}

/// Lists the listener addresses of the best peers of `pool`, those with the greatest known block
/// heights and the lowest numbers of registered failures, from the best to the worst.
pub fn best_peers<A: Copy>(
    pool: &PeerPool<A>,
    known_peers: &KnownPeers,
    max_entries: Option<usize>,
) -> (saved: Vec<SocketAddr>)
    ensures
        are_best(pool@, known_peers@, max_entries, saved@),
{
    // Collect all prospect peers.
    let len = pool.len();
    let mut items: Vec<Ranked> = Vec::new();
    let mut i: usize = 0;
    while i < len
        invariant
            i <= len == pool.order().len(),
            items@.len() == i,
            forall|j: int| 0 <= j < i ==> #[trigger] items@[j] == ranked(
                pool@,
                known_peers@,
                pool.order()[j],
            ),
        decreases len - i,
    {
        let peer = pool.value_at(i);
        let failures = match known_peers.get(&peer.listener_addr().ip()) {
            Some(failures) => *failures,
            None => 0,
        };
        items.push(
            Ranked {
                key: pool.key_at(i),
                listener_addr: peer.listener_addr(),
                height: peer.last_height_seen(),
                failures,
            },
        );
        i += 1;
    }
    // Sort the list of peers.
    let mut items_sorted = sort(&items, 0, len);
    let ghost keys = Seq::new(items_sorted@.len(), |j: int| items_sorted@[j].key);
    proof {
        assert(items@.subrange(0, len as int) =~= items@);
        lemma_sorted_keys(items@, items_sorted@);
        assert forall|j: int| 0 <= j < items_sorted@.len() implies #[trigger] items_sorted@[j]
            == ranked(pool@, known_peers@, keys[j]) by {
            assert(items@.contains(items_sorted@[j]));
        }
        assert forall|k: SocketAddr| keys.to_set().contains(k) <==> pool@.dom().contains(k) by {
            if keys.contains(k) {
                let j = keys.index_of(k);
                assert(items@.contains(items_sorted@[j]));
                let x = items@.index_of(items_sorted@[j]);
                assert(pool.order()[x] == k);
                assert(pool.order().to_set().contains(k));
            }
            if pool@.dom().contains(k) {
                assert(pool.order().to_set().contains(k));
                let x = pool.order().index_of(k);
                assert(items@[x].key == k);
                assert(items_sorted@.contains(items@[x]));
                let j = items_sorted@.index_of(items@[x]);
                assert(keys[j] == k);
            }
        }
        assert(keys.to_set() =~= pool@.dom());
        assert forall|x: int, y: int| 0 <= x <= y < keys.len() implies no_worse(
            pool@,
            known_peers@,
            keys[x],
            keys[y],
        ) by {
            assert(le(items_sorted@[x], items_sorted@[y]));
        }
        assert(is_ranking(pool@, known_peers@, keys));
    }
    let ghost all = items_sorted@;
    if let Some(max) = max_entries {
        items_sorted.truncate(max);
    }
    let mut saved: Vec<SocketAddr> = Vec::new();
    let mut n: usize = 0;
    while n < items_sorted.len()
        invariant
            n <= items_sorted@.len() <= all.len(),
            saved@.len() == n,
            forall|j: int| 0 <= j < items_sorted@.len() ==> items_sorted@[j] == all[j],
            forall|j: int| 0 <= j < n ==> #[trigger] saved@[j] == all[j].listener_addr,
        decreases items_sorted@.len() - n,
    {
        saved.push(items_sorted[n].listener_addr);
        n += 1;
    }
    assert(saved@ =~= keys.take(saved_len(keys.len(), max_entries) as int).map_values(
        |k: SocketAddr| pool@[k].listener(),
    ));
    saved
}

} // verus!
