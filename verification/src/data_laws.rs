//! What holds of addresses, peers, tables and the text of a peer cache, said of their fields and
//! of what the operations on them return.
use vstd::prelude::*;

use crate::address::{IpAddr, SocketAddr};
use crate::cache_file::{
    cache_lines, cache_text, lemma_line_end, lemma_text_of_push, lines_of, parses_as, read_cache,
    shows_as, strings_view, write_cache,
};
use crate::network::{bootstrap_peers, Network};
use crate::peer::{CandidatePeer, ConnectingPeer, Peer};
use crate::resolver::Resolver;
use crate::table::{Key, Table};

verus! {

/// The IPv4 address `a.b.c.d:port` holds the four octets, the first of them foremost, and the
/// port.
#[verifier::rlimit(40)]
pub proof fn law_v4_octets(a: u8, b: u8, c: u8, d: u8, port: u16, addr: SocketAddr)
    requires
        call_ensures(SocketAddr::v4, (a, b, c, d, port), addr),
    ensures
        match addr {
            SocketAddr::V4 { ip, port: p } => {
                &&& p == port
                &&& ip / 0x100_0000 == a
                &&& ip / 0x1_0000 % 0x100 == b
                &&& ip / 0x100 % 0x100 == c
                &&& ip % 0x100 == d
            },
            SocketAddr::V6 { .. } => false,
        },
{
    let low = b * 0x1_0000 + c * 0x100 + d;
    let bits = a * 0x100_0000 + low;
    assert(0 <= low < 0x100_0000);
    assert(bits / 0x100_0000 == a);
    assert(bits / 0x1_0000 == a * 0x100 + b);
    assert(bits / 0x100 == a * 0x1_0000 + b * 0x100 + c);
}

/// A socket address tells the IP address and the port in its fields, whatever else it holds.
pub proof fn law_address_parts(addr: SocketAddr, ip: IpAddr, port: u16)
    requires
        call_ensures(SocketAddr::ip, (&addr,), ip),
        call_ensures(SocketAddr::port, (&addr,), port),
    ensures
        match addr {
            SocketAddr::V4 { ip: bits, port: p } => ip == IpAddr::V4(bits) && port == p,
            SocketAddr::V6 { ip: bits, port: p, .. } => ip == IpAddr::V6(bits) && port == p,
        },
{
}

/// The unspecified address of either family is the one with no bit set. The loopback addresses
/// are those with first octet 127, and the IPv6 address with only the last bit set.
pub proof fn law_special_ips(ip: IpAddr, unspecified: bool, loopback: bool)
    requires
        call_ensures(IpAddr::is_unspecified, (&ip,), unspecified),
        call_ensures(IpAddr::is_loopback, (&ip,), loopback),
    ensures
        match ip {
            IpAddr::V4(bits) => unspecified == (bits == 0) && loopback == (bits / 0x100_0000
                == 127),
            IpAddr::V6(bits) => unspecified == (bits == 0) && loopback == (bits == 1),
        },
{
}

/// The bootstrap peers of mainnet, testnet and canary, the networks 0, 1 and 2, each by the four
/// octets of its IPv4 address. All of them listen on port 4130. A node in development mode, a
/// build for tests and an unrecognized network have none.
#[verifier::rlimit(40)]
pub proof fn law_bootstrap_octets(network: Network, is_dev: bool, peers: Vec<SocketAddr>)
    requires
        call_ensures(bootstrap_peers, (network, is_dev), peers),
    ensures
        ({
            let listed = peers@.map_values(
                |addr: SocketAddr|
                    match addr {
                        SocketAddr::V4 { ip, port } => Some(
                            (
                                ip / 0x100_0000,
                                ip / 0x1_0000 % 0x100,
                                ip / 0x100 % 0x100,
                                ip % 0x100,
                                port,
                            ),
                        ),
                        SocketAddr::V6 { .. } => None,
                    },
            );
            let octets = |a: u32, b: u32, c: u32, d: u32| Some((a, b, c, d, 4130u16));
            if is_dev || network.is_test {
                listed.len() == 0
            } else if network.id == 0 {
                listed == seq![
                    octets(35, 231, 67, 219),
                    octets(34, 73, 195, 196),
                    octets(34, 23, 225, 202),
                    octets(34, 148, 16, 111),
                ]
            } else if network.id == 1 {
                listed == seq![
                    octets(34, 138, 104, 159),
                    octets(35, 231, 46, 237),
                    octets(34, 148, 251, 155),
                    octets(35, 190, 141, 234),
                ]
            } else if network.id == 2 {
                listed == seq![
                    octets(34, 139, 88, 58),
                    octets(34, 139, 252, 207),
                    octets(35, 185, 98, 12),
                    octets(35, 231, 106, 26),
                ]
            } else {
                listed.len() == 0
            }
        }),
{
}

/// A new candidate or connecting peer has the given address and trust; no block height is known
/// of a new candidate.
pub proof fn law_new_peers<A: Copy>(
    listener_addr: SocketAddr,
    trusted: bool,
    candidate: Peer<A>,
    connecting: Peer<A>,
)
    requires
        call_ensures(Peer::<A>::new_candidate, (listener_addr, trusted), candidate),
        call_ensures(Peer::<A>::new_connecting, (listener_addr, trusted), connecting),
    ensures
        candidate == Peer::<A>::Candidate(
            CandidatePeer { listener_addr, trusted, last_height_seen: None },
        ),
        connecting == Peer::<A>::Connecting(ConnectingPeer { listener_addr, trusted }),
{
}

/// A peer has exactly one status, which its variant tells.
pub proof fn law_peer_status<A: Copy>(
    peer: Peer<A>,
    candidate: bool,
    connecting: bool,
    connected: bool,
)
    requires
        call_ensures(Peer::<A>::is_candidate, (&peer,), candidate),
        call_ensures(Peer::<A>::is_connecting, (&peer,), connecting),
        call_ensures(Peer::<A>::is_connected, (&peer,), connected),
    ensures
        match peer {
            Peer::Candidate(_) => candidate && !connecting && !connected,
            Peer::Connecting(_) => !candidate && connecting && !connected,
            Peer::Connected(_) => !candidate && !connecting && connected,
        },
{
}

/// The trust, the listener address and the known block height of a peer are those in its own
/// fields. A connecting peer has no known height.
pub proof fn law_peer_fields<A: Copy>(
    peer: Peer<A>,
    trusted: bool,
    listener_addr: SocketAddr,
    height: Option<u32>,
)
    requires
        call_ensures(Peer::<A>::is_trusted, (&peer,), trusted),
        call_ensures(Peer::<A>::listener_addr, (&peer,), listener_addr),
        call_ensures(Peer::<A>::last_height_seen, (&peer,), height),
    ensures
        match peer {
            Peer::Candidate(p) => {
                &&& trusted == p.trusted
                &&& listener_addr == p.listener_addr
                &&& height == p.last_height_seen
            },
            Peer::Connecting(p) => {
                &&& trusted == p.trusted
                &&& listener_addr == p.listener_addr
                &&& height is None
            },
            Peer::Connected(p) => {
                &&& trusted == p.trusted
                &&& listener_addr == p.listener_addr
                &&& height == p.last_height_seen
            },
        },
{
}

/// A peer of any status becomes a candidate at the given address, as trusted as it was and with
/// what was known of its block height.
pub proof fn law_downgrade_keeps_trust_and_height<A: Copy>(
    peer: &mut Peer<A>,
    listener_addr: SocketAddr,
)
    requires
        call_ensures(Peer::<A>::downgrade_to_candidate, (peer, listener_addr), ()),
    ensures
        match *final(peer) {
            Peer::Candidate(after) => {
                &&& after.listener_addr == listener_addr
                &&& match *old(peer) {
                    Peer::Candidate(p) => after.trusted == p.trusted && after.last_height_seen
                        == p.last_height_seen,
                    Peer::Connecting(p) => after.trusted == p.trusted
                        && after.last_height_seen is None,
                    Peer::Connected(p) => after.trusted == p.trusted && after.last_height_seen
                        == p.last_height_seen,
                }
            },
            _ => false,
        },
{
}

/// A message sets the time at which a connected peer was last seen, whatever it was, and changes
/// nothing else of any peer.
pub proof fn law_message_sets_last_seen<A: Copy>(peer: &mut Peer<A>, now: u64)
    requires
        call_ensures(Peer::<A>::update_last_seen, (peer, now), ()),
    ensures
        match (*old(peer), *final(peer)) {
            (Peer::Connected(p), Peer::Connected(after)) => {
                &&& after.last_seen == now
                &&& after.listener_addr == p.listener_addr
                &&& after.connected_addr == p.connected_addr
                &&& after.trusted == p.trusted
                &&& after.aleo_addr == p.aleo_addr
                &&& after.node_type == p.node_type
                &&& after.last_height_seen == p.last_height_seen
            },
            (before, after) => before == after && !(before is Connected),
        },
{
}

/// A new table holds nothing.
pub proof fn law_new_table<K: Key, V>(table: Table<K, V>, key: K, found: bool, value: Option<&V>)
    requires
        call_ensures(Table::<K, V>::new, (), table),
        call_ensures(Table::<K, V>::contains_key, (&table, &key), found),
        call_ensures(Table::<K, V>::get, (&table, &key), value),
    ensures
        !found,
        value is None,
{
}

/// After an insertion the key has the value that was inserted, and every other key what it had.
pub proof fn law_table_insertion<K: Key, V>(
    table: &mut Table<K, V>,
    key: K,
    value: V,
    other: K,
    before: Option<&V>,
)
    requires
        call_ensures(Table::<K, V>::get, (old(table), &other), before),
        call_ensures(Table::<K, V>::insert, (table, key, value), ()),
    ensures
        forall|after: Option<&V>| #[trigger]
            call_ensures(Table::<K, V>::get, (final(table), &other), after) ==> after == (
            if other == key {
                Some(&value)
            } else {
                before
            }),
        forall|found: bool| #[trigger]
            call_ensures(Table::<K, V>::contains_key, (final(table), &other), found) ==> found == (
            other == key || before is Some),
{
}

/// A removal returns what the key had, after which the key has nothing, and every other key what
/// it had.
pub proof fn law_table_removal<K: Key, V>(
    table: &mut Table<K, V>,
    key: K,
    other: K,
    before: Option<&V>,
    removed: Option<V>,
)
    requires
        call_ensures(Table::<K, V>::get, (old(table), &other), before),
        call_ensures(Table::<K, V>::remove, (table, &key), removed),
    ensures
        other == key ==> match before {
            Some(value) => removed == Some(*value),
            None => removed is None,
        },
        forall|after: Option<&V>| #[trigger]
            call_ensures(Table::<K, V>::get, (final(table), &other), after) ==> after == (
            if other == key {
                None
            } else {
                before
            }),
{
}

/// A walk over a table meets each key at one position, with the value that the key has.
pub proof fn law_table_walk<K: Key, V>(
    table: Table<K, V>,
    n: usize,
    i: usize,
    j: usize,
    key: K,
    value: &V,
    other: K,
    found: Option<&V>,
)
    requires
        call_ensures(Table::<K, V>::len, (&table,), n),
        i < n,
        j < n,
        call_ensures(Table::<K, V>::key_at, (&table, i), key),
        call_ensures(Table::<K, V>::value_at, (&table, i), value),
        call_ensures(Table::<K, V>::key_at, (&table, j), other),
        call_ensures(Table::<K, V>::get, (&table, &key), found),
    ensures
        found == Some(value),
        i != j ==> key != other,
        n == table@.dom().len(),
        forall|k: K| #[trigger]
            table@.contains_key(k) ==> exists|m: int| 0 <= m < n && table.order()[m] == k,
{
    assert forall|k: K| #[trigger] table@.contains_key(k) implies exists|m: int|
        0 <= m < n && table.order()[m] == k by {
        assert(table.order().to_set().contains(k));
        assert(table.order()[table.order().index_of(k)] == k);
    }
}

/// A new resolver knows of no connection.
pub proof fn law_new_resolver(
    resolver: Resolver,
    connected_addr: SocketAddr,
    listener_addr: Option<SocketAddr>,
)
    requires
        call_ensures(Resolver::new, (), resolver),
        call_ensures(Resolver::get_listener, (&resolver, &connected_addr), listener_addr),
    ensures
        listener_addr is None,
{
}

/// Once a peer was noted, its connection resolves to its listener address; the other connections
/// resolve as before.
pub proof fn law_noted_connections_resolve(
    resolver: &mut Resolver,
    listener_addr: SocketAddr,
    connected_addr: SocketAddr,
    other: SocketAddr,
    before: Option<SocketAddr>,
)
    requires
        call_ensures(Resolver::get_listener, (old(resolver), &other), before),
        call_ensures(Resolver::insert_peer, (resolver, listener_addr, connected_addr), ()),
    ensures
        forall|after: Option<SocketAddr>| #[trigger]
            call_ensures(Resolver::get_listener, (final(resolver), &other), after) ==> after == (
            if other == connected_addr {
                Some(listener_addr)
            } else {
                before
            }),
{
}

/// Once a connection was forgotten, it resolves no more; the other connections resolve as before.
pub proof fn law_forgotten_connections_do_not_resolve(
    resolver: &mut Resolver,
    connected_addr: SocketAddr,
    other: SocketAddr,
    before: Option<SocketAddr>,
)
    requires
        call_ensures(Resolver::get_listener, (old(resolver), &other), before),
        call_ensures(Resolver::remove_peer, (resolver, &connected_addr), ()),
    ensures
        forall|after: Option<SocketAddr>| #[trigger]
            call_ensures(Resolver::get_listener, (final(resolver), &other), after) ==> after == (
            if other == connected_addr {
                None
            } else {
                before
            }),
{
}

/// A text without a newline is a line of its own, unless it is empty.
pub proof fn law_text_without_newline(text: &str, lines: Vec<String>)
    requires
        call_ensures(cache_lines, (text,), lines),
        !text@.contains('\n'),
    ensures
        text@.len() == 0 ==> lines@.len() == 0,
        text@.len() > 0 ==> lines@.len() == 1 && lines@[0]@ == text@,
{
    assert forall|j: int| 0 <= j < text@.len() implies text@[j] != '\n' by {
        assert(text@.contains(text@[j]));
    }
    lemma_line_end(text@, text@.len() as int);
    assert(strings_view(lines@).len() == lines@.len());
    if text@.len() > 0 {
        assert(lines_of(text@) =~= seq![text@]);
        assert(strings_view(lines@)[0] == lines@[0]@);
    }
}

/// A newline ends the first line, and the rest of the text is split on its own. A carriage return
/// right before the newline is not part of the line; one further ahead is.
pub proof fn law_newline_ends_a_line(
    line: Seq<char>,
    has_cr: bool,
    text: &str,
    rest: &str,
    lines: Vec<String>,
    rest_lines: Vec<String>,
)
    requires
        call_ensures(cache_lines, (text,), lines),
        call_ensures(cache_lines, (rest,), rest_lines),
        !line.contains('\n'),
        has_cr ==> text@ == line + seq!['\r', '\n'] + rest@,
        !has_cr ==> text@ == line + seq!['\n'] + rest@ && (line.len() > 0 ==> line.last() != '\r'),
    ensures
        lines@.len() == 1 + rest_lines@.len(),
        lines@[0]@ == line,
        forall|i: int|
            0 <= i < rest_lines@.len() ==> lines@[i + 1]@ == (#[trigger] rest_lines@[i])@,
{
    let end = if has_cr {
        line.len() as int + 1
    } else {
        line.len() as int
    };
    assert forall|j: int| 0 <= j < end implies text@[j] != '\n' by {
        if j < line.len() {
            assert(line.contains(line[j]));
        }
    }
    lemma_line_end(text@, end);
    if has_cr {
        assert(text@.take(end).drop_last() =~= line);
    } else {
        assert(text@.take(end) =~= line);
    }
    assert(text@.skip(end + 1) =~= rest@);
    assert(lines_of(text@) =~= seq![line] + lines_of(rest@));
    let views = strings_view(lines@);
    let rest_views = strings_view(rest_lines@);
    assert(views.len() == lines@.len() && rest_views.len() == rest_lines@.len());
    assert(views[0] == lines@[0]@);
    assert forall|i: int| 0 <= i < rest_lines@.len() implies lines@[i + 1]@
        == (#[trigger] rest_lines@[i])@ by {
        assert(views[i + 1] == lines@[i + 1]@);
        assert(rest_views[i] == rest_lines@[i]@);
    }
}

/// The text of no line is empty, and each further line is added at the end of the text, followed
/// by a newline.
pub proof fn law_text_grows_by_lines(
    lines: Vec<String>,
    more: Vec<String>,
    line: String,
    text: String,
    longer: String,
)
    requires
        call_ensures(cache_text, (&lines,), text),
        call_ensures(cache_text, (&more,), longer),
        more@ == lines@.push(line),
    ensures
        lines@.len() == 0 ==> text@.len() == 0,
        longer@ == text@ + line@ + seq!['\n'],
{
    assert(strings_view(more@) =~= strings_view(lines@).push(line@));
    lemma_text_of_push(strings_view(lines@), line@);
}

/// What is read of a text is what `parse` answers on each of its lines, in their order. `f` says
/// what `parse` answers.
pub proof fn law_reading_is_line_by_line<F: Fn(&String) -> Option<SocketAddr>>(
    text: &str,
    parse: F,
    f: spec_fn(Seq<char>) -> Option<SocketAddr>,
    lines: Vec<String>,
    read: Vec<Option<SocketAddr>>,
)
    requires
        forall|s: &String, a: Option<SocketAddr>| #[trigger]
            call_ensures(parse, (s,), a) ==> a == f(s@),
        call_ensures(cache_lines, (text,), lines),
        call_ensures(read_cache::<F>, (text, parse), read),
    ensures
        read@.len() == lines@.len(),
        forall|i: int| 0 <= i < read@.len() ==> #[trigger] read@[i] == f(lines@[i]@),
{
    assert(parses_as(parse, f));
    assert(strings_view(lines@).len() == lines@.len());
    assert forall|i: int| 0 <= i < read@.len() implies #[trigger] read@[i] == f(lines@[i]@) by {
        assert(strings_view(lines@)[i] == lines@[i]@);
    }
}

/// What is written of some addresses is what `show` answers on each of them, in their order and
/// each followed by a newline. `f` says what `show` answers.
pub proof fn law_writing_is_line_by_line<F: Fn(&SocketAddr) -> String>(
    addrs: Vec<SocketAddr>,
    more: Vec<SocketAddr>,
    addr: SocketAddr,
    show: F,
    f: spec_fn(SocketAddr) -> Seq<char>,
    text: String,
    longer: String,
)
    requires
        forall|a: &SocketAddr, s: String| #[trigger]
            call_ensures(show, (a,), s) ==> s@ == f(*a),
        call_ensures(write_cache::<F>, (&addrs, show), text),
        call_ensures(write_cache::<F>, (&more, show), longer),
        more@ == addrs@.push(addr),
    ensures
        addrs@.len() == 0 ==> text@.len() == 0,
        longer@ == text@ + f(addr) + seq!['\n'],
{
    assert(shows_as(show, f));
    assert(more@.map_values(f) =~= addrs@.map_values(f).push(f(addr)));
    lemma_text_of_push(addrs@.map_values(f), f(addr));
}

} // verus!
