use snarkos_router::address::{IpAddr, SocketAddr};
use snarkos_router::cache_file::{
    cache_lines, cache_text, read_cache, write_cache, PEER_CACHE_FILENAME,
};
use snarkos_router::network::{bootstrap_peers, Network, DEFAULT_NODE_PORT};
use snarkos_router::peer::{ConnectedPeer, NodeType, Peer};
use snarkos_router::pool::{BanPlan, ConnectionError, ConnectionPlan, PeerPoolHandling};
use snarkos_router::ranking::KnownPeers;
use snarkos_router::router::{
    Account, BlockRequest, Router, CONNECTION_ATTEMPTS_SINCE_SECS, MAXIMUM_CANDIDATE_PEERS,
    MAX_CONNECTION_ATTEMPTS, MAX_RADIO_SILENCE_SECS,
};
use snarkos_router::table::Table;

use snarkvm::console::network::{CanaryV0, MainnetV0, Network as _, TestnetV0};

type TestRouter = Router<&'static str, u64, u8>;

const MAX_PEERS: u16 = 2;

fn local() -> SocketAddr {
    SocketAddr::v4(1, 2, 3, 4, 4130)
}

fn addr(n: u32) -> SocketAddr {
    SocketAddr::V4 { ip: 0x0a00_0000 + n, port: 4130 }
}

fn network(id: u16) -> Network {
    Network { id, is_test: false }
}

fn router_of(node_type: NodeType, cached: &[SocketAddr], trusted: &[SocketAddr]) -> TestRouter {
    let account = Account { private_key: "secret", view_key: 7, address: 9 };
    let network = network(MainnetV0::ID);
    let mut router: TestRouter =
        Router::new(local(), node_type, account, network, cached, trusted, MAX_PEERS, true, false, true);
    router.set_listening_addr(Some(local()));
    router
}

fn router(cached: &[SocketAddr], trusted: &[SocketAddr]) -> TestRouter {
    router_of(NodeType::Client, cached, trusted)
}

/// The address of the connection to the peer that listens on `addr(n)`.
fn connection(n: u32) -> SocketAddr {
    SocketAddr::V4 { ip: 0x0a00_0000 + n, port: 50_000 }
}

fn connected(n: u32, height: Option<u32>) -> ConnectedPeer<u8> {
    ConnectedPeer {
        listener_addr: addr(n),
        connected_addr: connection(n),
        trusted: false,
        aleo_addr: n as u8,
        node_type: NodeType::Validator,
        last_height_seen: height,
        last_seen: 0,
    }
}

fn connect(router: &mut TestRouter, n: u32, height: Option<u32>) {
    router.peer_pool_mut().insert(addr(n), Peer::Connected(connected(n, height)));
    router.resolver_mut().insert_peer(addr(n), connection(n));
}

fn sorted(mut addrs: Vec<SocketAddr>) -> Vec<SocketAddr> {
    addrs.sort_by_key(|a| match a {
        SocketAddr::V4 { ip, port } => (*ip as u128, *port),
        SocketAddr::V6 { ip, port, .. } => (*ip, *port),
    });
    addrs
}

#[test]
fn table_keeps_one_value_per_key() {
    let mut table: Table<SocketAddr, u8> = Table::new();
    assert_eq!(table.len(), 0);
    table.insert(addr(1), 10);
    table.insert(addr(2), 20);
    table.insert(addr(1), 11);
    assert_eq!(table.len(), 2);
    assert_eq!(table.get(&addr(1)), Some(&11));
    assert!(table.contains_key(&addr(2)));
    assert_eq!(table.remove(&addr(1)), Some(11));
    assert_eq!(table.remove(&addr(1)), None);
    assert_eq!(table.get(&addr(1)), None);
    assert_eq!(table.key_at(0), addr(2));
    assert_eq!(table.value_at(0), &20);
}

#[test]
fn addresses_tell_their_parts() {
    let v4 = SocketAddr::v4(127, 0, 0, 1, 80);
    assert_eq!(v4, SocketAddr::V4 { ip: 0x7f00_0001, port: 80 });
    assert_eq!(v4.ip(), IpAddr::V4(0x7f00_0001));
    assert_eq!(v4.port(), 80);
    let v6 = SocketAddr::V6 { ip: 1, port: 81, flowinfo: 2, scope_id: 3 };
    assert_eq!(v6.ip(), IpAddr::V6(1));
    assert_eq!(v6.port(), 81);
    assert!(IpAddr::V4(0x7f00_0000).is_loopback());
    assert!(IpAddr::V4(0x7fff_ffff).is_loopback());
    assert!(!IpAddr::V4(0x8000_0000).is_loopback());
    assert!(!IpAddr::V4(0x7eff_ffff).is_loopback());
    assert!(IpAddr::V6(1).is_loopback());
    assert!(!IpAddr::V6(0).is_loopback());
    assert!(IpAddr::V4(0).is_unspecified());
    assert!(IpAddr::V6(0).is_unspecified());
    assert!(!IpAddr::V4(1).is_unspecified());
}

#[test]
fn own_addresses_are_local() {
    let router = router(&[], &[]);
    assert_eq!(router.local_ip(), local());
    assert!(router.is_local_ip(local()));
    assert!(router.is_local_ip(SocketAddr::v4(0, 0, 0, 0, 4130)));
    assert!(router.is_local_ip(SocketAddr::v4(127, 0, 0, 1, 4130)));
    assert!(router.is_local_ip(SocketAddr::V6 { ip: 1, port: 4130, flowinfo: 0, scope_id: 0 }));
    assert!(!router.is_local_ip(SocketAddr::v4(127, 0, 0, 1, 4131)));
    assert!(!router.is_local_ip(SocketAddr::v4(1, 2, 3, 4, 4131)));
    assert!(!router.is_local_ip(addr(1)));
}

#[test]
fn peer_ip_is_valid_unless_local_bogon_or_unspecified() {
    let router = router(&[], &[]);
    assert!(router.is_valid_peer_ip(addr(1), false, false));
    assert!(!router.is_valid_peer_ip(addr(1), true, false));
    assert!(!router.is_valid_peer_ip(addr(1), false, true));
    assert!(!router.is_valid_peer_ip(local(), false, false));
}

#[test]
fn initial_peers_are_candidates() {
    let router = router(&[addr(1), addr(2)], &[addr(2), addr(3)]);
    assert_eq!(router.peer_pool().len(), 3);
    assert_eq!(router.number_of_candidate_peers(), 3);
    assert!(!router.is_trusted(addr(1)));
    // A cached peer is promoted to a trusted one.
    assert!(router.is_trusted(addr(2)));
    assert!(router.is_trusted(addr(3)));
    assert!(!router.is_trusted(addr(4)));
    assert_eq!(sorted(router.trusted_peers()), vec![addr(2), addr(3)]);
    assert_eq!(sorted(router.unconnected_trusted_peers()), vec![addr(2), addr(3)]);
}

#[test]
fn configuration_is_returned() {
    let router = router(&[], &[]);
    assert_eq!(router.node_type(), NodeType::Client);
    assert_eq!(*router.private_key(), "secret");
    assert_eq!(*router.view_key(), 7);
    assert_eq!(router.address(), 9);
    assert!(router.is_dev());
    assert!(router.rotate_external_peers());
    assert!(!router.allow_external_peers());
    assert_eq!(router.max_connected_peers(), 2);
    assert_eq!(router.tcp().node_ip, local());
    assert_eq!(router.network(), network(0));
    assert_eq!(DEFAULT_NODE_PORT, 4130);
    assert_eq!(PEER_CACHE_FILENAME, "cached_router_peers");
    assert_eq!(CONNECTION_ATTEMPTS_SINCE_SECS, 10);
    assert_eq!(MAX_CONNECTION_ATTEMPTS, 10);
    assert_eq!(MAX_RADIO_SILENCE_SECS, 150);
    assert_eq!(MAXIMUM_CANDIDATE_PEERS, 10_000);
}

#[test]
fn connection_attempts_are_checked() {
    let mut router = router(&[addr(1)], &[]);
    assert_eq!(router.check_connection_attempt(local()), Err(ConnectionError::SelfConnect));
    assert_eq!(router.check_connection_attempt(addr(1)), Ok(false));
    assert_eq!(router.check_connection_attempt(addr(9)), Ok(false));
    assert!(router.add_connecting_peer(addr(1)));
    assert_eq!(router.check_connection_attempt(addr(1)), Ok(true));
    connect(&mut router, 1, None);
    assert_eq!(router.check_connection_attempt(addr(1)), Ok(true));
    connect(&mut router, 2, None);
    assert_eq!(router.check_connection_attempt(addr(3)), Err(ConnectionError::MaximumPeersReached));
    // A peer that is connected or connecting is answered for though the limit is reached.
    assert_eq!(router.check_connection_attempt(addr(1)), Ok(true));
    assert!(router.add_connecting_peer(addr(4)));
    assert_eq!(router.check_connection_attempt(addr(4)), Ok(true));
    assert_eq!(router.connect(addr(1)), None);
    assert_eq!(router.connect(addr(4)), None);
    assert_eq!(router.check_connection_attempt(local()), Err(ConnectionError::SelfConnect));
    assert_eq!(ConnectionError::SelfConnect.reason(), "attempted to self-connect");
    assert_eq!(ConnectionError::MaximumPeersReached.reason(), "maximum peers reached");
}

#[test]
fn connections_are_planned() {
    let mut router = router(&[addr(1)], &[addr(2)]);
    let bootstrap = SocketAddr::v4(35, 231, 67, 219, 4130);
    let plan = |listener_addr, is_trusted_or_bootstrap| {
        Some(ConnectionPlan { listener_addr, is_trusted_or_bootstrap })
    };
    assert_eq!(router.connect(addr(1)), plan(addr(1), false));
    assert_eq!(router.connect(addr(2)), plan(addr(2), true));
    assert_eq!(router.connect(bootstrap), plan(bootstrap, true));
    assert_eq!(router.connect(local()), None);
    assert!(router.add_connecting_peer(addr(1)));
    assert_eq!(router.connect(addr(1)), None);
    connect(&mut router, 1, None);
    connect(&mut router, 3, None);
    assert_eq!(router.connect(addr(2)), None);
}

#[test]
fn connecting_peers_are_added_once() {
    let mut router = router(&[addr(1)], &[addr(2)]);
    assert!(router.add_connecting_peer(addr(1)));
    assert!(!router.add_connecting_peer(addr(1)));
    assert!(router.is_connecting(addr(1)));
    assert!(!router.is_trusted(addr(1)));
    assert!(router.add_connecting_peer(addr(2)));
    assert!(router.is_trusted(addr(2)));
    // An unknown peer is introduced, untrusted.
    assert!(router.add_connecting_peer(addr(3)));
    assert!(router.is_connecting(addr(3)));
    assert!(!router.is_trusted(addr(3)));
    connect(&mut router, 4, None);
    assert!(!router.add_connecting_peer(addr(4)));
    assert!(router.is_connected(addr(4)));
    assert_eq!(router.number_of_connecting_peers(), 3);
    assert_eq!(router.number_of_candidate_peers(), 0);
    assert_eq!(router.number_of_connected_peers(), 1);
}

#[test]
fn connected_peers_are_resolved() {
    let mut router = router(&[addr(2)], &[]);
    connect(&mut router, 1, Some(5));
    assert!(router.is_connected(addr(1)));
    assert!(!router.is_connecting(addr(1)));
    assert_eq!(router.resolve_to_ambiguous(addr(1)), Some(connection(1)));
    assert_eq!(router.resolve_to_ambiguous(addr(2)), None);
    assert_eq!(router.resolve_to_aleo_addr(addr(1)), Some(1));
    assert_eq!(router.resolve_to_aleo_addr(addr(2)), None);
    assert_eq!(router.resolve_to_listener(&connection(1)), Some(addr(1)));
    assert_eq!(router.resolve_to_listener(&connection(2)), None);
    assert_eq!(router.disconnect(addr(1)), Some(connection(1)));
    assert_eq!(router.disconnect(addr(2)), None);
    let peer = router.get_connected_peer(addr(1)).unwrap();
    assert_eq!((peer.listener_addr, peer.last_height_seen), (addr(1), Some(5)));
    assert!(router.get_connected_peer(addr(2)).is_none());
    assert_eq!(router.connected_peers(), vec![addr(1)]);
    assert_eq!(router.connected_metrics(), vec![(addr(1), NodeType::Validator)]);
    assert_eq!(router.get_peers().len(), 2);
    assert_eq!(router.get_connected_peers().len(), 1);
}

#[test]
fn connected_peers_are_filtered() {
    let mut router = router(&[addr(9)], &[]);
    connect(&mut router, 1, Some(5));
    connect(&mut router, 2, None);
    connect(&mut router, 3, Some(8));
    let tall = router.filter_connected_peers(|peer| peer.last_height_seen.is_some());
    assert_eq!(sorted(tall.iter().map(|peer| peer.listener_addr).collect()), vec![addr(1), addr(3)]);
    assert!(router.filter_connected_peers(|_| false).is_empty());
}

#[test]
fn connected_peers_are_updated() {
    let mut router = router(&[addr(2)], &[]);
    connect(&mut router, 1, None);
    assert!(router.update_connected_peer(&addr(1), |peer| peer.last_height_seen = Some(77)));
    assert_eq!(router.get_connected_peer(addr(1)).unwrap().last_height_seen, Some(77));
    assert!(!router.update_connected_peer(&addr(2), |peer| peer.trusted = true));
    assert!(!router.update_connected_peer(&addr(3), |peer| peer.trusted = true));
    assert!(!router.is_trusted(addr(2)));
}

#[test]
fn messages_update_last_seen_of_connected_peers() {
    let mut router = router(&[addr(2)], &[]);
    connect(&mut router, 1, None);
    router.update_last_seen_for_connected_peer(addr(1), 1234);
    assert_eq!(router.get_connected_peer(addr(1)).unwrap().last_seen, 1234);
    router.update_last_seen_for_connected_peer(addr(2), 1234);
    assert!(matches!(router.peer_pool().get(&addr(2)), Some(Peer::Candidate(_))));
    router.update_last_seen_for_connected_peer(addr(3), 1234);
    assert!(!router.peer_pool().contains_key(&addr(3)));
}

#[test]
fn removed_peers_become_candidates() {
    let mut router = router(&[], &[addr(2)]);
    connect(&mut router, 1, Some(42));
    connect(&mut router, 3, None);
    assert_eq!(router.remove_connected_peer(addr(1)), addr(1));
    assert!(!router.is_connected(addr(1)));
    assert!(router.is_connected(addr(3)));
    assert_eq!(router.resolve_to_listener(&connection(1)), None);
    assert_eq!(router.resolve_to_listener(&connection(3)), Some(addr(3)));
    assert_eq!(router.disconnect(addr(1)), None);
    match router.peer_pool().get(&addr(1)) {
        Some(Peer::Candidate(peer)) => {
            assert_eq!(peer.listener_addr, addr(1));
            assert_eq!(peer.last_height_seen, Some(42));
            assert!(!peer.trusted);
        }
        _ => panic!("the peer is no candidate"),
    }
    // A peer with which the handshake fails is a candidate again, as trusted as before.
    assert!(router.add_connecting_peer(addr(2)));
    assert_eq!(router.remove_connected_peer(addr(2)), addr(2));
    assert_eq!(router.unconnected_trusted_peers(), vec![addr(2)]);
    // Of an unknown peer nothing is noted.
    assert_eq!(router.remove_connected_peer(addr(7)), addr(7));
    assert!(!router.peer_pool().contains_key(&addr(7)));
}

#[test]
fn candidates_are_inserted_unless_local_or_known() {
    let mut router = router(&[], &[addr(2)]);
    connect(&mut router, 1, None);
    router.insert_candidate_peers(&[addr(1), addr(2), local(), addr(3), addr(3), addr(4)]);
    assert!(router.is_connected(addr(1)));
    assert!(router.is_trusted(addr(2)));
    assert!(!router.peer_pool().contains_key(&local()));
    assert!(!router.is_trusted(addr(3)));
    assert_eq!(sorted(router.candidate_peers(&vec![])), vec![addr(2), addr(3), addr(4)]);
    let before = router.peer_pool().len();
    router.insert_candidate_peers(&[addr(3), addr(4)]);
    assert_eq!(router.peer_pool().len(), before);
}

#[test]
fn candidates_are_limited() {
    let mut router = router(&[], &[]);
    let some: Vec<SocketAddr> = (0..MAXIMUM_CANDIDATE_PEERS as u32 - 3).map(addr).collect();
    router.insert_candidate_peers(&some);
    assert_eq!(router.number_of_candidate_peers(), MAXIMUM_CANDIDATE_PEERS - 3);
    // An address that occurs twice takes up the room of two.
    let more = [addr(20_000), addr(20_000), addr(20_001), addr(20_002), addr(20_003)];
    router.insert_candidate_peers(&more);
    assert_eq!(router.number_of_candidate_peers(), MAXIMUM_CANDIDATE_PEERS - 1);
    assert!(router.peer_pool().contains_key(&addr(20_001)));
    assert!(!router.peer_pool().contains_key(&addr(20_002)));
    router.insert_candidate_peers(&more);
    assert_eq!(router.number_of_candidate_peers(), MAXIMUM_CANDIDATE_PEERS);
    router.insert_candidate_peers(&[addr(30_000)]);
    assert_eq!(router.number_of_candidate_peers(), MAXIMUM_CANDIDATE_PEERS);
    assert!(!router.peer_pool().contains_key(&addr(30_000)));
    // With no room left, and with no peers given, the listener is not asked for its address.
    router.set_listening_addr(None);
    router.insert_candidate_peers(&[addr(30_000)]);
    router.insert_candidate_peers(&[]);
    assert_eq!(router.number_of_candidate_peers(), MAXIMUM_CANDIDATE_PEERS);
}

#[test]
fn banned_candidates_are_hidden() {
    let router = router(&[addr(1), addr(2)], &[]);
    let banned = vec![addr(1).ip(), IpAddr::V6(5)];
    assert_eq!(router.candidate_peers(&banned), vec![addr(2)]);
    assert_eq!(router.number_of_candidate_peers(), 2);
}

#[test]
fn bans_close_the_connection() {
    let mut router = router(&[addr(2)], &[]);
    connect(&mut router, 1, None);
    let plan = BanPlan { ip: addr(1).ip(), disconnect_from: Some(connection(1)) };
    assert_eq!(router.ip_ban_peer(addr(1)), plan);
    assert_eq!(router.ip_ban_peer(addr(2)), BanPlan { ip: addr(2).ip(), disconnect_from: None });
}

#[test]
fn best_peers_are_saved() {
    let mut router = router(&[addr(5)], &[]);
    connect(&mut router, 1, Some(10));
    connect(&mut router, 2, Some(30));
    connect(&mut router, 3, Some(10));
    connect(&mut router, 4, Some(0));
    let mut known_peers: KnownPeers = Table::new();
    known_peers.insert(addr(1).ip(), 2);
    known_peers.insert(addr(2).ip(), 9);
    known_peers.insert(addr(3).ip(), 1);
    let best = vec![addr(2), addr(3), addr(1), addr(4), addr(5)];
    assert_eq!(router.save_best_peers(&known_peers, None), best);
    assert_eq!(router.save_best_peers(&known_peers, Some(9)), best);
    assert_eq!(router.save_best_peers(&known_peers, Some(2)), vec![addr(2), addr(3)]);
    assert!(router.save_best_peers(&known_peers, Some(0)).is_empty());
}

#[test]
fn many_best_peers_are_saved_in_order() {
    let mut router = router(&[], &[]);
    for n in 0..300u32 {
        connect(&mut router, n, Some((n * 37) % 101));
    }
    let saved = router.save_best_peers(&Table::new(), None);
    assert_eq!(saved.len(), 300);
    let heights: Vec<u32> = saved
        .iter()
        .map(|a| router.get_connected_peer(*a).unwrap().last_height_seen.unwrap())
        .collect();
    assert!(heights.windows(2).all(|pair| pair[0] >= pair[1]));
    let mut distinct = sorted(saved);
    distinct.dedup();
    assert_eq!(distinct.len(), 300);
}

#[test]
fn saved_peers_are_loaded() {
    let saved = [addr(1), addr(2)];
    let lines = Some(saved.iter().map(|a| Some(*a)).collect());
    assert_eq!(TestRouter::load_cached_peers(lines), saved.to_vec());
    let lines = Some(vec![Some(addr(1)), None, Some(addr(2)), None]);
    assert_eq!(TestRouter::load_cached_peers(lines), saved.to_vec());
    assert!(TestRouter::load_cached_peers(None).is_empty());
    assert!(TestRouter::load_cached_peers(Some(vec![])).is_empty());
}

#[test]
fn cache_text_is_split_into_lines() {
    for text in ["", "a", "a\n", "\n", "a\nb", "a\r\nb\r\n", "a\r", "\r\n\n", "1.2.3.4:5\n\u{e9}\r\r\nx"] {
        let expected: Vec<String> = text.lines().map(|line| line.to_string()).collect();
        assert_eq!(cache_lines(text), expected);
    }
    let lines = vec!["10.0.0.1:4130".to_string(), "[::1]:4130".to_string()];
    assert_eq!(cache_text(&lines), "10.0.0.1:4130\n[::1]:4130\n");
    assert_eq!(cache_lines(&cache_text(&lines)), lines);
    assert_eq!(cache_text(&vec![]), "");
}

/// Writes an address of the test as its number; `read` is its converse.
fn show(a: &SocketAddr) -> String {
    match a {
        SocketAddr::V4 { ip, .. } => format!("{}", ip - 0x0a00_0000),
        SocketAddr::V6 { .. } => String::new(),
    }
}

fn read(line: &String) -> Option<SocketAddr> {
    line.parse::<u32>().ok().map(addr)
}

#[test]
fn cache_is_read_line_by_line() {
    assert_eq!(read_cache("1\nx\r\n\n3", read), vec![Some(addr(1)), None, None, Some(addr(3))]);
    let loaded = |text: &str| TestRouter::load_cached_text(Some(text), read);
    assert_eq!(loaded("1\nx\r\n\n3"), vec![addr(1), addr(3)]);
    assert!(loaded("").is_empty());
    assert!(TestRouter::load_cached_text(None, read).is_empty());
    for a in ["", "1", "1\n", "x\r\n2", "\n\n"] {
        for b in ["", "5", "y\n6\r\n", "\r\n"] {
            let mut expected = loaded(a);
            expected.extend(loaded(b));
            assert_eq!(loaded(&format!("{a}\n{b}")), expected);
        }
    }
    // A carriage return at the end of the first text becomes part of the line ending.
    assert!(loaded("1\r").is_empty());
    assert_eq!(loaded("1\r\n2"), vec![addr(1), addr(2)]);
}

#[test]
fn written_cache_is_read_back() {
    let mut router = router(&[addr(5)], &[]);
    connect(&mut router, 1, Some(10));
    connect(&mut router, 2, Some(30));
    let saved = router.save_best_peers(&Table::new(), None);
    let text = write_cache(&saved, show);
    assert_eq!(text, "2\n1\n5\n");
    assert_eq!(TestRouter::load_cached_text(Some(&text), read), saved);
    assert_eq!(write_cache(&vec![], show), "");
}

#[test]
fn message_versions_are_checked() {
    let versions = |node_type: NodeType| {
        let router = router_of(node_type, &[], &[]);
        [3, 4, 5, 6].map(|version| router.is_valid_message_version(version, 5, 4))
    };
    assert_eq!(versions(NodeType::Prover), [false, false, true, true]);
    assert_eq!(versions(NodeType::Validator), [false, true, true, true]);
    assert_eq!(versions(NodeType::Client), [false, true, true, true]);
}

#[test]
fn block_requests_are_prepared() {
    let request = TestRouter::prepare_block_request(3, 8);
    assert_eq!(request, BlockRequest { start_height: 3, end_height: 8 });
}

#[test]
fn networks_have_bootstrap_peers() {
    let mainnet = vec![
        SocketAddr::v4(35, 231, 67, 219, 4130),
        SocketAddr::v4(34, 73, 195, 196, 4130),
        SocketAddr::v4(34, 23, 225, 202, 4130),
        SocketAddr::v4(34, 148, 16, 111, 4130),
    ];
    let testnet = vec![
        SocketAddr::v4(34, 138, 104, 159, 4130),
        SocketAddr::v4(35, 231, 46, 237, 4130),
        SocketAddr::v4(34, 148, 251, 155, 4130),
        SocketAddr::v4(35, 190, 141, 234, 4130),
    ];
    let canary = vec![
        SocketAddr::v4(34, 139, 88, 58, 4130),
        SocketAddr::v4(34, 139, 252, 207, 4130),
        SocketAddr::v4(35, 185, 98, 12, 4130),
        SocketAddr::v4(35, 231, 106, 26, 4130),
    ];
    assert_eq!(bootstrap_peers(network(MainnetV0::ID), false), mainnet);
    assert_eq!(bootstrap_peers(network(TestnetV0::ID), false), testnet);
    assert_eq!(bootstrap_peers(network(CanaryV0::ID), false), canary);
    assert!(bootstrap_peers(network(3), false).is_empty());
    assert!(bootstrap_peers(network(MainnetV0::ID), true).is_empty());
    assert!(bootstrap_peers(Network { id: MainnetV0::ID, is_test: true }, false).is_empty());
}

#[test]
fn peers_have_one_status() {
    let mut router = router(&[addr(1), addr(2)], &[addr(3)]);
    connect(&mut router, 4, None);
    assert!(router.add_connecting_peer(addr(2)));
    let counts = (
        router.number_of_connected_peers(),
        router.number_of_connecting_peers(),
        router.number_of_candidate_peers(),
    );
    assert_eq!(counts, (1, 1, 2));
    assert_eq!(counts.0 + counts.1 + counts.2, router.get_peers().len());
}
