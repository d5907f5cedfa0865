use voting_node_ips::gossip_spy::{Endpoint, Identity, IpAddress, MissingEndpoint, PeerRecord, Ports};
use voting_node_ips::http_endpoint::{
    allowlist_full, allowlist_short, get_health, stake_threshold, AllowlistEntry, Descriptor,
    Protocol,
};
use voting_node_ips::ranking_table::{GossipData, StakeData};
use voting_node_ips::rpc_request::{apply_stake_fetch, stake_data_from_answer, VoteAccount};
use voting_node_ips::subnet::aggregate_into_24s;

fn v4(a: u8, b: u8, c: u8, d: u8) -> u32 {
    u32::from_be_bytes([a, b, c, d])
}

fn ep4(a: u8, b: u8, c: u8, d: u8, port: u16) -> Endpoint {
    Endpoint { ip: IpAddress::V4(v4(a, b, c, d)), port }
}

fn ep6(port: u16) -> Endpoint {
    Endpoint { ip: IpAddress::V6(0x2001_0db8_0000_0000_0000_0000_0000_0001), port }
}

fn id(n: u8) -> Identity {
    Identity::new([n; 32])
}

fn ports(n: u8, gossip: Endpoint, serve_repair: Endpoint, turbine: Endpoint) -> Ports {
    Ports {
        pubkey: id(n),
        stake: 0,
        gossip,
        serve_repair,
        tpu_forwards_quic: None,
        tpu_quic: None,
        tpu_vote: None,
        tpu_vote_quic: None,
        turbine,
        alpenglow: None,
    }
}

fn peer(n: u8, gossip: Option<Endpoint>, serve_repair: Option<Endpoint>, turbine: Option<Endpoint>) -> PeerRecord {
    PeerRecord {
        pubkey: id(n),
        gossip,
        serve_repair,
        tpu_forwards_quic: None,
        tpu_quic: None,
        tpu_vote: None,
        tpu_vote_quic: None,
        turbine,
        alpenglow: None,
    }
}

fn snapshot(records: Vec<Ports>, last_update: u64) -> GossipData {
    GossipData { gossip_data: records, last_update }
}

fn stakes(amounts: Vec<(Identity, u64)>, last_update: u64) -> StakeData {
    StakeData::from_stakes(&amounts, last_update)
}

#[test]
fn all_ips_leaves_out_ipv6() {
    let mut p = ports(1, ep4(1, 2, 3, 4, 8001), ep6(8002), ep4(1, 2, 3, 6, 8003));
    p.tpu_quic = Some(ep6(9000));
    p.tpu_vote = Some(ep4(9, 9, 9, 9, 9001));
    p.alpenglow = Some(ep6(9002));
    assert_eq!(p.all_ips(), vec![v4(1, 2, 3, 4), v4(1, 2, 3, 6), v4(9, 9, 9, 9)]);
}

#[test]
fn all_ips_lists_required_then_optional_roles() {
    let mut p = ports(1, ep4(10, 0, 0, 1, 1), ep4(10, 0, 0, 2, 2), ep4(10, 0, 0, 3, 3));
    p.alpenglow = Some(ep4(10, 0, 0, 8, 8));
    p.tpu_forwards_quic = Some(ep4(10, 0, 0, 4, 4));
    p.tpu_vote_quic = Some(ep4(10, 0, 0, 7, 7));
    assert_eq!(
        p.all_ips(),
        vec![v4(10, 0, 0, 1), v4(10, 0, 0, 2), v4(10, 0, 0, 3), v4(10, 0, 0, 4), v4(10, 0, 0, 7), v4(10, 0, 0, 8)]
    );
}

#[test]
fn peer_without_required_role_is_refused() {
    let a = Some(ep4(1, 1, 1, 1, 1));
    assert_eq!(Ports::try_from_peer(&peer(1, None, a, a)).unwrap_err(), MissingEndpoint::Gossip);
    assert_eq!(Ports::try_from_peer(&peer(1, a, None, a)).unwrap_err(), MissingEndpoint::ServeRepair);
    assert_eq!(Ports::try_from_peer(&peer(1, a, a, None)).unwrap_err(), MissingEndpoint::Turbine);
    assert_eq!(Ports::try_from_peer(&peer(1, None, None, None)).unwrap_err(), MissingEndpoint::Gossip);
}

#[test]
fn peer_with_required_roles_keeps_optional_ones() {
    let mut rec = peer(3, Some(ep4(1, 1, 1, 1, 1)), Some(ep4(1, 1, 1, 2, 2)), Some(ep4(1, 1, 1, 3, 3)));
    rec.tpu_vote = Some(ep4(1, 1, 1, 4, 4));
    let p = Ports::try_from_peer(&rec).unwrap();
    assert_eq!(p.pubkey, id(3));
    assert_eq!(p.stake, 0);
    assert_eq!(p.gossip, ep4(1, 1, 1, 1, 1));
    assert_eq!(p.serve_repair, ep4(1, 1, 1, 2, 2));
    assert_eq!(p.turbine, ep4(1, 1, 1, 3, 3));
    assert_eq!(p.tpu_vote, Some(ep4(1, 1, 1, 4, 4)));
    assert_eq!(p.tpu_quic, None);
}

#[test]
fn membership_snapshot_drops_invalid_and_keeps_last_of_identity() {
    let a = Some(ep4(1, 1, 1, 1, 1));
    let b = Some(ep4(2, 2, 2, 2, 2));
    let peers = vec![
        peer(1, a, a, a),
        peer(2, None, a, a),
        peer(1, b, b, b),
        peer(3, a, b, a),
        peer(1, None, b, b),
    ];
    let g = GossipData::from_peers(&peers, 77);
    assert_eq!(g.last_update, 77);
    assert_eq!(g.gossip_data.len(), 2);
    let one = g.gossip_data.iter().find(|p| p.pubkey == id(1)).unwrap();
    assert_eq!(one.gossip, ep4(2, 2, 2, 2, 2));
    assert!(g.gossip_data.iter().any(|p| p.pubkey == id(3)));
    assert!(!g.gossip_data.iter().any(|p| p.pubkey == id(2)));
}

#[test]
fn aggregate_collapses_into_sorted_distinct_networks() {
    let mut addrs = vec![v4(10, 0, 1, 7), v4(1, 2, 3, 4), v4(10, 0, 1, 200), v4(1, 2, 3, 4), v4(1, 2, 4, 9)];
    aggregate_into_24s(&mut addrs);
    assert_eq!(addrs, vec![v4(1, 2, 3, 0), v4(1, 2, 4, 0), v4(10, 0, 1, 0)]);
}

#[test]
fn aggregate_is_idempotent() {
    let mut addrs = vec![v4(255, 255, 255, 255), v4(0, 0, 0, 1), v4(192, 168, 0, 1)];
    aggregate_into_24s(&mut addrs);
    let once = addrs.clone();
    aggregate_into_24s(&mut addrs);
    assert_eq!(addrs, once);
    assert_eq!(once, vec![v4(0, 0, 0, 0), v4(192, 168, 0, 0), v4(255, 255, 255, 0)]);
}

#[test]
fn aggregate_of_nothing_is_empty() {
    let mut addrs: Vec<u32> = Vec::new();
    aggregate_into_24s(&mut addrs);
    assert!(addrs.is_empty());
}

#[test]
fn stake_equal_to_threshold_is_unstaked() {
    let g = snapshot(
        vec![
            ports(1, ep4(1, 1, 1, 1, 1), ep4(1, 1, 1, 2, 2), ep4(1, 1, 1, 3, 3)),
            ports(2, ep4(2, 2, 2, 1, 1), ep4(2, 2, 2, 2, 2), ep4(2, 2, 2, 3, 3)),
        ],
        0,
    );
    let s = stakes(vec![(id(1), 1_000), (id(2), 1_001)], 0);
    let r = allowlist_short(&g, &s, 1_000);
    assert_eq!(r.unstaked, vec![v4(1, 1, 1, 0)]);
    assert_eq!(r.staked, vec![v4(2, 2, 2, 0)]);
}

#[test]
fn short_listing_of_example_snapshot() {
    let g = snapshot(vec![ports(1, ep4(1, 2, 3, 4, 8001), ep4(1, 2, 3, 5, 8002), ep4(1, 2, 3, 6, 8003))], 0);
    let s = stakes(vec![(id(1), 5_000_000_000)], 0);
    let threshold = stake_threshold(None);
    assert_eq!(threshold, 1_000_000_000);
    let r = allowlist_short(&g, &s, threshold);
    assert_eq!(r.staked, vec![v4(1, 2, 3, 0)]);
    assert!(r.unstaked.is_empty());
}

#[test]
fn short_listing_treats_missing_stake_as_zero() {
    let g = snapshot(vec![ports(4, ep4(8, 8, 8, 8, 1), ep6(2), ep4(8, 8, 9, 9, 3))], 0);
    let s = StakeData::default();
    let r = allowlist_short(&g, &s, 0);
    assert!(r.staked.is_empty());
    assert_eq!(r.unstaked, vec![v4(8, 8, 8, 0), v4(8, 8, 9, 0)]);
}

#[test]
fn stake_threshold_takes_the_asked_value() {
    assert_eq!(stake_threshold(Some(42)), 42_000_000_000);
    assert_eq!(stake_threshold(Some(0)), 0);
    assert_eq!(stake_threshold(Some(u64::MAX)), u64::MAX);
    assert_eq!(stake_threshold(Some(18_446_744_073)), 18_446_744_073_000_000_000);
    assert_eq!(stake_threshold(Some(18_446_744_074)), u64::MAX);
}

#[test]
fn stake_threshold_is_asked_in_whole_sol() {
    let g = snapshot(vec![ports(1, ep4(1, 2, 3, 4, 8001), ep4(1, 2, 3, 5, 8002), ep4(1, 2, 3, 6, 8003))], 0);
    let s = stakes(vec![(id(1), 5)], 0);
    let r = allowlist_short(&g, &s, stake_threshold(Some(1)));
    assert!(r.staked.is_empty());
    assert_eq!(r.unstaked, vec![v4(1, 2, 3, 0)]);
    let s = stakes(vec![(id(1), 1_000_000_001)], 0);
    let r = allowlist_short(&g, &s, stake_threshold(Some(1)));
    assert_eq!(r.staked, vec![v4(1, 2, 3, 0)]);
    assert!(r.unstaked.is_empty());
}

#[test]
fn full_listing_joins_every_identity_once() {
    let mut p1 = ports(1, ep4(1, 1, 1, 1, 1), ep4(1, 1, 1, 2, 2), ep4(1, 1, 1, 3, 3));
    p1.tpu_quic = Some(ep4(1, 1, 1, 4, 4));
    p1.tpu_vote = Some(ep4(1, 1, 1, 5, 5));
    let p2 = ports(2, ep4(2, 2, 2, 1, 1), ep4(2, 2, 2, 2, 2), ep4(2, 2, 2, 3, 3));
    let g = snapshot(vec![p1, p2], 0);
    let s = stakes(vec![(id(1), 500), (id(9), 7)], 0);
    let full = allowlist_full(&g, &s);
    assert_eq!(full.len(), 2);
    let e1 = full.iter().find(|e| e.pubkey == id(1)).unwrap();
    let e2 = full.iter().find(|e| e.pubkey == id(2)).unwrap();
    assert_eq!(full.iter().filter(|e| e.pubkey == id(1)).count(), 1);
    assert_eq!(e1.stake, 500);
    assert_eq!(e2.stake, 0);
    assert!(!full.iter().any(|e| e.pubkey == id(9)));
    assert_eq!(e1.tpu_quic.unwrap().protocol, Protocol::Quic);
    assert_eq!(e1.tpu_vote.unwrap().max_mbps, 10);
    assert!(e1.tpu_forwards_quic.is_none());
}

#[test]
fn descriptors_follow_the_role_table() {
    let mut p = ports(1, ep4(1, 1, 1, 1, 1), ep4(1, 1, 1, 2, 2), ep4(1, 1, 1, 3, 3));
    p.tpu_forwards_quic = Some(ep4(1, 1, 1, 4, 4));
    p.tpu_vote_quic = Some(ep4(1, 1, 1, 5, 5));
    p.alpenglow = Some(ep4(1, 1, 1, 6, 6));
    let e: AllowlistEntry = AllowlistEntry::new(&p, 9);
    let check = |d: Descriptor, proto: Protocol, mbps: u64, staked_only: bool, addr: Endpoint| {
        assert_eq!(d.protocol, proto);
        assert_eq!(d.max_mbps, mbps);
        assert_eq!(d.staked_only, staked_only);
        assert_eq!(d.address, addr);
    };
    check(e.gossip, Protocol::Udp, 50, false, p.gossip);
    check(e.serve_repair, Protocol::Udp, 200, true, p.serve_repair);
    check(e.turbine, Protocol::Udp, 200, true, p.turbine);
    check(e.tpu_forwards_quic.unwrap(), Protocol::Quic, 100, false, ep4(1, 1, 1, 4, 4));
    check(e.tpu_vote_quic.unwrap(), Protocol::Quic, 100, false, ep4(1, 1, 1, 5, 5));
    check(e.alpenglow.unwrap(), Protocol::Udp, 10, true, ep4(1, 1, 1, 6, 6));
    assert_eq!(e.stake, 9);
    assert!(e.tpu_quic.is_none() && e.tpu_vote.is_none());
}

#[test]
fn stakes_of_one_identity_add_up() {
    let s = stakes(vec![(id(1), 5), (id(2), 7), (id(1), 10), (id(1), u64::MAX)], 3);
    assert_eq!(s.last_update, 3);
    assert_eq!(s.stake_amounts.len(), 2);
    assert_eq!(s.stake_of(&id(1)), u64::MAX);
    assert_eq!(s.stake_of(&id(2)), 7);
    assert_eq!(s.stake_of(&id(3)), 0);
    let t = stakes(vec![(id(1), 5), (id(1), 10)], 0);
    assert_eq!(t.stake_of(&id(1)), 15);
}

fn account(node: &str, stake: u64) -> VoteAccount {
    VoteAccount { vote_pubkey: String::from("vote"), node_pubkey: String::from(node), activated_stake: stake }
}

const NODE_A: &str = "Vote111111111111111111111111111111111111111";
const NODE_B: &str = "11111111111111111111111111111111";

#[test]
fn ledger_answer_is_decoded_and_summed() {
    let a_bytes = NODE_A.parse::<solana_pubkey::Pubkey>().unwrap().to_bytes();
    let current = vec![account(NODE_A, 100), account(NODE_B, 1), account(NODE_A, 20)];
    let delinquent = vec![account(NODE_A, 3)];
    let s = stake_data_from_answer(&current, &delinquent, 5).unwrap();
    assert_eq!(s.stake_of(&Identity::new(a_bytes)), 123);
    assert_eq!(s.stake_of(&Identity::new([0u8; 32])), 1);
    assert_ne!(a_bytes, [0u8; 32]);
    assert_eq!(s.last_update, 5);
}

#[test]
fn ledger_answer_with_bad_identity_is_refused() {
    let accounts = vec![account(NODE_A, 100), account("not-base58-0OIl", 1)];
    assert!(stake_data_from_answer(&accounts, &Vec::new(), 5).is_none());
    assert!(stake_data_from_answer(&Vec::new(), &accounts, 5).is_none());
    let only_delinquent = stake_data_from_answer(&Vec::new(), &vec![account(NODE_B, 8)], 6).unwrap();
    assert_eq!(only_delinquent.stake_of(&Identity::new([0u8; 32])), 8);
}

#[test]
fn failed_stake_query_keeps_previous_snapshot() {
    let mut current = stakes(vec![(id(1), 40)], 11);
    assert!(!apply_stake_fetch(&mut current, None, 99));
    assert_eq!(current.last_update, 11);
    assert_eq!(current.stake_of(&id(1)), 40);
    assert!(!apply_stake_fetch(&mut current, Some((vec![account("0", 5)], Vec::new())), 100));
    assert_eq!(current.last_update, 11);
    assert_eq!(current.stake_amounts.len(), 1);
}

#[test]
fn successful_stake_query_replaces_snapshot() {
    let mut current = stakes(vec![(id(1), 40)], 11);
    assert!(apply_stake_fetch(&mut current, Some((vec![account(NODE_B, 5)], vec![account(NODE_B, 2)])), 99));
    assert_eq!(current.last_update, 99);
    assert_eq!(current.stake_of(&id(1)), 0);
    assert_eq!(current.stake_of(&Identity::new([0u8; 32])), 7);
}

#[test]
fn health_depends_on_membership_age_only() {
    let g = snapshot(Vec::new(), 1_000);
    let fresh_stakes = StakeData::default();
    let r = get_health(10_999, &g, &fresh_stakes);
    assert!(r.healthy);
    assert_eq!(r.gossip_age_ms, 9_999);
    assert_eq!(r.stake_age_ms, 10_999);
    let r = get_health(11_000, &g, &fresh_stakes);
    assert!(!r.healthy);
    assert_eq!(r.gossip_age_ms, 10_000);
    let old_stakes = stakes(Vec::new(), 0);
    let new_stakes = stakes(Vec::new(), 5_000);
    assert_eq!(get_health(5_000, &g, &old_stakes).healthy, get_health(5_000, &g, &new_stakes).healthy);
    assert!(get_health(500, &g, &old_stakes).healthy);
}

#[test]
fn identities_compare_by_bytes() {
    assert!(id(4).same_as(&id(4)));
    let mut b = [4u8; 32];
    b[31] = 5;
    assert!(!id(4).same_as(&Identity::new(b)));
}

#[test]
fn default_snapshots_are_empty() {
    let g = GossipData::default();
    assert!(g.gossip_data.is_empty());
    assert_eq!(g.last_update, 0);
    let s = StakeData::default();
    assert!(s.stake_amounts.is_empty());
}

#[test]
fn empty_snapshots_carry_their_time() {
    let g = GossipData::empty(1_234);
    assert!(g.gossip_data.is_empty());
    assert_eq!(g.last_update, 1_234);
    let s = StakeData::empty(4_321);
    assert!(s.stake_amounts.is_empty());
    assert_eq!(s.last_update, 4_321);
    assert_eq!(s.stake_of(&id(1)), 0);
    assert!(get_health(1_234 + 9_999, &g, &s).healthy);
}
