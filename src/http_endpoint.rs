use crate::gossip_spy::{ipv4_of, Endpoint, Identity, Ports};
use crate::ranking_table::{capped, GossipData, StakeData, lemma_stake_in_unique};
use crate::subnet::{aggregate_into_24s, is_aggregate_of, network_of};
use vstd::prelude::*;

verus! {

/// How long (in milliseconds) a membership snapshot counts as fresh.
pub const GOSSIP_FRESHNESS_MS: u64 = 10_000;

/// The transport of an endpoint.
#[derive(Clone, Copy, Debug, PartialEq, Eq)]
pub enum Protocol {
    Quic,
    Udp,
}

/// The classification of one endpoint: its protocol, a nominal maximum rate
/// in Mbps, and whether only staked identities may use it.
#[derive(Clone, Copy, Debug)]
pub struct Descriptor {
    pub protocol: Protocol,
    pub address: Endpoint,
    pub max_mbps: u64,
    pub staked_only: bool,
}

pub open spec fn quic_spec(address: Endpoint) -> Descriptor {
    Descriptor { protocol: Protocol::Quic, address, max_mbps: 100, staked_only: false }
}

pub open spec fn udp_gossip_spec(address: Endpoint) -> Descriptor {
    Descriptor { protocol: Protocol::Udp, address, max_mbps: 50, staked_only: false }
}

pub open spec fn udp_control_spec(address: Endpoint) -> Descriptor {
    Descriptor { protocol: Protocol::Udp, address, max_mbps: 10, staked_only: true }
}

pub open spec fn udp_bulk_spec(address: Endpoint) -> Descriptor {
    Descriptor { protocol: Protocol::Udp, address, max_mbps: 200, staked_only: true }
}

impl Descriptor {
    /// A QUIC endpoint of the transaction or vote path.
    pub fn quic(address: Endpoint) -> (r: Descriptor)
        ensures
            r == quic_spec(address),
    {
        Descriptor { protocol: Protocol::Quic, address, max_mbps: 100, staked_only: false }
    }

    /// The gossip endpoint.
    pub fn udp_gossip(address: Endpoint) -> (r: Descriptor)
        ensures
            r == udp_gossip_spec(address),
    {
        Descriptor { protocol: Protocol::Udp, address, max_mbps: 50, staked_only: false }
    }

    /// A UDP endpoint of low volume: votes and alpenglow.
    pub fn udp_control(address: Endpoint) -> (r: Descriptor)
        ensures
            r == udp_control_spec(address),
    {
        Descriptor { protocol: Protocol::Udp, address, max_mbps: 10, staked_only: true }
    }

    /// A UDP endpoint of high volume: repair and turbine.
    pub fn udp_bulk(address: Endpoint) -> (r: Descriptor)
        ensures
            r == udp_bulk_spec(address),
    {
        Descriptor { protocol: Protocol::Udp, address, max_mbps: 200, staked_only: true }
    }
}

/// One identity of the full listing: its stake and a descriptor per
/// declared endpoint.
#[derive(Clone, Copy, Debug)]
pub struct AllowlistEntry {
    pub pubkey: Identity,
    pub stake: u64,
    pub gossip: Descriptor,
    pub serve_repair: Descriptor,
    pub tpu_forwards_quic: Option<Descriptor>,
    pub tpu_quic: Option<Descriptor>,
    pub tpu_vote: Option<Descriptor>,
    pub tpu_vote_quic: Option<Descriptor>,
    pub turbine: Descriptor,
    pub alpenglow: Option<Descriptor>,
}

pub open spec fn quic_opt(o: Option<Endpoint>) -> Option<Descriptor> {
    match o {
        Some(e) => Some(quic_spec(e)),
        None => None,
    }
}

pub open spec fn control_opt(o: Option<Endpoint>) -> Option<Descriptor> {
    match o {
        Some(e) => Some(udp_control_spec(e)),
        None => None,
    }
}

/// The entry of record `p` with stake `stake`, classified by role.
pub open spec fn entry_of(p: Ports, stake: u64) -> AllowlistEntry {
    AllowlistEntry {
        pubkey: p.pubkey,
        stake,
        gossip: udp_gossip_spec(p.gossip),
        serve_repair: udp_bulk_spec(p.serve_repair),
        tpu_forwards_quic: quic_opt(p.tpu_forwards_quic),
        tpu_quic: quic_opt(p.tpu_quic),
        tpu_vote: control_opt(p.tpu_vote),
        tpu_vote_quic: quic_opt(p.tpu_vote_quic),
        turbine: udp_bulk_spec(p.turbine),
        alpenglow: control_opt(p.alpenglow),
    }
}

fn quic_of(o: Option<Endpoint>) -> (r: Option<Descriptor>)
    ensures
        r == quic_opt(o),
{
    match o {
        Some(e) => Some(Descriptor::quic(e)),
        None => None,
    }
}

fn control_of(o: Option<Endpoint>) -> (r: Option<Descriptor>)
    ensures
        r == control_opt(o),
{
    match o {
        Some(e) => Some(Descriptor::udp_control(e)),
        None => None,
    }
}

impl AllowlistEntry {
    /// Classifies each declared endpoint of `ports`.
    pub fn new(ports: &Ports, stake: u64) -> (r: AllowlistEntry)
        ensures
            r == entry_of(*ports, stake),
    {
        AllowlistEntry {
            pubkey: ports.pubkey,
            stake,
            gossip: Descriptor::udp_gossip(ports.gossip),
            serve_repair: Descriptor::udp_bulk(ports.serve_repair),
            tpu_forwards_quic: quic_of(ports.tpu_forwards_quic),
            tpu_quic: quic_of(ports.tpu_quic),
            tpu_vote: control_of(ports.tpu_vote),
            tpu_vote_quic: quic_of(ports.tpu_vote_quic),
            turbine: Descriptor::udp_bulk(ports.turbine),
            alpenglow: control_of(ports.alpenglow),
        }
    }
}

/// `listing` holds, in the snapshot's order, the entry of each record of
/// `gossip` with its stake in `stakes`.
pub open spec fn is_full_listing(listing: Seq<AllowlistEntry>, gossip: GossipData, stakes: StakeData) -> bool {
    &&& listing.len() == gossip.gossip_data@.len()
    &&& forall|i: int|
        0 <= i < listing.len() ==> #[trigger] listing[i] == entry_of(
            gossip.gossip_data@[i],
            stakes.stake_spec(gossip.gossip_data@[i].pubkey@),
        )
}

/// The full listing: one entry per record of the membership snapshot, with
/// its stake (0 for an identity that the stake snapshot lacks).
pub fn allowlist_full(gossip: &GossipData, stakes: &StakeData) -> (r: Vec<AllowlistEntry>)
    ensures
        is_full_listing(r@, *gossip, *stakes),
{
    let mut results: Vec<AllowlistEntry> = Vec::new();
    let mut i: usize = 0;
    while i < gossip.gossip_data.len()
        invariant
            0 <= i <= gossip.gossip_data@.len(),
            results@.len() == i,
            forall|j: int|
                0 <= j < i ==> #[trigger] results@[j] == entry_of(
                    gossip.gossip_data@[j],
                    stakes.stake_spec(gossip.gossip_data@[j].pubkey@),
                ),
        decreases gossip.gossip_data@.len() - i,
    {
        let ports = &gossip.gossip_data[i];
        let stake = stakes.stake_of(&ports.pubkey);
        results.push(AllowlistEntry::new(ports, stake));
        i += 1;
    }
    results
}

/// The IPv4 addresses of the records of `s` whose stake is above `threshold`
/// (`staked`) or at most `threshold` (`!staked`), record after record.
pub open spec fn tier_ips(s: Seq<Ports>, stakes: StakeData, threshold: u64, staked: bool) -> Seq<u32>
    decreases s.len(),
{
    if s.len() == 0 {
        Seq::empty()
    } else {
        let rest = tier_ips(s.drop_last(), stakes, threshold, staked);
        if (stakes.stake_spec(s.last().pubkey@) > threshold) == staked {
            rest + ipv4_of(s.last().endpoints())
        } else {
            rest
        }
    }
}

/// The short listing: the /24 networks of staked and of other identities.
#[derive(Clone, Debug)]
pub struct ShortListing {
    pub staked: Vec<u32>,
    pub unstaked: Vec<u32>,
}

/// The short listing: the IPv4 addresses of identities with stake above
/// `threshold` and those of the others, each aggregated into /24 networks.
pub fn allowlist_short(gossip: &GossipData, stakes: &StakeData, threshold: u64) -> (r: ShortListing)
    ensures
        is_aggregate_of(r.staked@, tier_ips(gossip.gossip_data@, *stakes, threshold, true)),
        is_aggregate_of(r.unstaked@, tier_ips(gossip.gossip_data@, *stakes, threshold, false)),
{
    let mut staked: Vec<u32> = Vec::new();
    let mut unstaked: Vec<u32> = Vec::new();
    let mut i: usize = 0;
    while i < gossip.gossip_data.len()
        invariant
            0 <= i <= gossip.gossip_data@.len(),
            staked@ == tier_ips(gossip.gossip_data@.take(i as int), *stakes, threshold, true),
            unstaked@ == tier_ips(gossip.gossip_data@.take(i as int), *stakes, threshold, false),
        decreases gossip.gossip_data@.len() - i,
    {
        let ghost next = gossip.gossip_data@.take(i + 1);
        assert(next.drop_last() =~= gossip.gossip_data@.take(i as int));
        let ports = &gossip.gossip_data[i];
        let stake = stakes.stake_of(&ports.pubkey);
        let mut ips = ports.all_ips();
        if stake > threshold {
            staked.append(&mut ips);
        } else {
            unstaked.append(&mut ips);
        }
        i += 1;
    }
    assert(gossip.gossip_data@.take(gossip.gossip_data@.len() as int) =~= gossip.gossip_data@);
    aggregate_into_24s(&mut staked);
    aggregate_into_24s(&mut unstaked);
    ShortListing { staked, unstaked }
}

/// Relies on `solana_native_token::LAMPORTS_PER_SOL`: the number of lamports
/// in one SOL.
#[verifier::external_body]
fn lamports_per_sol() -> (r: u64)
    ensures
        r == 1_000_000_000,
{
    solana_native_token::LAMPORTS_PER_SOL
}

/// The stake threshold of a short listing, in lamports: the number of whole
/// SOL asked for (the largest `u64` where that many lamports exceed it), else
/// one SOL.
pub fn stake_threshold(asked_sol: Option<u64>) -> (r: u64)
    ensures
        r == match asked_sol {
            Some(t) => capped(t * 1_000_000_000),
            None => 1_000_000_000,
        },
{
    let per_sol = lamports_per_sol();
    match asked_sol {
        Some(t) => match t.checked_mul(per_sol) {
            Some(v) => v,
            None => u64::MAX,
        },
        None => per_sol,
    }
}

/// The age of a snapshot captured at `then`, seen at `now`; 0 for a capture
/// time that lies ahead.
pub open spec fn age(now: u64, then: u64) -> u64 {
    if now >= then {
        (now - then) as u64
    } else {
        0
    }
}

/// The outcome of a health check: whether the membership snapshot is fresh,
/// and the age of each snapshot in milliseconds.
#[derive(Clone, Copy, Debug, PartialEq, Eq)]
pub struct HealthReport {
    pub healthy: bool,
    pub gossip_age_ms: u64,
    pub stake_age_ms: u64,
}

/// Health at time `now`: healthy exactly when the membership snapshot is
/// younger than `GOSSIP_FRESHNESS_MS`; the stake snapshot's age is reported
/// and decides nothing.
pub fn get_health(now: u64, gossip: &GossipData, stakes: &StakeData) -> (r: HealthReport)
    ensures
        r.gossip_age_ms == age(now, gossip.last_update),
        r.stake_age_ms == age(now, stakes.last_update),
        r.healthy <==> age(now, gossip.last_update) < GOSSIP_FRESHNESS_MS,
{
    let gossip_age_ms = now.saturating_sub(gossip.last_update);
    let stake_age_ms = now.saturating_sub(stakes.last_update);
    HealthReport { healthy: gossip_age_ms < GOSSIP_FRESHNESS_MS, gossip_age_ms, stake_age_ms }
}

/// The full listing joins every identity of the membership snapshot exactly
/// once, with its stake, which is 0 where the stake snapshot lacks it.
pub proof fn lemma_join_total(
    listing: Seq<AllowlistEntry>,
    gossip: GossipData,
    stakes: StakeData,
    k: Seq<u8>,
)
    requires
        gossip.wf(),
        stakes.wf(),
        is_full_listing(listing, gossip, stakes),
        gossip.has(k),
    ensures
        exists|i: int|
            0 <= i < listing.len() && #[trigger] listing[i].pubkey@ == k && listing[i].stake
                == stakes.stake_spec(k) && forall|j: int|
                0 <= j < listing.len() && #[trigger] listing[j].pubkey@ == k ==> j == i,
        !stakes.has(k) ==> stakes.stake_spec(k) == 0,
{
    let i = choose|i: int| 0 <= i < gossip.gossip_data@.len() && #[trigger] gossip.gossip_data@[i].pubkey@ == k;
    assert(listing[i] == entry_of(gossip.gossip_data@[i], stakes.stake_spec(k)));
    assert forall|j: int| 0 <= j < listing.len() && #[trigger] listing[j].pubkey@ == k implies j == i by {
        assert(listing[j] == entry_of(gossip.gossip_data@[j], stakes.stake_spec(gossip.gossip_data@[j].pubkey@)));
        assert(gossip.gossip_data@[j].pubkey@ == k);
    }
    assert(listing[i].pubkey@ == k && listing[i].stake == stakes.stake_spec(k));
    lemma_stake_in_unique(stakes.stake_amounts@, k);
    if !stakes.has(k) {
        assert forall|j: int| 0 <= j < stakes.stake_amounts@.len() implies #[trigger] stakes.stake_amounts@[j].0@ != k by {
            if stakes.stake_amounts@[j].0@ == k {
                assert(crate::ranking_table::holds_key(stakes.stake_amounts@, k));
            }
        }
    }
}

/// Each IPv4 address of a record in `s` whose classification is `staked`
/// lies in `tier_ips`.
pub proof fn lemma_tier_ips_holds(s: Seq<Ports>, stakes: StakeData, threshold: u64, staked: bool, i: int)
    requires
        0 <= i < s.len(),
        (stakes.stake_spec(s[i].pubkey@) > threshold) == staked,
    ensures
        forall|a: u32| ipv4_of(s[i].endpoints()).contains(a) ==> tier_ips(s, stakes, threshold, staked).contains(a),
    decreases s.len(),
{
    let t = s.drop_last();
    let rest = tier_ips(t, stakes, threshold, staked);
    if i < s.len() - 1 {
        assert(t[i] == s[i]);
        lemma_tier_ips_holds(t, stakes, threshold, staked, i);
    }
    assert forall|a: u32| ipv4_of(s[i].endpoints()).contains(a) implies tier_ips(s, stakes, threshold, staked).contains(a) by {
        let whole = tier_ips(s, stakes, threshold, staked);
        if i < s.len() - 1 {
            let k = choose|k: int| 0 <= k < rest.len() && rest[k] == a;
            if (stakes.stake_spec(s.last().pubkey@) > threshold) == staked {
                assert(whole[k] == a);
            } else {
                assert(whole == rest);
            }
        } else {
            let e = ipv4_of(s.last().endpoints());
            let k = choose|k: int| 0 <= k < e.len() && e[k] == a;
            assert(whole[rest.len() + k] == a);
        }
    }
}

/// An identity whose stake is above the threshold is promoted: the network
/// of each of its IPv4 addresses is in the staked part of a short listing.
pub proof fn lemma_above_threshold_is_staked(
    gossip: GossipData,
    stakes: StakeData,
    threshold: u64,
    staked: Seq<u32>,
    i: int,
)
    requires
        0 <= i < gossip.gossip_data@.len(),
        stakes.stake_spec(gossip.gossip_data@[i].pubkey@) > threshold,
        is_aggregate_of(staked, tier_ips(gossip.gossip_data@, stakes, threshold, true)),
    ensures
        forall|a: u32|
            ipv4_of(gossip.gossip_data@[i].endpoints()).contains(a) ==> staked.contains(
                #[trigger] network_of(a),
            ),
{
    let s = gossip.gossip_data@;
    lemma_tier_ips_holds(s, stakes, threshold, true, i);
    assert forall|a: u32| ipv4_of(s[i].endpoints()).contains(a) implies staked.contains(
        #[trigger] network_of(a),
    ) by {
        let t = tier_ips(s, stakes, threshold, true);
        assert(t.contains(a));
        let k = choose|k: int| 0 <= k < t.len() && t[k] == a;
        assert(network_of(t[k]) == network_of(a));
    }
}

/// An identity whose stake equals the threshold is not promoted: the network
/// of each of its IPv4 addresses is in the unstaked part of a short listing.
pub proof fn lemma_threshold_is_unstaked(
    gossip: GossipData,
    stakes: StakeData,
    threshold: u64,
    unstaked: Seq<u32>,
    i: int,
)
    requires
        0 <= i < gossip.gossip_data@.len(),
        stakes.stake_spec(gossip.gossip_data@[i].pubkey@) == threshold,
        is_aggregate_of(unstaked, tier_ips(gossip.gossip_data@, stakes, threshold, false)),
    ensures
        forall|a: u32|
            ipv4_of(gossip.gossip_data@[i].endpoints()).contains(a) ==> unstaked.contains(
                #[trigger] network_of(a),
            ),
{
    let s = gossip.gossip_data@;
    lemma_tier_ips_holds(s, stakes, threshold, false, i);
    assert forall|a: u32| ipv4_of(s[i].endpoints()).contains(a) implies unstaked.contains(
        #[trigger] network_of(a),
    ) by {
        let t = tier_ips(s, stakes, threshold, false);
        assert(t.contains(a));
        let k = choose|k: int| 0 <= k < t.len() && t[k] == a;
        assert(network_of(t[k]) == network_of(a));
    }
}

} // verus!
