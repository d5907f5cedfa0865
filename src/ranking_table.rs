use crate::gossip_spy::{latest_ports, ports_of, Identity, PeerRecord, Ports};
use vstd::prelude::*;

verus! {

/// No identity occurs twice among the records.
pub open spec fn unique_identities(s: Seq<Ports>) -> bool {
    forall|i: int, j: int| 0 <= i < j < s.len() ==> s[i].pubkey@ != s[j].pubkey@
}

/// A membership snapshot: at most one endpoint record per identity, and the
/// time (in milliseconds) at which it was captured.
#[derive(Clone, Debug)]
pub struct GossipData {
    pub gossip_data: Vec<Ports>,
    pub last_update: u64,
}

/// The position of the record of `id` in `entries`, or `entries.len()` if it
/// has none.
pub fn position_of(entries: &Vec<Ports>, id: &Identity) -> (r: usize)
    ensures
        r <= entries@.len(),
        r < entries@.len() ==> entries@[r as int].pubkey@ == id@,
        r == entries@.len() ==> forall|j: int|
            0 <= j < entries@.len() ==> #[trigger] entries@[j].pubkey@ != id@,
{
    let mut i: usize = 0;
    while i < entries.len()
        invariant
            0 <= i <= entries@.len(),
            forall|j: int| 0 <= j < i ==> #[trigger] entries@[j].pubkey@ != id@,
        decreases entries@.len() - i,
    {
        if entries[i].pubkey.same_as(id) {
            return i;
        }
        i += 1;
    }
    i
}

impl GossipData {
    pub open spec fn wf(&self) -> bool {
        unique_identities(self.gossip_data@)
    }

    /// Whether the snapshot holds a record for identity `k`.
    pub open spec fn has(&self, k: Seq<u8>) -> bool {
        exists|i: int| 0 <= i < self.gossip_data@.len() && #[trigger] self.gossip_data@[i].pubkey@ == k
    }

    /// Builds the snapshot of one membership listing: each peer that declares
    /// every required role gives its record, and of two peers with one
    /// identity the later one wins.
    pub fn from_peers(peers: &Vec<PeerRecord>, now: u64) -> (r: GossipData)
        ensures
            r.wf(),
            r.last_update == now,
            forall|i: int|
                0 <= i < r.gossip_data@.len() ==> latest_ports(peers@, #[trigger] r.gossip_data@[i].pubkey@)
                    == Some(r.gossip_data@[i]),
            forall|k: Seq<u8>| #[trigger] latest_ports(peers@, k) is Some ==> r.has(k),
    {
        let mut out: Vec<Ports> = Vec::new();
        let mut n: usize = 0;
        while n < peers.len()
            invariant
                0 <= n <= peers@.len(),
                unique_identities(out@),
                forall|i: int|
                    0 <= i < out@.len() ==> latest_ports(peers@.take(n as int), #[trigger] out@[i].pubkey@)
                        == Some(out@[i]),
                forall|k: Seq<u8>|
                    #[trigger] latest_ports(peers@.take(n as int), k) is Some ==> exists|i: int|
                        0 <= i < out@.len() && #[trigger] out@[i].pubkey@ == k,
            decreases peers@.len() - n,
        {
            let ghost before = out@;
            let ghost prev = peers@.take(n as int);
            let ghost next = peers@.take(n + 1);
            assert(next.drop_last() =~= prev);
            assert(next.last() == peers@[n as int]);
            match Ports::try_from_peer(&peers[n]) {
                Ok(p) => {
                    let idx = position_of(&out, &p.pubkey);
                    if idx < out.len() {
                        out.set(idx, p);
                    } else {
                        out.push(p);
                    }
                    assert(unique_identities(out@)) by {
                        assert forall|i: int, j: int| 0 <= i < j < out@.len() implies out@[i].pubkey@
                            != out@[j].pubkey@ by {
                            if i != idx && j != idx {
                                assert(out@[i] == before[i] && out@[j] == before[j]);
                            }
                        }
                    }
                    assert forall|i: int|
                        0 <= i < out@.len() implies latest_ports(next, #[trigger] out@[i].pubkey@)
                            == Some(out@[i]) by {
                        if out@[i].pubkey@ != p.pubkey@ {
                            assert(out@[i] == before[i]);
                        }
                    }
                    assert forall|k: Seq<u8>| #[trigger] latest_ports(next, k) is Some implies exists|i: int|
                        0 <= i < out@.len() && #[trigger] out@[i].pubkey@ == k by {
                        if k == p.pubkey@ {
                            assert(out@[idx as int].pubkey@ == k);
                        } else {
                            assert(latest_ports(next, k) == latest_ports(prev, k));
                            let i = choose|i: int| 0 <= i < before.len() && #[trigger] before[i].pubkey@ == k;
                            assert(out@[i].pubkey@ == k);
                        }
                    }
                },
                Err(_) => {
                    assert forall|k: Seq<u8>| latest_ports(next, k) == latest_ports(prev, k) by {}
                },
            }
            n += 1;
        }
        assert(peers@.take(peers@.len() as int) =~= peers@);
        GossipData { gossip_data: out, last_update: now }
    }
}

impl GossipData {
    /// An empty snapshot captured at time `now`.
    pub fn empty(now: u64) -> (r: GossipData)
        ensures
            r.gossip_data@.len() == 0,
            r.last_update == now,
    {
        GossipData { gossip_data: Vec::new(), last_update: now }
    }
}

impl Default for GossipData {
    /// An empty snapshot captured at time 0.
    fn default() -> (r: GossipData)
        ensures
            r.gossip_data@.len() == 0,
            r.last_update == 0,
    {
        GossipData { gossip_data: Vec::new(), last_update: 0 }
    }
}

/// The stake recorded for identity `k`: that of its last entry, 0 if none.
pub open spec fn stake_in(s: Seq<(Identity, u64)>, k: Seq<u8>) -> u64
    decreases s.len(),
{
    if s.len() == 0 {
        0
    } else if s.last().0@ == k {
        s.last().1
    } else {
        stake_in(s.drop_last(), k)
    }
}

/// No identity occurs twice among the entries.
pub open spec fn unique_keys(s: Seq<(Identity, u64)>) -> bool {
    forall|i: int, j: int| 0 <= i < j < s.len() ==> s[i].0@ != s[j].0@
}

/// The sum of the amounts that `s` lists for identity `k`.
pub open spec fn total_stake(s: Seq<(Seq<u8>, u64)>, k: Seq<u8>) -> int
    decreases s.len(),
{
    if s.len() == 0 {
        0
    } else {
        total_stake(s.drop_last(), k) + if s.last().0 == k {
            s.last().1 as int
        } else {
            0
        }
    }
}

/// Whether some entry of `s` is for identity `k`.
pub open spec fn holds_key(s: Seq<(Identity, u64)>, k: Seq<u8>) -> bool {
    exists|i: int| 0 <= i < s.len() && #[trigger] s[i].0@ == k
}

/// Whether some amount of `s` is for identity `k`.
pub open spec fn lists_key(s: Seq<(Seq<u8>, u64)>, k: Seq<u8>) -> bool {
    exists|i: int| 0 <= i < s.len() && #[trigger] s[i].0 == k
}

/// `x`, or the largest `u64` where `x` exceeds it.
pub open spec fn capped(x: int) -> u64 {
    if x > u64::MAX {
        u64::MAX
    } else {
        x as u64
    }
}

/// The amounts of `s`, each with its identity's bytes.
pub open spec fn pairs_view(s: Seq<(Identity, u64)>) -> Seq<(Seq<u8>, u64)> {
    s.map_values(|p: (Identity, u64)| (p.0@, p.1))
}

/// A stake snapshot: the stake of each identity, and the time (in
/// milliseconds) at which it was captured.
#[derive(Clone, Debug)]
pub struct StakeData {
    pub stake_amounts: Vec<(Identity, u64)>,
    pub last_update: u64,
}

proof fn lemma_total_stake_nonneg(s: Seq<(Seq<u8>, u64)>, k: Seq<u8>)
    ensures
        total_stake(s, k) >= 0,
    decreases s.len(),
{
    if s.len() > 0 {
        lemma_total_stake_nonneg(s.drop_last(), k);
    }
}

/// Where the amounts of a unique-keyed sequence stand.
pub proof fn lemma_stake_in_unique(s: Seq<(Identity, u64)>, k: Seq<u8>)
    requires
        unique_keys(s),
    ensures
        (forall|i: int| 0 <= i < s.len() ==> #[trigger] s[i].0@ != k) ==> stake_in(s, k) == 0,
        forall|i: int| 0 <= i < s.len() && #[trigger] s[i].0@ == k ==> stake_in(s, k) == s[i].1,
    decreases s.len(),
{
    if s.len() > 0 {
        let t = s.drop_last();
        lemma_stake_in_unique(t, k);
        assert forall|i: int| 0 <= i < s.len() && #[trigger] s[i].0@ == k implies stake_in(s, k)
            == s[i].1 by {
            if i < s.len() - 1 {
                assert(t[i] == s[i]);
            }
        }
        if forall|i: int| 0 <= i < s.len() ==> #[trigger] s[i].0@ != k {
            assert forall|i: int| 0 <= i < t.len() implies #[trigger] t[i].0@ != k by {
                assert(t[i] == s[i]);
            }
        }
    }
}

fn position_of_stake(entries: &Vec<(Identity, u64)>, id: &Identity) -> (r: usize)
    ensures
        r <= entries@.len(),
        r < entries@.len() ==> entries@[r as int].0@ == id@,
        r == entries@.len() ==> forall|j: int|
            0 <= j < entries@.len() ==> #[trigger] entries@[j].0@ != id@,
{
    let mut i: usize = 0;
    while i < entries.len()
        invariant
            0 <= i <= entries@.len(),
            forall|j: int| 0 <= j < i ==> #[trigger] entries@[j].0@ != id@,
        decreases entries@.len() - i,
    {
        if entries[i].0.same_as(id) {
            return i;
        }
        i += 1;
    }
    i
}

impl StakeData {
    pub open spec fn wf(&self) -> bool {
        unique_keys(self.stake_amounts@)
    }

    /// The stake of identity `k`; 0 where the snapshot has none.
    pub open spec fn stake_spec(&self, k: Seq<u8>) -> u64 {
        stake_in(self.stake_amounts@, k)
    }

    /// Whether the snapshot holds an amount for identity `k`.
    pub open spec fn has(&self, k: Seq<u8>) -> bool {
        holds_key(self.stake_amounts@, k)
    }

    /// The snapshot holds, for each identity that `s` lists, the sum of its
    /// amounts (capped at the largest `u64`), and no other identity.
    pub open spec fn sums(&self, s: Seq<(Seq<u8>, u64)>) -> bool {
        &&& self.wf()
        &&& forall|k: Seq<u8>| #[trigger] self.stake_spec(k) == capped(total_stake(s, k))
        &&& forall|k: Seq<u8>| #[trigger] self.has(k) <==> lists_key(s, k)
    }

    /// The stake of `id`; 0 where the snapshot has none.
    pub fn stake_of(&self, id: &Identity) -> (r: u64)
        ensures
            r == self.stake_spec(id@),
    {
        let mut i: usize = self.stake_amounts.len();
        assert(self.stake_amounts@.take(i as int) =~= self.stake_amounts@);
        while i > 0
            invariant
                0 <= i <= self.stake_amounts@.len(),
                stake_in(self.stake_amounts@, id@) == stake_in(self.stake_amounts@.take(i as int), id@),
            decreases i,
        {
            let ghost t = self.stake_amounts@.take(i as int);
            assert(t.drop_last() =~= self.stake_amounts@.take(i - 1));
            if self.stake_amounts[i - 1].0.same_as(id) {
                return self.stake_amounts[i - 1].1;
            }
            i -= 1;
        }
        assert(self.stake_amounts@.take(0).len() == 0);
        0
    }

    /// Builds the snapshot that sums the amounts of `stakes` per identity.
    pub fn from_stakes(stakes: &Vec<(Identity, u64)>, now: u64) -> (r: StakeData)
        ensures
            r.sums(pairs_view(stakes@)),
            r.last_update == now,
    {
        let ghost pv = pairs_view(stakes@);
        let mut out: Vec<(Identity, u64)> = Vec::new();
        let mut n: usize = 0;
        while n < stakes.len()
            invariant
                0 <= n <= stakes@.len(),
                pv == pairs_view(stakes@),
                unique_keys(out@),
                forall|k: Seq<u8>| #[trigger] stake_in(out@, k) == capped(total_stake(pv.take(n as int), k)),
                forall|k: Seq<u8>| #[trigger] holds_key(out@, k) <==> lists_key(pv.take(n as int), k),
            decreases stakes@.len() - n,
        {
            let ghost before = out@;
            let ghost prev = pv.take(n as int);
            let ghost next = pv.take(n + 1);
            assert(next.drop_last() =~= prev);
            let id = stakes[n].0;
            let amount = stakes[n].1;
            assert(next.last() == (id@, amount));
            let idx = position_of_stake(&out, &id);
            if idx < out.len() {
                let sum = out[idx].1.saturating_add(amount);
                out.set(idx, (id, sum));
            } else {
                out.push((id, amount));
            }
            assert(unique_keys(out@)) by {
                assert forall|i: int, j: int| 0 <= i < j < out@.len() implies out@[i].0@ != out@[j].0@ by {
                    if i != idx && j != idx {
                        assert(out@[i] == before[i] && out@[j] == before[j]);
                    }
                }
            }
            assert(out@[idx as int].0@ == id@);
            assert forall|k: Seq<u8>| #[trigger] stake_in(out@, k) == capped(total_stake(next, k)) by {
                lemma_stake_in_unique(before, k);
                lemma_stake_in_unique(out@, k);
                lemma_total_stake_nonneg(prev, k);
                assert(stake_in(before, k) == capped(total_stake(prev, k)));
                assert(total_stake(next, k) == total_stake(prev, k) + if id@ == k {
                    amount as int
                } else {
                    0
                });
                if k == id@ {
                    if idx < before.len() {
                        assert(before[idx as int].0@ == k);
                    } else {
                        assert forall|i: int| 0 <= i < before.len() implies #[trigger] before[i].0@ != k by {}
                    }
                } else if holds_key(out@, k) {
                    let i = choose|i: int| 0 <= i < out@.len() && #[trigger] out@[i].0@ == k;
                    assert(i != idx);
                    assert(before[i] == out@[i]);
                } else {
                    assert forall|i: int| 0 <= i < before.len() implies #[trigger] before[i].0@ != k by {
                        if i != idx {
                            assert(out@[i] == before[i]);
                            assert(!(out@[i].0@ == k));
                        }
                    }
                }
            }
            assert forall|k: Seq<u8>| #[trigger] holds_key(out@, k) <==> lists_key(next, k) by {
                assert(next[n as int].0 == id@);
                if holds_key(out@, k) {
                    let i = choose|i: int| 0 <= i < out@.len() && #[trigger] out@[i].0@ == k;
                    if k != id@ {
                        assert(i != idx);
                        assert(i < before.len());
                        assert(before[i] == out@[i]);
                        assert(holds_key(before, k));
                        let j = choose|j: int| 0 <= j < prev.len() && #[trigger] prev[j].0 == k;
                        assert(next[j] == prev[j]);
                    }
                }
                if lists_key(next, k) {
                    let j = choose|j: int| 0 <= j < next.len() && #[trigger] next[j].0 == k;
                    if k == id@ {
                        assert(out@[idx as int].0@ == k);
                    } else {
                        assert(prev[j] == next[j]);
                        assert(lists_key(prev, k));
                        assert(holds_key(before, k));
                        let i = choose|i: int| 0 <= i < before.len() && #[trigger] before[i].0@ == k;
                        assert(out@[i] == before[i]);
                    }
                }
            }
            n += 1;
        }
        assert(pv.take(stakes@.len() as int) =~= pv);
        StakeData { stake_amounts: out, last_update: now }
    }
}

impl StakeData {
    /// An empty snapshot captured at time `now`: every identity has stake 0.
    pub fn empty(now: u64) -> (r: StakeData)
        ensures
            r.stake_amounts@.len() == 0,
            r.last_update == now,
    {
        StakeData { stake_amounts: Vec::new(), last_update: now }
    }
}

impl Default for StakeData {
    /// An empty snapshot captured at time 0.
    fn default() -> (r: StakeData)
        ensures
            r.stake_amounts@.len() == 0,
            r.last_update == 0,
    {
        StakeData { stake_amounts: Vec::new(), last_update: 0 }
    }
}

} // verus!
