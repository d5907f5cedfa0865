use crate::gossip_spy::Identity;
use crate::ranking_table::{pairs_view, StakeData};
use vstd::prelude::*;

verus! {

/// A vote account as the stake ledger reports it: its own address, the
/// base-58 identity of the validator that owns it, and its activated stake.
#[derive(Clone, Debug)]
pub struct VoteAccount {
    pub vote_pubkey: String,
    pub node_pubkey: String,
    pub activated_stake: u64,
}

/// The 32 bytes that a base-58 text decodes to, where it names an identity.
pub uninterp spec fn decoded_identity(s: Seq<char>) -> Option<Seq<u8>>;

/// Relies on `FromStr` for `solana_pubkey::Pubkey`: base-58 decoding of a
/// text into 32 bytes, which fails on a text that names no identity.
#[verifier::external_body]
fn parse_identity(s: &str) -> (r: Option<Identity>)
    ensures
        r is Some <==> decoded_identity(s@) is Some,
        r is Some ==> decoded_identity(s@) == Some(r->0@),
{
    match s.parse::<solana_pubkey::Pubkey>() {
        Ok(p) => Some(Identity { bytes: p.to_bytes() }),
        Err(_) => None,
    }
}

/// Every account's owner decodes to an identity.
pub open spec fn all_decode(accounts: Seq<VoteAccount>) -> bool {
    forall|i: int| 0 <= i < accounts.len() ==> (#[trigger] decoded_identity(accounts[i].node_pubkey@)) is Some
}

/// The stake of each account, with the bytes of its owner's identity.
pub open spec fn decoded_stakes(accounts: Seq<VoteAccount>) -> Seq<(Seq<u8>, u64)> {
    accounts.map_values(
        |a: VoteAccount| (decoded_identity(a.node_pubkey@)->0, a.activated_stake),
    )
}

/// Appends the decoded stake of each account to `stakes`; `false`, and
/// `stakes` left partly filled, where an owner does not decode.
fn decode_accounts(accounts: &Vec<VoteAccount>, stakes: &mut Vec<(Identity, u64)>) -> (ok: bool)
    ensures
        ok <==> all_decode(accounts@),
        ok ==> pairs_view(final(stakes)@) == pairs_view(old(stakes)@) + decoded_stakes(accounts@),
{
    let ghost start = stakes@;
    let mut i: usize = 0;
    while i < accounts.len()
        invariant
            0 <= i <= accounts@.len(),
            stakes@.len() == start.len() + i,
            forall|j: int| 0 <= j < start.len() ==> stakes@[j] == start[j],
            forall|j: int|
                0 <= j < i ==> (#[trigger] decoded_identity(accounts@[j].node_pubkey@)) is Some,
            forall|j: int|
                0 <= j < i ==> decoded_identity(accounts@[j].node_pubkey@) == Some(
                    (#[trigger] stakes@[start.len() + j]).0@,
                ) && stakes@[start.len() + j].1 == accounts@[j].activated_stake,
        decreases accounts@.len() - i,
    {
        match parse_identity(accounts[i].node_pubkey.as_str()) {
            Some(id) => stakes.push((id, accounts[i].activated_stake)),
            None => {
                assert(!all_decode(accounts@));
                return false;
            },
        }
        i += 1;
    }
    assert(pairs_view(stakes@) =~= pairs_view(start) + decoded_stakes(accounts@)) by {
        assert forall|j: int| 0 <= j < stakes@.len() implies pairs_view(stakes@)[j] == (pairs_view(start) + decoded_stakes(accounts@))[j] by {
            if j >= start.len() {
                let k = j - start.len();
                assert(stakes@[start.len() + k] == stakes@[j]);
            }
        }
    }
    true
}

/// Builds the stake snapshot of one ledger answer, summing the stake of all
/// vote accounts of each identity, current and delinquent alike; `None`
/// where an owner does not decode.
pub fn stake_data_from_answer(
    current: &Vec<VoteAccount>,
    delinquent: &Vec<VoteAccount>,
    now: u64,
) -> (r: Option<StakeData>)
    ensures
        r is Some <==> all_decode(current@ + delinquent@),
        r is Some ==> r->0.sums(decoded_stakes(current@ + delinquent@)) && r->0.last_update == now,
{
    let ghost both = current@ + delinquent@;
    assert(decoded_stakes(both) =~= decoded_stakes(current@) + decoded_stakes(delinquent@));
    let mut stakes: Vec<(Identity, u64)> = Vec::new();
    assert(pairs_view(stakes@) =~= Seq::empty());
    if !decode_accounts(current, &mut stakes) {
        assert(!all_decode(both)) by {
            let j = choose|j: int| 0 <= j < current@.len() && !(#[trigger] decoded_identity(current@[j].node_pubkey@) is Some);
            assert(both[j] == current@[j]);
        }
        return None;
    }
    if !decode_accounts(delinquent, &mut stakes) {
        assert(!all_decode(both)) by {
            let j = choose|j: int| 0 <= j < delinquent@.len() && !(#[trigger] decoded_identity(delinquent@[j].node_pubkey@) is Some);
            assert(both[current@.len() + j] == delinquent@[j]);
        }
        return None;
    }
    assert(all_decode(both)) by {
        assert forall|j: int| 0 <= j < both.len() implies (#[trigger] decoded_identity(both[j].node_pubkey@)) is Some by {
            if j >= current@.len() {
                assert(both[j] == delinquent@[j - current@.len()]);
            }
        }
    }
    let r = StakeData::from_stakes(&stakes, now);
    Some(r)
}

/// The accounts of a ledger answer: its current ones, then its delinquent
/// ones.
pub open spec fn answer_accounts(answer: (Vec<VoteAccount>, Vec<VoteAccount>)) -> Seq<VoteAccount> {
    answer.0@ + answer.1@
}

/// One cycle of the stake refresh: where the ledger answered (`fetched` is
/// `Some`, its current and its delinquent accounts) and every owner decodes,
/// `current` becomes the new snapshot and the result is `true`; on a failed
/// query or a bad answer `current` stays as it was, timestamp included.
pub fn apply_stake_fetch(
    current: &mut StakeData,
    fetched: Option<(Vec<VoteAccount>, Vec<VoteAccount>)>,
    now: u64,
) -> (published: bool)
    ensures
        published <==> (fetched is Some && all_decode(answer_accounts(fetched->0))),
        !published ==> *final(current) == *old(current),
        published ==> final(current).sums(decoded_stakes(answer_accounts(fetched->0)))
            && final(current).last_update == now,
{
    match fetched {
        Some((active, delinquent)) => match stake_data_from_answer(&active, &delinquent, now) {
            Some(data) => {
                *current = data;
                true
            },
            None => false,
        },
        None => false,
    }
}

} // verus!
