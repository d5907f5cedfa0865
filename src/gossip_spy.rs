use vstd::prelude::*;

verus! {

/// A cluster identity: the 32 bytes of a validator's public key.
#[derive(Clone, Copy, Debug, PartialEq, Eq, Hash)]
pub struct Identity {
    pub bytes: [u8; 32],
}

impl View for Identity {
    type V = Seq<u8>;

    open spec fn view(&self) -> Seq<u8> {
        self.bytes@
    }
}

impl Identity {
    pub fn new(bytes: [u8; 32]) -> (r: Identity)
        ensures
            r.bytes == bytes,
    {
        Identity { bytes }
    }

    /// Byte-wise comparison of two identities.
    pub fn same_as(&self, other: &Identity) -> (r: bool)
        ensures
            r == (self@ == other@),
    {
        assert(self.bytes@.len() == 32 && other.bytes@.len() == 32);
        let mut i: usize = 0;
        while i < 32
            invariant
                0 <= i <= 32,
                self.bytes@.len() == 32,
                other.bytes@.len() == 32,
                forall|j: int| 0 <= j < i ==> self.bytes@[j] == other.bytes@[j],
            decreases 32 - i,
        {
            if self.bytes[i] != other.bytes[i] {
                return false;
            }
            i += 1;
        }
        assert(self.bytes@ =~= other.bytes@);
        true
    }
}

/// An IP address; an IPv4 address is held as its 32-bit big-endian value.
#[derive(Clone, Copy, Debug, PartialEq, Eq, Hash)]
pub enum IpAddress {
    V4(u32),
    V6(u128),
}

/// A network endpoint: an address and a port.
#[derive(Clone, Copy, Debug, PartialEq, Eq, Hash)]
pub struct Endpoint {
    pub ip: IpAddress,
    pub port: u16,
}

/// The endpoints that one identity declares; the required roles are
/// `gossip`, `serve_repair` and `turbine`.
#[derive(Clone, Copy, Debug)]
pub struct Ports {
    pub pubkey: Identity,
    pub stake: u64,
    pub gossip: Endpoint,
    pub serve_repair: Endpoint,
    pub tpu_forwards_quic: Option<Endpoint>,
    pub tpu_quic: Option<Endpoint>,
    pub tpu_vote: Option<Endpoint>,
    pub tpu_vote_quic: Option<Endpoint>,
    pub turbine: Endpoint,
    pub alpenglow: Option<Endpoint>,
}

/// The endpoint of an optional role, as a sequence of zero or one element.
pub open spec fn present(o: Option<Endpoint>) -> Seq<Endpoint> {
    match o {
        Some(e) => seq![e],
        None => Seq::empty(),
    }
}

/// The IPv4 addresses among `s`, in order.
pub open spec fn ipv4_of(s: Seq<Endpoint>) -> Seq<u32>
    decreases s.len(),
{
    if s.len() == 0 {
        Seq::empty()
    } else {
        let rest = ipv4_of(s.drop_last());
        match s.last().ip {
            IpAddress::V4(a) => rest.push(a),
            IpAddress::V6(_) => rest,
        }
    }
}

impl Ports {
    /// The declared endpoints: the three required roles, then each present
    /// optional role in a fixed order.
    pub open spec fn endpoints(self) -> Seq<Endpoint> {
        seq![self.gossip, self.serve_repair, self.turbine] + present(self.tpu_forwards_quic)
            + present(self.tpu_quic) + present(self.tpu_vote) + present(self.tpu_vote_quic)
            + present(self.alpenglow)
    }

    /// Every IPv4 address among the declared endpoints, in the order of
    /// `endpoints`; IPv6 endpoints are left out.
    pub fn all_ips(&self) -> (r: Vec<u32>)
        ensures
            r@ == ipv4_of(self.endpoints()),
            forall|k: int|
                #![trigger r@[k]]
                0 <= k < r@.len() ==> exists|j: int|
                    #![trigger self.endpoints()[j]]
                    0 <= j < self.endpoints().len() && self.endpoints()[j].ip == IpAddress::V4(
                        r@[k],
                    ),
            forall|j: int|
                0 <= j < self.endpoints().len() && #[trigger] self.endpoints()[j].ip is V4
                    ==> r@.contains(self.endpoints()[j].ip->V4_0),
    {
        let mut eps: Vec<Endpoint> = vec![self.gossip, self.serve_repair, self.turbine];
        push_present(&mut eps, self.tpu_forwards_quic);
        push_present(&mut eps, self.tpu_quic);
        push_present(&mut eps, self.tpu_vote);
        push_present(&mut eps, self.tpu_vote_quic);
        push_present(&mut eps, self.alpenglow);
        assert(eps@ =~= self.endpoints());
        let mut ips: Vec<u32> = Vec::new();
        let mut i: usize = 0;
        while i < eps.len()
            invariant
                0 <= i <= eps@.len(),
                ips@ == ipv4_of(eps@.take(i as int)),
            decreases eps@.len() - i,
        {
            assert(eps@.take(i + 1).drop_last() =~= eps@.take(i as int));
            match eps[i].ip {
                IpAddress::V4(a) => ips.push(a),
                IpAddress::V6(_) => {},
            }
            i += 1;
        }
        assert(eps@.take(eps@.len() as int) =~= eps@);
        proof {
            lemma_ipv4_of_members(self.endpoints());
        }
        ips
    }
}

fn push_present(v: &mut Vec<Endpoint>, o: Option<Endpoint>)
    ensures
        final(v)@ == old(v)@ + present(o),
{
    match o {
        Some(e) => {
            v.push(e);
            assert(final(v)@ =~= old(v)@ + present(o));
        },
        None => {
            assert(old(v)@ + present(o) =~= old(v)@);
        },
    }
}

/// `ipv4_of` holds exactly the IPv4 addresses of the endpoints.
pub proof fn lemma_ipv4_of_members(s: Seq<Endpoint>)
    ensures
        forall|k: int|
            #![trigger ipv4_of(s)[k]]
            0 <= k < ipv4_of(s).len() ==> exists|j: int|
                #![trigger s[j]]
                0 <= j < s.len() && s[j].ip == IpAddress::V4(ipv4_of(s)[k]),
        forall|j: int|
            0 <= j < s.len() && #[trigger] s[j].ip is V4 ==> ipv4_of(s).contains(s[j].ip->V4_0),
    decreases s.len(),
{
    if s.len() > 0 {
        let t = s.drop_last();
        lemma_ipv4_of_members(t);
        assert forall|k: int| #![trigger ipv4_of(s)[k]] 0 <= k < ipv4_of(s).len() implies exists|j: int|
            #![trigger s[j]]
            0 <= j < s.len() && s[j].ip == IpAddress::V4(ipv4_of(s)[k]) by {
            if k < ipv4_of(t).len() {
                let j = choose|j: int| 0 <= j < t.len() && #[trigger] t[j].ip == IpAddress::V4(ipv4_of(t)[k]);
                assert(s[j] == t[j]);
            } else {
                assert(s[s.len() - 1].ip == IpAddress::V4(ipv4_of(s)[k]));
            }
        }
        assert forall|j: int| 0 <= j < s.len() && #[trigger] s[j].ip is V4 implies ipv4_of(
            s,
        ).contains(s[j].ip->V4_0) by {
            let a = s[j].ip->V4_0;
            if j < s.len() - 1 {
                assert(t[j] == s[j]);
                let k = choose|k: int| 0 <= k < ipv4_of(t).len() && ipv4_of(t)[k] == a;
                assert(ipv4_of(s)[k] == a);
            } else {
                assert(ipv4_of(s)[ipv4_of(s).len() - 1] == a);
            }
        }
    }
}

/// A peer as the membership service lists it: an identity and the endpoint
/// it declares for each role, if any.
#[derive(Clone, Copy, Debug)]
pub struct PeerRecord {
    pub pubkey: Identity,
    pub gossip: Option<Endpoint>,
    pub serve_repair: Option<Endpoint>,
    pub tpu_forwards_quic: Option<Endpoint>,
    pub tpu_quic: Option<Endpoint>,
    pub tpu_vote: Option<Endpoint>,
    pub tpu_vote_quic: Option<Endpoint>,
    pub turbine: Option<Endpoint>,
    pub alpenglow: Option<Endpoint>,
}

/// The first required role, in the order gossip, serve_repair, turbine, that
/// a peer does not declare.
#[derive(Clone, Copy, Debug, PartialEq, Eq)]
pub enum MissingEndpoint {
    Gossip,
    ServeRepair,
    Turbine,
}

/// The endpoint record of a peer, or the first required role it lacks.
pub open spec fn ports_of(p: PeerRecord) -> Result<Ports, MissingEndpoint> {
    if p.gossip is None {
        Err(MissingEndpoint::Gossip)
    } else if p.serve_repair is None {
        Err(MissingEndpoint::ServeRepair)
    } else if p.turbine is None {
        Err(MissingEndpoint::Turbine)
    } else {
        Ok(
            Ports {
                pubkey: p.pubkey,
                stake: 0,
                gossip: p.gossip->0,
                serve_repair: p.serve_repair->0,
                tpu_forwards_quic: p.tpu_forwards_quic,
                tpu_quic: p.tpu_quic,
                tpu_vote: p.tpu_vote,
                tpu_vote_quic: p.tpu_vote_quic,
                turbine: p.turbine->0,
                alpenglow: p.alpenglow,
            },
        )
    }
}

/// The record that the last valid peer with identity `k` gives, if any.
pub open spec fn latest_ports(peers: Seq<PeerRecord>, k: Seq<u8>) -> Option<Ports>
    decreases peers.len(),
{
    if peers.len() == 0 {
        None
    } else if ports_of(peers.last()) is Ok && peers.last().pubkey@ == k {
        Some(ports_of(peers.last())->Ok_0)
    } else {
        latest_ports(peers.drop_last(), k)
    }
}

impl Ports {
    /// Normalises a peer: fails on the first missing required role.
    pub fn try_from_peer(p: &PeerRecord) -> (r: Result<Ports, MissingEndpoint>)
        ensures
            r == ports_of(*p),
    {
        let gossip = match p.gossip {
            Some(e) => e,
            None => return Err(MissingEndpoint::Gossip),
        };
        let serve_repair = match p.serve_repair {
            Some(e) => e,
            None => return Err(MissingEndpoint::ServeRepair),
        };
        let turbine = match p.turbine {
            Some(e) => e,
            None => return Err(MissingEndpoint::Turbine),
        };
        Ok(
            Ports {
                pubkey: p.pubkey,
                stake: 0,
                gossip,
                serve_repair,
                tpu_forwards_quic: p.tpu_forwards_quic,
                tpu_quic: p.tpu_quic,
                tpu_vote: p.tpu_vote,
                tpu_vote_quic: p.tpu_vote_quic,
                turbine,
                alpenglow: p.alpenglow,
            },
        )
    }
}

} // verus!
