use vstd::prelude::*;

verus! {

/// The /24 network that holds `a`: `a` with its low 8 bits cleared.
pub open spec fn network_of(a: u32) -> u32 {
    (a - a % 256) as u32
}

pub open spec fn strictly_ascending(s: Seq<u32>) -> bool {
    forall|i: int, j: int| 0 <= i < j < s.len() ==> s[i] < s[j]
}

/// `out` lists, in strictly ascending order, each /24 network that holds an
/// address of `input`, and nothing else.
pub open spec fn is_aggregate_of(out: Seq<u32>, input: Seq<u32>) -> bool {
    &&& strictly_ascending(out)
    &&& forall|x: u32| out.contains(x) <==> exists|i: int| 0 <= i < input.len() && network_of(input[i]) == x
}

/// Replaces `addrs` by the distinct /24 networks of its addresses, in
/// ascending order.
pub fn aggregate_into_24s(addrs: &mut Vec<u32>)
    ensures
        is_aggregate_of(final(addrs)@, old(addrs)@),
{
    let mut nets: Vec<u32> = Vec::new();
    let mut i: usize = 0;
    while i < addrs.len()
        invariant
            0 <= i <= addrs@.len(),
            strictly_ascending(nets@),
            forall|x: u32|
                nets@.contains(x) <==> exists|k: int| 0 <= k < i && network_of(addrs@[k]) == x,
        decreases addrs@.len() - i,
    {
        let a = addrs[i];
        let net: u32 = a - a % 256;
        insert_sorted(&mut nets, net);
        assert forall|x: u32|
            nets@.contains(x) <==> exists|k: int| 0 <= k < i + 1 && network_of(addrs@[k]) == x by {
            if exists|k: int| 0 <= k < i + 1 && network_of(addrs@[k]) == x {
                let k = choose|k: int| 0 <= k < i + 1 && network_of(addrs@[k]) == x;
                if k < i {
                    assert(exists|k: int| 0 <= k < i && network_of(addrs@[k]) == x);
                }
            }
        }
        i += 1;
    }
    *addrs = nets;
}

/// Inserts `v` into a strictly ascending `nets` unless it is already there.
fn insert_sorted(nets: &mut Vec<u32>, v: u32)
    requires
        strictly_ascending(old(nets)@),
    ensures
        strictly_ascending(final(nets)@),
        forall|x: u32| final(nets)@.contains(x) <==> (old(nets)@.contains(x) || x == v),
{
    let mut lo: usize = 0;
    let mut hi: usize = nets.len();
    while lo < hi
        invariant
            0 <= lo <= hi <= nets@.len(),
            nets@ == old(nets)@,
            strictly_ascending(nets@),
            forall|k: int| 0 <= k < lo ==> nets@[k] < v,
            forall|k: int| hi <= k < nets@.len() ==> nets@[k] >= v,
        decreases hi - lo,
    {
        let mid = lo + (hi - lo) / 2;
        if nets[mid] < v {
            lo = mid + 1;
        } else {
            hi = mid;
        }
    }
    if lo < nets.len() && nets[lo] == v {
        return;
    }
    let ghost before = nets@;
    nets.insert(lo, v);
    assert(nets@ =~= before.take(lo as int).push(v) + before.skip(lo as int));
    assert forall|x: u32| nets@.contains(x) <==> (before.contains(x) || x == v) by {
        if before.contains(x) {
            let k = choose|k: int| 0 <= k < before.len() && before[k] == x;
            if k < lo {
                assert(nets@[k] == x);
            } else {
                assert(nets@[k + 1] == x);
            }
        }
        if nets@.contains(x) {
            let k = choose|k: int| 0 <= k < nets@.len() && nets@[k] == x;
            if k < lo {
                assert(before[k] == x);
            } else if k > lo {
                assert(before[k - 1] == x);
            }
        }
        if x == v {
            assert(nets@[lo as int] == v);
        }
    }
}

/// Two strictly ascending sequences with the same members are equal.
pub proof fn lemma_ascending_same_members(a: Seq<u32>, b: Seq<u32>)
    requires
        strictly_ascending(a),
        strictly_ascending(b),
        forall|x: u32| a.contains(x) <==> b.contains(x),
    ensures
        a == b,
    decreases a.len(),
{
    if a.len() == 0 {
        if b.len() > 0 {
            assert(b.contains(b[0]));
        }
        assert(a =~= b);
    } else {
        assert(a.contains(a[0]));
        assert(b.len() > 0);
        assert(b.contains(b[0]));
        let i = choose|i: int| 0 <= i < a.len() && a[i] == b[0];
        let j = choose|j: int| 0 <= j < b.len() && b[j] == a[0];
        assert(a[0] <= a[i]);
        assert(b[0] <= b[j]);
        assert(a[0] == b[0]);
        let a1 = a.drop_first();
        let b1 = b.drop_first();
        assert forall|x: u32| a1.contains(x) implies b1.contains(x) by {
            let k = choose|k: int| 0 <= k < a1.len() && a1[k] == x;
            assert(a[k + 1] == x);
            assert(a.contains(x));
            let m = choose|m: int| 0 <= m < b.len() && b[m] == x;
            assert(a[0] < a[k + 1]);
            assert(m != 0);
            assert(b1[m - 1] == x);
        }
        assert forall|x: u32| b1.contains(x) implies a1.contains(x) by {
            let k = choose|k: int| 0 <= k < b1.len() && b1[k] == x;
            assert(b[k + 1] == x);
            assert(b.contains(x));
            let m = choose|m: int| 0 <= m < a.len() && a[m] == x;
            assert(b[0] < b[k + 1]);
            assert(m != 0);
            assert(a1[m - 1] == x);
        }
        lemma_ascending_same_members(a1, b1);
        assert(a =~= seq![a[0]] + a1);
        assert(b =~= seq![b[0]] + b1);
    }
}

/// The aggregate of an input is unique: two results for one input are equal.
pub proof fn lemma_aggregate_unique(input: Seq<u32>, a: Seq<u32>, b: Seq<u32>)
    requires
        is_aggregate_of(a, input),
        is_aggregate_of(b, input),
    ensures
        a == b,
{
    lemma_ascending_same_members(a, b);
}

/// Aggregating an aggregate changes nothing.
pub proof fn lemma_aggregate_idempotent(input: Seq<u32>, once: Seq<u32>, twice: Seq<u32>)
    requires
        is_aggregate_of(once, input),
        is_aggregate_of(twice, once),
    ensures
        twice == once,
{
    assert forall|x: u32| twice.contains(x) <==> once.contains(x) by {
        if twice.contains(x) {
            let i = choose|i: int| 0 <= i < once.len() && network_of(once[i]) == x;
            assert(once.contains(once[i]));
            let k = choose|k: int| 0 <= k < input.len() && network_of(input[k]) == once[i];
            let y = input[k];
            assert(network_of(network_of(y)) == network_of(y));
            assert(once[i] == x);
        }
        if once.contains(x) {
            let i = choose|i: int| 0 <= i < once.len() && once[i] == x;
            let k = choose|k: int| 0 <= k < input.len() && network_of(input[k]) == x;
            let y = input[k];
            assert(network_of(network_of(y)) == network_of(y));
            assert(network_of(once[i]) == x);
        }
    }
    lemma_ascending_same_members(twice, once);
}

} // verus!
