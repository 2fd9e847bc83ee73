//! The order of preference is total, so that ranking a fleet has one
//! outcome.
use crate::balancer::ranking::ranks_before;
use crate::balancer::ranking::same_rank;
use crate::balancer::ranking::PeerView;
use vstd::prelude::*;
use vstd::relations::sorted_by;
use vstd::relations::total_ordering;
use vstd::seq_lib::lemma_sorted_unique;
use vstd::seq_lib::to_multiset_build;
use vstd::seq_lib::to_multiset_contains;
use vstd::seq_lib::to_multiset_len;
use vstd::seq_lib::to_multiset_remove;

verus! {

/// What the order of preference looks at in a peer, and nothing else.
pub struct RankKey {
    pub usable: bool,
    pub slots_idle: nat,
    pub slots_processing: nat,
    pub family: int,
    pub ip_bits: int,
    pub port_number: int,
    pub flow: int,
    pub scope: int,
}

/// The key of a peer.
pub open spec fn rank_key(peer: PeerView) -> RankKey {
    RankKey {
        usable: peer.is_usable(),
        slots_idle: peer.slots_idle,
        slots_processing: peer.slots_processing,
        family: peer.external_llamacpp_addr.family(),
        ip_bits: peer.external_llamacpp_addr.ip_bits(),
        port_number: peer.external_llamacpp_addr.port_number(),
        flow: peer.external_llamacpp_addr.flow(),
        scope: peer.external_llamacpp_addr.scope(),
    }
}

/// The order of preference on keys: `a` is preferred to `b`, or is `b`.
pub open spec fn key_leq(a: RankKey, b: RankKey) -> bool {
    if a.usable != b.usable {
        a.usable
    } else if a.slots_idle != b.slots_idle {
        a.slots_idle > b.slots_idle
    } else if a.slots_processing != b.slots_processing {
        a.slots_processing < b.slots_processing
    } else if a.family != b.family {
        a.family < b.family
    } else if a.ip_bits != b.ip_bits {
        a.ip_bits < b.ip_bits
    } else if a.port_number != b.port_number {
        a.port_number < b.port_number
    } else if a.flow != b.flow {
        a.flow < b.flow
    } else {
        a.scope <= b.scope
    }
}

/// A fleet in the order of preference: no peer stands behind one that it is
/// preferred to.
pub open spec fn ranked(peers: Seq<PeerView>) -> bool {
    forall|i: int, j: int| 0 <= i < j < peers.len() ==> !ranks_before(#[trigger] peers[j], #[trigger] peers[i])
}

/// The order of preference is the order of the keys: a peer is preferred to
/// another iff its key comes first, and the two are of the same rank iff
/// their keys are the same.
pub proof fn lemma_rank_by_key(a: PeerView, b: PeerView)
    ensures
        ranks_before(a, b) <==> key_leq(rank_key(a), rank_key(b)) && rank_key(a) != rank_key(b),
        same_rank(a, b) <==> rank_key(a) == rank_key(b),
        !ranks_before(b, a) <==> key_leq(rank_key(a), rank_key(b)),
{
}

/// The order of the keys is a total order.
pub proof fn lemma_key_order_total()
    ensures
        total_ordering(|a: RankKey, b: RankKey| key_leq(a, b)),
{
    let leq = |a: RankKey, b: RankKey| key_leq(a, b);
    assert forall|x: RankKey| #[trigger] leq(x, x) by {}
    assert forall|x: RankKey, y: RankKey| #[trigger] leq(x, y) && #[trigger] leq(y, x) implies x == y by {}
    assert forall|x: RankKey, y: RankKey, z: RankKey| #[trigger] leq(x, y) && #[trigger] leq(y, z) implies leq(
        x,
        z,
    ) by {}
    assert forall|x: RankKey, y: RankKey| #[trigger] leq(x, y) || #[trigger] leq(y, x) by {}
}

/// Two arrangements of the same items have the same images under any
/// function, counted with multiplicity.
pub proof fn lemma_images_of_same_items<A, B>(a: Seq<A>, b: Seq<A>, f: spec_fn(A) -> B)
    requires
        a.to_multiset() == b.to_multiset(),
    ensures
        a.len() == b.len(),
        a.map_values(f).to_multiset() == b.map_values(f).to_multiset(),
    decreases a.len(),
{
    to_multiset_len(a);
    to_multiset_len(b);
    if a.len() == 0 {
        assert(a.map_values(f) =~= b.map_values(f));
    } else {
        let x = a.last();
        assert(a.contains(x));
        to_multiset_contains(a, x);
        to_multiset_contains(b, x);
        let i = choose|i: int| 0 <= i < b.len() && b[i] == x;
        let a1 = a.drop_last();
        let b1 = b.remove(i);
        assert(a1 =~= a.remove(a.len() - 1));
        to_multiset_remove(a, a.len() - 1);
        to_multiset_remove(b, i);
        lemma_images_of_same_items(a1, b1, f);
        let fa = a.map_values(f);
        let fb = b.map_values(f);
        assert(a1.map_values(f) =~= fa.remove(fa.len() - 1));
        assert(b1.map_values(f) =~= fb.remove(i));
        to_multiset_remove(fa, fa.len() - 1);
        to_multiset_remove(fb, i);
        assert(fa[fa.len() - 1] == f(x));
        assert(fb[i] == f(x));
        assert(fa.contains(f(x)));
        assert(fb.contains(f(x)));
        to_multiset_contains(fa, f(x));
        to_multiset_contains(fb, f(x));
        assert(fa.to_multiset() =~= fa.to_multiset().remove(f(x)).insert(f(x)));
        assert(fb.to_multiset() =~= fb.to_multiset().remove(f(x)).insert(f(x)));
    }
}

/// Ranking is determined: two arrangements of the same peers that are both
/// in the order of preference agree, place for place, in everything that
/// the order looks at. They can differ only in which of several peers of
/// the same rank stands where.
pub proof fn lemma_ranking_determined(a: Seq<PeerView>, b: Seq<PeerView>)
    requires
        ranked(a),
        ranked(b),
        a.to_multiset() == b.to_multiset(),
    ensures
        a.len() == b.len(),
        forall|i: int| 0 <= i < a.len() ==> same_rank(#[trigger] a[i], b[i]),
{
    let key = |peer: PeerView| rank_key(peer);
    let leq = |x: RankKey, y: RankKey| key_leq(x, y);
    lemma_images_of_same_items(a, b, key);
    lemma_key_order_total();
    let ka = a.map_values(key);
    let kb = b.map_values(key);
    assert(sorted_by(ka, leq)) by {
        assert forall|i: int, j: int| 0 <= i < j < ka.len() implies #[trigger] leq(ka[i], ka[j]) by {
            assert(!ranks_before(a[j], a[i]));
            lemma_rank_by_key(a[i], a[j]);
        }
    }
    assert(sorted_by(kb, leq)) by {
        assert forall|i: int, j: int| 0 <= i < j < kb.len() implies #[trigger] leq(kb[i], kb[j]) by {
            assert(!ranks_before(b[j], b[i]));
            lemma_rank_by_key(b[i], b[j]);
        }
    }
    lemma_sorted_unique(ka, kb, leq);
    assert forall|i: int| 0 <= i < a.len() implies same_rank(#[trigger] a[i], b[i]) by {
        assert(ka[i] == kb[i]);
        lemma_rank_by_key(a[i], b[i]);
    }
}

/// Ranking a fleet in which no two peers share an address has one outcome:
/// two arrangements of the same peers that are both in the order of
/// preference are the same arrangement.
pub proof fn lemma_ranking_unique(a: Seq<PeerView>, b: Seq<PeerView>)
    requires
        ranked(a),
        ranked(b),
        a.to_multiset() == b.to_multiset(),
        forall|i: int, j: int|
            0 <= i < j < a.len() ==> (#[trigger] a[i]).external_llamacpp_addr != (
            #[trigger] a[j]).external_llamacpp_addr,
    ensures
        a == b,
{
    lemma_ranking_determined(a, b);
    assert forall|i: int| 0 <= i < a.len() implies a[i] == b[i] by {
        assert(b.contains(b[i]));
        to_multiset_contains(b, b[i]);
        to_multiset_contains(a, b[i]);
        let k = choose|k: int| 0 <= k < a.len() && a[k] == b[i];
        assert(same_rank(a[i], b[i]));
        if k < i {
            assert(a[k].external_llamacpp_addr != a[i].external_llamacpp_addr);
        }
        if i < k {
            assert(a[i].external_llamacpp_addr != a[k].external_llamacpp_addr);
        }
    }
    assert(a =~= b);
}

} // verus!
