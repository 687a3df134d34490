//! Pairing the ports of two nodes for a loopback link.
use crate::order::{
    in_rank_order, lemma_sorted_by_rank_contains, lemma_sorted_by_rank_items,
    lemma_sorted_by_rank_ordered, sort_by_rank, sorted_by_rank, Ranked,
};
use crate::registry::{AudioChannel, GraphPort};
use crate::search::{first_index, lemma_first_index_at, lemma_first_index_facts, lemma_first_index_none};
use vstd::multiset::Multiset;
use vstd::prelude::*;

verus! {

impl Ranked for GraphPort {
    /// Ports go by port id.
    open spec fn before(&self, other: &GraphPort) -> bool {
        self.port_id < other.port_id
    }

    fn comes_before(&self, other: &GraphPort) -> (r: bool) {
        self.port_id < other.port_id
    }

    proof fn before_irreflexive(a: &GraphPort) {
    }

    proof fn before_transitive(a: &GraphPort, b: &GraphPort, c: &GraphPort) {
    }
}

/// Every port names its channel.
pub open spec fn all_have_channels(ports: Seq<GraphPort>) -> bool {
    forall|i: int| 0 <= i < ports.len() ==> (#[trigger] ports[i]).channel is Some
}

/// The targets that `src` pairs with: the same channel when channels are
/// used, the same port id otherwise.
pub open spec fn pairs_with(src: GraphPort, use_channel: bool) -> spec_fn(GraphPort) -> bool {
    |t: GraphPort|
        (use_channel && src.channel == t.channel) || (!use_channel && src.port_id == t.port_id)
}

/// Each source in turn takes the first remaining target that it pairs
/// with; a source without one is left out.
pub open spec fn greedy_pairs(srcs: Seq<GraphPort>, tgts: Seq<GraphPort>, use_channel: bool) -> Seq<
    (GraphPort, GraphPort),
>
    decreases srcs.len(),
{
    if srcs.len() == 0 {
        Seq::empty()
    } else {
        let s = srcs[0];
        match first_index(tgts, pairs_with(s, use_channel)) {
            Some(i) => seq![(s, tgts[i])] + greedy_pairs(srcs.drop_first(), tgts.remove(i), use_channel),
            None => greedy_pairs(srcs.drop_first(), tgts, use_channel),
        }
    }
}

/// The pairs of a loopback: both sides in order of port id, matched by
/// channel when every port names one, by port id otherwise.
pub open spec fn pairing_spec(sources: Seq<GraphPort>, targets: Seq<GraphPort>) -> Seq<(GraphPort, GraphPort)> {
    let s = sorted_by_rank(sources);
    let t = sorted_by_rank(targets);
    greedy_pairs(s, t, all_have_channels(s) && all_have_channels(t))
}

fn copy_graph_ports(ports: &[GraphPort]) -> (r: Vec<GraphPort>)
    ensures
        r@ == ports@,
{
    let mut out: Vec<GraphPort> = Vec::new();
    let mut i: usize = 0;
    while i < ports.len()
        invariant
            i <= ports@.len(),
            out@ == ports@.take(i as int),
        decreases ports@.len() - i,
    {
        out.push(ports[i]);
        proof {
            assert(ports@.take(i + 1) =~= ports@.take(i as int).push(ports@[i as int]));
        }
        i += 1;
    }
    proof {
        assert(ports@.take(ports@.len() as int) =~= ports@);
    }
    out
}

fn have_channels(ports: &Vec<GraphPort>) -> (r: bool)
    ensures
        r == all_have_channels(ports@),
{
    let mut i: usize = 0;
    while i < ports.len()
        invariant
            i <= ports@.len(),
            forall|k: int| 0 <= k < i ==> (#[trigger] ports@[k]).channel is Some,
        decreases ports@.len() - i,
    {
        if ports[i].channel.is_none() {
            return false;
        }
        i += 1;
    }
    true
}

/// The first target that `src` pairs with.
fn position_paired(tgts: &Vec<GraphPort>, src: GraphPort, use_channel: bool) -> (r: Option<usize>)
    ensures
        match r {
            Some(i) => i < tgts@.len() && first_index(tgts@, pairs_with(src, use_channel)) == Some(i as int),
            None => first_index(tgts@, pairs_with(src, use_channel)) is None,
        },
{
    let ghost p = pairs_with(src, use_channel);
    let mut i: usize = 0;
    while i < tgts.len()
        invariant
            i <= tgts@.len(),
            p == pairs_with(src, use_channel),
            forall|j: int| 0 <= j < i ==> !p(#[trigger] tgts@[j]),
        decreases tgts@.len() - i,
    {
        let t = tgts[i];
        if (use_channel && src.channel == t.channel) || (!use_channel && src.port_id == t.port_id) {
            proof {
                assert(p(tgts@[i as int]));
                lemma_first_index_at(tgts@, p, i as int);
            }
            return Some(i);
        }
        proof {
            assert(!p(tgts@[i as int]));
        }
        i += 1;
    }
    proof {
        lemma_first_index_none(tgts@, p);
    }
    None
}

/// Pairs the ports of a loopback: both sides in order of port id, matched
/// by channel when every port names one and by port id otherwise; each
/// target serves one source at most.
pub fn pair_ports_by_channel(sources: &[GraphPort], targets: &[GraphPort]) -> (r: Vec<
    (GraphPort, GraphPort),
>)
    ensures
        r@ == pairing_spec(sources@, targets@),
{
    let srcs = sort_by_rank(copy_graph_ports(sources));
    let mut tgts = sort_by_rank(copy_graph_ports(targets));
    let use_channel = have_channels(&srcs) && have_channels(&tgts);
    let ghost all = greedy_pairs(srcs@, tgts@, use_channel);
    let mut out: Vec<(GraphPort, GraphPort)> = Vec::new();
    let mut k: usize = 0;
    proof {
        assert(srcs@.skip(0) =~= srcs@);
        assert(out@ + all =~= all);
    }
    while k < srcs.len()
        invariant
            k <= srcs@.len(),
            out@ + greedy_pairs(srcs@.skip(k as int), tgts@, use_channel) == all,
        decreases srcs@.len() - k,
    {
        let src = srcs[k];
        let ghost rest = srcs@.skip(k as int);
        let ghost tg = tgts@;
        proof {
            assert(rest[0] == src);
            assert(rest.drop_first() =~= srcs@.skip(k + 1));
        }
        match position_paired(&tgts, src, use_channel) {
            Some(i) => {
                let ghost before = out@;
                let t = tgts.remove(i);
                out.push((src, t));
                proof {
                    assert(greedy_pairs(rest, tg, use_channel) == seq![(src, tg[i as int])] + greedy_pairs(
                        rest.drop_first(),
                        tg.remove(i as int),
                        use_channel,
                    ));
                    assert(out@ + greedy_pairs(srcs@.skip(k + 1), tgts@, use_channel) =~= before
                        + greedy_pairs(rest, tg, use_channel));
                }
            },
            None => {
                proof {
                    assert(greedy_pairs(rest, tg, use_channel) == greedy_pairs(rest.drop_first(), tg, use_channel));
                }
            },
        }
        k += 1;
    }
    proof {
        assert(srcs@.skip(srcs@.len() as int) =~= Seq::<GraphPort>::empty());
        assert(out@ + Seq::<(GraphPort, GraphPort)>::empty() =~= out@);
    }
    out
}

/// Every pair that the greedy matching makes pairs a source with a target
/// that it pairs with, each taken from its side.
proof fn lemma_greedy_pairs_match(srcs: Seq<GraphPort>, tgts: Seq<GraphPort>, use_channel: bool)
    ensures
        forall|k: int|
            0 <= k < greedy_pairs(srcs, tgts, use_channel).len() ==> {
                let p = #[trigger] greedy_pairs(srcs, tgts, use_channel)[k];
                &&& pairs_with(p.0, use_channel)(p.1)
                &&& srcs.contains(p.0)
                &&& tgts.contains(p.1)
            },
    decreases srcs.len(),
{
    if srcs.len() > 0 {
        let s = srcs[0];
        let rest = srcs.drop_first();
        assert forall|x: GraphPort| rest.contains(x) implies srcs.contains(x) by {
            let j = choose|j: int| 0 <= j < rest.len() && rest[j] == x;
            assert(srcs[j + 1] == x);
        }
        lemma_first_index_facts(tgts, pairs_with(s, use_channel));
        match first_index(tgts, pairs_with(s, use_channel)) {
            Some(i) => {
                let left = tgts.remove(i);
                lemma_greedy_pairs_match(rest, left, use_channel);
                assert forall|x: GraphPort| left.contains(x) implies tgts.contains(x) by {
                    let j = choose|j: int| 0 <= j < left.len() && left[j] == x;
                    if j < i {
                        assert(tgts[j] == x);
                    } else {
                        assert(tgts[j + 1] == x);
                    }
                }
                let g = greedy_pairs(srcs, tgts, use_channel);
                let tail = greedy_pairs(rest, left, use_channel);
                assert(g == seq![(s, tgts[i])] + tail);
                assert forall|k: int| 0 <= k < g.len() implies {
                    let p = #[trigger] g[k];
                    &&& pairs_with(p.0, use_channel)(p.1)
                    &&& srcs.contains(p.0)
                    &&& tgts.contains(p.1)
                } by {
                    if k == 0 {
                        assert(srcs[0] == s);
                        assert(g[0] == (s, tgts[i]));
                    } else {
                        assert(g[k] == tail[k - 1]);
                    }
                }
            },
            None => {
                lemma_greedy_pairs_match(rest, tgts, use_channel);
                let g = greedy_pairs(srcs, tgts, use_channel);
                let tail = greedy_pairs(rest, tgts, use_channel);
                assert(g == tail);
                assert forall|k: int| 0 <= k < g.len() implies {
                    let p = #[trigger] g[k];
                    &&& pairs_with(p.0, use_channel)(p.1)
                    &&& srcs.contains(p.0)
                    &&& tgts.contains(p.1)
                } by {
                    assert(g[k] == tail[k]);
                }
            },
        }
    }
}

/// Sorting keeps whether every port names its channel.
proof fn lemma_sorted_channels(ports: Seq<GraphPort>)
    ensures
        all_have_channels(sorted_by_rank(ports)) == all_have_channels(ports),
{
    let s = sorted_by_rank(ports);
    lemma_sorted_by_rank_contains(ports);
    if all_have_channels(ports) {
        assert forall|i: int| 0 <= i < s.len() implies (#[trigger] s[i]).channel is Some by {
            assert(s.contains(s[i]));
            let j = choose|j: int| 0 <= j < ports.len() && ports[j] == s[i];
        }
    }
    if all_have_channels(s) {
        assert forall|i: int| 0 <= i < ports.len() implies (#[trigger] ports[i]).channel
            is Some by {
            assert(ports.contains(ports[i]));
            assert(s.contains(ports[i]));
            let j = choose|j: int| 0 <= j < s.len() && s[j] == ports[i];
            assert(s[j].channel is Some);
        }
    }
}

/// The source ports of the pairs, in order.
pub open spec fn paired_sources(pairs: Seq<(GraphPort, GraphPort)>) -> Seq<GraphPort> {
    pairs.map_values(|p: (GraphPort, GraphPort)| p.0)
}

/// The target ports of the pairs, in order.
pub open spec fn paired_targets(pairs: Seq<(GraphPort, GraphPort)>) -> Seq<GraphPort> {
    pairs.map_values(|p: (GraphPort, GraphPort)| p.1)
}

/// The greedy matching uses each port at most as often as its side holds
/// it, and a source and a target that are both left over never pair.
proof fn lemma_greedy_pairs_uses(srcs: Seq<GraphPort>, tgts: Seq<GraphPort>, use_channel: bool)
    ensures
        ({
            let g = greedy_pairs(srcs, tgts, use_channel);
            let ps = paired_sources(g).to_multiset();
            let pt = paired_targets(g).to_multiset();
            &&& forall|x: GraphPort| #[trigger] ps.count(x) <= srcs.to_multiset().count(x)
            &&& forall|y: GraphPort| #[trigger] pt.count(y) <= tgts.to_multiset().count(y)
            &&& forall|x: GraphPort, y: GraphPort|
                #![trigger ps.count(x), pt.count(y)]
                srcs.to_multiset().count(x) > ps.count(x) && tgts.to_multiset().count(y) > pt.count(y)
                    ==> !pairs_with(x, use_channel)(y)
        }),
    decreases srcs.len(),
{
    broadcast use vstd::multiset::group_multiset_axioms;
    broadcast use vstd::seq_lib::group_to_multiset_ensures;

    if srcs.len() == 0 {
        let g = greedy_pairs(srcs, tgts, use_channel);
        assert(paired_sources(g) =~= Seq::<GraphPort>::empty());
        assert(paired_targets(g) =~= Seq::<GraphPort>::empty());
        assert(srcs.to_multiset() =~= Multiset::<GraphPort>::empty());
    } else {
        let s = srcs[0];
        let rest = srcs.drop_first();
        assert(srcs =~= seq![s] + rest);
        vstd::seq_lib::lemma_multiset_commutative(seq![s], rest);
        assert(seq![s] =~= Seq::<GraphPort>::empty().push(s));
        assert(Seq::<GraphPort>::empty().to_multiset() =~= Multiset::<GraphPort>::empty());
        assert(srcs.to_multiset() =~= rest.to_multiset().insert(s));
        let g = greedy_pairs(srcs, tgts, use_channel);
        lemma_first_index_facts(tgts, pairs_with(s, use_channel));
        match first_index(tgts, pairs_with(s, use_channel)) {
            Some(i) => {
                let left = tgts.remove(i);
                let t = tgts[i];
                lemma_greedy_pairs_uses(rest, left, use_channel);
                let tail = greedy_pairs(rest, left, use_channel);
                assert(g == seq![(s, t)] + tail);
                assert(paired_sources(g) =~= seq![s] + paired_sources(tail));
                assert(paired_targets(g) =~= seq![t] + paired_targets(tail));
                vstd::seq_lib::lemma_multiset_commutative(seq![s], paired_sources(tail));
                vstd::seq_lib::lemma_multiset_commutative(seq![t], paired_targets(tail));
                assert(seq![t] =~= Seq::<GraphPort>::empty().push(t));
                assert(paired_sources(g).to_multiset() =~= paired_sources(tail).to_multiset().insert(s));
                assert(paired_targets(g).to_multiset() =~= paired_targets(tail).to_multiset().insert(t));
                assert(left.to_multiset() == tgts.to_multiset().remove(t));
                assert(tgts.to_multiset().count(t) > 0) by {
                    assert(tgts.contains(t));
                }
                assert(tgts.to_multiset() =~= left.to_multiset().insert(t));
            },
            None => {
                lemma_greedy_pairs_uses(rest, tgts, use_channel);
                let tail = greedy_pairs(rest, tgts, use_channel);
                assert(g == tail);
                let ps = paired_sources(g).to_multiset();
                let pt = paired_targets(g).to_multiset();
                assert forall|x: GraphPort, y: GraphPort|
                    #![trigger ps.count(x), pt.count(y)]
                    srcs.to_multiset().count(x) > ps.count(x) && tgts.to_multiset().count(y) > pt.count(y)
                        implies !pairs_with(x, use_channel)(y) by {
                    if x == s && rest.to_multiset().count(x) <= ps.count(x) {
                        assert(tgts.contains(y));
                        let j = choose|j: int| 0 <= j < tgts.len() && tgts[j] == y;
                        assert(!pairs_with(s, use_channel)(tgts[j]));
                    }
                }
            },
        }
    }
}

/// With the sources in order, the pairs come in the same order.
proof fn lemma_greedy_pairs_ordered(srcs: Seq<GraphPort>, tgts: Seq<GraphPort>, use_channel: bool)
    requires
        in_rank_order(srcs),
    ensures
        ({
            let g = greedy_pairs(srcs, tgts, use_channel);
            forall|k: int, l: int|
                #![trigger g[k], g[l]]
                0 <= k < l < g.len() ==> g[k].0.port_id <= g[l].0.port_id
        }),
    decreases srcs.len(),
{
    if srcs.len() > 0 {
        let s = srcs[0];
        let rest = srcs.drop_first();
        assert(in_rank_order(rest)) by {
            assert forall|i: int, j: int| #![trigger rest[i], rest[j]] 0 <= i < j < rest.len()
                implies !rest[j].before(&rest[i]) by {
                assert(rest[i] == srcs[i + 1] && rest[j] == srcs[j + 1]);
            }
        }
        let g = greedy_pairs(srcs, tgts, use_channel);
        lemma_first_index_facts(tgts, pairs_with(s, use_channel));
        match first_index(tgts, pairs_with(s, use_channel)) {
            Some(i) => {
                let left = tgts.remove(i);
                lemma_greedy_pairs_ordered(rest, left, use_channel);
                lemma_greedy_pairs_match(rest, left, use_channel);
                let tail = greedy_pairs(rest, left, use_channel);
                assert(g == seq![(s, tgts[i])] + tail);
                assert forall|k: int, l: int| #![trigger g[k], g[l]] 0 <= k < l < g.len()
                    implies g[k].0.port_id <= g[l].0.port_id by {
                    assert(g[l] == tail[l - 1]);
                    if k == 0 {
                        assert(rest.contains(tail[l - 1].0));
                        let j = choose|j: int| 0 <= j < rest.len() && rest[j] == tail[l - 1].0;
                        assert(srcs[0] == s && srcs[j + 1] == rest[j]);
                        assert(!srcs[j + 1].before(&srcs[0]));
                    } else {
                        assert(g[k] == tail[k - 1]);
                    }
                }
            },
            None => {
                lemma_greedy_pairs_ordered(rest, tgts, use_channel);
            },
        }
    }
}

/// The loopback pairs use each port at most as often as its side lists it,
/// come in order of source port id, and leave no source and target over
/// that would still pair: by channel when every port on both sides names
/// one, by port id otherwise.
pub proof fn law_pairing_is_greedy_and_complete(sources: Seq<GraphPort>, targets: Seq<GraphPort>)
    ensures
        ({
            let pairs = pairing_spec(sources, targets);
            let use_channel = all_have_channels(sources) && all_have_channels(targets);
            let ps = paired_sources(pairs).to_multiset();
            let pt = paired_targets(pairs).to_multiset();
            &&& forall|x: GraphPort| #[trigger] ps.count(x) <= sources.to_multiset().count(x)
            &&& forall|y: GraphPort| #[trigger] pt.count(y) <= targets.to_multiset().count(y)
            &&& forall|k: int, l: int|
                #![trigger pairs[k], pairs[l]]
                0 <= k < l < pairs.len() ==> pairs[k].0.port_id <= pairs[l].0.port_id
            &&& forall|x: GraphPort, y: GraphPort|
                #![trigger ps.count(x), pt.count(y)]
                sources.to_multiset().count(x) > ps.count(x) && targets.to_multiset().count(y)
                    > pt.count(y) ==> !pairs_with(x, use_channel)(y)
        }),
{
    let s = sorted_by_rank(sources);
    let t = sorted_by_rank(targets);
    lemma_sorted_by_rank_items(sources);
    lemma_sorted_by_rank_items(targets);
    lemma_sorted_by_rank_ordered(sources);
    lemma_sorted_channels(sources);
    lemma_sorted_channels(targets);
    let use_channel = all_have_channels(s) && all_have_channels(t);
    lemma_greedy_pairs_uses(s, t, use_channel);
    lemma_greedy_pairs_ordered(s, t, use_channel);
}

/// Each loopback pair joins a source port to a target port of the same
/// channel when every port on both sides names one, and of the same port
/// id otherwise.
pub proof fn law_pairs_share_channel(sources: Seq<GraphPort>, targets: Seq<GraphPort>)
    ensures
        forall|k: int|
            0 <= k < pairing_spec(sources, targets).len() ==> {
                let p = #[trigger] pairing_spec(sources, targets)[k];
                &&& sources.contains(p.0)
                &&& targets.contains(p.1)
                &&& all_have_channels(sources) && all_have_channels(targets) ==> p.0.channel
                    is Some && p.0.channel == p.1.channel
                &&& !(all_have_channels(sources) && all_have_channels(targets)) ==> p.0.port_id
                    == p.1.port_id
            },
{
    let s = sorted_by_rank(sources);
    let t = sorted_by_rank(targets);
    lemma_sorted_by_rank_contains(sources);
    lemma_sorted_by_rank_contains(targets);
    lemma_sorted_channels(sources);
    lemma_sorted_channels(targets);
    let use_channel = all_have_channels(s) && all_have_channels(t);
    lemma_greedy_pairs_match(s, t, use_channel);
    let g = pairing_spec(sources, targets);
    assert forall|k: int| 0 <= k < g.len() implies {
        let p = #[trigger] g[k];
        &&& sources.contains(p.0)
        &&& targets.contains(p.1)
        &&& all_have_channels(sources) && all_have_channels(targets) ==> p.0.channel is Some
            && p.0.channel == p.1.channel
        &&& !(all_have_channels(sources) && all_have_channels(targets)) ==> p.0.port_id
            == p.1.port_id
    } by {
        let p = g[k];
        assert(s.contains(p.0));
        if use_channel {
            let j = choose|j: int| 0 <= j < s.len() && s[j] == p.0;
        }
    }
}

/// What a port is paired by: its channel when channels are used, its port
/// id otherwise.
pub open spec fn pair_key(p: GraphPort, use_channel: bool) -> (Option<AudioChannel>, u32) {
    if use_channel {
        (p.channel, 0)
    } else {
        (None, p.port_id)
    }
}

/// How many ports of `s` have the key `k`.
pub open spec fn count_key(s: Seq<GraphPort>, use_channel: bool, k: (Option<AudioChannel>, u32)) -> nat
    decreases s.len(),
{
    if s.len() == 0 {
        0
    } else {
        count_key(s.drop_first(), use_channel, k) + if pair_key(s[0], use_channel) == k {
            1nat
        } else {
            0nat
        }
    }
}

proof fn lemma_count_remove(s: Seq<GraphPort>, i: int, u: bool, k: (Option<AudioChannel>, u32))
    requires
        0 <= i < s.len(),
    ensures
        count_key(s, u, k) == count_key(s.remove(i), u, k) + if pair_key(s[i], u) == k {
            1nat
        } else {
            0nat
        },
    decreases i,
{
    if i == 0 {
        assert(s.remove(0) =~= s.drop_first());
    } else {
        lemma_count_remove(s.drop_first(), i - 1, u, k);
        assert(s.remove(i).drop_first() =~= s.drop_first().remove(i - 1));
        assert(s.remove(i)[0] == s[0]);
    }
}

proof fn lemma_count_none(s: Seq<GraphPort>, u: bool, k: (Option<AudioChannel>, u32))
    requires
        forall|j: int| 0 <= j < s.len() ==> pair_key(#[trigger] s[j], u) != k,
    ensures
        count_key(s, u, k) == 0,
    decreases s.len(),
{
    if s.len() > 0 {
        assert forall|j: int| 0 <= j < s.drop_first().len() implies pair_key(
            #[trigger] s.drop_first()[j],
            u,
        ) != k by {
            assert(s.drop_first()[j] == s[j + 1]);
        }
        lemma_count_none(s.drop_first(), u, k);
    }
}

/// Two sequences with the same ports, each as often, have as many ports of
/// each key.
proof fn lemma_count_permutation(a: Seq<GraphPort>, b: Seq<GraphPort>, u: bool, k: (Option<AudioChannel>, u32))
    requires
        a.to_multiset() == b.to_multiset(),
    ensures
        count_key(a, u, k) == count_key(b, u, k),
    decreases a.len(),
{
    broadcast use vstd::multiset::group_multiset_axioms;
    broadcast use vstd::seq_lib::group_to_multiset_ensures;

    if a.len() == 0 {
        vstd::seq_lib::to_multiset_len(a);
        vstd::seq_lib::to_multiset_len(b);
        assert(b.len() == 0);
    } else {
        let x = a[0];
        assert(a =~= seq![x] + a.drop_first());
        vstd::seq_lib::lemma_multiset_commutative(seq![x], a.drop_first());
        assert(seq![x] =~= Seq::<GraphPort>::empty().push(x));
        assert(Seq::<GraphPort>::empty().to_multiset() =~= Multiset::<GraphPort>::empty());
        assert(a.to_multiset() =~= a.drop_first().to_multiset().insert(x));
        assert(b.to_multiset().count(x) > 0);
        assert(b.contains(x));
        let j = choose|j: int| 0 <= j < b.len() && b[j] == x;
        assert(b.remove(j).to_multiset() == b.to_multiset().remove(x));
        assert(a.drop_first().to_multiset() =~= b.remove(j).to_multiset());
        lemma_count_permutation(a.drop_first(), b.remove(j), u, k);
        lemma_count_remove(b, j, u, k);
    }
}

proof fn lemma_greedy_pairs_count(
    srcs: Seq<GraphPort>,
    tgts: Seq<GraphPort>,
    u: bool,
    k: (Option<AudioChannel>, u32),
)
    ensures
        ({
            let a = count_key(srcs, u, k);
            let b = count_key(tgts, u, k);
            count_key(paired_sources(greedy_pairs(srcs, tgts, u)), u, k) == if a < b {
                a
            } else {
                b
            }
        }),
    decreases srcs.len(),
{
    let g = greedy_pairs(srcs, tgts, u);
    if srcs.len() == 0 {
        assert(paired_sources(g) =~= Seq::<GraphPort>::empty());
    } else {
        let s = srcs[0];
        let rest = srcs.drop_first();
        lemma_first_index_facts(tgts, pairs_with(s, u));
        match first_index(tgts, pairs_with(s, u)) {
            Some(i) => {
                let left = tgts.remove(i);
                lemma_greedy_pairs_count(rest, left, u, k);
                lemma_count_remove(tgts, i, u, k);
                let tail = greedy_pairs(rest, left, u);
                assert(g == seq![(s, tgts[i])] + tail);
                assert(paired_sources(g).drop_first() =~= paired_sources(tail));
                assert(paired_sources(g)[0] == s);
                assert(pair_key(tgts[i], u) == pair_key(s, u));
            },
            None => {
                lemma_greedy_pairs_count(rest, tgts, u, k);
                if pair_key(s, u) == k {
                    assert forall|j: int| 0 <= j < tgts.len() implies pair_key(#[trigger] tgts[j], u)
                        != k by {
                        assert(!pairs_with(s, u)(tgts[j]));
                    }
                    lemma_count_none(tgts, u, k);
                }
            },
        }
    }
}

/// For every key, the loopback pairs match as many sources of that key as
/// the smaller side has: the number of pairs whose ports have key `k`
/// (their channel when every port on both sides names one, their port id
/// otherwise) is the lesser of the number of sources and the number of
/// targets with that key.  So the pairs number, over all keys, the sum of
/// those minima.
pub proof fn law_pairing_count(
    sources: Seq<GraphPort>,
    targets: Seq<GraphPort>,
    k: (Option<AudioChannel>, u32),
)
    ensures
        ({
            let u = all_have_channels(sources) && all_have_channels(targets);
            let a = count_key(sources, u, k);
            let b = count_key(targets, u, k);
            count_key(paired_sources(pairing_spec(sources, targets)), u, k) == if a < b {
                a
            } else {
                b
            }
        }),
{
    let s = sorted_by_rank(sources);
    let t = sorted_by_rank(targets);
    lemma_sorted_by_rank_items(sources);
    lemma_sorted_by_rank_items(targets);
    lemma_sorted_channels(sources);
    lemma_sorted_channels(targets);
    let u = all_have_channels(s) && all_have_channels(t);
    lemma_count_permutation(s, sources, u, k);
    lemma_count_permutation(t, targets, u, k);
    lemma_greedy_pairs_count(s, t, u, k);
}

} // verus!
