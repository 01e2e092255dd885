use rand::seq::SliceRandom;
use vstd::prelude::*;

verus! {

broadcast use {
    vstd::seq_lib::group_to_multiset_ensures,
    vstd::multiset::group_multiset_axioms,
    vstd::seq_lib::lemma_multiset_commutative,
};

/// The random number generator of the `rand` crate, carried through as it is.
#[verifier::external_type_specification]
#[verifier::external_body]
pub struct ExThreadRng(rand::rngs::ThreadRng);

/// Calls `rand::thread_rng`, which hands out the thread's random number
/// generator (seeding it from the operating system on first use, and
/// panicking if that source fails). Nothing is stated of it.
#[verifier::external_body]
fn thread_rng() -> rand::rngs::ThreadRng {
    rand::thread_rng()
}

/// Calls `SliceRandom::shuffle`, which swaps each item with one at or below
/// it, chosen at random: the items are the same afterwards, in an order
/// that is not stated.
#[verifier::external_body]
fn shuffle(v: &mut Vec<usize>, rng: &mut rand::rngs::ThreadRng)
    ensures
        final(v)@.to_multiset() == old(v)@.to_multiset(),
{
    v.shuffle(rng)
}

/// The dash nodes of a sentence as plain values: whether node `i` may be
/// joined to node `j` (seen from `i`), and whether two nodes share a letter
/// centre.
pub struct NodeGraph {
    pub compat: Vec<Vec<bool>>,
    pub same_center: Vec<Vec<bool>>,
}

impl NodeGraph {
    /// The number of nodes.
    pub open spec fn size(&self) -> nat {
        self.compat@.len()
    }

    /// Both relations are square over the nodes.
    pub open spec fn wf(&self) -> bool {
        &&& self.same_center@.len() == self.compat@.len()
        &&& forall|i: int| 0 <= i < self.size() ==> (#[trigger] self.compat@[i])@.len() == self.size()
        &&& forall|i: int| 0 <= i < self.size() ==> (#[trigger] self.same_center@[i])@.len() == self.size()
    }

    /// Whether node `i` accepts being joined to node `j`.
    pub open spec fn test(&self, i: usize, j: usize) -> bool {
        self.compat@[i as int]@[j as int]
    }

    /// Whether nodes `i` and `j` share a letter centre.
    pub open spec fn same(&self, i: usize, j: usize) -> bool {
        self.same_center@[i as int]@[j as int]
    }
}

/// The nodes of `pairs`, pair after pair.
pub open spec fn pair_nodes(pairs: Seq<(usize, usize)>) -> Seq<usize>
    decreases pairs.len(),
{
    if pairs.len() == 0 {
        Seq::empty()
    } else {
        pair_nodes(pairs.drop_last()) + seq![pairs.last().0, pairs.last().1]
    }
}

/// No pair of `pairs` already joins the letters of `a` and `b`.
pub open spec fn unique_pair(g: NodeGraph, a: usize, b: usize, pairs: Seq<(usize, usize)>) -> bool {
    forall|k: int|
        0 <= k < pairs.len() ==> !((g.same(a, (#[trigger] pairs[k]).0) && g.same(b, pairs[k].1)) || (g.same(
            b,
            pairs[k].0,
        ) && g.same(a, pairs[k].1)))
}

/// Every pair joins two nodes that accept each other and lie on different
/// letter centres, and no pair joins the same two letters as an earlier one.
pub open spec fn good_pairs(g: NodeGraph, pairs: Seq<(usize, usize)>) -> bool {
    forall|k: int|
        0 <= k < pairs.len() ==> {
            &&& (#[trigger] pairs[k]).0 < g.size()
            &&& pairs[k].1 < g.size()
            &&& g.test(pairs[k].0, pairs[k].1)
            &&& g.test(pairs[k].1, pairs[k].0)
            &&& !g.same(pairs[k].0, pairs[k].1)
            &&& unique_pair(g, pairs[k].0, pairs[k].1, pairs.take(k))
        }
}

/// Whether every entry of `s` is a node of `g`.
pub open spec fn all_nodes(g: NodeGraph, s: Seq<usize>) -> bool {
    forall|k: int| 0 <= k < s.len() ==> (#[trigger] s[k]) < g.size()
}

/// One pass of pairing over the nodes in `order`, from index `i`: the last
/// spare node is paired with the next node where both accept each other, lie
/// on different letter centres and their letters are not joined yet, and the node after a new pair becomes
/// the next candidate; otherwise both stay spare.
pub open spec fn pass_from(
    g: NodeGraph,
    order: Seq<usize>,
    i: int,
    spare: Seq<usize>,
    pairs: Seq<(usize, usize)>,
) -> (Seq<usize>, Seq<(usize, usize)>)
    decreases order.len() - i,
{
    if i < 0 || i >= order.len() || spare.len() == 0 {
        (spare, pairs)
    } else {
        let node2 = order[i];
        let node1 = spare.last();
        if g.test(node1, node2) && g.test(node2, node1) && !g.same(node1, node2) && unique_pair(g, node1, node2, pairs) {
            if i + 1 < order.len() {
                pass_from(g, order, i + 2, spare.drop_last().push(order[i + 1]), pairs.push((node1, node2)))
            } else {
                (spare.drop_last(), pairs.push((node1, node2)))
            }
        } else {
            pass_from(g, order, i + 1, spare.push(node2), pairs)
        }
    }
}

/// Whether the letters of `node1` and `node2` are not joined by any pair yet.
fn unique_pair_test(g: &NodeGraph, node1: usize, node2: usize, pair_vec: &Vec<(usize, usize)>) -> (r: bool)
    requires
        g.wf(),
        node1 < g.size(),
        node2 < g.size(),
        all_nodes(*g, pair_nodes(pair_vec@)),
    ensures
        r == unique_pair(*g, node1, node2, pair_vec@),
{
    let mut k: usize = 0;
    while k < pair_vec.len()
        invariant
            g.wf(),
            node1 < g.size(),
            node2 < g.size(),
            all_nodes(*g, pair_nodes(pair_vec@)),
            k <= pair_vec.len(),
            unique_pair(*g, node1, node2, pair_vec@.take(k as int)),
        decreases pair_vec.len() - k,
    {
        let (a, b) = pair_vec[k];
        proof {
            lemma_pair_nodes_index(pair_vec@, k as int);
        }
        if (g.same_center[node1][a] && g.same_center[node2][b]) || (g.same_center[node2][a]
            && g.same_center[node1][b]) {
            assert(pair_vec@.take(k + 1)[k as int] == pair_vec@[k as int]);
            assert(!unique_pair(*g, node1, node2, pair_vec@)) by {
                assert(pair_vec@[k as int] == (a, b));
            }
            return false;
        }
        assert forall|j: int| 0 <= j < k + 1 implies !((g.same(node1, (#[trigger] pair_vec@.take(k + 1)[j]).0)
            && g.same(node2, pair_vec@.take(k + 1)[j].1)) || (g.same(node2, pair_vec@.take(k + 1)[j].0) && g.same(
            node1,
            pair_vec@.take(k + 1)[j].1,
        ))) by {
            if j < k {
                assert(pair_vec@.take(k + 1)[j] == pair_vec@.take(k as int)[j]);
            }
        }
        k += 1;
    }
    assert(pair_vec@.take(pair_vec.len() as int) =~= pair_vec@);
    true
}

/// The nodes of the `k`-th pair are in `pair_nodes` at `2k` and `2k + 1`.
pub proof fn lemma_pair_nodes_index(pairs: Seq<(usize, usize)>, k: int)
    requires
        0 <= k < pairs.len(),
    ensures
        pair_nodes(pairs).len() == 2 * pairs.len(),
        pair_nodes(pairs)[2 * k] == pairs[k].0,
        pair_nodes(pairs)[2 * k + 1] == pairs[k].1,
    decreases pairs.len(),
{
    lemma_pair_nodes_len(pairs);
    if k < pairs.len() - 1 {
        lemma_pair_nodes_index(pairs.drop_last(), k);
    }
}

proof fn lemma_pair_nodes_len(pairs: Seq<(usize, usize)>)
    ensures
        pair_nodes(pairs).len() == 2 * pairs.len(),
    decreases pairs.len(),
{
    if pairs.len() > 0 {
        lemma_pair_nodes_len(pairs.drop_last());
    }
}

/// Pairs the nodes of `order` in one pass (see `pass_from`), adding the new
/// pairs to `pair_list`; returns the nodes left spare.
pub fn pair_pass(g: &NodeGraph, order: Vec<usize>, pair_list: &mut Vec<(usize, usize)>) -> (new_spare: Vec<usize>)
    requires
        g.wf(),
        order@.len() > 0,
        all_nodes(*g, order@),
        all_nodes(*g, pair_nodes(old(pair_list)@)),
        good_pairs(*g, old(pair_list)@),
    ensures
        (new_spare@, final(pair_list)@) == pass_from(*g, order@, 1, seq![order@[0]], old(pair_list)@),
        good_pairs(*g, final(pair_list)@),
        all_nodes(*g, new_spare@),
        all_nodes(*g, pair_nodes(final(pair_list)@)),
        final(pair_list)@.len() >= old(pair_list)@.len(),
        final(pair_list)@.take(old(pair_list)@.len() as int) == old(pair_list)@,
        (pair_nodes(final(pair_list)@) + new_spare@).to_multiset() == (pair_nodes(old(pair_list)@)
            + order@).to_multiset(),
{
    let ghost old_pairs = pair_list@;
    let ghost target = pass_from(*g, order@, 1, seq![order@[0]], old_pairs);
    let ghost total = (pair_nodes(old_pairs) + order@).to_multiset();
    let n = order.len();
    let mut new_spare: Vec<usize> = Vec::new();
    new_spare.push(order[0]);
    let mut i: usize = 1;
    proof {
        assert(order@ =~= seq![order@[0]] + order@.skip(1));
        assert(pair_nodes(old_pairs) + new_spare@ + order@.skip(1) =~= pair_nodes(old_pairs) + order@);
        assert(old_pairs.take(old_pairs.len() as int) =~= old_pairs);
    }
    while i < n
        invariant
            g.wf(),
            n == order@.len(),
            1 <= i <= n,
            new_spare@.len() > 0 || i == n,
            pass_from(*g, order@, i as int, new_spare@, pair_list@) == target,
            all_nodes(*g, order@),
            all_nodes(*g, new_spare@),
            all_nodes(*g, pair_nodes(pair_list@)),
            good_pairs(*g, pair_list@),
            pair_list@.len() >= old_pairs.len(),
            pair_list@.take(old_pairs.len() as int) == old_pairs,
            (pair_nodes(pair_list@) + new_spare@ + order@.skip(i as int)).to_multiset() == total,
        decreases n - i,
    {
        let node2 = order[i];
        let ghost spare0 = new_spare@;
        let ghost pairs0 = pair_list@;
        let node1 = new_spare.pop().unwrap();
        assert(spare0 == new_spare@.push(node1));
        assert(order@.skip(i as int) =~= seq![node2] + order@.skip(i + 1));
        if g.compat[node1][node2] && g.compat[node2][node1] && !g.same_center[node1][node2] && unique_pair_test(
            g,
            node1,
            node2,
            pair_list,
        ) {
            pair_list.push((node1, node2));
            proof {
                let p1 = pair_list@;
                assert(p1.drop_last() == pairs0);
                assert(pair_nodes(p1) == pair_nodes(pairs0) + seq![node1, node2]);
                assert(p1.take(old_pairs.len() as int) =~= pairs0.take(old_pairs.len() as int));
                assert forall|k: int| 0 <= k < p1.len() implies {
                    &&& (#[trigger] p1[k]).0 < g.size()
                    &&& p1[k].1 < g.size()
                    &&& g.test(p1[k].0, p1[k].1)
                    &&& g.test(p1[k].1, p1[k].0)
                    &&& !g.same(p1[k].0, p1[k].1)
                    &&& unique_pair(*g, p1[k].0, p1[k].1, p1.take(k))
                } by {
                    if k < pairs0.len() {
                        assert(p1[k] == pairs0[k]);
                        assert(p1.take(k) =~= pairs0.take(k));
                    } else {
                        assert(p1.take(k) =~= pairs0);
                    }
                }
                assert forall|k: int| 0 <= k < pair_nodes(p1).len() implies (#[trigger] pair_nodes(p1)[k])
                    < g.size() by {
                    if k >= pair_nodes(pairs0).len() {
                        assert(pair_nodes(p1)[k] == seq![node1, node2][k - pair_nodes(pairs0).len()]);
                    } else {
                        assert(pair_nodes(p1)[k] == pair_nodes(pairs0)[k]);
                    }
                }
            }
            if i + 1 < n {
                let next = order[i + 1];
                new_spare.push(next);
                proof {
                    assert(order@.skip(i + 1) =~= seq![next] + order@.skip(i + 2));
                    assert((pair_nodes(pair_list@) + new_spare@ + order@.skip(i + 2)).to_multiset()
                        =~= (pair_nodes(pairs0) + spare0 + order@.skip(i as int)).to_multiset()) by {
                        assert(pair_nodes(pair_list@) + new_spare@ + order@.skip(i + 2) =~= pair_nodes(pairs0)
                            + seq![node1, node2] + new_spare@.drop_last().push(next) + order@.skip(i + 2));
                        assert(pair_nodes(pairs0) + spare0 + order@.skip(i as int) =~= pair_nodes(pairs0)
                            + new_spare@.drop_last().push(node1) + (seq![node2] + (seq![next] + order@.skip(
                            i + 2))));
                        lemma_ms_swap(pair_nodes(pairs0), new_spare@.drop_last(), node1, node2, next, order@.skip(i + 2));
                    }
                }
                i += 2;
            } else {
                proof {
                    assert(order@.skip(i + 1) =~= Seq::<usize>::empty());
                    assert(order@.skip(n as int) =~= Seq::<usize>::empty());
                    assert(pair_nodes(pair_list@) + new_spare@ + order@.skip(n as int) =~= pair_nodes(pairs0)
                        + seq![node1, node2] + new_spare@);
                    assert(pair_nodes(pairs0) + spare0 + order@.skip(i as int) =~= pair_nodes(pairs0) + new_spare@.push(node1) + seq![node2]);
                    lemma_ms_pair_moved(pair_nodes(pairs0), new_spare@, node1, node2);
                }
                i = n;
            }
        } else {
            new_spare.push(node1);
            new_spare.push(node2);
            proof {
                assert(new_spare@ =~= spare0.push(node2));
                assert(pair_nodes(pair_list@) + new_spare@ + order@.skip(i + 1) =~= pair_nodes(pairs0) + spare0
                    + order@.skip(i as int));
            }
            i += 1;
        }
    }
    proof {
        assert(order@.skip(n as int) =~= Seq::<usize>::empty());
        assert(pair_nodes(pair_list@) + new_spare@ + order@.skip(n as int) =~= pair_nodes(pair_list@) + new_spare@);
    }
    new_spare
}

proof fn lemma_ms_swap(p: Seq<usize>, s: Seq<usize>, n1: usize, n2: usize, next: usize, r: Seq<usize>)
    ensures
        (p + seq![n1, n2] + s.push(next) + r).to_multiset() =~= (p + s.push(n1) + (seq![n2] + (seq![next]
            + r))).to_multiset(),
{
    assert((p + seq![n1, n2] + s.push(next) + r).to_multiset() =~= p.to_multiset().add(seq![n1, n2].to_multiset()).add(
        s.push(next).to_multiset(),
    ).add(r.to_multiset()));
    assert((p + s.push(n1) + (seq![n2] + (seq![next] + r))).to_multiset() =~= p.to_multiset().add(
        s.push(n1).to_multiset(),
    ).add(seq![n2].to_multiset().add(seq![next].to_multiset().add(r.to_multiset()))));
    assert(seq![n1, n2] =~= seq![n1].push(n2));
    assert(seq![n1] =~= Seq::<usize>::empty().push(n1));
    assert(seq![n2] =~= Seq::<usize>::empty().push(n2));
    assert(seq![next] =~= Seq::<usize>::empty().push(next));
}

proof fn lemma_ms_pair_moved(p: Seq<usize>, s: Seq<usize>, n1: usize, n2: usize)
    ensures
        (p + seq![n1, n2] + s).to_multiset() =~= (p + s.push(n1) + seq![n2]).to_multiset(),
{
    assert((p + seq![n1, n2] + s).to_multiset() =~= p.to_multiset().add(seq![n1, n2].to_multiset()).add(
        s.to_multiset(),
    ));
    assert((p + s.push(n1) + seq![n2]).to_multiset() =~= p.to_multiset().add(s.push(n1).to_multiset()).add(
        seq![n2].to_multiset(),
    ));
    assert(seq![n1, n2] =~= seq![n1].push(n2));
    assert(seq![n1] =~= Seq::<usize>::empty().push(n1));
    assert(seq![n2] =~= Seq::<usize>::empty().push(n2));
}

/// Shuffles the spare nodes at random and pairs them in one pass, adding the
/// new pairs to `pair_list`; returns the nodes left spare. The outcome is that
/// of a pass (`pass_from`) over some order of the nodes given; whatever the
/// order, every node given is now in a new pair or spare, once, and the new
/// pairs join nodes that accept each other and letters not joined before.
pub fn base_loop(
    g: &NodeGraph,
    spare_list: Vec<usize>,
    pair_list: &mut Vec<(usize, usize)>,
    rng: &mut rand::rngs::ThreadRng,
) -> (new_spare: Vec<usize>)
    requires
        g.wf(),
        spare_list@.len() > 0,
        all_nodes(*g, spare_list@),
        all_nodes(*g, pair_nodes(old(pair_list)@)),
        good_pairs(*g, old(pair_list)@),
    ensures
        good_pairs(*g, final(pair_list)@),
        all_nodes(*g, new_spare@),
        all_nodes(*g, pair_nodes(final(pair_list)@)),
        final(pair_list)@.len() >= old(pair_list)@.len(),
        final(pair_list)@.take(old(pair_list)@.len() as int) == old(pair_list)@,
        (pair_nodes(final(pair_list)@) + new_spare@).to_multiset() == (pair_nodes(old(pair_list)@)
            + spare_list@).to_multiset(),
        exists|order: Seq<usize>|
            #![trigger pass_from(*g, order, 1, seq![order[0]], old(pair_list)@)]
            order.to_multiset() == spare_list@.to_multiset() && order.len() > 0 && (new_spare@, final(pair_list)@)
                == pass_from(*g, order, 1, seq![order[0]], old(pair_list)@),
{
    let ghost orig = spare_list@;
    let mut order = spare_list;
    shuffle(&mut order, rng);
    proof {
        assert(order@.to_multiset() == orig.to_multiset());
        assert(order@.to_multiset().len() == orig.to_multiset().len());
        assert(order@.len() == orig.len());
        assert forall|k: int| 0 <= k < order@.len() implies (#[trigger] order@[k]) < g.size() by {
            assert(order@.contains(order@[k]));
            assert(order@.to_multiset().count(order@[k]) > 0);
            assert(orig.contains(order@[k]));
        }
        assert((pair_nodes(pair_list@) + order@).to_multiset() =~= (pair_nodes(pair_list@)
            + orig).to_multiset());
    }
    pair_pass(g, order, pair_list)
}

/// The spare nodes and the pairs after one pass over the order `order`
/// (see `pass_from`), with the pairs `pairs` made before.
pub open spec fn one_pass(g: NodeGraph, order: Seq<usize>, pairs: Seq<(usize, usize)>) -> (
    Seq<usize>,
    Seq<(usize, usize)>,
) {
    pass_from(g, order, 1, seq![order[0]], pairs)
}

/// The spare nodes and the pairs after passes over the orders `orders`, in
/// turn, starting from the spare nodes `start` and no pairs.
pub open spec fn passes(g: NodeGraph, start: Seq<usize>, orders: Seq<Seq<usize>>) -> (Seq<usize>, Seq<(usize, usize)>)
    decreases orders.len(),
{
    if orders.len() == 0 {
        (start, Seq::empty())
    } else {
        one_pass(g, orders.last(), passes(g, start, orders.drop_last()).1)
    }
}

/// Whether each order of `orders` is a reordering of the nodes left spare
/// before its pass, and a pass after the first came only where more than
/// one node was spare.
pub open spec fn passes_valid(g: NodeGraph, start: Seq<usize>, orders: Seq<Seq<usize>>) -> bool {
    forall|k: int|
        0 <= k < orders.len() ==> {
            &&& (#[trigger] orders[k]).to_multiset() == passes(g, start, orders.take(k)).0.to_multiset()
            &&& orders[k].len() > 0
            &&& (k > 0 ==> passes(g, start, orders.take(k)).0.len() > 1)
        }
}

proof fn lemma_pass_from_keeps_pairs(
    g: NodeGraph,
    order: Seq<usize>,
    i: int,
    spare: Seq<usize>,
    pairs: Seq<(usize, usize)>,
)
    ensures
        pass_from(g, order, i, spare, pairs).1.len() >= pairs.len(),
    decreases order.len() - i,
{
    if i < 0 || i >= order.len() || spare.len() == 0 {
    } else {
        let node2 = order[i];
        let node1 = spare.last();
        if g.test(node1, node2) && g.test(node2, node1) && !g.same(node1, node2) && unique_pair(g, node1, node2, pairs) {
            if i + 1 < order.len() {
                lemma_pass_from_keeps_pairs(g, order, i + 2, spare.drop_last().push(order[i + 1]), pairs.push((node1, node2)));
            }
        } else {
            lemma_pass_from_keeps_pairs(g, order, i + 1, spare.push(node2), pairs);
        }
    }
}

/// Where every two nodes accept each other, the first pass over two or more
/// nodes, of which the first two lie on different letter centres, makes a
/// pair.
pub proof fn lemma_first_pass_pairs(g: NodeGraph, order: Seq<usize>)
    requires
        order.len() >= 2,
        !g.same(order[0], order[1]),
        all_nodes(g, order),
        forall|i: usize, j: usize| i < g.size() && j < g.size() ==> #[trigger] g.test(i, j),
    ensures
        one_pass(g, order, Seq::empty()).1.len() >= 1,
{
    let node1 = order[0];
    let node2 = order[1];
    assert(g.test(node1, node2) && g.test(node2, node1));
    assert(unique_pair(g, node1, node2, Seq::empty()));
    assert(seq![order[0]].last() == node1);
    if order.len() > 2 {
        lemma_pass_from_keeps_pairs(g, order, 3, seq![order[0]].drop_last().push(order[2]), Seq::<(usize, usize)>::empty().push((node1, node2)));
    }
}

/// The nodes `0..n`.
pub open spec fn node_range(n: nat) -> Seq<usize> {
    Seq::new(n, |i: int| i as usize)
}

/// Pairs the dash nodes of a sentence at random: repeated passes over the
/// spare nodes, each in a fresh random order, until at most one node is
/// spare or the passes run out (one more pass than half the nodes, plus
/// the first). The outcome is that of such passes over some sequence of
/// orders (`passes`), each a reordering of the nodes then spare. Whatever
/// the orders: every node is in exactly one pair or spare; every pair joins
/// two nodes that accept each other; no two pairs join the same two
/// letters. With fewer than two nodes there is no pair.
pub fn generate_pairs(g: &NodeGraph) -> (r: (Vec<(usize, usize)>, Vec<usize>))
    requires
        g.wf(),
    ensures
        (pair_nodes(r.0@) + r.1@).to_multiset() == node_range(g.size()).to_multiset(),
        good_pairs(*g, r.0@),
        g.size() <= 1 ==> r.0@.len() == 0 && r.1@ == node_range(g.size()),
        g.size() > 1 ==> exists|orders: Seq<Seq<usize>>|
            #![trigger passes(*g, node_range(g.size()), orders)]
            {
                &&& passes_valid(*g, node_range(g.size()), orders)
                &&& 1 <= orders.len() <= g.size() / 2 + 2
                &&& (r.1@, r.0@) == passes(*g, node_range(g.size()), orders)
                &&& (r.1@.len() <= 1 || orders.len() == g.size() / 2 + 2)
            },
{
    let length = g.compat.len();
    let mut node_vec: Vec<usize> = Vec::new();
    let mut j: usize = 0;
    while j < length
        invariant
            length == g.size(),
            j <= length,
            node_vec@ == node_range(j as nat),
        decreases length - j,
    {
        node_vec.push(j);
        assert(node_vec@ =~= node_range((j + 1) as nat));
        j += 1;
    }
    let mut pair_list: Vec<(usize, usize)> = Vec::new();
    assert(pair_nodes(pair_list@) + node_vec@ =~= node_vec@);
    if length <= 1 {
        return (pair_list, node_vec);
    }
    let mut rng = thread_rng();
    let limit = length / 2 + 1;
    let mut retries: usize = 0;
    let ghost start = node_vec@;
    let ghost empty_pairs = pair_list@;
    let mut spare_list = base_loop(g, node_vec, &mut pair_list, &mut rng);
    let ghost first = choose|order: Seq<usize>|
        #![trigger pass_from(*g, order, 1, seq![order[0]], empty_pairs)]
        order.to_multiset() == start.to_multiset() && order.len() > 0 && (spare_list@, pair_list@) == pass_from(
            *g,
            order,
            1,
            seq![order[0]],
            empty_pairs,
        );
    let ghost mut orders: Seq<Seq<usize>> = seq![first];
    proof {
        assert(orders.drop_last() =~= Seq::<Seq<usize>>::empty());
        assert(empty_pairs =~= Seq::<(usize, usize)>::empty());
        assert(orders.take(0) =~= Seq::<Seq<usize>>::empty());
        assert(passes_valid(*g, start, orders));
    }
    while spare_list.len() > 1 && retries < limit
        invariant
            g.wf(),
            start == node_range(g.size()),
            limit == g.size() / 2 + 1,
            all_nodes(*g, spare_list@),
            all_nodes(*g, pair_nodes(pair_list@)),
            good_pairs(*g, pair_list@),
            (pair_nodes(pair_list@) + spare_list@).to_multiset() == node_range(g.size()).to_multiset(),
            passes_valid(*g, start, orders),
            orders.len() == retries + 1,
            retries <= limit,
            (spare_list@, pair_list@) == passes(*g, start, orders),
        decreases limit - retries,
    {
        let ghost before_spare = spare_list@;
        let ghost before_pairs = pair_list@;
        spare_list = base_loop(g, spare_list, &mut pair_list, &mut rng);
        proof {
            let order = choose|order: Seq<usize>|
                #![trigger pass_from(*g, order, 1, seq![order[0]], before_pairs)]
                order.to_multiset() == before_spare.to_multiset() && order.len() > 0 && (spare_list@, pair_list@)
                    == pass_from(*g, order, 1, seq![order[0]], before_pairs);
            let old_orders = orders;
            orders = orders.push(order);
            assert(orders.drop_last() =~= old_orders);
            assert(orders.take(old_orders.len() as int) =~= old_orders);
            assert forall|k: int| 0 <= k < orders.len() implies {
                &&& (#[trigger] orders[k]).to_multiset() == passes(*g, start, orders.take(k)).0.to_multiset()
                &&& orders[k].len() > 0
                &&& (k > 0 ==> passes(*g, start, orders.take(k)).0.len() > 1)
            } by {
                if k < old_orders.len() {
                    assert(orders.take(k) =~= old_orders.take(k));
                    assert(orders[k] == old_orders[k]);
                }
            }
        }
        retries += 1;
    }
    (pair_list, spare_list)
}

} // verus!
