use vstd::prelude::*;
use crate::gall_struct::{Decor, GallWord, word_dashes};

verus! {

/// A phrase as the dash pairing sees it: its words.
pub struct GallPhrase {
    pub words: Vec<GallWord>,
}

/// Whether `a` (word, syllable, decoration) names a decoration of `p`.
pub open spec fn addr_valid(p: Seq<Seq<Seq<Decor>>>, a: (usize, usize, usize)) -> bool {
    &&& a.0 < p.len()
    &&& a.1 < p[a.0 as int].len()
    &&& a.2 < p[a.0 as int][a.1 as int].len()
}

/// The decoration at `a` in `p`.
pub open spec fn decor_at(p: Seq<Seq<Seq<Decor>>>, a: (usize, usize, usize)) -> Decor {
    p[a.0 as int][a.1 as int][a.2 as int]
}

/// `d` joined to the dash at `b`: no longer free.
pub open spec fn joined(d: Decor, b: (usize, usize, usize)) -> Decor {
    Decor { pair_syllable: Some(b), free: false, ..d }
}

/// `p` with `d` at `a`.
pub open spec fn put(p: Seq<Seq<Seq<Decor>>>, a: (usize, usize, usize), d: Decor) -> Seq<Seq<Seq<Decor>>> {
    p.update(a.0 as int, p[a.0 as int].update(a.1 as int, p[a.0 as int][a.1 as int].update(a.2 as int, d)))
}

/// `p` with the decoration at `a` joined to `b`.
pub open spec fn mark(p: Seq<Seq<Seq<Decor>>>, a: (usize, usize, usize), b: (usize, usize, usize)) -> Seq<Seq<Seq<Decor>>> {
    put(p, a, joined(decor_at(p, a), b))
}

/// `p` with the dashes at `a` and `b` joined to each other.
pub open spec fn join_both(p: Seq<Seq<Seq<Decor>>>, a: (usize, usize, usize), b: (usize, usize, usize)) -> Seq<Seq<Seq<Decor>>> {
    mark(mark(p, a, b), b, a)
}

/// `p` after joining each pair of `pairs`, first to last.
pub open spec fn apply_pairs(
    p: Seq<Seq<Seq<Decor>>>,
    pairs: Seq<((usize, usize, usize), (usize, usize, usize))>,
) -> Seq<Seq<Seq<Decor>>>
    decreases pairs.len(),
{
    if pairs.len() == 0 {
        p
    } else {
        join_both(apply_pairs(p, pairs.drop_last()), pairs.last().0, pairs.last().1)
    }
}

/// The free dashes of all words of `p`, as (word, (syllable, decoration)), in order.
pub open spec fn phrase_dashes(p: Seq<Seq<Seq<Decor>>>) -> Seq<(usize, (usize, usize))>
    decreases p.len(),
{
    if p.len() == 0 {
        Seq::empty()
    } else {
        phrase_dashes(p.drop_last()) + word_dashes(p.last()).map_values(
            |d: (usize, usize)| ((p.len() - 1) as usize, d),
        )
    }
}

/// The address of a listed dash.
pub open spec fn entry_addr(e: (usize, (usize, usize))) -> (usize, usize, usize) {
    (e.0, e.1.0, e.1.1)
}

/// Whether two listed dashes lie on one syllable of one word.
pub open spec fn same_syllable(e1: (usize, (usize, usize)), e2: (usize, (usize, usize))) -> bool {
    e1.0 == e2.0 && e1.1.0 == e2.1.0
}


/// One pass of the dash pairing over `list` from position `i`, with the pairs
/// and spare dashes found so far: each dash is joined to the next one unless
/// both lie on one syllable, in which case the one after is tried and the
/// skipped dash is kept spare; three on one syllable are all kept spare, and
/// so is a last dash left alone (a last two on one syllable go to both ends of
/// the spare list). Gives the pairs and the spare dashes.
pub open spec fn step_from(
    list: Seq<(usize, (usize, usize))>,
    i: int,
    pairs: Seq<((usize, usize, usize), (usize, usize, usize))>,
    spare: Seq<(usize, (usize, usize))>,
) -> (Seq<((usize, usize, usize), (usize, usize, usize))>, Seq<(usize, (usize, usize))>)
    decreases list.len() - i,
{
    if i >= list.len() {
        (pairs, spare)
    } else if i + 1 == list.len() {
        (pairs, spare.push(list[i as int]))
    } else if !same_syllable(list[i as int], list[i + 1]) {
        step_from(list, i + 2, pairs.push((entry_addr(list[i as int]), entry_addr(list[i + 1]))), spare)
    } else if i + 2 == list.len() {
        (pairs, seq![list[i + 1]] + spare.push(list[i as int]))
    } else if same_syllable(list[i + 2], list[i as int]) {
        step_from(list, i + 3, pairs, spare.push(list[i + 2]).push(list[i + 1]).push(list[i as int]))
    } else {
        step_from(list, i + 3, pairs.push((entry_addr(list[i as int]), entry_addr(list[i + 2]))), spare.push(list[i + 1]))
    }
}

/// The pairs and spare dashes of one whole pass over `list`.
pub open spec fn pass_result(list: Seq<(usize, (usize, usize))>) -> (
    Seq<((usize, usize, usize), (usize, usize, usize))>,
    Seq<(usize, (usize, usize))>,
) {
    step_from(list, 0, Seq::empty(), Seq::empty())
}

/// The dashes a pass works on: the spare ones handed in, or else all free
/// dashes of the phrase.
pub open spec fn pass_input(p: Seq<Seq<Seq<Decor>>>, spare: Option<Seq<(usize, (usize, usize))>>) -> Seq<(usize, (usize, usize))> {
    match spare {
        Some(l) => l,
        None => phrase_dashes(p),
    }
}

/// The contents of an optional list of dashes.
pub open spec fn opt_view(spare: Option<Vec<(usize, (usize, usize))>>) -> Option<Seq<(usize, (usize, usize))>> {
    match spare {
        Some(l) => Some(l@),
        None => None,
    }
}

/// A list of spare dashes as a pass hands it on: `None` where it is empty.
pub open spec fn spare_of(rest: Seq<(usize, (usize, usize))>) -> Option<Seq<(usize, (usize, usize))>> {
    if rest.len() == 0 {
        None
    } else {
        Some(rest)
    }
}

/// Five dashes for each letter of the words whose letter counts are `lcs`.
pub open spec fn dash_budget(lcs: Seq<usize>) -> nat
    decreases lcs.len(),
{
    if lcs.len() == 0 {
        0
    } else {
        dash_budget(lcs.drop_last()) + 5 * (lcs.last() as nat)
    }
}

/// The phrase `p` after the passes of the pairing loop that follow one that
/// left `count` dashes spare (`spare`), while the budget `total` is above the
/// number left spare: each pass gets the last pass's count as its budget.
pub open spec fn loop_from(
    p: Seq<Seq<Seq<Decor>>>,
    total: nat,
    count: nat,
    spare: Option<Seq<(usize, (usize, usize))>>,
) -> Seq<Seq<Seq<Decor>>>
    decreases total,
{
    if total > count {
        let r = pass_result(pass_input(p, spare));
        loop_from(apply_pairs(p, r.0), count, r.1.len(), spare_of(r.1))
    } else {
        p
    }
}

/// The phrase `p`, whose words have the letter counts `lcs`, after the whole
/// pairing loop: a first pass over all free dashes, then passes over the
/// spare ones as `loop_from` says, starting from the budget of `lcs`.
pub open spec fn pairing_result(p: Seq<Seq<Seq<Decor>>>, lcs: Seq<usize>) -> Seq<Seq<Seq<Decor>>> {
    let r = pass_result(phrase_dashes(p));
    loop_from(apply_pairs(p, r.0), dash_budget(lcs), r.1.len(), spare_of(r.1))
}

/// Whether both addresses of every pair name decorations of `p`.
pub open spec fn pairs_valid(p: Seq<Seq<Seq<Decor>>>, pairs: Seq<((usize, usize, usize), (usize, usize, usize))>) -> bool {
    forall|k: int| 0 <= k < pairs.len() ==> addr_valid(p, (#[trigger] pairs[k]).0) && addr_valid(p, pairs[k].1)
}

/// Whether every dash of `list` names a decoration of `p`.
pub open spec fn all_valid(p: Seq<Seq<Seq<Decor>>>, list: Seq<(usize, (usize, usize))>) -> bool {
    forall|k: int| 0 <= k < list.len() ==> addr_valid(p, entry_addr(#[trigger] list[k]))
}



/// Whether a pair joins dashes of two different syllables.
pub open spec fn pair_crosses(pair: ((usize, usize, usize), (usize, usize, usize))) -> bool {
    !(pair.0.0 == pair.1.0 && pair.0.1 == pair.1.1)
}

/// The addresses joined by `pairs`, two by two, in order.
pub open spec fn pair_addrs(pairs: Seq<((usize, usize, usize), (usize, usize, usize))>) -> Seq<(usize, usize, usize)>
    decreases pairs.len(),
{
    if pairs.len() == 0 {
        Seq::empty()
    } else {
        pair_addrs(pairs.drop_last()) + seq![pairs.last().0, pairs.last().1]
    }
}

/// The addresses of the listed dashes.
pub open spec fn addrs(list: Seq<(usize, (usize, usize))>) -> Seq<(usize, usize, usize)> {
    list.map_values(|e: (usize, (usize, usize))| entry_addr(e))
}

proof fn lemma_step_crosses(
    list: Seq<(usize, (usize, usize))>,
    i: int,
    pairs: Seq<((usize, usize, usize), (usize, usize, usize))>,
    spare: Seq<(usize, (usize, usize))>,
)
    requires
        0 <= i,
        forall|k: int| 0 <= k < pairs.len() ==> pair_crosses(#[trigger] pairs[k]),
    ensures
        forall|k: int|
            0 <= k < step_from(list, i, pairs, spare).0.len() ==> pair_crosses(
                #[trigger] step_from(list, i, pairs, spare).0[k],
            ),
    decreases list.len() - i,
{
    if i >= list.len() || i + 1 == list.len() {
    } else if !same_syllable(list[i], list[i + 1]) {
        let np = pairs.push((entry_addr(list[i]), entry_addr(list[i + 1])));
        assert forall|k: int| 0 <= k < np.len() implies pair_crosses(#[trigger] np[k]) by {
            if k < pairs.len() {
                assert(np[k] == pairs[k]);
            }
        }
        lemma_step_crosses(list, i + 2, np, spare);
        assert(step_from(list, i, pairs, spare) == step_from(list, i + 2, np, spare));
    } else if i + 2 == list.len() {
    } else if same_syllable(list[i + 2], list[i]) {
        let ns = spare.push(list[i + 2]).push(list[i + 1]).push(list[i]);
        lemma_step_crosses(list, i + 3, pairs, ns);
        assert(step_from(list, i, pairs, spare) == step_from(list, i + 3, pairs, ns));
    } else {
        let np = pairs.push((entry_addr(list[i]), entry_addr(list[i + 2])));
        assert forall|k: int| 0 <= k < np.len() implies pair_crosses(#[trigger] np[k]) by {
            if k < pairs.len() {
                assert(np[k] == pairs[k]);
            }
        }
        lemma_step_crosses(list, i + 3, np, spare.push(list[i + 1]));
        assert(step_from(list, i, pairs, spare) == step_from(list, i + 3, np, spare.push(list[i + 1])));
    }
}

/// A pass never joins two dashes of one syllable.
pub proof fn lemma_pass_pairs_cross_syllables(list: Seq<(usize, (usize, usize))>)
    ensures
        forall|k: int|
            0 <= k < pass_result(list).0.len() ==> pair_crosses(#[trigger] pass_result(list).0[k]),
{
    lemma_step_crosses(list, 0, Seq::empty(), Seq::empty());
}

proof fn lemma_step_conserves(
    list: Seq<(usize, (usize, usize))>,
    i: int,
    pairs: Seq<((usize, usize, usize), (usize, usize, usize))>,
    spare: Seq<(usize, (usize, usize))>,
)
    requires
        0 <= i <= list.len(),
    ensures
        pair_addrs(step_from(list, i, pairs, spare).0).to_multiset().add(
            addrs(step_from(list, i, pairs, spare).1).to_multiset(),
        ) =~= pair_addrs(pairs).to_multiset().add(addrs(spare).to_multiset()).add(
            addrs(list.subrange(i, list.len() as int)).to_multiset(),
        ),
    decreases list.len() - i,
{
    broadcast use vstd::seq_lib::group_to_multiset_ensures;
    broadcast use vstd::seq_lib::lemma_multiset_commutative;

    let rest = list.subrange(i, list.len() as int);
    let ma = addrs(rest).to_multiset();
    if i >= list.len() {
        assert(addrs(rest) =~= Seq::<(usize, usize, usize)>::empty());
    } else {
        let a0 = entry_addr(list[i]);
        assert(addrs(rest) =~= seq![a0] + addrs(list.subrange(i + 1, list.len() as int)));
        if i + 1 == list.len() {
            assert(addrs(list.subrange(i + 1, list.len() as int)) =~= Seq::<(usize, usize, usize)>::empty());
            assert(addrs(spare.push(list[i])) =~= addrs(spare).push(a0));
        } else {
            let a1 = entry_addr(list[i + 1]);
            assert(addrs(list.subrange(i + 1, list.len() as int)) =~= seq![a1] + addrs(
                list.subrange(i + 2, list.len() as int),
            ));
            if !same_syllable(list[i], list[i + 1]) {
                let np = pairs.push((a0, a1));
                assert(np.drop_last() =~= pairs);
                assert(pair_addrs(np) == pair_addrs(pairs) + seq![a0, a1]);
                assert(seq![a0, a1] =~= seq![a0] + seq![a1]);
                lemma_step_conserves(list, i + 2, np, spare);
            } else if i + 2 == list.len() {
                assert(addrs(list.subrange(i + 2, list.len() as int)) =~= Seq::<(usize, usize, usize)>::empty());
                assert(addrs(seq![list[i + 1]] + spare.push(list[i])) =~= seq![a1] + addrs(spare).push(a0));
            } else {
                let a2 = entry_addr(list[i + 2]);
                assert(addrs(list.subrange(i + 2, list.len() as int)) =~= seq![a2] + addrs(
                    list.subrange(i + 3, list.len() as int),
                ));
                if same_syllable(list[i + 2], list[i]) {
                    let ns = spare.push(list[i + 2]).push(list[i + 1]).push(list[i]);
                    assert(addrs(ns) =~= addrs(spare).push(a2).push(a1).push(a0));
                    lemma_step_conserves(list, i + 3, pairs, ns);
                } else {
                    let np = pairs.push((a0, a2));
                    assert(np.drop_last() =~= pairs);
                    assert(pair_addrs(np) == pair_addrs(pairs) + seq![a0, a2]);
                    assert(seq![a0, a2] =~= seq![a0] + seq![a2]);
                    assert(addrs(spare.push(list[i + 1])) =~= addrs(spare).push(a1));
                    lemma_step_conserves(list, i + 3, np, spare.push(list[i + 1]));
                }
            }
        }
    }
}

/// A pass uses each listed dash exactly once: the addresses it joins and
/// those it leaves spare are, together, those of the list.
pub proof fn lemma_pass_conserves_dashes(list: Seq<(usize, (usize, usize))>)
    ensures
        pair_addrs(pass_result(list).0).to_multiset().add(addrs(pass_result(list).1).to_multiset())
            == addrs(list).to_multiset(),
{
    broadcast use vstd::seq_lib::group_to_multiset_ensures;

    lemma_step_conserves(list, 0, Seq::empty(), Seq::empty());
    assert(list.subrange(0, list.len() as int) =~= list);
    assert(pair_addrs(Seq::<((usize, usize, usize), (usize, usize, usize))>::empty()) =~= Seq::<(usize, usize, usize)>::empty());
    assert(addrs(Seq::<(usize, (usize, usize))>::empty()) =~= Seq::<(usize, usize, usize)>::empty());
}

/// The budget of a prefix of `lcs` is at most that of the whole.
proof fn lemma_budget_prefix(lcs: Seq<usize>, n: int)
    requires
        0 <= n <= lcs.len(),
    ensures
        dash_budget(lcs.take(n)) <= dash_budget(lcs),
    decreases lcs.len() - n,
{
    if n < lcs.len() {
        lemma_budget_prefix(lcs, n + 1);
        assert(lcs.take(n + 1).drop_last() =~= lcs.take(n));
    } else {
        assert(lcs.take(n) =~= lcs);
    }
}

proof fn lemma_mark_shape(p: Seq<Seq<Seq<Decor>>>, a: (usize, usize, usize), b: (usize, usize, usize))
    requires
        addr_valid(p, a),
    ensures
        forall|x: (usize, usize, usize)| addr_valid(mark(p, a, b), x) == addr_valid(p, x),
{
}

/// Joining pairs of valid addresses keeps the shape of the phrase.
proof fn lemma_apply_pairs_shape(
    p: Seq<Seq<Seq<Decor>>>,
    pairs: Seq<((usize, usize, usize), (usize, usize, usize))>,
)
    requires
        pairs_valid(p, pairs),
    ensures
        forall|x: (usize, usize, usize)| addr_valid(apply_pairs(p, pairs), x) == addr_valid(p, x),
    decreases pairs.len(),
{
    if pairs.len() > 0 {
        let q = apply_pairs(p, pairs.drop_last());
        assert(pairs_valid(p, pairs.drop_last())) by {
            assert forall|k: int| 0 <= k < pairs.drop_last().len() implies addr_valid(p, (#[trigger] pairs.drop_last()[k]).0)
                && addr_valid(p, pairs.drop_last()[k].1) by {
                assert(pairs.drop_last()[k] == pairs[k]);
            }
        }
        lemma_apply_pairs_shape(p, pairs.drop_last());
        let last = pairs[pairs.len() - 1];
        lemma_mark_shape(q, last.0, last.1);
        lemma_mark_shape(mark(q, last.0, last.1), last.1, last.0);
    }
}

impl GallPhrase {
    /// The decorations of the phrase, by word, syllable and decoration.
    pub open spec fn decors(self) -> Seq<Seq<Seq<Decor>>> {
        self.words@.map_values(|w: GallWord| w.decors())
    }

    /// The letter count of each word.
    pub open spec fn letter_counts(self) -> Seq<usize> {
        self.words@.map_values(|w: GallWord| w.letter_count)
    }

    /// Joins the dashes at `address_1` and `address_2` to each other.
    fn pair_dash(&mut self, address_1: (usize, usize, usize), address_2: (usize, usize, usize))
        requires
            addr_valid(old(self).decors(), address_1),
            addr_valid(old(self).decors(), address_2),
        ensures
            final(self).decors() == join_both(old(self).decors(), address_1, address_2),
            final(self).letter_counts() == old(self).letter_counts(),
    {
        self.mark_dash(address_1, address_2);
        self.mark_dash(address_2, address_1);
    }

    /// Joins the decoration at `address` to the dash at `pair`.
    fn mark_dash(&mut self, address: (usize, usize, usize), pair: (usize, usize, usize))
        requires
            addr_valid(old(self).decors(), address),
        ensures
            final(self).decors() == mark(old(self).decors(), address, pair),
            final(self).letter_counts() == old(self).letter_counts(),
    {
        let ghost p = self.decors();
        let ghost w = address.0 as int;
        let ghost s = address.1 as int;
        let ghost old_words = self.words@;
        let dash = &mut self.words[address.0].syllables[address.1].decorators[address.2];
        dash.add_syl_pair(pair);
        dash.free = false;
        proof {
            let nw = self.words@[w];
            assert(nw.decors() =~= p[w].update(s, p[w][s].update(address.2 as int, joined(decor_at(p, address), pair))));
            assert(self.decors() =~= mark(p, address, pair));
            assert(self.letter_counts() =~= old_words.map_values(|wd: GallWord| wd.letter_count));
        }
    }

    /// The free dashes of the phrase, as (word, (syllable, decoration)), with
    /// their number.
    pub fn dash_list(&self) -> (res: (usize, Vec<(usize, (usize, usize))>))
        ensures
            res.1@ == phrase_dashes(self.decors()),
            res.0 == res.1@.len(),
            all_valid(self.decors(), res.1@),
            forall|k: int|
                0 <= k < res.1@.len() ==> decor_at(self.decors(), entry_addr(#[trigger] res.1@[k])).free
                    && !decor_at(self.decors(), entry_addr(res.1@[k])).dot,
    {
        let mut dashes: Vec<(usize, (usize, usize))> = Vec::new();
        let mut word_index: usize = 0;
        assert(self.decors().take(0) =~= Seq::<Seq<Seq<Decor>>>::empty());
        while word_index < self.words.len()
            invariant
                word_index <= self.words@.len(),
                dashes@ == phrase_dashes(self.decors().take(word_index as int)),
                all_valid(self.decors(), dashes@),
                forall|j: int|
                    0 <= j < dashes@.len() ==> decor_at(self.decors(), entry_addr(#[trigger] dashes@[j])).free
                        && !decor_at(self.decors(), entry_addr(dashes@[j])).dot,
            decreases self.words@.len() - word_index,
        {
            let word_dashes_list = self.words[word_index].collect_dashes();
            let ghost before = dashes@;
            let ghost wd = word_dashes_list@;
            let mut k: usize = 0;
            while k < word_dashes_list.len()
                invariant
                    k <= wd.len(),
                    word_dashes_list@ == wd,
                    dashes@ == before + wd.take(k as int).map_values(|d: (usize, usize)| (word_index, d)),
                        word_index < self.words@.len(),
                    forall|j: int|
                        0 <= j < wd.len() ==> (#[trigger] wd[j]).0 < self.words@[word_index as int].syllables@.len()
                            && wd[j].1 < self.words@[word_index as int].syllables@[wd[j].0 as int].decorators@.len()
                            && self.words@[word_index as int].syllables@[wd[j].0 as int].decorators@[wd[j].1 as int].free
                            && !self.words@[word_index as int].syllables@[wd[j].0 as int].decorators@[wd[j].1 as int].dot,
                    all_valid(self.decors(), dashes@),
                    forall|j: int|
                        0 <= j < dashes@.len() ==> decor_at(self.decors(), entry_addr(#[trigger] dashes@[j])).free
                            && !decor_at(self.decors(), entry_addr(dashes@[j])).dot,
                decreases wd.len() - k,
            {
                let dash = word_dashes_list[k];
                assert(wd.take(k + 1).map_values(|d: (usize, usize)| (word_index, d)) =~= wd.take(
                    k as int,
                ).map_values(|d: (usize, usize)| (word_index, d)).push((word_index, dash)));
                dashes.push((word_index, dash));
                k += 1;
            }
            proof {
                let p = self.decors();
                assert(wd.take(k as int) =~= wd);
                assert(p.take(word_index + 1).drop_last() =~= p.take(word_index as int));
                assert(p[word_index as int] == self.words@[word_index as int].decors());
            }
            word_index += 1;
        }
        assert(self.decors().take(self.words@.len() as int) =~= self.decors());
        (dashes.len(), dashes)
    }

    /// One pass of the dash pairing over the spare dashes handed in, or over
    /// all free dashes of the phrase: joins the dashes as `step_from` says and
    /// gives the number of dashes left spare, and those dashes (`None` where
    /// there are none).
    pub fn dash_pair_loop_step(&mut self, spare: Option<Vec<(usize, (usize, usize))>>) -> (res: (
        usize,
        Option<Vec<(usize, (usize, usize))>>,
    ))
        requires
            spare matches Some(l) ==> all_valid(old(self).decors(), l@),
        ensures
            res.0 == pass_result(pass_input(old(self).decors(), opt_view(spare))).1.len(),
            opt_view(res.1) == spare_of(pass_result(pass_input(old(self).decors(), opt_view(spare))).1),
            final(self).decors() == apply_pairs(
                old(self).decors(),
                pass_result(pass_input(old(self).decors(), opt_view(spare))).0,
            ),
            final(self).letter_counts() == old(self).letter_counts(),
            res.1 matches Some(v) ==> all_valid(final(self).decors(), v@),
    {
        let ghost p0 = self.decors();
        let ghost lc0 = self.letter_counts();
        let list = match spare {
            Some(l) => l,
            None => {
                let (_, l) = self.dash_list();
                l
            },
        };
        let ghost target = pass_result(list@);
        let mut spare_dash: Vec<(usize, (usize, usize))> = Vec::new();
        let mut count: usize = 0;
        let mut i: usize = 0;
        let ghost mut pairs: Seq<((usize, usize, usize), (usize, usize, usize))> = Seq::empty();
        while i < list.len()
            invariant
                i <= list@.len(),
                step_from(list@, i as int, pairs, spare_dash@) == target,
                count == spare_dash@.len(),
                spare_dash@.len() <= i,
                all_valid(p0, list@),
                all_valid(p0, spare_dash@),
                pairs_valid(p0, pairs),
                self.decors() == apply_pairs(p0, pairs),
                self.letter_counts() == lc0,
            decreases list@.len() - i,
        {
            let e1 = list[i];
            if i + 1 >= list.len() {
                spare_dash.push(e1);
                count += 1;
                i = list.len();
            } else {
                let e2 = list[i + 1];
                if !(e1.0 == e2.0 && e1.1.0 == e2.1.0) {
                    let address_1 = (e1.0, e1.1.0, e1.1.1);
                    let address_2 = (e2.0, e2.1.0, e2.1.1);
                    proof {
                        lemma_apply_pairs_shape(p0, pairs);
                        assert(addr_valid(p0, entry_addr(list@[i as int])));
                        assert(addr_valid(p0, entry_addr(list@[i + 1])));
                    }
                    self.pair_dash(address_1, address_2);
                    proof {
                        let old_pairs = pairs;
                        pairs = pairs.push((address_1, address_2));
                        assert(pairs.drop_last() =~= old_pairs);
                    }
                    i += 2;
                } else if i + 2 >= list.len() {
                    let mut front = vec![e2];
                    front.append(&mut spare_dash);
                    spare_dash = front;
                    spare_dash.push(e1);
                    count += 2;
                    i = list.len();
                } else {
                    let e3 = list[i + 2];
                    if e3.0 == e1.0 && e3.1.0 == e1.1.0 {
                        spare_dash.push(e3);
                        spare_dash.push(e2);
                        spare_dash.push(e1);
                        count += 3;
                        i += 3;
                    } else {
                        let address_1 = (e1.0, e1.1.0, e1.1.1);
                        let address_2 = (e3.0, e3.1.0, e3.1.1);
                        proof {
                            lemma_apply_pairs_shape(p0, pairs);
                            assert(addr_valid(p0, entry_addr(list@[i as int])));
                            assert(addr_valid(p0, entry_addr(list@[i + 2])));
                        }
                        self.pair_dash(address_1, address_2);
                        proof {
                            let old_pairs = pairs;
                            pairs = pairs.push((address_1, address_2));
                            assert(pairs.drop_last() =~= old_pairs);
                        }
                        spare_dash.push(e2);
                        count += 1;
                        i += 3;
                    }
                }
            }
        }
        proof {
            lemma_apply_pairs_shape(p0, pairs);
            assert(all_valid(self.decors(), spare_dash@));
        }
        if spare_dash.is_empty() {
            (count, None)
        } else {
            (count, Some(spare_dash))
        }
    }
    /// Pairs the free dashes of the phrase: a first pass over all of them,
    /// then passes over the spare ones for as long as each leaves fewer spare
    /// than the last (at first, than five for each letter of the phrase).
    pub fn dash_pair_loop(&mut self)
        requires
            dash_budget(old(self).letter_counts()) <= usize::MAX,
        ensures
            final(self).decors() == pairing_result(old(self).decors(), old(self).letter_counts()),
            final(self).letter_counts() == old(self).letter_counts(),
    {
        let ghost lcs = self.letter_counts();
        let ghost p0 = self.decors();
        let mut total_dash: usize = 0;
        let mut w: usize = 0;
        assert(lcs.take(0) =~= Seq::<usize>::empty());
        while w < self.words.len()
            invariant
                w <= self.words@.len(),
                lcs == self.letter_counts(),
                total_dash == dash_budget(lcs.take(w as int)),
                dash_budget(lcs) <= usize::MAX,
            decreases self.words@.len() - w,
        {
            proof {
                assert(lcs.take(w + 1).drop_last() =~= lcs.take(w as int));
                lemma_budget_prefix(lcs, w + 1);
            }
            total_dash += 5 * self.words[w].letter_count;
            w += 1;
        }
        assert(lcs.take(w as int) =~= lcs);
        let (first_count, first_spare) = self.dash_pair_loop_step(None);
        let mut count = first_count;
        let mut spare = first_spare;
        while total_dash > count
            invariant
                loop_from(self.decors(), total_dash as nat, count as nat, opt_view(spare)) == pairing_result(p0, lcs),
                self.letter_counts() == lcs,
                spare matches Some(v) ==> all_valid(self.decors(), v@),
            decreases total_dash,
        {
            total_dash = count;
            let (next_count, next_spare) = self.dash_pair_loop_step(spare);
            count = next_count;
            spare = next_spare;
        }
    }
}

} // verus!
