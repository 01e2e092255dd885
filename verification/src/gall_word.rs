use vstd::prelude::*;

use crate::gall_config::Config;
use crate::gall_fn::{self, spec_dot_lookup, spec_letter_mark, spec_repeat_count, spec_stem_lookup, LetterMark, ProcessedWord};
use crate::gall_stem::StemType;
use crate::gall_tainer::{
    empty_tainer, lemma_populate_wf, tainer_wf, tv_init, tv_is_empty, tv_layer, tv_populate, tv_size,
    tv_stem_type, tv_stems, tv_dots, tv_dashes, GallTainer, TainerView,
};
use crate::gall_text::chars_of;
use crate::gall_vowel::VowelType;

verus! {

/// Filling the containers of a word: the containers closed so far, the open
/// one, how many containers were opened, and the signs of the numbers not
/// yet read (the next one last).
pub ghost struct WordState {
    pub done: Seq<TainerView>,
    pub con: TainerView,
    pub count: int,
    pub neg: Seq<bool>,
}

/// A digit's mark takes the sign of the next number; other marks are kept.
pub open spec fn pop_sign(mark: LetterMark, neg: Seq<bool>) -> (LetterMark, Seq<bool>) {
    match mark {
        LetterMark::Digit(num) => if neg.len() > 0 {
            (LetterMark::Digit(if neg.last() { (-num) as i8 } else { num }), neg.drop_last())
        } else {
            (mark, neg)
        },
        _ => (mark, neg),
    }
}

/// The word state after a new container opened by `l_mark` takes the
/// letter, the open one being closed (`keep`) or dropped.
pub open spec fn open_new(
    w: WordState,
    keep: bool,
    open_mark: LetterMark,
    l_mark: LetterMark,
    d: (Option<crate::gall_fn::Decor>, i8),
    repeat: u8,
    neg: Seq<bool>,
) -> WordState {
    WordState {
        done: if keep { w.done.push(w.con) } else { w.done },
        con: tv_populate(tv_init(empty_tainer(), open_mark, w.count as usize), l_mark, d, repeat),
        count: w.count + 1,
        neg,
    }
}

/// The word state after the open container takes the letter.
pub open spec fn fill(
    w: WordState,
    l_mark: LetterMark,
    d: (Option<crate::gall_fn::Decor>, i8),
    repeat: u8,
) -> WordState {
    WordState { con: tv_populate(w.con, l_mark, d, repeat), ..w }
}

/// The word state after the character `c`: a consonant opens a new container
/// unless it continues a stack of its own stem without vowels; a vowel joins
/// the open container, except a word `o` after a consonant, which is
/// skipped; a digit always opens a new container, dropping the open one.
pub open spec fn word_step(w: WordState, c: char) -> WordState {
    let (l0, repeat) = spec_stem_lookup(c);
    let d = spec_dot_lookup(c);
    if w.con.state is None {
        let (l, neg) = pop_sign(l0, w.neg);
        WordState {
            done: w.done,
            con: tv_populate(tv_init(w.con, l, w.count as usize), l, d, repeat),
            count: w.count + 1,
            neg,
        }
    } else {
        match l0 {
            LetterMark::Stem(stem) => if (!Config::STACK && !tv_is_empty(w.con)) || Some(stem) != tv_stem_type(
                w.con,
            ) || w.con.vowel.len() > 0 {
                open_new(w, true, l0, l0, d, repeat, w.neg)
            } else {
                fill(w, l0, d, repeat)
            },
            LetterMark::GallVowel(vow) => if !Config::STACK && w.con.vowel.len() > 0 {
                open_new(w, true, l0, l0, d, repeat, w.neg)
            } else if w.con.stem.len() > 0 && vow == VowelType::O2 {
                w
            } else {
                fill(w, l0, d, repeat)
            },
            LetterMark::Digit(_) => if tv_stem_type(w.con) != Some(StemType::J) || w.con.mark == 0 {
                open_new(w, false, l0, pop_sign(l0, w.neg).0, d, repeat, pop_sign(l0, w.neg).1)
            } else {
                fill(w, l0, d, repeat)
            },
            LetterMark::GallMark => fill(w, l0, d, repeat),
        }
    }
}

/// The state of container building after the characters `s` with their number signs `neg`.
pub open spec fn word_fold(s: Seq<char>, neg: Seq<bool>) -> WordState
    decreases s.len(),
{
    if s.len() == 0 {
        WordState { done: Seq::empty(), con: empty_tainer(), count: 0, neg }
    } else {
        word_step(word_fold(s.drop_last(), neg), s.last())
    }
}

/// The containers of an encoded word whose numbers have the signs `neg`
/// (the first number's last), in order.
pub open spec fn spec_word_tainers(s: Seq<char>, neg: Seq<bool>) -> Seq<TainerView> {
    word_fold(s, neg).done.push(word_fold(s, neg).con)
}

/// Sorts the letters of a parsed word into containers, in order.
pub fn populate(processed_word: ProcessedWord) -> (tainers: Vec<GallTainer>)
    requires
        processed_word.word@.len() <= usize::MAX / 8,
        processed_word.word@.len() == 0 || !(spec_letter_mark(processed_word.word@[0]) is GallMark),
    ensures
        tainers@.map_values(|t: GallTainer| t@) == spec_word_tainers(
            processed_word.word@,
            processed_word.neg_digit@,
        ),
{
    let ghost neg0 = processed_word.neg_digit@;
    let mut neg_digit = processed_word.neg_digit;
    let word = chars_of(&processed_word.word);
    let mut tainer_vec: Vec<GallTainer> = Vec::with_capacity(processed_word.length);
    let mut con_count: usize = 0;
    let mut con = GallTainer::new();
    let mut i: usize = 0;
    assert(word@.take(0) =~= Seq::<char>::empty());
    while i < word.len()
        invariant
            word@ == processed_word.word@,
            word.len() <= usize::MAX / 8,
            word.len() == 0 || !(spec_letter_mark(word@[0]) is GallMark),
            i <= word.len(),
            tainer_vec@.map_values(|t: GallTainer| t@) == word_fold(word@.take(i as int), neg0).done,
            con@ == word_fold(word@.take(i as int), neg0).con,
            con_count == word_fold(word@.take(i as int), neg0).count,
            neg_digit@ == word_fold(word@.take(i as int), neg0).neg,
            con_count <= i,
            con.state is None <==> i == 0,
            tv_size(con@) <= 7 * i,
        decreases word.len() - i,
    {
        let cha = word[i];
        let ghost w = word_fold(word@.take(i as int), neg0);
        assert(word@.take(i + 1).drop_last() =~= word@.take(i as int));
        assert(word@.take(i + 1).last() == cha);
        let (mut l_mark, repeats) = gall_fn::stem_lookup(&cha);
        let d_mark = gall_fn::dot_lookup(&cha);
        let ghost before = tainer_vec@.map_values(|t: GallTainer| t@);
        if con.is_stateless() {
            assert(i == 0);
            assert(cha == word@[0]);
            if let LetterMark::Digit(num) = l_mark {
                if let Some(neg) = neg_digit.pop() {
                    l_mark = LetterMark::Digit(if neg { -num } else { num });
                }
            }
            con_count = con.init(&l_mark, con_count);
        } else {
            match l_mark {
                LetterMark::Stem(stem) => {
                    if (!Config::STACK && !con.is_empty()) || (Some(stem) != con.stem_type()) || (
                    !con.vowel.is_empty()) {
                        tainer_vec.push(con);
                        assert(tainer_vec@.map_values(|t: GallTainer| t@) =~= before.push(w.con));
                        con = GallTainer::new();
                        con_count = con.init(&l_mark, con_count);
                    }
                },
                LetterMark::GallVowel(vow) => {
                    if !Config::STACK && !con.vowel.is_empty() {
                        tainer_vec.push(con);
                        assert(tainer_vec@.map_values(|t: GallTainer| t@) =~= before.push(w.con));
                        con = GallTainer::new();
                        con_count = con.init(&l_mark, con_count);
                    } else if !con.stem.is_empty() && vow == VowelType::O2 {
                        i += 1;
                        continue ;
                    }
                },
                LetterMark::Digit(num) => {
                    if con.stem_type() != Some(StemType::J) || con.mark.is_empty() {
                        con = GallTainer::new();
                        con_count = con.init(&l_mark, con_count);
                        if let Some(neg) = neg_digit.pop() {
                            l_mark = LetterMark::Digit(if neg { -num } else { num });
                        }
                    }
                },
                LetterMark::GallMark => {},
            }
        }
        con.populate(l_mark, d_mark, repeats);
        i += 1;
    }
    assert(word@.take(word.len() as int) =~= word@);
    let ghost before = tainer_vec@.map_values(|t: GallTainer| t@);
    let ghost last = con@;
    tainer_vec.push(con);
    assert(tainer_vec@.map_values(|t: GallTainer| t@) =~= before.push(last));
    tainer_vec
}

/// The containers closed so far and the open one are well formed and stand
/// in the order in which they were opened.
pub open spec fn word_state_wf(w: WordState, n: int) -> bool {
    &&& forall|k: int| 0 <= k < w.done.len() ==> tainer_wf(#[trigger] w.done[k])
    &&& forall|j: int, k: int|
        0 <= j < k < w.done.len() ==> (#[trigger] w.done[j]).state->0.index < (#[trigger] w.done[k]).state->0.index
    &&& forall|k: int| 0 <= k < w.done.len() ==> (#[trigger] w.done[k]).state->0.index < w.con.state->0.index
    &&& tainer_wf(w.con)
    &&& w.con.state->0.index == w.count - 1
    &&& 1 <= w.count <= n
    &&& tv_layer(w.con) <= 3 * n
}

proof fn lemma_open_new_wf(
    w: WordState,
    n: int,
    keep: bool,
    open_mark: LetterMark,
    l_mark: LetterMark,
    d: (Option<crate::gall_fn::Decor>, i8),
    repeat: u8,
    neg: Seq<bool>,
)
    requires
        word_state_wf(w, n),
        n + 1 <= usize::MAX / 8,
        !(open_mark is GallMark),
        repeat <= 2,
        open_mark is Stem ==> l_mark == open_mark,
        open_mark is Digit ==> l_mark is Digit,
        open_mark is GallVowel ==> l_mark == open_mark,
    ensures
        word_state_wf(open_new(w, keep, open_mark, l_mark, d, repeat, neg), n + 1),
{
    let fresh = tv_init(empty_tainer(), open_mark, w.count as usize);
    assert(tainer_wf(fresh));
    lemma_populate_wf(fresh, l_mark, d, repeat);
    let r = open_new(w, keep, open_mark, l_mark, d, repeat, neg);
    if keep {
        assert forall|k: int| 0 <= k < r.done.len() implies tainer_wf(#[trigger] r.done[k]) by {
            if k < w.done.len() {
                assert(r.done[k] == w.done[k]);
            }
        }
        assert forall|j: int, k: int| 0 <= j < k < r.done.len() implies (#[trigger] r.done[j]).state->0.index
            < (#[trigger] r.done[k]).state->0.index by {
            assert(r.done[j] == w.done[j]);
            if k < w.done.len() {
                assert(r.done[k] == w.done[k]);
            }
        }
        assert forall|k: int| 0 <= k < r.done.len() implies (#[trigger] r.done[k]).state->0.index
            < r.con.state->0.index by {
            if k < w.done.len() {
                assert(r.done[k] == w.done[k]);
            }
        }
    }
}

proof fn lemma_word_fold_wf(s: Seq<char>, neg: Seq<bool>)
    requires
        1 <= s.len() <= usize::MAX / 8,
        !(spec_letter_mark(s[0]) is GallMark),
    ensures
        word_state_wf(word_fold(s, neg), s.len() as int),
    decreases s.len(),
{
    let p = s.drop_last();
    let c = s.last();
    let (l0, repeat) = spec_stem_lookup(c);
    let d = spec_dot_lookup(c);
    let n = s.len() as int;
    if p.len() == 0 {
        let w = word_fold(p, neg);
        assert(c == s[0]);
        let (l, ng) = pop_sign(l0, w.neg);
        let fresh = tv_init(w.con, l, w.count as usize);
        assert(tainer_wf(fresh));
        lemma_populate_wf(fresh, l, d, repeat);
    } else {
        assert(p[0] == s[0]);
        lemma_word_fold_wf(p, neg);
        let w = word_fold(p, neg);
        match l0 {
            LetterMark::Stem(stem) => {
                if (!Config::STACK && !tv_is_empty(w.con)) || Some(stem) != tv_stem_type(w.con)
                    || w.con.vowel.len() > 0 {
                    lemma_open_new_wf(w, n - 1, true, l0, l0, d, repeat, w.neg);
                } else {
                    lemma_populate_wf(w.con, l0, d, repeat);
                }
            },
            LetterMark::GallVowel(vow) => {
                if !Config::STACK && w.con.vowel.len() > 0 {
                    lemma_open_new_wf(w, n - 1, true, l0, l0, d, repeat, w.neg);
                } else if w.con.stem.len() > 0 && vow == VowelType::O2 {
                } else {
                    lemma_populate_wf(w.con, l0, d, repeat);
                }
            },
            LetterMark::Digit(_) => {
                if tv_stem_type(w.con) != Some(StemType::J) || w.con.mark == 0 {
                    let (l, ng) = pop_sign(l0, w.neg);
                    lemma_open_new_wf(w, n - 1, false, l0, l, d, repeat, ng);
                } else {
                    lemma_populate_wf(w.con, l0, d, repeat);
                }
            },
            LetterMark::GallMark => {
                lemma_populate_wf(w.con, l0, d, repeat);
            },
        }
    }
}

proof fn lemma_stems_shape(t: TainerView, stem: StemType, k: nat)
    requires
        t.state is Some,
    ensures
        tv_stems(t, stem, k).vowel == t.vowel,
        tv_stems(t, stem, k).stem.len() == t.stem.len() + k,
        tv_stems(t, stem, k).state == t.state,
    decreases k,
{
    if k > 0 {
        lemma_stems_shape(t, stem, (k - 1) as nat);
    }
}

proof fn lemma_dots_shape(t: TainerView, k: nat)
    ensures
        tv_dots(t, k).vowel == t.vowel,
        tv_dots(t, k).stem == t.stem,
    decreases k,
{
    if k > 0 {
        lemma_dots_shape(t, (k - 1) as nat);
    }
}

proof fn lemma_dashes_shape(t: TainerView, k: nat)
    ensures
        tv_dashes(t, k).vowel == t.vowel,
        tv_dashes(t, k).stem == t.stem,
    decreases k,
{
    if k > 0 {
        lemma_dashes_shape(t, (k - 1) as nat);
    }
}

/// A consonant that follows a vowel in the open container starts a new
/// container: no stem is added to a container once it holds a vowel. The
/// word gets one container more; the one that held the vowel is closed as
/// it was; and the new one holds the consonant's stems (one more than its
/// repeat count) and no vowel.
pub proof fn lemma_consonant_after_vowel_opens(s: Seq<char>, neg: Seq<bool>, c: char)
    requires
        1 <= s.len() < usize::MAX / 8,
        !(spec_letter_mark(s[0]) is GallMark),
        word_fold(s, neg).con.vowel.len() > 0,
        spec_letter_mark(c) is Stem,
    ensures
        word_fold(s.push(c), neg).done == word_fold(s, neg).done.push(word_fold(s, neg).con),
        word_fold(s.push(c), neg).con.vowel.len() == 0,
        word_fold(s.push(c), neg).con.stem.len() == spec_repeat_count(c) + 1,
        spec_word_tainers(s.push(c), neg).len() == spec_word_tainers(s, neg).len() + 1,
        spec_word_tainers(s.push(c), neg).last().vowel.len() == 0,
{
    lemma_word_fold_wf(s, neg);
    let w = word_fold(s, neg);
    assert(s.push(c).drop_last() =~= s);
    assert(s.push(c).last() == c);
    let (l0, repeat) = spec_stem_lookup(c);
    let d = spec_dot_lookup(c);
    let stem = l0->Stem_0;
    let fresh = tv_init(empty_tainer(), l0, w.count as usize);
    lemma_stems_shape(fresh, stem, repeat as nat + 1);
    let lettered = tv_stems(fresh, stem, repeat as nat + 1);
    let count: nat = if d.1 > 0 { d.1 as nat } else { 0 };
    lemma_dots_shape(lettered, count);
    lemma_dashes_shape(lettered, count);
}

/// Every container of a word is well formed (open, its stems all on its
/// own stem and ranked in order, its decorations on letters it holds), and
/// the containers stand in the order in which they were opened, each with a
/// place number below the word's length.
pub proof fn lemma_word_tainers_wf(s: Seq<char>, neg: Seq<bool>)
    requires
        1 <= s.len() <= usize::MAX / 8,
        !(spec_letter_mark(s[0]) is GallMark),
    ensures
        forall|k: int| 0 <= k < spec_word_tainers(s, neg).len() ==> tainer_wf(#[trigger] spec_word_tainers(s, neg)[k]),
        forall|j: int, k: int|
            0 <= j < k < spec_word_tainers(s, neg).len() ==> (#[trigger] spec_word_tainers(s, neg)[j]).state->0.index
                < (#[trigger] spec_word_tainers(s, neg)[k]).state->0.index,
        forall|k: int|
            0 <= k < spec_word_tainers(s, neg).len() ==> (#[trigger] spec_word_tainers(s, neg)[k]).state->0.index
                < s.len(),
{
    lemma_word_fold_wf(s, neg);
    let w = word_fold(s, neg);
    let ts = spec_word_tainers(s, neg);
    assert forall|k: int| 0 <= k < ts.len() implies tainer_wf(#[trigger] ts[k]) by {
        if k < w.done.len() {
            assert(ts[k] == w.done[k]);
        }
    }
    assert forall|j: int, k: int| 0 <= j < k < ts.len() implies (#[trigger] ts[j]).state->0.index
        < (#[trigger] ts[k]).state->0.index by {
        assert(ts[j] == w.done[j]);
        if k < w.done.len() {
            assert(ts[k] == w.done[k]);
        }
    }
    assert forall|k: int| 0 <= k < ts.len() implies (#[trigger] ts[k]).state->0.index < s.len() by {
        if k < w.done.len() {
            assert(ts[k] == w.done[k]);
        }
    }
}

} // verus!
