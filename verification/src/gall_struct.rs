use vstd::prelude::*;

verus! {

/// The kinds of letter of the single-circle layout.
#[derive(Debug, Clone, Copy, PartialEq, Eq, Structural, Default)]
pub enum LetterType {
    Digit,
    StaticVowel,
    BStem,
    JStem,
    TStem,
    ZStem,
    AVowel,
    OVowel,
    #[default]
    Punctuation,
}

/// A decoration of a syllable as the dash pairing sees it: whether it is a
/// dot, the dash it is joined to, whether it is still free, and its place
/// (syllable, decoration) in its word. Its drawn position is the drawing's.
#[derive(Debug, Clone, Copy)]
pub struct Decor {
    pub dot: bool,
    pub pair_syllable: Option<(usize, usize, usize)>,
    pub free: bool,
    pub address: (usize, usize),
}

impl Decor {
    /// Records the dash this one is joined to.
    pub fn add_syl_pair(&mut self, pair: (usize, usize, usize))
        ensures
            *final(self) == (Decor { pair_syllable: Some(pair), ..*old(self) }),
    {
        self.pair_syllable = Some(pair)
    }
}

/// A syllable as the dash pairing sees it: its decorations.
pub struct GallCircle {
    pub decorators: Vec<Decor>,
}

/// A word as the dash pairing sees it: its syllables and its letter count.
pub struct GallWord {
    pub syllables: Vec<GallCircle>,
    pub letter_count: usize,
}

/// The free dashes of one syllable's decorations `decs`, as (syllable,
/// decoration) places, in order.
pub open spec fn syl_dashes(decs: Seq<Decor>, syl: usize) -> Seq<(usize, usize)>
    decreases decs.len(),
{
    if decs.len() == 0 {
        Seq::empty()
    } else {
        syl_dashes(decs.drop_last(), syl) + if decs.last().free && !decs.last().dot {
            seq![(syl, (decs.len() - 1) as usize)]
        } else {
            Seq::empty()
        }
    }
}

/// The free dashes of a word whose syllables hold the decorations `syls`.
pub open spec fn word_dashes(syls: Seq<Seq<Decor>>) -> Seq<(usize, usize)>
    decreases syls.len(),
{
    if syls.len() == 0 {
        Seq::empty()
    } else {
        word_dashes(syls.drop_last()) + syl_dashes(syls.last(), (syls.len() - 1) as usize)
    }
}



impl GallWord {
    /// The decorations of each syllable.
    pub open spec fn decors(self) -> Seq<Seq<Decor>> {
        self.syllables@.map_values(|c: GallCircle| c.decorators@)
    }

    /// The free dashes of the word, as (syllable, decoration) places, in order.
    pub fn collect_dashes(&self) -> (list: Vec<(usize, usize)>)
        ensures
            list@ == word_dashes(self.decors()),
            forall|k: int|
                0 <= k < list@.len() ==> (#[trigger] list@[k]).0 < self.syllables@.len()
                    && list@[k].1 < self.syllables@[list@[k].0 as int].decorators@.len()
                    && self.syllables@[list@[k].0 as int].decorators@[list@[k].1 as int].free
                    && !self.syllables@[list@[k].0 as int].decorators@[list@[k].1 as int].dot,
    {
        let mut list: Vec<(usize, usize)> = Vec::new();
        let mut syl_index: usize = 0;
        assert(self.decors().take(0) =~= Seq::<Seq<Decor>>::empty());
        while syl_index < self.syllables.len()
            invariant
                syl_index <= self.syllables@.len(),
                list@ == word_dashes(self.decors().take(syl_index as int)),
                forall|k: int|
                    0 <= k < list@.len() ==> (#[trigger] list@[k]).0 < self.syllables@.len()
                        && list@[k].1 < self.syllables@[list@[k].0 as int].decorators@.len()
                        && self.syllables@[list@[k].0 as int].decorators@[list@[k].1 as int].free
                        && !self.syllables@[list@[k].0 as int].decorators@[list@[k].1 as int].dot,
            decreases self.syllables@.len() - syl_index,
        {
            let syllable = &self.syllables[syl_index];
            let ghost before = list@;
            let mut dec_index: usize = 0;
            assert(syllable.decorators@.take(0) =~= Seq::<Decor>::empty());
            assert(before + syl_dashes(Seq::<Decor>::empty(), syl_index) =~= before);
            while dec_index < syllable.decorators.len()
                invariant
                    dec_index <= syllable.decorators@.len(),
                    list@ == before + syl_dashes(syllable.decorators@.take(dec_index as int), syl_index),
                    syl_index < self.syllables@.len(),
                    *syllable == self.syllables@[syl_index as int],
                    forall|k: int|
                        0 <= k < list@.len() ==> (#[trigger] list@[k]).0 < self.syllables@.len()
                            && list@[k].1 < self.syllables@[list@[k].0 as int].decorators@.len()
                            && self.syllables@[list@[k].0 as int].decorators@[list@[k].1 as int].free
                            && !self.syllables@[list@[k].0 as int].decorators@[list@[k].1 as int].dot,
                decreases syllable.decorators@.len() - dec_index,
            {
                let dec = syllable.decorators[dec_index];
                assert(syllable.decorators@.take(dec_index + 1).drop_last() =~= syllable.decorators@.take(
                    dec_index as int,
                ));
                if dec.free && !dec.dot {
                    list.push((syl_index, dec_index));
                }
                assert(list@ =~= before + syl_dashes(syllable.decorators@.take(dec_index + 1), syl_index));
                dec_index += 1;
            }
            assert(syllable.decorators@.take(dec_index as int) =~= syllable.decorators@);
            assert(self.decors().take(syl_index + 1).drop_last() =~= self.decors().take(syl_index as int));
            assert(self.decors()[syl_index as int] == syllable.decorators@);
            syl_index += 1;
        }
        assert(self.decors().take(self.syllables@.len() as int) =~= self.decors());
        list
    }
}

} // verus!
