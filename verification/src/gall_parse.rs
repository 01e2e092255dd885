use vstd::prelude::*;

use crate::gall_char::{stem_of_mark, GallChar};
use crate::gall_config::Config;
use crate::gall_fn::{spec_decor, spec_decor_num, spec_letter_mark, spec_repeat_count, LetterMark};
use crate::gall_stem::StemType;
use crate::gall_text::chars_of;

verus! {

/// A group of characters drawn together, with the stem it is drawn on.
pub struct PreSyl {
    pub stem_type: Option<StemType>,
    pub char_vec: Vec<GallChar>,
}

/// A word split into groups of characters.
pub struct PreWord {
    pub pre_vec: Vec<PreSyl>,
    pub len: usize,
}

/// A group as plain values: its stem and its characters.
pub type SylView = (Option<StemType>, Seq<GallChar>);

impl PreSyl {
    /// The syllable as a stem type and a sequence of characters.
    pub open spec fn view_syl(self) -> SylView {
        (self.stem_type, self.char_vec@)
    }
}

/// The character `c` as `GallChar::new` makes it.
pub open spec fn spec_gall_char(c: char) -> GallChar {
    GallChar {
        letter: spec_letter_mark(c),
        stem: stem_of_mark(spec_letter_mark(c)),
        decor: spec_decor(c),
        decor_num: spec_decor_num(c),
        repeat: spec_repeat_count(c) > 0,
    }
}

/// Whether a group on `stem`, holding `count` characters, takes `letter`:
/// an empty group takes anything; a vowel joins when letters stack (or, when
/// they do not, a lone consonant); a consonant joins when letters stack and
/// it is drawn on the group's stem.
pub open spec fn syl_accepts(stem: Option<StemType>, count: nat, letter: GallChar) -> bool {
    if count == 0 {
        true
    } else if letter.letter is GallVowel {
        Config::STACK || (count < 2 && stem != None::<StemType>)
    } else if Config::STACK {
        letter.stem == stem
    } else {
        false
    }
}

/// The group `syl` after it takes `letter`.
pub open spec fn syl_push(syl: SylView, letter: GallChar) -> SylView {
    if syl.1.len() == 0 {
        (letter.stem, seq![letter])
    } else {
        (syl.0, syl.1.push(letter))
    }
}

impl PreSyl {
    /// An empty group.
    pub fn new() -> (s: PreSyl)
        ensures
            s.stem_type is None,
            s.char_vec@.len() == 0,
    {
        PreSyl { stem_type: None, char_vec: Vec::with_capacity(1) }
    }

    fn is_empty(&self) -> (r: bool)
        ensures
            r == (self.char_vec@.len() == 0),
    {
        self.char_vec.is_empty()
    }

    /// Adds `letter` to the group where the group takes it; hands it back
    /// otherwise, leaving the group as it was.
    pub fn push(&mut self, letter: GallChar) -> (r: Result<(), GallChar>)
        ensures
            syl_accepts(old(self).stem_type, old(self).char_vec@.len(), letter) ==> {
                &&& r is Ok
                &&& final(self).view_syl() == syl_push(old(self).view_syl(), letter)
            },
            !syl_accepts(old(self).stem_type, old(self).char_vec@.len(), letter) ==> {
                &&& r == Err::<(), GallChar>(letter)
                &&& final(self).view_syl() == old(self).view_syl()
            },
    {
        if self.is_empty() {
            self.stem_type = letter.stem;
            self.char_vec.push(letter);
            assert(self.char_vec@ =~= seq![letter]);
            Ok(())
        } else if let LetterMark::GallVowel(_) = letter.letter {
            if Config::STACK || (self.char_vec.len() < 2 && self.stem_type.is_some()) {
                self.char_vec.push(letter);
                Ok(())
            } else {
                Err(letter)
            }
        } else if Config::STACK {
            if letter.stem == self.stem_type {
                self.char_vec.push(letter);
                Ok(())
            } else {
                Err(letter)
            }
        } else {
            Err(letter)
        }
    }
}

/// Grouping after the characters of `s`: the closed groups and the open one.
pub open spec fn group_fold(s: Seq<char>) -> (Seq<SylView>, SylView)
    decreases s.len(),
{
    if s.len() == 0 {
        (Seq::empty(), (None, Seq::empty()))
    } else {
        let st = group_fold(s.drop_last());
        let g = spec_gall_char(s.last());
        if syl_accepts(st.1.0, st.1.1.len(), g) {
            (st.0, syl_push(st.1, g))
        } else {
            (st.0.push(st.1), syl_push((None, Seq::empty()), g))
        }
    }
}

/// The groups of the word `s`, in order.
pub open spec fn spec_pre_word(s: Seq<char>) -> Seq<SylView> {
    group_fold(s).0.push(group_fold(s).1)
}

impl PreWord {
    /// Splits `text` into groups: each character joins the current group
    /// where the group takes it, and starts a new group where it does not.
    pub fn new(text: String, len_guess: usize) -> (w: PreWord)
        requires
            text@.len() < usize::MAX,
        ensures
            w.pre_vec@.map_values(|p: PreSyl| p.view_syl()) == spec_pre_word(text@),
            w.len == w.pre_vec@.len(),
    {
        let chars = chars_of(&text);
        let mut pre_vec: Vec<PreSyl> = Vec::with_capacity(len_guess);
        let mut con_vec = PreSyl::new();
        let mut con_count: usize = 1;
        let mut i: usize = 0;
        assert(chars@.take(0) =~= Seq::<char>::empty());
        assert(con_vec.view_syl() =~= (None::<StemType>, Seq::<GallChar>::empty()));
        while i < chars.len()
            invariant
                chars@ == text@,
                chars.len() < usize::MAX,
                i <= chars.len(),
                pre_vec@.map_values(|p: PreSyl| p.view_syl()) == group_fold(chars@.take(i as int)).0,
                con_vec.view_syl() == group_fold(chars@.take(i as int)).1,
                con_count == pre_vec@.len() + 1,
                pre_vec@.len() <= i,
            decreases chars.len() - i,
        {
            let c = chars[i];
            let letter = GallChar::new(c);
            assert(chars@.take(i + 1).drop_last() =~= chars@.take(i as int));
            assert(letter == spec_gall_char(c));
            let ghost before = pre_vec@.map_values(|p: PreSyl| p.view_syl());
            match con_vec.push(letter) {
                Ok(_) => {},
                Err(lett) => {
                    let ghost closed = con_vec.view_syl();
                    pre_vec.push(con_vec);
                    assert(pre_vec@.map_values(|p: PreSyl| p.view_syl()) =~= before.push(closed));
                    con_vec = PreSyl::new();
                    con_count += 1;
                    let _ = con_vec.push(lett);
                },
            };
            i += 1;
        }
        assert(chars@.take(chars.len() as int) =~= chars@);
        let ghost before = pre_vec@.map_values(|p: PreSyl| p.view_syl());
        let ghost last = con_vec.view_syl();
        pre_vec.push(con_vec);
        assert(pre_vec@.map_values(|p: PreSyl| p.view_syl()) =~= before.push(last));
        PreWord { pre_vec, len: con_count }
    }

    /// The number of groups.
    pub fn len(&self) -> (n: usize)
        ensures
            n == self.len,
    {
        self.len
    }
}

/// All the characters of `syls`, group after group.
pub open spec fn flatten_syls(syls: Seq<SylView>) -> Seq<GallChar>
    decreases syls.len(),
{
    if syls.len() == 0 {
        Seq::empty()
    } else {
        flatten_syls(syls.drop_last()) + syls.last().1
    }
}

/// A group is drawn on the stem of its first character, and every
/// consonant or digit in it is drawn on that stem.
pub open spec fn well_grouped(syl: SylView) -> bool {
    syl.1.len() > 0 ==> {
        &&& syl.0 == syl.1[0].stem
        &&& forall|j: int|
            0 <= j < syl.1.len() && !((#[trigger] syl.1[j]).letter is GallVowel) ==> syl.1[j].stem
                == syl.0
    }
}

proof fn lemma_group_fold(s: Seq<char>)
    ensures
        flatten_syls(group_fold(s).0) + group_fold(s).1.1 == s.map_values(|c: char| spec_gall_char(c)),
        forall|k: int| 0 <= k < group_fold(s).0.len() ==> (#[trigger] group_fold(s).0[k]).1.len() > 0,
        forall|k: int| 0 <= k < group_fold(s).0.len() ==> well_grouped(#[trigger] group_fold(s).0[k]),
        well_grouped(group_fold(s).1),
        group_fold(s).1.1.len() > 0 <==> s.len() > 0,
    decreases s.len(),
{
    if s.len() > 0 {
        let p = s.drop_last();
        lemma_group_fold(p);
        let st = group_fold(p);
        let g = spec_gall_char(s.last());
        assert(s.map_values(|c: char| spec_gall_char(c)) =~= p.map_values(|c: char| spec_gall_char(c)).push(g));
        if syl_accepts(st.1.0, st.1.1.len(), g) {
            let n = syl_push(st.1, g);
            assert(n.1 =~= st.1.1.push(g));
            assert(flatten_syls(st.0) + n.1 =~= (flatten_syls(st.0) + st.1.1).push(g));
            assert(well_grouped(n)) by {
                if st.1.1.len() > 0 {
                    assert forall|j: int|
                        0 <= j < n.1.len() && !((#[trigger] n.1[j]).letter is GallVowel) implies n.1[j].stem
                        == n.0 by {
                        if j < st.1.1.len() {
                            assert(n.1[j] == st.1.1[j]);
                        }
                    }
                }
            }
        } else {
            let closed = st.0.push(st.1);
            assert(closed.drop_last() =~= st.0);
            assert(flatten_syls(closed) == flatten_syls(st.0) + st.1.1);
            let n = syl_push((None, Seq::empty()), g);
            assert(n.1 =~= seq![g]);
            assert(flatten_syls(closed) + n.1 =~= (flatten_syls(st.0) + st.1.1).push(g));
            assert forall|k: int| 0 <= k < closed.len() implies (#[trigger] closed[k]).1.len() > 0 by {
                if k < st.0.len() {
                    assert(closed[k] == st.0[k]);
                }
            }
            assert forall|k: int| 0 <= k < closed.len() implies well_grouped(#[trigger] closed[k]) by {
                if k < st.0.len() {
                    assert(closed[k] == st.0[k]);
                }
            }
        }
    }
}

/// Grouping a word keeps every character, in order; every group holds at
/// least one character (the word's single group is empty only for an empty
/// word); and a group is drawn on the stem of its first character, on which
/// every consonant and digit in it is drawn too.
pub proof fn lemma_pre_word_groups(s: Seq<char>)
    ensures
        flatten_syls(spec_pre_word(s)) == s.map_values(|c: char| spec_gall_char(c)),
        spec_pre_word(s).len() >= 1,
        s.len() > 0 ==> forall|k: int|
            0 <= k < spec_pre_word(s).len() ==> (#[trigger] spec_pre_word(s)[k]).1.len() > 0,
        forall|k: int| 0 <= k < spec_pre_word(s).len() ==> well_grouped(#[trigger] spec_pre_word(s)[k]),
{
    lemma_group_fold(s);
    let st = group_fold(s);
    let w = spec_pre_word(s);
    assert(w.drop_last() =~= st.0);
    assert forall|k: int| 0 <= k < w.len() implies well_grouped(#[trigger] w[k]) by {
        if k < st.0.len() {
            assert(w[k] == st.0[k]);
        }
    }
    if s.len() > 0 {
        assert forall|k: int| 0 <= k < w.len() implies (#[trigger] w[k]).1.len() > 0 by {
            if k < st.0.len() {
                assert(w[k] == st.0[k]);
            }
        }
    }
}

/// A group is sound: without characters it has no stem, and with some it is
/// well grouped.
pub open spec fn syl_wf(syl: SylView) -> bool {
    &&& (syl.1.len() == 0 ==> syl.0 is None)
    &&& well_grouped(syl)
}

/// The group that `PreSyl::new` and then `PreSyl::push` of each of
/// `letters`, in turn, leave: a letter the group does not take is handed
/// back and changes nothing.
pub open spec fn syl_after(letters: Seq<GallChar>) -> SylView
    decreases letters.len(),
{
    if letters.len() == 0 {
        (None, Seq::empty())
    } else {
        let s = syl_after(letters.drop_last());
        if syl_accepts(s.0, s.1.len(), letters.last()) {
            syl_push(s, letters.last())
        } else {
            s
        }
    }
}

/// A group that takes a letter stays sound.
pub proof fn lemma_syl_push_wf(syl: SylView, letter: GallChar)
    requires
        syl_wf(syl),
        syl_accepts(syl.0, syl.1.len(), letter),
    ensures
        syl_wf(syl_push(syl, letter)),
{
    let n = syl_push(syl, letter);
    if syl.1.len() > 0 {
        assert(n.1 =~= syl.1.push(letter));
        assert forall|j: int| 0 <= j < n.1.len() && !((#[trigger] n.1[j]).letter is GallVowel) implies n.1[j].stem
            == n.0 by {
            if j < syl.1.len() {
                assert(n.1[j] == syl.1[j]);
            }
        }
    } else {
        assert(n.1 =~= seq![letter]);
    }
}

/// However many letters are pushed onto a new group, it stays sound: an
/// empty group has no stem, and a group with characters is drawn on the stem
/// of its first one, on which every letter in it that is not a vowel is
/// drawn too.
pub proof fn lemma_syl_pushes_wf(letters: Seq<GallChar>)
    ensures
        syl_wf(syl_after(letters)),
    decreases letters.len(),
{
    if letters.len() > 0 {
        lemma_syl_pushes_wf(letters.drop_last());
        let s = syl_after(letters.drop_last());
        if syl_accepts(s.0, s.1.len(), letters.last()) {
            lemma_syl_push_wf(s, letters.last());
        }
    }
}

} // verus!
