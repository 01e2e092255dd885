use vstd::prelude::*;

use crate::gall_errors::{Error, GallError};
use crate::gall_fn::{Decor, LetterMark};
use crate::gall_stem::StemType;
use crate::gall_vowel::VowelType;

verus! {

/// A stem placed in a container: its family, its rank among the container's
/// stems, which repetition of its letter it draws, and whether it carries a
/// digit.
#[derive(Debug, Clone, Copy, PartialEq, Eq, Structural)]
pub struct StemMark {
    pub stem_type: StemType,
    pub rank: usize,
    pub repeat: u8,
    pub digit: bool,
}

/// A vowel placed in a container: its kind, its rank among the container's
/// vowels, and which repetition of its letter it draws.
#[derive(Debug, Clone, Copy, PartialEq, Eq, Structural)]
pub struct VowelMark {
    pub vowel_type: VowelType,
    pub rank: usize,
    pub repeat: u8,
}

/// A dot or a dash: its place number around the letter, and how many stems
/// and vowels the container held when it was added (the letter it sits on).
#[derive(Debug, Clone, Copy, PartialEq, Eq, Structural)]
pub struct DecorMark {
    pub num: i8,
    pub layer: usize,
}

/// What a container knows once a first letter has opened it: its place
/// among the word's containers, the mark that opened it, the stem it is
/// drawn on, and whether it holds vowels.
#[derive(Debug, Clone, Copy, PartialEq, Eq, Structural)]
pub struct TainerState {
    pub index: usize,
    pub mark: LetterMark,
    pub stem_type: Option<StemType>,
    pub vowel: bool,
}

/// A container: the letters and decorations drawn at one place of a word.
pub struct GallTainer {
    pub stem: Vec<StemMark>,
    pub vowel: Vec<VowelMark>,
    pub node: Vec<DecorMark>,
    pub dot: Vec<DecorMark>,
    pub mark: Vec<()>,
    pub state: Option<TainerState>,
}

/// A container as plain values.
pub ghost struct TainerView {
    pub stem: Seq<StemMark>,
    pub vowel: Seq<VowelMark>,
    pub node: Seq<DecorMark>,
    pub dot: Seq<DecorMark>,
    pub mark: nat,
    pub state: Option<TainerState>,
}

/// How a container is drawn: cut into the word's skeleton, set inside or
/// across it, or as a free mark.
#[derive(Debug, Clone, Copy, PartialEq, Eq, Structural)]
pub enum TainerRole {
    Skel,
    Divot,
    Mark,
}

impl View for GallTainer {
    type V = TainerView;

    open spec fn view(&self) -> TainerView {
        TainerView {
            stem: self.stem@,
            vowel: self.vowel@,
            node: self.node@,
            dot: self.dot@,
            mark: self.mark@.len(),
            state: self.state,
        }
    }
}

// ------------------------------------------------------------ the model

/// A container that holds nothing and has no state.
pub open spec fn empty_tainer() -> TainerView {
    TainerView {
        stem: Seq::empty(),
        vowel: Seq::empty(),
        node: Seq::empty(),
        dot: Seq::empty(),
        mark: 0,
        state: None,
    }
}

/// The state of a container opened by `mark` as the word's `index`-th.
pub open spec fn spec_state_new(index: usize, mark: LetterMark) -> TainerState {
    TainerState {
        index,
        mark,
        stem_type: match mark {
            LetterMark::Stem(stem) => Some(stem),
            LetterMark::Digit(_) => Some(StemType::J),
            _ => None,
        },
        vowel: false,
    }
}

/// The container `t` once given its state for `mark`, the `con_count`-th container.
pub open spec fn tv_init(t: TainerView, mark: LetterMark, con_count: usize) -> TainerView {
    TainerView { state: Some(spec_state_new(con_count, mark)), ..t }
}

/// The stem type of the container `t`, if it has a state that gives one.
pub open spec fn tv_stem_type(t: TainerView) -> Option<StemType> {
    match t.state {
        Some(state) => state.stem_type,
        None => None,
    }
}

/// Whether the container `t` holds no stem, no vowel and no mark.
pub open spec fn tv_is_empty(t: TainerView) -> bool {
    t.stem.len() == 0 && t.vowel.len() == 0 && t.mark == 0
}

/// The number of letters (stems and vowels) a container holds.
pub open spec fn tv_layer(t: TainerView) -> int {
    (t.stem.len() + t.vowel.len()) as int
}

/// The container `t` with one stem of type `stem`, its `repeat`-th copy, added
/// on top (where `t` has a state).
pub open spec fn tv_add_stem(t: TainerView, stem: StemType, repeat: u8) -> TainerView {
    if t.state is Some {
        TainerView {
            stem: t.stem.push(StemMark { stem_type: stem, rank: t.stem.len() as usize, repeat, digit: false }),
            ..t
        }
    } else {
        t
    }
}

/// The container `t` with a digit's stem added on top (where `t` has a state).
pub open spec fn tv_add_digit(t: TainerView) -> TainerView {
    if t.state is Some {
        TainerView {
            stem: t.stem.push(
                StemMark { stem_type: StemType::J, rank: t.stem.len() as usize, repeat: 0, digit: true },
            ),
            ..t
        }
    } else {
        t
    }
}

/// The container `t` with one vowel of type `vow`, its `repeat`-th copy, added
/// on top; the first vowel marks the state as holding one.
pub open spec fn tv_add_vowel(t: TainerView, vow: VowelType, repeat: u8) -> TainerView {
    let state = if t.vowel.len() == 0 {
        match t.state {
            Some(s) => Some(TainerState { vowel: true, ..s }),
            None => None,
        }
    } else {
        t.state
    };
    TainerView {
        vowel: t.vowel.push(VowelMark { vowel_type: vow, rank: t.vowel.len() as usize, repeat }),
        state,
        ..t
    }
}

/// The container `t` with a dot numbered `num` added at its current layer.
pub open spec fn tv_add_dot(t: TainerView, num: i8) -> TainerView {
    TainerView { dot: t.dot.push(DecorMark { num, layer: tv_layer(t) as usize }), ..t }
}

/// The container `t` with a dash numbered `num` added at its current layer.
pub open spec fn tv_add_dash(t: TainerView, num: i8) -> TainerView {
    TainerView { node: t.node.push(DecorMark { num, layer: tv_layer(t) as usize }), ..t }
}

/// `t` after stems of family `stem` for the repetitions `0..k`.
pub open spec fn tv_stems(t: TainerView, stem: StemType, k: nat) -> TainerView
    decreases k,
{
    if k == 0 {
        t
    } else {
        tv_add_stem(tv_stems(t, stem, (k - 1) as nat), stem, (k - 1) as u8)
    }
}

/// `t` after vowels of kind `vow` for the repetitions `0..k`.
pub open spec fn tv_vowels(t: TainerView, vow: VowelType, k: nat) -> TainerView
    decreases k,
{
    if k == 0 {
        t
    } else {
        tv_add_vowel(tv_vowels(t, vow, (k - 1) as nat), vow, (k - 1) as u8)
    }
}

/// `t` after `k` dots, numbered from -1.
pub open spec fn tv_dots(t: TainerView, k: nat) -> TainerView
    decreases k,
{
    if k == 0 {
        t
    } else {
        tv_add_dot(tv_dots(t, (k - 1) as nat), (k - 2) as i8)
    }
}

/// `t` after `k` dashes, numbered from -1.
pub open spec fn tv_dashes(t: TainerView, k: nat) -> TainerView
    decreases k,
{
    if k == 0 {
        t
    } else {
        tv_add_dash(tv_dashes(t, (k - 1) as nat), (k - 2) as i8)
    }
}

/// The size of `n`.
pub open spec fn abs_i8(n: i8) -> int {
    if n < 0 {
        -n
    } else {
        n as int
    }
}

/// `t` after it takes a letter of mark `l_mark` with decoration `d_mark`,
/// repeated `repeat` more times.
pub open spec fn tv_populate(t: TainerView, l_mark: LetterMark, d_mark: (Option<Decor>, i8), repeat: u8) -> TainerView {
    let lettered = match l_mark {
        LetterMark::Stem(stem) => tv_stems(t, stem, repeat as nat + 1),
        LetterMark::GallVowel(vow) => tv_vowels(t, vow, repeat as nat + 1),
        LetterMark::Digit(num) => {
            let with_digit = tv_add_digit(t);
            if abs_i8(num) >= 5 {
                tv_add_dot(with_digit, 1)
            } else {
                with_digit
            }
        },
        LetterMark::GallMark => t,
    };
    let count: nat = if d_mark.1 > 0 { d_mark.1 as nat } else { 0 };
    match d_mark.0 {
        Some(Decor::Dot) => tv_dots(lettered, count),
        Some(Decor::Dash) => tv_dashes(lettered, count),
        None => lettered,
    }
}

/// The number of marks of any kind a container holds.
pub open spec fn tv_size(t: TainerView) -> int {
    (t.stem.len() + t.vowel.len() + t.node.len() + t.dot.len()) as int
}

/// How a container is drawn: a container on a B or S stem is cut into the
/// skeleton; one on a J or Z stem, or holding vowels only, sits inside or
/// across it; anything else is a free mark.
pub open spec fn spec_role(stem_type: Option<StemType>, has_vowel: bool) -> TainerRole {
    match stem_type {
        None => if has_vowel { TainerRole::Divot } else { TainerRole::Mark },
        Some(StemType::B) | Some(StemType::S) => TainerRole::Skel,
        Some(_) => TainerRole::Divot,
    }
}

/// A well-formed open container: it is open; its stems are ranked in order,
/// all on the container's stem, each for a first, second or third
/// repetition; its vowels are ranked in order; each dot and dash sits on a
/// letter it holds; it records whether it holds vowels; it holds no free
/// mark.
pub open spec fn tainer_wf(t: TainerView) -> bool {
    &&& t.state is Some
    &&& forall|k: int|
        0 <= k < t.stem.len() ==> {
            &&& (#[trigger] t.stem[k]).rank == k
            &&& Some(t.stem[k].stem_type) == t.state->0.stem_type
            &&& t.stem[k].repeat <= 2
        }
    &&& forall|k: int| 0 <= k < t.vowel.len() ==> (#[trigger] t.vowel[k]).rank == k
    &&& forall|k: int| 0 <= k < t.dot.len() ==> (#[trigger] t.dot[k]).layer <= tv_layer(t)
    &&& forall|k: int| 0 <= k < t.node.len() ==> (#[trigger] t.node[k]).layer <= tv_layer(t)
    &&& t.state->0.vowel == (t.vowel.len() > 0)
    &&& t.mark == 0
}

proof fn lemma_stems_wf(t: TainerView, stem: StemType, k: nat)
    requires
        tainer_wf(t),
        Some(stem) == tv_stem_type(t),
        k <= 3,
        tv_layer(t) + k <= usize::MAX,
    ensures
        tainer_wf(tv_stems(t, stem, k)),
        tv_stems(t, stem, k).state == t.state,
        tv_layer(tv_stems(t, stem, k)) == tv_layer(t) + k,
    decreases k,
{
    if k > 0 {
        lemma_stems_wf(t, stem, (k - 1) as nat);
        let p = tv_stems(t, stem, (k - 1) as nat);
        let n = tv_stems(t, stem, k);
        assert forall|j: int| 0 <= j < n.stem.len() implies {
            &&& (#[trigger] n.stem[j]).rank == j
            &&& Some(n.stem[j].stem_type) == n.state->0.stem_type
            &&& n.stem[j].repeat <= 2
        } by {
            if j < p.stem.len() {
                assert(n.stem[j] == p.stem[j]);
            }
        }
    }
}

proof fn lemma_vowels_wf(t: TainerView, vow: VowelType, k: nat)
    requires
        tainer_wf(t),
        k <= 3,
        tv_layer(t) + k <= usize::MAX,
    ensures
        tainer_wf(tv_vowels(t, vow, k)),
        tv_vowels(t, vow, k).state->0.stem_type == t.state->0.stem_type,
        tv_vowels(t, vow, k).state->0.index == t.state->0.index,
        tv_layer(tv_vowels(t, vow, k)) == tv_layer(t) + k,
    decreases k,
{
    if k > 0 {
        lemma_vowels_wf(t, vow, (k - 1) as nat);
        let p = tv_vowels(t, vow, (k - 1) as nat);
        let n = tv_vowels(t, vow, k);
        assert forall|j: int| 0 <= j < n.vowel.len() implies (#[trigger] n.vowel[j]).rank == j by {
            if j < p.vowel.len() {
                assert(n.vowel[j] == p.vowel[j]);
            }
        }
    }
}

proof fn lemma_dots_wf(t: TainerView, k: nat)
    requires
        tainer_wf(t),
        tv_layer(t) <= usize::MAX,
    ensures
        tainer_wf(tv_dots(t, k)),
        tv_dots(t, k).state == t.state,
        tv_dots(t, k).stem == t.stem,
        tv_dots(t, k).vowel == t.vowel,
    decreases k,
{
    if k > 0 {
        lemma_dots_wf(t, (k - 1) as nat);
        let p = tv_dots(t, (k - 1) as nat);
        let n = tv_dots(t, k);
        assert forall|j: int| 0 <= j < n.dot.len() implies (#[trigger] n.dot[j]).layer <= tv_layer(n) by {
            if j < p.dot.len() {
                assert(n.dot[j] == p.dot[j]);
            }
        }
    }
}

proof fn lemma_dashes_wf(t: TainerView, k: nat)
    requires
        tainer_wf(t),
        tv_layer(t) <= usize::MAX,
    ensures
        tainer_wf(tv_dashes(t, k)),
        tv_dashes(t, k).state == t.state,
        tv_dashes(t, k).stem == t.stem,
        tv_dashes(t, k).vowel == t.vowel,
    decreases k,
{
    if k > 0 {
        lemma_dashes_wf(t, (k - 1) as nat);
        let p = tv_dashes(t, (k - 1) as nat);
        let n = tv_dashes(t, k);
        assert forall|j: int| 0 <= j < n.node.len() implies (#[trigger] n.node[j]).layer <= tv_layer(n) by {
            if j < p.node.len() {
                assert(n.node[j] == p.node[j]);
            }
        }
    }
}

/// Adding a letter keeps an open container well formed, provided a
/// consonant goes on the container's own stem and a digit on a J stem; the
/// container keeps its place and its stem.
pub proof fn lemma_populate_wf(t: TainerView, l_mark: LetterMark, d_mark: (Option<Decor>, i8), repeat: u8)
    requires
        tainer_wf(t),
        repeat <= 2,
        tv_layer(t) + 3 <= usize::MAX,
        l_mark is Stem ==> Some(l_mark->Stem_0) == tv_stem_type(t),
        l_mark is Digit ==> tv_stem_type(t) == Some(StemType::J),
    ensures
        tainer_wf(tv_populate(t, l_mark, d_mark, repeat)),
        tv_populate(t, l_mark, d_mark, repeat).state->0.index == t.state->0.index,
        tv_populate(t, l_mark, d_mark, repeat).state->0.stem_type == t.state->0.stem_type,
        tv_layer(tv_populate(t, l_mark, d_mark, repeat)) <= tv_layer(t) + 3,
{
    let lettered = match l_mark {
        LetterMark::Stem(stem) => tv_stems(t, stem, repeat as nat + 1),
        LetterMark::GallVowel(vow) => tv_vowels(t, vow, repeat as nat + 1),
        LetterMark::Digit(num) => {
            let with_digit = tv_add_digit(t);
            if abs_i8(num) >= 5 {
                tv_add_dot(with_digit, 1)
            } else {
                with_digit
            }
        },
        LetterMark::GallMark => t,
    };
    match l_mark {
        LetterMark::Stem(stem) => lemma_stems_wf(t, stem, repeat as nat + 1),
        LetterMark::GallVowel(vow) => lemma_vowels_wf(t, vow, repeat as nat + 1),
        LetterMark::Digit(num) => {
            let w = tv_add_digit(t);
            assert forall|j: int| 0 <= j < w.stem.len() implies {
                &&& (#[trigger] w.stem[j]).rank == j
                &&& Some(w.stem[j].stem_type) == w.state->0.stem_type
                &&& w.stem[j].repeat <= 2
            } by {
                if j < t.stem.len() {
                    assert(w.stem[j] == t.stem[j]);
                }
            }
            assert(tainer_wf(w));
            if abs_i8(num) >= 5 {
                let v = tv_add_dot(w, 1);
                assert forall|j: int| 0 <= j < v.dot.len() implies (#[trigger] v.dot[j]).layer <= tv_layer(v) by {
                    if j < w.dot.len() {
                        assert(v.dot[j] == w.dot[j]);
                    }
                }
            }
        },
        LetterMark::GallMark => {},
    }
    assert(tainer_wf(lettered));
    let count: nat = if d_mark.1 > 0 { d_mark.1 as nat } else { 0 };
    lemma_dots_wf(lettered, count);
    lemma_dashes_wf(lettered, count);
}

// ------------------------------------------------------- the container

impl GallTainer {
    /// An empty container that no letter has opened yet.
    pub fn new() -> (t: GallTainer)
        ensures
            t@ == empty_tainer(),
    {
        GallTainer {
            stem: Vec::new(),
            vowel: Vec::new(),
            node: Vec::new(),
            dot: Vec::new(),
            mark: Vec::new(),
            state: None,
        }
    }

    /// Opens the container with its first letter's mark as the word's
    /// `con_count`-th; returns the next count.
    pub fn init(&mut self, mark: &LetterMark, con_count: usize) -> (next: usize)
        requires
            old(self).state is None,
            !(*mark is GallMark),
            con_count < usize::MAX,
        ensures
            final(self)@ == tv_init(old(self)@, *mark, con_count),
            next == con_count + 1,
    {
        let stem_type = match mark {
            LetterMark::Stem(stem) => Some(*stem),
            LetterMark::Digit(_) => Some(StemType::J),
            _ => None,
        };
        self.state = Some(TainerState { index: con_count, mark: *mark, stem_type, vowel: false });
        con_count + 1
    }

    pub fn is_stateless(&self) -> (r: bool)
        ensures
            r == (self.state is None),
    {
        self.state.is_none()
    }

    /// The stem the container is drawn on, once it is open.
    pub fn stem_type(&self) -> (r: Option<StemType>)
        ensures
            r == tv_stem_type(self@),
    {
        match &self.state {
            Some(state) => state.stem_type,
            None => None,
        }
    }

    /// Whether the container holds no stem, vowel or mark.
    pub fn is_empty(&self) -> (r: bool)
        ensures
            r == tv_is_empty(self@),
    {
        self.stem.is_empty() && self.vowel.is_empty() && self.mark.is_empty()
    }

    /// The state of the container, or `TainerNotInit` before it is opened.
    pub fn get_state(&self) -> (r: Result<&TainerState, Error>)
        ensures
            match r {
                Ok(state) => self.state == Some(*state),
                Err(e) => self.state is None && e.error_type == GallError::TainerNotInit,
            },
    {
        match &self.state {
            Some(state) => Ok(state),
            None => Err(Error::new(GallError::TainerNotInit)),
        }
    }

    /// Adds a stem of family `stem` for repetition `repeat` of its letter,
    /// once the container is open.
    pub fn add_stem(&mut self, stem: StemType, repeat: u8)
        ensures
            final(self)@ == tv_add_stem(old(self)@, stem, repeat),
    {
        let rank = self.stem.len();
        if self.state.is_some() {
            self.stem.push(StemMark { stem_type: stem, rank, repeat, digit: false });
        }
    }

    /// Adds the J stem that carries a digit, once the container is open.
    pub fn add_digit(&mut self)
        ensures
            final(self)@ == tv_add_digit(old(self)@),
    {
        let rank = self.stem.len();
        if self.state.is_some() {
            self.stem.push(StemMark { stem_type: StemType::J, rank, repeat: 0, digit: true });
        }
    }

    fn init_state_vow(&mut self)
        ensures
            final(self)@ == (TainerView {
                state: match old(self).state {
                    Some(s) => Some(TainerState { vowel: true, ..s }),
                    None => None,
                },
                ..old(self)@
            }),
    {
        if let Some(state) = &mut self.state {
            state.vowel = true;
        }
    }

    /// Adds a vowel of kind `vow` for repetition `repeat` of its letter.
    pub fn add_vowel(&mut self, vow: VowelType, repeat: u8)
        requires
            old(self).state is Some,
        ensures
            final(self)@ == tv_add_vowel(old(self)@, vow, repeat),
    {
        let rank = self.vowel.len();
        if rank == 0 {
            self.init_state_vow();
        }
        self.vowel.push(VowelMark { vowel_type: vow, rank, repeat });
    }

    /// Adds a dot with place number `num` on the current letter.
    pub fn add_dot(&mut self, num: i8) -> (r: Result<(), Error>)
        requires
            old(self).state is Some,
            tv_layer(old(self)@) <= usize::MAX,
        ensures
            r is Ok,
            final(self)@ == tv_add_dot(old(self)@, num),
    {
        let layer = self.stem.len() + self.vowel.len();
        self.dot.push(DecorMark { num, layer });
        Ok(())
    }

    /// Adds a dash with place number `num` on the current letter.
    pub fn add_dash(&mut self, num: i8) -> (r: Result<(), Error>)
        requires
            old(self).state is Some,
            tv_layer(old(self)@) <= usize::MAX,
        ensures
            r is Ok,
            final(self)@ == tv_add_dash(old(self)@, num),
    {
        let layer = self.stem.len() + self.vowel.len();
        self.node.push(DecorMark { num, layer });
        Ok(())
    }

    /// Adds a letter of mark `l_mark`, repeated `repeat` more times, and its
    /// decoration `d_mark`.
    pub fn populate(&mut self, l_mark: LetterMark, d_mark: (Option<Decor>, i8), repeat: u8)
        requires
            old(self).state is Some,
            l_mark != LetterMark::Digit(i8::MIN),
            tv_size(old(self)@) + 384 <= usize::MAX,
        ensures
            final(self)@ == tv_populate(old(self)@, l_mark, d_mark, repeat),
            final(self).state is Some,
            tv_size(final(self)@) <= tv_size(old(self)@) + (if l_mark is Digit { 2 } else { repeat as int + 1 }) + (
            if d_mark.1 > 0 { d_mark.1 as int } else { 0 }),
    {
        let ghost t0 = self@;
        match l_mark {
            LetterMark::Stem(stem) => {
                let mut n: u16 = 0;
                while n <= repeat as u16
                    invariant
                        n <= repeat + 1,
                        self@ == tv_stems(t0, stem, n as nat),
                        self.state is Some,
                        tv_size(self@) == tv_size(t0) + n,
                        tv_size(t0) + 384 <= usize::MAX,
                    decreases repeat + 1 - n,
                {
                    self.add_stem(stem, n as u8);
                    n += 1;
                }
            },
            LetterMark::GallVowel(vow) => {
                let mut n: u16 = 0;
                while n <= repeat as u16
                    invariant
                        n <= repeat + 1,
                        self@ == tv_vowels(t0, vow, n as nat),
                        self.state is Some,
                        tv_size(self@) == tv_size(t0) + n,
                        tv_size(t0) + 384 <= usize::MAX,
                    decreases repeat + 1 - n,
                {
                    self.add_vowel(vow, n as u8);
                    n += 1;
                }
            },
            LetterMark::Digit(num) => {
                self.add_digit();
                let mut num = num;
                if num < 0 {
                    num = -num;
                }
                if num >= 5 {
                    let _ = self.add_dot(1);
                }
            },
            LetterMark::GallMark => {},
        }
        let ghost t1 = self@;
        let ghost lettered = match l_mark {
            LetterMark::Stem(stem) => tv_stems(t0, stem, repeat as nat + 1),
            LetterMark::GallVowel(vow) => tv_vowels(t0, vow, repeat as nat + 1),
            LetterMark::Digit(num) => {
                let with_digit = tv_add_digit(t0);
                if abs_i8(num) >= 5 {
                    tv_add_dot(with_digit, 1)
                } else {
                    with_digit
                }
            },
            LetterMark::GallMark => t0,
        };
        assert(t1 == lettered);
        match d_mark.0 {
            Some(Decor::Dot) => self.add_dots(d_mark.1),
            Some(Decor::Dash) => self.add_dashes(d_mark.1),
            None => {},
        }
    }

    /// Adds `count` dots, numbered from -1.
    fn add_dots(&mut self, count: i8)
        requires
            old(self).state is Some,
            tv_size(old(self)@) + 128 <= usize::MAX,
        ensures
            final(self)@ == tv_dots(old(self)@, if count > 0 { count as nat } else { 0 }),
            final(self).state == old(self).state,
            tv_size(final(self)@) == tv_size(old(self)@) + (if count > 0 { count as int } else { 0 }),
    {
        let ghost t1 = self@;
        let mut n: i8 = 0;
        while n < count
            invariant
                0 <= n,
                n <= (if count > 0 { count } else { 0 }),
                self@ == tv_dots(t1, n as nat),
                self.state == t1.state,
                t1.state is Some,
                tv_size(self@) == tv_size(t1) + n,
                tv_size(t1) + 128 <= usize::MAX,
            decreases count - n,
        {
            let _ = self.add_dot(n - 1);
            n += 1;
        }
    }

    /// Adds `count` dashes, numbered from -1.
    fn add_dashes(&mut self, count: i8)
        requires
            old(self).state is Some,
            tv_size(old(self)@) + 128 <= usize::MAX,
        ensures
            final(self)@ == tv_dashes(old(self)@, if count > 0 { count as nat } else { 0 }),
            final(self).state == old(self).state,
            tv_size(final(self)@) == tv_size(old(self)@) + (if count > 0 { count as int } else { 0 }),
    {
        let ghost t1 = self@;
        let mut n: i8 = 0;
        while n < count
            invariant
                0 <= n,
                n <= (if count > 0 { count } else { 0 }),
                self@ == tv_dashes(t1, n as nat),
                self.state == t1.state,
                t1.state is Some,
                tv_size(self@) == tv_size(t1) + n,
                tv_size(t1) + 128 <= usize::MAX,
            decreases count - n,
        {
            let _ = self.add_dash(n - 1);
            n += 1;
        }
    }

    /// The stems that bound the container's letters: the first stem twice
    /// for a B stem, else the first and the last; `NoStemInTainer` where
    /// there is no stem.
    pub fn stack_check(&self) -> (r: Result<(usize, usize), Error>)
        ensures
            self.stem@.len() == 0 <==> r is Err,
            r matches Err(e) ==> e.error_type == GallError::NoStemInTainer,
            r matches Ok(pair) ==> pair == (0usize, if tv_stem_type(self@) == Some(StemType::B) {
                0usize
            } else {
                (self.stem@.len() - 1) as usize
            }),
    {
        if self.stem.len() > 0 {
            if self.stem_type() == Some(StemType::B) {
                Ok((0, 0))
            } else {
                Ok((0, self.stem.len() - 1))
            }
        } else {
            Err(Error::new(GallError::NoStemInTainer))
        }
    }

    /// How the container is drawn.
    pub fn role(&self) -> (r: TainerRole)
        ensures
            r == spec_role(tv_stem_type(self@), self.vowel@.len() > 0),
    {
        match self.stem_type() {
            None => if self.vowel.is_empty() {
                TainerRole::Mark
            } else {
                TainerRole::Divot
            },
            Some(stem_type) => match stem_type {
                StemType::J => TainerRole::Divot,
                StemType::B => TainerRole::Skel,
                StemType::S => TainerRole::Skel,
                StemType::Z => TainerRole::Divot,
            },
        }
    }
}

} // verus!
