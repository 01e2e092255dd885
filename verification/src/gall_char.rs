use vstd::prelude::*;

use crate::gall_fn::{self, spec_decor, spec_decor_num, spec_letter_mark, spec_repeat_count, Decor, LetterMark};
use crate::gall_stem::StemType;

verus! {

/// The stem a letter of mark `mark` is drawn on: its own for a consonant,
/// a J stem for a digit, none for a vowel or another mark.
pub open spec fn stem_of_mark(mark: LetterMark) -> Option<StemType> {
    match mark {
        LetterMark::Stem(val) => Some(val),
        LetterMark::GallVowel(_) => None,
        LetterMark::Digit(_) => Some(StemType::J),
        LetterMark::GallMark => None,
    }
}

/// One character of a word with what its drawing needs.
pub struct GallChar {
    pub letter: LetterMark,
    pub stem: Option<StemType>,
    pub decor: Option<Decor>,
    pub decor_num: i8,
    pub repeat: bool,
}

impl GallChar {
    /// The character `letter` with its mark, stem, decoration and repeat.
    pub fn new(letter: char) -> (g: GallChar)
        ensures
            g.letter == spec_letter_mark(letter),
            g.stem == stem_of_mark(spec_letter_mark(letter)),
            g.decor == spec_decor(letter),
            g.decor_num == spec_decor_num(letter),
            g.repeat == (spec_repeat_count(letter) > 0),
    {
        let (l_mark, repeat) = gall_fn::stem_lookup(&letter);
        let stem = match l_mark {
            LetterMark::Stem(val) => Some(val),
            LetterMark::GallVowel(_) => None,
            LetterMark::Digit(_) => Some(StemType::J),
            LetterMark::GallMark => None,
        };
        let (decor, decor_num) = gall_fn::dot_lookup(&letter);
        GallChar { letter: l_mark, stem, decor, decor_num, repeat: repeat > 0 }
    }
}

} // verus!
