use vstd::prelude::*;

use crate::gall_stem::StemType;
use crate::gall_text::{apply_table, chars_of, no_double, replace_all, replaced, string_of};
use crate::gall_vowel::VowelType;

verus! {

/// What a character of a parsed word stands for.
#[derive(Debug, Clone, Copy, PartialEq, Eq, Structural)]
pub enum LetterMark {
    Stem(StemType),
    GallVowel(VowelType),
    GallMark,
    Digit(i8),
}

/// The decoration drawn on a letter.
#[derive(Debug, Clone, Copy, PartialEq, Eq, Structural)]
pub enum Decor {
    Dot,
    Dash,
}

/// The size class of a word, by its number of letters.
#[derive(Debug, Clone, Copy, PartialEq, Eq, Structural)]
pub enum Size {
    Small,
    Med,
    Large,
}

/// A word after parsing: its encoded text and what the layout needs of it.
pub struct ProcessedWord {
    pub word: String,
    pub length: usize,
    pub vowels: usize,
    pub size: Size,
    pub a_flag: bool,
    pub z_stem: bool,
    pub s_stem: bool,
    pub neg_digit: Vec<bool>,
}

// ---------------------------------------------------------------- lookups

/// The mark of a character.
pub open spec fn spec_letter_mark(letter: char) -> LetterMark {
    match letter {
        'A'|'a'|'\u{ea01}'|'\u{ea21}'                           => LetterMark::GallVowel(VowelType::A),
        'E'|'e'|'\u{ea05}'|'\u{ea25}'                           => LetterMark::GallVowel(VowelType::E),
        'I'|'i'|'\u{ea09}'|'\u{ea29}'                           => LetterMark::GallVowel(VowelType::I),
        'O'|'o'|'\u{ea0f}'|'\u{ea2f}'                           => LetterMark::GallVowel(VowelType::O2),
        'U'|'u'|'\u{ea15}'|'\u{ea35}'                           => LetterMark::GallVowel(VowelType::U),
        '█'|'B'|'D'|'F'|'G'|'H'|'b'|'d'|'f'|'g'|'h'             => LetterMark::Stem(StemType::B),
        'C'|'J'|'K'|'L'|'M'|'N'|'P'|'c'|'j'|'k'|'l'|'m'|'n'|'p' => LetterMark::Stem(StemType::J),
        'R'|'S'|'T'|'V'|'W'|'r'|'s'|'t'|'v'|'w'                 => LetterMark::Stem(StemType::S),
        'Q'|'X'|'Y'|'Z'|'q'|'x'|'y'|'z'                         => LetterMark::Stem(StemType::Z),
        '0'                                                     => LetterMark::Digit(0),
        '1'                                                     => LetterMark::Digit(1),
        '2'                                                     => LetterMark::Digit(2),
        '3'                                                     => LetterMark::Digit(3),
        '4'                                                     => LetterMark::Digit(4),
        '5'                                                     => LetterMark::Digit(5),
        '6'                                                     => LetterMark::Digit(6),
        '7'                                                     => LetterMark::Digit(7),
        '8'                                                     => LetterMark::Digit(8),
        '9'                                                     => LetterMark::Digit(9),
        '\u{e100}'..='\u{e2ff}'                                 => LetterMark::Stem(StemType::B),
        '\u{e300}'..='\u{e3ff}'                                 => LetterMark::Stem(StemType::J),
        '\u{e400}'..='\u{e6ff}'                                 => LetterMark::Stem(StemType::S),
        '\u{e700}'..='\u{e9ff}'|'\u{e000}'..='\u{e0ff}'         => LetterMark::Stem(StemType::Z),
        '\u{ea02}'|'\u{ea04}'|'\u{ea06}'|'\u{ea07}'|'\u{ea08}'  => LetterMark::Stem(StemType::B),
        '\u{ea03}'|'\u{ea0a}'..='\u{ea0e}'|'\u{ea10}'           => LetterMark::Stem(StemType::J),
        '\u{ea12}'|'\u{ea13}'|'\u{ea14}'|'\u{ea16}'|'\u{ea17}'  => LetterMark::Stem(StemType::S),
        '\u{ea11}'|'\u{ea18}'|'\u{ea19}'|'\u{ea1a}'             => LetterMark::Stem(StemType::Z),
        '\u{ea22}'|'\u{ea24}'|'\u{ea26}'|'\u{ea27}'|'\u{ea28}'  => LetterMark::Stem(StemType::B),
        '\u{ea23}'|'\u{ea2a}'..='\u{ea2e}'|'\u{ea30}'           => LetterMark::Stem(StemType::J),
        '\u{ea32}'|'\u{ea33}'|'\u{ea34}'|'\u{ea36}'|'\u{ea37}'  => LetterMark::Stem(StemType::S),
        '\u{ea31}'|'\u{ea38}'|'\u{ea39}'|'\u{ea3a}'             => LetterMark::Stem(StemType::Z),
        _ => LetterMark::GallMark,
    }
}

/// How many times a repeat glyph repeats its letter (0 for other characters).
pub open spec fn spec_repeat_count(letter: char) -> u8 {
    match letter {
        '\u{ea01}'..='\u{ea1a}' => 1,
        '\u{ea21}'..='\u{ea3a}' => 2,
        _ => 0,
    }
}

/// The mark of `letter` and how many times it repeats its letter.
pub open spec fn spec_stem_lookup(letter: char) -> (LetterMark, u8) {
    (spec_letter_mark(letter), spec_repeat_count(letter))
}

/// The mark of `letter` and how many times it repeats its letter.
pub fn stem_lookup(letter: &char) -> (r: (LetterMark, u8))
    ensures
        r == spec_stem_lookup(*letter),
{
    let stem: LetterMark = match *letter {
        'A'|'a'|'\u{ea01}'|'\u{ea21}'                           => LetterMark::GallVowel(VowelType::A),
        'E'|'e'|'\u{ea05}'|'\u{ea25}'                           => LetterMark::GallVowel(VowelType::E),
        'I'|'i'|'\u{ea09}'|'\u{ea29}'                           => LetterMark::GallVowel(VowelType::I),
        'O'|'o'|'\u{ea0f}'|'\u{ea2f}'                           => LetterMark::GallVowel(VowelType::O2),
        'U'|'u'|'\u{ea15}'|'\u{ea35}'                           => LetterMark::GallVowel(VowelType::U),
        '█'|'B'|'D'|'F'|'G'|'H'|'b'|'d'|'f'|'g'|'h'             => LetterMark::Stem(StemType::B),
        'C'|'J'|'K'|'L'|'M'|'N'|'P'|'c'|'j'|'k'|'l'|'m'|'n'|'p' => LetterMark::Stem(StemType::J),
        'R'|'S'|'T'|'V'|'W'|'r'|'s'|'t'|'v'|'w'                 => LetterMark::Stem(StemType::S),
        'Q'|'X'|'Y'|'Z'|'q'|'x'|'y'|'z'                         => LetterMark::Stem(StemType::Z),
        '0'                                                     => LetterMark::Digit(0),
        '1'                                                     => LetterMark::Digit(1),
        '2'                                                     => LetterMark::Digit(2),
        '3'                                                     => LetterMark::Digit(3),
        '4'                                                     => LetterMark::Digit(4),
        '5'                                                     => LetterMark::Digit(5),
        '6'                                                     => LetterMark::Digit(6),
        '7'                                                     => LetterMark::Digit(7),
        '8'                                                     => LetterMark::Digit(8),
        '9'                                                     => LetterMark::Digit(9),
        '\u{e100}'..='\u{e2ff}'                                 => LetterMark::Stem(StemType::B),
        '\u{e300}'..='\u{e3ff}'                                 => LetterMark::Stem(StemType::J),
        '\u{e400}'..='\u{e6ff}'                                 => LetterMark::Stem(StemType::S),
        '\u{e700}'..='\u{e9ff}'|'\u{e000}'..='\u{e0ff}'         => LetterMark::Stem(StemType::Z),
        '\u{ea02}'|'\u{ea04}'|'\u{ea06}'|'\u{ea07}'|'\u{ea08}'  => LetterMark::Stem(StemType::B),
        '\u{ea03}'|'\u{ea0a}'..='\u{ea0e}'|'\u{ea10}'           => LetterMark::Stem(StemType::J),
        '\u{ea12}'|'\u{ea13}'|'\u{ea14}'|'\u{ea16}'|'\u{ea17}'  => LetterMark::Stem(StemType::S),
        '\u{ea11}'|'\u{ea18}'|'\u{ea19}'|'\u{ea1a}'             => LetterMark::Stem(StemType::Z),
        '\u{ea22}'|'\u{ea24}'|'\u{ea26}'|'\u{ea27}'|'\u{ea28}'  => LetterMark::Stem(StemType::B),
        '\u{ea23}'|'\u{ea2a}'..='\u{ea2e}'|'\u{ea30}'           => LetterMark::Stem(StemType::J),
        '\u{ea32}'|'\u{ea33}'|'\u{ea34}'|'\u{ea36}'|'\u{ea37}'  => LetterMark::Stem(StemType::S),
        '\u{ea31}'|'\u{ea38}'|'\u{ea39}'|'\u{ea3a}'             => LetterMark::Stem(StemType::Z),
        _ => LetterMark::GallMark,
    };
    let repeat: u8 = match *letter {
        '\u{ea01}'..='\u{ea1a}' => 1,
        '\u{ea21}'..='\u{ea3a}' => 2,
        _ => 0,
    };
    (stem, repeat)
}

/// The decoration of a character.
pub open spec fn spec_decor(letter: char) -> Option<Decor> {
    match letter {
        'C'|'D'|'K'|'L'|'Q'|'R'|'Y'|'Z'|'c'|'d'|'k'|'l'|'q'|'r'|'y'|'z' => Some(Decor::Dot),
        'F'|'G'|'H'|'I'|'M'|'N'|'P'|'S'|'U'|'V'|'W'|'X'|'f'|'g'|'h'|'i'|'m'|'n'|'p'|'s'|'u'|'v'|'w'|'x' => Some(Decor::Dash),
        'A'|'B'|'E'|'J'|'O'|'T'|'a'|'b'|'e'|'j'|'o'|'t' => None,
        '0'|'1'|'2'|'3'|'4'|'5'|'6'|'7'|'8'|'9' => None,
        '\u{e000}'..='\u{e0ff}' => None,
        '\u{e800}'..='\u{e9ff}' => Some(Decor::Dash),
        '\u{e100}'..='\u{e7ff}' => Some(Decor::Dot),
        '\u{ea03}'|'\u{ea04}'|'\u{ea0b}'|'\u{ea0c}'|'\u{ea11}'|'\u{ea12}'|'\u{ea19}'|'\u{ea1a}' => Some(Decor::Dot),
        '\u{ea06}'..='\u{ea09}'|'\u{ea0d}'|'\u{ea0e}'|'\u{ea10}'|'\u{ea13}'|'\u{ea15}'..='\u{ea18}' => Some(Decor::Dash),
        '\u{ea01}'|'\u{ea02}'|'\u{ea05}'|'\u{ea0f}'|'\u{ea14}' => None,
        '\u{ea23}'|'\u{ea24}'|'\u{ea2b}'|'\u{ea2c}'|'\u{ea31}'|'\u{ea32}'|'\u{ea39}'|'\u{ea3a}' => Some(Decor::Dot),
        '\u{ea26}'..='\u{ea29}'|'\u{ea2d}'|'\u{ea2e}'|'\u{ea30}'|'\u{ea33}'|'\u{ea35}'..='\u{ea38}' => Some(Decor::Dash),
        '\u{ea21}'|'\u{ea22}'|'\u{ea25}'|'\u{ea2f}'|'\u{ea34}' => None,
        _ => None,
    }
}

/// How many decorations a character carries.
pub open spec fn spec_decor_num(letter: char) -> i8 {
    if spec_decor(letter) is Some {
        match letter {
                'G'|'I'|'N'|'U'|'V'|'g'|'i'|'n'|'u'|'v' => 1,
                'H'|'K'|'P'|'W'|'X'|'Y'|'h'|'k'|'p'|'w'|'x'|'y' => 2,
                'D'|'F'|'L'|'M'|'R'|'S'|'Z'|'d'|'f'|'l'|'m'|'r'|'s'|'z' => 3,
                'C'|'Q'|'c'|'q' => 4,
                '\u{e300}'|'\u{e400}'|'\u{e700}'|'\u{e900}' => 1,
                '\u{e100}'|'\u{e500}' => 2,
                '\u{e800}' => 3,
                '\u{e200}'|'\u{e600}'|'\u{ea03}'|'\u{ea11}' => 4,
                '\u{ea07}'|'\u{ea09}'|'\u{ea0e}'|'\u{ea15}'|'\u{ea16}' => 1,
                '\u{ea08}'|'\u{ea0b}'|'\u{ea10}'|'\u{ea17}'|'\u{ea18}'|'\u{ea19}' => 2,
                '\u{ea04}'|'\u{ea06}'|'\u{ea0c}'|'\u{ea0d}'|'\u{ea12}'|'\u{ea13}'|'\u{ea1a}' => 3,
                '\u{ea27}'|'\u{ea29}'|'\u{ea2e}'|'\u{ea35}'|'\u{ea36}' => 1,
                '\u{ea28}'|'\u{ea2b}'|'\u{ea30}'|'\u{ea37}'|'\u{ea38}'|'\u{ea39}' => 2,
                '\u{ea24}'|'\u{ea26}'|'\u{ea2c}'|'\u{ea2d}'|'\u{ea32}'|'\u{ea33}'|'\u{ea3a}' => 3,
                '\u{ea23}'|'\u{ea31}' => 4,
                _ => 0,
        }
    } else {
        0
    }
}

/// The decoration of `letter` and how many of it it carries.
pub open spec fn spec_dot_lookup(letter: char) -> (Option<Decor>, i8) {
    (spec_decor(letter), spec_decor_num(letter))
}

/// The decoration of `letter` and how many of it it carries.
pub fn dot_lookup(letter: &char) -> (r: (Option<Decor>, i8))
    ensures
        r == spec_dot_lookup(*letter),
{
    let dot = match *letter {
        'C'|'D'|'K'|'L'|'Q'|'R'|'Y'|'Z'|'c'|'d'|'k'|'l'|'q'|'r'|'y'|'z' => Some(Decor::Dot),
        'F'|'G'|'H'|'I'|'M'|'N'|'P'|'S'|'U'|'V'|'W'|'X'|'f'|'g'|'h'|'i'|'m'|'n'|'p'|'s'|'u'|'v'|'w'|'x' => Some(Decor::Dash),
        'A'|'B'|'E'|'J'|'O'|'T'|'a'|'b'|'e'|'j'|'o'|'t' => None,
        '0'|'1'|'2'|'3'|'4'|'5'|'6'|'7'|'8'|'9' => None,
        '\u{e000}'..='\u{e0ff}' => None,
        '\u{e800}'..='\u{e9ff}' => Some(Decor::Dash),
        '\u{e100}'..='\u{e7ff}' => Some(Decor::Dot),
        '\u{ea03}'|'\u{ea04}'|'\u{ea0b}'|'\u{ea0c}'|'\u{ea11}'|'\u{ea12}'|'\u{ea19}'|'\u{ea1a}' => Some(Decor::Dot),
        '\u{ea06}'..='\u{ea09}'|'\u{ea0d}'|'\u{ea0e}'|'\u{ea10}'|'\u{ea13}'|'\u{ea15}'..='\u{ea18}' => Some(Decor::Dash),
        '\u{ea01}'|'\u{ea02}'|'\u{ea05}'|'\u{ea0f}'|'\u{ea14}' => None,
        '\u{ea23}'|'\u{ea24}'|'\u{ea2b}'|'\u{ea2c}'|'\u{ea31}'|'\u{ea32}'|'\u{ea39}'|'\u{ea3a}' => Some(Decor::Dot),
        '\u{ea26}'..='\u{ea29}'|'\u{ea2d}'|'\u{ea2e}'|'\u{ea30}'|'\u{ea33}'|'\u{ea35}'..='\u{ea38}' => Some(Decor::Dash),
        '\u{ea21}'|'\u{ea22}'|'\u{ea25}'|'\u{ea2f}'|'\u{ea34}' => None,
        _ => None,
    };
    let mut decor_num: i8 = 0;
    if dot.is_some() {
        decor_num = match *letter {
                'G'|'I'|'N'|'U'|'V'|'g'|'i'|'n'|'u'|'v' => 1,
                'H'|'K'|'P'|'W'|'X'|'Y'|'h'|'k'|'p'|'w'|'x'|'y' => 2,
                'D'|'F'|'L'|'M'|'R'|'S'|'Z'|'d'|'f'|'l'|'m'|'r'|'s'|'z' => 3,
                'C'|'Q'|'c'|'q' => 4,
                '\u{e300}'|'\u{e400}'|'\u{e700}'|'\u{e900}' => 1,
                '\u{e100}'|'\u{e500}' => 2,
                '\u{e800}' => 3,
                '\u{e200}'|'\u{e600}'|'\u{ea03}'|'\u{ea11}' => 4,
                '\u{ea07}'|'\u{ea09}'|'\u{ea0e}'|'\u{ea15}'|'\u{ea16}' => 1,
                '\u{ea08}'|'\u{ea0b}'|'\u{ea10}'|'\u{ea17}'|'\u{ea18}'|'\u{ea19}' => 2,
                '\u{ea04}'|'\u{ea06}'|'\u{ea0c}'|'\u{ea0d}'|'\u{ea12}'|'\u{ea13}'|'\u{ea1a}' => 3,
                '\u{ea27}'|'\u{ea29}'|'\u{ea2e}'|'\u{ea35}'|'\u{ea36}' => 1,
                '\u{ea28}'|'\u{ea2b}'|'\u{ea30}'|'\u{ea37}'|'\u{ea38}'|'\u{ea39}' => 2,
                '\u{ea24}'|'\u{ea26}'|'\u{ea2c}'|'\u{ea2d}'|'\u{ea32}'|'\u{ea33}'|'\u{ea3a}' => 3,
                '\u{ea23}'|'\u{ea31}' => 4,
                _ => 0,
        };
    }
    (dot, decor_num)
}

// ---------------------------------------------------------- replacements

/// The two-letter sounds and the glyph that stands for each, in the order
/// in which they are replaced.
pub open spec fn two_char_entry(k: u8) -> (char, char, char) {
    match k {
        0 => ('c', 'h', '\u{e100}'),
        1 => ('n', 'd', '\u{e200}'),
        2 => ('p', 'h', '\u{e300}'),
        3 => ('w', 'h', '\u{e400}'),
        4 => ('s', 'h', '\u{e500}'),
        5 => ('n', 't', '\u{e600}'),
        6 => ('g', 'h', '\u{e700}'),
        7 => ('n', 'g', '\u{e800}'),
        8 => ('q', 'u', '\u{e900}'),
        9 => ('t', 'h', '\u{e000}'),
        _ => ('t', 'h', '\u{e000}'),
    }
}

/// The letters `a` to `z` with the glyphs of the doubled and of the
/// tripled letter.
pub open spec fn repeat_entry(k: u8) -> (char, char, char) {
    match k {
        0 => ('a', '\u{ea01}', '\u{ea21}'),
        1 => ('b', '\u{ea02}', '\u{ea22}'),
        2 => ('c', '\u{ea03}', '\u{ea23}'),
        3 => ('d', '\u{ea04}', '\u{ea24}'),
        4 => ('e', '\u{ea05}', '\u{ea25}'),
        5 => ('f', '\u{ea06}', '\u{ea26}'),
        6 => ('g', '\u{ea07}', '\u{ea27}'),
        7 => ('h', '\u{ea08}', '\u{ea28}'),
        8 => ('i', '\u{ea09}', '\u{ea29}'),
        9 => ('j', '\u{ea0a}', '\u{ea2a}'),
        10 => ('k', '\u{ea0b}', '\u{ea2b}'),
        11 => ('l', '\u{ea0c}', '\u{ea2c}'),
        12 => ('m', '\u{ea0d}', '\u{ea2d}'),
        13 => ('n', '\u{ea0e}', '\u{ea2e}'),
        14 => ('o', '\u{ea0f}', '\u{ea2f}'),
        15 => ('p', '\u{ea10}', '\u{ea30}'),
        16 => ('q', '\u{ea11}', '\u{ea31}'),
        17 => ('r', '\u{ea12}', '\u{ea32}'),
        18 => ('s', '\u{ea13}', '\u{ea33}'),
        19 => ('t', '\u{ea14}', '\u{ea34}'),
        20 => ('u', '\u{ea15}', '\u{ea35}'),
        21 => ('v', '\u{ea16}', '\u{ea36}'),
        22 => ('w', '\u{ea17}', '\u{ea37}'),
        23 => ('x', '\u{ea18}', '\u{ea38}'),
        24 => ('y', '\u{ea19}', '\u{ea39}'),
        25 => ('z', '\u{ea1a}', '\u{ea3a}'),
        _ => ('z', '\u{ea1a}', '\u{ea3a}'),
    }
}

/// The two-letter sounds and the glyph that stands for each.
pub open spec fn two_char_table() -> Seq<(Seq<char>, char)> {
    Seq::new(10, |k: int| (seq![two_char_entry(k as u8).0, two_char_entry(k as u8).1], two_char_entry(k as u8).2))
}

/// Each doubled letter and the glyph that stands for it.
pub open spec fn repeat_table() -> Seq<(Seq<char>, char)> {
    Seq::new(26, |k: int| (seq![repeat_entry(k as u8).0, repeat_entry(k as u8).0], repeat_entry(k as u8).1))
}

/// Each tripled letter and the glyph that stands for it.
pub open spec fn repeat_3_table() -> Seq<(Seq<char>, char)> {
    Seq::new(
        26,
        |k: int| (seq![repeat_entry(k as u8).0, repeat_entry(k as u8).0, repeat_entry(k as u8).0], repeat_entry(k as u8).2),
    )
}

fn two_char_pair(k: usize) -> (r: (char, char, char))
    requires
        k < 10,
    ensures
        r == two_char_entry(k as u8),
{
    match k {
        0usize => ('c', 'h', '\u{e100}'),
        1usize => ('n', 'd', '\u{e200}'),
        2usize => ('p', 'h', '\u{e300}'),
        3usize => ('w', 'h', '\u{e400}'),
        4usize => ('s', 'h', '\u{e500}'),
        5usize => ('n', 't', '\u{e600}'),
        6usize => ('g', 'h', '\u{e700}'),
        7usize => ('n', 'g', '\u{e800}'),
        8usize => ('q', 'u', '\u{e900}'),
        9usize => ('t', 'h', '\u{e000}'),
        _ => ('t', 'h', '\u{e000}'),
    }
}

fn repeat_glyphs(k: usize) -> (r: (char, char, char))
    requires
        k < 26,
    ensures
        r == repeat_entry(k as u8),
{
    match k {
        0usize => ('a', '\u{ea01}', '\u{ea21}'),
        1usize => ('b', '\u{ea02}', '\u{ea22}'),
        2usize => ('c', '\u{ea03}', '\u{ea23}'),
        3usize => ('d', '\u{ea04}', '\u{ea24}'),
        4usize => ('e', '\u{ea05}', '\u{ea25}'),
        5usize => ('f', '\u{ea06}', '\u{ea26}'),
        6usize => ('g', '\u{ea07}', '\u{ea27}'),
        7usize => ('h', '\u{ea08}', '\u{ea28}'),
        8usize => ('i', '\u{ea09}', '\u{ea29}'),
        9usize => ('j', '\u{ea0a}', '\u{ea2a}'),
        10usize => ('k', '\u{ea0b}', '\u{ea2b}'),
        11usize => ('l', '\u{ea0c}', '\u{ea2c}'),
        12usize => ('m', '\u{ea0d}', '\u{ea2d}'),
        13usize => ('n', '\u{ea0e}', '\u{ea2e}'),
        14usize => ('o', '\u{ea0f}', '\u{ea2f}'),
        15usize => ('p', '\u{ea10}', '\u{ea30}'),
        16usize => ('q', '\u{ea11}', '\u{ea31}'),
        17usize => ('r', '\u{ea12}', '\u{ea32}'),
        18usize => ('s', '\u{ea13}', '\u{ea33}'),
        19usize => ('t', '\u{ea14}', '\u{ea34}'),
        20usize => ('u', '\u{ea15}', '\u{ea35}'),
        21usize => ('v', '\u{ea16}', '\u{ea36}'),
        22usize => ('w', '\u{ea17}', '\u{ea37}'),
        23usize => ('x', '\u{ea18}', '\u{ea38}'),
        24usize => ('y', '\u{ea19}', '\u{ea39}'),
        25usize => ('z', '\u{ea1a}', '\u{ea3a}'),
        _ => ('z', '\u{ea1a}', '\u{ea3a}'),
    }
}

/// Replaces each two-letter sound (`ch`, `nd`, `ph`, `wh`, `sh`, `nt`, `gh`,
/// `ng`, `qu`, `th`, in this order) by its glyph.
pub fn replace_two_char(lowercase_str: String) -> (r: String)
    ensures
        r@ == apply_table(lowercase_str@, two_char_table()),
{
    let mut w = chars_of(&lowercase_str);
    let mut k: usize = 0;
    assert(two_char_table().take(0) =~= Seq::<(Seq<char>, char)>::empty());
    while k < 10
        invariant
            k <= 10,
            w@ == apply_table(lowercase_str@, two_char_table().take(k as int)),
        decreases 10 - k,
    {
        let (a, b, glyph) = two_char_pair(k);
        let pat = vec![a, b];
        assert(pat@ =~= two_char_table()[k as int].0);
        w = replace_all(&w, &pat, glyph);
        assert(two_char_table().take(k + 1).drop_last() =~= two_char_table().take(k as int));
        k += 1;
    }
    assert(two_char_table().take(10) =~= two_char_table());
    string_of(&w)
}

/// Replaces each tripled letter `aaa` to `zzz` by its glyph.
pub fn replace_repeat_3_char(lowercase_str: String) -> (r: String)
    ensures
        r@ == apply_table(lowercase_str@, repeat_3_table()),
{
    let mut w = chars_of(&lowercase_str);
    let mut k: usize = 0;
    assert(repeat_3_table().take(0) =~= Seq::<(Seq<char>, char)>::empty());
    while k < 26
        invariant
            k <= 26,
            w@ == apply_table(lowercase_str@, repeat_3_table().take(k as int)),
        decreases 26 - k,
    {
        let (letter, _, glyph) = repeat_glyphs(k);
        let pat = vec![letter, letter, letter];
        assert(pat@ =~= repeat_3_table()[k as int].0);
        w = replace_all(&w, &pat, glyph);
        assert(repeat_3_table().take(k + 1).drop_last() =~= repeat_3_table().take(k as int));
        k += 1;
    }
    assert(repeat_3_table().take(26) =~= repeat_3_table());
    string_of(&w)
}

/// Replaces each doubled letter `aa` to `zz` by its glyph.
pub fn replace_repeat_char(lowercase_str: String) -> (r: String)
    ensures
        r@ == apply_table(lowercase_str@, repeat_table()),
{
    let mut w = chars_of(&lowercase_str);
    let mut k: usize = 0;
    assert(repeat_table().take(0) =~= Seq::<(Seq<char>, char)>::empty());
    while k < 26
        invariant
            k <= 26,
            w@ == apply_table(lowercase_str@, repeat_table().take(k as int)),
        decreases 26 - k,
    {
        let (letter, glyph, _) = repeat_glyphs(k);
        let pat = vec![letter, letter];
        assert(pat@ =~= repeat_table()[k as int].0);
        w = replace_all(&w, &pat, glyph);
        assert(repeat_table().take(k + 1).drop_last() =~= repeat_table().take(k as int));
        k += 1;
    }
    assert(repeat_table().take(26) =~= repeat_table());
    string_of(&w)
}


// ------------------------------------------------------------- counting

/// The vowel weight of a character and whether it is an `a`, a Z-stem or
/// an S-stem letter.
pub open spec fn letter_class(c: char) -> (u8, bool, bool, bool) {
    match c {
        'E'|'e'|'I'|'i'|'O'|'o'|'U'|'u' => (1, false, false, false),
        '\u{ea05}'|'\u{ea09}'|'\u{ea0f}'|'\u{ea15}' => (2, false, false, false),
        '\u{ea25}'|'\u{ea29}'|'\u{ea2f}'|'\u{ea35}' => (3, false, false, false),
        'A'|'a' => (1, true, false, false),
        '\u{ea01}' => (2, true, false, false),
        '\u{ea21}' => (3, true, false, false),
        'R'|'r'|'S'|'s'|'T'|'t'|'W'|'w'|'V'|'v' => (0, false, false, true),
        '\u{ea12}'..='\u{ea17}'|'\u{ea32}'..='\u{ea37}' => (0, false, false, true),
        '\u{e400}'|'\u{e500}'|'\u{e600}' => (0, false, false, true),
        'Q'|'q'|'X'|'x'|'Y'|'y'|'Z'|'z' => (0, false, true, false),
        '\u{ea11}'|'\u{ea31}'|'\u{ea18}'..='\u{ea1a}'|'\u{ea38}'..='\u{ea3a}' => (0, false, true, false),
        '\u{e000}'|'\u{e700}'|'\u{e800}'|'\u{e900}' => (0, false, true, false),
        _ => (0, false, false, false),
    }
}

fn class_of(c: char) -> (r: (u8, bool, bool, bool))
    ensures
        r == letter_class(c),
{
    match c {
        'E'|'e'|'I'|'i'|'O'|'o'|'U'|'u' => (1, false, false, false),
        '\u{ea05}'|'\u{ea09}'|'\u{ea0f}'|'\u{ea15}' => (2, false, false, false),
        '\u{ea25}'|'\u{ea29}'|'\u{ea2f}'|'\u{ea35}' => (3, false, false, false),
        'A'|'a' => (1, true, false, false),
        '\u{ea01}' => (2, true, false, false),
        '\u{ea21}' => (3, true, false, false),
        'R'|'r'|'S'|'s'|'T'|'t'|'W'|'w'|'V'|'v' => (0, false, false, true),
        '\u{ea12}'..='\u{ea17}'|'\u{ea32}'..='\u{ea37}' => (0, false, false, true),
        '\u{e400}'|'\u{e500}'|'\u{e600}' => (0, false, false, true),
        'Q'|'q'|'X'|'x'|'Y'|'y'|'Z'|'z' => (0, false, true, false),
        '\u{ea11}'|'\u{ea31}'|'\u{ea18}'..='\u{ea1a}'|'\u{ea38}'..='\u{ea3a}' => (0, false, true, false),
        '\u{e000}'|'\u{e700}'|'\u{e800}'|'\u{e900}' => (0, false, true, false),
        _ => (0, false, false, false),
    }
}

/// Whether `c` is a character of an encoded word as the replacements write
/// it: an ASCII character or one of the glyphs they emit.
pub open spec fn encoded_char(c: char) -> bool {
    ||| c <= '\u{7f}'
    ||| c == '\u{e000}' || c == '\u{e100}' || c == '\u{e200}' || c == '\u{e300}' || c == '\u{e400}'
    ||| c == '\u{e500}' || c == '\u{e600}' || c == '\u{e700}' || c == '\u{e800}' || c == '\u{e900}'
    ||| '\u{ea01}' <= c <= '\u{ea1a}'
    ||| '\u{ea21}' <= c <= '\u{ea3a}'
}

/// The vowel weight of `c` by its looked-up mark: one more than its repeat
/// count for a vowel, nothing otherwise.
pub open spec fn lookup_vowel_weight(c: char) -> int {
    if spec_letter_mark(c) is GallVowel {
        1 + spec_repeat_count(c)
    } else {
        0
    }
}

/// The summed vowel weight of `s` by looked-up marks.
pub open spec fn lookup_vowel_total(s: Seq<char>) -> int
    decreases s.len(),
{
    if s.len() == 0 {
        0
    } else {
        lookup_vowel_total(s.drop_last()) + lookup_vowel_weight(s.last())
    }
}

proof fn lemma_class_matches_lookup(c: char)
    ensures
        letter_class(c).0 == lookup_vowel_weight(c),
        letter_class(c).1 == (spec_letter_mark(c) == LetterMark::GallVowel(VowelType::A)),
        encoded_char(c) ==> letter_class(c).2 == (spec_letter_mark(c) == LetterMark::Stem(StemType::Z)),
        encoded_char(c) ==> letter_class(c).3 == (spec_letter_mark(c) == LetterMark::Stem(StemType::S)),
{
}

/// The counts of `letter_count` agree with `stem_lookup`: the vowel weight
/// is the sum, over the vowels, of one more than their repeat count; the
/// `a` flag says whether some character looks up as the vowel `a`; and, on
/// an encoded word, the stem flags say whether some character looks up as a
/// Z-stem or an S-stem letter.
pub proof fn lemma_letter_count_follows_lookup(s: Seq<char>)
    ensures
        vowel_total(s) == lookup_vowel_total(s),
        has_a(s) == exists|i: int| 0 <= i < s.len() && spec_letter_mark(#[trigger] s[i]) == LetterMark::GallVowel(VowelType::A),
        (forall|i: int| 0 <= i < s.len() ==> encoded_char(#[trigger] s[i])) ==> {
            &&& has_z_stem(s) == exists|i: int| 0 <= i < s.len() && spec_letter_mark(#[trigger] s[i]) == LetterMark::Stem(StemType::Z)
            &&& has_s_stem(s) == exists|i: int| 0 <= i < s.len() && spec_letter_mark(#[trigger] s[i]) == LetterMark::Stem(StemType::S)
        },
    decreases s.len(),
{
    if s.len() > 0 {
        lemma_letter_count_follows_lookup(s.drop_last());
        lemma_class_matches_lookup(s.last());
    }
    assert forall|i: int| 0 <= i < s.len() implies letter_class(s[i]).1 == (spec_letter_mark(s[i]) == LetterMark::GallVowel(VowelType::A))
        && (encoded_char(s[i]) ==> letter_class(s[i]).2 == (spec_letter_mark(s[i]) == LetterMark::Stem(StemType::Z))
        && letter_class(s[i]).3 == (spec_letter_mark(s[i]) == LetterMark::Stem(StemType::S))) by {
        lemma_class_matches_lookup(s[i]);
    }
}

/// Whether `c` is a decimal digit.
pub open spec fn is_digit_char(c: char) -> bool {
    '0' <= c && c <= '9'
}

/// The summed vowel weight of the characters of `s`.
pub open spec fn vowel_total(s: Seq<char>) -> int
    decreases s.len(),
{
    if s.len() == 0 {
        0
    } else {
        vowel_total(s.drop_last()) + letter_class(s.last()).0
    }
}

/// Whether some character of `s` is an `a`.
pub open spec fn has_a(s: Seq<char>) -> bool {
    exists|i: int| 0 <= i < s.len() && #[trigger] letter_class(s[i]).1
}

/// Whether some character of `s` is written on a Z stem.
pub open spec fn has_z_stem(s: Seq<char>) -> bool {
    exists|i: int| 0 <= i < s.len() && #[trigger] letter_class(s[i]).2
}

/// Whether some character of `s` is written on an S stem.
pub open spec fn has_s_stem(s: Seq<char>) -> bool {
    exists|i: int| 0 <= i < s.len() && #[trigger] letter_class(s[i]).3
}

/// The state of number reading after a character: the sign of the number
/// being read (`true` for negative), if any, and whether the last character
/// that is not a digit is a minus sign.
pub open spec fn digit_step(st: (Option<bool>, bool), c: char) -> (Option<bool>, bool) {
    if is_digit_char(c) {
        (if st.0 is Some { st.0 } else { Some(st.1) }, st.1)
    } else if c == '-' {
        (None, true)
    } else {
        (None, false)
    }
}

/// The state of number reading after all of `s` (see `digit_step`).
pub open spec fn digit_state(s: Seq<char>) -> (Option<bool>, bool)
    decreases s.len(),
{
    if s.len() == 0 {
        (None, false)
    } else {
        digit_step(digit_state(s.drop_last()), s.last())
    }
}

/// The value of `o`, if any, as a sequence.
pub open spec fn opt_seq(o: Option<bool>) -> Seq<bool> {
    match o {
        Some(n) => seq![n],
        None => Seq::empty(),
    }
}

/// The sign of the number that `c` ends when read in state `st`, if any: a
/// number ends at the first character after it that is not a digit.
pub open spec fn signs_recorded(st: (Option<bool>, bool), c: char) -> Seq<bool> {
    if !is_digit_char(c) {
        opt_seq(st.0)
    } else {
        Seq::empty()
    }
}

/// What reading `c` in state `st` adds to the letter count: a number counts
/// as one character together with its minus sign, so a digit adds one only
/// where it starts a number without a minus sign; every other character
/// adds one.
pub open spec fn count_delta(st: (Option<bool>, bool), c: char) -> int {
    if is_digit_char(c) {
        if st.0 is None && !st.1 {
            1
        } else {
            0
        }
    } else {
        1
    }
}

/// The letter count of `s`: what reading each of its characters adds.
pub open spec fn count_total(s: Seq<char>) -> int
    decreases s.len(),
{
    if s.len() == 0 {
        0
    } else {
        count_total(s.drop_last()) + count_delta(digit_state(s.drop_last()), s.last())
    }
}

/// The signs of the numbers that end within `s`, in order.
pub open spec fn signs_total(s: Seq<char>) -> Seq<bool>
    decreases s.len(),
{
    if s.len() == 0 {
        Seq::empty()
    } else {
        signs_total(s.drop_last()) + signs_recorded(digit_state(s.drop_last()), s.last())
    }
}

/// The signs of all numbers of `s`, one for each number, in order: `true` for
/// a negative one (one right after a minus sign).
pub open spec fn number_signs(s: Seq<char>) -> Seq<bool> {
    signs_total(s) + opt_seq(digit_state(s).0)
}

/// Counts the letters and vowels of an encoded word, notes whether it holds
/// an `a`, a Z-stem and an S-stem letter, and lists the signs of its numbers
/// (`true` for negative), last first.
pub fn letter_count(word: &String) -> (r: (usize, usize, bool, bool, bool, Vec<bool>))
    requires
        word@.len() <= usize::MAX / 3,
    ensures
        r.0 == count_total(word@),
        r.1 == vowel_total(word@),
        r.2 == has_a(word@),
        r.3 == has_z_stem(word@),
        r.4 == has_s_stem(word@),
        r.5@ == number_signs(word@).reverse(),
{
    let w = chars_of(word);
    let mut vow_count: usize = 0;
    let mut count: usize = 0;
    let mut a_flag = false;
    let mut z_stem = false;
    let mut s_stem = false;
    let mut num_vec: Vec<bool> = Vec::new();
    let mut negative_digit: Option<bool> = None;
    let mut negative_flag = false;
    let mut i: usize = 0;
    assert(w@.take(0) =~= Seq::<char>::empty());
    while i < w.len()
        invariant
            w@ == word@,
            w.len() <= usize::MAX / 3,
            i <= w.len(),
            count == count_total(w@.take(i as int)),
            count <= i,
            vow_count == vowel_total(w@.take(i as int)),
            vow_count <= 3 * i,
            a_flag == has_a(w@.take(i as int)),
            z_stem == has_z_stem(w@.take(i as int)),
            s_stem == has_s_stem(w@.take(i as int)),
            (negative_digit, negative_flag) == digit_state(w@.take(i as int)),
            num_vec@ == signs_total(w@.take(i as int)),
        decreases w.len() - i,
    {
        let letter = w[i];
        let ghost pre = w@.take(i as int);
        let ghost st = (negative_digit, negative_flag);
        let ghost old_nums = num_vec@;
        assert(w@.take(i + 1).drop_last() =~= pre);
        assert(w@.take(i + 1).last() == letter);
        count += 1;
        let (weight, a, z, s) = class_of(letter);
        vow_count += weight as usize;
        if a {
            a_flag = true;
        }
        if z {
            z_stem = true;
        }
        if s {
            s_stem = true;
        }
        if '0' <= letter && letter <= '9' {
            if negative_digit.is_none() {
                negative_digit = Some(negative_flag);
                if negative_flag {
                    count -= 1;
                }
            } else {
                count -= 1;
            }
        } else {
            negative_flag = letter == '-';
            if let Some(neg) = negative_digit {
                num_vec.push(neg);
                negative_digit = None;
            }
        }
        proof {
            let now = w@.take(i + 1);
            assert(num_vec@ =~= old_nums + signs_recorded(st, letter));
            assert(has_a(now) == (has_a(pre) || letter_class(letter).1)) by {
                if letter_class(letter).1 {
                    assert(letter_class(now[i as int]).1);
                }
                if has_a(pre) {
                    let j = choose|j: int| 0 <= j < pre.len() && #[trigger] letter_class(pre[j]).1;
                    assert(letter_class(now[j]).1);
                }
                if has_a(now) {
                    let j = choose|j: int| 0 <= j < now.len() && #[trigger] letter_class(now[j]).1;
                    if j < i {
                        assert(letter_class(pre[j]).1);
                    }
                }
            }
            assert(has_z_stem(now) == (has_z_stem(pre) || letter_class(letter).2)) by {
                if letter_class(letter).2 {
                    assert(letter_class(now[i as int]).2);
                }
                if has_z_stem(pre) {
                    let j = choose|j: int| 0 <= j < pre.len() && #[trigger] letter_class(pre[j]).2;
                    assert(letter_class(now[j]).2);
                }
                if has_z_stem(now) {
                    let j = choose|j: int| 0 <= j < now.len() && #[trigger] letter_class(now[j]).2;
                    if j < i {
                        assert(letter_class(pre[j]).2);
                    }
                }
            }
            assert(has_s_stem(now) == (has_s_stem(pre) || letter_class(letter).3)) by {
                if letter_class(letter).3 {
                    assert(letter_class(now[i as int]).3);
                }
                if has_s_stem(pre) {
                    let j = choose|j: int| 0 <= j < pre.len() && #[trigger] letter_class(pre[j]).3;
                    assert(letter_class(now[j]).3);
                }
                if has_s_stem(now) {
                    let j = choose|j: int| 0 <= j < now.len() && #[trigger] letter_class(now[j]).3;
                    if j < i {
                        assert(letter_class(pre[j]).3);
                    }
                }
            }
        }
        i += 1;
    }
    assert(w@.take(w.len() as int) =~= w@);
    if let Some(neg) = negative_digit {
        num_vec.push(neg);
    }
    assert(num_vec@ =~= number_signs(word@));
    let mut reversed: Vec<bool> = Vec::new();
    let mut k: usize = num_vec.len();
    while k > 0
        invariant
            k <= num_vec.len(),
            num_vec@ == number_signs(word@),
            reversed@ =~= num_vec@.subrange(k as int, num_vec.len() as int).reverse(),
        decreases k,
    {
        k -= 1;
        reversed.push(num_vec[k]);
        assert(num_vec@.subrange(k as int, num_vec.len() as int) =~= seq![num_vec@[k as int]]
            + num_vec@.subrange(k + 1, num_vec.len() as int));
    }
    assert(num_vec@.subrange(0, num_vec.len() as int) =~= num_vec@);
    (count, vow_count, a_flag, z_stem, s_stem, reversed)
}


// -------------------------------------------------------------- parsing

/// The lowercase form of a text that `str::to_lowercase` gives (Unicode's
/// lowercase mapping); it depends on the text alone.
pub uninterp spec fn spec_to_lowercase(s: Seq<char>) -> Seq<char>;

/// Calls `str::to_lowercase`. The result is the lowercase form of the
/// argument; what that form is, character by character, is left unstated.
#[verifier::external_body]
fn to_lowercase(s: &String) -> (r: String)
    ensures
        r@ == spec_to_lowercase(s@),
{
    s.to_lowercase()
}

/// The encoding of a lowercase word: its two-letter sounds, then its
/// tripled letters, then its doubled letters replaced by their glyphs.
pub open spec fn spec_encode(lower: Seq<char>) -> Seq<char> {
    apply_table(apply_table(apply_table(lower, two_char_table()), repeat_3_table()), repeat_table())
}

/// The size class of a word of `length` letters.
pub open spec fn spec_size(length: int) -> Size {
    if length <= 4 {
        Size::Small
    } else if length <= 9 {
        Size::Med
    } else {
        Size::Large
    }
}

/// `p` is the parse of the lowercase word `lower`.
pub open spec fn processed_from(p: ProcessedWord, lower: Seq<char>) -> bool {
    let word = spec_encode(lower);
    &&& p.word@ == word
    &&& p.length == count_total(word)
    &&& p.vowels == vowel_total(word)
    &&& p.size == spec_size(p.length as int)
    &&& p.a_flag == has_a(word)
    &&& p.z_stem == has_z_stem(word)
    &&& p.s_stem == has_s_stem(word)
    &&& p.neg_digit@ == number_signs(word).reverse()
}

/// No entry of the replacement tables replaces an empty text.
pub proof fn lemma_tables_nonempty()
    ensures
        forall|k: int| 0 <= k < two_char_table().len() ==> (#[trigger] two_char_table()[k]).0.len() > 0,
        forall|k: int| 0 <= k < repeat_3_table().len() ==> (#[trigger] repeat_3_table()[k]).0.len() > 0,
        forall|k: int| 0 <= k < repeat_table().len() ==> (#[trigger] repeat_table()[k]).0.len() > 0,
{
}

/// The encoding of a word is never longer than the word.
pub proof fn lemma_encode_len(lower: Seq<char>)
    ensures
        spec_encode(lower).len() <= lower.len(),
{
    lemma_tables_nonempty();
    let a = apply_table(lower, two_char_table());
    let b = apply_table(a, repeat_3_table());
    crate::gall_text::lemma_apply_table_len(lower, two_char_table());
    crate::gall_text::lemma_apply_table_len(a, repeat_3_table());
    crate::gall_text::lemma_apply_table_len(b, repeat_table());
}

/// Parses a word that is already lowercase: encodes its sounds and repeated
/// letters as glyphs and counts what the layout needs.
pub fn parse_lowercase(word: String) -> (p: ProcessedWord)
    requires
        word@.len() <= usize::MAX / 3,
    ensures
        processed_from(p, word@),
{
    let ghost lower = word@;
    let mut word = replace_two_char(word);
    word = replace_repeat_3_char(word);
    word = replace_repeat_char(word);
    proof {
        lemma_encode_len(lower);
    }
    let (length, vowels, a_flag, z_stem, s_stem, neg_digit) = letter_count(&word);
    let size = if length <= 4 {
        Size::Small
    } else if length <= 9 {
        Size::Med
    } else {
        Size::Large
    };
    ProcessedWord { word, length, vowels, size, a_flag, z_stem, s_stem, neg_digit }
}

/// Parses a raw word: lowercases it, encodes its sounds and repeated letters
/// as glyphs and counts what the layout needs.
pub fn string_parse(raw_word: String) -> (p: ProcessedWord)
    requires
        spec_to_lowercase(raw_word@).len() <= usize::MAX / 3,
    ensures
        processed_from(p, spec_to_lowercase(raw_word@)),
{
    let word = to_lowercase(&raw_word);
    parse_lowercase(word)
}

/// Parses a raw word as `string_parse` does, where its lowercase form is
/// short enough to be counted in a `usize`; `None` where it is not.
pub fn string_parse_checked(raw_word: String) -> (r: Option<ProcessedWord>)
    ensures
        r is Some <==> spec_to_lowercase(raw_word@).len() <= usize::MAX / 3,
        r matches Some(p) ==> processed_from(p, spec_to_lowercase(raw_word@)),
{
    let lower = to_lowercase(&raw_word);
    let chars = chars_of(&lower);
    if chars.len() <= usize::MAX / 3 {
        Some(string_parse(raw_word))
    } else {
        None
    }
}


// ----------------------------------------------------------------- laws

/// The glyph of a doubled letter is the letter's place in the alphabet
/// above U+EA00, and that of a tripled letter its place above U+EA20: `aa`
/// is U+EA01 and `zzz` is U+EA3A.
pub proof fn lemma_repeat_glyph_codes()
    ensures
        repeat_table().len() == 26,
        repeat_3_table().len() == 26,
        forall|k: int|
            0 <= k < 26 ==> (#[trigger] repeat_table()[k]).0 == seq![(97 + k) as char, (97 + k) as char]
                && repeat_table()[k].1 == (0xea01 + k) as char,
        forall|k: int|
            0 <= k < 26 ==> (#[trigger] repeat_3_table()[k]).0 == seq![(97 + k) as char, (97 + k) as char, (97 + k) as char]
                && repeat_3_table()[k].1 == (0xea21 + k) as char,
{
    assert forall|k: int| 0 <= k < 26 implies (#[trigger] repeat_table()[k]).0 == seq![(97 + k) as char, (97 + k) as char]
        && repeat_table()[k].1 == (0xea01 + k) as char by {
        assert(repeat_table()[k].0 =~= seq![(97 + k) as char, (97 + k) as char]);
    }
    assert forall|k: int| 0 <= k < 26 implies (#[trigger] repeat_3_table()[k]).0 == seq![(97 + k) as char, (97 + k) as char, (97 + k) as char]
        && repeat_3_table()[k].1 == (0xea21 + k) as char by {
        assert(repeat_3_table()[k].0 =~= seq![(97 + k) as char, (97 + k) as char, (97 + k) as char]);
    }
}

/// A word of at most four letters is small, one of five to nine medium and
/// a longer one large.
pub proof fn lemma_size_classes(length: int)
    ensures
        (spec_size(length) == Size::Small) == (length <= 4),
        (spec_size(length) == Size::Med) == (5 <= length <= 9),
        (spec_size(length) == Size::Large) == (length >= 10),
{
}

/// Each Latin letter is looked up by the alphabet: `b d f g h` stand on a B
/// stem, `c j k l m n p` on a J stem, `r s t v w` on an S stem and `q x y z`
/// on a Z stem, `a e i o u` are the vowels A, E, I, O and U, in either case;
/// a decimal digit is that digit; and none of them is a repeat glyph.
pub proof fn lemma_latin_letter_marks(c: char)
    ensures
        (c == 'b' || c == 'd' || c == 'f' || c == 'g' || c == 'h' || c == 'B' || c == 'D' || c == 'F' || c
            == 'G' || c == 'H') ==> spec_letter_mark(c) == LetterMark::Stem(StemType::B),
        (c == 'c' || c == 'j' || c == 'k' || c == 'l' || c == 'm' || c == 'n' || c == 'p' || c == 'C' || c
            == 'J' || c == 'K' || c == 'L' || c == 'M' || c == 'N' || c == 'P') ==> spec_letter_mark(c)
            == LetterMark::Stem(StemType::J),
        (c == 'r' || c == 's' || c == 't' || c == 'v' || c == 'w' || c == 'R' || c == 'S' || c == 'T' || c
            == 'V' || c == 'W') ==> spec_letter_mark(c) == LetterMark::Stem(StemType::S),
        (c == 'q' || c == 'x' || c == 'y' || c == 'z' || c == 'Q' || c == 'X' || c == 'Y' || c == 'Z')
            ==> spec_letter_mark(c) == LetterMark::Stem(StemType::Z),
        (c == 'a' || c == 'A') ==> spec_letter_mark(c) == LetterMark::GallVowel(VowelType::A),
        (c == 'e' || c == 'E') ==> spec_letter_mark(c) == LetterMark::GallVowel(VowelType::E),
        (c == 'i' || c == 'I') ==> spec_letter_mark(c) == LetterMark::GallVowel(VowelType::I),
        (c == 'o' || c == 'O') ==> spec_letter_mark(c) == LetterMark::GallVowel(VowelType::O2),
        (c == 'u' || c == 'U') ==> spec_letter_mark(c) == LetterMark::GallVowel(VowelType::U),
        ('0' <= c <= '9') ==> spec_letter_mark(c) == LetterMark::Digit(((c as u32) - 48) as i8),
        c <= '\u{7f}' ==> spec_repeat_count(c) == 0,
{
}

/// The decorations of each Latin letter, in either case: `c d k l q r y z`
/// carry dots and `f g h i m n p s u v w x` dashes, the other letters and
/// the digits none; `g i n u v` carry one, `h k p w x y` two,
/// `d f l m r s z` three and `c q` four.
pub proof fn lemma_latin_letter_decorations(c: char)
    ensures
        (c == 'c' || c == 'd' || c == 'k' || c == 'l' || c == 'q' || c == 'r' || c == 'y' || c == 'z' || c
            == 'C' || c == 'D' || c == 'K' || c == 'L' || c == 'Q' || c == 'R' || c == 'Y' || c == 'Z')
            ==> spec_decor(c) == Some(Decor::Dot),
        (c == 'f' || c == 'g' || c == 'h' || c == 'i' || c == 'm' || c == 'n' || c == 'p' || c == 's' || c
            == 'u' || c == 'v' || c == 'w' || c == 'x' || c == 'F' || c == 'G' || c == 'H' || c == 'I' || c
            == 'M' || c == 'N' || c == 'P' || c == 'S' || c == 'U' || c == 'V' || c == 'W' || c == 'X')
            ==> spec_decor(c) == Some(Decor::Dash),
        (c == 'a' || c == 'b' || c == 'e' || c == 'j' || c == 'o' || c == 't' || c == 'A' || c == 'B' || c
            == 'E' || c == 'J' || c == 'O' || c == 'T' || ('0' <= c <= '9')) ==> spec_decor(c) is None
            && spec_decor_num(c) == 0,
        (c == 'g' || c == 'i' || c == 'n' || c == 'u' || c == 'v' || c == 'G' || c == 'I' || c == 'N' || c
            == 'U' || c == 'V') ==> spec_decor_num(c) == 1,
        (c == 'h' || c == 'k' || c == 'p' || c == 'w' || c == 'x' || c == 'y' || c == 'H' || c == 'K' || c
            == 'P' || c == 'W' || c == 'X' || c == 'Y') ==> spec_decor_num(c) == 2,
        (c == 'd' || c == 'f' || c == 'l' || c == 'm' || c == 'r' || c == 's' || c == 'z' || c == 'D' || c
            == 'F' || c == 'L' || c == 'M' || c == 'R' || c == 'S' || c == 'Z') ==> spec_decor_num(c) == 3,
        (c == 'c' || c == 'q' || c == 'C' || c == 'Q') ==> spec_decor_num(c) == 4,
{
}

/// Each two-letter sound has a glyph of its own: `ch`, `nd`, `ph`, `wh`,
/// `sh`, `nt`, `gh`, `ng`, `qu` and `th` become U+E100, U+E200, U+E300,
/// U+E400, U+E500, U+E600, U+E700, U+E800, U+E900 and U+E000, ten distinct
/// glyphs; and each glyph is looked up as its sound is written: `ch` and
/// `nd` on a B stem with two and four dots, `ph` on a J stem with one dot,
/// `wh`, `sh` and `nt` on an S stem with one, two and four dots, `gh` on a
/// Z stem with one dot, `ng` and `qu` on a Z stem with three and one
/// dashes, `th` on a Z stem with no decoration.
pub proof fn lemma_two_char_glyphs()
    ensures
        two_char_table().len() == 10,
        two_char_table()[0] == (seq!['c', 'h'], '\u{e100}'),
        two_char_table()[1] == (seq!['n', 'd'], '\u{e200}'),
        two_char_table()[2] == (seq!['p', 'h'], '\u{e300}'),
        two_char_table()[3] == (seq!['w', 'h'], '\u{e400}'),
        two_char_table()[4] == (seq!['s', 'h'], '\u{e500}'),
        two_char_table()[5] == (seq!['n', 't'], '\u{e600}'),
        two_char_table()[6] == (seq!['g', 'h'], '\u{e700}'),
        two_char_table()[7] == (seq!['n', 'g'], '\u{e800}'),
        two_char_table()[8] == (seq!['q', 'u'], '\u{e900}'),
        two_char_table()[9] == (seq!['t', 'h'], '\u{e000}'),
        forall|i: int, j: int|
            0 <= i < j < 10 ==> (#[trigger] two_char_table()[i]).1 != (#[trigger] two_char_table()[j]).1,
        forall|i: int, j: int|
            0 <= i < j < 10 ==> (#[trigger] two_char_table()[i]).0 != (#[trigger] two_char_table()[j]).0,
        spec_stem_lookup('\u{e100}') == (LetterMark::Stem(StemType::B), 0u8),
        spec_dot_lookup('\u{e100}') == (Some(Decor::Dot), 2i8),
        spec_stem_lookup('\u{e200}') == (LetterMark::Stem(StemType::B), 0u8),
        spec_dot_lookup('\u{e200}') == (Some(Decor::Dot), 4i8),
        spec_stem_lookup('\u{e300}') == (LetterMark::Stem(StemType::J), 0u8),
        spec_dot_lookup('\u{e300}') == (Some(Decor::Dot), 1i8),
        spec_stem_lookup('\u{e400}') == (LetterMark::Stem(StemType::S), 0u8),
        spec_dot_lookup('\u{e400}') == (Some(Decor::Dot), 1i8),
        spec_stem_lookup('\u{e500}') == (LetterMark::Stem(StemType::S), 0u8),
        spec_dot_lookup('\u{e500}') == (Some(Decor::Dot), 2i8),
        spec_stem_lookup('\u{e600}') == (LetterMark::Stem(StemType::S), 0u8),
        spec_dot_lookup('\u{e600}') == (Some(Decor::Dot), 4i8),
        spec_stem_lookup('\u{e700}') == (LetterMark::Stem(StemType::Z), 0u8),
        spec_dot_lookup('\u{e700}') == (Some(Decor::Dot), 1i8),
        spec_stem_lookup('\u{e800}') == (LetterMark::Stem(StemType::Z), 0u8),
        spec_dot_lookup('\u{e800}') == (Some(Decor::Dash), 3i8),
        spec_stem_lookup('\u{e900}') == (LetterMark::Stem(StemType::Z), 0u8),
        spec_dot_lookup('\u{e900}') == (Some(Decor::Dash), 1i8),
        spec_stem_lookup('\u{e000}') == (LetterMark::Stem(StemType::Z), 0u8),
        spec_dot_lookup('\u{e000}') == (None::<Decor>, 0i8),
{
    let t = two_char_table();
    assert(t[0].0 =~= seq!['c', 'h']);
    assert(t[1].0 =~= seq!['n', 'd']);
    assert(t[2].0 =~= seq!['p', 'h']);
    assert(t[3].0 =~= seq!['w', 'h']);
    assert(t[4].0 =~= seq!['s', 'h']);
    assert(t[5].0 =~= seq!['n', 't']);
    assert(t[6].0 =~= seq!['g', 'h']);
    assert(t[7].0 =~= seq!['n', 'g']);
    assert(t[8].0 =~= seq!['q', 'u']);
    assert(t[9].0 =~= seq!['t', 'h']);
    assert forall|i: int, j: int| 0 <= i < j < 10 implies (#[trigger] t[i]).0 != (#[trigger] t[j]).0 by {
        if t[i].0 == t[j].0 {
            assert(t[i].0[0] == t[j].0[0] && t[i].0[1] == t[j].0[1]);
        }
    }
}

/// Each word adds to the angle pool the weight of its size class (the small,
/// average or large weight for a small, medium or large word), plus 2 if it
/// holds an `a`, plus 3 if it holds a Z-stem letter.
pub proof fn lemma_pool_step(words: Seq<ProcessedWord>, k: int, small_weight: i32, avg_weight: i32, large_weight: i32)
    requires
        0 <= k < words.len(),
    ensures
        pool_prefix(words, k + 1, small_weight, avg_weight, large_weight) == pool_prefix(
            words,
            k,
            small_weight,
            avg_weight,
            large_weight,
        ) + (match words[k].size {
            Size::Small => small_weight as int,
            Size::Med => avg_weight as int,
            Size::Large => large_weight as int,
        }) + (if words[k].a_flag { 2int } else { 0int }) + (if words[k].z_stem { 3int } else { 0int }),
        pool_prefix(words, 0, small_weight, avg_weight, large_weight) == 0,
{
}

/// The glyph of a doubled or tripled letter is looked up as the letter
/// itself: the same mark and decoration, a repeat count of 1 or 2, the same
/// letter classes and twice or three times the letter's vowel weight.
pub proof fn lemma_repeat_glyph_lookup(k: u8)
    requires
        k < 26,
    ensures
        ({
            let (letter, double, triple) = repeat_entry(k);
            &&& spec_stem_lookup(double) == (spec_letter_mark(letter), 1u8)
            &&& spec_stem_lookup(triple) == (spec_letter_mark(letter), 2u8)
            &&& spec_dot_lookup(double) == spec_dot_lookup(letter)
            &&& spec_dot_lookup(triple) == spec_dot_lookup(letter)
            &&& letter_class(double).0 == 2 * letter_class(letter).0
            &&& letter_class(triple).0 == 3 * letter_class(letter).0
            &&& letter_class(double).1 == letter_class(letter).1
            &&& letter_class(triple).1 == letter_class(letter).1
            &&& letter_class(double).2 == letter_class(letter).2
            &&& letter_class(triple).2 == letter_class(letter).2
            &&& letter_class(double).3 == letter_class(letter).3
            &&& letter_class(triple).3 == letter_class(letter).3
        }),
{
}

/// A lowercase ASCII letter.
pub open spec fn is_lower_letter(c: char) -> bool {
    'a' <= c && c <= 'z'
}

proof fn lemma_letter_index(c: char)
    requires
        is_lower_letter(c),
    ensures
        ((c as u32 - 97) as u8) < 26,
        repeat_entry((c as u32 - 97) as u8).0 == c,
{
}

proof fn lemma_glyphs_are_not_letters()
    ensures
        forall|j: u8, k: u8|
            j < 26 && k < 26 ==> #[trigger] repeat_entry(j).0 != #[trigger] repeat_entry(k).1,
{
    assert forall|j: u8, k: u8| j < 26 && k < 26 implies #[trigger] repeat_entry(j).0
        != #[trigger] repeat_entry(k).1 by {
        assert(is_lower_letter(repeat_entry(j).0));
        assert(repeat_entry(k).1 >= '\u{ea01}');
    }
}

/// After the first `k` doubled-letter replacements no letter among the
/// first `k` stands twice in a row.
proof fn lemma_repeat_pass_no_double(s: Seq<char>, k: int)
    requires
        0 <= k <= 26,
    ensures
        forall|j: u8| j < k ==> no_double(apply_table(s, repeat_table().take(k)), #[trigger] repeat_entry(j).0),
    decreases k,
{
    if k > 0 {
        lemma_repeat_pass_no_double(s, k - 1);
        lemma_glyphs_are_not_letters();
        let t = repeat_table().take(k);
        assert(t.drop_last() =~= repeat_table().take(k - 1));
        let before = apply_table(s, t.drop_last());
        let (l, d, _) = repeat_entry((k - 1) as u8);
        assert(t.last() == (seq![l, l], d));
        assert forall|j: u8| j < k implies no_double(apply_table(s, t), #[trigger] repeat_entry(j).0) by {
            let m = repeat_entry(j).0;
            assert(d != m);
            crate::gall_text::lemma_replaced_no_double(before, l, d, m);
        }
    }
}

/// An encoded word never holds the same lowercase letter twice in a row:
/// every doubled letter has become its repeat glyph.
pub proof fn lemma_encoded_has_no_doubled_letter(lower: Seq<char>)
    ensures
        forall|i: int|
            0 <= i < spec_encode(lower).len() - 1 && is_lower_letter(#[trigger] spec_encode(lower)[i])
                ==> spec_encode(lower)[i] != spec_encode(lower)[i + 1],
{
    let b = apply_table(apply_table(lower, two_char_table()), repeat_3_table());
    lemma_repeat_pass_no_double(b, 26);
    assert(repeat_table().take(26) =~= repeat_table());
    let w = spec_encode(lower);
    assert forall|i: int|
        0 <= i < w.len() - 1 && is_lower_letter(#[trigger] w[i]) implies w[i] != w[i + 1] by {
        lemma_letter_index(w[i]);
        let j = (w[i] as u32 - 97) as u8;
        assert(no_double(w, repeat_entry(j).0));
    }
}

/// What a word adds to the angle pool: the weight of its size class, 2 if
/// it holds an `a`, 3 if it holds a Z-stem letter.
pub open spec fn size_weight(w: ProcessedWord, small_weight: i32, avg_weight: i32, large_weight: i32) -> int {
    match w.size {
        Size::Large => large_weight as int,
        Size::Med => avg_weight as int,
        Size::Small => small_weight as int,
    }
}

/// The angle pool's extra share for a word holding an `a`.
pub open spec fn a_bonus(w: ProcessedWord) -> int {
    if w.a_flag { 2 } else { 0 }
}

/// The angle pool's extra share for a word holding a Z stem.
pub open spec fn z_bonus(w: ProcessedWord) -> int {
    if w.z_stem { 3 } else { 0 }
}

/// The angle pool of the first `k` words.
pub open spec fn pool_prefix(
    words: Seq<ProcessedWord>,
    k: int,
    small_weight: i32,
    avg_weight: i32,
    large_weight: i32,
) -> int
    decreases k,
{
    if k <= 0 {
        0
    } else {
        pool_prefix(words, k - 1, small_weight, avg_weight, large_weight) + size_weight(
            words[k - 1],
            small_weight,
            avg_weight,
            large_weight,
        ) + a_bonus(words[k - 1]) + z_bonus(words[k - 1])
    }
}

/// Whether `x` fits in an `i32`.
pub open spec fn in_i32(x: int) -> bool {
    i32::MIN <= x <= i32::MAX
}

/// The pool over which the full turn is shared out among the words of a
/// sentence: each word's size weight, plus 2 for a word with an `a` and 3
/// for one with a Z-stem letter.
pub fn basic_angle_pool(word_list: &Vec<ProcessedWord>, small_weight: i32, avg_weight: i32, large_weight: i32) -> (pool: i32)
    requires
        forall|k: int|
            0 <= k < word_list@.len() ==> {
                let before = #[trigger] pool_prefix(word_list@, k, small_weight, avg_weight, large_weight);
                let w = word_list@[k];
                &&& in_i32(before + size_weight(w, small_weight, avg_weight, large_weight))
                &&& in_i32(before + size_weight(w, small_weight, avg_weight, large_weight) + a_bonus(w))
                &&& in_i32(before + size_weight(w, small_weight, avg_weight, large_weight) + a_bonus(w) + z_bonus(w))
            },
    ensures
        pool == pool_prefix(word_list@, word_list@.len() as int, small_weight, avg_weight, large_weight),
{
    let mut pool: i32 = 0;
    let mut i: usize = 0;
    while i < word_list.len()
        invariant
            i <= word_list@.len(),
            pool == pool_prefix(word_list@, i as int, small_weight, avg_weight, large_weight),
            forall|k: int|
                0 <= k < word_list@.len() ==> {
                    let before = #[trigger] pool_prefix(word_list@, k, small_weight, avg_weight, large_weight);
                    let w = word_list@[k];
                    &&& in_i32(before + size_weight(w, small_weight, avg_weight, large_weight))
                    &&& in_i32(before + size_weight(w, small_weight, avg_weight, large_weight) + a_bonus(w))
                    &&& in_i32(
                        before + size_weight(w, small_weight, avg_weight, large_weight) + a_bonus(w) + z_bonus(w),
                    )
                },
        decreases word_list@.len() - i,
    {
        let word = &word_list[i];
        assert(pool_prefix(word_list@, i as int, small_weight, avg_weight, large_weight) == pool);
        match word.size {
            Size::Large => pool += large_weight,
            Size::Med => pool += avg_weight,
            Size::Small => pool += small_weight,
        }
        if word.a_flag {
            pool += 2;
        }
        if word.z_stem {
            pool += 3;
        }
        i += 1;
    }
    pool
}

} // verus!
