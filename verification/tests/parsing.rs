use svg_gal::gall_char::GallChar;
use svg_gal::gall_config::Config;
use svg_gal::gall_errors::{Error, GallError};
use svg_gal::gall_fn::{
    basic_angle_pool, dot_lookup, letter_count, parse_lowercase, replace_repeat_3_char, replace_repeat_char,
    replace_two_char, stem_lookup, string_parse, string_parse_checked, Decor, LetterMark, ProcessedWord, Size,
};
use svg_gal::gall_parse::{PreSyl, PreWord};
use svg_gal::gall_stem::StemType;
use svg_gal::gall_struct::LetterType;
use svg_gal::gall_text::{chars_of, replace_all, string_of};
use svg_gal::gall_vowel::VowelType;

#[test]
fn stem_lookup_latin_letters() {
    assert!(stem_lookup(&'a') == (LetterMark::GallVowel(VowelType::A), 0));
    assert!(stem_lookup(&'E') == (LetterMark::GallVowel(VowelType::E), 0));
    assert!(stem_lookup(&'o') == (LetterMark::GallVowel(VowelType::O2), 0));
    assert!(stem_lookup(&'b') == (LetterMark::Stem(StemType::B), 0));
    assert!(stem_lookup(&'c') == (LetterMark::Stem(StemType::J), 0));
    assert!(stem_lookup(&'t') == (LetterMark::Stem(StemType::S), 0));
    assert!(stem_lookup(&'Z') == (LetterMark::Stem(StemType::Z), 0));
    assert!(stem_lookup(&'█') == (LetterMark::Stem(StemType::B), 0));
}

#[test]
fn stem_lookup_digits_and_marks() {
    assert!(stem_lookup(&'0') == (LetterMark::Digit(0), 0));
    assert!(stem_lookup(&'7') == (LetterMark::Digit(7), 0));
    assert!(stem_lookup(&'-') == (LetterMark::GallMark, 0));
    assert!(stem_lookup(&'!') == (LetterMark::GallMark, 0));
    assert!(stem_lookup(&'é') == (LetterMark::GallMark, 0));
}

#[test]
fn stem_lookup_glyphs() {
    // two-letter sounds
    assert!(stem_lookup(&'\u{e100}') == (LetterMark::Stem(StemType::B), 0));
    assert!(stem_lookup(&'\u{e300}') == (LetterMark::Stem(StemType::J), 0));
    assert!(stem_lookup(&'\u{e500}') == (LetterMark::Stem(StemType::S), 0));
    assert!(stem_lookup(&'\u{e000}') == (LetterMark::Stem(StemType::Z), 0));
    assert!(stem_lookup(&'\u{e900}') == (LetterMark::Stem(StemType::Z), 0));
    // doubled and tripled letters keep their letter's mark
    assert!(stem_lookup(&'\u{ea01}') == (LetterMark::GallVowel(VowelType::A), 1));
    assert!(stem_lookup(&'\u{ea0c}') == (LetterMark::Stem(StemType::J), 1));
    assert!(stem_lookup(&'\u{ea21}') == (LetterMark::GallVowel(VowelType::A), 2));
    assert!(stem_lookup(&'\u{ea3a}') == (LetterMark::Stem(StemType::Z), 2));
    assert!(stem_lookup(&'\u{ea1b}') == (LetterMark::GallMark, 0));
}

#[test]
fn dot_lookup_values() {
    assert!(dot_lookup(&'c') == (Some(Decor::Dot), 4));
    assert!(dot_lookup(&'d') == (Some(Decor::Dot), 3));
    assert!(dot_lookup(&'g') == (Some(Decor::Dash), 1));
    assert!(dot_lookup(&'h') == (Some(Decor::Dash), 2));
    assert!(dot_lookup(&'b') == (None, 0));
    assert!(dot_lookup(&'5') == (None, 0));
    assert!(dot_lookup(&'\u{e000}') == (None, 0));
    assert!(dot_lookup(&'\u{e800}') == (Some(Decor::Dash), 3));
    assert!(dot_lookup(&'\u{e200}') == (Some(Decor::Dot), 4));
    assert!(dot_lookup(&'\u{ea0c}') == (Some(Decor::Dot), 3));
    assert!(dot_lookup(&'\u{ea2d}') == (Some(Decor::Dash), 3));
    assert!(dot_lookup(&'\u{ea0a}') == (None, 0));
    assert!(dot_lookup(&'?') == (None, 0));
}

#[test]
fn repeat_glyph_lookups_match_their_letter() {
    for k in 0u32..26 {
        let letter = char::from_u32('a' as u32 + k).unwrap();
        let double = char::from_u32(0xea01 + k).unwrap();
        let triple = char::from_u32(0xea21 + k).unwrap();
        assert!(stem_lookup(&double) == (stem_lookup(&letter).0, 1));
        assert!(stem_lookup(&triple) == (stem_lookup(&letter).0, 2));
        assert!(dot_lookup(&double) == dot_lookup(&letter));
        assert!(dot_lookup(&triple) == dot_lookup(&letter));
    }
}

#[test]
fn replace_all_left_to_right() {
    let s = chars_of(&"aaaa".to_string());
    let r = replace_all(&s, &vec!['a', 'a', 'a'], 'X');
    assert_eq!(string_of(&r), "Xa");
    let s = chars_of(&"abab".to_string());
    let r = replace_all(&s, &vec!['b', 'a'], 'Y');
    assert_eq!(string_of(&r), "aYb");
    let s = chars_of(&"".to_string());
    let r = replace_all(&s, &vec!['a'], 'Z');
    assert_eq!(string_of(&r), "");
}

#[test]
fn replace_two_char_sounds() {
    assert_eq!(replace_two_char("church".to_string()), "\u{e100}ur\u{e100}");
    assert_eq!(replace_two_char("think".to_string()), "\u{e000}ink");
    assert_eq!(replace_two_char("long".to_string()), "lo\u{e800}");
    assert_eq!(replace_two_char("quench".to_string()), "\u{e900}e\u{e600}\u{e100}".replace("\u{e600}\u{e100}", "n\u{e100}"));
    assert_eq!(replace_two_char("xyz".to_string()), "xyz");
}

#[test]
fn replace_repeated_letters() {
    assert_eq!(replace_repeat_char("book".to_string()), "b\u{ea0f}k");
    assert_eq!(replace_repeat_char("zz".to_string()), "\u{ea1a}");
    assert_eq!(replace_repeat_3_char("aaaa".to_string()), "\u{ea21}a");
    assert_eq!(replace_repeat_3_char("zzz".to_string()), "\u{ea3a}");
    assert_eq!(replace_repeat_char("abc".to_string()), "abc");
}

#[test]
fn letter_count_plain_word() {
    let (count, vowels, a, z, s, neg) = letter_count(&"hello".to_string());
    assert_eq!((count, vowels, a, z, s), (5, 2, false, false, false));
    assert!(neg.is_empty());
    let (count, vowels, a, z, s, _) = letter_count(&"star".to_string());
    assert_eq!((count, vowels, a, z, s), (4, 1, true, false, true));
    let (_, vowels, a, z, _, _) = letter_count(&"\u{ea21}\u{ea05}zy".to_string());
    assert_eq!((vowels, a, z), (5, true, true));
}

#[test]
fn letter_count_numbers() {
    let (count, _, _, _, _, neg) = letter_count(&"a12b".to_string());
    assert_eq!(count, 3);
    assert_eq!(neg, vec![false]);
    let (count, _, _, _, _, neg) = letter_count(&"12".to_string());
    assert_eq!(count, 1);
    assert_eq!(neg, vec![false]);
    let (count, _, _, _, _, neg) = letter_count(&"-5".to_string());
    assert_eq!(count, 1);
    assert_eq!(neg, vec![true]);
    let (count, _, _, _, _, neg) = letter_count(&"-5x7".to_string());
    assert_eq!(count, 3);
    assert_eq!(neg, vec![false, true]);
    let r = letter_count(&"1a-2".to_string());
    assert_eq!(r, (3, 1, true, false, false, vec![true, false]));
    let (count, _, _, _, _, neg) = letter_count(&"--25".to_string());
    assert_eq!(count, 2);
    assert_eq!(neg, vec![true]);
    let (count, _, _, _, _, neg) = letter_count(&"a-b".to_string());
    assert_eq!(count, 3);
    assert!(neg.is_empty());
}

fn check_word(p: &ProcessedWord, word: &str, length: usize, vowels: usize, size: Size) {
    assert_eq!(p.word, word);
    assert_eq!(p.length, length);
    assert_eq!(p.vowels, vowels);
    assert!(p.size == size);
}

#[test]
fn string_parse_words() {
    let p = string_parse("Hello".to_string());
    check_word(&p, "he\u{ea0c}o", 4, 2, Size::Small);
    assert!(!p.a_flag && !p.z_stem && !p.s_stem);
    let p = string_parse("Thinking".to_string());
    check_word(&p, "\u{e000}inki\u{e800}", 6, 2, Size::Med);
    assert!(p.z_stem);
    let p = string_parse("Gallifreyan".to_string());
    check_word(&p, "ga\u{ea0c}ifreyan", 10, 4, Size::Large);
    assert!(p.a_flag && p.z_stem && p.s_stem);
    let p = string_parse(String::new());
    check_word(&p, "", 0, 0, Size::Small);
}

#[test]
fn string_parse_checked_agrees() {
    let p = string_parse_checked("Doctor".to_string()).unwrap();
    let q = parse_lowercase("doctor".to_string());
    assert_eq!(p.word, q.word);
    assert_eq!(p.length, q.length);
    assert_eq!(p.vowels, q.vowels);
    assert_eq!(p.neg_digit, q.neg_digit);
}

#[test]
fn basic_angle_pool_weights() {
    let words = vec![string_parse("hi".to_string()), string_parse("extraordinary".to_string()), string_parse("zebra".to_string())];
    // small 1; large 3 + a 2 + z 3; med 2 + a 2 + z 3
    assert_eq!(basic_angle_pool(&words, 1, 2, 3), 16);
    assert_eq!(basic_angle_pool(&Vec::new(), 1, 2, 3), 0);
}

#[test]
fn error_messages() {
    let e = Error::new(GallError::NoStepSpace);
    assert!(e.error_type == GallError::NoStepSpace);
    assert_eq!(e.message(), "Stepping further will cross 6 o'clock");
    assert_eq!(Error::new(GallError::AngleUndefined).message(), "Angle is undefined.");
    assert_eq!(Error::new(GallError::TainerNotInit).message(), "Tainer has not been initialised yet");
}

#[test]
fn config_values() {
    assert!(Config::STACK);
    assert!(Config::NODE_VISIBILITY);
    assert!(Config::ENABLE_CANVAS);
    assert_eq!(Config::DEF_PAIR_THICK, 4);
    assert_eq!(Config::DEBUG_COLOUR(), "purple");
    assert_eq!(Config::CANVAS_COLOUR(), "yellow");
    assert_eq!(Config::SENT_COLOUR(), "orange");
    assert_eq!(Config::WRD_COLOUR(), "green");
    assert_eq!(Config::DOT_COLOUR(), "blue");
    assert_eq!(Config::JZ_COLOUR(), "black");
    assert_eq!(Config::VOW_COLOUR(), "red");
    assert_eq!(Config::SKEL_COLOUR(), "black");
    assert_eq!(Config::SENT_SKEL_COLOUR(), "black");
}

#[test]
fn gall_char_new() {
    let g = GallChar::new('d');
    assert!(g.letter == LetterMark::Stem(StemType::B));
    assert!(g.stem == Some(StemType::B));
    assert!(g.decor == Some(Decor::Dot));
    assert_eq!(g.decor_num, 3);
    assert!(!g.repeat);
    let g = GallChar::new('4');
    assert!(g.stem == Some(StemType::J));
    let g = GallChar::new('\u{ea15}');
    assert!(g.letter == LetterMark::GallVowel(VowelType::U));
    assert!(g.stem.is_none());
    assert!(g.repeat);
}

#[test]
fn pre_syl_push() {
    let mut syl = PreSyl::new();
    assert!(syl.push(GallChar::new('b')).is_ok());
    assert!(syl.stem_type == Some(StemType::B));
    assert!(syl.push(GallChar::new('a')).is_ok());
    assert!(syl.push(GallChar::new('d')).is_ok());
    let back = syl.push(GallChar::new('t'));
    assert!(back.is_err());
    assert!(back.err().unwrap().letter == LetterMark::Stem(StemType::S));
    assert_eq!(syl.char_vec.len(), 3);
}

#[test]
fn pre_word_groups() {
    let w = PreWord::new("bad".to_string(), 3);
    assert_eq!(w.len(), 1);
    assert_eq!(w.pre_vec[0].char_vec.len(), 3);
    let w = PreWord::new("cat".to_string(), 3);
    assert_eq!(w.len(), 2);
    assert!(w.pre_vec[0].stem_type == Some(StemType::J));
    assert!(w.pre_vec[1].stem_type == Some(StemType::S));
    let w = PreWord::new("".to_string(), 0);
    assert_eq!(w.len(), 1);
    assert!(w.pre_vec[0].char_vec.is_empty());
    let w = PreWord::new("aeb".to_string(), 3);
    assert_eq!(w.len(), 2);
    assert!(w.pre_vec[0].stem_type.is_none());
}

#[test]
fn letter_type_default() {
    assert!(LetterType::default() == LetterType::Punctuation);
}

#[test]
fn encoded_words_hold_no_doubled_letter() {
    for raw in ["aaaaabbbbbcc", "Mississippi", "bookkeeper", "zzzzzzz", "aAbBcC"] {
        let p = string_parse(raw.to_string());
        let chars: Vec<char> = p.word.chars().collect();
        for pair in chars.windows(2) {
            assert!(!(pair[0] == pair[1] && pair[0].is_ascii_lowercase()));
        }
        assert!(chars.len() <= raw.chars().count());
    }
}

#[test]
fn pre_word_keeps_every_character() {
    let text = "thistlesandthorns";
    let w = PreWord::new(text.to_string(), text.len());
    let mut total = 0;
    for syl in &w.pre_vec {
        assert!(!syl.char_vec.is_empty());
        assert!(syl.stem_type == syl.char_vec[0].stem);
        for letter in &syl.char_vec {
            if !matches!(letter.letter, LetterMark::GallVowel(_)) {
                assert!(letter.stem == syl.stem_type);
            }
        }
        total += syl.char_vec.len();
    }
    assert_eq!(total, text.chars().count());
    assert_eq!(w.len(), w.pre_vec.len());
}

#[test]
fn presyl_stays_on_its_first_stem() {
    let mut syl = PreSyl::new();
    assert!(syl.stem_type.is_none());
    for c in "abdtkoe4x".chars() {
        let _ = syl.push(GallChar::new(c));
        if syl.char_vec.is_empty() {
            assert!(syl.stem_type.is_none());
        } else {
            assert!(syl.stem_type == syl.char_vec[0].stem);
            for g in &syl.char_vec {
                if !matches!(g.letter, svg_gal::gall_fn::LetterMark::GallVowel(_)) {
                    assert!(g.stem == syl.stem_type);
                }
            }
        }
    }
}
