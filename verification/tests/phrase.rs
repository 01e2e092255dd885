use svg_gal::gall_phrase::GallPhrase;
use svg_gal::gall_struct::{Decor, GallCircle, GallWord, LetterType};

fn dash(syl: usize, num: usize) -> Decor {
    Decor { dot: false, pair_syllable: None, free: true, address: (syl, num) }
}

fn dot(syl: usize, num: usize) -> Decor {
    Decor { dot: true, pair_syllable: None, free: false, address: (syl, num) }
}

fn word(syllables: Vec<Vec<Decor>>, letter_count: usize) -> GallWord {
    GallWord {
        syllables: syllables.into_iter().map(|decorators| GallCircle { decorators }).collect(),
        letter_count,
    }
}

fn sample_phrase() -> GallPhrase {
    GallPhrase {
        words: vec![
            word(vec![vec![dash(0, 0), dash(0, 1)], vec![dot(1, 0), dash(1, 1)]], 1),
            word(vec![vec![dash(0, 0)]], 1),
        ],
    }
}

fn decor(phrase: &GallPhrase, addr: (usize, usize, usize)) -> Decor {
    phrase.words[addr.0].syllables[addr.1].decorators[addr.2]
}

#[test]
fn collect_dashes_skips_dots_and_joined_dashes() {
    let mut w = word(vec![vec![dash(0, 0), dot(0, 1)], vec![dash(1, 0), dash(1, 1)]], 2);
    w.syllables[1].decorators[0].free = false;
    assert_eq!(w.collect_dashes(), vec![(0, 0), (1, 1)]);
}

#[test]
fn dash_list_lists_free_dashes_in_order() {
    let phrase = sample_phrase();
    let (count, dashes) = phrase.dash_list();
    assert_eq!(count, 4);
    assert_eq!(dashes, vec![(0, (0, 0)), (0, (0, 1)), (0, (1, 1)), (1, (0, 0))]);
}

#[test]
fn dash_pair_step_skips_a_dash_on_the_same_syllable() {
    let mut phrase = sample_phrase();
    let (count, spare) = phrase.dash_pair_loop_step(None);
    assert_eq!(count, 2);
    assert_eq!(spare, Some(vec![(0, (0, 1)), (1, (0, 0))]));
    let a = decor(&phrase, (0, 0, 0));
    let b = decor(&phrase, (0, 1, 1));
    assert_eq!(a.pair_syllable, Some((0, 1, 1)));
    assert_eq!(b.pair_syllable, Some((0, 0, 0)));
    assert!(!a.free && !b.free);
    assert!(decor(&phrase, (0, 0, 1)).free);
    assert_eq!(decor(&phrase, (1, 0, 0)).pair_syllable, None);
}

#[test]
fn dash_pair_step_on_spare_dashes() {
    let mut phrase = sample_phrase();
    let (_, spare) = phrase.dash_pair_loop_step(None);
    let (count, rest) = phrase.dash_pair_loop_step(spare);
    assert_eq!(count, 0);
    assert_eq!(rest, None);
    assert_eq!(decor(&phrase, (0, 0, 1)).pair_syllable, Some((1, 0, 0)));
    assert_eq!(decor(&phrase, (1, 0, 0)).pair_syllable, Some((0, 0, 1)));
}

#[test]
fn dash_pair_step_keeps_three_on_one_syllable_spare() {
    let mut phrase = GallPhrase { words: vec![word(vec![vec![dash(0, 0), dash(0, 1), dash(0, 2)]], 1)] };
    let (count, spare) = phrase.dash_pair_loop_step(None);
    assert_eq!(count, 3);
    assert_eq!(spare, Some(vec![(0, (0, 2)), (0, (0, 1)), (0, (0, 0))]));
    assert!(decor(&phrase, (0, 0, 0)).free);
}

#[test]
fn dash_pair_step_last_two_on_one_syllable_go_to_both_ends() {
    let mut phrase = GallPhrase { words: vec![word(vec![vec![dash(0, 0), dash(0, 1)]], 1)] };
    let (count, spare) = phrase.dash_pair_loop_step(None);
    assert_eq!(count, 2);
    assert_eq!(spare, Some(vec![(0, (0, 1)), (0, (0, 0))]));
}

#[test]
fn dash_pair_step_with_no_dashes() {
    let mut phrase = GallPhrase { words: vec![word(vec![vec![dot(0, 0)]], 1)] };
    assert_eq!(phrase.dash_pair_loop_step(None), (0, None));
}

#[test]
fn dash_pair_loop_joins_every_dash() {
    let mut phrase = sample_phrase();
    phrase.dash_pair_loop();
    assert_eq!(phrase.dash_list(), (0, vec![]));
    assert_eq!(decor(&phrase, (0, 0, 0)).pair_syllable, Some((0, 1, 1)));
    assert_eq!(decor(&phrase, (0, 0, 1)).pair_syllable, Some((1, 0, 0)));
    assert!(decor(&phrase, (0, 1, 0)).dot);
    assert_eq!(decor(&phrase, (0, 1, 0)).pair_syllable, None);
}

#[test]
fn dash_pair_loop_leaves_a_lone_syllable_unpaired() {
    let mut phrase = GallPhrase { words: vec![word(vec![vec![dash(0, 0), dash(0, 1)]], 1)] };
    phrase.dash_pair_loop();
    assert_eq!(phrase.dash_list().0, 2);
    assert_eq!(decor(&phrase, (0, 0, 0)).pair_syllable, None);
}

#[test]
fn add_syl_pair_records_the_partner() {
    let mut d = dash(0, 0);
    d.add_syl_pair((1, 2, 3));
    assert_eq!(d.pair_syllable, Some((1, 2, 3)));
    assert!(d.free);
    assert_eq!(LetterType::default(), LetterType::Punctuation);
}
