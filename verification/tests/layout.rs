use svg_gal::gall_errors::GallError;
use svg_gal::gall_fn::{string_parse, Decor, LetterMark};
use svg_gal::gall_stem::StemType;
use svg_gal::gall_tainer::{DecorMark, GallTainer, StemMark, TainerRole, VowelMark};
use svg_gal::gall_vowel::VowelType;
use svg_gal::gall_word::populate;
use svg_gal::pairing::{base_loop, generate_pairs, pair_pass, NodeGraph};

fn tainers_of(word: &str) -> Vec<GallTainer> {
    populate(string_parse(word.to_string()))
}

#[test]
fn tainer_new_is_stateless_and_empty() {
    let t = GallTainer::new();
    assert!(t.is_stateless());
    assert!(t.is_empty());
    assert!(t.stem_type().is_none());
    assert!(t.get_state().err().unwrap().error_type == GallError::TainerNotInit);
    assert!(t.stack_check().err().unwrap().error_type == GallError::NoStemInTainer);
    assert!(t.role() == TainerRole::Mark);
}

#[test]
fn tainer_init_and_letters() {
    let mut t = GallTainer::new();
    t.add_stem(StemType::B, 0);
    assert!(t.stem.is_empty());
    let next = t.init(&LetterMark::Stem(StemType::B), 3);
    assert_eq!(next, 4);
    assert!(!t.is_stateless());
    assert!(t.stem_type() == Some(StemType::B));
    assert_eq!(t.get_state().unwrap().index, 3);
    t.populate(LetterMark::Stem(StemType::B), (Some(Decor::Dash), 2), 1);
    assert!(t.stem == vec![
        StemMark { stem_type: StemType::B, rank: 0, repeat: 0, digit: false },
        StemMark { stem_type: StemType::B, rank: 1, repeat: 1, digit: false },
    ]);
    assert!(t.node == vec![DecorMark { num: -1, layer: 2 }, DecorMark { num: 0, layer: 2 }]);
    assert!(t.dot.is_empty());
    assert!(!t.is_empty());
    assert!(t.stack_check().unwrap() == (0, 0));
    assert!(t.role() == TainerRole::Skel);
    t.populate(LetterMark::GallVowel(VowelType::E), (None, 0), 0);
    assert!(t.vowel == vec![VowelMark { vowel_type: VowelType::E, rank: 0, repeat: 0 }]);
    assert!(t.get_state().unwrap().vowel);
}

#[test]
fn tainer_digits() {
    let mut t = GallTainer::new();
    t.init(&LetterMark::Digit(7), 0);
    assert!(t.stem_type() == Some(StemType::J));
    t.populate(LetterMark::Digit(-7), (None, 0), 0);
    assert!(t.stem == vec![StemMark { stem_type: StemType::J, rank: 0, repeat: 0, digit: true }]);
    assert!(t.dot == vec![DecorMark { num: 1, layer: 1 }]);
    t.populate(LetterMark::Digit(3), (None, 0), 0);
    assert_eq!(t.stem.len(), 2);
    assert_eq!(t.dot.len(), 1);
    assert!(t.stack_check().unwrap() == (0, 1));
    assert!(t.role() == TainerRole::Divot);
}

#[test]
fn word_cat() {
    let ts = tainers_of("cat");
    assert_eq!(ts.len(), 2);
    let s0 = ts[0].get_state().unwrap();
    assert_eq!(s0.index, 0);
    assert!(s0.stem_type == Some(StemType::J));
    assert!(s0.vowel);
    assert_eq!(ts[0].stem.len(), 1);
    assert!(ts[0].vowel == vec![VowelMark { vowel_type: VowelType::A, rank: 0, repeat: 0 }]);
    assert!(ts[0].dot == vec![
        DecorMark { num: -1, layer: 1 },
        DecorMark { num: 0, layer: 1 },
        DecorMark { num: 1, layer: 1 },
        DecorMark { num: 2, layer: 1 },
    ]);
    assert_eq!(ts[1].get_state().unwrap().index, 1);
    assert!(ts[1].stem_type() == Some(StemType::S));
    assert!(ts[0].role() == TainerRole::Divot);
    assert!(ts[1].role() == TainerRole::Skel);
}

#[test]
fn word_stack_of_one_stem() {
    // the word `o` after a consonant is skipped; `b` stacks on `b`
    let ts = tainers_of("bob");
    assert_eq!(ts.len(), 1);
    assert_eq!(ts[0].stem.len(), 2);
    assert_eq!(ts[0].stem[1].rank, 1);
    assert!(ts[0].vowel.is_empty());
}

#[test]
fn word_sounds_and_repeats() {
    let ts = tainers_of("ash");
    assert_eq!(ts.len(), 2);
    assert!(ts[0].stem_type().is_none());
    assert!(ts[0].role() == TainerRole::Divot);
    assert!(ts[1].stem_type() == Some(StemType::S));
    assert_eq!(ts[1].dot.len(), 2);
    let ts = tainers_of("aab");
    assert_eq!(ts.len(), 2);
    assert!(ts[0].vowel == vec![
        VowelMark { vowel_type: VowelType::A, rank: 0, repeat: 0 },
        VowelMark { vowel_type: VowelType::A, rank: 1, repeat: 1 },
    ]);
    let ts = tainers_of("book");
    assert_eq!(ts.len(), 2);
    assert!(ts[0].vowel.is_empty());
    assert!(ts[1].stem_type() == Some(StemType::J));
}

#[test]
fn word_digits_replace_the_open_container() {
    let ts = tainers_of("12");
    assert_eq!(ts.len(), 1);
    assert_eq!(ts[0].get_state().unwrap().index, 1);
    assert!(ts[0].get_state().unwrap().mark == LetterMark::Digit(2));
    let ts = tainers_of("a5");
    assert_eq!(ts.len(), 1);
    assert!(ts[0].stem == vec![StemMark { stem_type: StemType::J, rank: 0, repeat: 0, digit: true }]);
    assert!(ts[0].dot == vec![DecorMark { num: 1, layer: 1 }]);
}

#[test]
fn word_empty() {
    let ts = tainers_of("");
    assert_eq!(ts.len(), 1);
    assert!(ts[0].is_stateless());
}

fn graph(n: usize, compat: impl Fn(usize, usize) -> bool, same: impl Fn(usize, usize) -> bool) -> NodeGraph {
    NodeGraph {
        compat: (0..n).map(|i| (0..n).map(|j| compat(i, j)).collect()).collect(),
        same_center: (0..n).map(|i| (0..n).map(|j| same(i, j)).collect()).collect(),
    }
}

fn check_partition(n: usize, pairs: &Vec<(usize, usize)>, spare: &Vec<usize>) {
    let mut seen = vec![0usize; n];
    for (a, b) in pairs {
        seen[*a] += 1;
        seen[*b] += 1;
    }
    for s in spare {
        seen[*s] += 1;
    }
    assert!(seen.iter().all(|c| *c == 1));
}

#[test]
fn pairs_of_few_nodes() {
    let g = graph(0, |_, _| true, |i, j| i == j);
    let (pairs, spare) = generate_pairs(&g);
    assert!(pairs.is_empty() && spare.is_empty());
    let g = graph(1, |_, _| true, |i, j| i == j);
    let (pairs, spare) = generate_pairs(&g);
    assert!(pairs.is_empty());
    assert_eq!(spare, vec![0]);
}

#[test]
fn pairs_two_compatible_nodes() {
    let g = graph(2, |i, j| i != j, |i, j| i == j);
    let (pairs, spare) = generate_pairs(&g);
    assert_eq!(pairs.len(), 1);
    assert!(spare.is_empty());
    check_partition(2, &pairs, &spare);
}

#[test]
fn pairs_none_when_incompatible() {
    let g = graph(3, |_, _| false, |i, j| i == j);
    let (pairs, spare) = generate_pairs(&g);
    assert!(pairs.is_empty());
    check_partition(3, &pairs, &spare);
}

#[test]
fn pairs_join_two_letters_once() {
    // nodes 0 and 1 share a letter, as do 2 and 3
    let same = |i: usize, j: usize| i / 2 == j / 2;
    let g = graph(4, move |i, j| !same(i, j), same);
    for _ in 0..20 {
        let (pairs, spare) = generate_pairs(&g);
        assert_eq!(pairs.len(), 1);
        let (a, b) = pairs[0];
        assert!(a / 2 != b / 2);
        check_partition(4, &pairs, &spare);
    }
}

#[test]
fn pairs_many_nodes() {
    let g = graph(9, |i, j| i != j, |i, j| i == j);
    let (pairs, spare) = generate_pairs(&g);
    check_partition(9, &pairs, &spare);
    for (a, b) in &pairs {
        assert!(a != b);
    }
}

#[test]
fn pair_pass_in_given_order() {
    let g = graph(3, |i, j| i != j, |i, j| i == j);
    let mut pairs = Vec::new();
    let spare = pair_pass(&g, vec![0, 1, 2], &mut pairs);
    assert_eq!(pairs, vec![(0, 1)]);
    assert_eq!(spare, vec![2]);
    let mut pairs = Vec::new();
    let spare = pair_pass(&g, vec![2, 1, 0], &mut pairs);
    assert_eq!(pairs, vec![(2, 1)]);
    assert_eq!(spare, vec![0]);
    // only 0 and 2 accept each other
    let g = graph(3, |i, j| (i == 0 && j == 2) || (i == 2 && j == 0), |i, j| i == j);
    let mut pairs = Vec::new();
    let spare = pair_pass(&g, vec![0, 1, 2], &mut pairs);
    assert!(pairs.is_empty());
    assert_eq!(spare, vec![0, 1, 2]);
}

#[test]
fn base_loop_keeps_every_node() {
    let g = graph(5, |i, j| i != j, |i, j| i == j);
    let mut pairs = Vec::new();
    let mut rng = rand::thread_rng();
    let spare = base_loop(&g, vec![0, 1, 2, 3, 4], &mut pairs, &mut rng);
    check_partition(5, &pairs, &spare);
    assert_eq!(pairs.len(), 2);
}

#[test]
fn word_tainers_are_well_formed() {
    for raw in ["gallifreyan", "thinking", "bookkeeper", "quick brown", "xyzzy", "a1b22c"] {
        let ts = tainers_of(raw);
        let mut last_index: Option<usize> = None;
        for t in &ts {
            let state = t.get_state().unwrap();
            if let Some(prev) = last_index {
                assert!(prev < state.index);
            }
            last_index = Some(state.index);
            for (k, stem) in t.stem.iter().enumerate() {
                assert_eq!(stem.rank, k);
                assert!(Some(stem.stem_type) == state.stem_type);
                assert!(stem.repeat <= 2);
            }
            for (k, vow) in t.vowel.iter().enumerate() {
                assert_eq!(vow.rank, k);
            }
            let layers = t.stem.len() + t.vowel.len();
            assert!(t.dot.iter().all(|d| d.layer <= layers));
            assert!(t.node.iter().all(|d| d.layer <= layers));
            assert_eq!(state.vowel, !t.vowel.is_empty());
            assert!(t.mark.is_empty());
        }
    }
}

#[test]
fn base_loop_orders_at_random() {
    let g = graph(4, |i, j| i != j, |i, j| i == j);
    let mut rng = rand::thread_rng();
    let mut outcomes = std::collections::HashSet::new();
    for _ in 0..64 {
        let mut pairs = Vec::new();
        let spare = base_loop(&g, vec![0, 1, 2, 3], &mut pairs, &mut rng);
        assert!(spare.is_empty());
        let mut key: Vec<(usize, usize)> = pairs.iter().map(|&(a, b)| if a < b { (a, b) } else { (b, a) }).collect();
        key.sort();
        outcomes.insert(key);
    }
    assert!(outcomes.len() > 1);
}

#[test]
fn pairs_made_on_fully_compatible_graph() {
    let g = graph(5, |_, _| true, |i, j| i == j);
    for _ in 0..20 {
        let (pairs, spare) = generate_pairs(&g);
        assert!(!pairs.is_empty());
        assert!(spare.len() <= 1);
        check_partition(5, &pairs, &spare);
    }
}

#[test]
fn pairs_never_join_one_letter_centre() {
    // every node accepts every other; nodes 0 and 1 share a centre, as do 2 and 3
    let same = |i: usize, j: usize| i / 2 == j / 2;
    let g = graph(4, |_, _| true, same);
    for _ in 0..20 {
        let (pairs, spare) = generate_pairs(&g);
        assert_eq!(pairs.len(), 1);
        let (a, b) = pairs[0];
        assert!(a / 2 != b / 2);
        check_partition(4, &pairs, &spare);
    }
}
