use kana::build_set;
use kana::to_romaji;
use kana::Word;
use kana::WordCorpus;
use kana::WordSet;
use rand::SeedableRng;

fn word(text: &str, count: u64) -> Word {
    Word { word: String::from(text), count }
}

fn rng(seed: u64) -> rand::rngs::StdRng {
    rand::rngs::StdRng::seed_from_u64(seed)
}

fn set_covers(set: &WordSet, c: char) -> bool {
    set.words.iter().any(|w| w.word.chars().any(|x| x == c))
}

#[test]
fn test_build_set_covers_all() {
    // A corpus with words covering each of a, b and c; budget 0 stops
    // once the required characters are covered.
    let raw = vec![word("ab", 3), word("ca", 2), word("bc", 1)];
    let corpus = WordCorpus::new(&raw);
    let mut r = rng(7);
    let set = build_set(&corpus, "abc", 0, &mut r);
    assert!(set.missing.is_empty());
    assert!(set_covers(&set, 'a'));
    assert!(set_covers(&set, 'b'));
    assert!(set_covers(&set, 'c'));
    let total: usize = set.words.iter().map(|w| w.word.chars().count()).sum();
    assert_eq!(set.chars, total);
}

#[test]
fn test_build_set_reports_missing() {
    // No corpus word contains 'z', and the 'q' word has weight zero,
    // so neither character can ever be covered.
    let raw = vec![word("ab", 3), word("q", 0)];
    let corpus = WordCorpus::new(&raw);
    let mut r = rng(11);
    let set = build_set(&corpus, "abqz", 0, &mut r);
    assert_eq!(set.missing, vec!['q', 'z']);
    assert!(set_covers(&set, 'a'));
    assert!(set_covers(&set, 'b'));
}

#[test]
fn test_build_set_budget_fill() {
    // With a positive budget the builder keeps adding words after the
    // required set is covered, and stops once no word is left.
    let raw = vec![word("ab", 3), word("ba", 2), word("aa", 1)];
    let corpus = WordCorpus::new(&raw);
    let mut r = rng(3);
    let set = build_set(&corpus, "ab", 100, &mut r);
    // The corpus runs out before the budget is met: all three words.
    assert_eq!(set.words.len(), 3);
    assert_eq!(set.chars, 6);
}

#[test]
fn test_corpus_filters_invalid_words() {
    // A word whose romanization holds characters outside ASCII
    // letters, digits and hyphen is silently excluded.
    let raw = vec![word("ねこ", 5), word("ね こ", 5), word("?", 1), word("", 1)];
    let corpus = WordCorpus::new(&raw);
    assert_eq!(corpus.words().len(), 1);
    assert_eq!(corpus.words()[0].word, "ねこ");
    assert_eq!(to_romaji("ねこ"), "neko");
}

#[test]
fn test_swap_current_moves_strictly_later() {
    let mut set = WordSet {
        words: vec![word("a", 1), word("b", 1), word("c", 1), word("d", 1), word("e", 1)],
        chars: 5,
        missing: Vec::new(),
    };
    let mut r = rng(5);
    for _ in 0..20 {
        let new_index = set.swap_current(0, &mut r);
        assert!(0 < new_index && new_index < 5);
        assert_eq!(set.words.len(), 5);
    }
}

#[test]
fn test_swap_current_last_is_noop() {
    let mut set = WordSet {
        words: vec![word("a", 1), word("b", 1)],
        chars: 2,
        missing: Vec::new(),
    };
    let mut r = rng(5);
    assert_eq!(set.swap_current(1, &mut r), 1);
    assert_eq!(set.words[0].word, "a");
    assert_eq!(set.words[1].word, "b");
    // An index beyond the words moves nothing either.
    assert_eq!(set.swap_current(9, &mut r), 9);
}

#[test]
fn test_shuffle_keeps_words() {
    let mut set = WordSet {
        words: vec![word("a", 1), word("b", 2), word("c", 3), word("d", 4)],
        chars: 4,
        missing: Vec::new(),
    };
    let mut r = rng(13);
    set.shuffle(&mut r);
    let mut texts: Vec<String> = set.words.iter().map(|w| w.word.clone()).collect();
    texts.sort();
    assert_eq!(texts, vec!["a", "b", "c", "d"]);
    assert_eq!(set.chars, 4);
}

#[test]
fn test_to_romaji_deterministic() {
    // Pure and deterministic: repeated calls agree, whatever ran in
    // between.
    let first = to_romaji("ファッション");
    let _ = to_romaji("あいうえお");
    let second = to_romaji("ファッション");
    assert_eq!(first, second);
    assert_eq!(first, "fasshon");
}

#[test]
fn test_match_reports_failed_chars() {
    let m = kana::Match::new("あいう", "axu");
    assert!(!m.is_match);
    assert_eq!(m.actual, "aiu");
    assert_eq!(m.fails, vec!['い']);
    let ok = kana::Match::new("あいう", "aiu");
    assert!(ok.is_match);
    assert!(ok.fails.is_empty());
}

#[test]
fn test_match_checked_accepts_real_input() {
    let m = kana::Match::checked("まって", "matte").unwrap();
    assert!(m.is_match);
}
