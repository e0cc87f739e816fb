use fakeword::connections::SyllableConnections;
use fakeword::graph::{NodeData, SonorityGraph};
use fakeword::phoneme::Phoneme;
use fakeword::syllable::Syllable;
use fakeword::syllablize::SyllablizedPhonemes;
use fakeword::wordgen::FakeWordGenerator;

fn entry(word: &str, syllables: Vec<Vec<Phoneme>>) -> (String, Vec<Syllable>) {
    (word.to_string(), syllables.into_iter().map(Syllable::new).collect())
}

fn corpus() -> SyllablizedPhonemes {
    SyllablizedPhonemes {
        words: vec![
            entry("baba", vec![vec![Phoneme::B, Phoneme::AA], vec![Phoneme::B, Phoneme::AA]]),
            entry("house", vec![vec![Phoneme::H, Phoneme::AW, Phoneme::S]]),
        ],
    }
}

fn generator(word_length_max: usize) -> FakeWordGenerator {
    FakeWordGenerator::new(corpus(), rand::thread_rng(), word_length_max)
}

#[test]
fn a_cap_of_zero_gives_the_empty_word() {
    let mut generator = generator(0);
    for _ in 0..20 {
        let word = generator.generate_word(&vec![true, true, true]);
        assert!(word.syllables.is_empty());
    }
}

#[test]
fn no_word_has_more_syllables_than_the_cap() {
    // In this corpus "AA" is always followed by "B": only the cap and the
    // continuation tests end a word.
    for cap in 0..6 {
        let mut generator = generator(cap);
        for _ in 0..20 {
            let word = generator.generate_word(&vec![true; 10]);
            assert_eq!(word.syllables.len(), cap);
        }
    }
}

#[test]
fn a_word_ends_at_the_first_test_that_does_not_pass() {
    let mut generator = generator(10);
    assert_eq!(generator.generate_word(&vec![true, true, false, true]).syllables.len(), 2);
    assert_eq!(generator.generate_word(&vec![false, true]).syllables.len(), 0);
    assert_eq!(generator.generate_word(&vec![]).syllables.len(), 0);
    assert_eq!(generator.generate_word(&vec![true]).syllables.len(), 1);
}

#[test]
fn every_syllable_begins_with_the_sound_after_the_boundary() {
    let mut generator = generator(4);
    let word = generator.generate_word(&vec![true; 4]);
    assert_eq!(word.syllables.len(), 4);
    for syllable in word.syllables.iter() {
        assert_eq!(syllable.phonemes(), &vec![Phoneme::B, Phoneme::AA]);
    }
    assert_eq!(word.to_english(), "bah-bah-bah-bah");
    assert_eq!(word.to_ipa(), "bɑ bɑ bɑ bɑ");
}

#[test]
fn a_word_ends_where_the_table_gives_the_end() {
    let corpus = SyllablizedPhonemes {
        words: vec![entry(
            "about",
            vec![vec![Phoneme::AH], vec![Phoneme::B, Phoneme::AW, Phoneme::T]],
        )],
    };
    let mut generator = FakeWordGenerator::new(corpus, rand::thread_rng(), 10);
    let word = generator.generate_word(&vec![true; 10]);
    assert_eq!(word.to_ipa(), "ʌ baʊt");
    assert_eq!(word.to_english(), "uh-bowt");
}

#[test]
fn an_empty_table_gives_the_empty_word() {
    let corpus = SyllablizedPhonemes {
        words: vec![entry("house", vec![vec![Phoneme::H, Phoneme::AW, Phoneme::S]])],
    };
    let mut generator = FakeWordGenerator::new(corpus, rand::thread_rng(), 10);
    assert!(generator.generate_word(&vec![true; 10]).syllables.is_empty());
}

#[test]
fn a_table_that_leads_back_to_the_start_ends_the_word() {
    let table = SyllableConnections::restore(&vec![
        (NodeData::Start, NodeData::Phoneme(Phoneme::B), 1),
        (NodeData::Phoneme(Phoneme::AA), NodeData::Start, 1),
    ]);
    let mut generator = FakeWordGenerator {
        syllablized_phonemes: corpus(),
        sonority_graph: SonorityGraph::new(&corpus()),
        syllable_connections: table,
        rng: rand::thread_rng(),
        word_length_max: 10,
    };
    assert_eq!(generator.generate_word(&vec![true; 10]).syllables.len(), 1);
}

#[test]
fn the_generator_keeps_its_corpus() {
    let generator = generator(3);
    assert_eq!(generator.word_length_max, 3);
    assert_eq!(generator.syllablized_phonemes.words.len(), 2);
    assert_eq!(generator.syllable_connections.evaluate(NodeData::Start), NodeData::Phoneme(Phoneme::B));
}
