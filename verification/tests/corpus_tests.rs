use fakeword::connections::SyllableConnections;
use fakeword::graph::NodeData;
use fakeword::phoneme::Phoneme;
use fakeword::syllable::Syllable;
use fakeword::syllablize::{
    frequency_words, parse_line, parse_line_by, LineError, SyllablizedPhonemes,
};

fn sounds(entry: &(String, Vec<Syllable>)) -> Vec<Vec<Phoneme>> {
    entry.1.iter().map(|s| s.phonemes().clone()).collect()
}

fn entry(word: &str, syllables: Vec<Vec<Phoneme>>) -> (String, Vec<Syllable>) {
    (word.to_string(), syllables.into_iter().map(Syllable::new).collect())
}

fn words_of(corpus: &SyllablizedPhonemes) -> Vec<String> {
    corpus.words.iter().map(|w| w.0.clone()).collect()
}

#[test]
fn a_line_holds_a_word_and_its_syllables() {
    let read = parse_line("ABOUT  AH0 . B AW1 T").ok().unwrap().unwrap();
    assert_eq!(read.0, "about");
    assert_eq!(sounds(&read), vec![vec![Phoneme::AH], vec![Phoneme::B, Phoneme::AW, Phoneme::T]]);
    let read = parse_line("HOUSE  HH AW1 S").ok().unwrap().unwrap();
    assert_eq!(read.0, "house");
    assert_eq!(sounds(&read), vec![vec![Phoneme::H, Phoneme::AW, Phoneme::S]]);
}

#[test]
fn comments_and_blank_lines_are_passed_over() {
    assert!(matches!(parse_line("# ABOUT  AH0 . B AW1 T"), Ok(None)));
    assert!(matches!(parse_line("#"), Ok(None)));
    assert!(matches!(parse_line(""), Ok(None)));
    assert!(matches!(parse_line("   "), Ok(None)));
    assert!(matches!(parse_line(" \t "), Ok(None)));
}

#[test]
fn other_pronunciations_are_passed_over() {
    assert!(matches!(parse_line("ABOUT(2)  AH0 . B AW1 T"), Ok(None)));
    assert!(matches!(parse_line("A(12)  EY1"), Ok(None)));
    // Brackets without a number, or not at the end, name no other pronunciation.
    assert!(matches!(parse_line("A()  EY1"), Ok(Some(_))));
    assert!(matches!(parse_line("A(2)B  EY1"), Ok(Some(_))));
}

#[test]
fn the_word_ends_at_the_first_two_spaces() {
    let read = parse_line("ICE CREAM  AY1 S .  K R IY1 M").ok().unwrap().unwrap();
    assert_eq!(read.0, "ice cream");
    assert_eq!(
        sounds(&read),
        vec![vec![Phoneme::AY, Phoneme::S], vec![Phoneme::K, Phoneme::R, Phoneme::IY, Phoneme::M]]
    );
    let read = parse_line("  AY1").ok().unwrap().unwrap();
    assert_eq!(read.0, "");
}

#[test]
fn a_line_without_two_spaces_is_an_error() {
    assert!(matches!(parse_line("ABOUT AH0 . B AW1 T"), Err(LineError::MissingSeparator)));
    assert!(matches!(parse_line("ABOUT"), Err(LineError::MissingSeparator)));
    assert!(matches!(parse_line("ABOUT(2) AH0"), Err(LineError::MissingSeparator)));
}

#[test]
fn unknown_letters_in_a_line_are_an_error() {
    let read = parse_line("ABOUT  AH0 . B QQ1 T");
    assert!(matches!(&read, Err(LineError::UnknownPhoneme(letters)) if letters == "QQ"));
}

#[test]
fn an_empty_syllable_is_kept() {
    let read = parse_line("ODD  AA1 D .").ok().unwrap().unwrap();
    assert_eq!(sounds(&read), vec![vec![Phoneme::AA, Phoneme::D], vec![]]);
}

#[test]
fn the_frequency_list_gives_the_first_field_of_each_line() {
    assert_eq!(
        frequency_words("the\t23135851162\nof\t13151942776\nand"),
        vec!["the".to_string(), "of".to_string(), "and".to_string()]
    );
    assert_eq!(frequency_words(""), vec!["".to_string()]);
    assert_eq!(frequency_words("a\n"), vec!["a".to_string(), "".to_string()]);
    assert_eq!(frequency_words("\tx\ty"), vec!["".to_string()]);
}

#[test]
fn no_more_than_the_frequent_words_are_considered() {
    let mut list = String::new();
    for i in 0..60010 {
        list.push_str(&format!("w{}\t1\n", i));
    }
    let words = frequency_words(&list);
    assert_eq!(words.len(), 60000);
    assert_eq!(words[0], "w0");
    assert_eq!(words[59999], "w59999");
}

#[test]
fn frequent_words_come_first_in_the_order_of_the_list() {
    let entries = vec![
        entry("zebra", vec![vec![Phoneme::Z]]),
        entry("about", vec![vec![Phoneme::AH]]),
        entry("house", vec![vec![Phoneme::H]]),
        entry("apple", vec![vec![Phoneme::AE]]),
    ];
    let freqs = vec!["house".to_string(), "missing".to_string(), "about".to_string()];
    let corpus = SyllablizedPhonemes::assemble(&freqs, &entries);
    assert_eq!(words_of(&corpus), vec!["house", "about", "zebra", "apple"]);
    assert_eq!(sounds(&corpus.words[0]), vec![vec![Phoneme::H]]);
    assert_eq!(sounds(&corpus.words[3]), vec![vec![Phoneme::AE]]);
}

#[test]
fn the_last_entry_of_a_word_counts() {
    let entries = vec![
        entry("read", vec![vec![Phoneme::R, Phoneme::IY, Phoneme::D]]),
        entry("lead", vec![vec![Phoneme::L, Phoneme::IY, Phoneme::D]]),
        entry("read", vec![vec![Phoneme::R, Phoneme::EH, Phoneme::D]]),
        entry("lead", vec![vec![Phoneme::L, Phoneme::EH, Phoneme::D]]),
    ];
    let freqs = vec!["read".to_string(), "read".to_string()];
    let corpus = SyllablizedPhonemes::assemble(&freqs, &entries);
    assert_eq!(words_of(&corpus), vec!["read", "lead"]);
    assert_eq!(sounds(&corpus.words[0]), vec![vec![Phoneme::R, Phoneme::EH, Phoneme::D]]);
    assert_eq!(sounds(&corpus.words[1]), vec![vec![Phoneme::L, Phoneme::EH, Phoneme::D]]);
}

#[test]
fn a_corpus_of_nothing_is_empty() {
    let corpus = SyllablizedPhonemes::assemble(&vec!["a".to_string()], &vec![]);
    assert!(corpus.words.is_empty());
    let corpus = SyllablizedPhonemes::assemble(&vec![], &vec![entry("a", vec![])]);
    assert_eq!(words_of(&corpus), vec!["a"]);
}

#[test]
fn many_words_are_found_again() {
    let mut entries = Vec::new();
    for i in 0..500 {
        entries.push(entry(&format!("word{}", i), vec![vec![Phoneme::AH]]));
    }
    let freqs: Vec<String> = (0..500).rev().map(|i| format!("word{}", i)).collect();
    let corpus = SyllablizedPhonemes::assemble(&freqs, &entries);
    assert_eq!(words_of(&corpus), freqs);
}

#[test]
fn a_dictionary_becomes_a_corpus() {
    let lines: Vec<String> = vec![
        "# a comment",
        "ZEBRA  Z IY1 . B R AH0",
        "",
        "HOUSE  HH AW1 S",
        "HOUSE(2)  HH AW1 Z",
        "ABOUT  AH0 . B AW1 T",
    ]
    .into_iter()
    .map(String::from)
    .collect();
    let corpus = SyllablizedPhonemes::generate(&lines, "the\t9\nabout\t8\nhouse\t7").ok().unwrap();
    assert_eq!(words_of(&corpus), vec!["about", "house", "zebra"]);
    assert_eq!(sounds(&corpus.words[1]), vec![vec![Phoneme::H, Phoneme::AW, Phoneme::S]]);
}

#[test]
fn the_first_line_that_cannot_be_read_is_the_error() {
    let lines: Vec<String> =
        vec!["HOUSE  HH AW1 S", "ABOUT  AH0 . B XX1 T", "BROKEN"].into_iter().map(String::from).collect();
    let made = SyllablizedPhonemes::generate(&lines, "");
    assert!(matches!(&made, Err(LineError::UnknownPhoneme(letters)) if letters == "XX"));
    let lines: Vec<String> = vec!["BROKEN", "ABOUT  AH0 . B XX1 T"].into_iter().map(String::from).collect();
    assert!(matches!(SyllablizedPhonemes::generate(&lines, ""), Err(LineError::MissingSeparator)));
}

fn chained_corpus() -> SyllablizedPhonemes {
    SyllablizedPhonemes {
        words: vec![
            entry("about", vec![vec![Phoneme::AH], vec![Phoneme::B, Phoneme::AW, Phoneme::T]]),
            entry("house", vec![vec![Phoneme::H, Phoneme::AW, Phoneme::S]]),
            entry(
                "banana",
                vec![
                    vec![Phoneme::B, Phoneme::AH],
                    vec![Phoneme::N, Phoneme::AE],
                    vec![Phoneme::N, Phoneme::AH],
                ],
            ),
            entry("odd", vec![vec![Phoneme::AA, Phoneme::D], vec![]]),
        ],
    }
}

#[test]
fn the_table_holds_the_first_follower_of_each_boundary() {
    let corpus = chained_corpus();
    assert_eq!(SyllableConnections::count_links(&corpus), Some(3 + 4));
    let table = SyllableConnections::new(&corpus);
    // The start was seen twice; the first word set what follows it.
    assert_eq!(table.evaluate(NodeData::Start), NodeData::Phoneme(Phoneme::AH));
    assert_eq!(table.count(NodeData::Start), 2);
    // "AH" ended a syllable three times: first before "B".
    assert_eq!(table.evaluate(NodeData::Phoneme(Phoneme::AH)), NodeData::Phoneme(Phoneme::B));
    assert_eq!(table.count(NodeData::Phoneme(Phoneme::AH)), 3);
    assert_eq!(table.evaluate(NodeData::Phoneme(Phoneme::T)), NodeData::Stop);
    assert_eq!(table.evaluate(NodeData::Phoneme(Phoneme::AE)), NodeData::Phoneme(Phoneme::N));
    // Words of one syllable, and words with an empty syllable, leave no trace.
    assert_eq!(table.count(NodeData::Phoneme(Phoneme::S)), 0);
    assert_eq!(table.evaluate(NodeData::Phoneme(Phoneme::S)), NodeData::Stop);
    assert_eq!(table.count(NodeData::Phoneme(Phoneme::D)), 0);
    assert_eq!(table.evaluate(NodeData::Stop), NodeData::Stop);
}

#[test]
fn a_boundary_seen_again_keeps_its_follower() {
    let mut table = SyllableConnections::empty();
    table.add_edge(NodeData::Start, NodeData::Phoneme(Phoneme::K));
    table.add_edge(NodeData::Start, NodeData::Phoneme(Phoneme::T));
    table.add_edge(NodeData::Start, NodeData::Stop);
    assert_eq!(table.evaluate(NodeData::Start), NodeData::Phoneme(Phoneme::K));
    assert_eq!(table.count(NodeData::Start), 3);
    assert_eq!(table.snapshot(), vec![(NodeData::Start, NodeData::Phoneme(Phoneme::K), 3)]);
}

#[test]
fn a_snapshot_restores_the_table() {
    let table = SyllableConnections::new(&chained_corpus());
    let snapshot = table.snapshot();
    assert_eq!(snapshot[0], (NodeData::Start, NodeData::Phoneme(Phoneme::AH), 2));
    let restored = SyllableConnections::restore(&snapshot);
    assert_eq!(restored.snapshot(), snapshot);
    assert_eq!(restored.evaluate(NodeData::Phoneme(Phoneme::AH)), NodeData::Phoneme(Phoneme::B));
    let mut again = SyllableConnections::empty();
    again.build(&chained_corpus());
    assert_eq!(again.snapshot(), snapshot);
}

#[test]
fn a_corpus_without_chains_gives_an_empty_table() {
    let corpus = SyllablizedPhonemes {
        words: vec![entry("house", vec![vec![Phoneme::H, Phoneme::AW, Phoneme::S]])],
    };
    let table = SyllableConnections::new(&corpus);
    assert!(table.snapshot().is_empty());
    assert_eq!(table.evaluate(NodeData::Start), NodeData::Stop);
}

#[test]
fn a_pattern_of_the_grammar_that_is_not_accepted_is_an_error() {
    let token = "^([A-Z]+)\\d*$";
    let variant = ".*\\(\\d+\\)$";
    assert!(matches!(parse_line_by("(", token, "A  EY1"), Err(LineError::Pattern)));
    assert!(matches!(parse_line_by(variant, "(", "A  EY1"), Err(LineError::Pattern)));
    assert!(matches!(parse_line_by(variant, token, "A  EY1"), Ok(Some(_))));
    // Comments and blank lines are passed over before any pattern is tried.
    assert!(matches!(parse_line_by("(", "(", "# A  EY1"), Ok(None)));
    assert!(matches!(parse_line_by("(", "(", "  "), Ok(None)));
    assert!(matches!(parse_line_by("(", "(", "A EY1"), Err(LineError::MissingSeparator)));
}

#[test]
fn the_variant_pattern_decides_which_words_are_passed_over() {
    let token = "^([A-Z]+)\\d*$";
    assert!(matches!(parse_line_by("^A", token, "ABOUT  AH0"), Ok(None)));
    assert!(matches!(parse_line_by("^A", token, "HOUSE  HH AW1 S"), Ok(Some(_))));
}
