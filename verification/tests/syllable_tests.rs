use fakeword::phoneme::Phoneme;
use fakeword::syllable::{ArpabetError, Syllable};
use fakeword::word::Word;

#[test]
fn split_house() {
    let s = Syllable::new(vec![Phoneme::H, Phoneme::AW, Phoneme::S]);
    let (onset, nucleus, coda) = s.split().unwrap();
    assert_eq!(onset, vec![Phoneme::H]);
    assert_eq!(nucleus, vec![Phoneme::AW]);
    assert_eq!(coda, vec![Phoneme::S]);
}

#[test]
fn split_strike() {
    let s = Syllable::new(vec![Phoneme::S, Phoneme::T, Phoneme::R, Phoneme::AY, Phoneme::K]);
    let (onset, nucleus, coda) = s.split().unwrap();
    assert_eq!(onset, vec![Phoneme::S, Phoneme::T, Phoneme::R]);
    assert_eq!(nucleus, vec![Phoneme::AY]);
    assert_eq!(coda, vec![Phoneme::K]);
}

#[test]
fn split_without_onset_or_coda() {
    let s = Syllable::new(vec![Phoneme::AY]);
    let (onset, nucleus, coda) = s.split().unwrap();
    assert!(onset.is_empty());
    assert_eq!(nucleus, vec![Phoneme::AY]);
    assert!(coda.is_empty());
    let s = Syllable::new(vec![Phoneme::IY, Phoneme::AH, Phoneme::T, Phoneme::S]);
    let (onset, nucleus, coda) = s.split().unwrap();
    assert!(onset.is_empty());
    assert_eq!(nucleus, vec![Phoneme::IY, Phoneme::AH]);
    assert_eq!(coda, vec![Phoneme::T, Phoneme::S]);
}

#[test]
fn split_refuses_a_vowel_in_the_coda() {
    let s = Syllable::new(vec![Phoneme::H, Phoneme::AW, Phoneme::S, Phoneme::AH]);
    assert!(s.split().is_none());
    let s = Syllable::new(vec![Phoneme::AW, Phoneme::S, Phoneme::T, Phoneme::IY, Phoneme::K]);
    assert!(s.split().is_none());
}

#[test]
fn split_refuses_a_syllable_without_a_vowel() {
    assert!(Syllable::new(vec![Phoneme::S, Phoneme::T]).split().is_none());
    assert!(Syllable::empty().split().is_none());
}

#[test]
fn respell_house() {
    let s = Syllable::new(vec![Phoneme::H, Phoneme::AW, Phoneme::S]);
    assert_eq!(s.to_ipa(), "haʊs");
    assert_eq!(s.to_english(), "hows");
}

#[test]
fn respelling_takes_the_first_rule_of_the_table() {
    // "aɪ" is read by the rule for "eye", which stands before the rule for "y".
    assert_eq!(Syllable::new(vec![Phoneme::AY]).to_english(), "eye");
    // "tʃ" is read as one sound, not as "t" and a leftover.
    assert_eq!(Syllable::new(vec![Phoneme::CH, Phoneme::IY]).to_english(), "chee");
    assert_eq!(Syllable::new(vec![Phoneme::JH, Phoneme::OW]).to_english(), "joh");
    assert_eq!(Syllable::new(vec![Phoneme::NG]).to_english(), "ng");
    assert_eq!(Syllable::new(vec![Phoneme::TH, Phoneme::AO, Phoneme::T]).to_english(), "thawt");
}

#[test]
fn reduced_vowels_at_the_end_get_an_h() {
    assert_eq!(Syllable::new(vec![Phoneme::B, Phoneme::IH]).to_english(), "bih");
    assert_eq!(Syllable::new(vec![Phoneme::B, Phoneme::AH]).to_english(), "buh");
    assert_eq!(Syllable::new(vec![Phoneme::B, Phoneme::EH]).to_english(), "beh");
    assert_eq!(Syllable::new(vec![Phoneme::B, Phoneme::IH, Phoneme::T]).to_english(), "bit");
    assert_eq!(Syllable::new(vec![Phoneme::IH]).to_english(), "ih");
}

#[test]
fn characters_without_a_rule_are_copied() {
    // The syllabic consonants carry a combining mark that no rule reads.
    assert_eq!(Syllable::new(vec![Phoneme::EL]).to_english(), "l\u{329}");
    assert_eq!(Syllable::new(vec![Phoneme::Q]).to_english(), "ʔ");
    assert_eq!(Syllable::empty().to_english(), "");
    assert_eq!(Syllable::empty().to_ipa(), "");
}

#[test]
fn syllables_grow_by_one_phoneme() {
    let mut s = Syllable::empty();
    assert_eq!(s.len(), 0);
    assert_eq!(s.first_phoneme(), None);
    assert_eq!(s.last_phoneme(), None);
    s.add_phoneme(Phoneme::K);
    s.add_phoneme(Phoneme::AE);
    s.add_phoneme(Phoneme::T);
    assert_eq!(s.len(), 3);
    assert_eq!(s.phoneme(1), Phoneme::AE);
    assert_eq!(s.first_phoneme(), Some(Phoneme::K));
    assert_eq!(s.last_phoneme(), Some(Phoneme::T));
    assert_eq!(s.phonemes(), &vec![Phoneme::K, Phoneme::AE, Phoneme::T]);
    assert_eq!(Syllable::from_phonemes(vec![Phoneme::K]).clone().phonemes(), &vec![Phoneme::K]);
}

#[test]
fn syllables_are_read_from_dictionary_symbols() {
    let s = Syllable::from_arpabet("HH AW1 S");
    assert!(matches!(&s, Ok(s) if s.phonemes() == &vec![Phoneme::H, Phoneme::AW, Phoneme::S]));
    let s = Syllable::from_arpabet(" S T R AY1 K ");
    assert!(matches!(&s, Ok(s) if s.phonemes()
        == &vec![Phoneme::S, Phoneme::T, Phoneme::R, Phoneme::AY, Phoneme::K]));
    let s = Syllable::from_arpabet("AH0");
    assert!(matches!(&s, Ok(s) if s.phonemes() == &vec![Phoneme::AH]));
    let s = Syllable::from_arpabet("");
    assert!(matches!(&s, Ok(s) if s.len() == 0));
}

#[test]
fn tokens_that_do_not_fit_the_pattern_are_passed_over() {
    // Lower case, digits in front, and punctuation do not fit.
    let s = Syllable::from_arpabet("K ae1 1T ; T");
    assert!(matches!(&s, Ok(s) if s.phonemes() == &vec![Phoneme::K, Phoneme::T]));
}

#[test]
fn unknown_letters_are_an_error() {
    let s = Syllable::from_arpabet("K XQ1 T");
    assert!(matches!(&s, Err(ArpabetError::UnknownPhoneme(letters)) if letters == "XQ"));
}

#[test]
fn words_join_their_syllables() {
    let mut w = Word::empty();
    assert_eq!(w.to_english(), "");
    assert_eq!(w.to_ipa(), "");
    assert_eq!(w.describe(), " ()");
    w.add_syllable(Syllable::new(vec![Phoneme::H, Phoneme::AW, Phoneme::S]));
    assert_eq!(w.to_english(), "hows");
    assert_eq!(w.to_ipa(), "haʊs");
    w.add_syllable(Syllable::new(vec![Phoneme::B, Phoneme::OW, Phoneme::T]));
    w.add_syllable(Syllable::new(vec![Phoneme::IH]));
    assert_eq!(w.to_english(), "hows-boht-ih");
    assert_eq!(w.to_ipa(), "haʊs boʊt ɪ");
    assert_eq!(w.describe(), "hows-boht-ih (haʊs boʊt ɪ)");
    let w = Word::new(vec![Syllable::new(vec![Phoneme::AY])]);
    assert_eq!(w.syllables.len(), 1);
    assert_eq!(w.to_english(), "eye");
}

#[test]
fn a_pattern_that_is_not_accepted_is_an_error() {
    assert!(matches!(Syllable::from_arpabet_by("(", "AH0"), Err(ArpabetError::Pattern)));
    assert!(matches!(Syllable::from_arpabet_by("[A-", ""), Err(ArpabetError::Pattern)));
}

#[test]
fn the_pattern_decides_which_tokens_are_read() {
    // Without room for stress digits, a token with a digit does not fit.
    let s = Syllable::from_arpabet_by("^([A-Z]+)$", "AH0 B");
    assert!(matches!(&s, Ok(s) if s.phonemes() == &vec![Phoneme::B]));
    // The captured letters are what is looked up.
    let s = Syllable::from_arpabet_by("^x([A-Z]+)$", "xAH xB B");
    assert!(matches!(&s, Ok(s) if s.phonemes() == &vec![Phoneme::AH, Phoneme::B]));
    // A pattern without a group captures nothing.
    let s = Syllable::from_arpabet_by("^[A-Z]+$", "AH B");
    assert!(matches!(&s, Ok(s) if s.len() == 0));
}
