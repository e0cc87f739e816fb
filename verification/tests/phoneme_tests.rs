use fakeword::ipa::IPA;
use fakeword::phoneme::{Phoneme, SyllablePart};

#[test]
fn arpabet_symbols_read_back() {
    assert_eq!(Phoneme::from_arpabet("AA"), Phoneme::AA);
    assert_eq!(Phoneme::from_arpabet("AXR"), Phoneme::AXR);
    assert_eq!(Phoneme::from_arpabet("ZH"), Phoneme::ZH);
    assert_eq!(Phoneme::AW.to_arpabet(), "AW");
    assert_eq!(Phoneme::from_arpabet(Phoneme::NG.to_arpabet()), Phoneme::NG);
}

#[test]
fn both_spellings_of_h_are_read() {
    assert_eq!(Phoneme::from_arpabet("HH"), Phoneme::H);
    assert_eq!(Phoneme::from_arpabet("H"), Phoneme::H);
    assert_eq!(Phoneme::H.to_arpabet(), "H");
}

#[test]
fn unknown_symbols_are_not_read() {
    assert_eq!(Phoneme::parse_arpabet("XX"), None);
    assert_eq!(Phoneme::parse_arpabet(""), None);
    assert_eq!(Phoneme::parse_arpabet("aa"), None);
    assert_eq!(Phoneme::parse_arpabet("AH0"), None);
    assert_eq!(Phoneme::parse_ipa("AA"), None);
}

#[test]
fn transcription_symbols_read_back() {
    assert_eq!(Phoneme::AW.to_ipa(), "aʊ");
    assert_eq!(Phoneme::AX.to_ipa(), "əɹ");
    assert_eq!(Phoneme::AXR.to_ipa(), "ə");
    assert_eq!(Phoneme::from_ipa("aʊ"), Phoneme::AW);
    assert_eq!(Phoneme::from_ipa("ʒ"), Phoneme::ZH);
    assert_eq!(Phoneme::from_ipa(Phoneme::NX.to_ipa()), Phoneme::NX);
    assert_eq!(Phoneme::parse_ipa("tʃ"), Some(Phoneme::CH));
}

#[test]
fn vowels_come_first_in_the_inventory() {
    assert!(Phoneme::AA.is_vowel());
    assert!(Phoneme::UX.is_vowel());
    assert!(!Phoneme::B.is_vowel());
    assert!(Phoneme::B.is_consonant());
    assert!(!Phoneme::EY.is_consonant());
    assert_eq!(Phoneme::AA.index(), 0);
    assert_eq!(Phoneme::UX.index(), 18);
    assert_eq!(Phoneme::B.index(), 19);
    assert_eq!(Phoneme::ZH.index(), 49);
}

#[test]
fn parts_follow_each_other() {
    assert_eq!(SyllablePart::Onset.next(), Some(SyllablePart::Nucleus));
    assert_eq!(SyllablePart::Nucleus.next(), Some(SyllablePart::Coda { layer: 1 }));
    assert_eq!(SyllablePart::Coda { layer: 3 }.next(), None);
    assert!(SyllablePart::Onset.is_onset());
    assert!(!SyllablePart::Onset.is_nucleus());
    assert!(SyllablePart::Nucleus.is_nucleus());
    assert!(SyllablePart::Coda { layer: 2 }.is_coda());
    assert!(!SyllablePart::Nucleus.is_coda());
}

#[test]
fn ipa_names_keep_the_two_spellings_of_h_apart() {
    assert!(matches!(IPA::from_arpabet("HH"), IPA::HH));
    assert!(matches!(IPA::from_arpabet("H"), IPA::H));
    assert_eq!(IPA::from_arpabet("HH").to_char(), "h");
    assert_eq!(IPA::from_arpabet("H").to_char(), "h");
    assert_eq!(IPA::from_arpabet("AW").to_char(), "aʊ");
    assert_eq!(IPA::from_arpabet("JH").to_char(), Phoneme::JH.to_ipa());
    assert!(IPA::parse_arpabet("QQ").is_none());
}
