//! The phoneme inventory: the sounds of the pronouncing dictionary, their
//! dictionary symbols, their transcription symbols, and their classification.

use vstd::prelude::*;
use crate::text::str_eq;

verus! {

/// One sound of the pronouncing dictionary's phonetic alphabet.
#[derive(Clone, Copy, PartialEq, Eq, Hash, Debug, Structural)]
pub enum Phoneme {
    AA,
    AE,
    AH,
    AO,
    AW,
    AX,
    AXR,
    AY,
    EH,
    ER,
    EY,
    IH,
    IX,
    IY,
    OW,
    OY,
    UH,
    UW,
    UX,
    B,
    CH,
    D,
    DH,
    DX,
    EL,
    EM,
    EN,
    F,
    G,
    H,
    JH,
    K,
    L,
    M,
    N,
    NG,
    NX,
    P,
    Q,
    R,
    S,
    SH,
    T,
    TH,
    V,
    W,
    WH,
    Y,
    Z,
    ZH,
}

impl Phoneme {
    /// The dictionary symbol of a phoneme.
    pub open spec fn arpabet(self) -> Seq<char> {
        match self {
            Phoneme::AA => "AA"@,
            Phoneme::AE => "AE"@,
            Phoneme::AH => "AH"@,
            Phoneme::AO => "AO"@,
            Phoneme::AW => "AW"@,
            Phoneme::AX => "AX"@,
            Phoneme::AXR => "AXR"@,
            Phoneme::AY => "AY"@,
            Phoneme::EH => "EH"@,
            Phoneme::ER => "ER"@,
            Phoneme::EY => "EY"@,
            Phoneme::IH => "IH"@,
            Phoneme::IX => "IX"@,
            Phoneme::IY => "IY"@,
            Phoneme::OW => "OW"@,
            Phoneme::OY => "OY"@,
            Phoneme::UH => "UH"@,
            Phoneme::UW => "UW"@,
            Phoneme::UX => "UX"@,
            Phoneme::B => "B"@,
            Phoneme::CH => "CH"@,
            Phoneme::D => "D"@,
            Phoneme::DH => "DH"@,
            Phoneme::DX => "DX"@,
            Phoneme::EL => "EL"@,
            Phoneme::EM => "EM"@,
            Phoneme::EN => "EN"@,
            Phoneme::F => "F"@,
            Phoneme::G => "G"@,
            Phoneme::H => "H"@,
            Phoneme::JH => "JH"@,
            Phoneme::K => "K"@,
            Phoneme::L => "L"@,
            Phoneme::M => "M"@,
            Phoneme::N => "N"@,
            Phoneme::NG => "NG"@,
            Phoneme::NX => "NX"@,
            Phoneme::P => "P"@,
            Phoneme::Q => "Q"@,
            Phoneme::R => "R"@,
            Phoneme::S => "S"@,
            Phoneme::SH => "SH"@,
            Phoneme::T => "T"@,
            Phoneme::TH => "TH"@,
            Phoneme::V => "V"@,
            Phoneme::W => "W"@,
            Phoneme::WH => "WH"@,
            Phoneme::Y => "Y"@,
            Phoneme::Z => "Z"@,
            Phoneme::ZH => "ZH"@,
        }
    }

    /// The transcription symbol of a phoneme.
    pub open spec fn ipa(self) -> Seq<char> {
        match self {
            Phoneme::AA => "ɑ"@,
            Phoneme::AE => "æ"@,
            Phoneme::AH => "ʌ"@,
            Phoneme::AO => "ɔ"@,
            Phoneme::AW => "aʊ"@,
            Phoneme::AX => "əɹ"@,
            Phoneme::AXR => "ə"@,
            Phoneme::AY => "aɪ"@,
            Phoneme::EH => "ɛ"@,
            Phoneme::ER => "ɛɹ"@,
            Phoneme::EY => "eɪ"@,
            Phoneme::IH => "ɪ"@,
            Phoneme::IX => "ɨ"@,
            Phoneme::IY => "i"@,
            Phoneme::OW => "oʊ"@,
            Phoneme::OY => "ɔɪ"@,
            Phoneme::UH => "ʊ"@,
            Phoneme::UW => "u"@,
            Phoneme::UX => "ʉ"@,
            Phoneme::B => "b"@,
            Phoneme::CH => "tʃ"@,
            Phoneme::D => "d"@,
            Phoneme::DH => "ð"@,
            Phoneme::DX => "ɾ"@,
            Phoneme::EL => "l̩"@,
            Phoneme::EM => "m̩"@,
            Phoneme::EN => "n̩"@,
            Phoneme::F => "f"@,
            Phoneme::G => "ɡ"@,
            Phoneme::H => "h"@,
            Phoneme::JH => "dʒ"@,
            Phoneme::K => "k"@,
            Phoneme::L => "l"@,
            Phoneme::M => "m"@,
            Phoneme::N => "n"@,
            Phoneme::NG => "ŋ"@,
            Phoneme::NX => "ɾ̃"@,
            Phoneme::P => "p"@,
            Phoneme::Q => "ʔ"@,
            Phoneme::R => "ɹ"@,
            Phoneme::S => "s"@,
            Phoneme::SH => "ʃ"@,
            Phoneme::T => "t"@,
            Phoneme::TH => "θ"@,
            Phoneme::V => "v"@,
            Phoneme::W => "w"@,
            Phoneme::WH => "ʍ"@,
            Phoneme::Y => "j"@,
            Phoneme::Z => "z"@,
            Phoneme::ZH => "ʒ"@,
        }
    }

    /// The position of a phoneme in the inventory: the vowels come first.
    pub open spec fn ordinal(self) -> nat {
        match self {
            Phoneme::AA => 0,
            Phoneme::AE => 1,
            Phoneme::AH => 2,
            Phoneme::AO => 3,
            Phoneme::AW => 4,
            Phoneme::AX => 5,
            Phoneme::AXR => 6,
            Phoneme::AY => 7,
            Phoneme::EH => 8,
            Phoneme::ER => 9,
            Phoneme::EY => 10,
            Phoneme::IH => 11,
            Phoneme::IX => 12,
            Phoneme::IY => 13,
            Phoneme::OW => 14,
            Phoneme::OY => 15,
            Phoneme::UH => 16,
            Phoneme::UW => 17,
            Phoneme::UX => 18,
            Phoneme::B => 19,
            Phoneme::CH => 20,
            Phoneme::D => 21,
            Phoneme::DH => 22,
            Phoneme::DX => 23,
            Phoneme::EL => 24,
            Phoneme::EM => 25,
            Phoneme::EN => 26,
            Phoneme::F => 27,
            Phoneme::G => 28,
            Phoneme::H => 29,
            Phoneme::JH => 30,
            Phoneme::K => 31,
            Phoneme::L => 32,
            Phoneme::M => 33,
            Phoneme::N => 34,
            Phoneme::NG => 35,
            Phoneme::NX => 36,
            Phoneme::P => 37,
            Phoneme::Q => 38,
            Phoneme::R => 39,
            Phoneme::S => 40,
            Phoneme::SH => 41,
            Phoneme::T => 42,
            Phoneme::TH => 43,
            Phoneme::V => 44,
            Phoneme::W => 45,
            Phoneme::WH => 46,
            Phoneme::Y => 47,
            Phoneme::Z => 48,
            Phoneme::ZH => 49,
        }
    }

    /// Whether a phoneme is a vowel sound.
    pub open spec fn vowel(self) -> bool {
        self.ordinal() < 19
    }

    /// Whether a string is a dictionary symbol: the symbol of some phoneme, or
    /// the alternative spelling `HH` of the phoneme `H`.
    pub open spec fn is_arpabet(s: Seq<char>) -> bool {
        s == "HH"@ || exists|p: Phoneme| #[trigger] p.arpabet() == s
    }

    /// Whether a string is the transcription symbol of some phoneme.
    pub open spec fn is_ipa(s: Seq<char>) -> bool {
        exists|p: Phoneme| #[trigger] p.ipa() == s
    }

    /// Whether `p` is the phoneme that the dictionary symbol `s` stands for.
    pub open spec fn reads_arpabet(s: Seq<char>, p: Phoneme) -> bool {
        p.arpabet() == s || (p == Phoneme::H && s == "HH"@)
    }

    /// The phoneme that a string stands for as a dictionary symbol, if it is
    /// one.
    pub open spec fn of_arpabet(s: Seq<char>) -> Option<Phoneme> {
        if Phoneme::is_arpabet(s) {
            Some(choose|p: Phoneme| Phoneme::reads_arpabet(s, p))
        } else {
            None
        }
    }

    /// Looks a dictionary symbol up. `None` means that the string is not a
    /// symbol of the inventory.
    pub fn parse_arpabet(arpabet: &str) -> (found: Option<Phoneme>)
        ensures
            found == Phoneme::of_arpabet(arpabet@),
            match found {
                Some(p) => Phoneme::reads_arpabet(arpabet@, p),
                None => !Phoneme::is_arpabet(arpabet@),
            },
    {
        let found = Phoneme::lookup_arpabet(arpabet);
        proof {
            if let Some(p) = found {
                let q = choose|q: Phoneme| Phoneme::reads_arpabet(arpabet@, q);
                lemma_arpabet_round_trip(arpabet@, p, q);
            }
        }
        found
    }

    fn lookup_arpabet(arpabet: &str) -> (found: Option<Phoneme>)
        ensures
            match found {
                Some(p) => Phoneme::reads_arpabet(arpabet@, p),
                None => !Phoneme::is_arpabet(arpabet@),
            },
    {
        if str_eq(arpabet, "AA") {
            Some(Phoneme::AA)
        }         else if str_eq(arpabet, "AE") {
            Some(Phoneme::AE)
        }         else if str_eq(arpabet, "AH") {
            Some(Phoneme::AH)
        }         else if str_eq(arpabet, "AO") {
            Some(Phoneme::AO)
        }         else if str_eq(arpabet, "AW") {
            Some(Phoneme::AW)
        }         else if str_eq(arpabet, "AX") {
            Some(Phoneme::AX)
        }         else if str_eq(arpabet, "AXR") {
            Some(Phoneme::AXR)
        }         else if str_eq(arpabet, "AY") {
            Some(Phoneme::AY)
        }         else if str_eq(arpabet, "EH") {
            Some(Phoneme::EH)
        }         else if str_eq(arpabet, "ER") {
            Some(Phoneme::ER)
        }         else if str_eq(arpabet, "EY") {
            Some(Phoneme::EY)
        }         else if str_eq(arpabet, "IH") {
            Some(Phoneme::IH)
        }         else if str_eq(arpabet, "IX") {
            Some(Phoneme::IX)
        }         else if str_eq(arpabet, "IY") {
            Some(Phoneme::IY)
        }         else if str_eq(arpabet, "OW") {
            Some(Phoneme::OW)
        }         else if str_eq(arpabet, "OY") {
            Some(Phoneme::OY)
        }         else if str_eq(arpabet, "UH") {
            Some(Phoneme::UH)
        }         else if str_eq(arpabet, "UW") {
            Some(Phoneme::UW)
        }         else if str_eq(arpabet, "UX") {
            Some(Phoneme::UX)
        }         else if str_eq(arpabet, "B") {
            Some(Phoneme::B)
        }         else if str_eq(arpabet, "CH") {
            Some(Phoneme::CH)
        }         else if str_eq(arpabet, "D") {
            Some(Phoneme::D)
        }         else if str_eq(arpabet, "DH") {
            Some(Phoneme::DH)
        }         else if str_eq(arpabet, "DX") {
            Some(Phoneme::DX)
        }         else if str_eq(arpabet, "EL") {
            Some(Phoneme::EL)
        }         else if str_eq(arpabet, "EM") {
            Some(Phoneme::EM)
        }         else if str_eq(arpabet, "EN") {
            Some(Phoneme::EN)
        }         else if str_eq(arpabet, "F") {
            Some(Phoneme::F)
        }         else if str_eq(arpabet, "G") {
            Some(Phoneme::G)
        }         else if str_eq(arpabet, "HH") {
            Some(Phoneme::H)
        }         else if str_eq(arpabet, "H") {
            Some(Phoneme::H)
        }         else if str_eq(arpabet, "JH") {
            Some(Phoneme::JH)
        }         else if str_eq(arpabet, "K") {
            Some(Phoneme::K)
        }         else if str_eq(arpabet, "L") {
            Some(Phoneme::L)
        }         else if str_eq(arpabet, "M") {
            Some(Phoneme::M)
        }         else if str_eq(arpabet, "N") {
            Some(Phoneme::N)
        }         else if str_eq(arpabet, "NG") {
            Some(Phoneme::NG)
        }         else if str_eq(arpabet, "NX") {
            Some(Phoneme::NX)
        }         else if str_eq(arpabet, "P") {
            Some(Phoneme::P)
        }         else if str_eq(arpabet, "Q") {
            Some(Phoneme::Q)
        }         else if str_eq(arpabet, "R") {
            Some(Phoneme::R)
        }         else if str_eq(arpabet, "S") {
            Some(Phoneme::S)
        }         else if str_eq(arpabet, "SH") {
            Some(Phoneme::SH)
        }         else if str_eq(arpabet, "T") {
            Some(Phoneme::T)
        }         else if str_eq(arpabet, "TH") {
            Some(Phoneme::TH)
        }         else if str_eq(arpabet, "V") {
            Some(Phoneme::V)
        }         else if str_eq(arpabet, "W") {
            Some(Phoneme::W)
        }         else if str_eq(arpabet, "WH") {
            Some(Phoneme::WH)
        }         else if str_eq(arpabet, "Y") {
            Some(Phoneme::Y)
        }         else if str_eq(arpabet, "Z") {
            Some(Phoneme::Z)
        }         else if str_eq(arpabet, "ZH") {
            Some(Phoneme::ZH)
        } else {
            None
        }
    }

    /// The phoneme of a dictionary symbol.
    pub fn from_arpabet(arpabet: &str) -> (p: Phoneme)
        requires
            Phoneme::is_arpabet(arpabet@),
        ensures
            Phoneme::reads_arpabet(arpabet@, p),
    {
        Phoneme::parse_arpabet(arpabet).unwrap()
    }

    /// The dictionary symbol of a phoneme.
    pub fn to_arpabet(self) -> (s: &'static str)
        ensures
            s@ == self.arpabet(),
    {
        match self {
            Phoneme::AA => "AA",
            Phoneme::AE => "AE",
            Phoneme::AH => "AH",
            Phoneme::AO => "AO",
            Phoneme::AW => "AW",
            Phoneme::AX => "AX",
            Phoneme::AXR => "AXR",
            Phoneme::AY => "AY",
            Phoneme::EH => "EH",
            Phoneme::ER => "ER",
            Phoneme::EY => "EY",
            Phoneme::IH => "IH",
            Phoneme::IX => "IX",
            Phoneme::IY => "IY",
            Phoneme::OW => "OW",
            Phoneme::OY => "OY",
            Phoneme::UH => "UH",
            Phoneme::UW => "UW",
            Phoneme::UX => "UX",
            Phoneme::B => "B",
            Phoneme::CH => "CH",
            Phoneme::D => "D",
            Phoneme::DH => "DH",
            Phoneme::DX => "DX",
            Phoneme::EL => "EL",
            Phoneme::EM => "EM",
            Phoneme::EN => "EN",
            Phoneme::F => "F",
            Phoneme::G => "G",
            Phoneme::H => "H",
            Phoneme::JH => "JH",
            Phoneme::K => "K",
            Phoneme::L => "L",
            Phoneme::M => "M",
            Phoneme::N => "N",
            Phoneme::NG => "NG",
            Phoneme::NX => "NX",
            Phoneme::P => "P",
            Phoneme::Q => "Q",
            Phoneme::R => "R",
            Phoneme::S => "S",
            Phoneme::SH => "SH",
            Phoneme::T => "T",
            Phoneme::TH => "TH",
            Phoneme::V => "V",
            Phoneme::W => "W",
            Phoneme::WH => "WH",
            Phoneme::Y => "Y",
            Phoneme::Z => "Z",
            Phoneme::ZH => "ZH",
        }
    }

    /// Looks a transcription symbol up. `None` means that the string is not
    /// the transcription symbol of any phoneme.
    pub fn parse_ipa(ipa: &str) -> (found: Option<Phoneme>)
        ensures
            match found {
                Some(p) => p.ipa() == ipa@,
                None => !Phoneme::is_ipa(ipa@),
            },
    {
        if str_eq(ipa, "ɑ") {
            Some(Phoneme::AA)
        }         else if str_eq(ipa, "æ") {
            Some(Phoneme::AE)
        }         else if str_eq(ipa, "ʌ") {
            Some(Phoneme::AH)
        }         else if str_eq(ipa, "ɔ") {
            Some(Phoneme::AO)
        }         else if str_eq(ipa, "aʊ") {
            Some(Phoneme::AW)
        }         else if str_eq(ipa, "əɹ") {
            Some(Phoneme::AX)
        }         else if str_eq(ipa, "ə") {
            Some(Phoneme::AXR)
        }         else if str_eq(ipa, "aɪ") {
            Some(Phoneme::AY)
        }         else if str_eq(ipa, "ɛ") {
            Some(Phoneme::EH)
        }         else if str_eq(ipa, "ɛɹ") {
            Some(Phoneme::ER)
        }         else if str_eq(ipa, "eɪ") {
            Some(Phoneme::EY)
        }         else if str_eq(ipa, "ɪ") {
            Some(Phoneme::IH)
        }         else if str_eq(ipa, "ɨ") {
            Some(Phoneme::IX)
        }         else if str_eq(ipa, "i") {
            Some(Phoneme::IY)
        }         else if str_eq(ipa, "oʊ") {
            Some(Phoneme::OW)
        }         else if str_eq(ipa, "ɔɪ") {
            Some(Phoneme::OY)
        }         else if str_eq(ipa, "ʊ") {
            Some(Phoneme::UH)
        }         else if str_eq(ipa, "u") {
            Some(Phoneme::UW)
        }         else if str_eq(ipa, "ʉ") {
            Some(Phoneme::UX)
        }         else if str_eq(ipa, "b") {
            Some(Phoneme::B)
        }         else if str_eq(ipa, "tʃ") {
            Some(Phoneme::CH)
        }         else if str_eq(ipa, "d") {
            Some(Phoneme::D)
        }         else if str_eq(ipa, "ð") {
            Some(Phoneme::DH)
        }         else if str_eq(ipa, "ɾ") {
            Some(Phoneme::DX)
        }         else if str_eq(ipa, "l̩") {
            Some(Phoneme::EL)
        }         else if str_eq(ipa, "m̩") {
            Some(Phoneme::EM)
        }         else if str_eq(ipa, "n̩") {
            Some(Phoneme::EN)
        }         else if str_eq(ipa, "f") {
            Some(Phoneme::F)
        }         else if str_eq(ipa, "ɡ") {
            Some(Phoneme::G)
        }         else if str_eq(ipa, "h") {
            Some(Phoneme::H)
        }         else if str_eq(ipa, "dʒ") {
            Some(Phoneme::JH)
        }         else if str_eq(ipa, "k") {
            Some(Phoneme::K)
        }         else if str_eq(ipa, "l") {
            Some(Phoneme::L)
        }         else if str_eq(ipa, "m") {
            Some(Phoneme::M)
        }         else if str_eq(ipa, "n") {
            Some(Phoneme::N)
        }         else if str_eq(ipa, "ŋ") {
            Some(Phoneme::NG)
        }         else if str_eq(ipa, "ɾ̃") {
            Some(Phoneme::NX)
        }         else if str_eq(ipa, "p") {
            Some(Phoneme::P)
        }         else if str_eq(ipa, "ʔ") {
            Some(Phoneme::Q)
        }         else if str_eq(ipa, "ɹ") {
            Some(Phoneme::R)
        }         else if str_eq(ipa, "s") {
            Some(Phoneme::S)
        }         else if str_eq(ipa, "ʃ") {
            Some(Phoneme::SH)
        }         else if str_eq(ipa, "t") {
            Some(Phoneme::T)
        }         else if str_eq(ipa, "θ") {
            Some(Phoneme::TH)
        }         else if str_eq(ipa, "v") {
            Some(Phoneme::V)
        }         else if str_eq(ipa, "w") {
            Some(Phoneme::W)
        }         else if str_eq(ipa, "ʍ") {
            Some(Phoneme::WH)
        }         else if str_eq(ipa, "j") {
            Some(Phoneme::Y)
        }         else if str_eq(ipa, "z") {
            Some(Phoneme::Z)
        }         else if str_eq(ipa, "ʒ") {
            Some(Phoneme::ZH)
        } else {
            None
        }
    }

    /// The phoneme of a transcription symbol.
    pub fn from_ipa(ipa: &str) -> (p: Phoneme)
        requires
            Phoneme::is_ipa(ipa@),
        ensures
            p.ipa() == ipa@,
    {
        Phoneme::parse_ipa(ipa).unwrap()
    }

    /// The transcription symbol of a phoneme.
    pub fn to_ipa(self) -> (s: &'static str)
        ensures
            s@ == self.ipa(),
    {
        match self {
            Phoneme::AA => "ɑ",
            Phoneme::AE => "æ",
            Phoneme::AH => "ʌ",
            Phoneme::AO => "ɔ",
            Phoneme::AW => "aʊ",
            Phoneme::AX => "əɹ",
            Phoneme::AXR => "ə",
            Phoneme::AY => "aɪ",
            Phoneme::EH => "ɛ",
            Phoneme::ER => "ɛɹ",
            Phoneme::EY => "eɪ",
            Phoneme::IH => "ɪ",
            Phoneme::IX => "ɨ",
            Phoneme::IY => "i",
            Phoneme::OW => "oʊ",
            Phoneme::OY => "ɔɪ",
            Phoneme::UH => "ʊ",
            Phoneme::UW => "u",
            Phoneme::UX => "ʉ",
            Phoneme::B => "b",
            Phoneme::CH => "tʃ",
            Phoneme::D => "d",
            Phoneme::DH => "ð",
            Phoneme::DX => "ɾ",
            Phoneme::EL => "l̩",
            Phoneme::EM => "m̩",
            Phoneme::EN => "n̩",
            Phoneme::F => "f",
            Phoneme::G => "ɡ",
            Phoneme::H => "h",
            Phoneme::JH => "dʒ",
            Phoneme::K => "k",
            Phoneme::L => "l",
            Phoneme::M => "m",
            Phoneme::N => "n",
            Phoneme::NG => "ŋ",
            Phoneme::NX => "ɾ̃",
            Phoneme::P => "p",
            Phoneme::Q => "ʔ",
            Phoneme::R => "ɹ",
            Phoneme::S => "s",
            Phoneme::SH => "ʃ",
            Phoneme::T => "t",
            Phoneme::TH => "θ",
            Phoneme::V => "v",
            Phoneme::W => "w",
            Phoneme::WH => "ʍ",
            Phoneme::Y => "j",
            Phoneme::Z => "z",
            Phoneme::ZH => "ʒ",
        }
    }

    /// The position of a phoneme in the inventory.
    pub fn index(self) -> (k: u8)
        ensures
            k == self.ordinal(),
            k < 50,
    {
        match self {
            Phoneme::AA => 0,
            Phoneme::AE => 1,
            Phoneme::AH => 2,
            Phoneme::AO => 3,
            Phoneme::AW => 4,
            Phoneme::AX => 5,
            Phoneme::AXR => 6,
            Phoneme::AY => 7,
            Phoneme::EH => 8,
            Phoneme::ER => 9,
            Phoneme::EY => 10,
            Phoneme::IH => 11,
            Phoneme::IX => 12,
            Phoneme::IY => 13,
            Phoneme::OW => 14,
            Phoneme::OY => 15,
            Phoneme::UH => 16,
            Phoneme::UW => 17,
            Phoneme::UX => 18,
            Phoneme::B => 19,
            Phoneme::CH => 20,
            Phoneme::D => 21,
            Phoneme::DH => 22,
            Phoneme::DX => 23,
            Phoneme::EL => 24,
            Phoneme::EM => 25,
            Phoneme::EN => 26,
            Phoneme::F => 27,
            Phoneme::G => 28,
            Phoneme::H => 29,
            Phoneme::JH => 30,
            Phoneme::K => 31,
            Phoneme::L => 32,
            Phoneme::M => 33,
            Phoneme::N => 34,
            Phoneme::NG => 35,
            Phoneme::NX => 36,
            Phoneme::P => 37,
            Phoneme::Q => 38,
            Phoneme::R => 39,
            Phoneme::S => 40,
            Phoneme::SH => 41,
            Phoneme::T => 42,
            Phoneme::TH => 43,
            Phoneme::V => 44,
            Phoneme::W => 45,
            Phoneme::WH => 46,
            Phoneme::Y => 47,
            Phoneme::Z => 48,
            Phoneme::ZH => 49,
        }
    }

    /// Whether a phoneme is a vowel sound.
    pub fn is_vowel(&self) -> (v: bool)
        ensures
            v == self.vowel(),
    {
        match self {
            Phoneme::AA => true,
            Phoneme::AE => true,
            Phoneme::AH => true,
            Phoneme::AO => true,
            Phoneme::AW => true,
            Phoneme::AX => true,
            Phoneme::AXR => true,
            Phoneme::AY => true,
            Phoneme::EH => true,
            Phoneme::ER => true,
            Phoneme::EY => true,
            Phoneme::IH => true,
            Phoneme::IX => true,
            Phoneme::IY => true,
            Phoneme::OW => true,
            Phoneme::OY => true,
            Phoneme::UH => true,
            Phoneme::UW => true,
            Phoneme::UX => true,
            _ => false,
        }
    }

    /// Whether a phoneme is a consonant sound.
    pub fn is_consonant(&self) -> (c: bool)
        ensures
            c == !self.vowel(),
    {
        !self.is_vowel()
    }
}

/// The characters of each dictionary symbol.
proof fn lemma_arpabet_chars(p: Phoneme)
    ensures
        match p {
            Phoneme::AA => p.arpabet().len() == 2 && p.arpabet()[0] == 'A' && p.arpabet()[1] == 'A',
            Phoneme::AE => p.arpabet().len() == 2 && p.arpabet()[0] == 'A' && p.arpabet()[1] == 'E',
            Phoneme::AH => p.arpabet().len() == 2 && p.arpabet()[0] == 'A' && p.arpabet()[1] == 'H',
            Phoneme::AO => p.arpabet().len() == 2 && p.arpabet()[0] == 'A' && p.arpabet()[1] == 'O',
            Phoneme::AW => p.arpabet().len() == 2 && p.arpabet()[0] == 'A' && p.arpabet()[1] == 'W',
            Phoneme::AX => p.arpabet().len() == 2 && p.arpabet()[0] == 'A' && p.arpabet()[1] == 'X',
            Phoneme::AXR => p.arpabet().len() == 3 && p.arpabet()[0] == 'A' && p.arpabet()[1] == 'X' && p.arpabet()[2] == 'R',
            Phoneme::AY => p.arpabet().len() == 2 && p.arpabet()[0] == 'A' && p.arpabet()[1] == 'Y',
            Phoneme::EH => p.arpabet().len() == 2 && p.arpabet()[0] == 'E' && p.arpabet()[1] == 'H',
            Phoneme::ER => p.arpabet().len() == 2 && p.arpabet()[0] == 'E' && p.arpabet()[1] == 'R',
            Phoneme::EY => p.arpabet().len() == 2 && p.arpabet()[0] == 'E' && p.arpabet()[1] == 'Y',
            Phoneme::IH => p.arpabet().len() == 2 && p.arpabet()[0] == 'I' && p.arpabet()[1] == 'H',
            Phoneme::IX => p.arpabet().len() == 2 && p.arpabet()[0] == 'I' && p.arpabet()[1] == 'X',
            Phoneme::IY => p.arpabet().len() == 2 && p.arpabet()[0] == 'I' && p.arpabet()[1] == 'Y',
            Phoneme::OW => p.arpabet().len() == 2 && p.arpabet()[0] == 'O' && p.arpabet()[1] == 'W',
            Phoneme::OY => p.arpabet().len() == 2 && p.arpabet()[0] == 'O' && p.arpabet()[1] == 'Y',
            Phoneme::UH => p.arpabet().len() == 2 && p.arpabet()[0] == 'U' && p.arpabet()[1] == 'H',
            Phoneme::UW => p.arpabet().len() == 2 && p.arpabet()[0] == 'U' && p.arpabet()[1] == 'W',
            Phoneme::UX => p.arpabet().len() == 2 && p.arpabet()[0] == 'U' && p.arpabet()[1] == 'X',
            Phoneme::B => p.arpabet().len() == 1 && p.arpabet()[0] == 'B',
            Phoneme::CH => p.arpabet().len() == 2 && p.arpabet()[0] == 'C' && p.arpabet()[1] == 'H',
            Phoneme::D => p.arpabet().len() == 1 && p.arpabet()[0] == 'D',
            Phoneme::DH => p.arpabet().len() == 2 && p.arpabet()[0] == 'D' && p.arpabet()[1] == 'H',
            Phoneme::DX => p.arpabet().len() == 2 && p.arpabet()[0] == 'D' && p.arpabet()[1] == 'X',
            Phoneme::EL => p.arpabet().len() == 2 && p.arpabet()[0] == 'E' && p.arpabet()[1] == 'L',
            Phoneme::EM => p.arpabet().len() == 2 && p.arpabet()[0] == 'E' && p.arpabet()[1] == 'M',
            Phoneme::EN => p.arpabet().len() == 2 && p.arpabet()[0] == 'E' && p.arpabet()[1] == 'N',
            Phoneme::F => p.arpabet().len() == 1 && p.arpabet()[0] == 'F',
            Phoneme::G => p.arpabet().len() == 1 && p.arpabet()[0] == 'G',
            Phoneme::H => p.arpabet().len() == 1 && p.arpabet()[0] == 'H',
            Phoneme::JH => p.arpabet().len() == 2 && p.arpabet()[0] == 'J' && p.arpabet()[1] == 'H',
            Phoneme::K => p.arpabet().len() == 1 && p.arpabet()[0] == 'K',
            Phoneme::L => p.arpabet().len() == 1 && p.arpabet()[0] == 'L',
            Phoneme::M => p.arpabet().len() == 1 && p.arpabet()[0] == 'M',
            Phoneme::N => p.arpabet().len() == 1 && p.arpabet()[0] == 'N',
            Phoneme::NG => p.arpabet().len() == 2 && p.arpabet()[0] == 'N' && p.arpabet()[1] == 'G',
            Phoneme::NX => p.arpabet().len() == 2 && p.arpabet()[0] == 'N' && p.arpabet()[1] == 'X',
            Phoneme::P => p.arpabet().len() == 1 && p.arpabet()[0] == 'P',
            Phoneme::Q => p.arpabet().len() == 1 && p.arpabet()[0] == 'Q',
            Phoneme::R => p.arpabet().len() == 1 && p.arpabet()[0] == 'R',
            Phoneme::S => p.arpabet().len() == 1 && p.arpabet()[0] == 'S',
            Phoneme::SH => p.arpabet().len() == 2 && p.arpabet()[0] == 'S' && p.arpabet()[1] == 'H',
            Phoneme::T => p.arpabet().len() == 1 && p.arpabet()[0] == 'T',
            Phoneme::TH => p.arpabet().len() == 2 && p.arpabet()[0] == 'T' && p.arpabet()[1] == 'H',
            Phoneme::V => p.arpabet().len() == 1 && p.arpabet()[0] == 'V',
            Phoneme::W => p.arpabet().len() == 1 && p.arpabet()[0] == 'W',
            Phoneme::WH => p.arpabet().len() == 2 && p.arpabet()[0] == 'W' && p.arpabet()[1] == 'H',
            Phoneme::Y => p.arpabet().len() == 1 && p.arpabet()[0] == 'Y',
            Phoneme::Z => p.arpabet().len() == 1 && p.arpabet()[0] == 'Z',
            Phoneme::ZH => p.arpabet().len() == 2 && p.arpabet()[0] == 'Z' && p.arpabet()[1] == 'H',
        },
{
    reveal_strlit("AA");
    reveal_strlit("AE");
    reveal_strlit("AH");
    reveal_strlit("AO");
    reveal_strlit("AW");
    reveal_strlit("AX");
    reveal_strlit("AXR");
    reveal_strlit("AY");
    reveal_strlit("EH");
    reveal_strlit("ER");
    reveal_strlit("EY");
    reveal_strlit("IH");
    reveal_strlit("IX");
    reveal_strlit("IY");
    reveal_strlit("OW");
    reveal_strlit("OY");
    reveal_strlit("UH");
    reveal_strlit("UW");
    reveal_strlit("UX");
    reveal_strlit("B");
    reveal_strlit("CH");
    reveal_strlit("D");
    reveal_strlit("DH");
    reveal_strlit("DX");
    reveal_strlit("EL");
    reveal_strlit("EM");
    reveal_strlit("EN");
    reveal_strlit("F");
    reveal_strlit("G");
    reveal_strlit("H");
    reveal_strlit("JH");
    reveal_strlit("K");
    reveal_strlit("L");
    reveal_strlit("M");
    reveal_strlit("N");
    reveal_strlit("NG");
    reveal_strlit("NX");
    reveal_strlit("P");
    reveal_strlit("Q");
    reveal_strlit("R");
    reveal_strlit("S");
    reveal_strlit("SH");
    reveal_strlit("T");
    reveal_strlit("TH");
    reveal_strlit("V");
    reveal_strlit("W");
    reveal_strlit("WH");
    reveal_strlit("Y");
    reveal_strlit("Z");
    reveal_strlit("ZH");
}

/// The characters of each transcription symbol.
proof fn lemma_ipa_chars(p: Phoneme)
    ensures
        match p {
            Phoneme::AA => p.ipa().len() == 1 && p.ipa()[0] == '\u{251}',
            Phoneme::AE => p.ipa().len() == 1 && p.ipa()[0] == '\u{e6}',
            Phoneme::AH => p.ipa().len() == 1 && p.ipa()[0] == '\u{28c}',
            Phoneme::AO => p.ipa().len() == 1 && p.ipa()[0] == '\u{254}',
            Phoneme::AW => p.ipa().len() == 2 && p.ipa()[0] == 'a' && p.ipa()[1] == '\u{28a}',
            Phoneme::AX => p.ipa().len() == 2 && p.ipa()[0] == '\u{259}' && p.ipa()[1] == '\u{279}',
            Phoneme::AXR => p.ipa().len() == 1 && p.ipa()[0] == '\u{259}',
            Phoneme::AY => p.ipa().len() == 2 && p.ipa()[0] == 'a' && p.ipa()[1] == '\u{26a}',
            Phoneme::EH => p.ipa().len() == 1 && p.ipa()[0] == '\u{25b}',
            Phoneme::ER => p.ipa().len() == 2 && p.ipa()[0] == '\u{25b}' && p.ipa()[1] == '\u{279}',
            Phoneme::EY => p.ipa().len() == 2 && p.ipa()[0] == 'e' && p.ipa()[1] == '\u{26a}',
            Phoneme::IH => p.ipa().len() == 1 && p.ipa()[0] == '\u{26a}',
            Phoneme::IX => p.ipa().len() == 1 && p.ipa()[0] == '\u{268}',
            Phoneme::IY => p.ipa().len() == 1 && p.ipa()[0] == 'i',
            Phoneme::OW => p.ipa().len() == 2 && p.ipa()[0] == 'o' && p.ipa()[1] == '\u{28a}',
            Phoneme::OY => p.ipa().len() == 2 && p.ipa()[0] == '\u{254}' && p.ipa()[1] == '\u{26a}',
            Phoneme::UH => p.ipa().len() == 1 && p.ipa()[0] == '\u{28a}',
            Phoneme::UW => p.ipa().len() == 1 && p.ipa()[0] == 'u',
            Phoneme::UX => p.ipa().len() == 1 && p.ipa()[0] == '\u{289}',
            Phoneme::B => p.ipa().len() == 1 && p.ipa()[0] == 'b',
            Phoneme::CH => p.ipa().len() == 2 && p.ipa()[0] == 't' && p.ipa()[1] == '\u{283}',
            Phoneme::D => p.ipa().len() == 1 && p.ipa()[0] == 'd',
            Phoneme::DH => p.ipa().len() == 1 && p.ipa()[0] == '\u{f0}',
            Phoneme::DX => p.ipa().len() == 1 && p.ipa()[0] == '\u{27e}',
            Phoneme::EL => p.ipa().len() == 2 && p.ipa()[0] == 'l' && p.ipa()[1] == '\u{329}',
            Phoneme::EM => p.ipa().len() == 2 && p.ipa()[0] == 'm' && p.ipa()[1] == '\u{329}',
            Phoneme::EN => p.ipa().len() == 2 && p.ipa()[0] == 'n' && p.ipa()[1] == '\u{329}',
            Phoneme::F => p.ipa().len() == 1 && p.ipa()[0] == 'f',
            Phoneme::G => p.ipa().len() == 1 && p.ipa()[0] == '\u{261}',
            Phoneme::H => p.ipa().len() == 1 && p.ipa()[0] == 'h',
            Phoneme::JH => p.ipa().len() == 2 && p.ipa()[0] == 'd' && p.ipa()[1] == '\u{292}',
            Phoneme::K => p.ipa().len() == 1 && p.ipa()[0] == 'k',
            Phoneme::L => p.ipa().len() == 1 && p.ipa()[0] == 'l',
            Phoneme::M => p.ipa().len() == 1 && p.ipa()[0] == 'm',
            Phoneme::N => p.ipa().len() == 1 && p.ipa()[0] == 'n',
            Phoneme::NG => p.ipa().len() == 1 && p.ipa()[0] == '\u{14b}',
            Phoneme::NX => p.ipa().len() == 2 && p.ipa()[0] == '\u{27e}' && p.ipa()[1] == '\u{303}',
            Phoneme::P => p.ipa().len() == 1 && p.ipa()[0] == 'p',
            Phoneme::Q => p.ipa().len() == 1 && p.ipa()[0] == '\u{294}',
            Phoneme::R => p.ipa().len() == 1 && p.ipa()[0] == '\u{279}',
            Phoneme::S => p.ipa().len() == 1 && p.ipa()[0] == 's',
            Phoneme::SH => p.ipa().len() == 1 && p.ipa()[0] == '\u{283}',
            Phoneme::T => p.ipa().len() == 1 && p.ipa()[0] == 't',
            Phoneme::TH => p.ipa().len() == 1 && p.ipa()[0] == '\u{3b8}',
            Phoneme::V => p.ipa().len() == 1 && p.ipa()[0] == 'v',
            Phoneme::W => p.ipa().len() == 1 && p.ipa()[0] == 'w',
            Phoneme::WH => p.ipa().len() == 1 && p.ipa()[0] == '\u{28d}',
            Phoneme::Y => p.ipa().len() == 1 && p.ipa()[0] == 'j',
            Phoneme::Z => p.ipa().len() == 1 && p.ipa()[0] == 'z',
            Phoneme::ZH => p.ipa().len() == 1 && p.ipa()[0] == '\u{292}',
        },
{
    reveal_strlit("ɑ");
    reveal_strlit("æ");
    reveal_strlit("ʌ");
    reveal_strlit("ɔ");
    reveal_strlit("aʊ");
    reveal_strlit("əɹ");
    reveal_strlit("ə");
    reveal_strlit("aɪ");
    reveal_strlit("ɛ");
    reveal_strlit("ɛɹ");
    reveal_strlit("eɪ");
    reveal_strlit("ɪ");
    reveal_strlit("ɨ");
    reveal_strlit("i");
    reveal_strlit("oʊ");
    reveal_strlit("ɔɪ");
    reveal_strlit("ʊ");
    reveal_strlit("u");
    reveal_strlit("ʉ");
    reveal_strlit("b");
    reveal_strlit("tʃ");
    reveal_strlit("d");
    reveal_strlit("ð");
    reveal_strlit("ɾ");
    reveal_strlit("l̩");
    reveal_strlit("m̩");
    reveal_strlit("n̩");
    reveal_strlit("f");
    reveal_strlit("ɡ");
    reveal_strlit("h");
    reveal_strlit("dʒ");
    reveal_strlit("k");
    reveal_strlit("l");
    reveal_strlit("m");
    reveal_strlit("n");
    reveal_strlit("ŋ");
    reveal_strlit("ɾ̃");
    reveal_strlit("p");
    reveal_strlit("ʔ");
    reveal_strlit("ɹ");
    reveal_strlit("s");
    reveal_strlit("ʃ");
    reveal_strlit("t");
    reveal_strlit("θ");
    reveal_strlit("v");
    reveal_strlit("w");
    reveal_strlit("ʍ");
    reveal_strlit("j");
    reveal_strlit("z");
    reveal_strlit("ʒ");
}

/// No two phonemes share a dictionary symbol, and `HH` is the symbol of none.
pub proof fn lemma_arpabet_symbols_distinct(p: Phoneme, q: Phoneme)
    ensures
        p.arpabet() == q.arpabet() ==> p == q,
        p.arpabet() != "HH"@,
{
    lemma_arpabet_chars(p);
    lemma_arpabet_chars(q);
    reveal_strlit("HH");
}

/// A dictionary symbol stands for one phoneme only, and the symbol that
/// `to_arpabet` gives for a phoneme is read back as that phoneme.
pub proof fn lemma_arpabet_round_trip(s: Seq<char>, p: Phoneme, q: Phoneme)
    ensures
        Phoneme::reads_arpabet(p.arpabet(), p),
        Phoneme::reads_arpabet(s, p) && Phoneme::reads_arpabet(s, q) ==> p == q,
{
    lemma_arpabet_symbols_distinct(p, q);
    lemma_arpabet_symbols_distinct(q, p);
}

/// No two phonemes share a transcription symbol, so the symbol that `to_ipa`
/// gives for a phoneme is read back as that phoneme.
pub proof fn lemma_ipa_symbols_distinct(p: Phoneme, q: Phoneme)
    ensures
        p.ipa() == q.ipa() ==> p == q,
{
    lemma_ipa_chars(p);
    lemma_ipa_chars(q);
}

/// A position inside a syllable. The layer of a coda position counts the
/// consonants of the coda from 1.
#[derive(Clone, Copy, PartialEq, Eq, Hash, Debug, Structural)]
pub enum SyllablePart {
    Onset,
    Nucleus,
    Coda { layer: usize },
}

impl SyllablePart {
    /// The part that follows a part: the nucleus after the onset, the first
    /// coda layer after the nucleus, and nothing after a coda.
    pub open spec fn successor(self) -> Option<SyllablePart> {
        match self {
            SyllablePart::Onset => Some(SyllablePart::Nucleus),
            SyllablePart::Nucleus => Some(SyllablePart::Coda { layer: 1 }),
            SyllablePart::Coda { .. } => None,
        }
    }

    /// The part that follows this one, if any.
    pub fn next(self) -> (n: Option<Self>)
        ensures
            n == self.successor(),
    {
        match self {
            Self::Onset => Some(Self::Nucleus),
            Self::Nucleus => Some(Self::Coda { layer: 1 }),
            Self::Coda { layer: _ } => None,
        }
    }

    /// Whether this is the onset.
    pub fn is_onset(self) -> (b: bool)
        ensures
            b == (self == SyllablePart::Onset),
    {
        match self {
            Self::Onset => true,
            _ => false,
        }
    }

    /// Whether this is the nucleus.
    pub fn is_nucleus(self) -> (b: bool)
        ensures
            b == (self == SyllablePart::Nucleus),
    {
        match self {
            Self::Nucleus => true,
            _ => false,
        }
    }

    /// Whether this is a layer of the coda.
    pub fn is_coda(self) -> (b: bool)
        ensures
            b == (self is Coda),
    {
        match self {
            Self::Coda { layer: _ } => true,
            _ => false,
        }
    }
}

} // verus!
