//! Transcription symbols keyed by dictionary symbol, with the two spellings
//! of the sound `h` kept apart.

use vstd::prelude::*;
use crate::phoneme::Phoneme;
use crate::text::str_eq;

verus! {

/// A dictionary symbol, seen as the name of a transcription symbol.
pub enum IPA {
    AA,
    AE,
    AH,
    AO,
    AW,
    AX,
    AXR,
    AY,
    EH,
    ER,
    EY,
    IH,
    IX,
    IY,
    OW,
    OY,
    UH,
    UW,
    UX,
    B,
    CH,
    D,
    DH,
    DX,
    EL,
    EM,
    EN,
    F,
    G,
    HH,
    H,
    JH,
    K,
    L,
    M,
    N,
    NG,
    NX,
    P,
    Q,
    R,
    S,
    SH,
    T,
    TH,
    V,
    W,
    WH,
    Y,
    Z,
    ZH,
}

impl IPA {
    /// The dictionary symbol that a value is named after.
    pub open spec fn arpabet(self) -> Seq<char> {
        match self {
            IPA::AA => "AA"@,
            IPA::AE => "AE"@,
            IPA::AH => "AH"@,
            IPA::AO => "AO"@,
            IPA::AW => "AW"@,
            IPA::AX => "AX"@,
            IPA::AXR => "AXR"@,
            IPA::AY => "AY"@,
            IPA::EH => "EH"@,
            IPA::ER => "ER"@,
            IPA::EY => "EY"@,
            IPA::IH => "IH"@,
            IPA::IX => "IX"@,
            IPA::IY => "IY"@,
            IPA::OW => "OW"@,
            IPA::OY => "OY"@,
            IPA::UH => "UH"@,
            IPA::UW => "UW"@,
            IPA::UX => "UX"@,
            IPA::B => "B"@,
            IPA::CH => "CH"@,
            IPA::D => "D"@,
            IPA::DH => "DH"@,
            IPA::DX => "DX"@,
            IPA::EL => "EL"@,
            IPA::EM => "EM"@,
            IPA::EN => "EN"@,
            IPA::F => "F"@,
            IPA::G => "G"@,
            IPA::HH => "HH"@,
            IPA::H => "H"@,
            IPA::JH => "JH"@,
            IPA::K => "K"@,
            IPA::L => "L"@,
            IPA::M => "M"@,
            IPA::N => "N"@,
            IPA::NG => "NG"@,
            IPA::NX => "NX"@,
            IPA::P => "P"@,
            IPA::Q => "Q"@,
            IPA::R => "R"@,
            IPA::S => "S"@,
            IPA::SH => "SH"@,
            IPA::T => "T"@,
            IPA::TH => "TH"@,
            IPA::V => "V"@,
            IPA::W => "W"@,
            IPA::WH => "WH"@,
            IPA::Y => "Y"@,
            IPA::Z => "Z"@,
            IPA::ZH => "ZH"@,
        }
    }

    /// The transcription symbol of a value.
    pub open spec fn glyphs(self) -> Seq<char> {
        match self {
            IPA::AA => "ɑ"@,
            IPA::AE => "æ"@,
            IPA::AH => "ʌ"@,
            IPA::AO => "ɔ"@,
            IPA::AW => "aʊ"@,
            IPA::AX => "əɹ"@,
            IPA::AXR => "ə"@,
            IPA::AY => "aɪ"@,
            IPA::EH => "ɛ"@,
            IPA::ER => "ɛɹ"@,
            IPA::EY => "eɪ"@,
            IPA::IH => "ɪ"@,
            IPA::IX => "ɨ"@,
            IPA::IY => "i"@,
            IPA::OW => "oʊ"@,
            IPA::OY => "ɔɪ"@,
            IPA::UH => "ʊ"@,
            IPA::UW => "u"@,
            IPA::UX => "ʉ"@,
            IPA::B => "b"@,
            IPA::CH => "tʃ"@,
            IPA::D => "d"@,
            IPA::DH => "ð"@,
            IPA::DX => "ɾ"@,
            IPA::EL => "l̩"@,
            IPA::EM => "m̩"@,
            IPA::EN => "n̩"@,
            IPA::F => "f"@,
            IPA::G => "ɡ"@,
            IPA::HH => "h"@,
            IPA::H => "h"@,
            IPA::JH => "dʒ"@,
            IPA::K => "k"@,
            IPA::L => "l"@,
            IPA::M => "m"@,
            IPA::N => "n"@,
            IPA::NG => "ŋ"@,
            IPA::NX => "ɾ̃"@,
            IPA::P => "p"@,
            IPA::Q => "ʔ"@,
            IPA::R => "ɹ"@,
            IPA::S => "s"@,
            IPA::SH => "ʃ"@,
            IPA::T => "t"@,
            IPA::TH => "θ"@,
            IPA::V => "v"@,
            IPA::W => "w"@,
            IPA::WH => "ʍ"@,
            IPA::Y => "j"@,
            IPA::Z => "z"@,
            IPA::ZH => "ʒ"@,
        }
    }

    /// Whether a string is a dictionary symbol.
    pub open spec fn is_arpabet(s: Seq<char>) -> bool {
        exists|i: IPA| #[trigger] i.arpabet() == s
    }

    /// Looks a dictionary symbol up. `None` means that the string is not a
    /// symbol of the inventory.
    pub fn parse_arpabet(arpabet: &str) -> (found: Option<IPA>)
        ensures
            match found {
                Some(i) => i.arpabet() == arpabet@,
                None => !IPA::is_arpabet(arpabet@),
            },
    {
        if str_eq(arpabet, "AA") {
            Some(IPA::AA)
        }         else if str_eq(arpabet, "AE") {
            Some(IPA::AE)
        }         else if str_eq(arpabet, "AH") {
            Some(IPA::AH)
        }         else if str_eq(arpabet, "AO") {
            Some(IPA::AO)
        }         else if str_eq(arpabet, "AW") {
            Some(IPA::AW)
        }         else if str_eq(arpabet, "AX") {
            Some(IPA::AX)
        }         else if str_eq(arpabet, "AXR") {
            Some(IPA::AXR)
        }         else if str_eq(arpabet, "AY") {
            Some(IPA::AY)
        }         else if str_eq(arpabet, "EH") {
            Some(IPA::EH)
        }         else if str_eq(arpabet, "ER") {
            Some(IPA::ER)
        }         else if str_eq(arpabet, "EY") {
            Some(IPA::EY)
        }         else if str_eq(arpabet, "IH") {
            Some(IPA::IH)
        }         else if str_eq(arpabet, "IX") {
            Some(IPA::IX)
        }         else if str_eq(arpabet, "IY") {
            Some(IPA::IY)
        }         else if str_eq(arpabet, "OW") {
            Some(IPA::OW)
        }         else if str_eq(arpabet, "OY") {
            Some(IPA::OY)
        }         else if str_eq(arpabet, "UH") {
            Some(IPA::UH)
        }         else if str_eq(arpabet, "UW") {
            Some(IPA::UW)
        }         else if str_eq(arpabet, "UX") {
            Some(IPA::UX)
        }         else if str_eq(arpabet, "B") {
            Some(IPA::B)
        }         else if str_eq(arpabet, "CH") {
            Some(IPA::CH)
        }         else if str_eq(arpabet, "D") {
            Some(IPA::D)
        }         else if str_eq(arpabet, "DH") {
            Some(IPA::DH)
        }         else if str_eq(arpabet, "DX") {
            Some(IPA::DX)
        }         else if str_eq(arpabet, "EL") {
            Some(IPA::EL)
        }         else if str_eq(arpabet, "EM") {
            Some(IPA::EM)
        }         else if str_eq(arpabet, "EN") {
            Some(IPA::EN)
        }         else if str_eq(arpabet, "F") {
            Some(IPA::F)
        }         else if str_eq(arpabet, "G") {
            Some(IPA::G)
        }         else if str_eq(arpabet, "HH") {
            Some(IPA::HH)
        }         else if str_eq(arpabet, "H") {
            Some(IPA::H)
        }         else if str_eq(arpabet, "JH") {
            Some(IPA::JH)
        }         else if str_eq(arpabet, "K") {
            Some(IPA::K)
        }         else if str_eq(arpabet, "L") {
            Some(IPA::L)
        }         else if str_eq(arpabet, "M") {
            Some(IPA::M)
        }         else if str_eq(arpabet, "N") {
            Some(IPA::N)
        }         else if str_eq(arpabet, "NG") {
            Some(IPA::NG)
        }         else if str_eq(arpabet, "NX") {
            Some(IPA::NX)
        }         else if str_eq(arpabet, "P") {
            Some(IPA::P)
        }         else if str_eq(arpabet, "Q") {
            Some(IPA::Q)
        }         else if str_eq(arpabet, "R") {
            Some(IPA::R)
        }         else if str_eq(arpabet, "S") {
            Some(IPA::S)
        }         else if str_eq(arpabet, "SH") {
            Some(IPA::SH)
        }         else if str_eq(arpabet, "T") {
            Some(IPA::T)
        }         else if str_eq(arpabet, "TH") {
            Some(IPA::TH)
        }         else if str_eq(arpabet, "V") {
            Some(IPA::V)
        }         else if str_eq(arpabet, "W") {
            Some(IPA::W)
        }         else if str_eq(arpabet, "WH") {
            Some(IPA::WH)
        }         else if str_eq(arpabet, "Y") {
            Some(IPA::Y)
        }         else if str_eq(arpabet, "Z") {
            Some(IPA::Z)
        }         else if str_eq(arpabet, "ZH") {
            Some(IPA::ZH)
        } else {
            None
        }
    }

    /// The value named after a dictionary symbol.
    pub fn from_arpabet(arpabet: &str) -> (i: IPA)
        requires
            IPA::is_arpabet(arpabet@),
        ensures
            i.arpabet() == arpabet@,
    {
        IPA::parse_arpabet(arpabet).unwrap()
    }

    /// The transcription symbol of a value.
    pub fn to_char(self) -> (s: &'static str)
        ensures
            s@ == self.glyphs(),
    {
        match self {
            IPA::AA => "ɑ",
            IPA::AE => "æ",
            IPA::AH => "ʌ",
            IPA::AO => "ɔ",
            IPA::AW => "aʊ",
            IPA::AX => "əɹ",
            IPA::AXR => "ə",
            IPA::AY => "aɪ",
            IPA::EH => "ɛ",
            IPA::ER => "ɛɹ",
            IPA::EY => "eɪ",
            IPA::IH => "ɪ",
            IPA::IX => "ɨ",
            IPA::IY => "i",
            IPA::OW => "oʊ",
            IPA::OY => "ɔɪ",
            IPA::UH => "ʊ",
            IPA::UW => "u",
            IPA::UX => "ʉ",
            IPA::B => "b",
            IPA::CH => "tʃ",
            IPA::D => "d",
            IPA::DH => "ð",
            IPA::DX => "ɾ",
            IPA::EL => "l̩",
            IPA::EM => "m̩",
            IPA::EN => "n̩",
            IPA::F => "f",
            IPA::G => "ɡ",
            IPA::HH => "h",
            IPA::H => "h",
            IPA::JH => "dʒ",
            IPA::K => "k",
            IPA::L => "l",
            IPA::M => "m",
            IPA::N => "n",
            IPA::NG => "ŋ",
            IPA::NX => "ɾ̃",
            IPA::P => "p",
            IPA::Q => "ʔ",
            IPA::R => "ɹ",
            IPA::S => "s",
            IPA::SH => "ʃ",
            IPA::T => "t",
            IPA::TH => "θ",
            IPA::V => "v",
            IPA::W => "w",
            IPA::WH => "ʍ",
            IPA::Y => "j",
            IPA::Z => "z",
            IPA::ZH => "ʒ",
        }
    }
}

/// The two inventories agree: a dictionary symbol that both read renders as
/// the same transcription symbol in both.
pub proof fn lemma_ipa_agrees_with_phoneme(s: Seq<char>, i: IPA, p: Phoneme)
    requires
        i.arpabet() == s,
        Phoneme::reads_arpabet(s, p),
    ensures
        i.glyphs() == p.ipa(),
{
    crate::phoneme::lemma_arpabet_symbols_distinct(p, p);
    let q = IPA::phoneme_of(i);
    assert(Phoneme::reads_arpabet(s, q));
    crate::phoneme::lemma_arpabet_round_trip(s, p, q);
}

impl IPA {
    /// The phoneme that a value names.
    pub open spec fn phoneme_of(self) -> Phoneme {
        match self {
            IPA::AA => Phoneme::AA,
            IPA::AE => Phoneme::AE,
            IPA::AH => Phoneme::AH,
            IPA::AO => Phoneme::AO,
            IPA::AW => Phoneme::AW,
            IPA::AX => Phoneme::AX,
            IPA::AXR => Phoneme::AXR,
            IPA::AY => Phoneme::AY,
            IPA::EH => Phoneme::EH,
            IPA::ER => Phoneme::ER,
            IPA::EY => Phoneme::EY,
            IPA::IH => Phoneme::IH,
            IPA::IX => Phoneme::IX,
            IPA::IY => Phoneme::IY,
            IPA::OW => Phoneme::OW,
            IPA::OY => Phoneme::OY,
            IPA::UH => Phoneme::UH,
            IPA::UW => Phoneme::UW,
            IPA::UX => Phoneme::UX,
            IPA::B => Phoneme::B,
            IPA::CH => Phoneme::CH,
            IPA::D => Phoneme::D,
            IPA::DH => Phoneme::DH,
            IPA::DX => Phoneme::DX,
            IPA::EL => Phoneme::EL,
            IPA::EM => Phoneme::EM,
            IPA::EN => Phoneme::EN,
            IPA::F => Phoneme::F,
            IPA::G => Phoneme::G,
            IPA::HH => Phoneme::H,
            IPA::H => Phoneme::H,
            IPA::JH => Phoneme::JH,
            IPA::K => Phoneme::K,
            IPA::L => Phoneme::L,
            IPA::M => Phoneme::M,
            IPA::N => Phoneme::N,
            IPA::NG => Phoneme::NG,
            IPA::NX => Phoneme::NX,
            IPA::P => Phoneme::P,
            IPA::Q => Phoneme::Q,
            IPA::R => Phoneme::R,
            IPA::S => Phoneme::S,
            IPA::SH => Phoneme::SH,
            IPA::T => Phoneme::T,
            IPA::TH => Phoneme::TH,
            IPA::V => Phoneme::V,
            IPA::W => Phoneme::W,
            IPA::WH => Phoneme::WH,
            IPA::Y => Phoneme::Y,
            IPA::Z => Phoneme::Z,
            IPA::ZH => Phoneme::ZH,
        }
    }
}

} // verus!
