//! Syllables: runs of phonemes, their division into onset, nucleus and coda,
//! and their rendering as a transcription and as an English respelling.

use vstd::prelude::*;
use vstd::string::*;
use crate::phoneme::Phoneme;
use crate::text::{chars_of, first_group, regex_first_group, split, starts_with_at, pieces};

verus! {

/// How many respelling rules there are.
pub const RESPELL_RULES: usize = 68;

/// The English spelling that respelling rule `i` writes.
pub open spec fn rule_spelling(i: usize) -> Seq<char> {
    match i {
        0 => "ire"@,
        1 => "oir"@,
        2 => "our"@,
        3 => "eer"@,
        4 => "air"@,
        5 => "ure"@,
        6 => "ur"@,
        7 => "ew"@,
        8 => "eye"@,
        9 => "err"@,
        10 => "irr"@,
        11 => "urr"@,
        12 => "uurr"@,
        13 => "uhr"@,
        14 => "oor"@,
        15 => "or"@,
        16 => "orr"@,
        17 => "oh"@,
        18 => "oo"@,
        19 => "ar"@,
        20 => "arr"@,
        21 => "y"@,
        22 => "ay"@,
        23 => "ee"@,
        24 => "aw"@,
        25 => "ow"@,
        26 => "oy"@,
        27 => "ah"@,
        28 => "ah"@,
        29 => "ee"@,
        30 => "oo"@,
        31 => "aw"@,
        32 => "uh"@,
        33 => "a"@,
        34 => "o"@,
        35 => "uu"@,
        36 => "i"@,
        37 => "u"@,
        38 => "e"@,
        39 => "j"@,
        40 => "nk"@,
        41 => "wh"@,
        42 => "b"@,
        43 => "ch"@,
        44 => "d"@,
        45 => "dh"@,
        46 => "f"@,
        47 => "g"@,
        48 => "h"@,
        49 => "k"@,
        50 => "kh"@,
        51 => "l"@,
        52 => "l"@,
        53 => "m"@,
        54 => "n"@,
        55 => "ng"@,
        56 => "p"@,
        57 => "r"@,
        58 => "r"@,
        59 => "s"@,
        60 => "sh"@,
        61 => "t"@,
        62 => "th"@,
        63 => "v"@,
        64 => "w"@,
        65 => "y"@,
        66 => "z"@,
        67 => "zh"@,
        _ => Seq::empty(),
    }
}

/// The transcription that respelling rule `i` reads.
pub open spec fn rule_sound(i: usize) -> Seq<char> {
    match i {
        0 => "aɪər"@,
        1 => "ɔɪər"@,
        2 => "aʊər"@,
        3 => "ɪər"@,
        4 => "ɛər"@,
        5 => "jʊər"@,
        6 => "ɜːr"@,
        7 => "juː"@,
        8 => "aɪ"@,
        9 => "ɛr"@,
        10 => "ɪr"@,
        11 => "ʌr"@,
        12 => "ʊr"@,
        13 => "ər"@,
        14 => "ʊər"@,
        15 => "ɔːr"@,
        16 => "ɒr"@,
        17 => "oʊ"@,
        18 => "uː"@,
        19 => "ɑːr"@,
        20 => "ær"@,
        21 => "aɪ"@,
        22 => "eɪ"@,
        23 => "iː"@,
        24 => "ɔː"@,
        25 => "aʊ"@,
        26 => "ɔɪ"@,
        27 => "ɑː"@,
        28 => "ɑ"@,
        29 => "i"@,
        30 => "u"@,
        31 => "ɔ"@,
        32 => "ə"@,
        33 => "æ"@,
        34 => "ɒ"@,
        35 => "ʊ"@,
        36 => "ɪ"@,
        37 => "ʌ"@,
        38 => "ɛ"@,
        39 => "dʒ"@,
        40 => "ŋk"@,
        41 => "hw"@,
        42 => "b"@,
        43 => "tʃ"@,
        44 => "d"@,
        45 => "ð"@,
        46 => "f"@,
        47 => "ɡ"@,
        48 => "h"@,
        49 => "k"@,
        50 => "x"@,
        51 => "l"@,
        52 => "ɫ"@,
        53 => "m"@,
        54 => "n"@,
        55 => "ŋ"@,
        56 => "p"@,
        57 => "ɹ"@,
        58 => "r"@,
        59 => "s"@,
        60 => "ʃ"@,
        61 => "t"@,
        62 => "θ"@,
        63 => "v"@,
        64 => "w"@,
        65 => "j"@,
        66 => "z"@,
        67 => "ʒ"@,
        _ => Seq::empty(),
    }
}

/// Whether rule `i` can read the start of `ipa`.
pub open spec fn rule_applies(i: usize, ipa: Seq<char>) -> bool {
    i < RESPELL_RULES && rule_sound(i).len() > 0 && rule_sound(i).is_prefix_of(ipa)
}

/// The first rule at or after `from` that can read the start of `ipa`, or
/// the number of rules if there is none.
pub open spec fn first_rule_from(ipa: Seq<char>, from: usize) -> usize
    decreases RESPELL_RULES - from,
{
    if from >= RESPELL_RULES || rule_applies(from, ipa) {
        from
    } else {
        first_rule_from(ipa, (from + 1) as usize)
    }
}

/// The spelling of a reduced vowel that ends a syllable: such a vowel, when
/// it is all that is left to read, is written with a trailing `h`.
pub open spec fn ender_spelling(ipa: Seq<char>) -> Option<Seq<char>> {
    if ipa == "ɪ"@ {
        Some("ih"@)
    } else if ipa == "ʌ"@ {
        Some("uh"@)
    } else if ipa == "ɛ"@ {
        Some("eh"@)
    } else {
        None
    }
}

/// The English respelling of a transcription. It is read from left to
/// right. What is left is written by its ending spelling if it has one, else
/// by the first rule, in the order of the table, that can read its start; a
/// character that no rule reads is copied.
pub open spec fn respell(ipa: Seq<char>) -> Seq<char>
    decreases ipa.len(),
{
    if ipa.len() == 0 {
        Seq::empty()
    } else if let Some(spelling) = ender_spelling(ipa) {
        spelling
    } else {
        let i = first_rule_from(ipa, 0);
        if rule_applies(i, ipa) {
            rule_spelling(i) + respell(ipa.skip(rule_sound(i).len() as int))
        } else {
            seq![ipa[0]] + respell(ipa.skip(1))
        }
    }
}

/// The transcription of a run of phonemes: their symbols, one after another.
pub open spec fn transcription(phonemes: Seq<Phoneme>) -> Seq<char>
    decreases phonemes.len(),
{
    if phonemes.len() == 0 {
        Seq::empty()
    } else {
        transcription(phonemes.drop_last()) + phonemes.last().ipa()
    }
}

/// Whether every one of the phonemes is a vowel.
pub open spec fn all_vowels(phonemes: Seq<Phoneme>) -> bool {
    forall|k: int| 0 <= k < phonemes.len() ==> (#[trigger] phonemes[k]).vowel()
}

/// Whether every one of the phonemes is a consonant.
pub open spec fn all_consonants(phonemes: Seq<Phoneme>) -> bool {
    forall|k: int| 0 <= k < phonemes.len() ==> !(#[trigger] phonemes[k]).vowel()
}

/// Whether the onset ends before `i` and the coda starts at `j`: consonants
/// before `i`, at least one vowel and only vowels from `i` to `j`, consonants
/// from `j` on.
pub open spec fn divides_at(phonemes: Seq<Phoneme>, i: int, j: int) -> bool {
    &&& 0 <= i < j <= phonemes.len()
    &&& all_consonants(phonemes.subrange(0, i))
    &&& all_vowels(phonemes.subrange(i, j))
    &&& all_consonants(phonemes.subrange(j, phonemes.len() as int))
}

/// Whether a run of phonemes is a syllable: some consonants or none, then
/// one vowel or more, then some consonants or none.
pub open spec fn well_formed(phonemes: Seq<Phoneme>) -> bool {
    exists|i: int, j: int| divides_at(phonemes, i, j)
}

/// How many phonemes at the start of `phonemes` are vowels, if `vowels`
/// holds, or consonants, if it does not.
pub open spec fn run_len(phonemes: Seq<Phoneme>, vowels: bool) -> nat
    decreases phonemes.len(),
{
    if phonemes.len() == 0 || phonemes[0].vowel() != vowels {
        0
    } else {
        1 + run_len(phonemes.drop_first(), vowels)
    }
}

/// The onset: the consonants that the phonemes begin with.
pub open spec fn onset_of(phonemes: Seq<Phoneme>) -> Seq<Phoneme> {
    phonemes.take(run_len(phonemes, false) as int)
}

/// What follows the onset.
pub open spec fn rime_of(phonemes: Seq<Phoneme>) -> Seq<Phoneme> {
    phonemes.skip(run_len(phonemes, false) as int)
}

/// The nucleus: the vowels that follow the onset.
pub open spec fn nucleus_of(phonemes: Seq<Phoneme>) -> Seq<Phoneme> {
    rime_of(phonemes).take(run_len(rime_of(phonemes), true) as int)
}

/// The coda: what follows the nucleus.
pub open spec fn coda_of(phonemes: Seq<Phoneme>) -> Seq<Phoneme> {
    rime_of(phonemes).skip(run_len(rime_of(phonemes), true) as int)
}

/// A run is no longer than the phonemes that it is counted in.
pub proof fn lemma_run_len_bound(phonemes: Seq<Phoneme>, vowels: bool)
    ensures
        run_len(phonemes, vowels) <= phonemes.len(),
    decreases phonemes.len(),
{
    if phonemes.len() > 0 && phonemes[0].vowel() == vowels {
        lemma_run_len_bound(phonemes.drop_first(), vowels);
    }
}

/// The onset, the nucleus and the coda of any run of phonemes, one after
/// another, are that run.
pub proof fn lemma_parts_cover(phonemes: Seq<Phoneme>)
    ensures
        onset_of(phonemes) + nucleus_of(phonemes) + coda_of(phonemes) == phonemes,
        onset_of(phonemes).len() + nucleus_of(phonemes).len() + coda_of(phonemes).len()
            == phonemes.len(),
{
    lemma_run_len_bound(phonemes, false);
    lemma_run_len_bound(rime_of(phonemes), true);
    assert(onset_of(phonemes) + nucleus_of(phonemes) + coda_of(phonemes) =~= phonemes);
}

/// A run of `head`, all of one kind, followed by `tail`, which is empty or
/// starts with the other kind, is as long as `head`.
proof fn lemma_run_len(head: Seq<Phoneme>, tail: Seq<Phoneme>, vowels: bool)
    requires
        forall|k: int| 0 <= k < head.len() ==> (#[trigger] head[k]).vowel() == vowels,
        tail.len() > 0 ==> tail[0].vowel() != vowels,
    ensures
        run_len(head + tail, vowels) == head.len(),
    decreases head.len(),
{
    if head.len() == 0 {
        assert(head + tail =~= tail);
    } else {
        assert((head + tail)[0] == head[0]);
        assert((head + tail).drop_first() =~= head.drop_first() + tail);
        assert forall|k: int| 0 <= k < head.drop_first().len() implies (
        #[trigger] head.drop_first()[k]).vowel() == vowels by {
            assert(head.drop_first()[k] == head[k + 1]);
        }
        lemma_run_len(head.drop_first(), tail, vowels);
    }
}

/// A syllable divides in one way only: its parts are its onset, its nucleus
/// and its coda.
pub proof fn lemma_division_is_unique(
    onset: Seq<Phoneme>,
    nucleus: Seq<Phoneme>,
    coda: Seq<Phoneme>,
)
    requires
        all_consonants(onset),
        nucleus.len() > 0,
        all_vowels(nucleus),
        all_consonants(coda),
    ensures
        onset_of(onset + nucleus + coda) == onset,
        nucleus_of(onset + nucleus + coda) == nucleus,
        coda_of(onset + nucleus + coda) == coda,
{
    let s = onset + nucleus + coda;
    assert(s =~= onset + (nucleus + coda));
    assert((nucleus + coda)[0] == nucleus[0]);
    lemma_run_len(onset, nucleus + coda, false);
    assert(onset_of(s) =~= onset);
    assert(rime_of(s) =~= nucleus + coda);
    lemma_run_len(nucleus, coda, true);
    assert(nucleus_of(s) =~= nucleus);
    assert(coda_of(s) =~= coda);
}

/// The two texts of respelling rule `i`: the spelling, then the sound.
fn respell_rule(i: usize) -> (rule: (&'static str, &'static str))
    requires
        i < RESPELL_RULES,
    ensures
        rule.0@ == rule_spelling(i),
        rule.1@ == rule_sound(i),
{
    match i {
        0 => ("ire", "aɪər"),
        1 => ("oir", "ɔɪər"),
        2 => ("our", "aʊər"),
        3 => ("eer", "ɪər"),
        4 => ("air", "ɛər"),
        5 => ("ure", "jʊər"),
        6 => ("ur", "ɜːr"),
        7 => ("ew", "juː"),
        8 => ("eye", "aɪ"),
        9 => ("err", "ɛr"),
        10 => ("irr", "ɪr"),
        11 => ("urr", "ʌr"),
        12 => ("uurr", "ʊr"),
        13 => ("uhr", "ər"),
        14 => ("oor", "ʊər"),
        15 => ("or", "ɔːr"),
        16 => ("orr", "ɒr"),
        17 => ("oh", "oʊ"),
        18 => ("oo", "uː"),
        19 => ("ar", "ɑːr"),
        20 => ("arr", "ær"),
        21 => ("y", "aɪ"),
        22 => ("ay", "eɪ"),
        23 => ("ee", "iː"),
        24 => ("aw", "ɔː"),
        25 => ("ow", "aʊ"),
        26 => ("oy", "ɔɪ"),
        27 => ("ah", "ɑː"),
        28 => ("ah", "ɑ"),
        29 => ("ee", "i"),
        30 => ("oo", "u"),
        31 => ("aw", "ɔ"),
        32 => ("uh", "ə"),
        33 => ("a", "æ"),
        34 => ("o", "ɒ"),
        35 => ("uu", "ʊ"),
        36 => ("i", "ɪ"),
        37 => ("u", "ʌ"),
        38 => ("e", "ɛ"),
        39 => ("j", "dʒ"),
        40 => ("nk", "ŋk"),
        41 => ("wh", "hw"),
        42 => ("b", "b"),
        43 => ("ch", "tʃ"),
        44 => ("d", "d"),
        45 => ("dh", "ð"),
        46 => ("f", "f"),
        47 => ("g", "ɡ"),
        48 => ("h", "h"),
        49 => ("k", "k"),
        50 => ("kh", "x"),
        51 => ("l", "l"),
        52 => ("l", "ɫ"),
        53 => ("m", "m"),
        54 => ("n", "n"),
        55 => ("ng", "ŋ"),
        56 => ("p", "p"),
        57 => ("r", "ɹ"),
        58 => ("r", "r"),
        59 => ("s", "s"),
        60 => ("sh", "ʃ"),
        61 => ("t", "t"),
        62 => ("th", "θ"),
        63 => ("v", "v"),
        64 => ("w", "w"),
        65 => ("y", "j"),
        66 => ("z", "z"),
        67 => ("zh", "ʒ"),
        _ => ("", ""),
    }
}

/// The ending spelling of what is left of `ipa` from position `at`, if it
/// has one.
fn ender_at(ipa: &Vec<char>, at: usize) -> (spelling: Option<&'static str>)
    requires
        at < ipa.len(),
    ensures
        match spelling {
            Some(s) => ender_spelling(ipa@.skip(at as int)) == Some(s@),
            None => ender_spelling(ipa@.skip(at as int)) is None,
        },
{
    proof {
        reveal_strlit("ɪ");
        reveal_strlit("ʌ");
        reveal_strlit("ɛ");
        assert("ɪ"@.len() == 1 && "ɪ"@[0] == 'ɪ');
        assert("ʌ"@.len() == 1 && "ʌ"@[0] == 'ʌ');
        assert("ɛ"@.len() == 1 && "ɛ"@[0] == 'ɛ');
    }
    let ghost rest = ipa@.skip(at as int);
    if ipa.len() - at != 1 {
        None
    } else {
        let c: char = ipa[at];
        assert(rest.len() == 1 && rest[0] == c);
        if c == 'ɪ' {
            assert(rest =~= "ɪ"@);
            Some("ih")
        } else if c == 'ʌ' {
            assert(rest =~= "ʌ"@);
            Some("uh")
        } else if c == 'ɛ' {
            assert(rest =~= "ɛ"@);
            Some("eh")
        } else {
            None
        }
    }
}

/// Why a text of dictionary symbols cannot be read.
pub enum ArpabetError {
    /// The pattern that tells a symbol from its stress digits was not
    /// accepted.
    Pattern,
    /// A token holds letters that are no symbol of the inventory.
    UnknownPhoneme(String),
}

/// Why a text of dictionary symbols cannot be read, as a mathematical
/// object.
pub enum ArpabetFault {
    Pattern,
    UnknownPhoneme(Seq<char>),
}

impl View for ArpabetError {
    type V = ArpabetFault;

    open spec fn view(&self) -> ArpabetFault {
        match self {
            ArpabetError::Pattern => ArpabetFault::Pattern,
            ArpabetError::UnknownPhoneme(letters) => ArpabetFault::UnknownPhoneme(letters@),
        }
    }
}

/// The pattern of a token that names a phoneme: capital letters, which are
/// captured, then digits, which mark the stress.
pub open spec fn token_pattern() -> Seq<char> {
    "^([A-Z]+)\\d*$"@
}

/// The phonemes that tokens name, read from left to right. `pattern` tells
/// the letters of a token from what follows them, and captures the letters.
/// A token that does not fit the pattern is passed over. The first token
/// whose letters are no dictionary symbol is a fault, and so is a pattern
/// that is not accepted.
pub open spec fn read_tokens_by(pattern: Seq<char>, tokens: Seq<Seq<char>>) -> Result<
    Seq<Phoneme>,
    ArpabetFault,
>
    decreases tokens.len(),
{
    if tokens.len() == 0 {
        Ok(Seq::empty())
    } else {
        match read_tokens_by(pattern, tokens.drop_last()) {
            Err(fault) => Err(fault),
            Ok(phonemes) => match regex_first_group(pattern, tokens.last()) {
                None => Err(ArpabetFault::Pattern),
                Some(None) => Ok(phonemes),
                Some(Some(letters)) => match Phoneme::of_arpabet(letters) {
                    Some(p) => Ok(phonemes.push(p)),
                    None => Err(ArpabetFault::UnknownPhoneme(letters)),
                },
            },
        }
    }
}

/// The phonemes that tokens name, each token a dictionary symbol with or
/// without stress digits after it.
pub open spec fn read_tokens(tokens: Seq<Seq<char>>) -> Result<Seq<Phoneme>, ArpabetFault> {
    read_tokens_by(token_pattern(), tokens)
}

/// A run of phonemes spoken as one unit.
pub struct Syllable {
    phonemes: Vec<Phoneme>,
}

impl View for Syllable {
    type V = Seq<Phoneme>;

    closed spec fn view(&self) -> Seq<Phoneme> {
        self.phonemes@
    }
}

impl Clone for Syllable {
    fn clone(&self) -> (copy: Self)
        ensures
            copy@ == self@,
    {
        Syllable { phonemes: self.phonemes.clone() }
    }
}

impl Syllable {
    /// The syllable of the given phonemes.
    pub fn new(phonemes: Vec<Phoneme>) -> (s: Self)
        ensures
            s@ == phonemes@,
    {
        Self { phonemes }
    }

    /// The syllable without phonemes.
    pub fn empty() -> (s: Self)
        ensures
            s@ == Seq::<Phoneme>::empty(),
    {
        Self { phonemes: Vec::new() }
    }

    /// The syllable of the given phonemes.
    pub fn from_phonemes(phonemes: Vec<Phoneme>) -> (s: Self)
        ensures
            s@ == phonemes@,
    {
        Self { phonemes }
    }

    /// Reads a syllable from dictionary symbols with spaces between them,
    /// each with or without stress digits after it.
    pub fn from_arpabet(arpabet: &str) -> (read: Result<Syllable, ArpabetError>)
        ensures
            match read {
                Ok(syllable) => read_tokens(pieces(arpabet@, ' ')) == Ok::<
                    Seq<Phoneme>,
                    ArpabetFault,
                >(syllable@),
                Err(error) => read_tokens(pieces(arpabet@, ' ')) == Err::<
                    Seq<Phoneme>,
                    ArpabetFault,
                >(error@),
            },
    {
        Self::from_arpabet_by("^([A-Z]+)\\d*$", arpabet)
    }

    /// Reads a syllable from tokens with spaces between them. `pattern`
    /// tells the letters of a token from what follows them, and captures the
    /// letters.
    pub fn from_arpabet_by(pattern: &str, arpabet: &str) -> (read: Result<Syllable, ArpabetError>)
        ensures
            match read {
                Ok(syllable) => read_tokens_by(pattern@, pieces(arpabet@, ' ')) == Ok::<
                    Seq<Phoneme>,
                    ArpabetFault,
                >(syllable@),
                Err(error) => read_tokens_by(pattern@, pieces(arpabet@, ' ')) == Err::<
                    Seq<Phoneme>,
                    ArpabetFault,
                >(error@),
            },
    {
        let text = chars_of(arpabet);
        let tokens = split(&text, ' ');
        let ghost all = pieces(arpabet@, ' ');
        let mut phonemes: Vec<Phoneme> = Vec::new();
        let mut k: usize = 0;
        assert(all.take(0) =~= Seq::<Seq<char>>::empty());
        while k < tokens.len()
            invariant
                k <= tokens.len(),
                all == pieces(arpabet@, ' '),
                all.len() == tokens.len(),
                forall|i: int| 0 <= i < all.len() ==> all[i] == tokens@[i]@,
                read_tokens_by(pattern@, all.take(k as int)) == Ok::<Seq<Phoneme>, ArpabetFault>(
                    phonemes@,
                ),
            decreases tokens.len() - k,
        {
            let ghost next = all.take(k + 1);
            proof {
                assert(next.drop_last() =~= all.take(k as int));
                assert(next.last() == tokens@[k as int]@);
            }
            match first_group(pattern, tokens[k].as_str()) {
                Err(_) => {
                    proof {
                        assert(read_tokens_by(pattern@, next) == Err::<
                            Seq<Phoneme>,
                            ArpabetFault,
                        >(ArpabetFault::Pattern));
                        lemma_fault_stays(pattern@, all, k + 1);
                    }
                    return Err(ArpabetError::Pattern);
                },
                Ok(None) => {},
                Ok(Some(letters)) => match Phoneme::parse_arpabet(letters.as_str()) {
                    Some(phone) => {
                        phonemes.push(phone);
                    },
                    None => {
                        proof {
                            assert(read_tokens_by(pattern@, next) == Err::<
                                Seq<Phoneme>,
                                ArpabetFault,
                            >(ArpabetFault::UnknownPhoneme(letters@)));
                            lemma_fault_stays(pattern@, all, k + 1);
                        }
                        return Err(ArpabetError::UnknownPhoneme(letters));
                    },
                },
            }
            k += 1;
        }
        assert(all.take(k as int) =~= all);
        Ok(Syllable::from_phonemes(phonemes))
    }

    /// The number of phonemes.
    pub fn len(&self) -> (n: usize)
        ensures
            n == self@.len(),
    {
        self.phonemes.len()
    }

    /// The phoneme at position `i`.
    pub fn phoneme(&self, i: usize) -> (p: Phoneme)
        requires
            i < self@.len(),
        ensures
            p == self@[i as int],
    {
        self.phonemes[i]
    }

    /// The phonemes, in order.
    pub fn phonemes(&self) -> (v: &Vec<Phoneme>)
        ensures
            v@ == self@,
    {
        &self.phonemes
    }

    /// The phoneme that the syllable begins with, if it has any.
    pub fn first_phoneme(&self) -> (p: Option<Phoneme>)
        ensures
            p == (if self@.len() > 0 { Some(self@.first()) } else { None }),
    {
        if self.phonemes.len() > 0 {
            Some(self.phonemes[0])
        } else {
            None
        }
    }

    /// The phoneme that the syllable ends with, if it has any.
    pub fn last_phoneme(&self) -> (p: Option<Phoneme>)
        ensures
            p == (if self@.len() > 0 { Some(self@.last()) } else { None }),
    {
        let n: usize = self.phonemes.len();
        if n > 0 {
            Some(self.phonemes[n - 1])
        } else {
            None
        }
    }

    /// Adds a phoneme at the end.
    pub fn add_phoneme(&mut self, phoneme: Phoneme)
        ensures
            final(self)@ == old(self)@.push(phoneme),
    {
        self.phonemes.push(phoneme);
    }

    /// The transcription of the syllable.
    pub fn to_ipa(&self) -> (ipa: String)
        ensures
            ipa@ == transcription(self@),
    {
        let mut result = String::new();
        let mut k: usize = 0;
        while k < self.phonemes.len()
            invariant
                k <= self.phonemes.len(),
                result@ == transcription(self.phonemes@.take(k as int)),
            decreases self.phonemes.len() - k,
        {
            result.append(self.phonemes[k].to_ipa());
            proof {
                let next = self.phonemes@.take(k + 1);
                assert(next.drop_last() =~= self.phonemes@.take(k as int));
            }
            k += 1;
        }
        assert(self.phonemes@.take(k as int) =~= self.phonemes@);
        result
    }

    /// The English respelling of the syllable's transcription.
    pub fn to_english(&self) -> (english: String)
        ensures
            english@ == respell(transcription(self@)),
    {
        let ipa_text = self.to_ipa();
        let ipa = chars_of(ipa_text.as_str());
        let mut result = String::new();
        let mut at: usize = 0;
        assert(ipa@.skip(0) =~= ipa@);
        while at < ipa.len()
            invariant
                at <= ipa.len(),
                respell(ipa@) == result@ + respell(ipa@.skip(at as int)),
            decreases ipa.len() - at,
        {
            let ghost rest = ipa@.skip(at as int);
            let ghost written = result@;
            if let Some(spelling) = ender_at(&ipa, at) {
                result.append(spelling);
                at = ipa.len();
                assert(respell(ipa@.skip(at as int)) =~= Seq::<char>::empty());
                assert(result@ =~= written + respell(rest));
            } else {
                let mut i: usize = 0;
                let mut advance: usize = 0;
                while i < RESPELL_RULES && advance == 0
                    invariant
                        at < ipa.len(),
                        rest == ipa@.skip(at as int),
                        i <= RESPELL_RULES,
                        result@ == written + (if advance > 0 && i < RESPELL_RULES {
                            rule_spelling(i)
                        } else {
                            Seq::<char>::empty()
                        }),
                        first_rule_from(rest, 0) == first_rule_from(rest, i),
                        advance > 0 ==> i < RESPELL_RULES && rule_applies(i, rest)
                            && advance == rule_sound(i).len(),
                    decreases RESPELL_RULES - i + (if advance == 0 { 1nat } else { 0nat }),
                {
                    let (spelling, sound) = respell_rule(i);
                    if starts_with_at(&ipa, at, sound) {
                        result.append(spelling);
                        advance = sound.unicode_len();
                    } else {
                        i += 1;
                    }
                }
                if advance > 0 {
                    assert(at + advance <= ipa.len());
                    assert(rest.skip(advance as int) =~= ipa@.skip(at + advance));
                    at += advance;
                } else {
                    assert(!rule_applies(first_rule_from(rest, 0), rest));
                    result.push(ipa[at]);
                    assert(rest.skip(1) =~= ipa@.skip(at + 1));
                    at += 1;
                }
                assert(result@ + respell(ipa@.skip(at as int)) =~= written + respell(rest));
            }
        }
        assert(respell(ipa@.skip(at as int)) =~= Seq::<char>::empty());
        assert(result@ =~= respell(ipa@));
        result
    }

    /// Divides the syllable into its onset, its nucleus and its coda. There
    /// is no result when the phonemes are not a well-formed syllable: when
    /// there is no vowel, or when a vowel follows the first consonant of the
    /// coda.
    pub fn split(&self) -> (parts: Option<(Vec<Phoneme>, Vec<Phoneme>, Vec<Phoneme>)>)
        ensures
            parts is Some <==> well_formed(self@),
            parts matches Some((onset, nucleus, coda)) ==> {
                &&& onset@ + nucleus@ + coda@ == self@
                &&& all_consonants(onset@)
                &&& nucleus@.len() > 0
                &&& all_vowels(nucleus@)
                &&& all_consonants(coda@)
                &&& onset@ == onset_of(self@)
                &&& nucleus@ == nucleus_of(self@)
                &&& coda@ == coda_of(self@)
            },
    {
        let mut onset: Vec<Phoneme> = Vec::new();
        let mut nucleus: Vec<Phoneme> = Vec::new();
        let mut coda: Vec<Phoneme> = Vec::new();
        let n: usize = self.phonemes.len();
        let mut k: usize = 0;
        while k < n
            invariant
                n == self.phonemes.len(),
                k <= n,
                onset@ + nucleus@ + coda@ == self.phonemes@.take(k as int),
                all_consonants(onset@),
                all_vowels(nucleus@),
                all_consonants(coda@),
                coda@.len() > 0 ==> nucleus@.len() > 0,
            decreases n - k,
        {
            let phone = self.phonemes[k];
            let ghost before = self.phonemes@.take(k as int);
            assert(self.phonemes@.take(k + 1) =~= before.push(phone));
            if coda.len() > 0 {
                if phone.is_vowel() {
                    proof {
                        let s = self.phonemes@;
                        let a = onset@.len() as int;
                        let b = (onset@.len() + nucleus@.len()) as int;
                        assert(before[a] == nucleus@[0]);
                        assert(before[b] == coda@[0]);
                        assert(s[a].vowel() && !s[b].vowel() && s[k as int].vowel());
                        assert forall|i: int, j: int| !divides_at(s, i, j) by {
                            if divides_at(s, i, j) {
                                lemma_vowels_are_contiguous(s, i, j, a, b, k as int);
                            }
                        }
                    }
                    return None;
                }
                coda.push(phone);
                assert(onset@ + nucleus@ + coda@ =~= before.push(phone));
            } else if phone.is_vowel() {
                nucleus.push(phone);
                assert(onset@ + nucleus@ + coda@ =~= before.push(phone));
            } else if nucleus.len() > 0 {
                coda.push(phone);
                assert(onset@ + nucleus@ + coda@ =~= before.push(phone));
            } else {
                onset.push(phone);
                assert(onset@ + nucleus@ + coda@ =~= before.push(phone));
            }
            k += 1;
        }
        assert(self.phonemes@.take(k as int) =~= self.phonemes@);
        if nucleus.len() == 0 {
            proof {
                let s = self.phonemes@;
                assert(s =~= onset@);
                assert forall|i: int, j: int| !divides_at(s, i, j) by {
                    if divides_at(s, i, j) {
                        assert(s.subrange(i, j)[0] == s[i]);
                    }
                }
            }
            return None;
        }
        proof {
            let s = self.phonemes@;
            let i = onset@.len() as int;
            let j = (onset@.len() + nucleus@.len()) as int;
            assert(s.subrange(0, i) =~= onset@);
            assert(s.subrange(i, j) =~= nucleus@);
            assert(s.subrange(j, s.len() as int) =~= coda@);
            assert(divides_at(s, i, j));
            lemma_division_is_unique(onset@, nucleus@, coda@);
        }
        Some((onset, nucleus, coda))
    }
}

/// A fault in the first tokens is the fault of all the tokens.
proof fn lemma_fault_stays(pattern: Seq<char>, tokens: Seq<Seq<char>>, n: int)
    requires
        0 <= n <= tokens.len(),
        read_tokens_by(pattern, tokens.take(n)) is Err,
    ensures
        read_tokens_by(pattern, tokens) == read_tokens_by(pattern, tokens.take(n)),
    decreases tokens.len(),
{
    if n < tokens.len() {
        assert(tokens.drop_last().take(n) =~= tokens.take(n));
        lemma_fault_stays(pattern, tokens.drop_last(), n);
    } else {
        assert(tokens.take(n) =~= tokens);
    }
}

/// The characters of the sound of each rule.
proof fn lemma_rule_chars(i: usize)
    ensures
        match i {
            0 => rule_sound(i).len() == 4 && rule_sound(i)[0] == 'a' && rule_sound(i)[1] == '\u{26a}' && rule_sound(i)[2] == '\u{259}' && rule_sound(i)[3] == 'r',
            1 => rule_sound(i).len() == 4 && rule_sound(i)[0] == '\u{254}' && rule_sound(i)[1] == '\u{26a}' && rule_sound(i)[2] == '\u{259}' && rule_sound(i)[3] == 'r',
            2 => rule_sound(i).len() == 4 && rule_sound(i)[0] == 'a' && rule_sound(i)[1] == '\u{28a}' && rule_sound(i)[2] == '\u{259}' && rule_sound(i)[3] == 'r',
            3 => rule_sound(i).len() == 3 && rule_sound(i)[0] == '\u{26a}' && rule_sound(i)[1] == '\u{259}' && rule_sound(i)[2] == 'r',
            4 => rule_sound(i).len() == 3 && rule_sound(i)[0] == '\u{25b}' && rule_sound(i)[1] == '\u{259}' && rule_sound(i)[2] == 'r',
            5 => rule_sound(i).len() == 4 && rule_sound(i)[0] == 'j' && rule_sound(i)[1] == '\u{28a}' && rule_sound(i)[2] == '\u{259}' && rule_sound(i)[3] == 'r',
            6 => rule_sound(i).len() == 3 && rule_sound(i)[0] == '\u{25c}' && rule_sound(i)[1] == '\u{2d0}' && rule_sound(i)[2] == 'r',
            7 => rule_sound(i).len() == 3 && rule_sound(i)[0] == 'j' && rule_sound(i)[1] == 'u' && rule_sound(i)[2] == '\u{2d0}',
            8 => rule_sound(i).len() == 2 && rule_sound(i)[0] == 'a' && rule_sound(i)[1] == '\u{26a}',
            9 => rule_sound(i).len() == 2 && rule_sound(i)[0] == '\u{25b}' && rule_sound(i)[1] == 'r',
            10 => rule_sound(i).len() == 2 && rule_sound(i)[0] == '\u{26a}' && rule_sound(i)[1] == 'r',
            11 => rule_sound(i).len() == 2 && rule_sound(i)[0] == '\u{28c}' && rule_sound(i)[1] == 'r',
            12 => rule_sound(i).len() == 2 && rule_sound(i)[0] == '\u{28a}' && rule_sound(i)[1] == 'r',
            13 => rule_sound(i).len() == 2 && rule_sound(i)[0] == '\u{259}' && rule_sound(i)[1] == 'r',
            14 => rule_sound(i).len() == 3 && rule_sound(i)[0] == '\u{28a}' && rule_sound(i)[1] == '\u{259}' && rule_sound(i)[2] == 'r',
            15 => rule_sound(i).len() == 3 && rule_sound(i)[0] == '\u{254}' && rule_sound(i)[1] == '\u{2d0}' && rule_sound(i)[2] == 'r',
            16 => rule_sound(i).len() == 2 && rule_sound(i)[0] == '\u{252}' && rule_sound(i)[1] == 'r',
            17 => rule_sound(i).len() == 2 && rule_sound(i)[0] == 'o' && rule_sound(i)[1] == '\u{28a}',
            18 => rule_sound(i).len() == 2 && rule_sound(i)[0] == 'u' && rule_sound(i)[1] == '\u{2d0}',
            19 => rule_sound(i).len() == 3 && rule_sound(i)[0] == '\u{251}' && rule_sound(i)[1] == '\u{2d0}' && rule_sound(i)[2] == 'r',
            20 => rule_sound(i).len() == 2 && rule_sound(i)[0] == '\u{e6}' && rule_sound(i)[1] == 'r',
            21 => rule_sound(i).len() == 2 && rule_sound(i)[0] == 'a' && rule_sound(i)[1] == '\u{26a}',
            22 => rule_sound(i).len() == 2 && rule_sound(i)[0] == 'e' && rule_sound(i)[1] == '\u{26a}',
            23 => rule_sound(i).len() == 2 && rule_sound(i)[0] == 'i' && rule_sound(i)[1] == '\u{2d0}',
            24 => rule_sound(i).len() == 2 && rule_sound(i)[0] == '\u{254}' && rule_sound(i)[1] == '\u{2d0}',
            25 => rule_sound(i).len() == 2 && rule_sound(i)[0] == 'a' && rule_sound(i)[1] == '\u{28a}',
            26 => rule_sound(i).len() == 2 && rule_sound(i)[0] == '\u{254}' && rule_sound(i)[1] == '\u{26a}',
            27 => rule_sound(i).len() == 2 && rule_sound(i)[0] == '\u{251}' && rule_sound(i)[1] == '\u{2d0}',
            28 => rule_sound(i).len() == 1 && rule_sound(i)[0] == '\u{251}',
            29 => rule_sound(i).len() == 1 && rule_sound(i)[0] == 'i',
            30 => rule_sound(i).len() == 1 && rule_sound(i)[0] == 'u',
            31 => rule_sound(i).len() == 1 && rule_sound(i)[0] == '\u{254}',
            32 => rule_sound(i).len() == 1 && rule_sound(i)[0] == '\u{259}',
            33 => rule_sound(i).len() == 1 && rule_sound(i)[0] == '\u{e6}',
            34 => rule_sound(i).len() == 1 && rule_sound(i)[0] == '\u{252}',
            35 => rule_sound(i).len() == 1 && rule_sound(i)[0] == '\u{28a}',
            36 => rule_sound(i).len() == 1 && rule_sound(i)[0] == '\u{26a}',
            37 => rule_sound(i).len() == 1 && rule_sound(i)[0] == '\u{28c}',
            38 => rule_sound(i).len() == 1 && rule_sound(i)[0] == '\u{25b}',
            39 => rule_sound(i).len() == 2 && rule_sound(i)[0] == 'd' && rule_sound(i)[1] == '\u{292}',
            40 => rule_sound(i).len() == 2 && rule_sound(i)[0] == '\u{14b}' && rule_sound(i)[1] == 'k',
            41 => rule_sound(i).len() == 2 && rule_sound(i)[0] == 'h' && rule_sound(i)[1] == 'w',
            42 => rule_sound(i).len() == 1 && rule_sound(i)[0] == 'b',
            43 => rule_sound(i).len() == 2 && rule_sound(i)[0] == 't' && rule_sound(i)[1] == '\u{283}',
            44 => rule_sound(i).len() == 1 && rule_sound(i)[0] == 'd',
            45 => rule_sound(i).len() == 1 && rule_sound(i)[0] == '\u{f0}',
            46 => rule_sound(i).len() == 1 && rule_sound(i)[0] == 'f',
            47 => rule_sound(i).len() == 1 && rule_sound(i)[0] == '\u{261}',
            48 => rule_sound(i).len() == 1 && rule_sound(i)[0] == 'h',
            49 => rule_sound(i).len() == 1 && rule_sound(i)[0] == 'k',
            50 => rule_sound(i).len() == 1 && rule_sound(i)[0] == 'x',
            51 => rule_sound(i).len() == 1 && rule_sound(i)[0] == 'l',
            52 => rule_sound(i).len() == 1 && rule_sound(i)[0] == '\u{26b}',
            53 => rule_sound(i).len() == 1 && rule_sound(i)[0] == 'm',
            54 => rule_sound(i).len() == 1 && rule_sound(i)[0] == 'n',
            55 => rule_sound(i).len() == 1 && rule_sound(i)[0] == '\u{14b}',
            56 => rule_sound(i).len() == 1 && rule_sound(i)[0] == 'p',
            57 => rule_sound(i).len() == 1 && rule_sound(i)[0] == '\u{279}',
            58 => rule_sound(i).len() == 1 && rule_sound(i)[0] == 'r',
            59 => rule_sound(i).len() == 1 && rule_sound(i)[0] == 's',
            60 => rule_sound(i).len() == 1 && rule_sound(i)[0] == '\u{283}',
            61 => rule_sound(i).len() == 1 && rule_sound(i)[0] == 't',
            62 => rule_sound(i).len() == 1 && rule_sound(i)[0] == '\u{3b8}',
            63 => rule_sound(i).len() == 1 && rule_sound(i)[0] == 'v',
            64 => rule_sound(i).len() == 1 && rule_sound(i)[0] == 'w',
            65 => rule_sound(i).len() == 1 && rule_sound(i)[0] == 'j',
            66 => rule_sound(i).len() == 1 && rule_sound(i)[0] == 'z',
            67 => rule_sound(i).len() == 1 && rule_sound(i)[0] == '\u{292}',
            _ => true,
        },
{
    reveal_strlit("aɪ");
    reveal_strlit("aɪər");
    reveal_strlit("aʊ");
    reveal_strlit("aʊər");
    reveal_strlit("b");
    reveal_strlit("d");
    reveal_strlit("dʒ");
    reveal_strlit("eɪ");
    reveal_strlit("f");
    reveal_strlit("h");
    reveal_strlit("hw");
    reveal_strlit("i");
    reveal_strlit("iː");
    reveal_strlit("j");
    reveal_strlit("juː");
    reveal_strlit("jʊər");
    reveal_strlit("k");
    reveal_strlit("l");
    reveal_strlit("m");
    reveal_strlit("n");
    reveal_strlit("oʊ");
    reveal_strlit("p");
    reveal_strlit("r");
    reveal_strlit("s");
    reveal_strlit("t");
    reveal_strlit("tʃ");
    reveal_strlit("u");
    reveal_strlit("uː");
    reveal_strlit("v");
    reveal_strlit("w");
    reveal_strlit("x");
    reveal_strlit("z");
    reveal_strlit("æ");
    reveal_strlit("ær");
    reveal_strlit("ð");
    reveal_strlit("ŋ");
    reveal_strlit("ŋk");
    reveal_strlit("ɑ");
    reveal_strlit("ɑː");
    reveal_strlit("ɑːr");
    reveal_strlit("ɒ");
    reveal_strlit("ɒr");
    reveal_strlit("ɔ");
    reveal_strlit("ɔɪ");
    reveal_strlit("ɔɪər");
    reveal_strlit("ɔː");
    reveal_strlit("ɔːr");
    reveal_strlit("ə");
    reveal_strlit("ər");
    reveal_strlit("ɛ");
    reveal_strlit("ɛr");
    reveal_strlit("ɛər");
    reveal_strlit("ɜːr");
    reveal_strlit("ɡ");
    reveal_strlit("ɪ");
    reveal_strlit("ɪr");
    reveal_strlit("ɪər");
    reveal_strlit("ɫ");
    reveal_strlit("ɹ");
    reveal_strlit("ʃ");
    reveal_strlit("ʊ");
    reveal_strlit("ʊr");
    reveal_strlit("ʊər");
    reveal_strlit("ʌ");
    reveal_strlit("ʌr");
    reveal_strlit("ʒ");
    reveal_strlit("θ");
}

/// The table is in such an order that no rule reads the start of what a
/// later rule reads, and less than it.
proof fn lemma_table_order(i: usize, j: usize)
    requires
        i < j < RESPELL_RULES,
        rule_sound(i).len() < rule_sound(j).len(),
    ensures
        !rule_sound(i).is_prefix_of(rule_sound(j)),
{
    lemma_rule_chars(i);
    lemma_rule_chars(j);
    let a = rule_sound(i);
    let b = rule_sound(j);
    if a.is_prefix_of(b) {
        assert(a.len() >= 1);
        assert(a[0] == b.subrange(0, a.len() as int)[0]);
        if a.len() >= 2 {
            assert(a[1] == b.subrange(0, a.len() as int)[1]);
        }
        if a.len() >= 3 {
            assert(a[2] == b.subrange(0, a.len() as int)[2]);
        }
    }
}

/// The first rule from `from` on that can read the start of a text is the
/// first indeed: no rule between `from` and it can.
proof fn lemma_first_rule(ipa: Seq<char>, from: usize, j: usize)
    requires
        from <= j < RESPELL_RULES,
        rule_applies(j, ipa),
    ensures
        from <= first_rule_from(ipa, from) <= j,
        rule_applies(first_rule_from(ipa, from), ipa),
    decreases RESPELL_RULES - from,
{
    if !rule_applies(from, ipa) {
        lemma_first_rule(ipa, (from + 1) as usize, j);
    }
}

/// Rules are tried in the order of the table, and the table is in such an
/// order that the rule taken is the one that reads most: where any rule can
/// read the start of a text, no rule reads more of it than the first that
/// can.
pub proof fn lemma_first_rule_reads_most(ipa: Seq<char>, j: usize)
    requires
        rule_applies(j, ipa),
    ensures
        rule_applies(first_rule_from(ipa, 0), ipa),
        rule_sound(j).len() <= rule_sound(first_rule_from(ipa, 0)).len(),
{
    lemma_first_rule(ipa, 0, j);
    let i = first_rule_from(ipa, 0);
    let a = rule_sound(i);
    let b = rule_sound(j);
    if a.len() < b.len() {
        lemma_table_order(i, j);
        assert(a =~= b.subrange(0, a.len() as int)) by {
            assert(a =~= ipa.subrange(0, a.len() as int));
            assert(b =~= ipa.subrange(0, b.len() as int));
        }
    }
}

/// In a well-formed syllable only vowels stand between two vowels.
proof fn lemma_vowels_are_contiguous(s: Seq<Phoneme>, i: int, j: int, a: int, b: int, c: int)
    requires
        divides_at(s, i, j),
        0 <= a < b < c < s.len(),
        s[a].vowel(),
        s[c].vowel(),
    ensures
        s[b].vowel(),
{
    if a < i {
        assert(s.subrange(0, i)[a] == s[a]);
    }
    if c >= j {
        assert(s.subrange(j, s.len() as int)[c - j] == s[c]);
    }
    assert(s.subrange(i, j)[b - i] == s[b]);
}

} // verus!
