//! Words: runs of syllables, and their rendering as text.

use vstd::prelude::*;
use vstd::string::*;
use crate::phoneme::Phoneme;
use crate::syllable::{respell, transcription, Syllable};

verus! {

/// The texts of `parts`, one after another, with `separator` between each
/// two neighbours.
pub open spec fn joined(parts: Seq<Seq<char>>, separator: Seq<char>) -> Seq<char>
    decreases parts.len(),
{
    if parts.len() == 0 {
        Seq::empty()
    } else if parts.len() == 1 {
        parts[0]
    } else {
        joined(parts.drop_last(), separator) + separator + parts.last()
    }
}

/// A run of syllables.
pub struct Word {
    pub syllables: Vec<Syllable>,
}

impl View for Word {
    type V = Seq<Seq<Phoneme>>;

    open spec fn view(&self) -> Seq<Seq<Phoneme>> {
        Seq::new(self.syllables@.len(), |i: int| self.syllables@[i]@)
    }
}

impl Word {
    /// The word of the given syllables.
    pub fn new(syllables: Vec<Syllable>) -> (w: Word)
        ensures
            w.syllables == syllables,
    {
        Word { syllables }
    }

    /// The word without syllables.
    pub fn empty() -> (w: Word)
        ensures
            w@ == Seq::<Seq<Phoneme>>::empty(),
    {
        let w = Word { syllables: Vec::new() };
        assert(w@ =~= Seq::<Seq<Phoneme>>::empty());
        w
    }

    /// Adds a syllable at the end.
    pub fn add_syllable(&mut self, syllable: Syllable)
        ensures
            final(self)@ == old(self)@.push(syllable@),
            final(self).syllables@ == old(self).syllables@.push(syllable),
    {
        self.syllables.push(syllable);
        assert(self@ =~= old(self)@.push(syllable@));
    }

    /// The respellings of the syllables of `syllables`.
    pub open spec fn respellings(syllables: Seq<Seq<Phoneme>>) -> Seq<Seq<char>> {
        Seq::new(syllables.len(), |i: int| respell(transcription(syllables[i])))
    }

    /// The transcriptions of the syllables of `syllables`.
    pub open spec fn transcriptions(syllables: Seq<Seq<Phoneme>>) -> Seq<Seq<char>> {
        Seq::new(syllables.len(), |i: int| transcription(syllables[i]))
    }

    /// The English respelling of the word: those of its syllables, joined by
    /// hyphens. The word without syllables has the empty respelling.
    pub fn to_english(&self) -> (english: String)
        ensures
            english@ == joined(Word::respellings(self@), "-"@),
    {
        let ghost parts = Word::respellings(self@);
        if self.syllables.len() == 0 {
            return String::new();
        }
        let mut res = self.syllables[0].to_english();
        let mut k: usize = 1;
        assert(parts.take(1).len() == 1);
        while k < self.syllables.len()
            invariant
                1 <= k <= self.syllables.len(),
                parts == Word::respellings(self@),
                res@ == joined(parts.take(k as int), "-"@),
            decreases self.syllables.len() - k,
        {
            let part = self.syllables[k].to_english();
            res.append("-");
            res.append(part.as_str());
            proof {
                assert(parts.take(k + 1).drop_last() =~= parts.take(k as int));
                assert(parts.take(k + 1).last() == part@);
            }
            k += 1;
        }
        assert(parts.take(k as int) =~= parts);
        res
    }

    /// The transcription of the word: those of its syllables, joined by
    /// spaces. The word without syllables has the empty transcription.
    pub fn to_ipa(&self) -> (ipa: String)
        ensures
            ipa@ == joined(Word::transcriptions(self@), " "@),
    {
        let ghost parts = Word::transcriptions(self@);
        if self.syllables.len() == 0 {
            return String::new();
        }
        let mut res = self.syllables[0].to_ipa();
        let mut k: usize = 1;
        assert(parts.take(1).len() == 1);
        while k < self.syllables.len()
            invariant
                1 <= k <= self.syllables.len(),
                parts == Word::transcriptions(self@),
                res@ == joined(parts.take(k as int), " "@),
            decreases self.syllables.len() - k,
        {
            let part = self.syllables[k].to_ipa();
            res.append(" ");
            res.append(part.as_str());
            proof {
                assert(parts.take(k + 1).drop_last() =~= parts.take(k as int));
                assert(parts.take(k + 1).last() == part@);
            }
            k += 1;
        }
        assert(parts.take(k as int) =~= parts);
        res
    }

    /// The word as it is shown: its respelling, then its transcription in
    /// round brackets.
    pub fn describe(&self) -> (text: String)
        ensures
            text@ == joined(Word::respellings(self@), "-"@) + " ("@ + joined(
                Word::transcriptions(self@),
                " "@,
            ) + ")"@,
    {
        let mut res = self.to_english();
        let ipa = self.to_ipa();
        res.append(" (");
        res.append(ipa.as_str());
        res.append(")");
        res
    }
}

} // verus!
