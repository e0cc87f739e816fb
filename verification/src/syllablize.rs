//! The corpus: the words of a pronouncing dictionary, each as its syllables,
//! the most frequent words first.

use vstd::prelude::*;
use vstd::string::*;
use crate::phoneme::Phoneme;
use crate::syllable::{read_tokens_by, token_pattern, ArpabetError, ArpabetFault, Syllable};
use crate::text::{
    chars_of, find_gap, gap_at, is_match, lemma_pieces_not_empty, lowercased, pieces,
    regex_is_match, split, string_of, texts_of, to_lowercase, trim, trimmed,
};

verus! {

/// The sounds of a corpus: for each word, for each of its syllables, the
/// phonemes.
pub type CorpusSounds = Seq<Seq<Seq<Phoneme>>>;

/// A corpus as a mathematical object: each word's spelling with the
/// phonemes of each of its syllables.
pub type CorpusModel = Seq<(Seq<char>, Seq<Seq<Phoneme>>)>;

/// How many words of the frequency list are considered.
pub const FREQUENT_WORDS: usize = 60000;

/// The phonemes of each of some syllables.
pub open spec fn syllables_view(syllables: Seq<Syllable>) -> Seq<Seq<Phoneme>> {
    Seq::new(syllables.len(), |k: int| syllables[k]@)
}

/// The entries of a dictionary as a mathematical object.
pub open spec fn entries_view(entries: Seq<(String, Vec<Syllable>)>) -> CorpusModel {
    Seq::new(entries.len(), |i: int| (entries[i].0@, syllables_view(entries[i].1@)))
}

/// Why a line of the dictionary cannot be read.
pub enum LineError {
    /// The line has no two spaces in a row between the word and its sounds.
    MissingSeparator,
    /// A pattern of the dictionary's grammar was not accepted.
    Pattern,
    /// A token holds letters that are no symbol of the inventory.
    UnknownPhoneme(String),
}

/// Why a line of the dictionary cannot be read, as a mathematical object.
pub enum LineFault {
    MissingSeparator,
    Pattern,
    UnknownPhoneme(Seq<char>),
}

impl View for LineError {
    type V = LineFault;

    open spec fn view(&self) -> LineFault {
        match self {
            LineError::MissingSeparator => LineFault::MissingSeparator,
            LineError::Pattern => LineFault::Pattern,
            LineError::UnknownPhoneme(letters) => LineFault::UnknownPhoneme(letters@),
        }
    }
}

/// The fault of a line whose sounds cannot be read.
pub open spec fn line_fault(fault: ArpabetFault) -> LineFault {
    match fault {
        ArpabetFault::Pattern => LineFault::Pattern,
        ArpabetFault::UnknownPhoneme(letters) => LineFault::UnknownPhoneme(letters),
    }
}

/// What a line of the dictionary holds.
pub enum LineReading {
    /// A comment, a blank line, or another pronunciation of a word.
    Skipped,
    /// A word, in lower case, with the phonemes of each of its syllables.
    Entry(Seq<char>, Seq<Seq<Phoneme>>),
    /// A line that cannot be read.
    Fault(LineFault),
}

/// The pattern of a word that names another pronunciation: it ends with a
/// number in round brackets.
pub open spec fn variant_pattern() -> Seq<char> {
    ".*\\(\\d+\\)$"@
}

/// The syllables that texts of tokens hold, read from left to right. The
/// first text that cannot be read is a fault.
pub open spec fn read_syllables_by(pattern: Seq<char>, texts: Seq<Seq<char>>) -> Result<
    Seq<Seq<Phoneme>>,
    ArpabetFault,
>
    decreases texts.len(),
{
    if texts.len() == 0 {
        Ok(Seq::empty())
    } else {
        match read_syllables_by(pattern, texts.drop_last()) {
            Err(fault) => Err(fault),
            Ok(syllables) => match read_tokens_by(pattern, pieces(texts.last(), ' ')) {
                Err(fault) => Err(fault),
                Ok(phonemes) => Ok(syllables.push(phonemes)),
            },
        }
    }
}

/// Where the first two spaces in a row stand in a text, if there are any.
pub open spec fn first_gap(text: Seq<char>) -> Option<int> {
    if exists|i: int| gap_at(text, i) {
        Some(choose|i: int| gap_at(text, i) && forall|j: int| 0 <= j < i ==> !gap_at(text, j))
    } else {
        None
    }
}

/// What a line of a dictionary holds. A line that begins with `#` is a
/// comment, and a line of white space is blank. On any other line the word
/// stands before the first two spaces in a row and its sounds after them,
/// the syllables parted by full stops. A word that fits `variant` names
/// another pronunciation and is passed over. `token` tells the letters of a
/// token from what follows them.
pub open spec fn read_line_by(variant: Seq<char>, token: Seq<char>, line: Seq<char>) -> LineReading {
    if line.len() > 0 && line[0] == '#' {
        LineReading::Skipped
    } else if trimmed(line).len() == 0 {
        LineReading::Skipped
    } else {
        match first_gap(line) {
            None => LineReading::Fault(LineFault::MissingSeparator),
            Some(at) => {
                let word = line.subrange(0, at);
                let sounds = line.subrange(at + 2, line.len() as int);
                match regex_is_match(variant, word) {
                    None => LineReading::Fault(LineFault::Pattern),
                    Some(true) => LineReading::Skipped,
                    Some(false) => match read_syllables_by(token, pieces(sounds, '.')) {
                        Err(fault) => LineReading::Fault(line_fault(fault)),
                        Ok(syllables) => LineReading::Entry(lowercased(word), syllables),
                    },
                }
            },
        }
    }
}

/// What a line of the pronouncing dictionary holds: another pronunciation
/// is named by a number in round brackets at the end of the word, and a
/// token is a dictionary symbol with or without stress digits after it.
pub open spec fn read_line(line: Seq<char>) -> LineReading {
    read_line_by(variant_pattern(), token_pattern(), line)
}

/// A fault in the first texts is the fault of all the texts.
proof fn lemma_syllable_fault_stays(pattern: Seq<char>, texts: Seq<Seq<char>>, n: int)
    requires
        0 <= n <= texts.len(),
        read_syllables_by(pattern, texts.take(n)) is Err,
    ensures
        read_syllables_by(pattern, texts) == read_syllables_by(pattern, texts.take(n)),
    decreases texts.len(),
{
    if n < texts.len() {
        assert(texts.drop_last().take(n) =~= texts.take(n));
        lemma_syllable_fault_stays(pattern, texts.drop_last(), n);
    } else {
        assert(texts.take(n) =~= texts);
    }
}

/// Reads the syllables of a word from their texts.
fn parse_syllables(pattern: &str, texts: &Vec<String>) -> (read: Result<
    Vec<Syllable>,
    ArpabetError,
>)
    ensures
        match read {
            Ok(syllables) => read_syllables_by(pattern@, texts_of(texts@)) == Ok::<
                Seq<Seq<Phoneme>>,
                ArpabetFault,
            >(syllables_view(syllables@)),
            Err(error) => read_syllables_by(pattern@, texts_of(texts@)) == Err::<
                Seq<Seq<Phoneme>>,
                ArpabetFault,
            >(error@),
        },
{
    let ghost all = texts_of(texts@);
    let mut syllables: Vec<Syllable> = Vec::new();
    let mut k: usize = 0;
    assert(all.take(0) =~= Seq::<Seq<char>>::empty());
    assert(syllables_view(syllables@) =~= Seq::<Seq<Phoneme>>::empty());
    while k < texts.len()
        invariant
            k <= texts.len(),
            all == texts_of(texts@),
            read_syllables_by(pattern@, all.take(k as int)) == Ok::<
                Seq<Seq<Phoneme>>,
                ArpabetFault,
            >(syllables_view(syllables@)),
        decreases texts.len() - k,
    {
        let ghost next = all.take(k + 1);
        let ghost before = syllables_view(syllables@);
        proof {
            assert(next.drop_last() =~= all.take(k as int));
            assert(next.last() == texts@[k as int]@);
        }
        match Syllable::from_arpabet_by(pattern, texts[k].as_str()) {
            Ok(syllable) => {
                syllables.push(syllable);
                assert(syllables_view(syllables@) =~= before.push(syllable@));
            },
            Err(error) => {
                proof {
                    assert(read_syllables_by(pattern@, next) == Err::<
                        Seq<Seq<Phoneme>>,
                        ArpabetFault,
                    >(error@));
                    lemma_syllable_fault_stays(pattern@, all, k + 1);
                }
                return Err(error);
            },
        }
        k += 1;
    }
    assert(all.take(k as int) =~= all);
    Ok(syllables)
}

/// Reads one line of a dictionary. `Ok(None)` is a line that is passed
/// over.
pub fn parse_line_by(variant: &str, token: &str, line: &str) -> (read: Result<
    Option<(String, Vec<Syllable>)>,
    LineError,
>)
    ensures
        match read {
            Ok(None) => read_line_by(variant@, token@, line@) == LineReading::Skipped,
            Ok(Some(entry)) => read_line_by(variant@, token@, line@) == LineReading::Entry(
                entry.0@,
                syllables_view(entry.1@),
            ),
            Err(error) => read_line_by(variant@, token@, line@) == LineReading::Fault(error@),
        },
{
    let text = chars_of(line);
    if text.len() > 0 && text[0] == '#' {
        return Ok(None);
    }
    if trim(line).unicode_len() == 0 {
        return Ok(None);
    }
    let at = match find_gap(&text) {
        None => {
            return Err(LineError::MissingSeparator);
        },
        Some(at) => at,
    };
    proof {
        let chosen = choose|i: int|
            gap_at(text@, i) && forall|j: int| 0 <= j < i ==> !gap_at(text@, j);
        assert(gap_at(text@, at as int));
        assert(chosen == at);
    }
    let word = string_of(&text, 0, at);
    let sounds = string_of(&text, at + 2, text.len());
    match is_match(variant, word.as_str()) {
        Err(_) => Err(LineError::Pattern),
        Ok(true) => Ok(None),
        Ok(false) => {
            let sound_text = chars_of(sounds.as_str());
            let parts = split(&sound_text, '.');
            match parse_syllables(token, &parts) {
                Err(ArpabetError::Pattern) => Err(LineError::Pattern),
                Err(ArpabetError::UnknownPhoneme(letters)) => Err(
                    LineError::UnknownPhoneme(letters),
                ),
                Ok(syllables) => Ok(Some((to_lowercase(word.as_str()), syllables))),
            }
        },
    }
}

/// Reads one line of the pronouncing dictionary. `Ok(None)` is a line that
/// is passed over.
pub fn parse_line(line: &str) -> (read: Result<Option<(String, Vec<Syllable>)>, LineError>)
    ensures
        match read {
            Ok(None) => read_line(line@) == LineReading::Skipped,
            Ok(Some(entry)) => read_line(line@) == LineReading::Entry(
                entry.0@,
                syllables_view(entry.1@),
            ),
            Err(error) => read_line(line@) == LineReading::Fault(error@),
        },
{
    parse_line_by(".*\\(\\d+\\)$", "^([A-Z]+)\\d*$", line)
}

/// The entries that the lines of a dictionary hold, in the order of the
/// lines. The first line that cannot be read is a fault.
pub open spec fn read_lines(lines: Seq<Seq<char>>) -> Result<CorpusModel, LineFault>
    decreases lines.len(),
{
    if lines.len() == 0 {
        Ok(Seq::empty())
    } else {
        match read_lines(lines.drop_last()) {
            Err(fault) => Err(fault),
            Ok(entries) => match read_line(lines.last()) {
                LineReading::Skipped => Ok(entries),
                LineReading::Entry(word, syllables) => Ok(entries.push((word, syllables))),
                LineReading::Fault(fault) => Err(fault),
            },
        }
    }
}

/// A fault in the first lines is the fault of all the lines.
proof fn lemma_line_fault_stays(lines: Seq<Seq<char>>, n: int)
    requires
        0 <= n <= lines.len(),
        read_lines(lines.take(n)) is Err,
    ensures
        read_lines(lines) == read_lines(lines.take(n)),
    decreases lines.len(),
{
    if n < lines.len() {
        assert(lines.drop_last().take(n) =~= lines.take(n));
        lemma_line_fault_stays(lines.drop_last(), n);
    } else {
        assert(lines.take(n) =~= lines);
    }
}

/// The first field of each line, where tabs part the fields.
pub open spec fn first_fields(lines: Seq<Seq<char>>) -> Seq<Seq<char>> {
    Seq::new(lines.len(), |i: int| pieces(lines[i], '\t')[0])
}

/// The words of a frequency list that are considered: the first field of
/// each of its lines, and no more than the first `FREQUENT_WORDS` of them.
pub open spec fn frequent(contents: Seq<char>) -> Seq<Seq<char>> {
    let all = first_fields(pieces(contents, '\n'));
    if all.len() > FREQUENT_WORDS {
        all.take(FREQUENT_WORDS as int)
    } else {
        all
    }
}

/// The words of a frequency list that are considered, the most frequent
/// first.
pub fn frequency_words(contents: &str) -> (words: Vec<String>)
    ensures
        texts_of(words@) == frequent(contents@),
{
    let text = chars_of(contents);
    let lines = split(&text, '\n');
    let ghost all = first_fields(pieces(contents@, '\n'));
    let n: usize = if lines.len() > FREQUENT_WORDS {
        FREQUENT_WORDS
    } else {
        lines.len()
    };
    let mut words: Vec<String> = Vec::new();
    let mut k: usize = 0;
    while k < n
        invariant
            k <= n <= lines.len(),
            texts_of(lines@) == pieces(contents@, '\n'),
            all == first_fields(pieces(contents@, '\n')),
            all.len() == lines@.len(),
            texts_of(words@) == all.take(k as int),
        decreases n - k,
    {
        let line = chars_of(lines[k].as_str());
        let fields = split(&line, '\t');
        proof {
            lemma_pieces_not_empty(line@, '\t');
            assert(texts_of(lines@)[k as int] == lines@[k as int]@);
            assert(texts_of(fields@)[0] == fields@[0]@);
        }
        let word = fields[0].clone();
        let ghost before = texts_of(words@);
        assert(word@ == all[k as int]);
        words.push(word);
        k += 1;
        assert(texts_of(words@) =~= before.push(all[k - 1]));
        assert(texts_of(words@) =~= all.take(k as int));
    }
    assert(all.take(all.len() as int) =~= all);
    words
}

/// The last entry that holds `word`, if any entry does: the one that counts
/// when a dictionary names a word more than once.
pub open spec fn last_entry_of(entries: CorpusModel, word: Seq<char>) -> Option<int>
    decreases entries.len(),
{
    if entries.len() == 0 {
        None
    } else if entries.last().0 == word {
        Some(entries.len() - 1)
    } else {
        last_entry_of(entries.drop_last(), word)
    }
}

/// The last entry of a word holds the word, and no later entry does.
pub proof fn lemma_last_entry(entries: CorpusModel, word: Seq<char>)
    ensures
        match last_entry_of(entries, word) {
            Some(i) => 0 <= i < entries.len() && entries[i].0 == word && forall|j: int|
                i < j < entries.len() ==> (#[trigger] entries[j]).0 != word,
            None => forall|j: int| 0 <= j < entries.len() ==> (#[trigger] entries[j]).0 != word,
        },
    decreases entries.len(),
{
    if entries.len() > 0 && entries.last().0 != word {
        lemma_last_entry(entries.drop_last(), word);
        assert forall|j: int| 0 <= j < entries.len() - 1 implies entries[j]
            == entries.drop_last()[j] by {}
    }
}

/// The entries of the frequent words, as positions among the entries: for
/// each word of the list, in the order of the list, its last entry, where it
/// has one that an earlier word of the list has not taken.
pub open spec fn ranked(frequent: Seq<Seq<char>>, entries: CorpusModel) -> Seq<int>
    decreases frequent.len(),
{
    if frequent.len() == 0 {
        Seq::empty()
    } else {
        let before = ranked(frequent.drop_last(), entries);
        match last_entry_of(entries, frequent.last()) {
            Some(i) => if before.contains(i) {
                before
            } else {
                before.push(i)
            },
            None => before,
        }
    }
}

/// The entries of the other words, as positions among the first `n`
/// entries: each entry that is the last of its word and is not among
/// `taken`, in the order of the entries.
pub open spec fn unranked(taken: Seq<int>, entries: CorpusModel, n: int) -> Seq<int>
    decreases n,
{
    if n <= 0 {
        Seq::empty()
    } else {
        let before = unranked(taken, entries, n - 1);
        if last_entry_of(entries, entries[n - 1].0) == Some(n - 1) && !taken.contains(n - 1) {
            before.push(n - 1)
        } else {
            before
        }
    }
}

/// The entries at the given positions.
pub open spec fn entries_at(entries: CorpusModel, positions: Seq<int>) -> CorpusModel {
    Seq::new(positions.len(), |k: int| entries[positions[k]])
}

/// The corpus of a dictionary. Of the entries of one word, the last counts.
/// The frequent words come first, in the order of the frequency list, then
/// the other words, in the order of the dictionary.
pub open spec fn ordered(frequent: Seq<Seq<char>>, entries: CorpusModel) -> CorpusModel {
    let first = ranked(frequent, entries);
    entries_at(entries, first + unranked(first, entries, entries.len() as int))
}

/// Whether entry `i` is the last entry of its word.
pub open spec fn counts(entries: CorpusModel, i: int) -> bool {
    0 <= i < entries.len() && last_entry_of(entries, entries[i].0) == Some(i)
}

/// The entries of the frequent words are entries that count, each taken
/// once.
proof fn lemma_ranked(frequent: Seq<Seq<char>>, entries: CorpusModel)
    ensures
        forall|k: int|
            0 <= k < ranked(frequent, entries).len() ==> counts(
                entries,
                #[trigger] ranked(frequent, entries)[k],
            ),
        ranked(frequent, entries).no_duplicates(),
    decreases frequent.len(),
{
    if frequent.len() > 0 {
        let before = ranked(frequent.drop_last(), entries);
        lemma_ranked(frequent.drop_last(), entries);
        lemma_last_entry(entries, frequent.last());
        let now = ranked(frequent, entries);
        if let Some(i) = last_entry_of(entries, frequent.last()) {
            assert(entries[i].0 == frequent.last());
        }
        assert forall|k: int| 0 <= k < now.len() implies counts(entries, #[trigger] now[k]) by {
            if k < before.len() {
                assert(now[k] == before[k]);
            }
        }
    }
}

/// The entries of the other words are the entries among the first `n` that
/// count and are not taken, each once, in rising order.
proof fn lemma_unranked(taken: Seq<int>, entries: CorpusModel, n: int)
    requires
        n <= entries.len(),
    ensures
        forall|k: int|
            0 <= k < unranked(taken, entries, n).len() ==> {
                let i = #[trigger] unranked(taken, entries, n)[k];
                counts(entries, i) && i < n && !taken.contains(i)
            },
        forall|i: int|
            0 <= i < n && counts(entries, i) && !taken.contains(i) ==> unranked(
                taken,
                entries,
                n,
            ).contains(i),
        unranked(taken, entries, n).no_duplicates(),
    decreases n,
{
    if n > 0 {
        let before = unranked(taken, entries, n - 1);
        let now = unranked(taken, entries, n);
        lemma_unranked(taken, entries, n - 1);
        assert forall|k: int| 0 <= k < now.len() implies {
            let i = #[trigger] now[k];
            counts(entries, i) && i < n && !taken.contains(i)
        } by {
            if k < before.len() {
                assert(now[k] == before[k]);
            }
        }
        assert forall|i: int|
            0 <= i < n && counts(entries, i) && !taken.contains(i) implies now.contains(i) by {
            if i < n - 1 {
                assert(before.contains(i));
                let at = choose|at: int| 0 <= at < before.len() && before[at] == i;
                assert(now[at] == i);
            } else {
                assert(now[now.len() - 1] == i);
            }
        }
        assert forall|a: int, b: int| 0 <= a < now.len() && 0 <= b < now.len() && a != b implies now[a]
            != now[b] by {
            if a < before.len() && b < before.len() {
                assert(now[a] == before[a] && now[b] == before[b]);
            } else if a < before.len() {
                assert(now[a] == before[a]);
            } else if b < before.len() {
                assert(now[b] == before[b]);
            }
        }
    }
}

/// Whether `entry` is the last entry of its word.
pub open spec fn is_last_entry(
    entries: CorpusModel,
    entry: (Seq<char>, Seq<Seq<Phoneme>>),
) -> bool {
    exists|i: int| #[trigger] counts(entries, i) && entries[i] == entry
}

/// Whether a corpus holds `word`.
pub open spec fn holds_word(corpus: CorpusModel, word: Seq<char>) -> bool {
    exists|a: int| 0 <= a < corpus.len() && (#[trigger] corpus[a]).0 == word
}

/// No word stands twice in the corpus of a dictionary; every word of the
/// dictionary stands in it; and what stands in it is the last entry of a
/// word of the dictionary.
pub proof fn lemma_ordered_has_each_word_once(frequent: Seq<Seq<char>>, entries: CorpusModel)
    ensures
        forall|a: int, b: int|
            0 <= a < b < ordered(frequent, entries).len() ==> (#[trigger] ordered(
                frequent,
                entries,
            )[a]).0 != (#[trigger] ordered(frequent, entries)[b]).0,
        forall|i: int|
            0 <= i < entries.len() ==> holds_word(
                ordered(frequent, entries),
                (#[trigger] entries[i]).0,
            ),
        forall|a: int|
            0 <= a < ordered(frequent, entries).len() ==> is_last_entry(
                entries,
                #[trigger] ordered(frequent, entries)[a],
            ),
{
    let first = ranked(frequent, entries);
    let rest = unranked(first, entries, entries.len() as int);
    let all = first + rest;
    let corpus = ordered(frequent, entries);
    lemma_ranked(frequent, entries);
    lemma_unranked(first, entries, entries.len() as int);
    assert forall|k: int| 0 <= k < all.len() implies counts(entries, #[trigger] all[k]) by {
        if k < first.len() {
            assert(all[k] == first[k]);
        } else {
            assert(all[k] == rest[k - first.len()]);
        }
    }
    assert forall|a: int, b: int| 0 <= a < b < all.len() implies all[a] != all[b] by {
        if b < first.len() {
            assert(all[a] == first[a] && all[b] == first[b]);
        } else if a >= first.len() {
            assert(all[a] == rest[a - first.len()] && all[b] == rest[b - first.len()]);
        } else {
            assert(all[a] == first[a] && all[b] == rest[b - first.len()]);
            assert(first.contains(all[a]));
        }
    }
    assert forall|a: int, b: int| 0 <= a < b < corpus.len() implies (#[trigger] corpus[a]).0 != (
    #[trigger] corpus[b]).0 by {
        assert(counts(entries, all[a]) && counts(entries, all[b]));
        assert(all[a] != all[b]);
    }
    assert forall|i: int| 0 <= i < entries.len() implies holds_word(
        corpus,
        (#[trigger] entries[i]).0,
    ) by {
        lemma_last_entry(entries, entries[i].0);
        let last = last_entry_of(entries, entries[i].0)->Some_0;
        assert(entries[last].0 == entries[i].0);
        assert(counts(entries, last));
        if first.contains(last) {
            let a = choose|a: int| 0 <= a < first.len() && first[a] == last;
            assert(all[a] == last);
            assert(corpus[a] == entries[last]);
        } else {
            assert(rest.contains(last));
            let r = choose|r: int| 0 <= r < rest.len() && rest[r] == last;
            let a = first.len() + r;
            assert(all[a] == last);
            assert(corpus[a] == entries[last]);
        }
    }
    assert forall|a: int| 0 <= a < corpus.len() implies is_last_entry(
        entries,
        #[trigger] corpus[a],
    ) by {
        assert(counts(entries, all[a]) && corpus[a] == entries[all[a]]);
    }
}

/// A number for each text: equal texts have equal numbers.
pub open spec fn hash_of(text: Seq<char>) -> nat
    decreases text.len(),
{
    if text.len() == 0 {
        0
    } else {
        (hash_of(text.drop_last()) * 31 + text.last() as u32) as nat % 1000000007
    }
}

/// The number of a text.
fn hash(text: &str) -> (h: u64)
    ensures
        h == hash_of(text@),
        h < 1000000007,
{
    let chars = chars_of(text);
    let mut h: u64 = 0;
    let mut k: usize = 0;
    assert(chars@.take(0) =~= Seq::<char>::empty());
    while k < chars.len()
        invariant
            k <= chars.len(),
            h == hash_of(chars@.take(k as int)),
            h < 1000000007,
        decreases chars.len() - k,
    {
        proof {
            assert(chars@.take(k + 1).drop_last() =~= chars@.take(k as int));
        }
        h = (h * 31 + chars[k] as u32 as u64) % 1000000007;
        k += 1;
    }
    assert(chars@.take(k as int) =~= chars@);
    h
}

/// Whether `p`, a position plus one or else zero, names the last of the
/// first `n` entries whose word falls into `slot`.
pub open spec fn names_last(entries: CorpusModel, slots: nat, slot: int, p: int, n: int) -> bool {
    &&& 0 <= p <= n
    &&& p > 0 ==> hash_of(entries[p - 1].0) % slots == slot
    &&& forall|j: int| p <= j < n ==> hash_of((#[trigger] entries[j]).0) % slots != slot
}

/// An index of the entries of a dictionary by word.
struct WordIndex {
    /// For each slot, the last entry whose word falls into it.
    heads: Vec<usize>,
    /// For each entry, the entry before it whose word falls into the same
    /// slot.
    links: Vec<usize>,
}

impl WordIndex {
    spec fn indexes(&self, entries: CorpusModel) -> bool {
        &&& self.heads@.len() > 0
        &&& self.links@.len() == entries.len()
        &&& forall|slot: int|
            0 <= slot < self.heads@.len() ==> names_last(
                entries,
                self.heads@.len(),
                slot,
                #[trigger] self.heads@[slot] as int,
                entries.len() as int,
            )
        &&& forall|i: int|
            0 <= i < entries.len() ==> names_last(
                entries,
                self.heads@.len(),
                (hash_of(entries[i].0) % self.heads@.len()) as int,
                #[trigger] self.links@[i] as int,
                i,
            )
    }

    fn build(entries: &Vec<(String, Vec<Syllable>)>) -> (index: WordIndex)
        ensures
            index.indexes(entries_view(entries@)),
    {
        let ghost all = entries_view(entries@);
        let slots: usize = if entries.len() == 0 {
            1
        } else {
            entries.len()
        };
        let mut heads: Vec<usize> = Vec::new();
        let mut k: usize = 0;
        while k < slots
            invariant
                k <= slots,
                heads@.len() == k,
                forall|slot: int| 0 <= slot < k ==> heads@[slot] == 0,
            decreases slots - k,
        {
            heads.push(0);
            k += 1;
        }
        let mut links: Vec<usize> = Vec::new();
        let mut i: usize = 0;
        while i < entries.len()
            invariant
                i <= entries.len(),
                all == entries_view(entries@),
                heads@.len() == slots,
                slots > 0,
                links@.len() == i,
                forall|slot: int|
                    0 <= slot < slots ==> names_last(
                        all,
                        slots as nat,
                        slot,
                        #[trigger] heads@[slot] as int,
                        i as int,
                    ),
                forall|e: int|
                    0 <= e < i ==> names_last(
                        all,
                        slots as nat,
                        (hash_of(all[e].0) % (slots as nat)) as int,
                        #[trigger] links@[e] as int,
                        e,
                    ),
            decreases entries.len() - i,
        {
            let slot = (hash(entries[i].0.as_str()) % (slots as u64)) as usize;
            let ghost old_heads = heads@;
            let ghost old_links = links@;
            assert(all[i as int].0 == entries@[i as int].0@);
            links.push(heads[slot]);
            heads.set(slot, i + 1);
            proof {
                assert forall|other: int| 0 <= other < slots implies names_last(
                    all,
                    slots as nat,
                    other,
                    #[trigger] heads@[other] as int,
                    i + 1,
                ) by {
                    if other != slot {
                        assert(names_last(
                            all,
                            slots as nat,
                            other,
                            old_heads[other] as int,
                            i as int,
                        ));
                    }
                }
                assert forall|e: int| 0 <= e < i + 1 implies names_last(
                    all,
                    slots as nat,
                    (hash_of(all[e].0) % (slots as nat)) as int,
                    #[trigger] links@[e] as int,
                    e,
                ) by {
                    if e < i {
                        assert(links@[e] == old_links[e]);
                    } else {
                        assert(names_last(
                            all,
                            slots as nat,
                            slot as int,
                            old_heads[slot as int] as int,
                            i as int,
                        ));
                    }
                }
            }
            i += 1;
        }
        WordIndex { heads, links }
    }

    /// The last entry that holds `word`, if any entry does.
    fn find(&self, entries: &Vec<(String, Vec<Syllable>)>, word: &String) -> (found: Option<usize>)
        requires
            self.indexes(entries_view(entries@)),
        ensures
            match found {
                Some(i) => i < entries.len() && last_entry_of(entries_view(entries@), word@)
                    == Some(i as int),
                None => last_entry_of(entries_view(entries@), word@) is None,
            },
    {
        let ghost all = entries_view(entries@);
        let slots: usize = self.heads.len();
        let slot = (hash(word.as_str()) % (slots as u64)) as usize;
        let mut cur: usize = self.heads[slot];
        assert(names_last(all, slots as nat, slot as int, cur as int, all.len() as int));
        while cur > 0
            invariant
                self.indexes(all),
                all == entries_view(entries@),
                slots == self.heads@.len(),
                slot == hash_of(word@) % (slots as nat),
                cur <= all.len(),
                cur > 0 ==> hash_of(all[cur - 1].0) % (slots as nat) == slot,
                forall|j: int| cur <= j < all.len() ==> (#[trigger] all[j]).0 != word@,
            decreases cur,
        {
            let i: usize = cur - 1;
            assert(all[i as int].0 == entries@[i as int].0@);
            if entries[i].0 == *word {
                proof {
                    lemma_last_entry(all, word@);
                    if let Some(last) = last_entry_of(all, word@) {
                        assert(all[last].0 == word@);
                        assert(all[i as int].0 == word@);
                    }
                }
                return Some(i);
            }
            proof {
                let before = self.links@[i as int] as int;
                assert(names_last(all, slots as nat, slot as int, before, i as int));
                assert forall|j: int| before <= j < all.len() implies (#[trigger] all[j]).0
                    != word@ by {
                    if j < i {
                        assert(hash_of(all[j].0) % (slots as nat) != slot);
                    }
                }
            }
            cur = self.links[i];
        }
        proof {
            lemma_last_entry(all, word@);
            if let Some(last) = last_entry_of(all, word@) {
                assert(all[last].0 == word@);
            }
        }
        None
    }
}

/// A copy of syllables.
fn clone_syllables(syllables: &Vec<Syllable>) -> (copy: Vec<Syllable>)
    ensures
        syllables_view(copy@) == syllables_view(syllables@),
{
    let mut copy: Vec<Syllable> = Vec::new();
    let mut k: usize = 0;
    while k < syllables.len()
        invariant
            k <= syllables.len(),
            copy@.len() == k,
            forall|i: int| 0 <= i < k ==> copy@[i]@ == syllables@[i]@,
        decreases syllables.len() - k,
    {
        copy.push(syllables[k].clone());
        k += 1;
    }
    assert(syllables_view(copy@) =~= syllables_view(syllables@));
    copy
}

/// The words of a pronouncing dictionary with their syllables, the most
/// frequent words first.
pub struct SyllablizedPhonemes {
    pub words: Vec<(String, Vec<Syllable>)>,
}

impl View for SyllablizedPhonemes {
    type V = CorpusModel;

    open spec fn view(&self) -> CorpusModel {
        entries_view(self.words@)
    }
}

impl SyllablizedPhonemes {
    /// The sounds of the corpus, without the spellings of the words.
    pub open spec fn sounds(&self) -> CorpusSounds {
        Seq::new(
            self.words@.len(),
            |w: int| Seq::new(self.words@[w].1@.len(), |k: int| self.words@[w].1@[k]@),
        )
    }

    /// The corpus of a dictionary: its entries, in the order of the lines,
    /// put in the order of the frequency list.
    pub fn assemble(word_freqs: &Vec<String>, entries: &Vec<(String, Vec<Syllable>)>) -> (corpus:
        Self)
        ensures
            corpus@ == ordered(texts_of(word_freqs@), entries_view(entries@)),
    {
        let ghost all = entries_view(entries@);
        let ghost frequent = texts_of(word_freqs@);
        let index = WordIndex::build(entries);
        let mut taken: Vec<bool> = Vec::new();
        let mut k: usize = 0;
        while k < entries.len()
            invariant
                k <= entries.len(),
                taken@.len() == k,
                forall|i: int| 0 <= i < k ==> !taken@[i],
            decreases entries.len() - k,
        {
            taken.push(false);
            k += 1;
        }
        let mut words: Vec<(String, Vec<Syllable>)> = Vec::new();
        let ghost mut first: Seq<int> = Seq::empty();
        let mut f: usize = 0;
        assert(frequent.take(0) =~= Seq::<Seq<char>>::empty());
        assert(entries_view(words@) =~= entries_at(all, first));
        while f < word_freqs.len()
            invariant
                f <= word_freqs.len(),
                all == entries_view(entries@),
                frequent == texts_of(word_freqs@),
                index.indexes(all),
                taken@.len() == entries.len(),
                first == ranked(frequent.take(f as int), all),
                forall|i: int| 0 <= i < taken@.len() ==> (taken@[i] <==> first.contains(i)),
                forall|k: int| 0 <= k < first.len() ==> 0 <= #[trigger] first[k] < all.len(),
                entries_view(words@) == entries_at(all, first),
            decreases word_freqs.len() - f,
        {
            proof {
                assert(frequent.take(f + 1).drop_last() =~= frequent.take(f as int));
                assert(frequent.take(f + 1).last() == word_freqs@[f as int]@);
            }
            match index.find(entries, &word_freqs[f]) {
                Some(i) => {
                    if !taken[i] {
                        let ghost before = entries_view(words@);
                        let ghost old_first = first;
                        words.push((entries[i].0.clone(), clone_syllables(&entries[i].1)));
                        taken.set(i, true);
                        proof {
                            first = first.push(i as int);
                            assert(entries_view(words@) =~= before.push(all[i as int]));
                            assert(entries_view(words@) =~= entries_at(all, first));
                            assert forall|e: int| 0 <= e < taken@.len() implies (taken@[e]
                                <==> first.contains(e)) by {
                                if e == i {
                                    assert(first[first.len() - 1] == e);
                                } else {
                                    if old_first.contains(e) {
                                        let at = choose|at: int|
                                            0 <= at < old_first.len() && old_first[at] == e;
                                        assert(first[at] == e);
                                    }
                                    if first.contains(e) {
                                        let at = choose|at: int|
                                            0 <= at < first.len() && first[at] == e;
                                        assert(old_first[at] == e);
                                    }
                                }
                            }
                        }
                    }
                },
                None => {},
            }
            f += 1;
        }
        assert(frequent.take(f as int) =~= frequent);
        let ghost rest_start = words@.len();
        let ghost mut rest: Seq<int> = Seq::empty();
        let mut e: usize = 0;
        while e < entries.len()
            invariant
                e <= entries.len(),
                all == entries_view(entries@),
                index.indexes(all),
                taken@.len() == entries.len(),
                first == ranked(frequent, all),
                forall|i: int| 0 <= i < taken@.len() ==> (taken@[i] <==> first.contains(i)),
                rest == unranked(first, all, e as int),
                entries_view(words@) == entries_at(all, first + rest),
            decreases entries.len() - e,
        {
            assert(all[e as int].0 == entries@[e as int].0@);
            if !taken[e] {
                match index.find(entries, &entries[e].0) {
                    Some(i) => {
                        if i == e {
                            let ghost before = entries_view(words@);
                            words.push((entries[e].0.clone(), clone_syllables(&entries[e].1)));
                            proof {
                                let ghost old_rest = rest;
                                rest = rest.push(e as int);
                                assert(first + rest =~= (first + old_rest).push(e as int));
                                assert(entries_view(words@) =~= before.push(all[e as int]));
                                assert(entries_view(words@) =~= entries_at(all, first + rest));
                            }
                        }
                    },
                    None => {},
                }
            }
            e += 1;
        }
        SyllablizedPhonemes { words }
    }

    /// The corpus of a dictionary, from the lines of the dictionary and the
    /// text of the frequency list. The first line that cannot be read is
    /// the error.
    pub fn generate(lines: &Vec<String>, frequency_list: &str) -> (made: Result<Self, LineError>)
        ensures
            match made {
                Ok(corpus) => read_lines(texts_of(lines@)) matches Ok(entries) && corpus@
                    == ordered(frequent(frequency_list@), entries),
                Err(error) => read_lines(texts_of(lines@)) == Err::<CorpusModel, LineFault>(
                    error@,
                ),
            },
    {
        let ghost all = texts_of(lines@);
        let mut entries: Vec<(String, Vec<Syllable>)> = Vec::new();
        let mut k: usize = 0;
        assert(all.take(0) =~= Seq::<Seq<char>>::empty());
        assert(entries_view(entries@) =~= CorpusModel::empty());
        while k < lines.len()
            invariant
                k <= lines.len(),
                all == texts_of(lines@),
                read_lines(all.take(k as int)) == Ok::<CorpusModel, LineFault>(
                    entries_view(entries@),
                ),
            decreases lines.len() - k,
        {
            let ghost next = all.take(k + 1);
            let ghost before = entries_view(entries@);
            proof {
                assert(next.drop_last() =~= all.take(k as int));
                assert(next.last() == lines@[k as int]@);
            }
            match parse_line(lines[k].as_str()) {
                Ok(None) => {},
                Ok(Some(entry)) => {
                    let ghost word = entry.0@;
                    let ghost syllables = syllables_view(entry.1@);
                    entries.push(entry);
                    assert(entries_view(entries@) =~= before.push((word, syllables)));
                },
                Err(error) => {
                    proof {
                        assert(read_lines(next) == Err::<CorpusModel, LineFault>(error@));
                        lemma_line_fault_stays(all, k + 1);
                    }
                    return Err(error);
                },
            }
            k += 1;
        }
        assert(all.take(k as int) =~= all);
        let word_freqs = frequency_words(frequency_list);
        Ok(Self::assemble(&word_freqs, &entries))
    }
}

} // verus!
