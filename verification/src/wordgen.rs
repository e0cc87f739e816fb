//! The word generator: syllables walked from the sonority graph, chained by
//! the connection table, up to a largest number of syllables.

use vstd::prelude::*;
use rand::rngs::ThreadRng;
use crate::connections::{corpus_links, successor, with_links, SyllableConnections, TableModel};
use crate::graph::{
    corpus_steps, is_walk, root_of, sounds_of, with_corpus, GraphModel, NodeData, NodeID,
    SonorityGraph,
};
use crate::phoneme::Phoneme;
use crate::syllablize::SyllablizedPhonemes;
use crate::word::Word;

verus! {

/// Whether a walk from the node of `start` spells `syllable`.
pub open spec fn spells(g: GraphModel, start: Phoneme, syllable: Seq<Phoneme>) -> bool {
    exists|path: Seq<NodeID>| #[trigger]
        is_walk(g, root_of(start), path) && syllable == sounds_of(path)
}

/// The boundary before syllable `i` of a word: what the table stores after
/// the start of the word, for the first syllable, and after the last sound
/// of the syllable before, for the others.
pub open spec fn boundary_before(t: TableModel, word: Seq<Seq<Phoneme>>, i: int) -> NodeData {
    if i <= 0 {
        successor(t, NodeData::Start)
    } else {
        successor(t, NodeData::Phoneme(word[i - 1].last()))
    }
}

/// Whether every syllable of a word begins with the sound that the table
/// gives for the boundary before it, and is spelled by a walk from the node
/// of that sound.
pub open spec fn chained(t: TableModel, g: GraphModel, word: Seq<Seq<Phoneme>>) -> bool {
    forall|i: int|
        0 <= i < word.len() ==> match #[trigger] boundary_before(t, word, i) {
            NodeData::Phoneme(p) => spells(g, p, word[i]),
            _ => false,
        }
}

/// Whether the first `n` continuation tests pass.
pub open spec fn all_pass(continuation: Seq<bool>, n: int) -> bool {
    n <= continuation.len() && forall|j: int| 0 <= j < n ==> continuation[j]
}

/// A generator of invented words.
pub struct FakeWordGenerator {
    pub syllablized_phonemes: SyllablizedPhonemes,
    pub sonority_graph: SonorityGraph,
    pub syllable_connections: SyllableConnections,
    pub rng: ThreadRng,
    /// The most syllables that a word has.
    pub word_length_max: usize,
}

impl FakeWordGenerator {
    /// A generator for a corpus: the graph and the table are those of the
    /// corpus.
    pub fn new(syllablized_phonemes: SyllablizedPhonemes, rng: ThreadRng, word_length_max: usize) -> (generator: Self)
        requires
            corpus_steps(syllablized_phonemes.sounds()) <= usize::MAX,
            corpus_links(syllablized_phonemes.sounds()).len() <= usize::MAX,
        ensures
            generator.sonority_graph@ == with_corpus(
                GraphModel::empty(),
                syllablized_phonemes.sounds(),
            ),
            generator.syllable_connections@ == with_links(
                TableModel::empty(),
                corpus_links(syllablized_phonemes.sounds()),
            ),
            generator.syllablized_phonemes == syllablized_phonemes,
            generator.word_length_max == word_length_max,
    {
        let sonority_graph = SonorityGraph::new(&syllablized_phonemes);
        let syllable_connections = SyllableConnections::new(&syllablized_phonemes);
        Self { syllablized_phonemes, sonority_graph, syllable_connections, rng, word_length_max }
    }

    /// Generates one word. Before each syllable stands a continuation test,
    /// whose outcomes the caller has drawn: `continuation[i]` says whether
    /// the test before syllable `i` passes. The word grows by one syllable
    /// at a time, until it has `word_length_max` syllables, or a test does
    /// not pass or is missing, or the table gives no sound for the next
    /// boundary.
    pub fn generate_word(&mut self, continuation: &Vec<bool>) -> (word: Word)
        ensures
            word@.len() <= old(self).word_length_max,
            all_pass(continuation@, word@.len() as int),
            chained(old(self).syllable_connections@, old(self).sonority_graph@, word@),
            word@.len() == old(self).word_length_max || !all_pass(
                continuation@,
                word@.len() as int + 1,
            ) || !(boundary_before(old(self).syllable_connections@, word@, word@.len() as int)
                is Phoneme),
            final(self).sonority_graph == old(self).sonority_graph,
            final(self).syllable_connections == old(self).syllable_connections,
            final(self).syllablized_phonemes == old(self).syllablized_phonemes,
            final(self).word_length_max == old(self).word_length_max,
    {
        let ghost t = self.syllable_connections@;
        let ghost g = self.sonority_graph@;
        let mut cur_phone = self.syllable_connections.evaluate(NodeData::Start);
        let mut word = Word::empty();
        let mut i: usize = 0;
        let mut open = true;
        while open && i < continuation.len() && i < self.word_length_max
            invariant
                self.sonority_graph == old(self).sonority_graph,
                self.syllable_connections == old(self).syllable_connections,
                self.syllablized_phonemes == old(self).syllablized_phonemes,
                self.word_length_max == old(self).word_length_max,
                t == self.syllable_connections@,
                g == self.sonority_graph@,
                word@.len() == i,
                i <= continuation.len(),
                i <= self.word_length_max,
                all_pass(continuation@, i as int),
                chained(t, g, word@),
                cur_phone == boundary_before(t, word@, i as int),
                !open ==> !all_pass(continuation@, i + 1) || !(cur_phone is Phoneme),
            decreases continuation.len() - i + (if open { 1nat } else { 0nat }),
        {
            if !continuation[i] {
                open = false;
            } else {
                match cur_phone {
                    NodeData::Phoneme(phone) => {
                        let next_syl = self.sonority_graph.evaluate_from_start(
                            phone,
                            &mut self.rng,
                        ).0;
                        let ghost before = word@;
                        let last = next_syl.last_phoneme().unwrap();
                        cur_phone = self.syllable_connections.evaluate(NodeData::Phoneme(last));
                        word.add_syllable(next_syl);
                        i += 1;
                        proof {
                            assert forall|k: int| 0 <= k < word@.len() implies match #[trigger] boundary_before(
                                t,
                                word@,
                                k,
                            ) {
                                NodeData::Phoneme(p) => spells(g, p, word@[k]),
                                _ => false,
                            } by {
                                if k < before.len() {
                                    assert(boundary_before(t, word@, k) == boundary_before(
                                        t,
                                        before,
                                        k,
                                    ));
                                    assert(word@[k] == before[k]);
                                }
                            }
                        }
                    },
                    _ => {
                        open = false;
                    },
                }
            }
        }
        word
    }
}

} // verus!
