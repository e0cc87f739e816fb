//! The syllable connection table: which sound begins the next syllable
//! after a syllable that ends with a given sound.

use vstd::prelude::*;
use std::collections::HashMap;
use crate::graph::NodeData;
use crate::phoneme::Phoneme;
use crate::syllable::Syllable;
use crate::syllablize::{CorpusSounds, SyllablizedPhonemes};

verus! {

broadcast use vstd::std_specs::hash::group_hash_axioms;

/// The table as a mathematical object: for each boundary that was seen, the
/// boundary that followed it first, and how often the boundary was seen.
pub type TableModel = Map<NodeData, (NodeData, usize)>;

/// Two boundaries with the same code are the same.
pub proof fn lemma_code_is_injective(a: NodeData, b: NodeData)
    requires
        a.code() == b.code(),
    ensures
        a == b,
{
}

/// The table after `from` was seen with `to` after it. The first boundary
/// seen after `from` stays its successor: a later one only raises the
/// count.
pub open spec fn with_link(t: TableModel, from: NodeData, to: NodeData) -> TableModel {
    if t.contains_key(from) {
        t.insert(from, (t[from].0, (t[from].1 + 1) as usize))
    } else {
        t.insert(from, (to, 1))
    }
}

/// The table after each of `links` was seen, first to last.
pub open spec fn with_links(t: TableModel, links: Seq<(NodeData, NodeData)>) -> TableModel
    decreases links.len(),
{
    if links.len() == 0 {
        t
    } else {
        with_link(with_links(t, links.drop_last()), links.last().0, links.last().1)
    }
}

/// Whether a word chains syllables: it has two or more, and none is empty.
pub open spec fn chains(syllables: Seq<Seq<Phoneme>>) -> bool {
    &&& syllables.len() >= 2
    &&& forall|i: int| 0 <= i < syllables.len() ==> (#[trigger] syllables[i]).len() > 0
}

/// The boundaries between the first `n` syllables of a word: from the last
/// sound of each but the last of them to the first sound of the next.
pub open spec fn inner_links(syllables: Seq<Seq<Phoneme>>, n: int) -> Seq<(NodeData, NodeData)>
    decreases n,
{
    if n <= 1 {
        Seq::empty()
    } else {
        inner_links(syllables, n - 1).push(
            (
                NodeData::Phoneme(syllables[n - 2].last()),
                NodeData::Phoneme(syllables[n - 1].first()),
            ),
        )
    }
}

/// The boundaries of a word that chains syllables: from the start to its
/// first sound, from the last sound of each syllable to the first sound of
/// the next, and from its last sound to the end. Other words have none.
pub open spec fn word_links(syllables: Seq<Seq<Phoneme>>) -> Seq<(NodeData, NodeData)> {
    if chains(syllables) {
        seq![(NodeData::Start, NodeData::Phoneme(syllables[0].first()))] + inner_links(
            syllables,
            syllables.len() as int,
        ) + seq![(NodeData::Phoneme(syllables.last().last()), NodeData::Stop)]
    } else {
        Seq::empty()
    }
}

/// The boundaries of the words of a corpus, first to last.
pub open spec fn corpus_links(words: CorpusSounds) -> Seq<(NodeData, NodeData)>
    decreases words.len(),
{
    if words.len() == 0 {
        Seq::empty()
    } else {
        corpus_links(words.drop_last()) + word_links(words.last())
    }
}

/// Between `n` syllables there are `n - 1` boundaries.
pub proof fn lemma_inner_links_len(syllables: Seq<Seq<Phoneme>>, n: int)
    requires
        n >= 1,
    ensures
        inner_links(syllables, n).len() == n - 1,
    decreases n,
{
    if n > 1 {
        lemma_inner_links_len(syllables, n - 1);
    }
}

/// The boundary that follows `node`: the one stored for it, or the end when
/// none is stored.
pub open spec fn successor(t: TableModel, node: NodeData) -> NodeData {
    if t.contains_key(node) {
        t[node].0
    } else {
        NodeData::Stop
    }
}

/// Whether `bound` is a number of times, and no boundary of the table was
/// seen more often.
pub open spec fn seen_within(t: TableModel, bound: int) -> bool {
    &&& bound >= 0
    &&& forall|node: NodeData| t.contains_key(node) ==> (#[trigger] t[node]).1 <= bound
}

/// Seeing one boundary raises no count by more than one.
pub proof fn lemma_link_seen(t: TableModel, from: NodeData, to: NodeData, bound: int)
    requires
        seen_within(t, bound),
    ensures
        seen_within(with_link(t, from, to), bound + 1),
{
    let t2 = with_link(t, from, to);
    assert forall|node: NodeData| t2.contains_key(node) implies (#[trigger] t2[node]).1 <= bound
        + 1 by {
        if node != from {
            assert(t.contains_key(node));
            assert(t2[node] == t[node]);
        } else if t.contains_key(from) {
            assert(t[from].1 <= bound);
        }
    }
}

/// Seeing boundaries raises no count by more than their number.
pub proof fn lemma_links_seen(t: TableModel, links: Seq<(NodeData, NodeData)>, bound: int)
    requires
        seen_within(t, bound),
    ensures
        seen_within(with_links(t, links), bound + links.len()),
    decreases links.len(),
{
    if links.len() > 0 {
        lemma_links_seen(t, links.drop_last(), bound);
        lemma_link_seen(
            with_links(t, links.drop_last()),
            links.last().0,
            links.last().1,
            bound + links.len() - 1,
        );
    }
}

/// Boundaries seen after others leave the table as all of them seen in one
/// run.
pub proof fn lemma_links_join(
    t: TableModel,
    first: Seq<(NodeData, NodeData)>,
    second: Seq<(NodeData, NodeData)>,
)
    ensures
        with_links(with_links(t, first), second) == with_links(t, first + second),
    decreases second.len(),
{
    if second.len() == 0 {
        assert(first + second =~= first);
    } else {
        lemma_links_join(t, first, second.drop_last());
        assert((first + second).drop_last() =~= first + second.drop_last());
        assert((first + second).last() == second.last());
    }
}

/// The first words of a corpus have no more boundaries than the whole
/// corpus.
pub proof fn lemma_links_grow(words: CorpusSounds, w: int)
    requires
        0 <= w <= words.len(),
    ensures
        corpus_links(words.take(w)).len() <= corpus_links(words).len(),
    decreases words.len(),
{
    if w < words.len() {
        assert(words.drop_last().take(w) =~= words.take(w));
        lemma_links_grow(words.drop_last(), w);
    } else {
        assert(words.take(w) =~= words);
    }
}

/// A weighted map from each boundary between syllables to the boundary that
/// follows it.
pub struct SyllableConnections {
    /// The entries, each under the code of its boundary.
    connections: HashMap<u8, (NodeData, usize)>,
    /// The boundaries that have an entry, in the order in which they were
    /// first seen.
    order: Vec<NodeData>,
}

/// A table written down entry by entry: a boundary, the boundary that
/// follows it, and how often the first was seen.
pub type TableSnapshot = Vec<(NodeData, NodeData, usize)>;

/// The table that a snapshot describes. Of two entries for one boundary,
/// the later counts.
pub open spec fn restored(entries: Seq<(NodeData, NodeData, usize)>) -> TableModel
    decreases entries.len(),
{
    if entries.len() == 0 {
        TableModel::empty()
    } else {
        restored(entries.drop_last()).insert(
            entries.last().0,
            (entries.last().1, entries.last().2),
        )
    }
}

impl View for SyllableConnections {
    type V = TableModel;

    closed spec fn view(&self) -> TableModel {
        Map::new(
            |node: NodeData| self.connections@.contains_key(node.code() as u8),
            |node: NodeData| self.connections@[node.code() as u8],
        )
    }
}

impl SyllableConnections {
    /// Every boundary with an entry is listed, and every listed boundary
    /// has an entry.
    #[verifier::type_invariant]
    spec fn listed(self) -> bool {
        &&& forall|i: int|
            0 <= i < self.order@.len() ==> self.connections@.contains_key(
                (#[trigger] self.order@[i]).code() as u8,
            )
        &&& forall|node: NodeData|
            self.connections@.contains_key(#[trigger] node.code() as u8) ==> self.order@.contains(
                node,
            )
    }

    /// A table without entries.
    pub fn empty() -> (table: Self)
        ensures
            table@ == TableModel::empty(),
    {
        let table = Self { connections: HashMap::new(), order: Vec::new() };
        assert(table@ =~= TableModel::empty());
        table
    }

    /// Stores an entry, in place of what was stored for its boundary.
    fn put(&mut self, from: NodeData, to: NodeData, count: usize)
        ensures
            final(self)@ == old(self)@.insert(from, (to, count)),
    {
        proof {
            use_type_invariant(&*self);
        }
        let key = from.code_of();
        let ghost order_before = self.order@;
        let mut taken = Self::empty();
        std::mem::swap(self, &mut taken);
        let Self { mut connections, mut order } = taken;
        if !connections.contains_key(&key) {
            order.push(from);
        }
        connections.insert(key, (to, count));
        proof {
            assert forall|other: NodeData| other.code() == from.code() implies other == from by {
                lemma_code_is_injective(other, from);
            }
            assert forall|i: int| 0 <= i < order@.len() implies connections@.contains_key(
                (#[trigger] order@[i]).code() as u8,
            ) by {
                if i < order_before.len() {
                    assert(order@[i] == order_before[i]);
                }
            }
            assert forall|x: NodeData|
                connections@.contains_key(#[trigger] x.code() as u8) implies order@.contains(
                x,
            ) by {
                if x == from {
                    if old(self).connections@.contains_key(key) {
                        assert(order_before.contains(from));
                    } else {
                        assert(order@[order@.len() - 1] == from);
                    }
                } else {
                    assert(order_before.contains(x));
                    let at = choose|at: int| 0 <= at < order_before.len() && order_before[at] == x;
                    assert(order@[at] == x);
                }
            }
        }
        *self = Self { connections, order };
        assert(self@ =~= old(self)@.insert(from, (to, count)));
    }

    /// Writes the table down entry by entry, in the order in which the
    /// boundaries were first seen. What is restored from the snapshot is the
    /// table.
    pub fn snapshot(&self) -> (entries: TableSnapshot)
        ensures
            restored(entries@) == self@,
    {
        proof {
            use_type_invariant(self);
        }
        let mut entries: TableSnapshot = Vec::new();
        let mut k: usize = 0;
        assert(restored(entries@) =~= self@.restrict(self.order@.take(0).to_set()));
        while k < self.order.len()
            invariant
                k <= self.order.len(),
                self.listed(),
                restored(entries@) == self@.restrict(self.order@.take(k as int).to_set()),
            decreases self.order.len() - k,
        {
            let from = self.order[k];
            let to = self.evaluate(from);
            let count = self.count(from);
            let ghost before = entries@;
            assert(self@.contains_key(from));
            entries.push((from, to, count));
            proof {
                assert(entries@.drop_last() =~= before);
                let seen = self.order@.take(k as int).to_set();
                let seen_next = self.order@.take(k + 1).to_set();
                assert(seen_next =~= seen.insert(from)) by {
                    assert forall|x: NodeData| seen_next.contains(x) <==> seen.insert(
                        from,
                    ).contains(x) by {
                        let a = self.order@.take(k as int);
                        let b = self.order@.take(k + 1);
                        if a.contains(x) {
                            let at = choose|at: int| 0 <= at < a.len() && a[at] == x;
                            assert(b[at] == x);
                        }
                        if x == from {
                            assert(b[k as int] == from);
                        }
                        if b.contains(x) {
                            let at = choose|at: int| 0 <= at < b.len() && b[at] == x;
                            if at < k {
                                assert(a[at] == x);
                            }
                        }
                    }
                }
                assert(restored(entries@) =~= self@.restrict(seen_next));
            }
            k += 1;
        }
        proof {
            assert(self.order@.take(k as int) =~= self.order@);
            assert(self@.restrict(self.order@.to_set()) =~= self@);
        }
        entries
    }

    /// The table that a snapshot describes.
    pub fn restore(entries: &TableSnapshot) -> (table: Self)
        ensures
            table@ == restored(entries@),
    {
        let mut table = Self::empty();
        let mut k: usize = 0;
        assert(entries@.take(0) =~= Seq::<(NodeData, NodeData, usize)>::empty());
        while k < entries.len()
            invariant
                k <= entries.len(),
                table@ == restored(entries@.take(k as int)),
            decreases entries.len() - k,
        {
            proof {
                assert(entries@.take(k + 1).drop_last() =~= entries@.take(k as int));
            }
            let entry = entries[k];
            table.put(entry.0, entry.1, entry.2);
            k += 1;
        }
        assert(entries@.take(k as int) =~= entries@);
        table
    }

    /// The table of a corpus.
    pub fn new(syl_phones: &SyllablizedPhonemes) -> (table: Self)
        requires
            corpus_links(syl_phones.sounds()).len() <= usize::MAX,
        ensures
            table@ == with_links(TableModel::empty(), corpus_links(syl_phones.sounds())),
    {
        let mut table = Self::empty();
        table.build(syl_phones);
        table
    }

    /// Records that `to` was seen after `from`.
    pub fn add_edge(&mut self, from: NodeData, to: NodeData)
        requires
            old(self)@.contains_key(from) ==> old(self)@[from].1 < usize::MAX,
        ensures
            final(self)@ == with_link(old(self)@, from, to),
    {
        let key = from.code_of();
        let entry = match self.connections.get(&key) {
            Some(stored) => (stored.0, stored.1 + 1),
            None => (to, 1),
        };
        self.put(from, entry.0, entry.1);
    }

    /// The boundary that follows `node`: the one stored for it, or the end
    /// of the word when none is stored.
    pub fn evaluate(&self, node: NodeData) -> (next: NodeData)
        ensures
            next == successor(self@, node),
    {
        let key = node.code_of();
        match self.connections.get(&key) {
            Some(stored) => stored.0,
            None => NodeData::Stop,
        }
    }

    /// How often `node` was seen as a boundary with another after it.
    pub fn count(&self, node: NodeData) -> (n: usize)
        ensures
            n == (if self@.contains_key(node) {
                self@[node].1
            } else {
                0
            }),
    {
        let key = node.code_of();
        match self.connections.get(&key) {
            Some(stored) => stored.1,
            None => 0,
        }
    }

    /// Whether a word chains syllables.
    fn chains(syllables: &Vec<Syllable>) -> (yes: bool)
        ensures
            yes == chains(Seq::new(syllables@.len(), |i: int| syllables@[i]@)),
    {
        let ghost word = Seq::new(syllables@.len(), |i: int| syllables@[i]@);
        if syllables.len() <= 1 {
            return false;
        }
        let mut k: usize = 0;
        while k < syllables.len()
            invariant
                k <= syllables.len(),
                word == Seq::new(syllables@.len(), |i: int| syllables@[i]@),
                forall|i: int| 0 <= i < k ==> (#[trigger] word[i]).len() > 0,
            decreases syllables.len() - k,
        {
            if syllables[k].len() == 0 {
                assert(word[k as int].len() == 0);
                return false;
            }
            k += 1;
        }
        true
    }

    /// The number of boundaries of the words of a corpus, when it fits the
    /// machine word: a table can then be built of the corpus.
    pub fn count_links(syl_phones: &SyllablizedPhonemes) -> (links: Option<usize>)
        ensures
            match links {
                Some(n) => n == corpus_links(syl_phones.sounds()).len(),
                None => corpus_links(syl_phones.sounds()).len() > usize::MAX,
            },
    {
        let ghost words = syl_phones.sounds();
        let mut total: usize = 0;
        let mut w: usize = 0;
        while w < syl_phones.words.len()
            invariant
                w <= syl_phones.words.len(),
                words == syl_phones.sounds(),
                total == corpus_links(words.take(w as int)).len(),
            decreases syl_phones.words.len() - w,
        {
            let syllables = &syl_phones.words[w].1;
            let ghost word = words[w as int];
            proof {
                assert(words.take(w + 1).drop_last() =~= words.take(w as int));
                assert(word =~= Seq::new(syllables@.len(), |i: int| syllables@[i]@));
                lemma_links_grow(words, w + 1);
                if chains(word) {
                    lemma_inner_links_len(word, word.len() as int);
                }
            }
            if Self::chains(syllables) {
                if syllables.len() >= usize::MAX - total {
                    return None;
                }
                total = total + syllables.len() + 1;
            }
            w += 1;
        }
        assert(words.take(w as int) =~= words);
        Some(total)
    }

    /// Records the boundaries of every word of a corpus, in the order of the
    /// corpus.
    pub fn build(&mut self, syl_phones: &SyllablizedPhonemes)
        requires
            seen_within(old(self)@, usize::MAX - corpus_links(syl_phones.sounds()).len()),
        ensures
            final(self)@ == with_links(old(self)@, corpus_links(syl_phones.sounds())),
    {
        let ghost words = syl_phones.sounds();
        let ghost room = usize::MAX - corpus_links(words).len();
        let mut w: usize = 0;
        while w < syl_phones.words.len()
            invariant
                w <= syl_phones.words.len(),
                words == syl_phones.sounds(),
                room == usize::MAX - corpus_links(words).len(),
                self@ == with_links(old(self)@, corpus_links(words.take(w as int))),
                seen_within(self@, room + corpus_links(words.take(w as int)).len()),
            decreases syl_phones.words.len() - w,
        {
            let syllables = &syl_phones.words[w].1;
            let ghost word = words[w as int];
            let ghost before = self@;
            let ghost done = corpus_links(words.take(w as int));
            let ghost spent = room + done.len();
            proof {
                assert(words.take(w + 1).drop_last() =~= words.take(w as int));
                assert(word =~= Seq::new(syllables@.len(), |i: int| syllables@[i]@));
                lemma_links_grow(words, w + 1);
                lemma_links_seen(before, word_links(word), spent);
                lemma_links_join(old(self)@, done, word_links(word));
            }
            if Self::chains(syllables) {
                let n: usize = syllables.len();
                let first = syllables[0].first_phoneme().unwrap();
                self.add_edge(NodeData::Start, NodeData::Phoneme(first));
                let ghost opening = seq![(NodeData::Start, NodeData::Phoneme(word[0].first()))];
                proof {
                    assert(opening.drop_last() =~= Seq::<(NodeData, NodeData)>::empty());
                    assert(opening + inner_links(word, 1) =~= opening);
                    assert(with_links(before, opening.drop_last()) == before);
                    lemma_inner_links_len(word, n as int);
                }
                assert(self@ == with_links(before, opening + inner_links(word, 1)));
                let mut k: usize = 1;
                while k < n
                    invariant
                        1 <= k <= n,
                        n == syllables.len(),
                        n == word.len(),
                        chains(word),
                        spent + word_links(word).len() <= usize::MAX,
                        word_links(word).len() == n + 1,
                        seen_within(before, spent),
                        forall|i: int| 0 <= i < n ==> word[i] == syllables@[i]@,
                        opening == seq![(NodeData::Start, NodeData::Phoneme(word[0].first()))],
                        self@ == with_links(before, opening + inner_links(word, k as int)),
                    decreases n - k,
                {
                    assert(word[k - 1].len() > 0 && word[k as int].len() > 0);
                    let last = syllables[k - 1].last_phoneme().unwrap();
                    let next = syllables[k].first_phoneme().unwrap();
                    proof {
                        let seen = opening + inner_links(word, k as int);
                        lemma_inner_links_len(word, k as int);
                        lemma_links_seen(before, seen, spent);
                        let more = opening + inner_links(word, k + 1);
                        assert(more.drop_last() =~= seen);
                    }
                    self.add_edge(NodeData::Phoneme(last), NodeData::Phoneme(next));
                    k += 1;
                }
                assert(word[n - 1].len() > 0);
                let last = syllables[n - 1].last_phoneme().unwrap();
                proof {
                    let seen = opening + inner_links(word, n as int);
                    lemma_inner_links_len(word, n as int);
                    lemma_links_seen(before, seen, spent);
                    assert(word_links(word).drop_last() =~= seen);
                }
                self.add_edge(NodeData::Phoneme(last), NodeData::Stop);
            }
            w += 1;
        }
        assert(words.take(w as int) =~= words);
    }
}

} // verus!
