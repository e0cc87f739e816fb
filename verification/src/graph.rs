//! The sonority graph: which sound may follow which inside a syllable, and
//! how often each such step was seen.

use vstd::prelude::*;
use std::collections::HashMap;
use rand::rngs::ThreadRng;
use crate::phoneme::{Phoneme, SyllablePart};
use crate::syllable::{
    coda_of, lemma_parts_cover, nucleus_of, onset_of, well_formed, Syllable,
};
use crate::syllablize::{CorpusSounds, SyllablizedPhonemes};
use crate::utils::{checked_total, draw_below, selects, total_weight, weighted_index};

verus! {

broadcast use vstd::std_specs::hash::group_hash_axioms;

/// What a node of the graph stands for: the start of a syllable, its end,
/// or one of its sounds.
#[derive(PartialEq, Eq, Hash, Debug, Clone, Copy, Structural)]
pub enum NodeData {
    Start,
    Stop,
    Phoneme(Phoneme),
}

/// The identity of a node: what it stands for, and where in the syllable.
/// The same sound at two positions is two nodes.
#[derive(PartialEq, Eq, Hash, Debug, Clone, Copy, Structural)]
pub struct NodeID {
    pub data: NodeData,
    pub part: SyllablePart,
}

/// A step from one node to another, with the number of times it was seen.
#[derive(PartialEq, Eq, Debug, Clone, Copy, Structural)]
pub struct SonorityGraphEdge {
    pub from: NodeID,
    pub to: NodeID,
    pub count: usize,
}

/// A node's outgoing steps, in the order in which they were first seen.
pub struct SonorityGraphNode {
    pub outs: Vec<SonorityGraphEdge>,
}

/// The syllable that a walk through the graph has spelled.
pub struct SonorityGraphResult(pub Syllable);

/// The graph as a mathematical object: each registered node with its
/// outgoing steps.
pub type GraphModel = Map<NodeID, Seq<SonorityGraphEdge>>;

impl NodeData {
    /// A number for each value, all different.
    pub open spec fn code(self) -> nat {
        match self {
            NodeData::Start => 0,
            NodeData::Stop => 1,
            NodeData::Phoneme(p) => 2 + p.ordinal(),
        }
    }

    /// The number of a value.
    pub(crate) fn code_of(self) -> (c: u8)
        ensures
            c == self.code(),
            c < 64,
    {
        match self {
            NodeData::Start => 0,
            NodeData::Stop => 1,
            NodeData::Phoneme(p) => 2 + p.index(),
        }
    }
}

impl NodeID {
    /// A number for each identity, all different: the key under which the
    /// node is stored.
    pub open spec fn key(self) -> nat {
        let position: nat = match self.part {
            SyllablePart::Onset => 0,
            SyllablePart::Nucleus => 1,
            SyllablePart::Coda { layer } => 2 + layer as nat,
        };
        position * 64 + self.data.code()
    }

    /// The key of an identity.
    fn key_of(self) -> (k: u128)
        ensures
            k == self.key(),
    {
        let position: u128 = match self.part {
            SyllablePart::Onset => 0,
            SyllablePart::Nucleus => 1,
            SyllablePart::Coda { layer } => 2 + layer as u128,
        };
        position * 64 + self.data.code_of() as u128
    }
}

/// Two identities with the same key are the same.
pub proof fn lemma_key_is_injective(a: NodeID, b: NodeID)
    requires
        a.key() == b.key(),
    ensures
        a == b,
{
    assert(a.data.code() < 64 && b.data.code() < 64);
}

/// The graph with `id` registered: a node that is new has no steps yet.
pub open spec fn with_node(g: GraphModel, id: NodeID) -> GraphModel {
    if g.contains_key(id) {
        g
    } else {
        g.insert(id, Seq::empty())
    }
}

/// Whether `e` is the step from `from` to `to`.
pub open spec fn joins(e: SonorityGraphEdge, from: NodeID, to: NodeID) -> bool {
    e.from == from && e.to == to
}

/// Whether the step from `from` to `to` is among `outs`.
pub open spec fn has_step(outs: Seq<SonorityGraphEdge>, from: NodeID, to: NodeID) -> bool {
    exists|i: int| 0 <= i < outs.len() && joins(#[trigger] outs[i], from, to)
}

/// `outs` with the step from `from` to `to` counted once more.
pub open spec fn bumped(outs: Seq<SonorityGraphEdge>, from: NodeID, to: NodeID) -> Seq<
    SonorityGraphEdge,
> {
    Seq::new(
        outs.len(),
        |i: int|
            if joins(outs[i], from, to) {
                SonorityGraphEdge { from, to, count: (outs[i].count + 1) as usize }
            } else {
                outs[i]
            },
    )
}

/// `outs` after the step from `from` to `to` was seen once more: counted
/// once more where it is known, else added with the count 1.
pub open spec fn observed(outs: Seq<SonorityGraphEdge>, from: NodeID, to: NodeID) -> Seq<
    SonorityGraphEdge,
> {
    if has_step(outs, from, to) {
        bumped(outs, from, to)
    } else {
        outs.push(SonorityGraphEdge { from, to, count: 1 })
    }
}

/// The graph after the step from `from` to `to` was seen once more. Nothing
/// is recorded unless both nodes are registered.
pub open spec fn with_edge(g: GraphModel, from: NodeID, to: NodeID) -> GraphModel {
    if g.contains_key(to) && g.contains_key(from) {
        g.insert(from, observed(g[from], from, to))
    } else {
        g
    }
}

/// Whether no count of the step from `from` to `to` is at the machine's
/// limit, so that it can be counted once more.
pub open spec fn can_count(g: GraphModel, from: NodeID, to: NodeID) -> bool {
    g.contains_key(from) ==> forall|i: int|
        0 <= i < g[from].len() && joins(#[trigger] g[from][i], from, to) ==> g[from][i].count
            < usize::MAX
}

/// The graph after one step was seen: both nodes are registered, then the
/// step between them is counted.
pub open spec fn with_link(g: GraphModel, from: NodeID, to: NodeID) -> GraphModel {
    with_edge(with_node(with_node(g, from), to), from, to)
}

/// The graph after each step of a path was seen, first to last.
pub open spec fn with_path(g: GraphModel, path: Seq<NodeID>) -> GraphModel
    decreases path.len(),
{
    if path.len() < 2 {
        g
    } else {
        with_link(with_path(g, path.drop_last()), path[path.len() - 2], path.last())
    }
}

/// The nodes of `phonemes`, all at the position `part`.
pub open spec fn nodes_at(phonemes: Seq<Phoneme>, part: SyllablePart) -> Seq<NodeID> {
    Seq::new(phonemes.len(), |i: int| NodeID { data: NodeData::Phoneme(phonemes[i]), part })
}

/// The nodes of the consonants of a coda: the first at layer 1, each further
/// one a layer deeper.
pub open spec fn coda_nodes(phonemes: Seq<Phoneme>) -> Seq<NodeID> {
    Seq::new(
        phonemes.len(),
        |i: int|
            NodeID {
                data: NodeData::Phoneme(phonemes[i]),
                part: SyllablePart::Coda { layer: (i + 1) as usize },
            },
    )
}

/// The node where every walk begins.
pub open spec fn start_node() -> NodeID {
    NodeID { data: NodeData::Start, part: SyllablePart::Onset }
}

/// The path of one part of a syllable. The onset's path leads from the start
/// through its consonants to `next` in the nucleus. The nucleus's path
/// leads through its vowels to `next` at the first coda layer. The coda's
/// path leads through its consonants to the end of the syllable. A nucleus
/// or a coda without phonemes has no path.
pub open spec fn part_path(part: SyllablePart, phonemes: Seq<Phoneme>, next: NodeData) -> Seq<
    NodeID,
> {
    match part {
        SyllablePart::Onset => seq![start_node()] + nodes_at(phonemes, SyllablePart::Onset)
            + seq![NodeID { data: next, part: SyllablePart::Nucleus }],
        SyllablePart::Nucleus => if phonemes.len() == 0 {
            Seq::empty()
        } else {
            nodes_at(phonemes, SyllablePart::Nucleus) + seq![
                NodeID { data: next, part: SyllablePart::Coda { layer: 1 } },
            ]
        },
        SyllablePart::Coda { .. } => if phonemes.len() == 0 {
            Seq::empty()
        } else {
            coda_nodes(phonemes) + seq![
                NodeID { data: NodeData::Stop, part: SyllablePart::Coda { layer: 0 } },
            ]
        },
    }
}

/// How a syllable ends: after its coda, or right after its nucleus when it
/// has no coda.
pub open spec fn coda_path(coda: Seq<Phoneme>) -> Seq<NodeID> {
    if coda.len() == 0 {
        seq![NodeID { data: NodeData::Stop, part: SyllablePart::Coda { layer: 1 } }]
    } else {
        coda_nodes(coda) + seq![
            NodeID { data: NodeData::Stop, part: SyllablePart::Coda { layer: 0 } },
        ]
    }
}

/// The path of a syllable: from the start through the consonants of the
/// onset, the vowels of the nucleus and the consonants of the coda, each at
/// its position, to the end.
pub open spec fn syllable_path(onset: Seq<Phoneme>, nucleus: Seq<Phoneme>, coda: Seq<Phoneme>) -> Seq<
    NodeID,
> {
    seq![start_node()] + nodes_at(onset, SyllablePart::Onset) + nodes_at(
        nucleus,
        SyllablePart::Nucleus,
    ) + coda_path(coda)
}

/// The graph after a syllable was seen. A run of phonemes that is not a
/// well-formed syllable leaves no trace.
pub open spec fn with_syllable(g: GraphModel, phonemes: Seq<Phoneme>) -> GraphModel {
    if well_formed(phonemes) {
        with_path(g, syllable_path(onset_of(phonemes), nucleus_of(phonemes), coda_of(phonemes)))
    } else {
        g
    }
}

/// The graph after the syllables of a word were seen, first to last.
pub open spec fn with_word(g: GraphModel, syllables: Seq<Seq<Phoneme>>) -> GraphModel
    decreases syllables.len(),
{
    if syllables.len() == 0 {
        g
    } else {
        with_syllable(with_word(g, syllables.drop_last()), syllables.last())
    }
}

/// The graph after the words of a corpus were seen, first to last.
pub open spec fn with_corpus(g: GraphModel, words: CorpusSounds) -> GraphModel
    decreases words.len(),
{
    if words.len() == 0 {
        g
    } else {
        with_word(with_corpus(g, words.drop_last()), words.last())
    }
}

/// Whether `bound` is a number of times, and no step of the graph was
/// counted more often.
pub open spec fn counts_within(g: GraphModel, bound: int) -> bool {
    &&& bound >= 0
    &&& forall|id: NodeID, i: int|
        g.contains_key(id) && 0 <= i < g[id].len() ==> (#[trigger] g[id][i]).count <= bound
}

/// The number of steps of a path.
pub open spec fn steps_of(path: Seq<NodeID>) -> nat {
    if path.len() == 0 {
        0
    } else {
        (path.len() - 1) as nat
    }
}

/// The number of steps on the paths of the syllables of a word, each taken
/// for well-formed: one more than it has phonemes.
pub open spec fn word_steps(syllables: Seq<Seq<Phoneme>>) -> nat
    decreases syllables.len(),
{
    if syllables.len() == 0 {
        0
    } else {
        word_steps(syllables.drop_last()) + syllables.last().len() + 1
    }
}

/// The number of steps on the paths of the syllables of a corpus, each taken
/// for well-formed. No count of the graph grows by more when the corpus is
/// seen.
pub open spec fn corpus_steps(words: CorpusSounds) -> nat
    decreases words.len(),
{
    if words.len() == 0 {
        0
    } else {
        corpus_steps(words.drop_last()) + word_steps(words.last())
    }
}

/// Seeing one step raises no count by more than one.
pub proof fn lemma_link_counts(g: GraphModel, from: NodeID, to: NodeID, bound: int)
    requires
        counts_within(g, bound),
    ensures
        counts_within(with_link(g, from, to), bound + 1),
        bound < usize::MAX ==> can_count(with_node(with_node(g, from), to), from, to),
{
    let g1 = with_node(g, from);
    let g2 = with_node(g1, to);
    assert(counts_within(g1, bound));
    assert(counts_within(g2, bound));
    let g3 = with_edge(g2, from, to);
    assert forall|id: NodeID, i: int| g3.contains_key(id) && 0 <= i < g3[id].len() implies (
    #[trigger] g3[id][i]).count <= bound + 1 by {
        if id == from {
            let outs = g2[from];
            if has_step(outs, from, to) {
                if joins(outs[i], from, to) {
                    assert(outs[i].count <= bound);
                } else {
                    assert(g3[id][i] == outs[i]);
                }
            } else {
                if i < outs.len() {
                    assert(g3[id][i] == outs[i]);
                }
            }
        } else {
            assert(g3[id][i] == g2[id][i]);
        }
    }
}

/// Seeing a path raises no count by more than the path has steps.
pub proof fn lemma_path_counts(g: GraphModel, path: Seq<NodeID>, bound: int)
    requires
        counts_within(g, bound),
    ensures
        counts_within(with_path(g, path), bound + steps_of(path)),
    decreases path.len(),
{
    if path.len() < 2 {
    } else {
        lemma_path_counts(g, path.drop_last(), bound);
        lemma_link_counts(
            with_path(g, path.drop_last()),
            path[path.len() - 2],
            path.last(),
            bound + steps_of(path.drop_last()),
        );
    }
}

/// Seeing a syllable raises no count by more than the syllable has
/// phonemes, and one.
pub proof fn lemma_syllable_counts(g: GraphModel, phonemes: Seq<Phoneme>, bound: int)
    requires
        counts_within(g, bound),
    ensures
        counts_within(with_syllable(g, phonemes), bound + phonemes.len() + 1),
{
    if well_formed(phonemes) {
        let path = syllable_path(onset_of(phonemes), nucleus_of(phonemes), coda_of(phonemes));
        lemma_path_counts(g, path, bound);
        lemma_parts_cover(phonemes);
    }
}

/// The first words of a corpus have no more steps than the whole corpus,
/// and the first syllables of a word no more than the whole word.
pub proof fn lemma_steps_grow(words: CorpusSounds, w: int, syllables: Seq<Seq<Phoneme>>, k: int)
    requires
        0 <= w <= words.len(),
        0 <= k <= syllables.len(),
    ensures
        corpus_steps(words.take(w)) <= corpus_steps(words),
        word_steps(syllables.take(k)) <= word_steps(syllables),
    decreases words.len() + syllables.len(),
{
    if w < words.len() {
        assert(words.drop_last().take(w) =~= words.take(w));
        lemma_steps_grow(words.drop_last(), w, syllables.take(0), 0);
    } else {
        assert(words.take(w) =~= words);
    }
    if k < syllables.len() {
        assert(syllables.drop_last().take(k) =~= syllables.take(k));
        lemma_steps_grow(words.take(0), 0, syllables.drop_last(), k);
    } else {
        assert(syllables.take(k) =~= syllables);
    }
}

/// A path that is seen after another, and begins where that one ends,
/// leaves the graph as the two paths joined into one.
pub proof fn lemma_paths_join(g: GraphModel, first: Seq<NodeID>, second: Seq<NodeID>)
    requires
        first.len() >= 1,
        second.len() >= 1,
        first.last() == second[0],
    ensures
        with_path(with_path(g, first), second) == with_path(g, first + second.drop_first()),
    decreases second.len(),
{
    let whole = first + second.drop_first();
    if second.len() == 1 {
        assert(whole =~= first);
    } else {
        lemma_paths_join(g, first, second.drop_last());
        assert(whole.drop_last() =~= first + second.drop_last().drop_first());
        assert(whole.last() == second.last());
        assert(whole[whole.len() - 2] == second[second.len() - 2]);
    }
}

/// The most steps that one walk takes. A walk that has taken so many ends
/// where it stands.
pub const MAX_WALK_STEPS: usize = 1024;

/// The counts of the steps, in their order: the weights of the choice among
/// them.
pub open spec fn counts_of(outs: Seq<SonorityGraphEdge>) -> Seq<usize> {
    Seq::new(outs.len(), |i: int| outs[i].count)
}

/// Where a walk stands after a step to `to`: at `to`, unless the syllable
/// ends there or no such node is registered.
pub open spec fn arrival(g: GraphModel, to: NodeID) -> Option<NodeID> {
    if g.contains_key(to) && !(to.data is Stop) {
        Some(to)
    } else {
        None
    }
}

/// Whether a walk that stands at `cur` and draws `draw` goes on to `next`,
/// or ends when `next` is `None`: the draw selects one of the steps from
/// `cur`, weighted by their counts.
pub open spec fn leads(g: GraphModel, cur: NodeID, draw: int, next: Option<NodeID>) -> bool {
    &&& g.contains_key(cur)
    &&& exists|i: int| #[trigger]
        selects(counts_of(g[cur]), draw, i) && next == arrival(g, g[cur][i].to)
}

/// Whether some draw takes a walk from `a` on to `b`.
pub open spec fn can_step(g: GraphModel, a: NodeID, b: NodeID) -> bool {
    exists|draw: int| 0 <= draw && #[trigger] leads(g, a, draw, Some(b))
}

/// Whether a walk may end at `cur`: no such node is registered, or it has
/// no step to choose from, or the counts of its steps are too large to draw
/// from, or some draw ends the walk.
pub open spec fn may_end(g: GraphModel, cur: NodeID) -> bool {
    ||| !g.contains_key(cur)
    ||| total_weight(counts_of(g[cur])) == 0
    ||| total_weight(counts_of(g[cur])) > usize::MAX
    ||| exists|draw: int| 0 <= draw && #[trigger] leads(g, cur, draw, None)
}

/// Whether `path` is a walk from `root`: each node leads to the next by
/// some draw, and the walk ends where it may end or has taken the most
/// steps that a walk takes.
pub open spec fn is_walk(g: GraphModel, root: NodeID, path: Seq<NodeID>) -> bool {
    &&& path.len() >= 1
    &&& path[0] == root
    &&& forall|k: int| 0 <= k < path.len() - 1 ==> can_step(g, #[trigger] path[k], path[k + 1])
    &&& path.len() - 1 <= MAX_WALK_STEPS
    &&& (path.len() - 1 == MAX_WALK_STEPS || may_end(g, path.last()))
}

/// The sounds of the phoneme nodes of a path, in order.
pub open spec fn sounds_of(path: Seq<NodeID>) -> Seq<Phoneme>
    decreases path.len(),
{
    if path.len() == 0 {
        Seq::empty()
    } else {
        match path.last().data {
            NodeData::Phoneme(p) => sounds_of(path.drop_last()).push(p),
            _ => sounds_of(path.drop_last()),
        }
    }
}

/// The node from which the syllables that begin with `start` are walked: a
/// vowel begins in the nucleus, a consonant in the onset.
pub open spec fn root_of(start: Phoneme) -> NodeID {
    NodeID {
        data: NodeData::Phoneme(start),
        part: if start.vowel() {
            SyllablePart::Nucleus
        } else {
            SyllablePart::Onset
        },
    }
}

/// `HashMap::get_mut`: a mutable reference to the value stored under `key`,
/// or `None`, with the map unchanged, when nothing is stored under it. What
/// is written through the reference is what the map then holds under `key`.
/// The lookup of an integer key does not panic.
#[verifier::external_body]
fn slot<'a>(nodes: &'a mut HashMap<u128, SonorityGraphNode>, key: u128) -> (found: Option<
    &'a mut SonorityGraphNode,
>)
    ensures
        match found {
            Some(node) => {
                &&& old(nodes)@.contains_key(key)
                &&& *node == old(nodes)@[key]
                &&& final(nodes)@ == old(nodes)@.insert(key, *final(node))
            },
            None => !old(nodes)@.contains_key(key) && final(nodes)@ == old(nodes)@,
        },
    no_unwind
{
    nodes.get_mut(&key)
}

impl SonorityGraphNode {
    /// A node without steps.
    pub fn new() -> (node: SonorityGraphNode)
        ensures
            node.outs@ == Seq::<SonorityGraphEdge>::empty(),
    {
        Self { outs: Vec::new() }
    }

    /// Takes the walk to the node `id`: the sound of a phoneme node is added
    /// to the syllable. The answer says whether the walk goes on from here:
    /// it does not from the end of the syllable.
    pub fn evaluate(&self, result: &mut SonorityGraphResult, id: NodeID) -> (goes_on: bool)
        ensures
            goes_on == !(id.data is Stop),
            final(result).0@ == match id.data {
                NodeData::Phoneme(p) => old(result).0@.push(p),
                _ => old(result).0@,
            },
    {
        match id.data {
            NodeData::Phoneme(phoneme) => {
                result.0.add_phoneme(phoneme);
                true
            },
            NodeData::Start => true,
            NodeData::Stop => false,
        }
    }

    /// Records that the step from `from` to `to` was seen once more.
    fn observe(&mut self, from: NodeID, to: NodeID)
        requires
            forall|i: int|
                0 <= i < old(self).outs@.len() && joins(#[trigger] old(self).outs@[i], from, to)
                    ==> old(self).outs@[i].count < usize::MAX,
        ensures
            final(self).outs@ == observed(old(self).outs@, from, to),
    {
        let mut has_edge = false;
        let mut k: usize = 0;
        while k < self.outs.len()
            invariant
                k <= self.outs.len(),
                self.outs@.len() == old(self).outs@.len(),
                forall|i: int|
                    0 <= i < k ==> self.outs@[i] == bumped(old(self).outs@, from, to)[i],
                forall|i: int| k <= i < self.outs@.len() ==> self.outs@[i] == old(self).outs@[i],
                has_edge == has_step(old(self).outs@.take(k as int), from, to),
                forall|i: int|
                    0 <= i < old(self).outs@.len() && joins(
                        #[trigger] old(self).outs@[i],
                        from,
                        to,
                    ) ==> old(self).outs@[i].count < usize::MAX,
            decreases self.outs.len() - k,
        {
            let edge = self.outs[k];
            let ghost seen = old(self).outs@.take(k as int);
            let ghost seen_next = old(self).outs@.take(k + 1);
            if edge.from == from && edge.to == to {
                has_edge = true;
                self.outs.set(k, SonorityGraphEdge { from, to, count: edge.count + 1 });
                assert(joins(seen_next[k as int], from, to));
            } else {
                assert forall|i: int| 0 <= i < seen_next.len() && joins(seen_next[i], from, to)
                    implies 0 <= i < seen.len() && joins(seen[i], from, to) by {}
            }
            assert forall|i: int| 0 <= i < seen.len() && joins(seen[i], from, to) implies joins(
                seen_next[i],
                from,
                to,
            ) by {}
            k += 1;
        }
        assert(old(self).outs@.take(k as int) =~= old(self).outs@);
        if !has_edge {
            self.outs.push(SonorityGraphEdge { from, to, count: 1 });
            assert(self.outs@ =~= old(self).outs@.push(SonorityGraphEdge { from, to, count: 1 }));
        } else {
            assert(self.outs@ =~= bumped(old(self).outs@, from, to));
        }
    }
}

/// A weighted directed graph over the sounds of syllables at their
/// positions.
pub struct SonorityGraph {
    /// The nodes, each under the key of its identity.
    nodes: HashMap<u128, SonorityGraphNode>,
    /// The identities of the nodes, in the order in which they were
    /// registered.
    order: Vec<NodeID>,
}

/// A graph written down node by node: each node's identity with its
/// outgoing steps.
pub type Snapshot = Vec<(NodeID, Vec<SonorityGraphEdge>)>;

/// What a snapshot holds, as a mathematical object.
pub open spec fn snapshot_view(entries: Seq<(NodeID, Vec<SonorityGraphEdge>)>) -> Seq<
    (NodeID, Seq<SonorityGraphEdge>),
> {
    Seq::new(entries.len(), |i: int| (entries[i].0, entries[i].1@))
}

/// The graph that a snapshot describes: each node with the steps written
/// down for it. Of two entries for one node, the later counts.
pub open spec fn restored(entries: Seq<(NodeID, Seq<SonorityGraphEdge>)>) -> GraphModel
    decreases entries.len(),
{
    if entries.len() == 0 {
        GraphModel::empty()
    } else {
        restored(entries.drop_last()).insert(entries.last().0, entries.last().1)
    }
}

impl View for SonorityGraph {
    type V = GraphModel;

    closed spec fn view(&self) -> GraphModel {
        Map::new(
            |id: NodeID| self.nodes@.contains_key(id.key() as u128),
            |id: NodeID| self.nodes@[id.key() as u128].outs@,
        )
    }
}

impl SonorityGraph {
    /// Every stored node is listed, and every listed node is stored.
    #[verifier::type_invariant]
    spec fn listed(self) -> bool {
        &&& forall|i: int|
            0 <= i < self.order@.len() ==> self.nodes@.contains_key(
                (#[trigger] self.order@[i]).key() as u128,
            )
        &&& forall|id: NodeID|
            self.nodes@.contains_key(#[trigger] id.key() as u128) ==> self.order@.contains(id)
    }

    /// A graph without nodes.
    pub fn empty() -> (graph: Self)
        ensures
            graph@ == GraphModel::empty(),
    {
        let graph = Self { nodes: HashMap::new(), order: Vec::new() };
        assert(graph@ =~= GraphModel::empty());
        graph
    }

    /// Writes the graph down node by node, in the order in which the nodes
    /// were registered. What is restored from the snapshot is the graph.
    pub fn snapshot(&self) -> (entries: Snapshot)
        ensures
            restored(snapshot_view(entries@)) == self@,
    {
        proof {
            use_type_invariant(self);
        }
        let mut entries: Snapshot = Vec::new();
        let mut k: usize = 0;
        assert(restored(snapshot_view(entries@)) =~= self@.restrict(
            self.order@.take(0).to_set(),
        ));
        while k < self.order.len()
            invariant
                k <= self.order.len(),
                self.listed(),
                restored(snapshot_view(entries@)) == self@.restrict(
                    self.order@.take(k as int).to_set(),
                ),
            decreases self.order.len() - k,
        {
            let id = self.order[k];
            let node = self.get_node_unchecked(id);
            let mut outs: Vec<SonorityGraphEdge> = Vec::new();
            let mut e: usize = 0;
            while e < node.outs.len()
                invariant
                    e <= node.outs.len(),
                    outs@ == node.outs@.take(e as int),
                decreases node.outs.len() - e,
            {
                outs.push(node.outs[e]);
                e += 1;
                assert(outs@ =~= node.outs@.take(e as int));
            }
            assert(outs@ =~= node.outs@);
            let ghost before = snapshot_view(entries@);
            entries.push((id, outs));
            proof {
                let after = snapshot_view(entries@);
                assert(after.drop_last() =~= before);
                assert(after.last() == (id, self@[id]));
                let seen = self.order@.take(k as int).to_set();
                let seen_next = self.order@.take(k + 1).to_set();
                assert(self.order@.take(k + 1) =~= self.order@.take(k as int).push(id));
                assert(seen_next =~= seen.insert(id)) by {
                    assert forall|x: NodeID| seen_next.contains(x) <==> seen.insert(id).contains(
                        x,
                    ) by {
                        let a = self.order@.take(k as int);
                        let b = self.order@.take(k + 1);
                        if a.contains(x) {
                            let at = choose|at: int| 0 <= at < a.len() && a[at] == x;
                            assert(b[at] == x);
                        }
                        if x == id {
                            assert(b[k as int] == id);
                        }
                        if b.contains(x) {
                            let at = choose|at: int| 0 <= at < b.len() && b[at] == x;
                            if at < k {
                                assert(a[at] == x);
                            }
                        }
                    }
                }
                assert(restored(after) =~= self@.restrict(seen_next));
            }
            k += 1;
        }
        proof {
            assert(self.order@.take(k as int) =~= self.order@);
            assert(self@.restrict(self.order@.to_set()) =~= self@);
        }
        entries
    }

    /// The graph that a snapshot describes.
    pub fn restore(entries: &Snapshot) -> (graph: Self)
        ensures
            graph@ == restored(snapshot_view(entries@)),
    {
        let ghost all = snapshot_view(entries@);
        let mut graph = Self::empty();
        let mut k: usize = 0;
        assert(all.take(0) =~= Seq::<(NodeID, Seq<SonorityGraphEdge>)>::empty());
        while k < entries.len()
            invariant
                k <= entries.len(),
                all == snapshot_view(entries@),
                graph@ == restored(all.take(k as int)),
            decreases entries.len() - k,
        {
            let id = entries[k].0;
            let mut outs: Vec<SonorityGraphEdge> = Vec::new();
            let mut e: usize = 0;
            while e < entries[k].1.len()
                invariant
                    e <= entries[k as int].1.len(),
                    k < entries.len(),
                    outs@ == entries[k as int].1@.take(e as int),
                decreases entries[k as int].1.len() - e,
            {
                outs.push(entries[k].1[e]);
                e += 1;
                assert(outs@ =~= entries[k as int].1@.take(e as int));
            }
            assert(outs@ =~= entries[k as int].1@);
            proof {
                assert(all.take(k + 1).drop_last() =~= all.take(k as int));
                assert(all.take(k + 1).last() == (id, outs@));
            }
            graph.put(id, outs);
            k += 1;
        }
        assert(all.take(k as int) =~= all);
        graph
    }

    /// Stores a node with its steps, in place of what was stored for it.
    fn put(&mut self, id: NodeID, outs: Vec<SonorityGraphEdge>)
        ensures
            final(self)@ == old(self)@.insert(id, outs@),
    {
        proof {
            use_type_invariant(&*self);
        }
        let key = id.key_of();
        let ghost order_before = self.order@;
        let mut taken = Self::empty();
        std::mem::swap(self, &mut taken);
        let Self { mut nodes, mut order } = taken;
        if !nodes.contains_key(&key) {
            order.push(id);
        }
        nodes.insert(key, SonorityGraphNode { outs });
        proof {
            assert forall|other: NodeID| other.key() == id.key() implies other == id by {
                lemma_key_is_injective(other, id);
            }
            assert forall|i: int| 0 <= i < order@.len() implies nodes@.contains_key(
                (#[trigger] order@[i]).key() as u128,
            ) by {
                if i < order_before.len() {
                    assert(order@[i] == order_before[i]);
                }
            }
            assert forall|x: NodeID|
                nodes@.contains_key(#[trigger] x.key() as u128) implies order@.contains(x) by {
                if x == id {
                    if old(self).nodes@.contains_key(key) {
                        assert(order_before.contains(id));
                    } else {
                        assert(order@[order@.len() - 1] == id);
                    }
                } else {
                    assert(order_before.contains(x));
                    let at = choose|at: int| 0 <= at < order_before.len() && order_before[at] == x;
                    assert(order@[at] == x);
                }
            }
        }
        *self = Self { nodes, order };
        assert(self@ =~= old(self)@.insert(id, outs@));
    }

    /// Registers a node. A node that is registered already keeps its steps.
    pub fn add_node(&mut self, id: NodeID)
        ensures
            final(self)@ == with_node(old(self)@, id),
    {
        if self.get_node(id).is_none() {
            self.put(id, Vec::new());
        }
    }

    /// Records that the step from `from` to `to` was seen once more. The
    /// step is dropped unless both nodes are registered.
    pub fn add_edge(&mut self, from: NodeID, to: NodeID)
        requires
            can_count(old(self)@, from, to),
        ensures
            final(self)@ == with_edge(old(self)@, from, to),
    {
        if self.get_node(to).is_none() {
            return ;
        }
        if let Some(from_node) = self.get_node_mut(from) {
            from_node.observe(from, to);
        }
    }

    /// The node registered under `id`, if there is one.
    pub fn get_node(&self, id: NodeID) -> (found: Option<&SonorityGraphNode>)
        ensures
            match found {
                Some(node) => self@.contains_key(id) && node.outs@ == self@[id],
                None => !self@.contains_key(id),
            },
    {
        let key = id.key_of();
        self.nodes.get(&key)
    }

    /// The node registered under `id`, if there is one, to be changed in
    /// place: the graph then holds under `id` the steps that were written.
    pub fn get_node_mut(&mut self, id: NodeID) -> (found: Option<&mut SonorityGraphNode>)
        ensures
            match found {
                Some(node) => {
                    &&& old(self)@.contains_key(id)
                    &&& node.outs@ == old(self)@[id]
                    &&& final(self)@ == old(self)@.insert(id, final(node).outs@)
                },
                None => !old(self)@.contains_key(id) && final(self)@ == old(self)@,
            },
    {
        let key = id.key_of();
        proof {
            use_type_invariant(&*self);
            assert forall|other: NodeID| other.key() == id.key() implies other == id by {
                lemma_key_is_injective(other, id);
            }
        }
        slot(&mut self.nodes, key)
    }

    /// The node registered under `id`.
    pub fn get_node_unchecked(&self, id: NodeID) -> (node: &SonorityGraphNode)
        requires
            self@.contains_key(id),
        ensures
            node.outs@ == self@[id],
    {
        let key = id.key_of();
        self.nodes.get(&key).unwrap()
    }

    /// Records each step of a path, first to last.
    pub fn add_path(&mut self, path: &Vec<NodeID>)
        requires
            counts_within(old(self)@, usize::MAX - steps_of(path@)),
        ensures
            final(self)@ == with_path(old(self)@, path@),
    {
        if path.len() < 2 {
            return ;
        }
        let mut k: usize = 1;
        while k < path.len()
            invariant
                1 <= k <= path.len(),
                self@ == with_path(old(self)@, path@.take(k as int)),
                counts_within(self@, usize::MAX - steps_of(path@) + k - 1),
            decreases path.len() - k,
        {
            let from = path[k - 1];
            let to = path[k];
            proof {
                lemma_link_counts(self@, from, to, usize::MAX - steps_of(path@) + k - 1);
                assert(path@.take(k + 1).drop_last() =~= path@.take(k as int));
            }
            self.add_node(from);
            self.add_node(to);
            self.add_edge(from, to);
            k += 1;
        }
        assert(path@.take(k as int) =~= path@);
    }

    /// The path of one part of a syllable.
    pub fn part_nodes(part: SyllablePart, phonemes: &Vec<Phoneme>, next: NodeData) -> (path: Vec<
        NodeID,
    >)
        ensures
            path@ == part_path(part, phonemes@, next),
    {
        let mut path: Vec<NodeID> = Vec::new();
        match part {
            SyllablePart::Onset => {
                path.push(NodeID { data: NodeData::Start, part: SyllablePart::Onset });
                let mut k: usize = 0;
                while k < phonemes.len()
                    invariant
                        k <= phonemes.len(),
                        path@ == seq![start_node()] + nodes_at(
                            phonemes@.take(k as int),
                            SyllablePart::Onset,
                        ),
                    decreases phonemes.len() - k,
                {
                    path.push(
                        NodeID { data: NodeData::Phoneme(phonemes[k]), part: SyllablePart::Onset },
                    );
                    k += 1;
                    assert(path@ =~= seq![start_node()] + nodes_at(
                        phonemes@.take(k as int),
                        SyllablePart::Onset,
                    ));
                }
                assert(phonemes@.take(k as int) =~= phonemes@);
                path.push(NodeID { data: next, part: SyllablePart::Nucleus });
            },
            SyllablePart::Nucleus => {
                if phonemes.len() > 0 {
                    let mut k: usize = 0;
                    while k < phonemes.len()
                        invariant
                            k <= phonemes.len(),
                            path@ == nodes_at(phonemes@.take(k as int), SyllablePart::Nucleus),
                        decreases phonemes.len() - k,
                    {
                        path.push(
                            NodeID {
                                data: NodeData::Phoneme(phonemes[k]),
                                part: SyllablePart::Nucleus,
                            },
                        );
                        k += 1;
                        assert(path@ =~= nodes_at(
                            phonemes@.take(k as int),
                            SyllablePart::Nucleus,
                        ));
                    }
                    assert(phonemes@.take(k as int) =~= phonemes@);
                    path.push(NodeID { data: next, part: SyllablePart::Coda { layer: 1 } });
                }
            },
            SyllablePart::Coda { layer: _ } => {
                if phonemes.len() > 0 {
                    let mut k: usize = 0;
                    while k < phonemes.len()
                        invariant
                            k <= phonemes.len(),
                            path@ == coda_nodes(phonemes@.take(k as int)),
                        decreases phonemes.len() - k,
                    {
                        path.push(
                            NodeID {
                                data: NodeData::Phoneme(phonemes[k]),
                                part: SyllablePart::Coda { layer: k + 1 },
                            },
                        );
                        k += 1;
                        assert(path@ =~= coda_nodes(phonemes@.take(k as int)));
                    }
                    assert(phonemes@.take(k as int) =~= phonemes@);
                    path.push(
                        NodeID { data: NodeData::Stop, part: SyllablePart::Coda { layer: 0 } },
                    );
                }
            },
        }
        path
    }

    /// Records the path of one part of a syllable.
    pub fn update_graph_part(&mut self, part: SyllablePart, phonemes: Vec<Phoneme>, next: NodeData)
        requires
            counts_within(old(self)@, usize::MAX - steps_of(part_path(part, phonemes@, next))),
        ensures
            final(self)@ == with_path(old(self)@, part_path(part, phonemes@, next)),
    {
        let path = Self::part_nodes(part, &phonemes, next);
        self.add_path(&path);
    }

    /// Records one syllable of the corpus: the paths of its onset, of its
    /// nucleus and of its coda, which together lead from the start to the end.
    /// A run of phonemes that is not a well-formed syllable is passed over.
    pub fn add_syllable(&mut self, syllable: &Syllable)
        requires
            counts_within(old(self)@, usize::MAX - syllable@.len() - 1),
        ensures
            final(self)@ == with_syllable(old(self)@, syllable@),
    {
        if let Some((onset, nucleus, coda)) = syllable.split() {
            let first_vowel = NodeData::Phoneme(nucleus[0]);
            let after_nucleus = if coda.len() > 0 {
                NodeData::Phoneme(coda[0])
            } else {
                NodeData::Stop
            };
            let ghost bound = usize::MAX - syllable@.len() - 1;
            let ghost onset_path = part_path(SyllablePart::Onset, onset@, first_vowel);
            let ghost nucleus_path = part_path(SyllablePart::Nucleus, nucleus@, after_nucleus);
            let ghost last_path = part_path(SyllablePart::Coda { layer: 1 }, coda@, NodeData::Stop);
            let ghost whole = syllable_path(onset@, nucleus@, coda@);
            proof {
                assert(onset@.len() + nucleus@.len() + coda@.len() == syllable@.len());
                lemma_path_counts(self@, onset_path, bound);
                lemma_path_counts(
                    with_path(self@, onset_path),
                    nucleus_path,
                    bound + steps_of(onset_path),
                );
                lemma_paths_join(self@, onset_path, nucleus_path);
                let joined = onset_path + nucleus_path.drop_first();
                if coda@.len() > 0 {
                    lemma_paths_join(self@, joined, last_path);
                    assert(joined + last_path.drop_first() =~= whole);
                } else {
                    assert(joined =~= whole);
                }
            }
            self.update_graph_part(SyllablePart::Onset, onset, first_vowel);
            self.update_graph_part(SyllablePart::Nucleus, nucleus, after_nucleus);
            self.update_graph_part(SyllablePart::Coda { layer: 1 }, coda, NodeData::Stop);
        }
    }

    /// Records every syllable of every word of a corpus, in the order of the
    /// corpus.
    pub fn build(&mut self, syl_phones: &SyllablizedPhonemes)
        requires
            counts_within(old(self)@, usize::MAX - corpus_steps(syl_phones.sounds())),
        ensures
            final(self)@ == with_corpus(old(self)@, syl_phones.sounds()),
    {
        let ghost words = syl_phones.sounds();
        let ghost room = usize::MAX - corpus_steps(words);
        let mut w: usize = 0;
        while w < syl_phones.words.len()
            invariant
                w <= syl_phones.words.len(),
                words == syl_phones.sounds(),
                room == usize::MAX - corpus_steps(words),
                self@ == with_corpus(old(self)@, words.take(w as int)),
                counts_within(self@, room + corpus_steps(words.take(w as int))),
            decreases syl_phones.words.len() - w,
        {
            let syllables = &syl_phones.words[w].1;
            let ghost word = words[w as int];
            let ghost before = self@;
            let ghost spent = room + corpus_steps(words.take(w as int));
            proof {
                assert(words.take(w + 1).drop_last() =~= words.take(w as int));
                lemma_steps_grow(words, w + 1, word, 0);
            }
            let mut k: usize = 0;
            while k < syllables.len()
                invariant
                    k <= syllables.len(),
                    word.len() == syllables.len(),
                    forall|i: int| 0 <= i < word.len() ==> word[i] == syllables@[i]@,
                    self@ == with_word(before, word.take(k as int)),
                    counts_within(self@, spent + word_steps(word.take(k as int))),
                    spent + word_steps(word) <= usize::MAX,
                decreases syllables.len() - k,
            {
                proof {
                    assert(word.take(k + 1).drop_last() =~= word.take(k as int));
                    lemma_steps_grow(words.take(0), 0, word, k + 1);
                    lemma_syllable_counts(
                        self@,
                        word[k as int],
                        spent + word_steps(word.take(k as int)),
                    );
                }
                self.add_syllable(&syllables[k]);
                k += 1;
            }
            assert(word.take(k as int) =~= word);
            w += 1;
        }
        assert(words.take(w as int) =~= words);
    }

    /// The number of steps on the paths of the syllables of a corpus, when
    /// it fits the machine word: a graph can then be built of the corpus.
    pub fn count_steps(syl_phones: &SyllablizedPhonemes) -> (steps: Option<usize>)
        ensures
            match steps {
                Some(n) => n == corpus_steps(syl_phones.sounds()),
                None => corpus_steps(syl_phones.sounds()) > usize::MAX,
            },
    {
        let ghost words = syl_phones.sounds();
        let mut total: usize = 0;
        let mut w: usize = 0;
        while w < syl_phones.words.len()
            invariant
                w <= syl_phones.words.len(),
                words == syl_phones.sounds(),
                total == corpus_steps(words.take(w as int)),
            decreases syl_phones.words.len() - w,
        {
            let syllables = &syl_phones.words[w].1;
            let ghost word = words[w as int];
            proof {
                assert(words.take(w + 1).drop_last() =~= words.take(w as int));
                lemma_steps_grow(words, w + 1, word, 0);
            }
            let mut k: usize = 0;
            let mut sum: usize = total;
            while k < syllables.len()
                invariant
                    k <= syllables.len(),
                    word.len() == syllables.len(),
                    forall|i: int| 0 <= i < word.len() ==> word[i] == syllables@[i]@,
                    words == syl_phones.sounds(),
                    sum == total + word_steps(word.take(k as int)),
                    total + word_steps(word) <= corpus_steps(words),
                decreases syllables.len() - k,
            {
                let n: usize = syllables[k].len();
                proof {
                    assert(word.take(k + 1).drop_last() =~= word.take(k as int));
                    lemma_steps_grow(words.take(0), 0, word, k + 1);
                }
                if n >= usize::MAX - sum {
                    return None;
                }
                sum = sum + n + 1;
                k += 1;
            }
            assert(word.take(k as int) =~= word);
            total = sum;
            w += 1;
        }
        assert(words.take(w as int) =~= words);
        Some(total)
    }

    /// The graph of a corpus.
    pub fn new(syl_phones: &SyllablizedPhonemes) -> (graph: Self)
        requires
            corpus_steps(syl_phones.sounds()) <= usize::MAX,
        ensures
            graph@ == with_corpus(GraphModel::empty(), syl_phones.sounds()),
    {
        let mut graph = Self::empty();
        graph.build(syl_phones);
        graph
    }

    /// The counts of the steps from a node, in their order.
    fn weights(node: &SonorityGraphNode) -> (weights: Vec<usize>)
        ensures
            weights@ == counts_of(node.outs@),
    {
        let mut weights: Vec<usize> = Vec::new();
        let mut k: usize = 0;
        while k < node.outs.len()
            invariant
                k <= node.outs.len(),
                weights@ == counts_of(node.outs@).take(k as int),
            decreases node.outs.len() - k,
        {
            weights.push(node.outs[k].count);
            k += 1;
            assert(weights@ =~= counts_of(node.outs@).take(k as int));
        }
        assert(weights@ =~= counts_of(node.outs@));
        weights
    }

    /// Where a walk that stands at `cur` goes on to when it draws `draw`, or
    /// `None` when that draw ends it.
    pub fn follow(&self, cur: NodeID, draw: usize) -> (next: Option<NodeID>)
        requires
            self@.contains_key(cur),
            draw < total_weight(counts_of(self@[cur])),
        ensures
            leads(self@, cur, draw as int, next),
    {
        let node = self.get_node_unchecked(cur);
        let weights = Self::weights(node);
        let i = weighted_index(&weights, draw);
        let to = node.outs[i].to;
        let next = match self.get_node(to) {
            Some(_) => match to.data {
                NodeData::Stop => None,
                _ => Some(to),
            },
            None => None,
        };
        assert(selects(counts_of(self@[cur]), draw as int, i as int));
        next
    }

    /// One step of a walk: draws among the steps from `cur`, weighted by
    /// their counts, and follows the step drawn.
    fn step(&self, cur: NodeID, rng: &mut ThreadRng) -> (next: Option<NodeID>)
        ensures
            match next {
                Some(to) => can_step(self@, cur, to) && self@.contains_key(to) && !(to.data
                    is Stop),
                None => may_end(self@, cur),
            },
    {
        match self.get_node(cur) {
            None => None,
            Some(node) => {
                let weights = Self::weights(node);
                match checked_total(&weights) {
                    None => None,
                    Some(total) => {
                        if total == 0 {
                            None
                        } else {
                            let draw = draw_below(rng, total);
                            let next = self.follow(cur, draw);
                            assert(leads(self@, cur, draw as int, next));
                            next
                        }
                    },
                }
            },
        }
    }

    /// Walks on from `cur_id` and adds the sounds of the nodes that the walk
    /// reaches to the syllable. Each step is drawn among the steps from the
    /// node where the walk stands, weighted by their counts. The walk ends
    /// with a step to the end of the syllable or to a node that is not
    /// registered, at a node without a step to draw, or after
    /// `MAX_WALK_STEPS` steps.
    pub fn eval(&self, result: &mut SonorityGraphResult, cur_id: NodeID, rng: &mut ThreadRng)
        ensures
            exists|path: Seq<NodeID>| #[trigger]
                is_walk(self@, cur_id, path) && final(result).0@ == old(result).0@ + sounds_of(
                    path.skip(1),
                ),
    {
        let ghost mut path: Seq<NodeID> = seq![cur_id];
        let mut cur = cur_id;
        let mut steps: usize = 0;
        let mut ended = false;
        assert(path.skip(1) =~= Seq::<NodeID>::empty());
        assert(result.0@ =~= old(result).0@ + sounds_of(path.skip(1)));
        while steps < MAX_WALK_STEPS && !ended
            invariant
                path.len() == steps + 1,
                steps <= MAX_WALK_STEPS,
                path[0] == cur_id,
                path.last() == cur,
                forall|k: int|
                    0 <= k < path.len() - 1 ==> can_step(self@, #[trigger] path[k], path[k + 1]),
                result.0@ == old(result).0@ + sounds_of(path.skip(1)),
                ended ==> may_end(self@, cur),
            decreases MAX_WALK_STEPS - steps + (if ended { 0nat } else { 1nat }),
        {
            match self.step(cur, rng) {
                None => {
                    ended = true;
                },
                Some(to) => {
                    let ghost before = path;
                    let next_node = self.get_node_unchecked(to);
                    let goes_on = next_node.evaluate(result, to);
                    assert(goes_on);
                    proof {
                        path = path.push(to);
                        assert(path.skip(1) =~= before.skip(1).push(to));
                        assert(path.skip(1).drop_last() =~= before.skip(1));
                        assert forall|k: int| 0 <= k < path.len() - 1 implies can_step(
                            self@,
                            #[trigger] path[k],
                            path[k + 1],
                        ) by {
                            if k < before.len() - 1 {
                                assert(path[k] == before[k] && path[k + 1] == before[k + 1]);
                            }
                        }
                    }
                    cur = to;
                    steps += 1;
                },
            }
        }
        assert(is_walk(self@, cur_id, path));
    }

    /// A syllable walked from the start. In a graph without the start node
    /// the walk ends where it begins, and the syllable is empty.
    pub fn evaluate(&self, rng: &mut ThreadRng) -> (result: SonorityGraphResult)
        ensures
            exists|path: Seq<NodeID>| #[trigger]
                is_walk(self@, start_node(), path) && result.0@ == sounds_of(path),
    {
        let mut result = SonorityGraphResult(Syllable::empty());
        let root_id = NodeID { data: NodeData::Start, part: SyllablePart::Onset };
        self.eval(&mut result, root_id, rng);
        proof {
            let path = choose|path: Seq<NodeID>| #[trigger]
                is_walk(self@, root_id, path) && result.0@ == Seq::<Phoneme>::empty() + sounds_of(
                    path.skip(1),
                );
            lemma_sounds_after_root(path);
            assert(result.0@ =~= sounds_of(path));
        }
        result
    }

    /// A syllable that begins with `start`, walked from the node of that
    /// sound. Where no such node is registered, the walk ends where it
    /// begins, and the syllable is that sound alone.
    pub fn evaluate_from_start(&self, start: Phoneme, rng: &mut ThreadRng) -> (result:
        SonorityGraphResult)
        ensures
            exists|path: Seq<NodeID>| #[trigger]
                is_walk(self@, root_of(start), path) && result.0@ == sounds_of(path),
            result.0@.len() > 0,
            result.0@[0] == start,
    {
        let mut result = SonorityGraphResult(Syllable::empty());
        let root_id = NodeID {
            data: NodeData::Phoneme(start),
            part: match start.is_vowel() {
                true => SyllablePart::Nucleus,
                false => SyllablePart::Onset,
            },
        };
        result.0.add_phoneme(start);
        let ghost begun = result.0@;
        self.eval(&mut result, root_id, rng);
        proof {
            let path = choose|path: Seq<NodeID>| #[trigger]
                is_walk(self@, root_id, path) && result.0@ == begun + sounds_of(path.skip(1));
            lemma_sounds_after_root(path);
            assert(begun =~= seq![start]);
            assert(result.0@ =~= sounds_of(path));
        }
        result
    }
}

/// The sounds of a path are the sound of its first node, if that is a
/// phoneme node, and then the sounds of the rest.
pub proof fn lemma_sounds_after_root(path: Seq<NodeID>)
    requires
        path.len() >= 1,
    ensures
        sounds_of(path) == match path[0].data {
            NodeData::Phoneme(p) => seq![p] + sounds_of(path.skip(1)),
            _ => sounds_of(path.skip(1)),
        },
    decreases path.len(),
{
    if path.len() == 1 {
        assert(path.drop_last() =~= Seq::<NodeID>::empty());
        assert(path.skip(1) =~= Seq::<NodeID>::empty());
        assert(sounds_of(path.drop_last()) =~= Seq::<Phoneme>::empty());
        match path[0].data {
            NodeData::Phoneme(p) => {
                assert(sounds_of(path) =~= seq![p] + sounds_of(path.skip(1)));
            },
            _ => {},
        }
    } else {
        lemma_sounds_after_root(path.drop_last());
        assert(path.drop_last().skip(1) =~= path.skip(1).drop_last());
        assert(path.skip(1).last() == path.last());
        assert(path.drop_last()[0] == path[0]);
        match path[0].data {
            NodeData::Phoneme(p) => {
                match path.last().data {
                    NodeData::Phoneme(q) => {
                        assert(sounds_of(path) =~= seq![p] + sounds_of(path.skip(1)));
                    },
                    _ => {},
                }
            },
            _ => {},
        }
    }
}

} // verus!
