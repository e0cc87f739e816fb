//! What holds of every graph that is built of a corpus, and of every
//! syllable that is walked in such a graph.

use vstd::prelude::*;
use crate::graph::{
    arrival, bumped, can_count, can_step, coda_nodes, coda_path, corpus_steps, counts_of,
    has_step, is_walk, joins, leads, may_end, nodes_at, observed, root_of, sounds_of, start_node,
    steps_of, syllable_path, with_corpus, with_link, with_node, with_path, with_syllable,
    with_word, word_steps, GraphModel, NodeData, NodeID, SonorityGraphEdge, MAX_WALK_STEPS,
};
use crate::phoneme::{Phoneme, SyllablePart};
use crate::syllable::{
    all_consonants, all_vowels, divides_at, lemma_division_is_unique, well_formed,
};
use crate::syllablize::CorpusSounds;
use crate::utils::{
    lemma_prefix_weight_agrees, lemma_weight_within_total, prefix_weight, selects, total_weight,
};

verus! {

/// Whether what a node stands for fits its position: the start and
/// consonants in the onset, vowels in the nucleus, consonants and the end in
/// the coda.
pub open spec fn fits(id: NodeID) -> bool {
    match id.part {
        SyllablePart::Onset => match id.data {
            NodeData::Start => true,
            NodeData::Phoneme(p) => !p.vowel(),
            NodeData::Stop => false,
        },
        SyllablePart::Nucleus => match id.data {
            NodeData::Phoneme(p) => p.vowel(),
            _ => false,
        },
        SyllablePart::Coda { .. } => match id.data {
            NodeData::Phoneme(p) => !p.vowel(),
            NodeData::Stop => true,
            NodeData::Start => false,
        },
    }
}

/// Whether a step from `a` to `b` goes forward in the syllable: it stays in
/// the part of `a` or enters the next part, it does not leave the end, and
/// it does not enter the start.
pub open spec fn advances(a: NodeID, b: NodeID) -> bool {
    &&& !(a.data is Stop)
    &&& !(b.data is Start)
    &&& match a.part {
        SyllablePart::Onset => b.part is Onset || b.part is Nucleus,
        SyllablePart::Nucleus => b.part is Nucleus || b.part is Coda,
        SyllablePart::Coda { .. } => b.part is Coda,
    }
}

/// Whether a graph is layered: every node fits its position, and every step
/// leads forward to a registered node.
pub open spec fn layered(g: GraphModel) -> bool {
    &&& forall|id: NodeID| #[trigger] g.contains_key(id) ==> fits(id)
    &&& forall|id: NodeID, i: int|
        g.contains_key(id) && 0 <= i < g[id].len() ==> g.contains_key((#[trigger] g[id][i]).to)
            && advances(id, g[id][i].to)
}

/// Whether a graph is tidy: every step is stored with the node that it
/// leaves, and no node stores two steps to the same node.
pub open spec fn tidy(g: GraphModel) -> bool {
    &&& forall|id: NodeID, i: int|
        g.contains_key(id) && 0 <= i < g[id].len() ==> (#[trigger] g[id][i]).from == id
    &&& forall|id: NodeID, i: int, j: int|
        g.contains_key(id) && 0 <= i < j < g[id].len() ==> (#[trigger] g[id][i]).to != (
        #[trigger] g[id][j]).to
}

/// How often the step from `from` to `to` was seen: its count, or zero when
/// the graph has no such step.
pub open spec fn count_of(g: GraphModel, from: NodeID, to: NodeID) -> nat {
    if g.contains_key(from) && has_step(g[from], from, to) {
        let i = choose|i: int| 0 <= i < g[from].len() && joins(#[trigger] g[from][i], from, to);
        g[from][i].count as nat
    } else {
        0
    }
}

/// In a tidy graph the count of a step is the count of the one edge that
/// stores it.
proof fn lemma_count_of(g: GraphModel, from: NodeID, to: NodeID, i: int)
    requires
        tidy(g),
        g.contains_key(from),
        0 <= i < g[from].len(),
        joins(g[from][i], from, to),
    ensures
        count_of(g, from, to) == g[from][i].count,
{
    let k = choose|k: int| 0 <= k < g[from].len() && joins(#[trigger] g[from][k], from, to);
    if k < i {
        assert(g[from][k].to != g[from][i].to);
    } else if i < k {
        assert(g[from][i].to != g[from][k].to);
    }
}

/// Seeing a step keeps a tidy graph tidy, counts that step once more, and
/// leaves every other count as it was.
pub proof fn lemma_link_is_counted(
    g: GraphModel,
    from: NodeID,
    to: NodeID,
    other_from: NodeID,
    other_to: NodeID,
)
    requires
        tidy(g),
        can_count(with_node(with_node(g, from), to), from, to),
    ensures
        tidy(with_link(g, from, to)),
        count_of(with_link(g, from, to), from, to) == count_of(g, from, to) + 1,
        other_from != from || other_to != to ==> count_of(
            with_link(g, from, to),
            other_from,
            other_to,
        ) == count_of(g, other_from, other_to),
{
    let g1 = with_node(g, from);
    let g2 = with_node(g1, to);
    let g3 = with_link(g, from, to);
    assert(tidy(g2));
    let outs = g2[from];
    let outs3 = g3[from];
    assert(g3 == g2.insert(from, observed(outs, from, to)));
    assert(outs =~= if g.contains_key(from) {
        g[from]
    } else {
        Seq::empty()
    });
    // The new graph is tidy.
    assert forall|id: NodeID, i: int|
        g3.contains_key(id) && 0 <= i < g3[id].len() implies (#[trigger] g3[id][i]).from
        == id by {
        if id != from {
            assert(g3[id][i] == g2[id][i]);
        } else if has_step(outs, from, to) {
            assert(outs[i].from == from);
        } else if i < outs.len() {
            assert(outs[i].from == from);
        }
    }
    assert forall|id: NodeID, i: int, j: int|
        g3.contains_key(id) && 0 <= i < j < g3[id].len() implies (#[trigger] g3[id][i]).to != (
    #[trigger] g3[id][j]).to by {
        if id != from {
            assert(g3[id][i] == g2[id][i] && g3[id][j] == g2[id][j]);
        } else if has_step(outs, from, to) {
            assert(outs[i].to != outs[j].to);
            assert(outs[i].from == from && outs[j].from == from);
        } else {
            if j < outs.len() {
                assert(outs[i].to != outs[j].to);
            } else {
                assert(outs[i].from == from);
                assert(!joins(outs[i], from, to));
            }
        }
    }
    // The step is counted once more.
    if has_step(outs, from, to) {
        let i = choose|i: int| 0 <= i < outs.len() && joins(#[trigger] outs[i], from, to);
        assert(joins(outs3[i], from, to));
        lemma_count_of(g3, from, to, i);
        assert(g.contains_key(from));
        lemma_count_of(g, from, to, i);
    } else {
        let i = outs.len() as int;
        assert(joins(outs3[i], from, to));
        lemma_count_of(g3, from, to, i);
    }
    // Every other count stays.
    if other_from != from || other_to != to {
        if other_from != from {
            if g.contains_key(other_from) {
                assert(g3[other_from] == g[other_from]);
            } else if g3.contains_key(other_from) {
                assert(g3[other_from] =~= Seq::<SonorityGraphEdge>::empty());
                assert(!has_step(g3[other_from], other_from, other_to));
            }
        } else {
            if has_step(outs3, from, other_to) {
                let k = choose|k: int|
                    0 <= k < outs3.len() && joins(#[trigger] outs3[k], from, other_to);
                assert(k < outs.len());
                assert(outs[k].to == other_to && outs[k].from == from);
                assert(joins(outs[k], from, other_to));
                assert(outs3[k].count == outs[k].count);
                lemma_count_of(g3, from, other_to, k);
                lemma_count_of(g, from, other_to, k);
            } else if g.contains_key(from) && has_step(g[from], from, other_to) {
                let k = choose|k: int|
                    0 <= k < outs.len() && joins(#[trigger] outs[k], from, other_to);
                assert(joins(outs3[k], from, other_to));
            }
        }
    }
}

/// Seeing a step that goes forward between nodes that fit keeps a layered
/// graph layered.
pub proof fn lemma_link_is_layered(g: GraphModel, from: NodeID, to: NodeID)
    requires
        layered(g),
        fits(from),
        fits(to),
        advances(from, to),
    ensures
        layered(with_link(g, from, to)),
{
    let g1 = with_node(g, from);
    let g2 = with_node(g1, to);
    let g3 = with_link(g, from, to);
    assert(layered(g1));
    assert(layered(g2));
    let outs = g2[from];
    assert forall|id: NodeID, i: int| g3.contains_key(id) && 0 <= i < g3[id].len() implies {
        &&& g3.contains_key((#[trigger] g3[id][i]).to)
        &&& advances(id, g3[id][i].to)
    } by {
        if id != from {
            assert(g3[id][i] == g2[id][i]);
            assert(g2.contains_key(g2[id][i].to));
        } else if has_step(outs, from, to) {
            assert(g2.contains_key(outs[i].to));
        } else if i < outs.len() {
            assert(g2.contains_key(outs[i].to));
        }
    }
}

/// Whether the nodes of a path fit their positions and each step of the
/// path goes forward.
pub open spec fn path_fits(path: Seq<NodeID>) -> bool {
    &&& forall|k: int| 0 <= k < path.len() ==> fits(#[trigger] path[k])
    &&& forall|k: int| 0 <= k < path.len() - 1 ==> advances(#[trigger] path[k], path[k + 1])
}

/// Seeing a path that fits keeps a layered graph layered.
pub proof fn lemma_path_is_layered(g: GraphModel, path: Seq<NodeID>)
    requires
        layered(g),
        path_fits(path),
    ensures
        layered(with_path(g, path)),
    decreases path.len(),
{
    if path.len() >= 2 {
        let before = path.drop_last();
        assert forall|k: int| 0 <= k < before.len() implies fits(#[trigger] before[k]) by {
            assert(before[k] == path[k]);
        }
        assert forall|k: int| 0 <= k < before.len() - 1 implies advances(
            #[trigger] before[k],
            before[k + 1],
        ) by {
            assert(before[k] == path[k] && before[k + 1] == path[k + 1]);
        }
        lemma_path_is_layered(g, before);
        let k = path.len() - 2;
        assert(advances(path[k], path[k + 1]));
        lemma_link_is_layered(with_path(g, before), path[k], path.last());
    }
}

/// The path of a well-formed syllable fits.
pub proof fn lemma_syllable_path_fits(
    onset: Seq<Phoneme>,
    nucleus: Seq<Phoneme>,
    coda: Seq<Phoneme>,
)
    requires
        all_consonants(onset),
        nucleus.len() > 0,
        all_vowels(nucleus),
        all_consonants(coda),
    ensures
        path_fits(syllable_path(onset, nucleus, coda)),
{
    let path = syllable_path(onset, nucleus, coda);
    let a = 1 + onset.len();
    let b = a + nucleus.len();
    let ending = coda_path(coda);
    assert(path.len() == b + ending.len());
    assert forall|k: int| 0 <= k < path.len() implies {
        &&& fits(#[trigger] path[k])
        &&& k == 0 ==> path[k] == start_node()
        &&& 1 <= k < a ==> path[k].part is Onset && path[k].data is Phoneme
        &&& a <= k < b ==> path[k].part is Nucleus
        &&& b <= k ==> path[k].part is Coda
        &&& k < path.len() - 1 ==> !(path[k].data is Stop)
    } by {
        if k == 0 {
        } else if k < a {
            assert(path[k] == nodes_at(onset, SyllablePart::Onset)[k - 1]);
            assert(!onset[k - 1].vowel());
        } else if k < b {
            assert(path[k] == nodes_at(nucleus, SyllablePart::Nucleus)[k - a]);
            assert(nucleus[k - a].vowel());
        } else {
            assert(path[k] == ending[k - b]);
            if coda.len() > 0 && k - b < coda.len() {
                assert(ending[k - b] == coda_nodes(coda)[k - b]);
                assert(!coda[k - b].vowel());
            }
        }
    }
    assert forall|k: int| 0 <= k < path.len() - 1 implies advances(
        #[trigger] path[k],
        path[k + 1],
    ) by {
        assert(fits(path[k + 1]));
    }
}

/// Seeing a syllable keeps a layered graph layered.
pub proof fn lemma_syllable_is_layered(g: GraphModel, phonemes: Seq<Phoneme>)
    requires
        layered(g),
    ensures
        layered(with_syllable(g, phonemes)),
{
    if well_formed(phonemes) {
        let (i, j) = choose|i: int, j: int| divides_at(phonemes, i, j);
        let onset = phonemes.subrange(0, i);
        let nucleus = phonemes.subrange(i, j);
        let coda = phonemes.subrange(j, phonemes.len() as int);
        assert(onset + nucleus + coda =~= phonemes);
        lemma_division_is_unique(onset, nucleus, coda);
        lemma_syllable_path_fits(onset, nucleus, coda);
        lemma_path_is_layered(g, syllable_path(onset, nucleus, coda));
    }
}

/// Every graph that is built of a corpus on a layered graph is layered:
/// the graph of a corpus is.
pub proof fn lemma_corpus_graph_is_layered(g: GraphModel, words: CorpusSounds)
    requires
        layered(g),
    ensures
        layered(with_corpus(g, words)),
        layered(with_corpus(GraphModel::empty(), words)),
    decreases words.len(),
{
    if words.len() > 0 {
        lemma_corpus_graph_is_layered(g, words.drop_last());
        lemma_word_is_layered(with_corpus(g, words.drop_last()), words.last());
        lemma_word_is_layered(with_corpus(GraphModel::empty(), words.drop_last()), words.last());
    }
}

/// Seeing a word keeps a layered graph layered.
pub proof fn lemma_word_is_layered(g: GraphModel, syllables: Seq<Seq<Phoneme>>)
    requires
        layered(g),
    ensures
        layered(with_word(g, syllables)),
    decreases syllables.len(),
{
    if syllables.len() > 0 {
        lemma_word_is_layered(g, syllables.drop_last());
        lemma_syllable_is_layered(with_word(g, syllables.drop_last()), syllables.last());
    }
}

/// Building twice of the same corpus gives the same graph, with the same
/// count of every step.
pub proof fn lemma_building_is_repeatable(
    first: GraphModel,
    second: GraphModel,
    words: CorpusSounds,
    from: NodeID,
    to: NodeID,
)
    requires
        first == with_corpus(GraphModel::empty(), words),
        second == with_corpus(GraphModel::empty(), words),
    ensures
        first == second,
        count_of(first, from, to) == count_of(second, from, to),
{
}

/// What the sounds of a path are when the path has come to `part`: only
/// consonants in the onset; consonants, then vowels, in the nucleus; a
/// well-formed syllable in the coda.
pub open spec fn spelled(sounds: Seq<Phoneme>, part: SyllablePart) -> bool {
    match part {
        SyllablePart::Onset => all_consonants(sounds),
        SyllablePart::Nucleus => exists|i: int| divides_at(sounds, i, sounds.len() as int),
        SyllablePart::Coda { .. } => well_formed(sounds),
    }
}

/// Along a walk in a layered graph that begins in the onset or the nucleus,
/// the sounds grow into a syllable: at every node they are what is spelled
/// at the part of that node.
pub proof fn lemma_walk_shape(g: GraphModel, path: Seq<NodeID>)
    requires
        layered(g),
        path.len() >= 1,
        fits(path[0]),
        !(path[0].data is Stop),
        !(path[0].part is Coda),
        forall|k: int| 0 <= k < path.len() - 1 ==> can_step(g, #[trigger] path[k], path[k + 1]),
    ensures
        spelled(sounds_of(path), path.last().part),
        fits(path.last()),
        !(path.last().data is Stop),
    decreases path.len(),
{
    let s = sounds_of(path);
    if path.len() == 1 {
        assert(path.drop_last() =~= Seq::<NodeID>::empty());
        assert(sounds_of(path.drop_last()) =~= Seq::<Phoneme>::empty());
        match path[0].data {
            NodeData::Phoneme(p) => {
                assert(s =~= seq![p]);
                if path[0].part is Nucleus {
                    assert(divides_at(s, 0, 1));
                }
            },
            _ => {},
        }
    } else {
        let before = path.drop_last();
        let a = before.last();
        let b = path.last();
        assert forall|k: int| 0 <= k < before.len() - 1 implies can_step(
            g,
            #[trigger] before[k],
            before[k + 1],
        ) by {
            assert(before[k] == path[k] && before[k + 1] == path[k + 1]);
        }
        lemma_walk_shape(g, before);
        let t = sounds_of(before);
        assert(a == path[path.len() - 2]);
        assert(can_step(g, a, b));
        let draw = choose|draw: int| 0 <= draw && #[trigger] leads(g, a, draw, Some(b));
        let i = choose|i: int| #[trigger]
            selects(counts_of(g[a]), draw, i) && Some(b) == arrival(g, g[a][i].to);
        assert(g[a][i].to == b);
        assert(g.contains_key(g[a][i].to) && advances(a, g[a][i].to));
        assert(fits(b));
        let p = b.data->Phoneme_0;
        assert(s == t.push(p));
        let n = t.len() as int;
        match a.part {
            SyllablePart::Onset => {
                if b.part is Nucleus {
                    assert(s.subrange(0, n) =~= t);
                    assert(divides_at(s, n, n + 1));
                }
            },
            SyllablePart::Nucleus => {
                let i = choose|i: int| divides_at(t, i, n);
                assert(s.subrange(0, i) =~= t.subrange(0, i));
                if b.part is Nucleus {
                    assert(s.subrange(i, n + 1) =~= t.subrange(i, n).push(p));
                    assert(divides_at(s, i, n + 1));
                } else {
                    assert(s.subrange(i, n) =~= t.subrange(i, n));
                    assert(divides_at(s, i, n));
                }
            },
            SyllablePart::Coda { .. } => {
                let (i, j) = choose|i: int, j: int| divides_at(t, i, j);
                assert(s.subrange(0, i) =~= t.subrange(0, i));
                assert(s.subrange(i, j) =~= t.subrange(i, j));
                assert(s.subrange(j, n + 1) =~= t.subrange(j, n).push(p));
                assert(divides_at(s, i, j));
            },
        }
    }
}

/// In a layered graph, so in the graph of any corpus, every walk from the
/// start, or from the node of a sound, that ends past the onset spells a
/// well-formed syllable.
pub proof fn lemma_walk_spells_syllable(g: GraphModel, root: NodeID, path: Seq<NodeID>)
    requires
        layered(g),
        root == start_node() || exists|start: Phoneme| root == root_of(start),
        is_walk(g, root, path),
        !(path.last().part is Onset),
    ensures
        well_formed(sounds_of(path)),
{
    lemma_walk_shape(g, path);
    if path.last().part is Nucleus {
        let s = sounds_of(path);
        let i = choose|i: int| divides_at(s, i, s.len() as int);
        assert(divides_at(s, i, s.len() as int));
    }
}

/// Whether every registered node but `pending`, and but the ends of
/// syllables, has a step that was seen.
pub open spec fn lively_but(g: GraphModel, pending: NodeID) -> bool {
    forall|id: NodeID| #[trigger]
        g.contains_key(id) && !(id.data is Stop) && id != pending ==> exists|i: int|
            0 <= i < g[id].len() && (#[trigger] g[id][i]).count > 0
}

/// Whether every registered node but the ends of syllables has a step that
/// was seen: no walk is stuck there.
pub open spec fn lively(g: GraphModel) -> bool {
    forall|id: NodeID| #[trigger]
        g.contains_key(id) && !(id.data is Stop) ==> exists|i: int|
            0 <= i < g[id].len() && (#[trigger] g[id][i]).count > 0
}

/// Whether `bound` is a number of times, and the counts of the steps from
/// any one node sum to no more.
pub open spec fn weights_within(g: GraphModel, bound: int) -> bool {
    &&& bound >= 0
    &&& forall|id: NodeID| #[trigger]
        g.contains_key(id) ==> total_weight(counts_of(g[id])) <= bound
}

/// Whether a graph has grown by steps seen: it is layered, tidy and lively
/// but for `pending`, and its weights are within `bound`.
pub open spec fn grown_but(g: GraphModel, pending: NodeID, bound: int) -> bool {
    &&& layered(g)
    &&& tidy(g)
    &&& lively_but(g, pending)
    &&& weights_within(g, bound)
}

/// Whether a graph has grown by syllables seen: it is layered, tidy and
/// lively, and its weights are within `bound`.
pub open spec fn grown(g: GraphModel, bound: int) -> bool {
    &&& layered(g)
    &&& tidy(g)
    &&& lively(g)
    &&& weights_within(g, bound)
}

/// Counting the one step among `outs` that joins `from` to `to` once more
/// raises the sum of the first `n` counts by one if that step is among the
/// first `n`.
proof fn lemma_bumped_weight(
    outs: Seq<SonorityGraphEdge>,
    from: NodeID,
    to: NodeID,
    m: int,
    n: int,
)
    requires
        0 <= m < outs.len(),
        0 <= n <= outs.len(),
        joins(outs[m], from, to),
        outs[m].count < usize::MAX,
        forall|k: int| 0 <= k < outs.len() && k != m ==> !joins(#[trigger] outs[k], from, to),
    ensures
        prefix_weight(counts_of(bumped(outs, from, to)), n) == prefix_weight(counts_of(outs), n)
            + (if n > m {
            1int
        } else {
            0int
        }),
    decreases n,
{
    if n > 0 {
        lemma_bumped_weight(outs, from, to, m, n - 1);
        if n - 1 != m {
            assert(!joins(outs[n - 1], from, to));
        }
    }
}

/// Seeing a step raises the sum of the counts of the steps from a node by
/// one at most.
proof fn lemma_link_weights(g: GraphModel, from: NodeID, to: NodeID, bound: int)
    requires
        tidy(g),
        weights_within(g, bound),
        bound < usize::MAX,
    ensures
        weights_within(with_link(g, from, to), bound + 1),
        can_count(with_node(with_node(g, from), to), from, to),
{
    let g1 = with_node(g, from);
    let g2 = with_node(g1, to);
    let g3 = with_link(g, from, to);
    let outs = g2[from];
    assert(tidy(g2));
    assert forall|id: NodeID| #[trigger] g2.contains_key(id) implies total_weight(
        counts_of(g2[id]),
    ) <= bound by {
        if !g.contains_key(id) {
            assert(g2[id] =~= Seq::<SonorityGraphEdge>::empty());
        }
    }
    assert forall|i: int| 0 <= i < outs.len() implies (#[trigger] outs[i]).count
        <= bound by {
        lemma_weight_within_total(counts_of(outs), i);
    }
    assert forall|id: NodeID| #[trigger] g3.contains_key(id) implies total_weight(
        counts_of(g3[id]),
    ) <= bound + 1 by {
        if id != from {
            assert(g3[id] == g2[id]);
        } else if has_step(outs, from, to) {
            let m = choose|m: int| 0 <= m < outs.len() && joins(#[trigger] outs[m], from, to);
            assert forall|k: int| 0 <= k < outs.len() && k != m implies !joins(
                #[trigger] outs[k],
                from,
                to,
            ) by {
                if k < m {
                    assert(outs[k].to != outs[m].to);
                } else {
                    assert(outs[m].to != outs[k].to);
                }
            }
            assert(outs[m].count <= bound);
            lemma_bumped_weight(outs, from, to, m, outs.len() as int);
        } else {
            let more = outs.push(SonorityGraphEdge { from, to, count: 1 });
            lemma_prefix_weight_agrees(counts_of(more), counts_of(outs), outs.len() as int);
        }
    }
}

/// Seeing a step leaves alive what was alive, brings the node that the step
/// leaves to life, and leaves the node that it enters pending.
proof fn lemma_link_lively(g: GraphModel, from: NodeID, to: NodeID)
    requires
        lively_but(g, from),
        can_count(with_node(with_node(g, from), to), from, to),
    ensures
        lively_but(with_link(g, from, to), to),
{
    let g1 = with_node(g, from);
    let g2 = with_node(g1, to);
    let g3 = with_link(g, from, to);
    let outs = g2[from];
    assert forall|id: NodeID| #[trigger]
        g3.contains_key(id) && !(id.data is Stop) && id != to implies exists|i: int|
        0 <= i < g3[id].len() && (#[trigger] g3[id][i]).count > 0 by {
        if id == from {
            if has_step(outs, from, to) {
                let m = choose|m: int| 0 <= m < outs.len() && joins(#[trigger] outs[m], from, to);
                assert(g2[from][m].count < usize::MAX);
                assert(g3[id][m].count > 0);
            } else {
                assert(g3[id][outs.len() as int].count > 0);
            }
        } else {
            assert(g.contains_key(id));
            assert(g3[id] == g[id]);
            let i = choose|i: int| 0 <= i < g[id].len() && (#[trigger] g[id][i]).count > 0;
            assert(g3[id][i].count > 0);
        }
    }
}

/// Seeing a path that fits keeps a grown graph grown, but for the node
/// where the path ends.
proof fn lemma_path_grows(g: GraphModel, path: Seq<NodeID>, bound: int)
    requires
        grown(g, bound),
        path_fits(path),
        path.len() >= 1,
        bound + steps_of(path) <= usize::MAX,
    ensures
        grown_but(with_path(g, path), path.last(), bound + steps_of(path)),
    decreases path.len(),
{
    if path.len() >= 2 {
        let before = path.drop_last();
        assert forall|k: int| 0 <= k < before.len() implies fits(#[trigger] before[k]) by {
            assert(before[k] == path[k]);
        }
        assert forall|k: int| 0 <= k < before.len() - 1 implies advances(
            #[trigger] before[k],
            before[k + 1],
        ) by {
            assert(before[k] == path[k] && before[k + 1] == path[k + 1]);
        }
        lemma_path_grows(g, before, bound);
        let h = with_path(g, before);
        let from = path[path.len() - 2];
        let to = path.last();
        assert(from == before.last());
        assert(advances(from, to));
        lemma_link_is_layered(h, from, to);
        lemma_link_weights(h, from, to, bound + steps_of(before));
        lemma_link_is_counted(h, from, to, from, to);
        lemma_link_lively(h, from, to);
    }
}

/// Seeing a syllable keeps a grown graph grown.
proof fn lemma_syllable_grows(g: GraphModel, phonemes: Seq<Phoneme>, bound: int)
    requires
        grown(g, bound),
        bound + phonemes.len() + 1 <= usize::MAX,
    ensures
        grown(with_syllable(g, phonemes), bound + phonemes.len() + 1),
{
    if well_formed(phonemes) {
        let (i, j) = choose|i: int, j: int| divides_at(phonemes, i, j);
        let onset = phonemes.subrange(0, i);
        let nucleus = phonemes.subrange(i, j);
        let coda = phonemes.subrange(j, phonemes.len() as int);
        assert(onset + nucleus + coda =~= phonemes);
        lemma_division_is_unique(onset, nucleus, coda);
        lemma_syllable_path_fits(onset, nucleus, coda);
        let path = syllable_path(onset, nucleus, coda);
        assert(path.last().data is Stop);
        lemma_path_grows(g, path, bound);
    }
}

/// Seeing a word keeps a grown graph grown.
proof fn lemma_word_grows(g: GraphModel, syllables: Seq<Seq<Phoneme>>, bound: int)
    requires
        grown(g, bound),
        bound + word_steps(syllables) <= usize::MAX,
    ensures
        grown(with_word(g, syllables), bound + word_steps(syllables)),
    decreases syllables.len(),
{
    if syllables.len() > 0 {
        lemma_word_grows(g, syllables.drop_last(), bound);
        lemma_syllable_grows(
            with_word(g, syllables.drop_last()),
            syllables.last(),
            bound + word_steps(syllables.drop_last()),
        );
    }
}

/// The graph of a corpus is layered, tidy and lively, and the counts of the
/// steps from any one node sum to no more than the corpus has steps.
pub proof fn lemma_corpus_graph_is_grown(words: CorpusSounds)
    requires
        corpus_steps(words) <= usize::MAX,
    ensures
        grown(with_corpus(GraphModel::empty(), words), corpus_steps(words) as int),
    decreases words.len(),
{
    if words.len() > 0 {
        lemma_corpus_graph_is_grown(words.drop_last());
        lemma_word_grows(
            with_corpus(GraphModel::empty(), words.drop_last()),
            words.last(),
            corpus_steps(words.drop_last()) as int,
        );
    }
}

/// In a grown graph a walk ends only where a step leads to the end of the
/// syllable, unless it has taken the most steps that a walk takes or began
/// at a node that is not registered: it ends past the onset.
pub proof fn lemma_walk_ends_past_onset(
    g: GraphModel,
    bound: int,
    root: NodeID,
    path: Seq<NodeID>,
)
    requires
        grown(g, bound),
        bound <= usize::MAX,
        g.contains_key(root),
        root == start_node() || exists|start: Phoneme| root == root_of(start),
        is_walk(g, root, path),
        path.len() - 1 < MAX_WALK_STEPS,
    ensures
        !(path.last().part is Onset),
{
    lemma_walk_shape(g, path);
    let last = path.last();
    if path.len() >= 2 {
        let a = path[path.len() - 2];
        assert(can_step(g, a, path[path.len() - 2 + 1]));
        let draw = choose|draw: int| 0 <= draw && #[trigger] leads(g, a, draw, Some(last));
        assert(g.contains_key(last));
    }
    assert(g.contains_key(last));
    assert(may_end(g, last));
    let k = choose|k: int| 0 <= k < g[last].len() && (#[trigger] g[last][k]).count > 0;
    lemma_weight_within_total(counts_of(g[last]), k);
    assert(total_weight(counts_of(g[last])) > 0);
    assert(total_weight(counts_of(g[last])) <= usize::MAX);
    let draw = choose|draw: int| 0 <= draw && #[trigger] leads(g, last, draw, None);
    let i = choose|i: int| #[trigger]
        selects(counts_of(g[last]), draw, i) && None::<NodeID> == arrival(g, g[last][i].to);
    let to = g[last][i].to;
    assert(g.contains_key(to) && advances(last, to));
    assert(fits(to));
    assert(to.data is Stop);
}

/// Every walk in the graph of a corpus, from the start or from the
/// registered node of a sound, that has not taken the most steps that a walk
/// takes spells a well-formed syllable.
pub proof fn lemma_corpus_walk_spells_syllable(
    words: CorpusSounds,
    root: NodeID,
    path: Seq<NodeID>,
)
    requires
        corpus_steps(words) <= usize::MAX,
        with_corpus(GraphModel::empty(), words).contains_key(root),
        root == start_node() || exists|start: Phoneme| root == root_of(start),
        is_walk(with_corpus(GraphModel::empty(), words), root, path),
        path.len() - 1 < MAX_WALK_STEPS,
    ensures
        well_formed(sounds_of(path)),
{
    let g = with_corpus(GraphModel::empty(), words);
    lemma_corpus_graph_is_grown(words);
    lemma_walk_ends_past_onset(g, corpus_steps(words) as int, root, path);
    lemma_walk_spells_syllable(g, root, path);
}

} // verus!
