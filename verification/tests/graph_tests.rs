use fakeword::graph::{
    NodeData, NodeID, SonorityGraph, SonorityGraphEdge, SonorityGraphNode, SonorityGraphResult,
    MAX_WALK_STEPS,
};
use fakeword::phoneme::{Phoneme, SyllablePart};
use fakeword::syllable::Syllable;
use fakeword::syllablize::SyllablizedPhonemes;

fn onset(p: Phoneme) -> NodeID {
    NodeID { data: NodeData::Phoneme(p), part: SyllablePart::Onset }
}

fn nucleus(p: Phoneme) -> NodeID {
    NodeID { data: NodeData::Phoneme(p), part: SyllablePart::Nucleus }
}

fn coda(p: Phoneme, layer: usize) -> NodeID {
    NodeID { data: NodeData::Phoneme(p), part: SyllablePart::Coda { layer } }
}

fn start() -> NodeID {
    NodeID { data: NodeData::Start, part: SyllablePart::Onset }
}

fn stop(layer: usize) -> NodeID {
    NodeID { data: NodeData::Stop, part: SyllablePart::Coda { layer } }
}

fn edge(from: NodeID, to: NodeID, count: usize) -> SonorityGraphEdge {
    SonorityGraphEdge { from, to, count }
}

fn outs(graph: &SonorityGraph, id: NodeID) -> Vec<SonorityGraphEdge> {
    graph.get_node(id).unwrap().outs.clone()
}

fn corpus(words: Vec<Vec<Vec<Phoneme>>>) -> SyllablizedPhonemes {
    SyllablizedPhonemes {
        words: words
            .into_iter()
            .enumerate()
            .map(|(i, syllables)| {
                (format!("w{}", i), syllables.into_iter().map(Syllable::new).collect())
            })
            .collect(),
    }
}

#[test]
fn nodes_are_registered_once() {
    let mut graph = SonorityGraph::empty();
    assert!(graph.get_node(start()).is_none());
    graph.add_node(start());
    graph.add_node(onset(Phoneme::H));
    graph.add_edge(start(), onset(Phoneme::H));
    graph.add_node(start());
    assert_eq!(outs(&graph, start()), vec![edge(start(), onset(Phoneme::H), 1)]);
    assert!(outs(&graph, onset(Phoneme::H)).is_empty());
    assert!(graph.get_node_unchecked(onset(Phoneme::H)).outs.is_empty());
    assert!(SonorityGraphNode::new().outs.is_empty());
}

#[test]
fn the_same_sound_at_two_positions_is_two_nodes() {
    let mut graph = SonorityGraph::empty();
    graph.add_node(onset(Phoneme::T));
    assert!(graph.get_node(onset(Phoneme::T)).is_some());
    assert!(graph.get_node(coda(Phoneme::T, 1)).is_none());
    assert!(graph.get_node(coda(Phoneme::T, 2)).is_none());
    assert!(graph.get_node(nucleus(Phoneme::T)).is_none());
    graph.add_node(coda(Phoneme::T, 2));
    assert!(graph.get_node(coda(Phoneme::T, 2)).is_some());
    assert!(graph.get_node(coda(Phoneme::T, 1)).is_none());
    assert!(graph.get_node(coda(Phoneme::D, 2)).is_none());
}

#[test]
fn a_step_seen_again_is_counted_not_added() {
    let mut graph = SonorityGraph::empty();
    graph.add_node(start());
    graph.add_node(onset(Phoneme::H));
    graph.add_node(onset(Phoneme::S));
    graph.add_edge(start(), onset(Phoneme::H));
    graph.add_edge(start(), onset(Phoneme::S));
    graph.add_edge(start(), onset(Phoneme::H));
    graph.add_edge(start(), onset(Phoneme::H));
    assert_eq!(
        outs(&graph, start()),
        vec![edge(start(), onset(Phoneme::H), 3), edge(start(), onset(Phoneme::S), 1)]
    );
}

#[test]
fn a_step_between_unregistered_nodes_is_dropped() {
    let mut graph = SonorityGraph::empty();
    graph.add_node(start());
    graph.add_edge(start(), onset(Phoneme::H));
    assert!(outs(&graph, start()).is_empty());
    graph.add_edge(onset(Phoneme::H), start());
    assert!(graph.get_node(onset(Phoneme::H)).is_none());
    assert!(outs(&graph, start()).is_empty());
}

#[test]
fn a_node_can_be_changed_in_place() {
    let mut graph = SonorityGraph::empty();
    graph.add_node(start());
    graph.add_node(stop(0));
    assert!(graph.get_node_mut(onset(Phoneme::H)).is_none());
    graph.get_node_mut(start()).unwrap().outs.push(edge(start(), stop(0), 7));
    assert_eq!(outs(&graph, start()), vec![edge(start(), stop(0), 7)]);
    graph.add_edge(start(), stop(0));
    assert_eq!(outs(&graph, start()), vec![edge(start(), stop(0), 8)]);
}

#[test]
fn the_path_of_a_part_has_its_nodes_in_order() {
    let path =
        SonorityGraph::part_nodes(SyllablePart::Onset, &vec![Phoneme::S, Phoneme::T], NodeData::Phoneme(Phoneme::AY));
    assert_eq!(path, vec![start(), onset(Phoneme::S), onset(Phoneme::T), nucleus(Phoneme::AY)]);
    let path = SonorityGraph::part_nodes(SyllablePart::Onset, &vec![], NodeData::Phoneme(Phoneme::AY));
    assert_eq!(path, vec![start(), nucleus(Phoneme::AY)]);
    let path =
        SonorityGraph::part_nodes(SyllablePart::Nucleus, &vec![Phoneme::IY, Phoneme::AH], NodeData::Phoneme(Phoneme::K));
    assert_eq!(path, vec![nucleus(Phoneme::IY), nucleus(Phoneme::AH), coda(Phoneme::K, 1)]);
    let path = SonorityGraph::part_nodes(SyllablePart::Nucleus, &vec![Phoneme::IY], NodeData::Stop);
    assert_eq!(path, vec![nucleus(Phoneme::IY), stop(1)]);
    let path = SonorityGraph::part_nodes(
        SyllablePart::Coda { layer: 1 },
        &vec![Phoneme::K, Phoneme::S, Phoneme::T],
        NodeData::Stop,
    );
    assert_eq!(
        path,
        vec![coda(Phoneme::K, 1), coda(Phoneme::S, 2), coda(Phoneme::T, 3), stop(0)]
    );
    assert!(SonorityGraph::part_nodes(SyllablePart::Nucleus, &vec![], NodeData::Stop).is_empty());
    assert!(SonorityGraph::part_nodes(SyllablePart::Coda { layer: 1 }, &vec![], NodeData::Stop).is_empty());
}

#[test]
fn a_part_is_recorded_step_by_step() {
    let mut graph = SonorityGraph::empty();
    graph.update_graph_part(
        SyllablePart::Onset,
        vec![Phoneme::S, Phoneme::T],
        NodeData::Phoneme(Phoneme::AY),
    );
    assert_eq!(outs(&graph, start()), vec![edge(start(), onset(Phoneme::S), 1)]);
    assert_eq!(outs(&graph, onset(Phoneme::S)), vec![edge(onset(Phoneme::S), onset(Phoneme::T), 1)]);
    assert_eq!(outs(&graph, onset(Phoneme::T)), vec![edge(onset(Phoneme::T), nucleus(Phoneme::AY), 1)]);
    assert!(outs(&graph, nucleus(Phoneme::AY)).is_empty());
    graph.update_graph_part(SyllablePart::Coda { layer: 1 }, vec![], NodeData::Stop);
    assert!(graph.get_node(stop(0)).is_none());
}

#[test]
fn a_syllable_leaves_one_path_from_start_to_end() {
    let mut graph = SonorityGraph::empty();
    graph.add_syllable(&Syllable::new(vec![Phoneme::H, Phoneme::AW, Phoneme::S]));
    assert_eq!(outs(&graph, start()), vec![edge(start(), onset(Phoneme::H), 1)]);
    assert_eq!(outs(&graph, onset(Phoneme::H)), vec![edge(onset(Phoneme::H), nucleus(Phoneme::AW), 1)]);
    assert_eq!(
        outs(&graph, nucleus(Phoneme::AW)),
        vec![edge(nucleus(Phoneme::AW), coda(Phoneme::S, 1), 1)]
    );
    assert_eq!(outs(&graph, coda(Phoneme::S, 1)), vec![edge(coda(Phoneme::S, 1), stop(0), 1)]);
    assert!(outs(&graph, stop(0)).is_empty());
    assert_eq!(graph.snapshot().len(), 5);
}

#[test]
fn a_syllable_without_a_coda_ends_after_its_nucleus() {
    let mut graph = SonorityGraph::empty();
    graph.add_syllable(&Syllable::new(vec![Phoneme::AY]));
    assert_eq!(outs(&graph, start()), vec![edge(start(), nucleus(Phoneme::AY), 1)]);
    assert_eq!(outs(&graph, nucleus(Phoneme::AY)), vec![edge(nucleus(Phoneme::AY), stop(1), 1)]);
    assert!(graph.get_node(stop(0)).is_none());
}

#[test]
fn the_coda_follows_a_long_nucleus_at_its_first_layer() {
    let mut graph = SonorityGraph::empty();
    graph.add_syllable(&Syllable::new(vec![Phoneme::IY, Phoneme::AH, Phoneme::T, Phoneme::S]));
    assert_eq!(
        outs(&graph, nucleus(Phoneme::IY)),
        vec![edge(nucleus(Phoneme::IY), nucleus(Phoneme::AH), 1)]
    );
    assert_eq!(
        outs(&graph, nucleus(Phoneme::AH)),
        vec![edge(nucleus(Phoneme::AH), coda(Phoneme::T, 1), 1)]
    );
    assert_eq!(
        outs(&graph, coda(Phoneme::T, 1)),
        vec![edge(coda(Phoneme::T, 1), coda(Phoneme::S, 2), 1)]
    );
    assert_eq!(outs(&graph, coda(Phoneme::S, 2)), vec![edge(coda(Phoneme::S, 2), stop(0), 1)]);
}

#[test]
fn a_malformed_syllable_leaves_no_trace() {
    let mut graph = SonorityGraph::empty();
    graph.add_syllable(&Syllable::new(vec![Phoneme::S, Phoneme::T]));
    graph.add_syllable(&Syllable::new(vec![Phoneme::AW, Phoneme::S, Phoneme::AW]));
    graph.add_syllable(&Syllable::empty());
    assert!(graph.snapshot().is_empty());
    assert!(graph.get_node(start()).is_none());
}

fn small_corpus() -> SyllablizedPhonemes {
    corpus(vec![
        vec![vec![Phoneme::H, Phoneme::AW, Phoneme::S]],
        vec![vec![Phoneme::H, Phoneme::AY]],
        vec![vec![Phoneme::S, Phoneme::T], vec![Phoneme::M, Phoneme::AW, Phoneme::S]],
    ])
}

#[test]
fn building_counts_every_step_of_the_corpus() {
    let corpus = small_corpus();
    assert_eq!(SonorityGraph::count_steps(&corpus), Some(4 + 3 + 3 + 4));
    let graph = SonorityGraph::new(&corpus);
    assert_eq!(
        outs(&graph, start()),
        vec![edge(start(), onset(Phoneme::H), 2), edge(start(), onset(Phoneme::M), 1)]
    );
    assert_eq!(
        outs(&graph, onset(Phoneme::H)),
        vec![
            edge(onset(Phoneme::H), nucleus(Phoneme::AW), 1),
            edge(onset(Phoneme::H), nucleus(Phoneme::AY), 1)
        ]
    );
    assert_eq!(
        outs(&graph, nucleus(Phoneme::AW)),
        vec![edge(nucleus(Phoneme::AW), coda(Phoneme::S, 1), 2)]
    );
    assert_eq!(outs(&graph, coda(Phoneme::S, 1)), vec![edge(coda(Phoneme::S, 1), stop(0), 2)]);
    assert!(graph.get_node(onset(Phoneme::S)).is_none());
}

#[test]
fn building_twice_gives_the_same_graph() {
    let corpus = small_corpus();
    let first = SonorityGraph::new(&corpus);
    let second = SonorityGraph::new(&corpus);
    assert_eq!(first.snapshot(), second.snapshot());
    let mut third = SonorityGraph::empty();
    third.build(&corpus);
    assert_eq!(first.snapshot(), third.snapshot());
}

#[test]
fn building_on_a_graph_adds_to_its_counts() {
    let corpus = small_corpus();
    let mut graph = SonorityGraph::new(&corpus);
    graph.build(&corpus);
    assert_eq!(
        outs(&graph, start()),
        vec![edge(start(), onset(Phoneme::H), 4), edge(start(), onset(Phoneme::M), 2)]
    );
}

#[test]
fn a_snapshot_restores_the_graph() {
    let graph = SonorityGraph::new(&small_corpus());
    let snapshot = graph.snapshot();
    assert_eq!(snapshot[0].0, start());
    let restored = SonorityGraph::restore(&snapshot);
    assert_eq!(restored.snapshot(), snapshot);
    assert_eq!(outs(&restored, onset(Phoneme::H)), outs(&graph, onset(Phoneme::H)));
    assert!(restored.get_node(onset(Phoneme::S)).is_none());
}

#[test]
fn the_later_entry_of_a_snapshot_counts() {
    let snapshot = vec![
        (start(), vec![edge(start(), stop(0), 1)]),
        (stop(0), vec![]),
        (start(), vec![edge(start(), stop(0), 5)]),
    ];
    let graph = SonorityGraph::restore(&snapshot);
    assert_eq!(outs(&graph, start()), vec![edge(start(), stop(0), 5)]);
    assert_eq!(graph.snapshot().len(), 2);
}

#[test]
fn a_draw_is_followed_to_the_step_it_selects() {
    let graph = SonorityGraph::new(&small_corpus());
    assert_eq!(graph.follow(start(), 0), Some(onset(Phoneme::H)));
    assert_eq!(graph.follow(start(), 1), Some(onset(Phoneme::H)));
    assert_eq!(graph.follow(start(), 2), Some(onset(Phoneme::M)));
    assert_eq!(graph.follow(onset(Phoneme::H), 1), Some(nucleus(Phoneme::AY)));
    // The step to the end of the syllable ends the walk.
    assert_eq!(graph.follow(coda(Phoneme::S, 1), 0), None);
    assert_eq!(graph.follow(nucleus(Phoneme::AY), 0), None);
}

#[test]
fn a_step_to_an_unregistered_node_ends_the_walk() {
    let snapshot = vec![(start(), vec![edge(start(), onset(Phoneme::H), 1)])];
    let graph = SonorityGraph::restore(&snapshot);
    assert_eq!(graph.follow(start(), 0), None);
    let mut rng = rand::thread_rng();
    assert_eq!(graph.evaluate(&mut rng).0.len(), 0);
}

#[test]
fn reaching_a_node_adds_its_sound() {
    let node = SonorityGraphNode::new();
    let mut result = SonorityGraphResult(Syllable::empty());
    assert!(node.evaluate(&mut result, onset(Phoneme::H)));
    assert!(node.evaluate(&mut result, start()));
    assert!(node.evaluate(&mut result, nucleus(Phoneme::AW)));
    assert!(!node.evaluate(&mut result, stop(0)));
    assert_eq!(result.0.phonemes(), &vec![Phoneme::H, Phoneme::AW]);
}

#[test]
fn walks_spell_syllables_of_the_corpus_shape() {
    let graph = SonorityGraph::new(&small_corpus());
    let mut rng = rand::thread_rng();
    let known: Vec<Vec<Phoneme>> = vec![
        vec![Phoneme::H, Phoneme::AW, Phoneme::S],
        vec![Phoneme::H, Phoneme::AY],
        vec![Phoneme::M, Phoneme::AW, Phoneme::S],
    ];
    for _ in 0..200 {
        let syllable = graph.evaluate(&mut rng).0;
        assert!(syllable.split().is_some());
        assert!(known.contains(syllable.phonemes()));
    }
}

#[test]
fn walks_from_a_sound_begin_with_it() {
    // Only words of one syllable: there is nothing to chain, and still
    // every walk spells a syllable.
    let graph = SonorityGraph::new(&corpus(vec![
        vec![vec![Phoneme::H, Phoneme::AW, Phoneme::S]],
        vec![vec![Phoneme::AW, Phoneme::T]],
    ]));
    let mut rng = rand::thread_rng();
    for _ in 0..100 {
        let syllable = graph.evaluate_from_start(Phoneme::H, &mut rng).0;
        assert_eq!(syllable.len(), 3);
        assert_eq!(syllable.phoneme(0), Phoneme::H);
        assert_eq!(syllable.phoneme(1), Phoneme::AW);
        assert!(syllable.phoneme(2) == Phoneme::S || syllable.phoneme(2) == Phoneme::T);
        let syllable = graph.evaluate_from_start(Phoneme::AW, &mut rng).0;
        assert_eq!(syllable.first_phoneme(), Some(Phoneme::AW));
        assert!(syllable.split().is_some());
    }
}

#[test]
fn a_walk_from_an_unregistered_sound_is_that_sound() {
    let graph = SonorityGraph::new(&small_corpus());
    let mut rng = rand::thread_rng();
    let syllable = graph.evaluate_from_start(Phoneme::ZH, &mut rng).0;
    assert_eq!(syllable.phonemes(), &vec![Phoneme::ZH]);
    let empty = SonorityGraph::empty();
    assert_eq!(empty.evaluate(&mut rng).0.len(), 0);
}

#[test]
fn a_walk_in_a_circle_ends_after_the_most_steps() {
    let snapshot = vec![
        (onset(Phoneme::S), vec![edge(onset(Phoneme::S), onset(Phoneme::T), 1)]),
        (onset(Phoneme::T), vec![edge(onset(Phoneme::T), onset(Phoneme::S), 1)]),
    ];
    let graph = SonorityGraph::restore(&snapshot);
    let mut rng = rand::thread_rng();
    let syllable = graph.evaluate_from_start(Phoneme::S, &mut rng).0;
    assert_eq!(syllable.len(), MAX_WALK_STEPS + 1);
    let mut result = SonorityGraphResult(Syllable::empty());
    graph.eval(&mut result, onset(Phoneme::S), &mut rng);
    assert_eq!(result.0.len(), MAX_WALK_STEPS);
    assert_eq!(result.0.first_phoneme(), Some(Phoneme::T));
}

#[test]
fn steps_that_were_never_seen_are_never_taken() {
    let snapshot = vec![
        (
            start(),
            vec![edge(start(), onset(Phoneme::S), 0), edge(start(), onset(Phoneme::T), 4)],
        ),
        (onset(Phoneme::S), vec![]),
        (onset(Phoneme::T), vec![]),
    ];
    let graph = SonorityGraph::restore(&snapshot);
    let mut rng = rand::thread_rng();
    for _ in 0..100 {
        assert_eq!(graph.evaluate(&mut rng).0.phonemes(), &vec![Phoneme::T]);
    }
}

#[test]
fn counts_too_large_to_draw_from_end_the_walk() {
    let snapshot = vec![
        (
            start(),
            vec![
                edge(start(), onset(Phoneme::S), usize::MAX),
                edge(start(), onset(Phoneme::T), 1),
            ],
        ),
        (onset(Phoneme::S), vec![]),
        (onset(Phoneme::T), vec![]),
    ];
    let graph = SonorityGraph::restore(&snapshot);
    let mut rng = rand::thread_rng();
    assert_eq!(graph.evaluate(&mut rng).0.len(), 0);
}
