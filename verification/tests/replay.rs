use dataflow::data::{DataType, Record};
use dataflow::keys::KeySet;
use dataflow::node::{DomainNodes, JoinNode, Node, NodeOperator};
use dataflow::processing::{Ingredient, RawProcessingResult, ReplayContext};
use dataflow::state::{IndexPair, LocalNodeIndex, NodeIndex, State, StateMap};

fn int_row(vals: &[i64]) -> Vec<DataType> {
    vals.iter().map(|&v| DataType::Int(v)).collect()
}

fn sample_join() -> JoinNode {
    JoinNode {
        left: IndexPair { global: NodeIndex { id: 0 }, local: LocalNodeIndex { id: 0 } },
        right: IndexPair { global: NodeIndex { id: 1 }, local: LocalNodeIndex { id: 1 } },
        on_left: 0,
        on_right: 0,
        left_arity: 2,
        right_arity: 2,
        committed: true,
        taken: false,
    }
}

fn domains() -> DomainNodes {
    DomainNodes {
        nodes: vec![
            Node::Source,
            Node::Source,
            Node::Internal(NodeOperator::Join(sample_join())),
        ],
    }
}

fn right_state(filled_keys: Vec<Vec<DataType>>, rows: Vec<Vec<DataType>>) -> State {
    let mut filled = KeySet::new();
    for k in filled_keys {
        filled.insert(k);
    }
    State { key_cols: vec![0], arity: 2, partial: true, filled, rows }
}

fn partial_context(keys: Vec<Vec<DataType>>) -> ReplayContext {
    let mut set = KeySet::new();
    for k in keys {
        set.insert(k);
    }
    ReplayContext::Partial { key_cols: vec![0], keys: set }
}

#[test]
fn scenario_d_waits_when_right_parent_misses() {
    let mut join = sample_join();
    let mut states = StateMap::new(3);
    // The right parent has a hole at every key.
    states.set_state(LocalNodeIndex { id: 1 }, right_state(vec![], vec![]));
    let data = vec![Record::Positive(int_row(&[5, 7]))];
    let replay = partial_context(vec![int_row(&[5])]);
    let r = join.on_input_raw(LocalNodeIndex { id: 0 }, &data, &replay, &domains(), &states);
    match r {
        RawProcessingResult::ReplayPiece { rows, keys, captured } => {
            assert!(rows.is_empty());
            assert_eq!(keys.len(), 0);
            assert_eq!(captured.len(), 1);
            assert!(captured.contains(&int_row(&[5])));
        },
        _ => panic!("expected a replay piece"),
    }
}

#[test]
fn scenario_d_resolves_when_right_parent_answers() {
    let mut join = sample_join();
    let mut states = StateMap::new(3);
    states.set_state(
        LocalNodeIndex { id: 1 },
        right_state(vec![int_row(&[5])], vec![int_row(&[5, 9])]),
    );
    let data = vec![Record::Positive(int_row(&[5, 7]))];
    let replay = partial_context(vec![int_row(&[5])]);
    let r = join.on_input_raw(LocalNodeIndex { id: 0 }, &data, &replay, &domains(), &states);
    match r {
        RawProcessingResult::ReplayPiece { rows, keys, captured } => {
            assert_eq!(rows, vec![Record::Positive(int_row(&[5, 7, 5, 9]))]);
            assert_eq!(keys.len(), 1);
            assert!(keys.contains(&int_row(&[5])));
            assert_eq!(captured.len(), 0);
        },
        _ => panic!("expected a replay piece"),
    }
}

#[test]
fn captured_keys_stay_inside_the_request() {
    let mut join = sample_join();
    let mut states = StateMap::new(3);
    states.set_state(
        LocalNodeIndex { id: 1 },
        right_state(vec![int_row(&[1])], vec![int_row(&[1, 8])]),
    );
    let data = vec![
        Record::Positive(int_row(&[1, 2])),
        Record::Positive(int_row(&[3, 4])),
    ];
    let mut requested = KeySet::new();
    requested.insert(int_row(&[1]));
    requested.insert(int_row(&[3]));
    let replay = partial_context(vec![int_row(&[1]), int_row(&[3])]);
    let r = join.on_input_raw(LocalNodeIndex { id: 0 }, &data, &replay, &domains(), &states);
    match r {
        RawProcessingResult::ReplayPiece { rows: _, keys, captured } => {
            assert!(captured.is_subset_of(&requested));
            assert!(captured.contains(&int_row(&[3])));
            assert!(keys.contains(&int_row(&[1])));
            assert!(!captured.contains(&int_row(&[1])));
        },
        _ => panic!("expected a replay piece"),
    }
}

#[test]
fn missed_rows_are_excluded_from_results() {
    let mut join = sample_join();
    let mut states = StateMap::new(3);
    states.set_state(
        LocalNodeIndex { id: 1 },
        right_state(vec![int_row(&[1])], vec![int_row(&[1, 9])]),
    );
    let data = vec![
        Record::Positive(int_row(&[1, 2])),
        Record::Positive(int_row(&[3, 4])),
    ];
    let pr = join.on_input(LocalNodeIndex { id: 0 }, &data, None, &domains(), &states);
    assert_eq!(pr.results, vec![Record::Positive(int_row(&[1, 2, 1, 9]))]);
    assert_eq!(pr.misses.len(), 1);
    assert_eq!(pr.misses[0].record, int_row(&[3, 4]));
    assert_eq!(pr.misses[0].on, LocalNodeIndex { id: 1 });
    assert_eq!(pr.misses[0].lookup_idx, vec![0]);
    assert_eq!(pr.misses[0].lookup_cols, vec![0]);
    assert_eq!(pr.misses[0].replay_cols, None);
    for rec in &pr.results {
        for m in &pr.misses {
            let row = match rec {
                Record::Positive(r) | Record::Negative(r) => r,
            };
            assert_ne!(row, &m.record);
        }
    }
}

#[test]
fn forward_context_processes_ordinarily() {
    let mut join = sample_join();
    let mut states = StateMap::new(3);
    states.set_state(
        LocalNodeIndex { id: 1 },
        right_state(vec![int_row(&[1])], vec![int_row(&[1, 9])]),
    );
    let data = vec![Record::Negative(int_row(&[1, 2]))];
    let r = join.on_input_raw(
        LocalNodeIndex { id: 0 },
        &data,
        &ReplayContext::Forward,
        &domains(),
        &states,
    );
    match r {
        RawProcessingResult::Regular(pr) => {
            assert_eq!(pr.results, vec![Record::Negative(int_row(&[1, 2, 1, 9]))]);
            assert!(pr.misses.is_empty());
        },
        _ => panic!("expected a regular result"),
    }
}
