use dataflow::data::{DataType, Record};
use dataflow::keys::KeySet;
use dataflow::node::{DomainNodes, FilterNode, Graph, JoinNode, Node, NodeOperator};
use dataflow::processing::{Ingredient, ReplayContext};
use dataflow::state::{IndexPair, LocalNodeIndex, NodeIndex, RemapTable, StateMap};

fn int_row(vals: &[i64]) -> Vec<DataType> {
    vals.iter().map(|&v| DataType::Int(v)).collect()
}

fn sample_filter() -> FilterNode {
    FilterNode {
        src: IndexPair { global: NodeIndex { id: 3 }, local: LocalNodeIndex { id: 0 } },
        conditions: vec![Some(DataType::Int(1)), None],
        cols: 0,
        committed: false,
        taken: false,
    }
}

fn sample_join() -> JoinNode {
    JoinNode {
        left: IndexPair { global: NodeIndex { id: 4 }, local: LocalNodeIndex { id: 0 } },
        right: IndexPair { global: NodeIndex { id: 5 }, local: LocalNodeIndex { id: 0 } },
        on_left: 1,
        on_right: 0,
        left_arity: 2,
        right_arity: 3,
        committed: false,
        taken: false,
    }
}

#[test]
fn filter_contract_surface() {
    let mut f = sample_filter();
    assert_eq!(f.ancestors(), vec![NodeIndex { id: 3 }]);
    assert_eq!(f.must_replay_among(), None);
    assert!(f.suggest_indexes(NodeIndex { id: 9 }).is_empty());
    assert_eq!(f.resolve(1), Some(vec![(NodeIndex { id: 3 }, 1)]));
    assert_eq!(f.parent_columns(1), vec![(NodeIndex { id: 3 }, Some(1))]);
    assert!(f.get_base().is_none());
    assert!(f.get_base_mut().is_none());
    assert!(!f.is_join());
    assert!(f.is_selective());
    assert!(!f.requires_full_materialization());
    assert_eq!(f.description(), "filter");
    match f.take() {
        NodeOperator::Filter(_) => {},
        _ => panic!("a filter detaches as a filter operator"),
    }
}

#[test]
fn join_contract_surface() {
    let mut j = sample_join();
    assert_eq!(j.ancestors(), vec![NodeIndex { id: 4 }, NodeIndex { id: 5 }]);
    assert_eq!(
        j.must_replay_among(),
        Some(vec![NodeIndex { id: 4 }, NodeIndex { id: 5 }])
    );
    assert_eq!(
        j.suggest_indexes(NodeIndex { id: 9 }),
        vec![(NodeIndex { id: 5 }, vec![0], true)]
    );
    assert_eq!(j.resolve(0), Some(vec![(NodeIndex { id: 4 }, 0)]));
    assert_eq!(j.resolve(2), Some(vec![(NodeIndex { id: 5 }, 0)]));
    assert_eq!(j.resolve(9), None);
    assert_eq!(j.parent_columns(4), vec![(NodeIndex { id: 5 }, Some(2))]);
    assert!(j.is_join());
    assert!(!j.can_query_through());
    assert_eq!(j.description(), "join");
    let states = StateMap::new(1);
    let domains = DomainNodes { nodes: vec![Node::Source] };
    assert_eq!(
        j.query_through(&vec![0], &int_row(&[1]), &domains, &states, 3),
        None
    );
    match j.take() {
        NodeOperator::Join(_) => {},
        _ => panic!("a join detaches as a join operator"),
    }
}

#[test]
fn on_connected_resolves_column_counts() {
    let mut f = sample_filter();
    let graph = Graph { node_columns: vec![1, 2, 3, 7] };
    f.on_connected(&graph);
    assert_eq!(f.cols, 7);
}

#[test]
fn on_commit_translates_once() {
    let mut f = sample_filter();
    let remap = RemapTable {
        pairs: vec![IndexPair { global: NodeIndex { id: 3 }, local: LocalNodeIndex { id: 8 } }],
    };
    f.on_commit(NodeIndex { id: 6 }, &remap);
    assert_eq!(f.src.local, LocalNodeIndex { id: 8 });
    assert!(f.committed);
    // A second remap is not accepted: the first translation stays cached.
    let second = RemapTable {
        pairs: vec![IndexPair { global: NodeIndex { id: 3 }, local: LocalNodeIndex { id: 2 } }],
    };
    f.on_commit(NodeIndex { id: 6 }, &second);
    assert_eq!(f.src.local, LocalNodeIndex { id: 8 });
}

#[test]
fn replay_context_key_columns() {
    let partial = ReplayContext::Partial { key_cols: vec![2, 0], keys: KeySet::new() };
    assert_eq!(partial.key(), Some(&vec![2, 0]));
    assert_eq!(ReplayContext::Forward.key(), None);
    assert_eq!(ReplayContext::Full { last: true }.key(), None);
}

#[test]
fn filter_forwards_exactly_the_passing_records() {
    let mut f = sample_filter();
    let data = vec![
        Record::Positive(int_row(&[1, 5])),
        Record::Positive(int_row(&[2, 5])),
        Record::Negative(int_row(&[1, 6])),
    ];
    let states = StateMap::new(1);
    let domains = DomainNodes { nodes: vec![Node::Source] };
    let pr = f.on_input(LocalNodeIndex { id: 0 }, &data, None, &domains, &states);
    assert_eq!(
        pr.results,
        vec![Record::Positive(int_row(&[1, 5])), Record::Negative(int_row(&[1, 6]))]
    );
    assert!(pr.misses.is_empty());
}

#[test]
fn on_eviction_defaults_to_a_no_op() {
    let mut f = sample_filter();
    let mut keys = vec![int_row(&[1])];
    f.on_eviction(LocalNodeIndex { id: 0 }, &vec![0], &mut keys);
    assert_eq!(keys, vec![int_row(&[1])]);
}

#[test]
fn key_sets_absorb_duplicates() {
    let mut s = KeySet::new();
    assert_eq!(s.len(), 0);
    s.insert(int_row(&[1]));
    s.insert(int_row(&[1]));
    assert_eq!(s.len(), 1);
    assert!(s.contains(&int_row(&[1])));
    assert!(!s.contains(&int_row(&[2])));
    let mut bigger = KeySet::new();
    bigger.insert(int_row(&[1]));
    bigger.insert(int_row(&[2]));
    assert!(s.is_subset_of(&bigger));
    assert!(!bigger.is_subset_of(&s));
}
