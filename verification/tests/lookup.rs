use dataflow::data::DataType;
use dataflow::keys::KeySet;
use dataflow::node::{lookup_chain, DomainNodes, FilterNode, Node, NodeOperator};
use dataflow::processing::Ingredient;
use dataflow::state::{IndexPair, LocalNodeIndex, NodeIndex, State, StateMap};

fn int_row(vals: &[i64]) -> Vec<DataType> {
    vals.iter().map(|&v| DataType::Int(v)).collect()
}

fn full_state(key_cols: Vec<usize>, arity: usize, rows: Vec<Vec<DataType>>) -> State {
    State { key_cols, arity, partial: false, filled: KeySet::new(), rows }
}

#[test]
fn materialized_hit_returns_exact_rows() {
    let mut states = StateMap::new(1);
    states.set_state(
        LocalNodeIndex { id: 0 },
        full_state(vec![0], 2, vec![int_row(&[1, 10]), int_row(&[2, 20]), int_row(&[1, 30])]),
    );
    let domains = DomainNodes { nodes: vec![Node::Source] };
    let r = lookup_chain(
        LocalNodeIndex { id: 0 },
        &vec![0],
        &int_row(&[1]),
        &domains,
        &states,
        4,
    );
    assert_eq!(r, Some(Some(vec![int_row(&[1, 10]), int_row(&[1, 30])])));
}

#[test]
fn partial_hole_is_distinguished_from_unknown() {
    let mut states = StateMap::new(2);
    states.set_state(
        LocalNodeIndex { id: 0 },
        State { key_cols: vec![0], arity: 2, partial: true, filled: KeySet::new(), rows: vec![] },
    );
    let domains = DomainNodes { nodes: vec![Node::Source, Node::Source] };
    // A declared hole of a partial materialization: Some(None).
    let hole = lookup_chain(
        LocalNodeIndex { id: 0 },
        &vec![0],
        &int_row(&[7]),
        &domains,
        &states,
        4,
    );
    assert_eq!(hole, Some(None));
    // No materialization at a source at all: None.
    let unknown = lookup_chain(
        LocalNodeIndex { id: 1 },
        &vec![0],
        &int_row(&[7]),
        &domains,
        &states,
        4,
    );
    assert_eq!(unknown, None);
}

#[test]
fn filled_partial_key_answers() {
    let mut filled = KeySet::new();
    filled.insert(int_row(&[2]));
    let mut states = StateMap::new(1);
    states.set_state(
        LocalNodeIndex { id: 0 },
        State {
            key_cols: vec![0],
            arity: 2,
            partial: true,
            filled,
            rows: vec![int_row(&[2, 20])],
        },
    );
    let domains = DomainNodes { nodes: vec![Node::Source] };
    let r = lookup_chain(
        LocalNodeIndex { id: 0 },
        &vec![0],
        &int_row(&[2]),
        &domains,
        &states,
        4,
    );
    assert_eq!(r, Some(Some(vec![int_row(&[2, 20])])));
}

fn sample_filter() -> FilterNode {
    FilterNode {
        src: IndexPair { global: NodeIndex { id: 0 }, local: LocalNodeIndex { id: 0 } },
        // Column 1 must equal 10; column 0 is free.
        conditions: vec![None, Some(DataType::Int(10))],
        cols: 2,
        committed: true,
        taken: false,
    }
}

#[test]
fn scenario_c_query_through_filter() {
    let filter = sample_filter();
    assert!(filter.can_query_through());
    let mut states = StateMap::new(2);
    // Only the ancestor (node 0) is materialized; the filter (node 1) is not.
    states.set_state(
        LocalNodeIndex { id: 0 },
        full_state(vec![0], 2, vec![int_row(&[1, 10]), int_row(&[1, 20]), int_row(&[2, 10])]),
    );
    let domains = DomainNodes {
        nodes: vec![Node::Source, Node::Internal(NodeOperator::Filter(sample_filter()))],
    };
    let r = filter.lookup(
        LocalNodeIndex { id: 1 },
        &vec![0],
        &int_row(&[1]),
        &domains,
        &states,
        4,
    );
    // Rows matching the key, filtered to what the filter would emit.
    assert_eq!(r, Some(Some(vec![int_row(&[1, 10])])));
}

#[test]
fn query_through_propagates_unknown_and_holes() {
    let filter = sample_filter();
    let domains = DomainNodes {
        nodes: vec![Node::Source, Node::Internal(NodeOperator::Filter(sample_filter()))],
    };
    // Ancestor unmaterialized and a source: the whole chain is unknown.
    let states = StateMap::new(2);
    let r = filter.lookup(
        LocalNodeIndex { id: 1 },
        &vec![0],
        &int_row(&[1]),
        &domains,
        &states,
        4,
    );
    assert_eq!(r, None);
    // Ancestor partial with a hole: known-absent, not unknown.
    let mut states = StateMap::new(2);
    states.set_state(
        LocalNodeIndex { id: 0 },
        State { key_cols: vec![0], arity: 2, partial: true, filled: KeySet::new(), rows: vec![] },
    );
    let r = filter.lookup(
        LocalNodeIndex { id: 1 },
        &vec![0],
        &int_row(&[1]),
        &domains,
        &states,
        4,
    );
    assert_eq!(r, Some(None));
}
