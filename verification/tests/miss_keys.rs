use dataflow::data::DataType;
use dataflow::processing::Miss;
use dataflow::state::LocalNodeIndex;

fn text(s: &str) -> DataType {
    DataType::Text(s.to_string())
}

fn sample_miss(replay_cols: Option<Vec<usize>>) -> Miss {
    Miss {
        on: LocalNodeIndex { id: 1 },
        lookup_idx: vec![1],
        lookup_cols: vec![0],
        replay_cols,
        record: vec![text("x"), text("y")],
    }
}

#[test]
fn scenario_a_lookup_key() {
    let m = sample_miss(None);
    assert_eq!(m.lookup_key_vec(), vec![text("x")]);
    assert_eq!(m.replay_key_vec(), None);
}

#[test]
fn scenario_b_replay_key() {
    let m = sample_miss(Some(vec![1]));
    assert_eq!(m.replay_key_vec(), Some(vec![text("y")]));
}

#[test]
fn lookup_key_matches_columns() {
    let m = Miss {
        on: LocalNodeIndex { id: 0 },
        lookup_idx: vec![0, 1],
        lookup_cols: vec![2, 0],
        replay_cols: None,
        record: vec![DataType::Int(10), DataType::Int(20), DataType::Int(30)],
    };
    let k = m.lookup_key_vec();
    assert_eq!(k.len(), m.lookup_cols.len());
    for (i, &c) in m.lookup_cols.iter().enumerate() {
        assert_eq!(k[i], m.record[c]);
    }
    assert_eq!(k, vec![DataType::Int(30), DataType::Int(10)]);
}

#[test]
fn borrowing_and_owned_keys_agree() {
    let m = sample_miss(Some(vec![1, 0]));
    let borrowed: Vec<DataType> = m.lookup_key().into_iter().cloned().collect();
    assert_eq!(borrowed, m.lookup_key_vec());
    let borrowed_replay: Option<Vec<DataType>> =
        m.replay_key().map(|v| v.into_iter().cloned().collect());
    assert_eq!(borrowed_replay, m.replay_key_vec());
}
