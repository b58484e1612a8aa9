//! Node identifiers, the keyed materialization model, and the map from local
//! node identity to materialized state.

use vstd::prelude::*;

use crate::data::{clone_row, project, project_row, row_eq, DataType, DataValue};
use crate::keys::KeySet;

verus! {

/// A globally unique node identifier, valid across the whole graph.
#[derive(Debug, Clone, Copy, PartialEq, Eq, Structural, Hash)]
pub struct NodeIndex {
    pub id: usize,
}

/// A locally unique node identifier, valid within one processing unit.
#[derive(Debug, Clone, Copy, PartialEq, Eq, Structural, Hash)]
pub struct LocalNodeIndex {
    pub id: usize,
}

/// The global/local correspondence for one node, established once at commit.
#[derive(Debug, Clone, Copy, PartialEq, Eq, Structural, Hash)]
pub struct IndexPair {
    pub global: NodeIndex,
    pub local: LocalNodeIndex,
}

/// The remap table handed to each node exactly once, when its processing unit
/// is finalized: the global-to-local translation for every node it may name.
#[derive(Debug)]
pub struct RemapTable {
    pub pairs: Vec<IndexPair>,
}

/// The local half of the first pair naming the global, if any pair does.
pub open spec fn first_local(pairs: Seq<IndexPair>, global: NodeIndex) -> Option<LocalNodeIndex>
    decreases pairs.len(),
{
    if pairs.len() == 0 {
        None
    } else if pairs[0].global == global {
        Some(pairs[0].local)
    } else {
        first_local(pairs.drop_first(), global)
    }
}

impl RemapTable {
    /// The local identifier this table assigns to a global one, if any: the
    /// first pair naming the global wins.
    pub open spec fn spec_local_of(&self, global: NodeIndex) -> Option<LocalNodeIndex> {
        first_local(self.pairs@, global)
    }

    /// Translates one global identifier; `None` when the table does not know it.
    pub fn local_of(&self, global: NodeIndex) -> (r: Option<LocalNodeIndex>)
        ensures
            r == self.spec_local_of(global),
    {
        let n = self.pairs.len();
        let mut i: usize = 0;
        proof {
            assert(self.pairs@.skip(0) =~= self.pairs@);
        }
        while i < n
            invariant
                n == self.pairs@.len(),
                0 <= i <= n,
                self.spec_local_of(global) == first_local(self.pairs@.skip(i as int), global),
            decreases n - i,
        {
            let ghost tail = self.pairs@.skip(i as int);
            proof {
                assert(tail[0] == self.pairs@[i as int]);
                assert(tail.drop_first() =~= self.pairs@.skip(i as int + 1));
            }
            if self.pairs[i].global == global {
                return Some(self.pairs[i].local);
            }
            i += 1;
        }
        proof {
            assert(self.pairs@.skip(n as int) =~= Seq::<IndexPair>::empty());
        }
        None
    }
}

/// The outcome of a keyed lookup into one materialization: either the matching
/// rows, or a declared hole of a partial materialization.
#[derive(Debug)]
pub enum LookupResult {
    /// The materialization answers: exactly these rows match the key.
    Found(Vec<Vec<DataType>>),
    /// The materialization is partial and the key has not been filled.
    Missing,
}

/// The rows of `rows` whose projection to `cols` equals `key`, in order.
pub open spec fn matching_rows(
    rows: Seq<Seq<DataValue>>,
    cols: Seq<usize>,
    key: Seq<DataValue>,
) -> Seq<Seq<DataValue>>
    decreases rows.len(),
{
    if rows.len() == 0 {
        Seq::empty()
    } else {
        let rest = matching_rows(rows.drop_last(), cols, key);
        if project(rows.last(), cols) == key {
            rest.push(rows.last())
        } else {
            rest
        }
    }
}

/// Every matching row is one of the rows looked through.
pub proof fn lemma_matching_rows_membership(
    rows: Seq<Seq<DataValue>>,
    cols: Seq<usize>,
    key: Seq<DataValue>,
)
    ensures
        forall|i: int|
            0 <= i < matching_rows(rows, cols, key).len()
                ==> rows.contains(#[trigger] matching_rows(rows, cols, key)[i]),
    decreases rows.len(),
{
    if rows.len() > 0 {
        lemma_matching_rows_membership(rows.drop_last(), cols, key);
        assert forall|i: int| 0 <= i < matching_rows(rows, cols, key).len() implies rows.contains(
            #[trigger] matching_rows(rows, cols, key)[i],
        ) by {
            let m = matching_rows(rows, cols, key);
            let rest = matching_rows(rows.drop_last(), cols, key);
            if i < rest.len() {
                assert(rows.drop_last().contains(rest[i]));
                let j = choose|j: int| 0 <= j < rows.drop_last().len() && rows.drop_last()[j] == rest[i];
                assert(rows[j] == m[i]);
            } else {
                assert(m[i] == rows.last());
                assert(rows[rows.len() - 1] == rows.last());
            }
        }
    }
}

/// Equality of two column lists.
pub fn cols_eq(a: &Vec<usize>, b: &Vec<usize>) -> (r: bool)
    ensures
        r == (a@ == b@),
{
    if a.len() != b.len() {
        return false;
    }
    let n = a.len();
    let mut i: usize = 0;
    while i < n
        invariant
            n == a@.len() && n == b@.len(),
            0 <= i <= n,
            forall|j: int| 0 <= j < i ==> a@[j] == b@[j],
        decreases n - i,
    {
        if a[i] != b[i] {
            return false;
        }
        i += 1;
    }
    proof {
        assert(a@ =~= b@);
    }
    true
}

/// One node's materialized state: its rows, the key its index is built on,
/// and, when the materialization is partial, the set of keys filled so far.
#[derive(Debug)]
pub struct State {
    /// The columns the index is keyed on.
    pub key_cols: Vec<usize>,
    /// The width every row of this state has.
    pub arity: usize,
    /// Whether the materialization is partial (filled on demand).
    pub partial: bool,
    /// The keys that have been filled; meaningful only when `partial`.
    pub filled: KeySet,
    /// The materialized rows.
    pub rows: Vec<Vec<DataType>>,
}

impl State {
    /// Internal consistency: rows are uniform, the index columns in range.
    pub open spec fn wf(&self) -> bool {
        &&& forall|i: int| 0 <= i < self.rows.deep_view().len() ==> (#[trigger] self.rows.deep_view()[i]).len() == self.arity
        &&& forall|i: int| 0 <= i < self.key_cols@.len() ==> #[trigger] self.key_cols@[i] < self.arity
    }

    /// What a lookup of `key` on `cols` answers: `None` is a declared hole of
    /// a partial materialization, `Some` the exact matching rows.
    pub open spec fn lookup_spec(&self, cols: Seq<usize>, key: Seq<DataValue>) -> Option<
        Seq<Seq<DataValue>>,
    > {
        if self.partial && !(cols == self.key_cols@ && self.filled@.contains(key)) {
            None
        } else {
            Some(matching_rows(self.rows.deep_view(), cols, key))
        }
    }

    /// Keyed lookup: the matching rows, or the declared hole of a partial
    /// materialization whose key has not been filled.
    pub fn lookup(&self, columns: &Vec<usize>, key: &Vec<DataType>) -> (r: LookupResult)
        requires
            self.wf(),
            forall|i: int| 0 <= i < columns@.len() ==> #[trigger] columns@[i] < self.arity,
        ensures
            match r {
                LookupResult::Found(rs) => self.lookup_spec(columns@, key.deep_view())
                    == Some(rs.deep_view()),
                LookupResult::Missing => self.lookup_spec(columns@, key.deep_view()) is None,
            },
    {
        if self.partial {
            let cols_match = cols_eq(columns, &self.key_cols);
            if !(cols_match && self.filled.contains(key)) {
                return LookupResult::Missing;
            }
        }
        LookupResult::Found(self.select_matching(columns, key))
    }

    /// The rows matching `key` on `columns`, as owned copies, in order.
    fn select_matching(&self, columns: &Vec<usize>, key: &Vec<DataType>) -> (r: Vec<
        Vec<DataType>,
    >)
        requires
            self.wf(),
            forall|i: int| 0 <= i < columns@.len() ==> #[trigger] columns@[i] < self.arity,
        ensures
            r.deep_view() == matching_rows(self.rows.deep_view(), columns@, key.deep_view()),
    {
        let mut out: Vec<Vec<DataType>> = Vec::new();
        let n = self.rows.len();
        let mut i: usize = 0;
        while i < n
            invariant
                self.wf(),
                forall|k: int| 0 <= k < columns@.len() ==> #[trigger] columns@[k] < self.arity,
                n == self.rows@.len(),
                0 <= i <= n,
                out.deep_view() == matching_rows(
                    self.rows.deep_view().take(i as int),
                    columns@,
                    key.deep_view(),
                ),
            decreases n - i,
        {
            let ghost taken = self.rows.deep_view().take(i as int + 1);
            proof {
                assert(taken.drop_last() =~= self.rows.deep_view().take(i as int));
                assert(taken.last() == self.rows.deep_view()[i as int]);
            }
            let projected = project_row(&self.rows[i], columns);
            if row_eq(&projected, key) {
                let row = clone_row(&self.rows[i]);
                let ghost prev = out.deep_view();
                let ghost rv = row.deep_view();
                out.push(row);
                proof {
                    assert(out.deep_view() =~= prev.push(rv));
                }
            }
            i += 1;
        }
        proof {
            assert(self.rows.deep_view().take(n as int) =~= self.rows.deep_view());
        }
        out
    }
}

/// The map from local node identity to that node's materialized state.
#[derive(Debug)]
pub struct StateMap {
    pub states: Vec<Option<State>>,
}

impl StateMap {
    /// The materialization this map holds for a node, if any.
    pub open spec fn spec_get(&self, node: LocalNodeIndex) -> Option<State> {
        if node.id < self.states@.len() {
            self.states@[node.id as int]
        } else {
            None
        }
    }

    /// An empty map covering `n` local nodes, none of them materialized.
    pub fn new(n: usize) -> (r: StateMap)
        ensures
            forall|l: LocalNodeIndex| r.spec_get(l) is None,
    {
        let mut states: Vec<Option<State>> = Vec::new();
        let mut i: usize = 0;
        while i < n
            invariant
                0 <= i <= n,
                states@.len() == i,
                forall|j: int| 0 <= j < i ==> states@[j] is None,
            decreases n - i,
        {
            states.push(None);
            i += 1;
        }
        StateMap { states }
    }

    /// Materializes one node, replacing whatever the map held for it.
    pub fn set_state(&mut self, node: LocalNodeIndex, st: State)
        requires
            node.id < old(self).states@.len(),
        ensures
            final(self).spec_get(node) == Some(st),
            forall|l: LocalNodeIndex|
                l != node ==> final(self).spec_get(l) == old(self).spec_get(l),
            final(self).states@.len() == old(self).states@.len(),
    {
        self.states.set(node.id, Some(st));
    }

    /// The materialization for a node, if one exists.
    pub fn get(&self, node: LocalNodeIndex) -> (r: Option<&State>)
        ensures
            match r {
                Some(st) => self.spec_get(node) == Some(*st),
                None => self.spec_get(node) is None,
            },
    {
        if node.id < self.states.len() {
            match &self.states[node.id] {
                Some(st) => Some(st),
                None => None,
            }
        } else {
            None
        }
    }
}

} // verus!
