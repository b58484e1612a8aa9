//! The closed union of operator variants, the processing unit's view of its
//! nodes, and the lookup / query-through chaining algorithm.

use vstd::prelude::*;
use vstd::pervasive::unreached;

use crate::data::{clone_conditions, clone_record, clone_row, concat_rows, copy_cols, project};
use crate::data::{rec_model, recs_model, DataType, DataValue, Record, Records};
use crate::keys::KeySet;
use crate::processing::{ctx_key_view, miss_records, opt_cols_view, spec_covered};
use crate::processing::{Ingredient, Miss, ProcessingResult, RawProcessingResult, ReplayContext};
use crate::state::RemapTable;
use crate::state::{lemma_matching_rows_membership, matching_rows, IndexPair};
use crate::state::{LocalNodeIndex, LookupResult, NodeIndex, State, StateMap};

verus! {

/// Base-table facilities, exposed through `get_base` when a node is a base
/// table. Only the declared key matters to this core.
#[derive(Debug, Clone)]
pub struct Base {
    /// The primary key columns the base table was declared with, if any.
    pub primary_key: Option<Vec<usize>>,
}

/// The graph a node sees when it is first connected: enough structure to
/// resolve ancestor column counts.
#[derive(Debug)]
pub struct Graph {
    /// The column count of each node, indexed by global identifier.
    pub node_columns: Vec<usize>,
}

/// A filtering operator: row-local and invertible with respect to any queried
/// columns, so it may answer lookups without a materialization of its own.
#[derive(Debug, Clone)]
#[verifier::ext_equal]
pub struct FilterNode {
    /// The single ancestor read from.
    pub src: IndexPair,
    /// Per-column equality conditions; `None` leaves the column free.
    pub conditions: Vec<Option<DataType>>,
    /// The column count, resolved when the node is connected.
    pub cols: usize,
    /// Whether the one-shot commit remap has been applied.
    pub committed: bool,
    /// Whether the runtime behavior has been detached for deployment.
    pub taken: bool,
}

/// Whether a row satisfies a filter's per-column equality conditions.
pub open spec fn spec_row_passes(row: Seq<DataValue>, conds: Seq<Option<DataValue>>) -> bool {
    forall|i: int|
        0 <= i < conds.len() ==> (#[trigger] conds[i] matches Some(c) ==> i < row.len() && row[i]
            == c)
}

/// The rows of `rows` that satisfy the conditions, in order.
pub open spec fn spec_passing_rows(
    rows: Seq<Seq<DataValue>>,
    conds: Seq<Option<DataValue>>,
) -> Seq<Seq<DataValue>>
    decreases rows.len(),
{
    if rows.len() == 0 {
        Seq::empty()
    } else {
        let rest = spec_passing_rows(rows.drop_last(), conds);
        if spec_row_passes(rows.last(), conds) {
            rest.push(rows.last())
        } else {
            rest
        }
    }
}

impl FilterNode {
    /// Whether a row satisfies this filter's conditions.
    pub fn row_passes(&self, row: &Vec<DataType>) -> (r: bool)
        ensures
            r == spec_row_passes(row.deep_view(), self.conditions.deep_view()),
    {
        let n = self.conditions.len();
        let mut i: usize = 0;
        while i < n
            invariant
                n == self.conditions@.len(),
                0 <= i <= n,
                forall|j: int|
                    0 <= j < i ==> (#[trigger] self.conditions.deep_view()[j] matches Some(c)
                        ==> j < row.deep_view().len() && row.deep_view()[j] == c),
            decreases n - i,
        {
            match &self.conditions[i] {
                Some(c) => {
                    if i >= row.len() {
                        proof {
                            assert(self.conditions.deep_view()[i as int] matches Some(_));
                        }
                        return false;
                    }
                    if !crate::data::dt_eq(&row[i], c) {
                        proof {
                            assert(self.conditions.deep_view()[i as int] == Some(c@));
                        }
                        return false;
                    }
                    proof {
                        assert(self.conditions.deep_view()[i as int] == Some(c@));
                    }
                },
                None => {
                    proof {
                        assert(self.conditions.deep_view()[i as int] is None);
                    }
                },
            }
            i += 1;
        }
        true
    }

    /// The owned subsequence of `rows` satisfying this filter's conditions.
    pub fn filter_rows(&self, rows: &Vec<Vec<DataType>>) -> (r: Vec<Vec<DataType>>)
        ensures
            r.deep_view() == spec_passing_rows(rows.deep_view(), self.conditions.deep_view()),
    {
        let mut out: Vec<Vec<DataType>> = Vec::new();
        let n = rows.len();
        let mut i: usize = 0;
        while i < n
            invariant
                n == rows@.len(),
                0 <= i <= n,
                out.deep_view() == spec_passing_rows(
                    rows.deep_view().take(i as int),
                    self.conditions.deep_view(),
                ),
            decreases n - i,
        {
            let ghost taken = rows.deep_view().take(i as int + 1);
            proof {
                assert(taken.drop_last() =~= rows.deep_view().take(i as int));
                assert(taken.last() == rows.deep_view()[i as int]);
            }
            if self.row_passes(&rows[i]) {
                let row = clone_row(&rows[i]);
                let ghost prev = out.deep_view();
                let ghost rv = row.deep_view();
                out.push(row);
                proof {
                    assert(out.deep_view() =~= prev.push(rv));
                }
            }
            i += 1;
        }
        proof {
            assert(rows.deep_view().take(n as int) =~= rows.deep_view());
        }
        out
    }
}

/// The models of the records of `rs` that satisfy the conditions, in order.
pub open spec fn spec_passing_records(
    rs: Seq<Record>,
    conds: Seq<Option<DataValue>>,
) -> Seq<(bool, Seq<DataValue>)>
    decreases rs.len(),
{
    if rs.len() == 0 {
        Seq::empty()
    } else {
        let rest = spec_passing_records(rs.drop_last(), conds);
        if spec_row_passes(rs.last().row_view(), conds) {
            rest.push(rec_model(rs.last()))
        } else {
            rest
        }
    }
}

impl FilterNode {
    /// Ordinary processing: forwards exactly the records whose rows satisfy
    /// the conditions; a filter performs no lookups, so it never misses.
    pub fn apply_input(&self, data: &Records) -> (r: ProcessingResult)
        ensures
            recs_model(r.results@) == spec_passing_records(data@, self.conditions.deep_view()),
            r.misses@.len() == 0,
            r.excludes_missed(),
            r.misses_wf(data@),
    {
        let mut results: Records = Vec::new();
        let n = data.len();
        let mut i: usize = 0;
        while i < n
            invariant
                n == data@.len(),
                0 <= i <= n,
                recs_model(results@) == spec_passing_records(
                    data@.take(i as int),
                    self.conditions.deep_view(),
                ),
            decreases n - i,
        {
            let ghost taken = data@.take(i as int + 1);
            proof {
                assert(taken.drop_last() =~= data@.take(i as int));
                assert(taken.last() == data@[i as int]);
            }
            let rec = &data[i];
            if self.row_passes(rec.rec_row()) {
                let copied = clone_record(rec);
                let ghost prev = results@;
                let ghost cm = rec_model(copied);
                results.push(copied);
                proof {
                    assert(recs_model(results@) =~= recs_model(prev).push(cm));
                    assert(cm == rec_model(data@[i as int]));
                }
            }
            i += 1;
        }
        proof {
            assert(data@.take(n as int) =~= data@);
        }
        ProcessingResult { results, misses: Vec::new() }
    }
}

/// The joined outputs one record yields against the matching right rows:
/// the record's sign, its row extended by each right row in order.
pub open spec fn join_rec_out(rec: Record, rights: Seq<Seq<DataValue>>) -> Seq<(bool, Seq<DataValue>)> {
    rights.map_values(|rr: Seq<DataValue>| (rec.spec_is_positive(), rec.row_view() + rr))
}

/// What the right parent's state answers for one left record's join key.
pub open spec fn join_lookup(st: State, on_l: usize, on_r: usize, rec: Record) -> Option<Seq<Seq<DataValue>>> {
    st.lookup_spec(seq![on_r], seq![rec.row_view()[on_l as int]])
}

/// The models of all records a join emits for a batch, in input order: for
/// each record whose key the right state answers, its row joined with each
/// matching right row.
pub open spec fn join_out_results(data: Seq<Record>, st: State, on_l: usize, on_r: usize) -> Seq<(bool, Seq<DataValue>)>
    decreases data.len(),
{
    if data.len() == 0 {
        Seq::empty()
    } else {
        let rest = join_out_results(data.drop_last(), st, on_l, on_r);
        match join_lookup(st, on_l, on_r, data.last()) {
            Some(rs) => rest + join_rec_out(data.last(), rs),
            None => rest,
        }
    }
}

/// The rows of the batch whose join key is a hole of the right state, in
/// input order: exactly the rows a join turns into misses.
pub open spec fn join_missed(data: Seq<Record>, st: State, on_l: usize, on_r: usize) -> Seq<Seq<DataValue>>
    decreases data.len(),
{
    if data.len() == 0 {
        Seq::empty()
    } else {
        let rest = join_missed(data.drop_last(), st, on_l, on_r);
        if join_lookup(st, on_l, on_r, data.last()) is None {
            rest.push(data.last().row_view())
        } else {
            rest
        }
    }
}

/// Whether some row the join missed on projects to `k` under the replay key
/// columns.
pub open spec fn join_missed_key(
    data: Seq<Record>,
    st: State,
    on_l: usize,
    on_r: usize,
    key_cols: Seq<usize>,
    k: Seq<DataValue>,
) -> bool {
    exists|j: int|
        0 <= j < join_missed(data, st, on_l, on_r).len() && project(
            #[trigger] join_missed(data, st, on_l, on_r)[j],
            key_cols,
        ) == k
}

/// The shape every miss a join emits has: keyed on the join columns, its
/// record a full left row, its replay key the columns the caller asked for.
pub open spec fn join_miss_shape(m: Miss, j: JoinNode, rkc: Option<Seq<usize>>) -> bool {
    &&& m.on == j.right.local
    &&& m.lookup_idx@ == seq![j.on_right]
    &&& m.lookup_cols@ == seq![j.on_left]
    &&& m.record.deep_view().len() == j.left_arity
    &&& match rkc {
        Some(cols) => m.replay_cols matches Some(rc) && rc@ == cols,
        None => m.replay_cols is None,
    }
}

/// A two-parent equijoin operator.
#[derive(Debug, Clone)]
#[verifier::ext_equal]
pub struct JoinNode {
    /// The left ancestor, whose batches drive processing.
    pub left: IndexPair,
    /// The right ancestor, looked up into per row.
    pub right: IndexPair,
    /// The join column on the left input.
    pub on_left: usize,
    /// The join column on the right input.
    pub on_right: usize,
    /// Row width of the left input.
    pub left_arity: usize,
    /// Row width of the right input.
    pub right_arity: usize,
    /// Whether the one-shot commit remap has been applied.
    pub committed: bool,
    /// Whether the runtime behavior has been detached for deployment.
    pub taken: bool,
}

/// One operator variant behind the single interface type the engine drives.
#[derive(Debug, Clone)]
pub enum NodeOperator {
    Filter(FilterNode),
    Join(JoinNode),
}

/// Whether the operator declares it can answer lookups unmaterialized.
pub open spec fn spec_can_query_through(op: NodeOperator) -> bool {
    op is Filter
}

/// One node as a processing unit sees it: either a source of data from
/// outside the unit, or an internal operator.
#[derive(Debug)]
pub enum Node {
    /// A node whose data originates outside this processing unit.
    Source,
    /// An operator running inside this processing unit.
    Internal(NodeOperator),
}

impl Node {
    /// Whether this node is an internal operator.
    pub fn is_internal(&self) -> (r: bool)
        ensures
            r == (self is Internal),
    {
        match self {
            Node::Internal(_) => true,
            Node::Source => false,
        }
    }
}

/// The processing unit's view of its sibling nodes, indexed by local
/// identifier.
#[derive(Debug)]
pub struct DomainNodes {
    pub nodes: Vec<Node>,
}

impl DomainNodes {
    /// The node a local identifier resolves to.
    pub open spec fn spec_node(&self, l: LocalNodeIndex) -> Node {
        self.nodes@[l.id as int]
    }

    /// Resolves a local identifier to its node.
    pub fn node(&self, l: LocalNodeIndex) -> (r: &Node)
        requires
            l.id < self.nodes@.len(),
        ensures
            *r == self.spec_node(l),
    {
        &self.nodes[l.id]
    }

    /// How many nodes the unit holds.
    pub fn len(&self) -> (r: usize)
        ensures
            r == self.nodes@.len(),
    {
        self.nodes.len()
    }
}

/// What the chaining lookup needs of the graph so that it cannot fail at
/// runtime: a materialization it reaches is sound and covers the queried
/// columns, and an unmaterialized parent can be resolved in the unit.
pub open spec fn lookup_pre(
    parent: LocalNodeIndex,
    columns: Seq<usize>,
    domains: DomainNodes,
    states: StateMap,
    depth: nat,
) -> bool
    decreases depth, 1int,
{
    match states.spec_get(parent) {
        Some(st) => st.wf() && forall|i: int|
            0 <= i < columns.len() ==> #[trigger] columns[i] < st.arity,
        None => parent.id < domains.nodes@.len() && match domains.spec_node(parent) {
            Node::Source => true,
            Node::Internal(op) => match op {
                NodeOperator::Filter(f) => depth == 0 || lookup_pre(
                    f.src.local,
                    columns,
                    domains,
                    states,
                    (depth - 1) as nat,
                ),
                NodeOperator::Join(_) => true,
            },
        },
    }
}

/// What a filter answers when queried through, unmaterialized: its ancestor's
/// answer, filtered to the rows it would emit.
pub open spec fn filter_qt_spec(
    f: FilterNode,
    columns: Seq<usize>,
    key: Seq<DataValue>,
    domains: DomainNodes,
    states: StateMap,
    depth: nat,
) -> Option<Option<Seq<Seq<DataValue>>>>
    decreases depth, 0int,
{
    if depth == 0 {
        None
    } else {
        match lookup_chain_spec(f.src.local, columns, key, domains, states, (depth - 1) as nat) {
            None => None,
            Some(ans) => match ans {
                None => Some(None),
                Some(rows) => Some(Some(spec_passing_rows(rows, f.conditions.deep_view()))),
            },
        }
    }
}

/// The three-way answer of the chaining lookup: `None` when no usable state
/// exists in the chain, `Some(None)` when state exists but the key is a hole,
/// `Some(Some(rows))` with exactly the matching rows otherwise.
pub open spec fn lookup_chain_spec(
    parent: LocalNodeIndex,
    columns: Seq<usize>,
    key: Seq<DataValue>,
    domains: DomainNodes,
    states: StateMap,
    depth: nat,
) -> Option<Option<Seq<Seq<DataValue>>>>
    decreases depth, 1int,
{
    match states.spec_get(parent) {
        Some(st) => match st.lookup_spec(columns, key) {
            None => Some(None),
            Some(rows) => Some(Some(rows)),
        },
        None => {
            if parent.id < domains.nodes@.len() {
                match domains.spec_node(parent) {
                    Node::Source => None,
                    Node::Internal(op) => match op {
                        NodeOperator::Filter(f) => filter_qt_spec(
                            f,
                            columns,
                            key,
                            domains,
                            states,
                            depth,
                        ),
                        NodeOperator::Join(_) => None,
                    },
                }
            } else {
                None
            }
        },
    }
}

/// Whether any usable state exists in the query-through chain above `parent`,
/// within `depth` steps: a materialization of `parent` itself, or an operator
/// that can be queried through whose own chain has usable state.
pub open spec fn chain_has_state(
    parent: LocalNodeIndex,
    domains: DomainNodes,
    states: StateMap,
    depth: nat,
) -> bool
    decreases depth,
{
    match states.spec_get(parent) {
        Some(_) => true,
        None => parent.id < domains.nodes@.len() && depth > 0 && match domains.spec_node(parent) {
            Node::Source => false,
            Node::Internal(op) => match op {
                NodeOperator::Filter(f) => chain_has_state(
                    f.src.local,
                    domains,
                    states,
                    (depth - 1) as nat,
                ),
                NodeOperator::Join(_) => false,
            },
        },
    }
}

/// The chaining lookup answers `None` exactly when no usable state exists in
/// the chain: neither a materialization of the parent, nor a query-through
/// path ending at one.
pub proof fn lemma_lookup_trichotomy(
    parent: LocalNodeIndex,
    columns: Seq<usize>,
    key: Seq<DataValue>,
    domains: DomainNodes,
    states: StateMap,
    depth: nat,
)
    ensures
        lookup_chain_spec(parent, columns, key, domains, states, depth) is None <==> !chain_has_state(
            parent,
            domains,
            states,
            depth,
        ),
    decreases depth,
{
    match states.spec_get(parent) {
        Some(_) => {},
        None => {
            if parent.id < domains.nodes@.len() {
                match domains.spec_node(parent) {
                    Node::Source => {},
                    Node::Internal(op) => match op {
                        NodeOperator::Filter(f) => {
                            if depth > 0 {
                                lemma_lookup_trichotomy(
                                    f.src.local,
                                    columns,
                                    key,
                                    domains,
                                    states,
                                    (depth - 1) as nat,
                                );
                            }
                        },
                        NodeOperator::Join(_) => {},
                    },
                }
            }
        },
    }
}

/// At a node that is a source, or whose operator does not declare
/// query-through, an absent materialization answers `None` at once.
pub proof fn lemma_lookup_none_at_boundary(
    parent: LocalNodeIndex,
    columns: Seq<usize>,
    key: Seq<DataValue>,
    domains: DomainNodes,
    states: StateMap,
    depth: nat,
)
    requires
        states.spec_get(parent) is None,
        parent.id < domains.nodes@.len(),
        match domains.spec_node(parent) {
            Node::Source => true,
            Node::Internal(op) => !spec_can_query_through(op),
        },
    ensures
        lookup_chain_spec(parent, columns, key, domains, states, depth) is None,
{
}

/// At a materialized node the chain answers exactly what the materialization
/// answers, a declared hole staying distinguishable from `None`.
pub proof fn lemma_lookup_at_materialized(
    parent: LocalNodeIndex,
    columns: Seq<usize>,
    key: Seq<DataValue>,
    domains: DomainNodes,
    states: StateMap,
    depth: nat,
)
    requires
        states.spec_get(parent) is Some,
    ensures
        lookup_chain_spec(parent, columns, key, domains, states, depth) == (match states.spec_get(
            parent,
        )->Some_0.lookup_spec(columns, key) {
            None => Some(None::<Seq<Seq<DataValue>>>),
            Some(rows) => Some(Some(rows)),
        }),
{
}

/// Queried through an unmaterialized filter, the chain answers exactly its
/// ancestor's answer, filtered: `None` and a declared hole propagate, and
/// found rows are narrowed to those the filter would emit.
pub proof fn lemma_query_through_general(
    p: LocalNodeIndex,
    f: FilterNode,
    columns: Seq<usize>,
    key: Seq<DataValue>,
    domains: DomainNodes,
    states: StateMap,
    depth: nat,
)
    requires
        states.spec_get(p) is None,
        p.id < domains.nodes@.len(),
        domains.spec_node(p) == Node::Internal(NodeOperator::Filter(f)),
        depth > 0,
    ensures
        lookup_chain_spec(p, columns, key, domains, states, depth) == (match lookup_chain_spec(
            f.src.local,
            columns,
            key,
            domains,
            states,
            (depth - 1) as nat,
        ) {
            None => None,
            Some(ans) => match ans {
                None => Some(None::<Seq<Seq<DataValue>>>),
                Some(rows) => Some(Some(spec_passing_rows(rows, f.conditions.deep_view()))),
            },
        }),
{
}

/// The hit case of querying through a filter: where the ancestor chain holds
/// rows for the key, the filter answers exactly those rows it would emit.
pub proof fn lemma_query_through_hits(
    p: LocalNodeIndex,
    f: FilterNode,
    columns: Seq<usize>,
    key: Seq<DataValue>,
    domains: DomainNodes,
    states: StateMap,
    depth: nat,
    rows: Seq<Seq<DataValue>>,
)
    requires
        states.spec_get(p) is None,
        p.id < domains.nodes@.len(),
        domains.spec_node(p) == Node::Internal(NodeOperator::Filter(f)),
        depth > 0,
        lookup_chain_spec(f.src.local, columns, key, domains, states, (depth - 1) as nat)
            == Some(Some(rows)),
    ensures
        lookup_chain_spec(p, columns, key, domains, states, depth) == Some(
            Some(spec_passing_rows(rows, f.conditions.deep_view())),
        ),
{
}

/// Looks up `key` on `columns` in `parent`'s state, falling back to querying
/// through `parent` when it has no materialization of its own. The `depth`
/// guard bounds the recursion; a chain in an acyclic graph is never longer
/// than the unit's node count.
pub fn lookup_chain(
    parent: LocalNodeIndex,
    columns: &Vec<usize>,
    key: &Vec<DataType>,
    domains: &DomainNodes,
    states: &StateMap,
    depth: usize,
) -> (r: Option<Option<Vec<Vec<DataType>>>>)
    requires
        lookup_pre(parent, columns@, *domains, *states, depth as nat),
    ensures
        r.deep_view() == lookup_chain_spec(
            parent,
            columns@,
            key.deep_view(),
            *domains,
            *states,
            depth as nat,
        ),
    decreases depth, 1int,
{
    match states.get(parent) {
        Some(st) => match st.lookup(columns, key) {
            LookupResult::Found(rs) => Some(Some(rs)),
            LookupResult::Missing => Some(None),
        },
        None => {
            match domains.node(parent) {
                Node::Source => None,
                Node::Internal(op) => match op {
                    NodeOperator::Filter(f) => f.query_through_chain(
                        columns,
                        key,
                        domains,
                        states,
                        depth,
                    ),
                    NodeOperator::Join(_) => None,
                },
            }
        },
    }
}

impl JoinNode {
    /// Structural soundness of the operator itself.
    pub open spec fn wf(&self) -> bool {
        &&& self.on_left < self.left_arity
        &&& self.on_right < self.right_arity
        &&& self.right_arity >= 1
    }

    /// The inputs this join can process: batches from its left parent, of its
    /// left parent's width, with the right parent materialized.
    pub open spec fn join_input_ok(&self, from: LocalNodeIndex, data: Seq<Record>, rkc: Option<Seq<usize>>, states: StateMap) -> bool {
        &&& self.wf()
        &&& from == self.left.local
        &&& forall|i: int|
            0 <= i < data.len() ==> (#[trigger] data[i]).row_view().len() == self.left_arity
        &&& match states.spec_get(self.right.local) {
            Some(st) => st.wf() && st.arity == self.right_arity,
            None => false,
        }
        &&& match rkc {
            Some(cols) => forall|i: int| 0 <= i < cols.len() ==> #[trigger] cols[i] < self.left_arity,
            None => true,
        }
    }

    /// Ordinary processing: for each input record, the matching right-parent
    /// rows are joined on; a row whose key is a hole of the right parent's
    /// partial materialization is excluded and recorded as a miss.
    pub fn apply_input(
        &self,
        from: LocalNodeIndex,
        data: &Records,
        replay_key_cols: Option<&Vec<usize>>,
        states: &StateMap,
    ) -> (r: ProcessingResult)
        requires
            self.join_input_ok(from, data@, crate::processing::opt_cols_view(replay_key_cols), *states),
        ensures
            r.excludes_missed(),
            r.misses_wf(data@),
            forall|j: int|
                0 <= j < r.misses@.len() ==> join_miss_shape(
                    #[trigger] r.misses@[j],
                    *self,
                    crate::processing::opt_cols_view(replay_key_cols),
                ),
            forall|i: int|
                0 <= i < r.results@.len() ==> (#[trigger] r.results@[i]).row_view().len()
                    == self.left_arity + self.right_arity,
            recs_model(r.results@) == join_out_results(
                data@,
                states.spec_get(self.right.local)->Some_0,
                self.on_left,
                self.on_right,
            ),
            miss_records(r.misses@) == join_missed(
                data@,
                states.spec_get(self.right.local)->Some_0,
                self.on_left,
                self.on_right,
            ),
    {
        let st = match states.get(self.right.local) {
            Some(st) => st,
            None => unreached(),
        };
        let mut oncols: Vec<usize> = Vec::new();
        oncols.push(self.on_right);
        let mut results: Records = Vec::new();
        let mut misses: Vec<Miss> = Vec::new();
        let n = data.len();
        let mut i: usize = 0;
        while i < n
            invariant
                self.join_input_ok(from, data@, crate::processing::opt_cols_view(replay_key_cols), *states),
                states.spec_get(self.right.local) == Some(*st),
                oncols@ == seq![self.on_right],
                n == data@.len(),
                0 <= i <= n,
                forall|k: int|
                    0 <= k < results@.len() ==> (#[trigger] results@[k]).row_view().len()
                        == self.left_arity + self.right_arity,
                forall|j: int|
                    0 <= j < misses@.len() ==> (#[trigger] misses@[j]).wf() && join_miss_shape(
                        misses@[j],
                        *self,
                        crate::processing::opt_cols_view(replay_key_cols),
                    ) && exists|k: int|
                        0 <= k < data@.len() && misses@[j].record.deep_view() == data@[k].row_view(),
                recs_model(results@) == join_out_results(
                    data@.take(i as int),
                    *st,
                    self.on_left,
                    self.on_right,
                ),
                miss_records(misses@) == join_missed(
                    data@.take(i as int),
                    *st,
                    self.on_left,
                    self.on_right,
                ),
            decreases n - i,
        {
            let ghost taken = data@.take(i as int + 1);
            proof {
                assert(taken.drop_last() =~= data@.take(i as int));
                assert(taken.last() == data@[i as int]);
            }
            let rec = &data[i];
            let row = rec.rec_row();
            proof {
                assert(data@[i as int].row_view().len() == self.left_arity);
            }
            let mut keyv: Vec<DataType> = Vec::new();
            keyv.push(row[self.on_left].clone());
            proof {
                assert(keyv.deep_view() =~= seq![
                    data@[i as int].row_view()[self.on_left as int],
                ]);
            }
            match st.lookup(&oncols, &keyv) {
                LookupResult::Found(rs) => {
                    proof {
                        lemma_matching_rows_membership(
                            st.rows.deep_view(),
                            oncols@,
                            keyv.deep_view(),
                        );
                        assert(st.wf());
                        assert forall|t: int|
                            0 <= t < rs.deep_view().len() implies (#[trigger] rs.deep_view()[t]).len()
                            == self.right_arity by {
                            assert(rs.deep_view() == matching_rows(
                                st.rows.deep_view(),
                                oncols@,
                                keyv.deep_view(),
                            ));
                            assert(st.rows.deep_view().contains(rs.deep_view()[t]));
                            let u = choose|u: int|
                                0 <= u < st.rows.deep_view().len() && st.rows.deep_view()[u]
                                    == rs.deep_view()[t];
                            assert(st.rows.deep_view()[u].len() == st.arity);
                        }
                    }
                    proof {
                        assert(join_lookup(*st, self.on_left, self.on_right, data@[i as int])
                            == Some(rs.deep_view()));
                    }
                    let m = rs.len();
                    let mut k: usize = 0;
                    while k < m
                        invariant
                            self.wf(),
                            m == rs@.len(),
                            0 <= k <= m,
                            n == data@.len(),
                            i < n,
                            data@[i as int].row_view().len() == self.left_arity,
                            row.deep_view() == data@[i as int].row_view(),
                            rec == &data@[i as int],
                            join_lookup(*st, self.on_left, self.on_right, data@[i as int])
                                == Some(rs.deep_view()),
                            forall|t: int|
                                0 <= t < rs.deep_view().len()
                                    ==> (#[trigger] rs.deep_view()[t]).len() == self.right_arity,
                            forall|t: int|
                                0 <= t < results@.len() ==> (#[trigger] results@[t]).row_view().len()
                                    == self.left_arity + self.right_arity,
                            recs_model(results@) == join_out_results(
                                data@.take(i as int),
                                *st,
                                self.on_left,
                                self.on_right,
                            ) + join_rec_out(data@[i as int], rs.deep_view()).take(k as int),
                        decreases m - k,
                    {
                        proof {
                            assert(rs.deep_view()[k as int].len() == self.right_arity);
                        }
                        let joined = concat_rows(row, &rs[k]);
                        proof {
                            assert(joined.deep_view().len() == self.left_arity + self.right_arity);
                        }
                        let out_rec = rec.with_row(joined);
                        let ghost om = rec_model(out_rec);
                        let ghost prevres = results@;
                        results.push(out_rec);
                        proof {
                            let jro = join_rec_out(data@[i as int], rs.deep_view());
                            assert(om == jro[k as int]);
                            assert(recs_model(results@) =~= recs_model(prevres).push(om));
                            assert(jro.take(k as int + 1) =~= jro.take(k as int).push(
                                jro[k as int],
                            ));
                            assert(recs_model(results@) =~= join_out_results(
                                data@.take(i as int),
                                *st,
                                self.on_left,
                                self.on_right,
                            ) + jro.take(k as int + 1));
                        }
                        k += 1;
                    }
                    proof {
                        let jro = join_rec_out(data@[i as int], rs.deep_view());
                        assert(jro.take(m as int) =~= jro);
                        assert(recs_model(results@) =~= join_out_results(
                            taken,
                            *st,
                            self.on_left,
                            self.on_right,
                        ));
                        assert(miss_records(misses@) =~= join_missed(
                            taken,
                            *st,
                            self.on_left,
                            self.on_right,
                        ));
                    }
                },
                LookupResult::Missing => {
                    let mut li: Vec<usize> = Vec::new();
                    li.push(self.on_right);
                    let mut lc: Vec<usize> = Vec::new();
                    lc.push(self.on_left);
                    let rc = match replay_key_cols {
                        Some(rkc) => {
                            let c = copy_cols(rkc);
                            proof {
                                assert(crate::processing::opt_cols_view(replay_key_cols)
                                    == Some(rkc@));
                                assert(self.join_input_ok(
                                    from,
                                    data@,
                                    Some(rkc@),
                                    *states,
                                ));
                                assert(forall|t: int|
                                    0 <= t < rkc@.len() ==> #[trigger] rkc@[t] < self.left_arity);
                                assert(c@ == rkc@);
                                assert forall|t: int|
                                    0 <= t < c@.len() implies #[trigger] c@[t]
                                    < self.left_arity by {
                                    assert(c@[t] == rkc@[t]);
                                }
                            }
                            Some(c)
                        },
                        None => None,
                    };
                    let miss = Miss {
                        on: self.right.local,
                        lookup_idx: li,
                        lookup_cols: lc,
                        replay_cols: rc,
                        record: clone_row(row),
                    };
                    proof {
                        assert(miss.record@.len() == miss.record.deep_view().len());
                        assert(miss.record.deep_view().len() == self.left_arity);
                        assert(miss.lookup_cols@ =~= seq![self.on_left]);
                        assert(miss.lookup_idx@ =~= seq![self.on_right]);
                        assert forall|t: int|
                            0 <= t < miss.lookup_cols@.len() implies #[trigger] miss.lookup_cols@[t]
                            < miss.record@.len() by {
                            assert(miss.lookup_cols@[t] == self.on_left);
                        }
                        assert(miss.wf());
                        assert(join_lookup(*st, self.on_left, self.on_right, data@[i as int])
                            is None);
                    }
                    let ghost prevmiss = misses@;
                    misses.push(miss);
                    proof {
                        assert(miss_records(misses@) =~= miss_records(prevmiss).push(
                            data@[i as int].row_view(),
                        ));
                        assert(miss_records(misses@) =~= join_missed(
                            taken,
                            *st,
                            self.on_left,
                            self.on_right,
                        ));
                        assert(recs_model(results@) =~= join_out_results(
                            taken,
                            *st,
                            self.on_left,
                            self.on_right,
                        ));
                    }
                },
            }
            i += 1;
        }
        proof {
            assert(data@.take(n as int) =~= data@);
            assert(states.spec_get(self.right.local)->Some_0 == *st);
        }
        let r = ProcessingResult { results, misses };
        proof {
            assert forall|a: int, b: int|
                0 <= a < r.results@.len() && 0 <= b < r.misses@.len() implies (
            #[trigger] r.results@[a]).row_view() != (#[trigger] r.misses@[b]).record.deep_view() by {
                assert(r.results@[a].row_view().len() == self.left_arity + self.right_arity);
                assert(r.misses@[b].record.deep_view().len() == self.left_arity);
            }
        }
        r
    }

    /// Partial-replay processing: the requested keys some miss left unfilled
    /// are captured for a later piece; when every requested key resolved, the
    /// processed rows flow out under the full requested key set.
    pub fn replay_piece(
        &self,
        from: LocalNodeIndex,
        data: &Records,
        key_cols: &Vec<usize>,
        requested: &KeySet,
        states: &StateMap,
    ) -> (r: (Records, KeySet, KeySet))
        requires
            self.join_input_ok(from, data@, Some(key_cols@), *states),
        ensures
            r.1@ == requested@.difference(r.2@),
            r.2@.subset_of(requested@),
            forall|x: Seq<DataValue>| #[trigger]
                r.2@.contains(x) <==> requested@.contains(x) && join_missed_key(
                    data@,
                    states.spec_get(self.right.local)->Some_0,
                    self.on_left,
                    self.on_right,
                    key_cols@,
                    x,
                ),
            r.2@ =~= Set::<Seq<DataValue>>::empty() ==> recs_model(r.0@) == join_out_results(
                data@,
                states.spec_get(self.right.local)->Some_0,
                self.on_left,
                self.on_right,
            ),
            !(r.2@ =~= Set::<Seq<DataValue>>::empty()) ==> r.0@.len() == 0,
    {
        let pr = self.apply_input(from, data, Some(key_cols), states);
        let ProcessingResult { results: out_rows, misses } = pr;
        let ghost stm = states.spec_get(self.right.local)->Some_0;
        proof {
            assert forall|x: Seq<DataValue>|
                spec_covered(misses@, x) == join_missed_key(
                    data@,
                    stm,
                    self.on_left,
                    self.on_right,
                    key_cols@,
                    x,
                ) by {
                let jm = join_missed(data@, stm, self.on_left, self.on_right);
                assert(miss_records(misses@) == jm);
                assert(miss_records(misses@).len() == misses@.len());
                if spec_covered(misses@, x) {
                    let j = choose|j: int|
                        0 <= j < misses@.len() && (#[trigger] misses@[j]).replay_key_spec()
                            == Some(x);
                    assert(miss_records(misses@)[j] == misses@[j].record.deep_view());
                    assert(misses@[j].replay_cols matches Some(rc) && rc@ == key_cols@);
                    assert(project(jm[j], key_cols@) == x);
                }
                if join_missed_key(data@, stm, self.on_left, self.on_right, key_cols@, x) {
                    let j = choose|j: int|
                        0 <= j < jm.len() && project(#[trigger] jm[j], key_cols@) == x;
                    assert(miss_records(misses@)[j] == misses@[j].record.deep_view());
                    assert(misses@[j].record.deep_view() == jm[j]);
                    assert(misses@[j].replay_cols matches Some(rc) && rc@ == key_cols@);
                    assert(misses@[j].replay_key_spec() == Some(x));
                }
            }
        }
        let mut keys = KeySet::new();
        let mut captured = KeySet::new();
        let reqn = requested.len();
        let mut i: usize = 0;
        while i < reqn
            invariant
                reqn == requested.elems.deep_view().len(),
                0 <= i <= reqn,
                keys.wf(),
                captured.wf(),
                forall|j: int| 0 <= j < misses@.len() ==> (#[trigger] misses@[j]).wf(),
                forall|x: Seq<DataValue>| #[trigger]
                    captured@.contains(x) <==> exists|j: int|
                        0 <= j < i && requested.elems.deep_view()[j] == x && spec_covered(
                            misses@,
                            x,
                        ),
                forall|x: Seq<DataValue>| #[trigger]
                    keys@.contains(x) <==> exists|j: int|
                        0 <= j < i && requested.elems.deep_view()[j] == x && !spec_covered(
                            misses@,
                            x,
                        ),
            decreases reqn - i,
        {
            let k = requested.at(i);
            let kc = clone_row(k);
            if crate::processing::covered_by_miss(&misses, k) {
                captured.insert(kc);
            } else {
                keys.insert(kc);
            }
            i += 1;
        }
        proof {
            assert forall|x: Seq<DataValue>| #[trigger]
                captured@.contains(x) implies requested@.contains(x) by {
                let j = choose|j: int|
                    0 <= j < reqn && requested.elems.deep_view()[j] == x && spec_covered(
                        misses@,
                        x,
                    );
                assert(requested.elems.deep_view().contains(x));
            }
            assert forall|x: Seq<DataValue>| #[trigger]
                keys@.contains(x) == requested@.difference(captured@).contains(x) by {
                if keys@.contains(x) {
                    let j = choose|j: int|
                        0 <= j < reqn && requested.elems.deep_view()[j] == x && !spec_covered(
                            misses@,
                            x,
                        );
                    assert(requested.elems.deep_view().contains(x));
                    assert(!captured@.contains(x));
                }
                if requested@.difference(captured@).contains(x) {
                    assert(requested.elems.deep_view().contains(x));
                    let j = choose|j: int|
                        0 <= j < requested.elems.deep_view().len()
                            && requested.elems.deep_view()[j] == x;
                    if spec_covered(misses@, x) {
                        assert(captured@.contains(x));
                    }
                    assert(keys@.contains(x));
                }
            }
            assert(keys@ =~= requested@.difference(captured@));
        }
        let rows: Records = if captured.len() == 0 {
            proof {
                assert(captured@ =~= Set::<Seq<DataValue>>::empty());
            }
            out_rows
        } else {
            proof {
                assert(captured@.contains(captured.elems.deep_view()[0]));
            }
            Vec::new()
        };
        (rows, keys, captured)
    }
}

impl FilterNode {
    /// Answers a keyed lookup without a materialization of this filter's own,
    /// by looking up the ancestor and filtering what it answers.
    pub fn query_through_chain(
        &self,
        columns: &Vec<usize>,
        key: &Vec<DataType>,
        domains: &DomainNodes,
        states: &StateMap,
        depth: usize,
    ) -> (r: Option<Option<Vec<Vec<DataType>>>>)
        requires
            depth > 0 ==> lookup_pre(
                self.src.local,
                columns@,
                *domains,
                *states,
                (depth - 1) as nat,
            ),
        ensures
            r.deep_view() == filter_qt_spec(
                *self,
                columns@,
                key.deep_view(),
                *domains,
                *states,
                depth as nat,
            ),
        decreases depth, 0int,
    {
        if depth == 0 {
            return None;
        }
        match lookup_chain(self.src.local, columns, key, domains, states, depth - 1) {
            None => None,
            Some(ans) => match ans {
                None => Some(None),
                Some(rows) => Some(Some(self.filter_rows(&rows))),
            },
        }
    }
}

impl Ingredient for FilterNode {
    /// A filter accepts any batch: it performs no lookups of its own.
    open spec fn input_ok(
        &self,
        from: LocalNodeIndex,
        data: Seq<Record>,
        replay_key_cols: Option<Seq<usize>>,
        domains: DomainNodes,
        states: StateMap,
    ) -> bool {
        true
    }

    open spec fn supports_query_through(&self) -> bool {
        true
    }

    open spec fn spec_ancestors(&self) -> Seq<NodeIndex> {
        seq![self.src.global]
    }

    open spec fn is_base(&self) -> bool {
        false
    }

    open spec fn spec_is_join(&self) -> bool {
        false
    }

    open spec fn spec_is_selective(&self) -> bool {
        true
    }

    open spec fn spec_requires_full_mat(&self) -> bool {
        false
    }

    open spec fn spec_committed(&self) -> bool {
        self.committed
    }

    open spec fn spec_taken(&self) -> bool {
        self.taken
    }

    open spec fn detaches_to(&self, op: NodeOperator) -> bool {
        op matches NodeOperator::Filter(f) && f.src == self.src && f.conditions.deep_view()
            == self.conditions.deep_view() && f.cols == self.cols && f.committed == self.committed
            && !f.taken
    }

    open spec fn committed_state(&self, remap: RemapTable) -> Self {
        let l = match remap.spec_local_of(self.src.global) {
            Some(l) => l,
            None => self.src.local,
        };
        FilterNode {
            src: IndexPair { global: self.src.global, local: l },
            conditions: self.conditions,
            cols: self.cols,
            committed: true,
            taken: self.taken,
        }
    }

    open spec fn connected_state(&self, graph: Graph) -> Self {
        if self.src.global.id < graph.node_columns@.len() {
            FilterNode {
                src: self.src,
                conditions: self.conditions,
                cols: graph.node_columns@[self.src.global.id as int],
                committed: self.committed,
                taken: self.taken,
            }
        } else {
            *self
        }
    }

    open spec fn label(&self) -> Seq<char> {
        "filter"@
    }

    open spec fn replies_with_piece(&self, replay: ReplayContext) -> bool {
        false
    }

    open spec fn resolve_spec(&self, i: usize) -> Option<Seq<(NodeIndex, usize)>> {
        Some(seq![(self.src.global, i)])
    }

    open spec fn parent_columns_spec(&self, column: usize) -> Seq<(NodeIndex, Option<usize>)> {
        seq![(self.src.global, Some(column))]
    }

    open spec fn suggest_indexes_spec(&self, you: NodeIndex) -> Seq<(NodeIndex, Seq<usize>, bool)> {
        Seq::empty()
    }

    /// A filter forwards the passing records and never misses.
    open spec fn input_spec(
        &self,
        from: LocalNodeIndex,
        data: Seq<Record>,
        replay_key_cols: Option<Seq<usize>>,
        domains: DomainNodes,
        states: StateMap,
    ) -> (Seq<(bool, Seq<DataValue>)>, Seq<Seq<DataValue>>) {
        (spec_passing_records(data, self.conditions.deep_view()), Seq::empty())
    }

    /// A filter never produces a replay piece of its own: its replay entry
    /// point is the forwarding default.
    open spec fn raw_piece_spec(
        &self,
        from: LocalNodeIndex,
        data: Seq<Record>,
        key_cols: Seq<usize>,
        requested: Set<Seq<DataValue>>,
        domains: DomainNodes,
        states: StateMap,
    ) -> (Seq<(bool, Seq<DataValue>)>, Set<Seq<DataValue>>) {
        (Seq::empty(), Set::empty())
    }

    open spec fn qt_pre(
        &self,
        columns: Seq<usize>,
        domains: DomainNodes,
        states: StateMap,
        depth: nat,
    ) -> bool {
        depth > 0 ==> lookup_pre(self.src.local, columns, domains, states, (depth - 1) as nat)
    }

    open spec fn qt_spec(
        &self,
        columns: Seq<usize>,
        key: Seq<DataValue>,
        domains: DomainNodes,
        states: StateMap,
        depth: nat,
    ) -> Option<Option<Seq<Seq<DataValue>>>> {
        filter_qt_spec(*self, columns, key, domains, states, depth)
    }

    fn take(&mut self) -> (r: NodeOperator) {
        let op = NodeOperator::Filter(
            FilterNode {
                src: self.src,
                conditions: clone_conditions(&self.conditions),
                cols: self.cols,
                committed: self.committed,
                taken: false,
            },
        );
        self.taken = true;
        op
    }

    fn ancestors(&self) -> (r: Vec<NodeIndex>) {
        let mut v: Vec<NodeIndex> = Vec::new();
        v.push(self.src.global);
        proof {
            assert(v@ =~= self.spec_ancestors());
        }
        v
    }

    fn suggest_indexes(&self, you: NodeIndex) -> (r: Vec<(NodeIndex, Vec<usize>, bool)>) {
        Vec::new()
    }

    fn resolve(&self, i: usize) -> (r: Option<Vec<(NodeIndex, usize)>>) {
        let mut v: Vec<(NodeIndex, usize)> = Vec::new();
        v.push((self.src.global, i));
        proof {
            assert(v@ =~= seq![(self.src.global, i)]);
        }
        Some(v)
    }

    fn get_base(&self) -> (r: Option<&Base>) {
        None
    }

    fn get_base_mut(&mut self) -> (r: Option<&mut Base>) {
        None
    }

    fn is_join(&self) -> (r: bool) {
        false
    }

    fn description(&self) -> (r: String) {
        "filter".to_owned()
    }

    fn on_connected(&mut self, graph: &Graph) {
        if self.src.global.id < graph.node_columns.len() {
            self.cols = graph.node_columns[self.src.global.id];
        }
        proof {
            assert(*self =~= old(self).connected_state(*graph));
        }
    }

    fn on_commit(&mut self, you: NodeIndex, remap: &RemapTable) {
        if !self.committed {
            match remap.local_of(self.src.global) {
                Some(l) => {
                    self.src.local = l;
                },
                None => {},
            }
            self.committed = true;
            proof {
                assert(*self =~= old(self).committed_state(*remap));
            }
        }
    }

    fn on_input(
        &mut self,
        from: LocalNodeIndex,
        data: &Records,
        replay_key_cols: Option<&Vec<usize>>,
        domains: &DomainNodes,
        states: &StateMap,
    ) -> (r: ProcessingResult) {
        let pr = self.apply_input(data);
        proof {
            assert(miss_records(pr.misses@) =~= Seq::<Seq<DataValue>>::empty());
        }
        pr
    }

    /// A filter has no replay behavior of its own: it forwards to ordinary
    /// processing under the context's key columns.
    fn on_input_raw(
        &mut self,
        from: LocalNodeIndex,
        data: &Records,
        replay: &ReplayContext,
        domains: &DomainNodes,
        states: &StateMap,
    ) -> (r: RawProcessingResult) {
        let rkc = replay.key();
        proof {
            assert(opt_cols_view(rkc) == ctx_key_view(*replay));
        }
        RawProcessingResult::Regular(self.on_input(from, data, rkc, domains, states))
    }

    fn can_query_through(&self) -> (r: bool) {
        true
    }

    fn query_through(
        &self,
        columns: &Vec<usize>,
        key: &Vec<DataType>,
        domains: &DomainNodes,
        states: &StateMap,
        depth: usize,
    ) -> (r: Option<Option<Vec<Vec<DataType>>>>) {
        self.query_through_chain(columns, key, domains, states, depth)
    }

    fn parent_columns(&self, column: usize) -> (r: Vec<(NodeIndex, Option<usize>)>) {
        let mut v: Vec<(NodeIndex, Option<usize>)> = Vec::new();
        v.push((self.src.global, Some(column)));
        proof {
            assert(v@ =~= self.parent_columns_spec(column));
        }
        v
    }

    fn is_selective(&self) -> (r: bool) {
        true
    }

    fn requires_full_materialization(&self) -> (r: bool) {
        false
    }
}

impl Ingredient for JoinNode {
    /// A join processes left-parent batches of the left width, with the
    /// right parent materialized and any replay key columns in range.
    open spec fn input_ok(
        &self,
        from: LocalNodeIndex,
        data: Seq<Record>,
        replay_key_cols: Option<Seq<usize>>,
        domains: DomainNodes,
        states: StateMap,
    ) -> bool {
        self.join_input_ok(from, data, replay_key_cols, states)
    }

    open spec fn supports_query_through(&self) -> bool {
        false
    }

    open spec fn spec_ancestors(&self) -> Seq<NodeIndex> {
        seq![self.left.global, self.right.global]
    }

    open spec fn is_base(&self) -> bool {
        false
    }

    open spec fn spec_is_join(&self) -> bool {
        true
    }

    open spec fn spec_is_selective(&self) -> bool {
        false
    }

    open spec fn spec_requires_full_mat(&self) -> bool {
        false
    }

    open spec fn spec_committed(&self) -> bool {
        self.committed
    }

    open spec fn spec_taken(&self) -> bool {
        self.taken
    }

    open spec fn detaches_to(&self, op: NodeOperator) -> bool {
        op matches NodeOperator::Join(j) && j.left == self.left && j.right == self.right
            && j.on_left == self.on_left && j.on_right == self.on_right && j.left_arity
            == self.left_arity && j.right_arity == self.right_arity && j.committed
            == self.committed && !j.taken
    }

    open spec fn committed_state(&self, remap: RemapTable) -> Self {
        let ll = match remap.spec_local_of(self.left.global) {
            Some(l) => l,
            None => self.left.local,
        };
        let rl = match remap.spec_local_of(self.right.global) {
            Some(l) => l,
            None => self.right.local,
        };
        JoinNode {
            left: IndexPair { global: self.left.global, local: ll },
            right: IndexPair { global: self.right.global, local: rl },
            on_left: self.on_left,
            on_right: self.on_right,
            left_arity: self.left_arity,
            right_arity: self.right_arity,
            committed: true,
            taken: self.taken,
        }
    }

    open spec fn connected_state(&self, graph: Graph) -> Self {
        *self
    }

    open spec fn label(&self) -> Seq<char> {
        "join"@
    }

    open spec fn replies_with_piece(&self, replay: ReplayContext) -> bool {
        replay is Partial
    }

    open spec fn resolve_spec(&self, i: usize) -> Option<Seq<(NodeIndex, usize)>> {
        if i < self.left_arity {
            Some(seq![(self.left.global, i)])
        } else if i - self.left_arity < self.right_arity {
            Some(seq![(self.right.global, (i - self.left_arity) as usize)])
        } else {
            None
        }
    }

    open spec fn parent_columns_spec(&self, column: usize) -> Seq<(NodeIndex, Option<usize>)> {
        if column < self.left_arity {
            seq![(self.left.global, Some(column))]
        } else if column - self.left_arity < self.right_arity {
            seq![(self.right.global, Some((column - self.left_arity) as usize))]
        } else {
            Seq::empty()
        }
    }

    open spec fn suggest_indexes_spec(&self, you: NodeIndex) -> Seq<(NodeIndex, Seq<usize>, bool)> {
        seq![(self.right.global, seq![self.on_right], true)]
    }

    /// A join forwards each hit row joined with its matching right rows, and
    /// excludes as misses exactly the rows whose key is a hole.
    open spec fn input_spec(
        &self,
        from: LocalNodeIndex,
        data: Seq<Record>,
        replay_key_cols: Option<Seq<usize>>,
        domains: DomainNodes,
        states: StateMap,
    ) -> (Seq<(bool, Seq<DataValue>)>, Seq<Seq<DataValue>>) {
        let st = states.spec_get(self.right.local)->Some_0;
        (
            join_out_results(data, st, self.on_left, self.on_right),
            join_missed(data, st, self.on_left, self.on_right),
        )
    }

    /// A join's piece captures exactly the requested keys some missed row
    /// projects to, and forwards its processed rows only when nothing was
    /// captured.
    open spec fn raw_piece_spec(
        &self,
        from: LocalNodeIndex,
        data: Seq<Record>,
        key_cols: Seq<usize>,
        requested: Set<Seq<DataValue>>,
        domains: DomainNodes,
        states: StateMap,
    ) -> (Seq<(bool, Seq<DataValue>)>, Set<Seq<DataValue>>) {
        let st = states.spec_get(self.right.local)->Some_0;
        let rows = if exists|x: Seq<DataValue>|
            requested.contains(x) && join_missed_key(
                data,
                st,
                self.on_left,
                self.on_right,
                key_cols,
                x,
            ) {
            Seq::empty()
        } else {
            join_out_results(data, st, self.on_left, self.on_right)
        };
        let cap = Set::new(
            |x: Seq<DataValue>|
                requested.contains(x) && join_missed_key(
                    data,
                    st,
                    self.on_left,
                    self.on_right,
                    key_cols,
                    x,
                ),
        );
        (rows, cap)
    }

    open spec fn qt_pre(
        &self,
        columns: Seq<usize>,
        domains: DomainNodes,
        states: StateMap,
        depth: nat,
    ) -> bool {
        true
    }

    open spec fn qt_spec(
        &self,
        columns: Seq<usize>,
        key: Seq<DataValue>,
        domains: DomainNodes,
        states: StateMap,
        depth: nat,
    ) -> Option<Option<Seq<Seq<DataValue>>>> {
        None
    }

    fn take(&mut self) -> (r: NodeOperator) {
        let op = NodeOperator::Join(
            JoinNode {
                left: self.left,
                right: self.right,
                on_left: self.on_left,
                on_right: self.on_right,
                left_arity: self.left_arity,
                right_arity: self.right_arity,
                committed: self.committed,
                taken: false,
            },
        );
        self.taken = true;
        op
    }

    fn ancestors(&self) -> (r: Vec<NodeIndex>) {
        let mut v: Vec<NodeIndex> = Vec::new();
        v.push(self.left.global);
        v.push(self.right.global);
        proof {
            assert(v@ =~= self.spec_ancestors());
        }
        v
    }

    fn must_replay_among(&self) -> (r: Option<Vec<NodeIndex>>) {
        let mut v: Vec<NodeIndex> = Vec::new();
        v.push(self.left.global);
        v.push(self.right.global);
        proof {
            assert(v@ =~= self.spec_ancestors());
            assert forall|i: int| 0 <= i < v@.len() implies self.spec_ancestors().contains(
                #[trigger] v@[i],
            ) by {
                assert(self.spec_ancestors()[i] == v@[i]);
            }
        }
        Some(v)
    }

    fn suggest_indexes(&self, you: NodeIndex) -> (r: Vec<(NodeIndex, Vec<usize>, bool)>) {
        let mut cols: Vec<usize> = Vec::new();
        cols.push(self.on_right);
        let mut v: Vec<(NodeIndex, Vec<usize>, bool)> = Vec::new();
        v.push((self.right.global, cols, true));
        proof {
            assert(v@[0].1@ =~= seq![self.on_right]);
        }
        v
    }

    fn resolve(&self, i: usize) -> (r: Option<Vec<(NodeIndex, usize)>>) {
        let mut v: Vec<(NodeIndex, usize)> = Vec::new();
        if i < self.left_arity {
            v.push((self.left.global, i));
            proof {
                assert(v@ =~= seq![(self.left.global, i)]);
            }
            Some(v)
        } else if i - self.left_arity < self.right_arity {
            v.push((self.right.global, i - self.left_arity));
            proof {
                assert(v@ =~= seq![(self.right.global, (i - self.left_arity) as usize)]);
            }
            Some(v)
        } else {
            None
        }
    }

    fn get_base(&self) -> (r: Option<&Base>) {
        None
    }

    fn get_base_mut(&mut self) -> (r: Option<&mut Base>) {
        None
    }

    fn is_join(&self) -> (r: bool) {
        true
    }

    fn description(&self) -> (r: String) {
        "join".to_owned()
    }

    fn on_connected(&mut self, graph: &Graph) {
    }

    fn on_commit(&mut self, you: NodeIndex, remap: &RemapTable) {
        if !self.committed {
            match remap.local_of(self.left.global) {
                Some(l) => {
                    self.left.local = l;
                },
                None => {},
            }
            match remap.local_of(self.right.global) {
                Some(l) => {
                    self.right.local = l;
                },
                None => {},
            }
            self.committed = true;
            proof {
                assert(*self =~= old(self).committed_state(*remap));
            }
        }
    }

    fn on_input(
        &mut self,
        from: LocalNodeIndex,
        data: &Records,
        replay_key_cols: Option<&Vec<usize>>,
        domains: &DomainNodes,
        states: &StateMap,
    ) -> (r: ProcessingResult) {
        self.apply_input(from, data, replay_key_cols, states)
    }

    /// Under a partial replay a join resolves what it can and captures the
    /// requested keys it must wait on; otherwise it processes ordinarily.
    fn on_input_raw(
        &mut self,
        from: LocalNodeIndex,
        data: &Records,
        replay: &ReplayContext,
        domains: &DomainNodes,
        states: &StateMap,
    ) -> (r: RawProcessingResult) {
        match replay {
            ReplayContext::Partial { key_cols, keys } => {
                proof {
                    assert(ctx_key_view(*replay) == Some(key_cols@));
                }
                let (rows, ks, captured) = self.replay_piece(from, data, key_cols, keys, states);
                proof {
                    let st = states.spec_get(self.right.local)->Some_0;
                    let ps = self.raw_piece_spec(from, data@, key_cols@, keys@, *domains, *states);
                    assert(captured@ =~= ps.1);
                    if exists|x: Seq<DataValue>|
                        keys@.contains(x) && join_missed_key(
                            data@,
                            st,
                            self.on_left,
                            self.on_right,
                            key_cols@,
                            x,
                        ) {
                        let w = choose|x: Seq<DataValue>|
                            keys@.contains(x) && join_missed_key(
                                data@,
                                st,
                                self.on_left,
                                self.on_right,
                                key_cols@,
                                x,
                            );
                        assert(captured@.contains(w));
                        assert(!(captured@ =~= Set::<Seq<DataValue>>::empty()));
                        assert(rows@.len() == 0);
                        assert(recs_model(rows@) =~= ps.0);
                    } else {
                        assert forall|x: Seq<DataValue>| !(#[trigger] captured@.contains(x)) by {
                            if captured@.contains(x) {
                                assert(keys@.contains(x) && join_missed_key(
                                    data@,
                                    st,
                                    self.on_left,
                                    self.on_right,
                                    key_cols@,
                                    x,
                                ));
                            }
                        }
                        assert(captured@ =~= Set::<Seq<DataValue>>::empty());
                        assert(recs_model(rows@) == ps.0);
                    }
                }
                RawProcessingResult::ReplayPiece { rows, keys: ks, captured }
            },
            _ => {
                let rkc = replay.key();
                proof {
                    assert(opt_cols_view(rkc) == ctx_key_view(*replay));
                }
                RawProcessingResult::Regular(self.apply_input(from, data, rkc, states))
            },
        }
    }

    fn can_query_through(&self) -> (r: bool) {
        false
    }

    /// A join derives rows across inputs, so it cannot be queried through.
    fn query_through(
        &self,
        columns: &Vec<usize>,
        key: &Vec<DataType>,
        domains: &DomainNodes,
        states: &StateMap,
        depth: usize,
    ) -> (r: Option<Option<Vec<Vec<DataType>>>>) {
        None
    }

    fn parent_columns(&self, column: usize) -> (r: Vec<(NodeIndex, Option<usize>)>) {
        let mut v: Vec<(NodeIndex, Option<usize>)> = Vec::new();
        if column < self.left_arity {
            v.push((self.left.global, Some(column)));
        } else if column - self.left_arity < self.right_arity {
            v.push((self.right.global, Some(column - self.left_arity)));
        }
        proof {
            assert(v@ =~= self.parent_columns_spec(column));
        }
        v
    }

    fn is_selective(&self) -> (r: bool) {
        false
    }

    fn requires_full_materialization(&self) -> (r: bool) {
        false
    }
}

} // verus!
