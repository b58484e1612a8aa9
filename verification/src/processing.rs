//! The miss/replay data model and the node processing contract: what one
//! batch of records fed to a node produces, and what a failed keyed lookup
//! carries so that a replay can later satisfy it.

use vstd::prelude::*;

use crate::data::{project, recs_model, DataType, DataValue, Record, Records};
use crate::keys::KeySet;
use crate::node::{lookup_chain, lookup_chain_spec, lookup_pre};
use crate::node::{Base, DomainNodes, Graph, NodeOperator};
use crate::state::{LocalNodeIndex, NodeIndex, RemapTable, StateMap};

verus! {

/// One failed lookup during processing: enough information to later request
/// and satisfy a replay.
#[derive(Debug)]
pub struct Miss {
    /// The node the lookup missed into.
    pub on: LocalNodeIndex,
    /// The columns of `on` the lookup was keyed on.
    pub lookup_idx: Vec<usize>,
    /// The columns of `record` supplying the lookup key.
    pub lookup_cols: Vec<usize>,
    /// The columns of `record` identifying the replay key, if any.
    pub replay_cols: Option<Vec<usize>>,
    /// The row being processed when the lookup missed.
    pub record: Vec<DataType>,
}

impl Miss {
    /// Structural invariant: the key column lists correspond, and every
    /// column named indexes into `record`.
    pub open spec fn wf(&self) -> bool {
        &&& self.lookup_cols@.len() == self.lookup_idx@.len()
        &&& forall|i: int|
            0 <= i < self.lookup_cols@.len() ==> #[trigger] self.lookup_cols@[i]
                < self.record@.len()
        &&& (self.replay_cols matches Some(rc) ==> forall|i: int|
            0 <= i < rc@.len() ==> #[trigger] rc@[i] < self.record@.len())
    }

    /// The lookup key this miss was keyed on.
    pub open spec fn lookup_key_spec(&self) -> Seq<DataValue> {
        project(self.record.deep_view(), self.lookup_cols@)
    }

    /// The replay key of this miss, when one exists.
    pub open spec fn replay_key_spec(&self) -> Option<Seq<DataValue>> {
        match self.replay_cols {
            Some(rc) => Some(project(self.record.deep_view(), rc@)),
            None => None,
        }
    }

    /// The values of `record` at `lookup_cols`, borrowed.
    pub fn lookup_key<'a>(&'a self) -> (r: Vec<&'a DataType>)
        requires
            self.wf(),
        ensures
            r@.len() == self.lookup_cols@.len(),
            forall|i: int|
                0 <= i < r@.len() ==> #[trigger] r@[i]@ == self.record.deep_view()[self.lookup_cols@[i] as int],
    {
        let mut out: Vec<&DataType> = Vec::new();
        let n = self.lookup_cols.len();
        let mut i: usize = 0;
        while i < n
            invariant
                self.wf(),
                n == self.lookup_cols@.len(),
                0 <= i <= n,
                out@.len() == i,
                forall|j: int|
                    0 <= j < i ==> #[trigger] out@[j]@ == self.record.deep_view()[self.lookup_cols@[j] as int],
            decreases n - i,
        {
            out.push(&self.record[self.lookup_cols[i]]);
            i += 1;
        }
        out
    }

    /// The values of `record` at `lookup_cols`, owned.
    pub fn lookup_key_vec(&self) -> (r: Vec<DataType>)
        requires
            self.wf(),
        ensures
            r.deep_view() == self.lookup_key_spec(),
            r@.len() == self.lookup_cols@.len(),
            forall|i: int|
                0 <= i < r@.len() ==> r.deep_view()[i] == self.record.deep_view()[self.lookup_cols@[i] as int],
    {
        let r = crate::data::project_row(&self.record, &self.lookup_cols);
        proof {
            assert(r.deep_view().len() == r@.len());
            assert(r.deep_view().len() == self.lookup_key_spec().len());
            assert(forall|i: int|
                0 <= i < r@.len() ==> r.deep_view()[i] == self.lookup_key_spec()[i]);
        }
        r
    }

    /// The values of `record` at `replay_cols`, borrowed; absent when no
    /// replay key is set.
    pub fn replay_key<'a>(&'a self) -> (r: Option<Vec<&'a DataType>>)
        requires
            self.wf(),
        ensures
            r is Some <==> self.replay_cols is Some,
            r matches Some(v) ==> {
                let rc = self.replay_cols->Some_0;
                v@.len() == rc@.len() && forall|i: int|
                    0 <= i < v@.len() ==> #[trigger] v@[i]@ == self.record.deep_view()[rc@[i] as int]
            },
    {
        match &self.replay_cols {
            Some(rc) => {
                let mut out: Vec<&DataType> = Vec::new();
                let n = rc.len();
                let mut i: usize = 0;
                while i < n
                    invariant
                        self.wf(),
                        self.replay_cols matches Some(rcv) && rcv@ == rc@,
                        n == rc@.len(),
                        0 <= i <= n,
                        out@.len() == i,
                        forall|j: int|
                            0 <= j < i ==> #[trigger] out@[j]@ == self.record.deep_view()[rc@[j] as int],
                    decreases n - i,
                {
                    out.push(&self.record[rc[i]]);
                    i += 1;
                }
                Some(out)
            },
            None => None,
        }
    }

    /// The values of `record` at `replay_cols`, owned; absent when no replay
    /// key is set.
    pub fn replay_key_vec(&self) -> (r: Option<Vec<DataType>>)
        requires
            self.wf(),
        ensures
            match r {
                Some(v) => self.replay_key_spec() == Some(v.deep_view()),
                None => self.replay_key_spec() is None,
            },
    {
        match &self.replay_cols {
            Some(rc) => Some(crate::data::project_row(&self.record, rc)),
            None => None,
        }
    }
}

/// The borrowing and the owned key accessors agree: a borrowed key whose
/// elements satisfy the borrowing contract models the very sequence the owned
/// variant returns.
pub proof fn lemma_lookup_key_variants_agree(m: Miss, borrowed: Seq<DataValue>)
    requires
        m.wf(),
        borrowed.len() == m.lookup_cols@.len(),
        forall|i: int|
            0 <= i < borrowed.len() ==> #[trigger] borrowed[i] == m.record.deep_view()[m.lookup_cols@[i] as int],
    ensures
        borrowed == m.lookup_key_spec(),
{
    assert(borrowed =~= m.lookup_key_spec());
}

/// The same agreement for the replay key accessors.
pub proof fn lemma_replay_key_variants_agree(m: Miss, rc: Vec<usize>, borrowed: Seq<DataValue>)
    requires
        m.wf(),
        m.replay_cols == Some(rc),
        borrowed.len() == rc@.len(),
        forall|i: int|
            0 <= i < borrowed.len() ==> #[trigger] borrowed[i] == m.record.deep_view()[rc@[i] as int],
    ensures
        m.replay_key_spec() == Some(borrowed),
{
    assert(borrowed =~= project(m.record.deep_view(), rc@));
}

/// Per-invocation replay state: whether the batch flows under no replay, a
/// partial replay for a specific key set, or a full-materialization fill.
#[derive(Debug)]
pub enum ReplayContext {
    /// Ordinary forward processing; the batch carries no replay semantics.
    Forward,
    /// The batch is satisfying specific keys of a partial materialization.
    Partial { key_cols: Vec<usize>, keys: KeySet },
    /// The batch is part of an unkeyed, full fill; `last` marks the terminal
    /// chunk.
    Full { last: bool },
}

impl ReplayContext {
    /// The key columns of a partial replay; absent for the other contexts.
    pub fn key(&self) -> (r: Option<&Vec<usize>>)
        ensures
            match r {
                Some(kc) => self matches ReplayContext::Partial { key_cols, .. } && kc@
                    == key_cols@,
                None => !(self is Partial),
            },
    {
        if let ReplayContext::Partial { key_cols, .. } = self {
            Some(key_cols)
        } else {
            None
        }
    }
}

/// The normal-path outcome of feeding one batch into a node.
#[derive(Debug)]
pub struct ProcessingResult {
    /// The batch to forward downstream.
    pub results: Records,
    /// Every lookup failure encountered while producing `results`.
    pub misses: Vec<Miss>,
}

impl ProcessingResult {
    /// The exclusion invariant: a row that produced a miss is not forwarded.
    pub open spec fn excludes_missed(&self) -> bool {
        forall|i: int, j: int|
            0 <= i < self.results@.len() && 0 <= j < self.misses@.len()
                ==> (#[trigger] self.results@[i]).row_view() != (
            #[trigger] self.misses@[j]).record.deep_view()
    }

    /// Every miss is structurally sound and records a row of the input batch.
    pub open spec fn misses_wf(&self, data: Seq<Record>) -> bool {
        forall|j: int|
            0 <= j < self.misses@.len() ==> (#[trigger] self.misses@[j]).wf() && exists|k: int|
                0 <= k < data.len() && self.misses@[j].record.deep_view() == data[k].row_view()
    }
}

/// The column list an optional replay-key argument denotes.
pub open spec fn opt_cols_view(o: Option<&Vec<usize>>) -> Option<Seq<usize>> {
    match o {
        Some(c) => Some(c@),
        None => None,
    }
}

/// The key columns a replay context hands to ordinary processing: those of a
/// partial replay, nothing otherwise.
pub open spec fn ctx_key_view(r: ReplayContext) -> Option<Seq<usize>> {
    match r {
        ReplayContext::Partial { key_cols, .. } => Some(key_cols@),
        _ => None,
    }
}

/// The rows the misses of `ms` record, in order.
pub open spec fn miss_records(ms: Seq<Miss>) -> Seq<Seq<DataValue>> {
    ms.map_values(|m: Miss| m.record.deep_view())
}

/// Whether some miss of `ms` carries `k` as its replay key.
pub open spec fn spec_covered(ms: Seq<Miss>, k: Seq<DataValue>) -> bool {
    exists|j: int| 0 <= j < ms.len() && (#[trigger] ms[j]).replay_key_spec() == Some(k)
}

/// Whether some miss of `misses` carries `key` as its replay key.
pub fn covered_by_miss(misses: &Vec<Miss>, key: &Vec<DataType>) -> (r: bool)
    requires
        forall|j: int| 0 <= j < misses@.len() ==> (#[trigger] misses@[j]).wf(),
    ensures
        r == spec_covered(misses@, key.deep_view()),
{
    let n = misses.len();
    let mut i: usize = 0;
    while i < n
        invariant
            n == misses@.len(),
            forall|j: int| 0 <= j < n ==> (#[trigger] misses@[j]).wf(),
            0 <= i <= n,
            forall|j: int|
                0 <= j < i ==> (#[trigger] misses@[j]).replay_key_spec() != Some(key.deep_view()),
        decreases n - i,
    {
        match (&misses[i]).replay_key_vec() {
            Some(v) => {
                if crate::data::row_eq(&v, key) {
                    return true;
                }
            },
            None => {},
        }
        i += 1;
    }
    false
}

/// The replay-aware outcome of feeding one batch into a node.
#[derive(Debug)]
pub enum RawProcessingResult {
    /// An ordinary result: rows plus misses.
    Regular(ProcessingResult),
    /// A chunk of a full replay; the flag marks the terminal chunk.
    FullReplay(Records, bool),
    /// A full-replay chunk was buffered rather than forwarded.
    CapturedFull,
    /// A partial-replay chunk: `keys` is the key set this piece satisfies,
    /// `captured` the requested keys that were buffered for a later piece.
    ReplayPiece { rows: Records, keys: KeySet, captured: KeySet },
}

/// The node contract: every operator variant implements this capability set,
/// and the engine drives all nodes through it uniformly.
pub trait Ingredient: Sized {
    /// Which inputs this operator can process without breaking its own
    /// structural assumptions.
    spec fn input_ok(
        &self,
        from: LocalNodeIndex,
        data: Seq<Record>,
        replay_key_cols: Option<Seq<usize>>,
        domains: DomainNodes,
        states: StateMap,
    ) -> bool;

    /// Whether this operator declares it can answer keyed lookups without a
    /// materialization of its own.
    spec fn supports_query_through(&self) -> bool;

    /// The upstream nodes this node reads from.
    spec fn spec_ancestors(&self) -> Seq<NodeIndex>;

    /// Whether this node is a base table.
    spec fn is_base(&self) -> bool;

    /// Whether this operator is a join.
    spec fn spec_is_join(&self) -> bool;

    /// Whether this operator reduces the size of its input.
    spec fn spec_is_selective(&self) -> bool;

    /// Whether this operator requires a full materialization.
    spec fn spec_requires_full_mat(&self) -> bool;

    /// Whether the one-shot commit remap has been applied.
    spec fn spec_committed(&self) -> bool;

    /// Whether this node's runtime behavior has been detached.
    spec fn spec_taken(&self) -> bool;

    /// Whether the detached operator carries this node's data.
    spec fn detaches_to(&self, op: NodeOperator) -> bool;

    /// This node after its one-shot commit against the given remap table.
    spec fn committed_state(&self, remap: RemapTable) -> Self;

    /// This node after ancestor-dependent setup against the given graph.
    spec fn connected_state(&self, graph: Graph) -> Self;

    /// The operator's human-readable label.
    spec fn label(&self) -> Seq<char>;

    /// Whether this operator answers the given context with a replay piece
    /// rather than an ordinary result.
    spec fn replies_with_piece(&self, replay: ReplayContext) -> bool;

    /// Where each output column originates, or `None` for a local one.
    spec fn resolve_spec(&self, i: usize) -> Option<Seq<(NodeIndex, usize)>>;

    /// The parent columns each output column translates to.
    spec fn parent_columns_spec(&self, column: usize) -> Seq<(NodeIndex, Option<usize>)>;

    /// The index suggestions this operator makes.
    spec fn suggest_indexes_spec(&self, you: NodeIndex) -> Seq<(NodeIndex, Seq<usize>, bool)>;

    /// What processing one batch yields: the models of the forwarded records,
    /// and the rows excluded as misses, both in input order. Processing is a
    /// function of the node, the batch and the states: deterministic.
    spec fn input_spec(
        &self,
        from: LocalNodeIndex,
        data: Seq<Record>,
        replay_key_cols: Option<Seq<usize>>,
        domains: DomainNodes,
        states: StateMap,
    ) -> (Seq<(bool, Seq<DataValue>)>, Seq<Seq<DataValue>>);

    /// What a partial-replay piece holds: the models of its forwarded rows,
    /// and the requested keys it captures for a later piece.
    spec fn raw_piece_spec(
        &self,
        from: LocalNodeIndex,
        data: Seq<Record>,
        key_cols: Seq<usize>,
        requested: Set<Seq<DataValue>>,
        domains: DomainNodes,
        states: StateMap,
    ) -> (Seq<(bool, Seq<DataValue>)>, Set<Seq<DataValue>>);

    /// What this operator needs of the graph to be queried through safely.
    spec fn qt_pre(
        &self,
        columns: Seq<usize>,
        domains: DomainNodes,
        states: StateMap,
        depth: nat,
    ) -> bool;

    /// What a query through this operator answers.
    spec fn qt_spec(
        &self,
        columns: Seq<usize>,
        key: Seq<DataValue>,
        domains: DomainNodes,
        states: StateMap,
        depth: nat,
    ) -> Option<Option<Seq<Seq<DataValue>>>>;

    /// Detaches this node's runtime behavior for deployment to its processing
    /// unit; what is left behind stays visible in the graph for structural
    /// queries and cannot be taken again.
    fn take(&mut self) -> (r: NodeOperator)
        requires
            !old(self).spec_taken(),
        ensures
            final(self).spec_taken(),
            old(self).detaches_to(r),
    ;

    /// The upstream nodes this node reads from; stable after construction.
    fn ancestors(&self) -> (r: Vec<NodeIndex>)
        ensures
            r@ == self.spec_ancestors(),
    ;

    /// Ancestors such that at least one must source the replay initializing
    /// this node's state; `None` leaves the choice unconstrained.
    fn must_replay_among(&self) -> (r: Option<Vec<NodeIndex>>)
        ensures
            r matches Some(s) ==> s@.len() > 0 && forall|i: int|
                0 <= i < s@.len() ==> self.spec_ancestors().contains(#[trigger] s@[i]),
        default_ensures
            r is None,
    {
        None
    }

    /// For each ancestor, one candidate compound key and whether this node
    /// performs point lookups on it (`false`: partial-replay bookkeeping
    /// only).
    fn suggest_indexes(&self, you: NodeIndex) -> (r: Vec<(NodeIndex, Vec<usize>, bool)>)
        ensures
            r@.len() == self.suggest_indexes_spec(you).len(),
            forall|i: int|
                0 <= i < r@.len() ==> (#[trigger] r@[i]).0 == self.suggest_indexes_spec(you)[i].0
                    && r@[i].1@ == self.suggest_indexes_spec(you)[i].1 && r@[i].2
                    == self.suggest_indexes_spec(you)[i].2,
    ;

    /// Where an output column originates, or `None` when it is computed or
    /// materialized locally and cannot be traced further.
    fn resolve(&self, i: usize) -> (r: Option<Vec<(NodeIndex, usize)>>)
        ensures
            match r {
                Some(v) => self.resolve_spec(i) == Some(v@),
                None => self.resolve_spec(i) is None,
            },
    ;

    /// Base-table facilities, exactly when this node is a base table.
    fn get_base(&self) -> (r: Option<&Base>)
        ensures
            r is Some <==> self.is_base(),
    ;

    /// Mutable base-table facilities, exactly when this node is a base
    /// table, agreeing with `get_base`.
    fn get_base_mut(&mut self) -> (r: Option<&mut Base>)
        ensures
            r is Some <==> old(self).is_base(),
    ;

    /// Planning hint: whether this operator is a join.
    fn is_join(&self) -> (r: bool)
        ensures
            r == self.spec_is_join(),
    ;

    /// A compact, human-readable operator label.
    fn description(&self) -> (r: String)
        ensures
            r@ == self.label(),
    ;

    /// Invoked once, after all ancestors exist in the graph but before this
    /// node's own children are necessarily connected: ancestor-dependent
    /// setup, such as resolving column counts.
    fn on_connected(&mut self, graph: &Graph)
        ensures
            *final(self) == old(self).connected_state(*graph),
    ;

    /// Invoked once when the processing unit is finalized: the only point at
    /// which the global-to-local translation is available, so any stored
    /// global references must be translated and cached here.
    fn on_commit(&mut self, you: NodeIndex, remap: &RemapTable)
        ensures
            final(self).spec_committed(),
            old(self).spec_committed() ==> *final(self) == *old(self),
            !old(self).spec_committed() ==> *final(self) == old(self).committed_state(*remap),
    ;

    /// The primary processing entry point: consumes one batch from one
    /// ancestor. Rows whose processing missed are excluded from the result
    /// and recorded as misses.
    fn on_input(
        &mut self,
        from: LocalNodeIndex,
        data: &Records,
        replay_key_cols: Option<&Vec<usize>>,
        domains: &DomainNodes,
        states: &StateMap,
    ) -> (r: ProcessingResult)
        requires
            old(self).input_ok(from, data@, opt_cols_view(replay_key_cols), *domains, *states),
        ensures
            r.excludes_missed(),
            r.misses_wf(data@),
            ({
                let spec = old(self).input_spec(
                    from,
                    data@,
                    opt_cols_view(replay_key_cols),
                    *domains,
                    *states,
                );
                recs_model(r.results@) == spec.0 && miss_records(r.misses@) == spec.1
            }),
            *final(self) == *old(self),
    ;

    /// The replay-aware entry point. A simple operator forwards to
    /// `on_input` under the context's key columns and answers with an
    /// ordinary result; an operator with replay behavior of its own answers
    /// a partial context with a replay piece whose keys and captured set are
    /// exactly pinned.
    fn on_input_raw(
        &mut self,
        from: LocalNodeIndex,
        data: &Records,
        replay: &ReplayContext,
        domains: &DomainNodes,
        states: &StateMap,
    ) -> (r: RawProcessingResult)
        requires
            old(self).input_ok(from, data@, ctx_key_view(*replay), *domains, *states),
            (match *replay {
                ReplayContext::Partial { keys: req, .. } => data@.len() > 0 ==> exists|x: Seq<DataValue>| req@.contains(x),
                _ => true,
            }),
        ensures
            match r {
                RawProcessingResult::Regular(pr) => pr.excludes_missed() && pr.misses_wf(data@)
                    && ({
                    let spec = old(self).input_spec(
                        from,
                        data@,
                        ctx_key_view(*replay),
                        *domains,
                        *states,
                    );
                    recs_model(pr.results@) == spec.0 && miss_records(pr.misses@) == spec.1
                }),
                RawProcessingResult::ReplayPiece { rows, keys, captured } => (*replay matches ReplayContext::Partial { key_cols: kc, keys: req }
                    && captured@.subset_of(req@) && keys@ == req@.difference(captured@) && ({
                    let ps = old(self).raw_piece_spec(from, data@, kc@, req@, *domains, *states);
                    captured@ == ps.1 && recs_model(rows@) == ps.0
                })),
                RawProcessingResult::FullReplay(_, _) => *replay is Full,
                RawProcessingResult::CapturedFull => *replay is Full,
            },
            r is ReplayPiece <==> old(self).replies_with_piece(*replay),
            *final(self) == *old(self),
    ;

    /// Notification that keys were evicted from materialized state, so the
    /// node can evict auxiliary state keyed the same way. No-op by default.
    fn on_eviction(
        &mut self,
        _from: LocalNodeIndex,
        _key_columns: &Vec<usize>,
        _keys: &mut Vec<Vec<DataType>>,
    )
        default_ensures
            final(_keys)@ == old(_keys)@,
    {
    }

    /// Whether this node can answer keyed lookups unmaterialized.
    fn can_query_through(&self) -> (r: bool)
        ensures
            r == self.supports_query_through(),
    ;

    /// Answers a keyed lookup without a materialization of this node's own,
    /// re-deriving matching rows from ancestor state; `None` when this node
    /// cannot do so.
    fn query_through(
        &self,
        columns: &Vec<usize>,
        key: &Vec<DataType>,
        domains: &DomainNodes,
        states: &StateMap,
        depth: usize,
    ) -> (r: Option<Option<Vec<Vec<DataType>>>>)
        requires
            self.qt_pre(columns@, *domains, *states, depth as nat),
        ensures
            r.deep_view() == self.qt_spec(
                columns@,
                key.deep_view(),
                *domains,
                *states,
                depth as nat,
            ),
    ;

    /// Looks up the given key in the given parent's state, falling back to
    /// `query_through` when the parent has no materialization. `None` means
    /// no usable state exists in that subtree; `Some(None)` a declared hole;
    /// `Some(Some(rows))` exactly the matching rows.
    fn lookup(
        &self,
        parent: LocalNodeIndex,
        columns: &Vec<usize>,
        key: &Vec<DataType>,
        domains: &DomainNodes,
        states: &StateMap,
        depth: usize,
    ) -> (r: Option<Option<Vec<Vec<DataType>>>>)
        requires
            lookup_pre(parent, columns@, *domains, *states, depth as nat),
        ensures
            r.deep_view() == lookup_chain_spec(
                parent,
                columns@,
                key.deep_view(),
                *domains,
                *states,
                depth as nat,
            ),
    {
        lookup_chain(parent, columns, key, domains, states, depth)
    }

    /// Translates one of this node's columns into the corresponding columns
    /// of its parents; `None` in a pair marks a computed column. Defined for
    /// every node, materialized or not.
    fn parent_columns(&self, column: usize) -> (r: Vec<(NodeIndex, Option<usize>)>)
        ensures
            r@ == self.parent_columns_spec(column),
    ;

    /// Performance hint: whether this operator reduces the size of its input.
    fn is_selective(&self) -> (r: bool)
        ensures
            r == self.spec_is_selective(),
    ;

    /// Whether this operator requires a full materialization.
    fn requires_full_materialization(&self) -> (r: bool)
        ensures
            r == self.spec_requires_full_mat(),
    ;
}

} // verus!
