//! Pulling datasets: planning in dependency order, a per-dataset refresh
//! state machine whose outside work (ingest, transform) the caller performs,
//! and setting a watermark.

use crate::chain_store::{AppendError, ChainStore, append_outcome, chain_or_empty, head_of};
use crate::dependency::{
    DatasetGraph, DependencyError, NodeModel, dependency_order, has_cycle, in_graph, inputs_of,
    is_dependency_order, kind_of, reachable,
};
use crate::hash::BlockHash;
use crate::ingest::{EngineOutput, EngineOutputModel, IngestError, IngestResult, output_view};
use crate::metadata::{BlockModel, DatasetId, DatasetKind, MetadataBlock, blocks_view, copy_ids};
use crate::summary::{chain_inputs, chain_kind};
use crate::transform::{TransformError, TransformResult, transform_output_view};
use vstd::prelude::*;

verus! {

/// The outcome of refreshing one dataset.
#[derive(Clone, Copy, Debug, PartialEq, Eq, Structural)]
pub enum PullResult {
    UpToDate,
    Updated { new_head: BlockHash },
}

/// Why a pull, or one dataset's refresh, failed.
#[derive(Clone, Debug)]
pub enum PullError {
    /// A requested dataset, or an input of one, is unknown.
    NotFound { id: DatasetId },
    /// The declared inputs form a cycle.
    CyclicDependency,
    /// The dataset's ingest failed.
    IngestError { error: IngestError },
    /// The dataset's transformation failed.
    TransformError { error: TransformError },
    /// The refresh was cancelled before it committed anything.
    Cancelled,
}

/// A pull result from an ingest result.
pub open spec fn ingest_to_pull(res: Result<IngestResult, IngestError>) -> Result<PullResult, PullError> {
    match res {
        Ok(IngestResult::UpToDate) => Ok(PullResult::UpToDate),
        Ok(IngestResult::Updated { block_hash }) => Ok(PullResult::Updated { new_head: block_hash }),
        Err(e) => Err(PullError::IngestError { error: e }),
    }
}

/// A pull result from a transformation result.
pub open spec fn transform_to_pull(res: Result<TransformResult, TransformError>) -> Result<PullResult, PullError> {
    match res {
        Ok(TransformResult::UpToDate) => Ok(PullResult::UpToDate),
        Ok(TransformResult::Updated { block_hash }) => Ok(PullResult::Updated { new_head: block_hash }),
        Err(e) => Err(PullError::TransformError { error: e }),
    }
}

/// Where one dataset of a pull stands.
#[derive(Clone, Debug)]
pub enum DatasetState {
    Pending,
    Running { expected_head: Option<BlockHash> },
    Succeeded { result: PullResult },
    Failed { error: PullError },
}

impl DatasetState {
    pub open spec fn is_terminal(self) -> bool {
        self is Succeeded || self is Failed
    }

    /// The state that a finished refresh leaves.
    pub open spec fn from_result(res: Result<PullResult, PullError>) -> DatasetState {
        match res {
            Ok(r) => DatasetState::Succeeded { result: r },
            Err(e) => DatasetState::Failed { error: e },
        }
    }
}

/// One dataset of a pull.
#[derive(Debug)]
pub struct PullJob {
    pub id: DatasetId,
    pub kind: DatasetKind,
    pub inputs: Vec<DatasetId>,
    pub state: DatasetState,
}

/// The view of a `PullJob`.
pub struct JobModel {
    pub id: DatasetId,
    pub kind: DatasetKind,
    pub inputs: Seq<DatasetId>,
    pub state: DatasetState,
}

impl View for PullJob {
    type V = JobModel;

    open spec fn view(&self) -> JobModel {
        JobModel { id: self.id, kind: self.kind, inputs: self.inputs@, state: self.state }
    }
}

/// The work that the caller performs for a dataset that starts refreshing:
/// `index` is the dataset's place in the pull, `head` its head at the start.
#[derive(Debug)]
pub enum RefreshTask {
    Ingest { index: usize, id: DatasetId, head: Option<BlockHash> },
    Transform { index: usize, id: DatasetId, head: Option<BlockHash>, inputs: Vec<DatasetId> },
}

impl RefreshTask {
    pub open spec fn index(&self) -> usize {
        match self {
            RefreshTask::Ingest { index, .. } => *index,
            RefreshTask::Transform { index, .. } => *index,
        }
    }

    pub open spec fn id(&self) -> DatasetId {
        match self {
            RefreshTask::Ingest { id, .. } => *id,
            RefreshTask::Transform { id, .. } => *id,
        }
    }

    pub open spec fn head(&self) -> Option<BlockHash> {
        match self {
            RefreshTask::Ingest { head, .. } => *head,
            RefreshTask::Transform { head, .. } => *head,
        }
    }
}

/// `t` starts the first eligible job of `before`, which becomes running in
/// `after` with the store's current head; an ingest for a root dataset, a
/// transformation with the dataset's inputs for a derivative one.
pub open spec fn task_started(
    before: Seq<JobModel>,
    after: Seq<JobModel>,
    m: Map<DatasetId, Seq<BlockModel>>,
    t: RefreshTask,
) -> bool {
    let i = t.index() as int;
    &&& 0 <= i < before.len()
    &&& eligible(before, i)
    &&& forall|k: int| 0 <= k < i ==> !eligible(before, k)
    &&& t.id() == before[i].id
    &&& t.head() == head_of(m, t.id())
    &&& (t is Ingest <==> before[i].kind == DatasetKind::Root)
    &&& (t matches RefreshTask::Transform { inputs, .. } ==> inputs@ == before[i].inputs)
    &&& after == before.update(i, JobModel { state: DatasetState::Running { expected_head: t.head() }, ..before[i] })
}

/// The planned datasets of a pull and where each stands.
pub struct PullServiceImpl {
    jobs: Vec<PullJob>,
}

pub open spec fn jobs_view(v: Seq<PullJob>) -> Seq<JobModel> {
    v.map_values(|j: PullJob| j@)
}

/// Every input of job `i` that is part of the pull has finished.
pub open spec fn inputs_settled(jobs: Seq<JobModel>, i: int) -> bool {
    forall|k: int|
        0 <= k < jobs.len() && #[trigger] jobs[i].inputs.contains(jobs[k].id) ==> jobs[k].state.is_terminal()
}

/// Job `i` may start: it is pending and its inputs have finished.
pub open spec fn eligible(jobs: Seq<JobModel>, i: int) -> bool {
    jobs[i].state is Pending && inputs_settled(jobs, i)
}

/// A graph model that agrees with the store model on which datasets exist
/// and on their kinds and inputs.
pub open spec fn graph_of_store(g: Seq<NodeModel>, m: Map<DatasetId, Seq<BlockModel>>) -> bool {
    &&& forall|id: DatasetId| #[trigger] in_graph(g, id) <==> m.contains_key(id)
    &&& forall|id: DatasetId|
        #[trigger] m.contains_key(id) ==> inputs_of(g, id) == chain_inputs(m[id]) && kind_of(g, id) == chain_kind(
            m[id],
        )
}

/// `id` is needed by the request (one of the requested datasets, of every
/// stored one with `all`, or an input of such a dataset through inputs) and
/// is not stored.
pub open spec fn needed_in_request(
    m: Map<DatasetId, Seq<BlockModel>>,
    ids: Seq<DatasetId>,
    all: bool,
    id: DatasetId,
) -> bool {
    exists|g: Seq<NodeModel>, start: Seq<DatasetId>|
        #[trigger] graph_of_store(g, m) && (all ==> forall|x: DatasetId| start.contains(x) <==> m.contains_key(x))
            && (!all ==> start == ids) && #[trigger] reachable(g, start, id) && !in_graph(g, id)
}

impl PullServiceImpl {
    /// The jobs of the pull, in the order they were planned.
    pub closed spec fn jobs(&self) -> Seq<JobModel> {
        jobs_view(self.jobs@)
    }

    /// A pull with nothing planned.
    pub fn new() -> (r: PullServiceImpl)
        ensures
            r.jobs() == Seq::<JobModel>::empty(),
    {
        PullServiceImpl { jobs: Vec::new() }
    }

    /// Converts an ingest result into a pull result.
    pub fn convert_ingest_result(res: Result<IngestResult, IngestError>) -> (r: Result<PullResult, PullError>)
        ensures
            r == ingest_to_pull(res),
    {
        match res {
            Ok(res) => Ok(
                match res {
                    IngestResult::UpToDate => PullResult::UpToDate,
                    IngestResult::Updated { block_hash } => PullResult::Updated { new_head: block_hash },
                },
            ),
            Err(err) => Err(PullError::IngestError { error: err }),
        }
    }

    /// Converts a transformation result into a pull result.
    pub fn convert_transform_result(res: Result<TransformResult, TransformError>) -> (r: Result<
        PullResult,
        PullError,
    >)
        ensures
            r == transform_to_pull(res),
    {
        match res {
            Ok(res) => Ok(
                match res {
                    TransformResult::UpToDate => PullResult::UpToDate,
                    TransformResult::Updated { block_hash } => PullResult::Updated { new_head: block_hash },
                },
            ),
            Err(err) => Err(PullError::TransformError { error: err }),
        }
    }

    /// Plans a pull of `ids` (of every stored dataset with `all`): with
    /// `recursive` or `all`, every dataset they need, else those alone; in
    /// dependency order, all pending.
    pub fn plan(store: &ChainStore, ids: &Vec<DatasetId>, recursive: bool, all: bool) -> (r: Result<
        PullServiceImpl,
        PullError,
    >)
        requires
            store.wf(),
        ensures
            r matches Ok(p) ==> exists|g: Seq<NodeModel>, start: Seq<DatasetId>, full: Seq<DatasetId>|
                #[trigger] graph_of_store(g, store@) && (all ==> forall|x: DatasetId|
                    start.contains(x) <==> store@.contains_key(x)) && (!all ==> start == ids@)
                    && #[trigger] is_dependency_order(g, start, full) && p.jobs().len() == (if recursive
                    || all { full } else { full.filter(|x: DatasetId| start.contains(x)) }).len()
                    && forall|i: int|
                    0 <= i < p.jobs().len() ==> (#[trigger] p.jobs()[i]).id == (if recursive || all {
                        full
                    } else {
                        full.filter(|x: DatasetId| start.contains(x))
                    })[i] && p.jobs()[i].state is Pending && store@.contains_key(p.jobs()[i].id)
                        && p.jobs()[i].kind == chain_kind(store@[p.jobs()[i].id]) && p.jobs()[i].inputs
                        == chain_inputs(store@[p.jobs()[i].id]),
            r matches Err(e) ==> (e is NotFound || e is CyclicDependency),
            r matches Err(PullError::NotFound { id }) ==> !store@.contains_key(id) && needed_in_request(
                store@,
                ids@,
                all,
                id,
            ),
            r matches Err(PullError::CyclicDependency) ==> exists|g: Seq<NodeModel>, start: Seq<DatasetId>|
                #[trigger] graph_of_store(g, store@) && (all ==> forall|x: DatasetId|
                    start.contains(x) <==> store@.contains_key(x)) && (!all ==> start == ids@)
                    && #[trigger] has_cycle(g, start),
            !all && (exists|i: int| 0 <= i < ids@.len() && !store@.contains_key(#[trigger] ids@[i])) ==> r
                matches Err(PullError::NotFound { .. }),
    {
        let g = store.dependency_graph();
        let start = if all {
            store.dataset_ids()
        } else {
            copy_ids(ids)
        };
        let res = dependency_order(&g, &start, recursive || all);
        proof {
            if !all && (exists|i: int| 0 <= i < ids@.len() && !store@.contains_key(#[trigger] ids@[i])) {
                let i = choose|i: int| 0 <= i < ids@.len() && !store@.contains_key(#[trigger] ids@[i]);
                let p = seq![ids@[i]];
                assert(crate::dependency::is_input_path(g.model(), p));
                assert(start@[i] == p[0]);
                assert(start@.contains(p[0]));
                assert(p.last() == ids@[i]);
                assert(crate::dependency::reachable(g.model(), start@, ids@[i]));
                assert(!in_graph(g.model(), ids@[i]));
            }
        }
        let order = match res {
            Ok(o) => o,
            Err(DependencyError::DatasetNotFound { id }) => {
                proof {
                    assert(graph_of_store(g.model(), store@));
                    if all {
                        assert forall|x: DatasetId| start@.contains(x) <==> store@.contains_key(x) by {}
                    }
                }
                assert(reachable(g.model(), start@, id) && !in_graph(g.model(), id));
                assert(!all ==> start@ == ids@);
                assert(in_graph(g.model(), id) <==> store@.contains_key(id));
                assert(all ==> forall|x: DatasetId| start@.contains(x) <==> store@.contains_key(x));
                assert(needed_in_request(store@, ids@, all, id));
                return Err(PullError::NotFound { id });
            },
            Err(DependencyError::CyclicDependency) => {
                proof {
                    assert(graph_of_store(g.model(), store@));
                    if all {
                        assert forall|x: DatasetId| start@.contains(x) <==> store@.contains_key(x) by {}
                    }
                }
                return Err(PullError::CyclicDependency);
            },
        };
        let ghost full = choose|full: Seq<DatasetId>|
            #[trigger] is_dependency_order(g.model(), start@, full) && (recursive || all ==> order@ == full)
                && (!(recursive || all) ==> order@ == full.filter(|x: DatasetId| start@.contains(x)));
        proof {
            assert forall|x: DatasetId| #[trigger] order@.contains(x) implies store@.contains_key(x) by {
                if recursive || all {
                    assert(full.contains(x));
                } else {
                    let pred = |x: DatasetId| start@.contains(x);
                    assert(full.filter(pred).contains(x));
                    full.lemma_filter_contains_rev(pred, x);
                }
                assert(in_graph(g.model(), x));
            }
        }
        let mut jobs: Vec<PullJob> = Vec::new();
        let mut i: usize = 0;
        while i < order.len()
            invariant
                g.wf(),
                store.wf(),
                i <= order@.len(),
                jobs@.len() == i,
                forall|x: DatasetId| #[trigger] order@.contains(x) ==> store@.contains_key(x),
                forall|id: DatasetId| #[trigger] in_graph(g.model(), id) <==> store@.contains_key(id),
                forall|id: DatasetId|
                    #[trigger] store@.contains_key(id) ==> inputs_of(g.model(), id) == chain_inputs(store@[id])
                        && kind_of(g.model(), id) == chain_kind(store@[id]),
                forall|k: int|
                    0 <= k < i ==> (#[trigger] jobs@[k]).id == order@[k] && jobs@[k].state is Pending
                        && jobs@[k].kind == chain_kind(store@[order@[k]]) && jobs@[k].inputs@ == chain_inputs(
                        store@[order@[k]],
                    ),
            decreases order@.len() - i,
        {
            let id = order[i];
            assert(order@.contains(id));
            let n = match g.find(id) {
                Some(n) => n,
                None => {
                    assert(false);
                    return Err(PullError::NotFound { id });
                },
            };
            let node = &g.nodes[n];
            jobs.push(
                PullJob { id, kind: node.kind, inputs: copy_ids(&node.inputs), state: DatasetState::Pending },
            );
            i = i + 1;
        }
        let p = PullServiceImpl { jobs };
        proof {
            let gm = g.model();
            assert(graph_of_store(gm, store@));
            let seqv = if recursive || all {
                full
            } else {
                full.filter(|x: DatasetId| start@.contains(x))
            };
            assert(seqv == order@);
            assert(p.jobs().len() == seqv.len());
            assert forall|i: int| 0 <= i < p.jobs().len() implies (#[trigger] p.jobs()[i]).id == seqv[i]
                && p.jobs()[i].state is Pending && store@.contains_key(p.jobs()[i].id) && p.jobs()[i].kind
                == chain_kind(store@[p.jobs()[i].id]) && p.jobs()[i].inputs == chain_inputs(
                store@[p.jobs()[i].id],
            ) by {
                assert(p.jobs()[i] == jobs@[i]@);
                assert(order@.contains(order@[i]));
            }
            if all {
                assert forall|x: DatasetId| start@.contains(x) <==> store@.contains_key(x) by {}
            }
            assert(is_dependency_order(gm, start@, full));
        }
        Ok(p)
    }

    /// The datasets of the pull, in planned order.
    pub fn job_ids(&self) -> (r: Vec<DatasetId>)
        ensures
            r@.len() == self.jobs().len(),
            forall|i: int| 0 <= i < r@.len() ==> r@[i] == (#[trigger] self.jobs()[i]).id,
    {
        let mut r: Vec<DatasetId> = Vec::new();
        let mut i: usize = 0;
        while i < self.jobs.len()
            invariant
                i <= self.jobs@.len(),
                r@.len() == i,
                forall|k: int| 0 <= k < i ==> r@[k] == (#[trigger] self.jobs()[k]).id,
            decreases self.jobs@.len() - i,
        {
            assert(self.jobs()[i as int] == self.jobs@[i as int]@);
            r.push(self.jobs[i].id);
            i = i + 1;
        }
        r
    }

    fn settled(&self, i: usize) -> (r: bool)
        requires
            i < self.jobs@.len(),
        ensures
            r == inputs_settled(self.jobs(), i as int),
    {
        let ghost js = self.jobs();
        let mut k: usize = 0;
        while k < self.jobs.len()
            invariant
                i < self.jobs@.len(),
                k <= self.jobs@.len(),
                js == self.jobs(),
                forall|q: int|
                    0 <= q < k && #[trigger] js[i as int].inputs.contains(js[q].id) ==> js[q].state.is_terminal(),
            decreases self.jobs@.len() - k,
        {
            assert(js[k as int] == self.jobs@[k as int]@);
            assert(js[i as int] == self.jobs@[i as int]@);
            let terminal = match self.jobs[k].state {
                DatasetState::Succeeded { .. } => true,
                DatasetState::Failed { .. } => true,
                _ => false,
            };
            if !terminal && crate::dependency::contains_id(&self.jobs[i].inputs, self.jobs[k].id) {
                assert(js[i as int].inputs.contains(js[k as int].id));
                assert(!js[k as int].state.is_terminal());
                return false;
            }
            k = k + 1;
        }
        true
    }

    /// Starts the first dataset that may start: one that is pending and
    /// whose inputs in the pull have all finished, successfully or not. It
    /// becomes running, remembering the store's current head. `None` when
    /// no dataset may start; nothing changes then.
    pub fn next_task(&mut self, store: &ChainStore) -> (r: Option<RefreshTask>)
        requires
            store.wf(),
        ensures
            r is None ==> final(self).jobs() == old(self).jobs() && forall|i: int|
                0 <= i < old(self).jobs().len() ==> !eligible(old(self).jobs(), i),
            r matches Some(t) ==> task_started(old(self).jobs(), final(self).jobs(), store@, t),
    {
        let ghost js = self.jobs();
        let mut i: usize = 0;
        while i < self.jobs.len()
            invariant
                store.wf(),
                i <= self.jobs@.len(),
                js == self.jobs(),
                js == old(self).jobs(),
                forall|k: int| 0 <= k < i ==> !eligible(js, k),
            decreases self.jobs@.len() - i,
        {
            assert(js[i as int] == self.jobs@[i as int]@);
            let pending = match self.jobs[i].state {
                DatasetState::Pending => true,
                _ => false,
            };
            if pending && self.settled(i) {
                let id = self.jobs[i].id;
                let head = store.read_ref(id);
                let mut job = self.jobs.remove(i);
                let ghost before = job@;
                job.state = DatasetState::Running { expected_head: head };
                let task = match job.kind {
                    DatasetKind::Root => RefreshTask::Ingest { index: i, id, head },
                    DatasetKind::Derivative => RefreshTask::Transform {
                        index: i,
                        id,
                        head,
                        inputs: copy_ids(&job.inputs),
                    },
                };
                self.jobs.insert(i, job);
                proof {
                    assert(before == js[i as int]);
                    assert(js[i as int].state is Pending);
                    assert(eligible(js, i as int));
                    assert(self.jobs() =~= js.update(
                        i as int,
                        JobModel { state: DatasetState::Running { expected_head: head }, ..before },
                    ));
                }
                return Some(task);
            }
            i = i + 1;
        }
        None
    }

    /// Records how a running dataset's refresh ended. Returns whether the
    /// dataset at `index` was running; nothing changes when it was not.
    pub fn complete(&mut self, index: usize, result: Result<PullResult, PullError>) -> (r: bool)
        ensures
            r == (index < old(self).jobs().len() && old(self).jobs()[index as int].state is Running),
            r ==> final(self).jobs() == old(self).jobs().update(
                index as int,
                JobModel { state: DatasetState::from_result(result), ..old(self).jobs()[index as int] },
            ),
            !r ==> final(self).jobs() == old(self).jobs(),
    {
        if index >= self.jobs.len() {
            return false;
        }
        let ghost js = self.jobs();
        assert(js[index as int] == self.jobs@[index as int]@);
        let running = match self.jobs[index].state {
            DatasetState::Running { .. } => true,
            _ => false,
        };
        if !running {
            return false;
        }
        let mut job = self.jobs.remove(index);
        let ghost before = job@;
        job.state = match result {
            Ok(r) => DatasetState::Succeeded { result: r },
            Err(e) => DatasetState::Failed { error: e },
        };
        self.jobs.insert(index, job);
        proof {
            assert(self.jobs() =~= js.update(
                index as int,
                JobModel { state: DatasetState::from_result(result), ..before },
            ));
        }
        true
    }

    /// Cancels a dataset that has not finished: it fails as cancelled, and
    /// a refresh in flight for it commits nothing afterwards, since only a
    /// running dataset can complete. Returns whether it was unfinished.
    pub fn cancel(&mut self, index: usize) -> (r: bool)
        ensures
            r == (index < old(self).jobs().len() && !old(self).jobs()[index as int].state.is_terminal()),
            r ==> final(self).jobs() == old(self).jobs().update(
                index as int,
                JobModel { state: DatasetState::Failed { error: PullError::Cancelled }, ..old(self).jobs()[index as int] },
            ),
            !r ==> final(self).jobs() == old(self).jobs(),
    {
        if index >= self.jobs.len() {
            return false;
        }
        let ghost js = self.jobs();
        assert(js[index as int] == self.jobs@[index as int]@);
        let finished = match self.jobs[index].state {
            DatasetState::Succeeded { .. } => true,
            DatasetState::Failed { .. } => true,
            _ => false,
        };
        if finished {
            return false;
        }
        let mut job = self.jobs.remove(index);
        let ghost before = job@;
        job.state = DatasetState::Failed { error: PullError::Cancelled };
        self.jobs.insert(index, job);
        proof {
            assert(self.jobs() =~= js.update(
                index as int,
                JobModel { state: DatasetState::Failed { error: PullError::Cancelled }, ..before },
            ));
        }
        true
    }

    /// Whether every dataset of the pull has finished.
    pub fn is_finished(&self) -> (r: bool)
        ensures
            r == forall|i: int| 0 <= i < self.jobs().len() ==> (#[trigger] self.jobs()[i]).state.is_terminal(),
    {
        let ghost js = self.jobs();
        let mut i: usize = 0;
        while i < self.jobs.len()
            invariant
                i <= self.jobs@.len(),
                js == self.jobs(),
                forall|k: int| 0 <= k < i ==> (#[trigger] js[k]).state.is_terminal(),
            decreases self.jobs@.len() - i,
        {
            assert(js[i as int] == self.jobs@[i as int]@);
            match self.jobs[i].state {
                DatasetState::Succeeded { .. } => {},
                DatasetState::Failed { .. } => {},
                _ => {
                    return false;
                },
            }
            i = i + 1;
        }
        true
    }

    /// The result of every dataset, in planned order, once all have
    /// finished; `None` before that.
    pub fn results(&self) -> (r: Option<Vec<(DatasetId, Result<PullResult, PullError>)>>)
        ensures
            r is Some <==> forall|i: int| 0 <= i < self.jobs().len() ==> (#[trigger] self.jobs()[i]).state.is_terminal(),
            r matches Some(v) ==> v@.len() == self.jobs().len() && forall|i: int|
                0 <= i < v@.len() ==> (#[trigger] v@[i]).0 == self.jobs()[i].id && DatasetState::from_result(v@[i].1)
                    == self.jobs()[i].state,
    {
        if !self.is_finished() {
            return None;
        }
        let ghost js = self.jobs();
        let mut v: Vec<(DatasetId, Result<PullResult, PullError>)> = Vec::new();
        let mut i: usize = 0;
        while i < self.jobs.len()
            invariant
                i <= self.jobs@.len(),
                js == self.jobs(),
                forall|k: int| 0 <= k < js.len() ==> (#[trigger] js[k]).state.is_terminal(),
                v@.len() == i,
                forall|k: int|
                    0 <= k < i ==> (#[trigger] v@[k]).0 == js[k].id && DatasetState::from_result(v@[k].1) == js[k].state,
            decreases self.jobs@.len() - i,
        {
            assert(js[i as int] == self.jobs@[i as int]@);
            assert(js[i as int].state.is_terminal());
            let res = match &self.jobs[i].state {
                DatasetState::Succeeded { result } => Ok(*result),
                DatasetState::Failed { error } => Err(error.copy()),
                _ => Err(PullError::CyclicDependency),
            };
            v.push((self.jobs[i].id, res));
            i = i + 1;
        }
        Some(v)
    }
}

impl PullError {
    /// A copy of the error.
    pub fn copy(&self) -> (r: PullError)
        ensures
            r == *self,
    {
        match self {
            PullError::NotFound { id } => PullError::NotFound { id: *id },
            PullError::CyclicDependency => PullError::CyclicDependency,
            PullError::IngestError { error } => PullError::IngestError { error: error.copy() },
            PullError::TransformError { error } => PullError::TransformError { error: *error },
            PullError::Cancelled => PullError::Cancelled,
        }
    }
}

} // verus!
