//! The dependency graph of datasets and its topological order.

use crate::metadata::{DatasetId, DatasetKind, copy_ids};
use vstd::prelude::*;
use vstd::set_lib::lemma_len_subset;

verus! {

/// A dataset with the datasets its transformation reads.
#[derive(Debug)]
pub struct DatasetNode {
    pub id: DatasetId,
    pub kind: DatasetKind,
    pub inputs: Vec<DatasetId>,
}

/// The view of a `DatasetNode`.
pub struct NodeModel {
    pub id: DatasetId,
    pub kind: DatasetKind,
    pub inputs: Seq<DatasetId>,
}

impl View for DatasetNode {
    type V = NodeModel;

    open spec fn view(&self) -> NodeModel {
        NodeModel { id: self.id, kind: self.kind, inputs: self.inputs@ }
    }
}

/// Every known dataset, with its inputs.
#[derive(Debug)]
pub struct DatasetGraph {
    pub nodes: Vec<DatasetNode>,
}

/// Why no order could be given.
#[derive(Clone, Copy, Debug, PartialEq, Eq, Structural)]
pub enum DependencyError {
    /// A requested dataset, or an input of a required one, is unknown.
    DatasetNotFound { id: DatasetId },
    /// The declared inputs form a cycle.
    CyclicDependency,
}

pub open spec fn nodes_view(v: Seq<DatasetNode>) -> Seq<NodeModel> {
    v.map_values(|n: DatasetNode| n@)
}

/// The dataset is in the graph.
pub open spec fn in_graph(g: Seq<NodeModel>, id: DatasetId) -> bool {
    exists|i: int| 0 <= i < g.len() && (#[trigger] g[i]).id == id
}

/// The inputs of a dataset; none for a dataset outside the graph.
pub open spec fn inputs_of(g: Seq<NodeModel>, id: DatasetId) -> Seq<DatasetId> {
    if in_graph(g, id) {
        g[choose|i: int| 0 <= i < g.len() && (#[trigger] g[i]).id == id].inputs
    } else {
        Seq::empty()
    }
}

/// The kind of a dataset; `Root` for a dataset outside the graph.
pub open spec fn kind_of(g: Seq<NodeModel>, id: DatasetId) -> DatasetKind {
    if in_graph(g, id) {
        g[choose|i: int| 0 <= i < g.len() && (#[trigger] g[i]).id == id].kind
    } else {
        DatasetKind::Root
    }
}

/// Each step of `p` goes from a dataset to one of its inputs.
pub open spec fn is_input_path(g: Seq<NodeModel>, p: Seq<DatasetId>) -> bool {
    &&& p.len() > 0
    &&& forall|i: int| 0 <= i < p.len() - 1 ==> inputs_of(g, #[trigger] p[i]).contains(p[i + 1])
}

/// `x` is one of `start` or is needed, through inputs, to bring one of them
/// up to date.
pub open spec fn reachable(g: Seq<NodeModel>, start: Seq<DatasetId>, x: DatasetId) -> bool {
    exists|p: Seq<DatasetId>| #[trigger] is_input_path(g, p) && start.contains(p[0]) && p.last() == x
}

/// `order` lists, once each, exactly the datasets reachable from `start`,
/// all known, each after all of its inputs.
pub open spec fn is_dependency_order(g: Seq<NodeModel>, start: Seq<DatasetId>, order: Seq<DatasetId>) -> bool {
    &&& order.no_duplicates()
    &&& forall|x: DatasetId| #[trigger] order.contains(x) <==> reachable(g, start, x)
    &&& forall|x: DatasetId| #[trigger] order.contains(x) ==> in_graph(g, x)
    &&& forall|i: int, y: DatasetId|
        0 <= i < order.len() && #[trigger] inputs_of(g, order[i]).contains(y) ==> exists|j: int|
            0 <= j < i && #[trigger] order[j] == y
}

/// A nonempty set of required datasets, each of which has an input in the
/// set: the declared inputs loop.
pub open spec fn has_cycle(g: Seq<NodeModel>, start: Seq<DatasetId>) -> bool {
    exists|s: Set<DatasetId>|
        #![trigger s.len()]
        s.finite() && s.len() > 0 && forall|x: DatasetId|
            #[trigger] s.contains(x) ==> reachable(g, start, x) && exists|y: DatasetId|
                #[trigger] inputs_of(g, x).contains(y) && s.contains(y)
}

impl DatasetGraph {
    /// Dataset identifiers are unique.
    pub open spec fn wf(&self) -> bool {
        forall|i: int, j: int|
            0 <= i < j < self.nodes@.len() ==> (#[trigger] self.nodes@[i]).id != (#[trigger] self.nodes@[j]).id
    }

    pub open spec fn model(&self) -> Seq<NodeModel> {
        nodes_view(self.nodes@)
    }

    /// The position of a dataset's node.
    pub fn find(&self, id: DatasetId) -> (r: Option<usize>)
        requires
            self.wf(),
        ensures
            r is Some <==> in_graph(self.model(), id),
            r matches Some(i) ==> i < self.nodes@.len() && self.nodes@[i as int].id == id
                && inputs_of(self.model(), id) == self.nodes@[i as int].inputs@ && kind_of(
                self.model(),
                id,
            ) == self.nodes@[i as int].kind,
    {
        let ghost g = self.model();
        let mut i: usize = 0;
        while i < self.nodes.len()
            invariant
                self.wf(),
                i <= self.nodes@.len(),
                g == self.model(),
                forall|k: int| 0 <= k < i ==> (#[trigger] self.nodes@[k]).id != id,
            decreases self.nodes@.len() - i,
        {
            if self.nodes[i].id == id {
                proof {
                    assert(g[i as int].id == id);
                    let c = choose|c: int| 0 <= c < g.len() && (#[trigger] g[c]).id == id;
                    assert(g[c] == self.nodes@[c]@);
                    if c != i as int {
                        if c < i {
                            assert(self.nodes@[c].id != self.nodes@[i as int].id);
                        } else {
                            assert(self.nodes@[i as int].id != self.nodes@[c].id);
                        }
                    }
                }
                return Some(i);
            }
            i = i + 1;
        }
        proof {
            if in_graph(g, id) {
                let c = choose|c: int| 0 <= c < g.len() && (#[trigger] g[c]).id == id;
                assert(self.nodes@[c].id == id);
            }
        }
        None
    }
}

pub fn contains_id(v: &Vec<DatasetId>, x: DatasetId) -> (r: bool)
    ensures
        r == v@.contains(x),
{
    let mut i: usize = 0;
    while i < v.len()
        invariant
            i <= v@.len(),
            forall|k: int| 0 <= k < i ==> v@[k] != x,
        decreases v@.len() - i,
    {
        if v[i] == x {
            return true;
        }
        i = i + 1;
    }
    false
}

/// A no-duplicate sequence whose elements all lie in `within` is no longer
/// than `within`'s distinct elements.
proof fn lemma_len_bound(s: Seq<DatasetId>, within: Seq<DatasetId>)
    requires
        s.no_duplicates(),
        within.no_duplicates(),
        forall|x: DatasetId| #[trigger] s.contains(x) ==> within.contains(x),
    ensures
        s.len() <= within.len(),
{
    s.unique_seq_to_set();
    within.unique_seq_to_set();
    assert(s.to_set().subset_of(within.to_set()));
    lemma_len_subset(s.to_set(), within.to_set());
}

/// The identifiers of the graph's nodes.
fn node_ids(g: &DatasetGraph) -> (r: Vec<DatasetId>)
    requires
        g.wf(),
    ensures
        r@.no_duplicates(),
        forall|x: DatasetId| #[trigger] r@.contains(x) <==> in_graph(g.model(), x),
{
    let ghost m = g.model();
    let mut r: Vec<DatasetId> = Vec::new();
    let mut i: usize = 0;
    while i < g.nodes.len()
        invariant
            i <= g.nodes@.len(),
            m == g.model(),
            r@.len() == i,
            forall|k: int| 0 <= k < i ==> r@[k] == (#[trigger] g.nodes@[k]).id,
        decreases g.nodes@.len() - i,
    {
        r.push(g.nodes[i].id);
        i = i + 1;
    }
    assert forall|a: int, b: int| 0 <= a < r@.len() && 0 <= b < r@.len() && a != b implies r@[a]
        != r@[b] by {
        if a < b {
            assert(g.nodes@[a].id != g.nodes@[b].id);
        } else {
            assert(g.nodes@[b].id != g.nodes@[a].id);
        }
    }
    assert forall|x: DatasetId| #[trigger] r@.contains(x) <==> in_graph(m, x) by {
        if r@.contains(x) {
            let k = choose|k: int| 0 <= k < r@.len() && r@[k] == x;
            assert(m[k].id == x);
        }
        if in_graph(m, x) {
            let k = choose|k: int| 0 <= k < m.len() && (#[trigger] m[k]).id == x;
            assert(r@[k] == x);
        }
    }
    r
}

/// A dataset of `start` is reachable.
proof fn lemma_start_reachable(g: Seq<NodeModel>, start: Seq<DatasetId>, x: DatasetId)
    requires
        start.contains(x),
    ensures
        reachable(g, start, x),
{
    let p = seq![x];
    assert(is_input_path(g, p));
    assert(p[0] == x && p.last() == x);
}

/// An input of a reachable dataset is reachable.
proof fn lemma_input_reachable(g: Seq<NodeModel>, start: Seq<DatasetId>, x: DatasetId, y: DatasetId)
    requires
        reachable(g, start, x),
        inputs_of(g, x).contains(y),
    ensures
        reachable(g, start, y),
{
    let p = choose|p: Seq<DatasetId>| #[trigger] is_input_path(g, p) && start.contains(p[0]) && p.last() == x;
    let q = p.push(y);
    assert forall|i: int| 0 <= i < q.len() - 1 implies inputs_of(g, #[trigger] q[i]).contains(q[i + 1]) by {
        if i < p.len() - 1 {
            assert(q[i] == p[i] && q[i + 1] == p[i + 1]);
        } else {
            assert(q[i] == x && q[i + 1] == y);
        }
    }
    assert(is_input_path(g, q));
    assert(q[0] == p[0]);
}

/// A set that holds the start of an input path and every input of its
/// members holds the end of the path.
proof fn lemma_closed_holds_path(g: Seq<NodeModel>, c: Seq<DatasetId>, p: Seq<DatasetId>)
    requires
        is_input_path(g, p),
        c.contains(p[0]),
        forall|x: DatasetId, y: DatasetId|
            c.contains(x) && #[trigger] inputs_of(g, x).contains(y) ==> c.contains(y),
    ensures
        c.contains(p.last()),
    decreases p.len(),
{
    if p.len() > 1 {
        let q = p.drop_last();
        assert forall|i: int| 0 <= i < q.len() - 1 implies inputs_of(g, #[trigger] q[i]).contains(q[i + 1]) by {
            assert(q[i] == p[i] && q[i + 1] == p[i + 1]);
        }
        lemma_closed_holds_path(g, c, q);
        assert(q.last() == p[p.len() - 2]);
        assert(inputs_of(g, p[p.len() - 2]).contains(p[p.len() - 2 + 1]));
    }
}

/// Whether every one of `ins` is in `v`.
fn all_in(ins: &Vec<DatasetId>, v: &Vec<DatasetId>) -> (r: bool)
    ensures
        r == forall|y: DatasetId| #[trigger] ins@.contains(y) ==> v@.contains(y),
{
    let mut j: usize = 0;
    while j < ins.len()
        invariant
            j <= ins@.len(),
            forall|k: int| 0 <= k < j ==> v@.contains(#[trigger] ins@[k]),
        decreases ins@.len() - j,
    {
        if !contains_id(v, ins[j]) {
            assert(ins@.contains(ins@[j as int]));
            return false;
        }
        j = j + 1;
    }
    assert forall|y: DatasetId| #[trigger] ins@.contains(y) implies v@.contains(y) by {
        let k = choose|k: int| 0 <= k < ins@.len() && ins@[k] == y;
    }
    true
}

/// The datasets reachable from `start`, each once.
fn closure(g: &DatasetGraph, start: &Vec<DatasetId>) -> (r: Result<Vec<DatasetId>, DependencyError>)
    requires
        g.wf(),
    ensures
        r matches Ok(c) ==> c@.no_duplicates() && (forall|x: DatasetId|
            #[trigger] c@.contains(x) <==> reachable(g.model(), start@, x)) && (forall|x: DatasetId|
            #[trigger] c@.contains(x) ==> in_graph(g.model(), x)),
        r matches Err(e) ==> (e matches DependencyError::DatasetNotFound { id } && reachable(
            g.model(),
            start@,
            id,
        ) && !in_graph(g.model(), id)),
{
    let ghost m = g.model();
    let ids = node_ids(g);
    let mut c: Vec<DatasetId> = Vec::new();
    let mut i: usize = 0;
    while i < start.len()
        invariant
            m == g.model(),
            i <= start@.len(),
            c@.no_duplicates(),
            forall|x: DatasetId| #[trigger] c@.contains(x) ==> ids@.contains(x) && reachable(m, start@, x),
            forall|k: int| 0 <= k < i ==> c@.contains(#[trigger] start@[k]),
            forall|x: DatasetId| #[trigger] ids@.contains(x) <==> in_graph(m, x),
        decreases start@.len() - i,
    {
        let x = start[i];
        proof {
            lemma_start_reachable(m, start@, x);
        }
        if !contains_id(&ids, x) {
            return Err(DependencyError::DatasetNotFound { id: x });
        }
        if !contains_id(&c, x) {
            let ghost before = c@;
            c.push(x);
            assert(c@[before.len() as int] == x);
            assert forall|y: DatasetId| #[trigger] c@.contains(y) implies ids@.contains(y) && reachable(m, start@, y) by {
                if y != x {
                    let k = choose|k: int| 0 <= k < c@.len() && c@[k] == y;
                    assert(before[k] == y);
                    assert(before.contains(y));
                }
            }
            assert forall|k: int| 0 <= k < i implies c@.contains(#[trigger] start@[k]) by {
                assert(before.contains(start@[k]));
                let q = choose|q: int| 0 <= q < before.len() && before[q] == start@[k];
                assert(c@[q] == start@[k]);
            }
        }
        assert(c@.contains(x));
        i = i + 1;
    }
    assert forall|x: DatasetId| #[trigger] start@.contains(x) implies c@.contains(x) by {
        let k = choose|k: int| 0 <= k < start@.len() && start@[k] == x;
    }
    let mut i: usize = 0;
    while i < c.len()
        invariant
            m == g.model(),
            g.wf(),
            i <= c@.len(),
            c@.no_duplicates(),
            ids@.no_duplicates(),
            forall|x: DatasetId| #[trigger] c@.contains(x) ==> ids@.contains(x) && reachable(m, start@, x),
            forall|x: DatasetId| #[trigger] start@.contains(x) ==> c@.contains(x),
            forall|x: DatasetId| #[trigger] ids@.contains(x) <==> in_graph(m, x),
            forall|k: int, y: DatasetId|
                0 <= k < i && #[trigger] inputs_of(m, c@[k]).contains(y) ==> c@.contains(y),
        decreases ids@.len() - i,
    {
        proof {
            lemma_len_bound(c@, ids@);
        }
        let x = c[i];
        assert(c@.contains(x));
        let k = match g.find(x) {
            Some(k) => k,
            None => {
                assert(false);
                return Err(DependencyError::CyclicDependency);
            },
        };
        let ins = &g.nodes[k].inputs;
        assert(inputs_of(m, x) == ins@);
        let mut j: usize = 0;
        while j < ins.len()
            invariant
                m == g.model(),
                g.wf(),
                i < c@.len(),
                c@[i as int] == x,
                inputs_of(m, x) == ins@,
                reachable(m, start@, x),
                j <= ins@.len(),
                c@.no_duplicates(),
                forall|x: DatasetId| #[trigger] c@.contains(x) ==> ids@.contains(x) && reachable(m, start@, x),
                forall|x: DatasetId| #[trigger] start@.contains(x) ==> c@.contains(x),
                forall|x: DatasetId| #[trigger] ids@.contains(x) <==> in_graph(m, x),
                forall|k: int, y: DatasetId|
                    0 <= k < i && #[trigger] inputs_of(m, c@[k]).contains(y) ==> c@.contains(y),
                forall|k: int| 0 <= k < j ==> c@.contains(#[trigger] ins@[k]),
            decreases ins@.len() - j,
        {
            let y = ins[j];
            proof {
                assert(ins@.contains(y));
                lemma_input_reachable(m, start@, x, y);
            }
            if !contains_id(&ids, y) {
                return Err(DependencyError::DatasetNotFound { id: y });
            }
            if !contains_id(&c, y) {
                let ghost before = c@;
                c.push(y);
                assert(c@[before.len() as int] == y);
                assert forall|z: DatasetId| #[trigger] c@.contains(z) implies ids@.contains(z) && reachable(m, start@, z) by {
                    if z != y {
                        let q = choose|q: int| 0 <= q < c@.len() && c@[q] == z;
                        assert(before[q] == z);
                        assert(before.contains(z));
                    }
                }
                assert forall|z: DatasetId| #[trigger] before.contains(z) implies c@.contains(z) by {
                    let q = choose|q: int| 0 <= q < before.len() && before[q] == z;
                    assert(c@[q] == z);
                }
                assert forall|k: int| 0 <= k < j implies c@.contains(#[trigger] ins@[k]) by {
                    assert(before.contains(ins@[k]));
                }
                assert forall|k: int, z: DatasetId|
                    0 <= k < i && #[trigger] inputs_of(m, c@[k]).contains(z) implies c@.contains(z) by {
                    assert(c@[k] == before[k]);
                    assert(before.contains(z));
                }
            }
            assert(c@.contains(y));
            j = j + 1;
        }
        assert forall|k: int, y: DatasetId|
            0 <= k < i + 1 && #[trigger] inputs_of(m, c@[k]).contains(y) implies c@.contains(y) by {
            if k == i {
                let q = choose|q: int| 0 <= q < ins@.len() && ins@[q] == y;
                assert(c@.contains(ins@[q]));
            }
        }
        i = i + 1;
    }
    proof {
        assert forall|x: DatasetId, y: DatasetId|
            c@.contains(x) && #[trigger] inputs_of(m, x).contains(y) implies c@.contains(y) by {
            let k = choose|k: int| 0 <= k < c@.len() && c@[k] == x;
            assert(inputs_of(m, c@[k]).contains(y));
        }
        assert forall|x: DatasetId| #[trigger] c@.contains(x) <==> reachable(m, start@, x) by {
            if reachable(m, start@, x) {
                let p = choose|p: Seq<DatasetId>| #[trigger] is_input_path(m, p) && start@.contains(p[0]) && p.last() == x;
                lemma_closed_holds_path(m, c@, p);
            }
        }
        assert forall|x: DatasetId| #[trigger] c@.contains(x) implies in_graph(m, x) by {
            assert(ids@.contains(x));
        }
    }
    Ok(c)
}

/// Orders the closure `c` so that every dataset follows its inputs.
fn order_closure(g: &DatasetGraph, start: &Vec<DatasetId>, c: &Vec<DatasetId>) -> (r: Result<
    Vec<DatasetId>,
    DependencyError,
>)
    requires
        g.wf(),
        c@.no_duplicates(),
        forall|x: DatasetId| #[trigger] c@.contains(x) <==> reachable(g.model(), start@, x),
        forall|x: DatasetId| #[trigger] c@.contains(x) ==> in_graph(g.model(), x),
    ensures
        r matches Ok(v) ==> is_dependency_order(g.model(), start@, v@),
        r matches Err(e) ==> e == DependencyError::CyclicDependency && has_cycle(g.model(), start@),
{
    let ghost m = g.model();
    let mut out: Vec<DatasetId> = Vec::new();
    while out.len() < c.len()
        invariant
            m == g.model(),
            g.wf(),
            c@.no_duplicates(),
            forall|x: DatasetId| #[trigger] c@.contains(x) <==> reachable(m, start@, x),
            forall|x: DatasetId| #[trigger] c@.contains(x) ==> in_graph(m, x),
            out@.no_duplicates(),
            forall|x: DatasetId| #[trigger] out@.contains(x) ==> c@.contains(x),
            forall|i: int, y: DatasetId|
                0 <= i < out@.len() && #[trigger] inputs_of(m, out@[i]).contains(y) ==> exists|j: int|
                    0 <= j < i && #[trigger] out@[j] == y,
        decreases c@.len() - out@.len(),
    {
        let mut k: usize = 0;
        let mut found: Option<usize> = None;
        while k < c.len() && found.is_none()
            invariant
                m == g.model(),
                g.wf(),
                k <= c@.len(),
                found matches Some(f) ==> f < c@.len() && !out@.contains(c@[f as int]) && (forall|y: DatasetId|
                    #[trigger] inputs_of(m, c@[f as int]).contains(y) ==> out@.contains(y)),
                found is None ==> forall|q: int|
                    0 <= q < k ==> out@.contains(#[trigger] c@[q]) || exists|y: DatasetId|
                        #[trigger] inputs_of(m, c@[q]).contains(y) && !out@.contains(y),
                forall|x: DatasetId| #[trigger] c@.contains(x) ==> in_graph(m, x),
            decreases c@.len() - k,
        {
            let x = c[k];
            assert(c@.contains(x));
            if !contains_id(&out, x) {
                match g.find(x) {
                    Some(n) => {
                        if all_in(&g.nodes[n].inputs, &out) {
                            found = Some(k);
                        } else {
                            proof {
                                let y = choose|y: DatasetId|
                                    !(g.nodes@[n as int].inputs@.contains(y) ==> out@.contains(y));
                                assert(inputs_of(m, c@[k as int]).contains(y) && !out@.contains(y));
                            }
                        }
                    },
                    None => {},
                }
            }
            k = k + 1;
        }
        match found {
            Some(f) => {
                let x = c[f];
                let ghost before = out@;
                out.push(x);
                proof {
                    assert(out@[before.len() as int] == x);
                    assert forall|z: DatasetId| #[trigger] out@.contains(z) implies c@.contains(z) by {
                        if z != x {
                            let q = choose|q: int| 0 <= q < out@.len() && out@[q] == z;
                            assert(before[q] == z);
                            assert(before.contains(z));
                        }
                    }
                    assert forall|i: int, y: DatasetId|
                        0 <= i < out@.len() && #[trigger] inputs_of(m, out@[i]).contains(y) implies exists|j: int|
                            0 <= j < i && #[trigger] out@[j] == y by {
                        if i < before.len() {
                            assert(out@[i] == before[i]);
                            let j = choose|j: int| 0 <= j < i && #[trigger] before[j] == y;
                            assert(out@[j] == y);
                        } else {
                            assert(before.contains(y));
                            let j = choose|j: int| 0 <= j < before.len() && before[j] == y;
                            assert(out@[j] == y);
                        }
                    }
                }
            },
            None => {
                proof {
                    let s = Set::new(|x: DatasetId| c@.contains(x) && !out@.contains(x));
                    assert(s.subset_of(c@.to_set()));
                    vstd::set_lib::lemma_len_subset(s, c@.to_set());
                    assert(exists|x: DatasetId| c@.contains(x) && !out@.contains(x)) by {
                        if forall|x: DatasetId| #[trigger] c@.contains(x) ==> out@.contains(x) {
                            lemma_len_bound(c@, out@);
                        }
                    }
                    let w = choose|x: DatasetId| c@.contains(x) && !out@.contains(x);
                    assert(s.contains(w));
                    assert(s.len() > 0) by {
                        if s.len() == 0 {
                            assert(s =~= Set::<DatasetId>::empty());
                        }
                    }
                    assert forall|x: DatasetId| #[trigger] s.contains(x) implies reachable(m, start@, x)
                        && exists|y: DatasetId| #[trigger] inputs_of(m, x).contains(y) && s.contains(y) by {
                        let q = choose|q: int| 0 <= q < c@.len() && c@[q] == x;
                        assert(out@.contains(c@[q]) || exists|y: DatasetId|
                            #[trigger] inputs_of(m, c@[q]).contains(y) && !out@.contains(y));
                        let y = choose|y: DatasetId| #[trigger] inputs_of(m, x).contains(y) && !out@.contains(y);
                        lemma_input_reachable(m, start@, x, y);
                        assert(s.contains(y));
                    }
                    assert(has_cycle(m, start@));
                }
                return Err(DependencyError::CyclicDependency);
            },
        }
    }
    proof {
        assert forall|x: DatasetId| #[trigger] c@.contains(x) implies out@.contains(x) by {
            if !out@.contains(x) {
                let rest = c@.to_set().remove(x);
                out@.unique_seq_to_set();
                c@.unique_seq_to_set();
                assert(out@.to_set().subset_of(rest));
                vstd::set_lib::lemma_len_subset(out@.to_set(), rest);
            }
        }
        assert forall|x: DatasetId| #[trigger] out@.contains(x) <==> reachable(m, start@, x) by {
            if out@.contains(x) {
                assert(c@.contains(x));
            }
            if reachable(m, start@, x) {
                assert(c@.contains(x));
            }
        }
    }
    Ok(out)
}

/// The datasets to refresh for a request, in dependency order.
///
/// With `recursive`, every dataset reachable from `start` through inputs, in
/// an order where each follows its inputs; otherwise the datasets of `start`
/// alone, in the relative order that such an order gives them.
pub fn dependency_order(g: &DatasetGraph, start: &Vec<DatasetId>, recursive: bool) -> (r: Result<
    Vec<DatasetId>,
    DependencyError,
>)
    requires
        g.wf(),
    ensures
        r matches Ok(v) ==> exists|full: Seq<DatasetId>|
            #[trigger] is_dependency_order(g.model(), start@, full) && (recursive ==> v@ == full)
                && (!recursive ==> v@ == full.filter(|x: DatasetId| start@.contains(x))),
        r matches Err(DependencyError::DatasetNotFound { id }) ==> reachable(g.model(), start@, id)
            && !in_graph(g.model(), id),
        r == Err::<Vec<DatasetId>, DependencyError>(DependencyError::CyclicDependency) ==> has_cycle(
            g.model(),
            start@,
        ),
        (exists|id: DatasetId| reachable(g.model(), start@, id) && !in_graph(g.model(), id))
            ==> r matches Err(DependencyError::DatasetNotFound { .. }),
{
    let c = closure(g, start)?;
    assert forall|id: DatasetId| reachable(g.model(), start@, id) implies in_graph(g.model(), id) by {
        assert(c@.contains(id));
    }
    let full = order_closure(g, start, &c)?;
    if recursive {
        return Ok(full);
    }
    let ghost pred = |x: DatasetId| start@.contains(x);
    let mut v: Vec<DatasetId> = Vec::new();
    let mut i: usize = 0;
    while i < full.len()
        invariant
            i <= full@.len(),
            v@ == full@.subrange(0, i as int).filter(pred),
            pred == (|x: DatasetId| start@.contains(x)),
        decreases full@.len() - i,
    {
        proof {
            reveal(Seq::filter);
            assert(full@.subrange(0, i + 1).drop_last() =~= full@.subrange(0, i as int));
        }
        if contains_id(start, full[i]) {
            v.push(full[i]);
        }
        i = i + 1;
    }
    assert(full@.subrange(0, i as int) =~= full@);
    Ok(v)
}

} // verus!
