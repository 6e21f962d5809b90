//! Autodiff-wrapped tensors: a tensor primitive together with its graph
//! node and the steps recorded while it was built, plus the session that
//! allocates process-unique node identities.

use std::rc::Rc;

use vstd::prelude::*;

use crate::engine::{gwf, run_rev, run_steps};
use crate::tensor::tv_ones;
use crate::grads::Gradients;
use crate::graph::{
    live, live_p, merge_back, sorted_steps, step_shapes_ok, step_wf, steps_view, Node, PRef,
    Requirement, Step, StepKind,
};
use crate::shape::prod;
use crate::tensor::{copy_shape, Tensor, TView};

verus! {

/// Ghost record of one allocated node: its order, shape and requirement.
pub struct GMeta {
    pub order: u64,
    pub shape: Seq<usize>,
    pub req: Requirement,
}

/// Allocator of node identities: the per-process monotone order counter,
/// together with ghost tables of every node and step it has issued.
pub struct Session {
    pub next: u64,
    pub meta: Ghost<Map<u64, GMeta>>,
    pub steps: Ghost<Map<u64, Step>>,
}

impl Session {
    pub open spec fn inv(&self) -> bool {
        &&& forall|id: u64| self.meta@.contains_key(id) ==> (#[trigger] self.meta@[id]).order == id
            && id < self.next && prod(self.meta@[id].shape) <= usize::MAX
        &&& forall|id: u64| #[trigger] self.steps@.contains_key(id) ==> self.meta@.contains_key(id)
            && self.steps@[id].out.id == id && self.steps@[id].out.order == id
            && self.steps@[id].out.shape@ == self.meta@[id].shape && step_wf(self.steps@[id])
            && (forall|i: int|
            live(self.steps@[id], i) ==> {
                let p = (#[trigger] self.steps@[id].parents@[i]).unwrap();
                &&& self.meta@.contains_key(p.id)
                &&& p.order == self.meta@[p.id].order
                &&& p.shape@ == self.meta@[p.id].shape
            })
    }

    /// A fresh session with no nodes allocated.
    pub fn new() -> (r: Session)
        ensures
            r.inv(),
            r.next == 0,
            r.meta@ == Map::<u64, GMeta>::empty(),
            r.steps@ == Map::<u64, Step>::empty(),
    {
        Session { next: 0, meta: Ghost(Map::empty()), steps: Ghost(Map::empty()) }
    }
}

/// One session's state extends another: the counter moved forward and the
/// issued tables only grew.
pub open spec fn extends(a: Session, b: Session) -> bool {
    &&& a.next <= b.next
    &&& a.meta@.submap_of(b.meta@)
    &&& a.steps@.submap_of(b.steps@)
}

/// An autodiff-wrapped tensor: the primitive, the shared node record, and
/// the reference-counted steps collected while building it.
#[derive(Clone, Debug)]
pub struct Var {
    pub prim: Tensor,
    pub node: Rc<Node>,
    pub graph: Vec<Rc<Step>>,
}

impl Var {
    /// The values of the recorded steps.
    pub open spec fn gsteps(&self) -> Seq<Step> {
        steps_view(self.graph@)
    }

    /// Well-formedness against the session that issued this tensor's nodes.
    pub open spec fn wf(&self, ctx: Session) -> bool {
        &&& self.prim.wf()
        &&& prod(self.prim@.shape) <= usize::MAX
        &&& self.node.shape@ == self.prim@.shape
        &&& self.node.order == self.node.id
        &&& ctx.meta@.contains_key(self.node.id)
        &&& ctx.meta@[self.node.id] == (GMeta {
            order: self.node.order,
            shape: self.node.shape@,
            req: self.node.req,
        })
        &&& sorted_steps(self.gsteps())
        &&& forall|k: int| 0 <= k < self.gsteps().len() ==> ctx.steps@.contains_key(
            (#[trigger] self.gsteps()[k]).out.id,
        ) && ctx.steps@[self.gsteps()[k].out.id] == self.gsteps()[k]
        &&& forall|k: int| 0 <= k < self.gsteps().len() ==> (#[trigger] self.gsteps()[k]).out.order
            <= self.node.order
        &&& (self.node.req == Requirement::NoGrad ==> self.gsteps().len() == 0)
        &&& (self.node.req == Requirement::GradInBackward ==> self.gsteps().len() > 0
            && self.gsteps().last().out.id == self.node.id)
    }

    /// Standalone well-formedness for the backward pass: the graph is
    /// internally consistent around this tensor's node.
    pub open spec fn bwf(&self) -> bool {
        &&& self.prim.wf()
        &&& prod(self.prim@.shape) <= usize::MAX
        &&& self.node.shape@ == self.prim@.shape
        &&& gwf(self.gsteps(), self.node.id, self.node.shape@)
        &&& (self.node.req == Requirement::NoGrad ==> self.gsteps().len() == 0)
    }

    /// Whether this tensor takes part in gradient computation.
    pub open spec fn tracked_spec(&self) -> bool {
        self.node.req.is_tracked()
    }

    /// Whether the user marked this tensor as a gradient leaf.
    pub fn is_require_grad(&self) -> (r: bool)
        ensures
            r == (self.node.req == Requirement::Grad),
    {
        self.node.req == Requirement::Grad
    }

    /// Whether the tensor is tracked by the graph.
    pub fn is_tracked(&self) -> (r: bool)
        ensures
            r == self.tracked_spec(),
    {
        !(self.node.req == Requirement::NoGrad)
    }

    /// An owned copy sharing the node and the recorded steps.
    pub fn dup(&self) -> (r: Var)
        ensures
            r.prim@ == self.prim@,
            r.node == self.node,
            r.gsteps() == self.gsteps(),
            forall|ctx: Session| self.wf(ctx) ==> r.wf(ctx),
    {
        let mut graph: Vec<Rc<Step>> = Vec::new();
        let mut i: usize = 0;
        while i < self.graph.len()
            invariant
                0 <= i <= self.graph@.len(),
                graph@.len() == i,
                forall|k: int| 0 <= k < i ==> graph@[k] == self.graph@[k],
            decreases self.graph@.len() - i,
        {
            graph.push(Rc::clone(&self.graph[i]));
            i += 1;
        }
        let r = Var { prim: self.prim.dup(), node: Rc::clone(&self.node), graph };
        proof {
            assert(r.gsteps() =~= self.gsteps());
        }
        r
    }

    /// The wrapped primitive, crossing the decorator boundary outward.
    pub fn inner(self) -> (r: Tensor)
        ensures
            r@ == self.prim@,
    {
        self.prim
    }
}

/// The step value behind a shared reference-counted step.
pub open spec fn step_of(s: &Rc<Step>) -> Step {
    **s
}

/// Create an untracked or user-marked leaf over a primitive.
pub(crate) fn make_leaf(ctx: &mut Session, prim: Tensor, req: Requirement, parents: Vec<u64>) -> (v: Var)
    requires
        old(ctx).inv(),
        old(ctx).next < u64::MAX,
        prim.wf(),
        prod(prim@.shape) <= usize::MAX,
        req != Requirement::GradInBackward,
    ensures
        final(ctx).inv(),
        extends(*old(ctx), *final(ctx)),
        final(ctx).next == old(ctx).next + 1,
        final(ctx).steps@ == old(ctx).steps@,
        v.wf(*final(ctx)),
        v.prim@ == prim@,
        v.node.req == req,
        v.node.id == old(ctx).next,
        v.node.parents@ == parents@,
        v.gsteps() == Seq::<Step>::empty(),
{
    let id = ctx.next;
    let shape = prim.dims();
    let node = Rc::new(Node { id, order: id, req, parents, shape });
    proof {
        assert((*node).shape@ == prim@.shape);
    }
    ctx.next = id + 1;
    let ghost gm = GMeta { order: id, shape: prim@.shape, req };
    ctx.meta = Ghost(ctx.meta@.insert(id, gm));
    let graph: Vec<Rc<Step>> = Vec::new();
    let v = Var { prim, node, graph };
    proof {
        assert(v.gsteps() =~= Seq::<Step>::empty());
        assert forall|id2: u64| ctx.steps@.contains_key(id2) implies ctx.meta@.contains_key(id2) && ctx.steps@[id2].out.id == id2 && ctx.steps@[id2].out.order == id2 && ctx.steps@[id2].out.shape@ == ctx.meta@[id2].shape && step_wf(ctx.steps@[id2]) && (forall|i: int|
            live(ctx.steps@[id2], i) ==> {
                let p = (#[trigger] ctx.steps@[id2].parents@[i]).unwrap();
                &&& ctx.meta@.contains_key(p.id)
                &&& p.order == ctx.meta@[p.id].order
                &&& p.shape@ == ctx.meta@[p.id].shape
            }) by {
            assert(old(ctx).steps@.contains_key(id2));
            assert(old(ctx).steps@[id2] == ctx.steps@[id2]);
        }
    }
    v
}

/// Create the tracked output of an operation: a fresh interior node, the
/// merged parent graphs, and the recorded step with its captured state.
pub(crate) fn make_tracked(
    ctx: &mut Session,
    prim: Tensor,
    parent_ids: Vec<u64>,
    prefs: Vec<Option<PRef>>,
    merged: Vec<Rc<Step>>,
    kind: StepKind,
) -> (v: Var)
    requires
        old(ctx).inv(),
        old(ctx).next < u64::MAX,
        prim.wf(),
        prod(prim@.shape) <= usize::MAX,
        step_shapes_ok(prim@.shape, prefs@, kind),
        forall|i: int|
            live_p(prefs@, i) ==> {
                let p = (#[trigger] prefs@[i]).unwrap();
                &&& old(ctx).meta@.contains_key(p.id)
                &&& p.order == old(ctx).meta@[p.id].order
                &&& p.order == p.id
                &&& p.shape@ == old(ctx).meta@[p.id].shape
                &&& p.order < old(ctx).next
            },
        sorted_steps(steps_view(merged@)),
        forall|k: int| 0 <= k < merged@.len() ==> old(ctx).steps@.contains_key(
            (#[trigger] steps_view(merged@)[k]).out.id,
        ) && old(ctx).steps@[steps_view(merged@)[k].out.id] == steps_view(merged@)[k],
        forall|k: int| 0 <= k < merged@.len() ==> (#[trigger] steps_view(merged@)[k]).out.order
            < old(ctx).next,
    ensures
        final(ctx).inv(),
        extends(*old(ctx), *final(ctx)),
        final(ctx).next == old(ctx).next + 1,
        v.wf(*final(ctx)),
        v.prim@ == prim@,
        v.node.req == Requirement::GradInBackward,
        v.node.id == old(ctx).next,
        v.node.parents@ == parent_ids@,
        v.gsteps().len() == steps_view(merged@).len() + 1,
        v.gsteps().drop_last() == steps_view(merged@),
        v.gsteps().last().out.id == v.node.id,
        v.gsteps().last().out.order == v.node.id,
        v.gsteps().last().out.shape@ == prim@.shape,
        v.gsteps().last().parents@ == prefs@,
        v.gsteps().last().kind == kind,
{
    let id = ctx.next;
    let shape = prim.dims();
    let out_ref = PRef { id, order: id, shape };
    let step = Rc::new(Step { out: out_ref, parents: prefs, kind });
    proof {
        assert(step_wf((*step))) by {
            assert forall|i: int| live((*step), i) implies (
            #[trigger] (*step).parents@[i]).unwrap().order < (*step).out.order by {
                assert(live_p((*step).parents@, i));
            }
        }
    }
    let node = Rc::new(
        Node {
            id,
            order: id,
            req: Requirement::GradInBackward,
            parents: parent_ids,
            shape: prim.dims(),
        },
    );
    ctx.next = id + 1;
    let ghost gm = GMeta { order: id, shape: prim@.shape, req: Requirement::GradInBackward };
    ctx.meta = Ghost(ctx.meta@.insert(id, gm));
    proof {
        ctx.steps@ = ctx.steps@.insert(id, step_of(&step));
    }
    let mut graph = merged;
    let ghost merged_view = steps_view(graph@);
    let step_shared = Rc::clone(&step);
    graph.push(step_shared);
    let v = Var { prim, node, graph };
    proof {
        assert(v.gsteps() =~= merged_view.push((*step))) by {
            assert forall|k: int| 0 <= k < merged_view.len() implies v.gsteps()[k]
                == merged_view[k] by {
                assert(v.graph@[k] == graph@.drop_last()[k]);
            }
        }
        // the session tables stay consistent
        assert forall|id2: u64| #[trigger] ctx.steps@.contains_key(id2) implies ctx.meta@.contains_key(id2) && ctx.steps@[id2].out.id == id2 && ctx.steps@[id2].out.order == id2 && ctx.steps@[id2].out.shape@ == ctx.meta@[id2].shape && step_wf(ctx.steps@[id2]) && (forall|i: int|
            live(ctx.steps@[id2], i) ==> {
                let p = (#[trigger] ctx.steps@[id2].parents@[i]).unwrap();
                &&& ctx.meta@.contains_key(p.id)
                &&& p.order == ctx.meta@[p.id].order
                &&& p.shape@ == ctx.meta@[p.id].shape
            }) by {
            if id2 == id {
                assert(ctx.steps@[id2] == (*step));
                assert forall|i: int| live((*step), i) implies {
                    let p = (#[trigger] (*step).parents@[i]).unwrap();
                    &&& ctx.meta@.contains_key(p.id)
                    &&& p.order == ctx.meta@[p.id].order
                    &&& p.shape@ == ctx.meta@[p.id].shape
                } by {
                    assert(live_p(prefs@, i));
                    let p = prefs@[i].unwrap();
                    assert(old(ctx).meta@.contains_key(p.id));
                }
            } else {
                assert(old(ctx).steps@.contains_key(id2));
                assert(old(ctx).steps@[id2] == ctx.steps@[id2]);
                assert forall|i: int| live(ctx.steps@[id2], i) implies {
                    let p = (#[trigger] ctx.steps@[id2].parents@[i]).unwrap();
                    &&& ctx.meta@.contains_key(p.id)
                    &&& p.order == ctx.meta@[p.id].order
                    &&& p.shape@ == ctx.meta@[p.id].shape
                } by {
                    assert(live(old(ctx).steps@[id2], i));
                }
            }
        }
        // the new tensor is well formed in the extended session
        assert forall|k: int| 0 <= k < v.gsteps().len() implies ctx.steps@.contains_key(
            (#[trigger] v.gsteps()[k]).out.id,
        ) && ctx.steps@[v.gsteps()[k].out.id] == v.gsteps()[k] by {
            if k < merged_view.len() {
                assert(v.gsteps()[k] == merged_view[k]);
                assert(merged_view[k].out.order < id);
                assert(old(ctx).steps@.contains_key(merged_view[k].out.id));
                assert(old(ctx).steps@[merged_view[k].out.id].out.order == merged_view[k].out.id);
            } else {
                assert(v.gsteps()[k] == (*step));
            }
        }
        assert(sorted_steps(v.gsteps())) by {
            assert forall|k1: int, k2: int|
                0 <= k1 < k2 < v.gsteps().len() implies (#[trigger] v.gsteps()[k1]).out.order < (
            #[trigger] v.gsteps()[k2]).out.order by {
                if k2 < merged_view.len() {
                    assert(v.gsteps()[k1] == merged_view[k1]);
                    assert(v.gsteps()[k2] == merged_view[k2]);
                } else {
                    assert(v.gsteps()[k1] == merged_view[k1]);
                    assert(v.gsteps()[k2] == (*step));
                }
            }
        }
    }
    v
}

/// The graph of a well-formed tensor is consistent with its session and
/// bounded by the session counter.
pub proof fn lemma_graph_ok(v: &Var, ctx: Session)
    requires
        ctx.inv(),
        v.wf(ctx),
    ensures
        sorted_steps(v.gsteps()),
        forall|k: int| 0 <= k < v.gsteps().len() ==> ctx.steps@.contains_key(
            (#[trigger] v.gsteps()[k]).out.id,
        ) && ctx.steps@[v.gsteps()[k].out.id] == v.gsteps()[k],
        forall|k: int| 0 <= k < v.gsteps().len() ==> (#[trigger] v.gsteps()[k]).out.order
            < ctx.next,
        v.node.id < ctx.next,
{
    assert forall|k: int| 0 <= k < v.gsteps().len() implies (#[trigger] v.gsteps()[k]).out.order
        < ctx.next by {
        assert(v.gsteps()[k].out.order <= v.node.order);
        assert(ctx.meta@.contains_key(v.node.id));
    }
}

/// Two well-formed tensors' graphs merge into a session-consistent,
/// ordered step list bounded by the session counter.
pub proof fn lemma_merge_ok_vars(a: &Var, b: &Var, ctx: Session)
    requires
        ctx.inv(),
        a.wf(ctx),
        b.wf(ctx),
    ensures
        sorted_steps(merge_back(a.gsteps(), b.gsteps())),
        forall|k: int| 0 <= k < merge_back(a.gsteps(), b.gsteps()).len() ==> ctx.steps@.contains_key(
            (#[trigger] merge_back(a.gsteps(), b.gsteps())[k]).out.id,
        ) && ctx.steps@[merge_back(a.gsteps(), b.gsteps())[k].out.id] == merge_back(
            a.gsteps(),
            b.gsteps(),
        )[k],
        forall|k: int| 0 <= k < merge_back(a.gsteps(), b.gsteps()).len() ==> (#[trigger] merge_back(
            a.gsteps(),
            b.gsteps(),
        )[k]).out.order < ctx.next,
        a.node.id < ctx.next,
        b.node.id < ctx.next,
{
    lemma_graph_ok(a, ctx);
    lemma_graph_ok(b, ctx);
    lemma_merge_lists_ok(a.gsteps(), b.gsteps(), ctx, ctx.next);
}

/// The merged graphs of two well-formed tensors satisfy the preconditions
/// of tracked-output creation.
pub proof fn lemma_merge_lists_ok(a: Seq<Step>, b: Seq<Step>, ctx: Session, bound: u64)
    requires
        ctx.inv(),
        sorted_steps(a),
        sorted_steps(b),
        forall|k: int| 0 <= k < a.len() ==> ctx.steps@.contains_key((#[trigger] a[k]).out.id)
            && ctx.steps@[a[k].out.id] == a[k],
        forall|k: int| 0 <= k < b.len() ==> ctx.steps@.contains_key((#[trigger] b[k]).out.id)
            && ctx.steps@[b[k].out.id] == b[k],
        forall|k: int| 0 <= k < a.len() ==> (#[trigger] a[k]).out.order < bound,
        forall|k: int| 0 <= k < b.len() ==> (#[trigger] b[k]).out.order < bound,
    ensures
        sorted_steps(merge_back(a, b)),
        forall|k: int| 0 <= k < merge_back(a, b).len() ==> ctx.steps@.contains_key(
            (#[trigger] merge_back(a, b)[k]).out.id,
        ) && ctx.steps@[merge_back(a, b)[k].out.id] == merge_back(a, b)[k],
        forall|k: int| 0 <= k < merge_back(a, b).len() ==> (#[trigger] merge_back(
            a,
            b,
        )[k]).out.order < bound,
{
    crate::graph::lemma_merge_sorted(a, b);
    crate::graph::lemma_merge_from(a, b);
    assert forall|k: int| 0 <= k < merge_back(a, b).len() implies ctx.steps@.contains_key(
        (#[trigger] merge_back(a, b)[k]).out.id,
    ) && ctx.steps@[merge_back(a, b)[k].out.id] == merge_back(a, b)[k] && merge_back(
        a,
        b,
    )[k].out.order < bound by {
        let s = merge_back(a, b)[k];
        if a.contains(s) {
            let w = choose|w: int| 0 <= w < a.len() && a[w] == s;
            assert(ctx.steps@.contains_key(a[w].out.id));
        } else {
            assert(b.contains(s));
            let w = choose|w: int| 0 <= w < b.len() && b[w] == s;
            assert(ctx.steps@.contains_key(b[w].out.id));
        }
    }
}

/// A tensor well formed in one session stays well formed when the session
/// extends.
pub proof fn lemma_wf_mono(v: Var, a: Session, b: Session)
    requires
        v.wf(a),
        extends(a, b),
    ensures
        v.wf(b),
{
    assert(a.meta@.dom().contains(v.node.id));
    assert(b.meta@.contains_key(v.node.id));
    assert(b.meta@[v.node.id] == a.meta@[v.node.id]);
    assert forall|k: int| 0 <= k < v.gsteps().len() implies b.steps@.contains_key(
        (#[trigger] v.gsteps()[k]).out.id,
    ) && b.steps@[v.gsteps()[k].out.id] == v.gsteps()[k] by {
        assert(a.steps@.contains_key(v.gsteps()[k].out.id));
        assert(a.steps@.submap_of(b.steps@));
        assert(a.steps@.dom().contains(v.gsteps()[k].out.id));
        assert(b.steps@.dom().contains(v.gsteps()[k].out.id) && a.steps@[v.gsteps()[k].out.id]
            == b.steps@[v.gsteps()[k].out.id]);
    }
}

/// A tensor well formed in a consistent session has an internally
/// consistent graph around its own node.
pub proof fn lemma_wf_bwf(v: Var, ctx: Session)
    requires
        ctx.inv(),
        v.wf(ctx),
    ensures
        v.bwf(),
{
    let ss = v.gsteps();
    let rid = v.node.id;
    let rsh = v.node.shape@;
    assert forall|k: int| 0 <= k < ss.len() implies step_wf(#[trigger] ss[k]) by {
        assert(ctx.steps@[ss[k].out.id] == ss[k]);
    }
    assert forall|k: int| 0 <= k < ss.len() implies crate::engine::entry_ok(
        ss,
        rid,
        rsh,
        (#[trigger] ss[k]).out.id,
        ss[k].out.shape@,
    ) by {
        lemma_entry_ok_for(ss, rid, rsh, ctx, ss[k].out.id, ss[k].out.shape@);
    }
    assert forall|k: int, i: int|
        0 <= k < ss.len() && live(ss[k], i) implies crate::engine::entry_ok(
        ss,
        rid,
        rsh,
        #[trigger] ss[k].parents@[i].unwrap().id,
        crate::graph::pshape(ss[k], i),
    ) by {
        let s = ss[k];
        let p = s.parents@[i].unwrap();
        assert(ctx.steps@[s.out.id] == s);
        assert(ctx.meta@.contains_key(p.id));
        assert(p.shape@ == ctx.meta@[p.id].shape);
        lemma_entry_ok_for(ss, rid, rsh, ctx, p.id, p.shape@);
    }
    lemma_entry_ok_for(ss, rid, rsh, ctx, rid, rsh);
}

/// Any identity whose shape agrees with the session's table is consistent
/// with every mention of that identity in the graph.
proof fn lemma_entry_ok_for(
    ss: Seq<Step>,
    rid: u64,
    rsh: Seq<usize>,
    ctx: Session,
    id: u64,
    sh: Seq<usize>,
)
    requires
        ctx.inv(),
        ctx.meta@.contains_key(id),
        sh == ctx.meta@[id].shape,
        ctx.meta@.contains_key(rid),
        rsh == ctx.meta@[rid].shape,
        forall|k: int| 0 <= k < ss.len() ==> ctx.steps@.contains_key((#[trigger] ss[k]).out.id)
            && ctx.steps@[ss[k].out.id] == ss[k],
    ensures
        crate::engine::entry_ok(ss, rid, rsh, id, sh),
{
    assert forall|k: int| 0 <= k < ss.len() && (#[trigger] ss[k]).out.id == id implies sh
        == ss[k].out.shape@ by {
        assert(ctx.steps@[ss[k].out.id] == ss[k]);
    }
    assert forall|k: int, i: int|
        live(ss[k], i) && 0 <= k < ss.len() && #[trigger] ss[k].parents@[i].unwrap().id == id
            implies sh == crate::graph::pshape(ss[k], i) by {
        let s = ss[k];
        assert(ctx.steps@[s.out.id] == s);
        let p = s.parents@[i].unwrap();
        assert(p.shape@ == ctx.meta@[p.id].shape);
    }
}

impl Var {
    /// Wrap a plain primitive as an untracked tensor (crossing the
    /// decorator boundary inward).
    pub fn from_inner(ctx: &mut Session, prim: Tensor) -> (v: Var)
        requires
            old(ctx).inv(),
            old(ctx).next < u64::MAX,
            prim.wf(),
            prod(prim@.shape) <= usize::MAX,
        ensures
            final(ctx).inv(),
            extends(*old(ctx), *final(ctx)),
            v.wf(*final(ctx)),
            v.prim@ == prim@,
            v.node.req == Requirement::NoGrad,
            v.node.id == old(ctx).next,
            final(ctx).next == old(ctx).next + 1,
            v.gsteps() == Seq::<Step>::empty(),
            v.node.parents@ == Seq::<u64>::empty(),
    {
        let parents: Vec<u64> = Vec::new();
        let v = make_leaf(ctx, prim, Requirement::NoGrad, parents);
        proof {
            assert(v.node.parents@ =~= Seq::<u64>::empty());
        }
        v
    }

    /// Mark this tensor as a gradient leaf: a fresh node with the `Grad`
    /// requirement over the same primitive.
    pub fn require_grad(self, ctx: &mut Session) -> (v: Var)
        requires
            old(ctx).inv(),
            old(ctx).next < u64::MAX,
            self.prim.wf(),
            prod(self.prim@.shape) <= usize::MAX,
        ensures
            final(ctx).inv(),
            extends(*old(ctx), *final(ctx)),
            v.wf(*final(ctx)),
            v.prim@ == self.prim@,
            v.node.req == Requirement::Grad,
            v.node.id == old(ctx).next,
            final(ctx).next == old(ctx).next + 1,
            v.gsteps() == Seq::<Step>::empty(),
    {
        let parents: Vec<u64> = Vec::new();
        make_leaf(ctx, self.prim, Requirement::Grad, parents)
    }

    /// Detach from the graph: a fresh leaf over the same primitive; the
    /// user's `Grad` mark is preserved, anything else is dropped.
    pub fn detach(self, ctx: &mut Session) -> (v: Var)
        requires
            old(ctx).inv(),
            old(ctx).next < u64::MAX,
            self.prim.wf(),
            prod(self.prim@.shape) <= usize::MAX,
        ensures
            final(ctx).inv(),
            extends(*old(ctx), *final(ctx)),
            v.wf(*final(ctx)),
            v.prim@ == self.prim@,
            v.node.req == (if self.node.req == Requirement::Grad {
                Requirement::Grad
            } else {
                Requirement::NoGrad
            }),
            v.node.id == old(ctx).next,
            final(ctx).next == old(ctx).next + 1,
            v.gsteps() == Seq::<Step>::empty(),
            v.node.parents@ == Seq::<u64>::empty(),
    {
        let req = if self.is_require_grad() {
            Requirement::Grad
        } else {
            Requirement::NoGrad
        };
        let parents: Vec<u64> = Vec::new();
        let v = make_leaf(ctx, self.prim, req, parents);
        proof {
            assert(v.node.parents@ =~= Seq::<u64>::empty());
        }
        v
    }

    /// Set or clear the leaf requirement.
    pub fn set_require_grad(self, ctx: &mut Session, require_grad: bool) -> (v: Var)
        requires
            old(ctx).inv(),
            old(ctx).next < u64::MAX,
            self.prim.wf(),
            prod(self.prim@.shape) <= usize::MAX,
        ensures
            final(ctx).inv(),
            extends(*old(ctx), *final(ctx)),
            v.wf(*final(ctx)),
            v.prim@ == self.prim@,
            v.node.req == (if require_grad {
                Requirement::Grad
            } else {
                Requirement::NoGrad
            }),
            v.node.id == old(ctx).next,
            final(ctx).next == old(ctx).next + 1,
            v.gsteps() == Seq::<Step>::empty(),
    {
        let parents: Vec<u64> = Vec::new();
        if require_grad {
            make_leaf(ctx, self.prim, Requirement::Grad, parents)
        } else {
            make_leaf(ctx, self.prim, Requirement::NoGrad, parents)
        }
    }

    /// Run the backward pass from this tensor: seed its gradient with ones,
    /// then execute every recorded step in strictly descending node order.
    /// An untracked tensor yields an empty gradient store.
    pub fn backward(&self) -> (g: Gradients)
        requires
            self.bwf(),
        ensures
            g.wf(),
            self.node.req == Requirement::NoGrad ==> g@ == Map::<u64, TView>::empty(),
            self.node.req != Requirement::NoGrad ==> g@ == run_rev(
                self.gsteps(),
                Map::<u64, TView>::empty().insert(self.node.id, tv_ones(self.node.shape@)),
            ),
    {
        let mut grads = Gradients::new();
        if !self.is_tracked() {
            return grads;
        }
        let seed = Tensor::ones(copy_shape(&self.node.shape));
        grads.register(self.node.id, seed);
        proof {
            assert(grads@ =~= Map::<u64, TView>::empty().insert(
                self.node.id,
                tv_ones(self.node.shape@),
            ));
            assert forall|id: u64| #[trigger] grads@.contains_key(id) implies crate::engine::entry_ok(
                self.gsteps(),
                self.node.id,
                self.node.shape@,
                id,
                grads@[id].shape,
            ) && crate::tensor::tv_wf(grads@[id]) && prod(grads@[id].shape) <= usize::MAX by {
                assert(id == self.node.id);
                assert(grads@[id].shape == self.node.shape@);
            }
        }
        run_steps(&self.graph, &mut grads, Ghost(self.node.id), Ghost(self.node.shape@));
        grads
    }

    /// Read this tensor's gradient from a store.
    pub fn grad(&self, grads: &Gradients) -> (r: Option<Tensor>)
        requires
            grads.wf(),
        ensures
            match r {
                Some(t) => grads@.contains_key(self.node.id) && t@ == grads@[self.node.id]
                    && t.wf(),
                None => !grads@.contains_key(self.node.id),
            },
    {
        grads.get(self.node.id)
    }

    /// Remove and return this tensor's gradient from a store.
    pub fn grad_remove(&self, grads: &mut Gradients) -> (r: Option<Tensor>)
        requires
            old(grads).wf(),
        ensures
            final(grads).wf(),
            final(grads)@ == old(grads)@.remove(self.node.id),
            match r {
                Some(t) => old(grads)@.contains_key(self.node.id) && t@ == old(
                    grads,
                )@[self.node.id] && t.wf(),
                None => !old(grads)@.contains_key(self.node.id),
            },
    {
        grads.remove(self.node.id)
    }
}

} // verus!
