//! The recorded computation graph: requirement lattice, node records, the
//! per-operation reverse steps with their captured state, and the ordered
//! step container with its merge.

use std::rc::Rc;

use vstd::prelude::*;

use crate::shape::prod;
use crate::tensor::{BoolTensor, IntTensor, Tensor};
use crate::tensor_coords::slice_shape;

verus! {

/// Whether a node takes part in the backward pass: a user-marked leaf
/// (`Grad`), an interior node forced by an ancestor (`GradInBackward`), or
/// no participation at all.
#[derive(Clone, Copy, PartialEq, Eq, Structural, Debug)]
pub enum Requirement {
    Grad,
    GradInBackward,
    NoGrad,
}

impl Requirement {
    /// A tracked node produces or forwards gradients.
    pub open spec fn is_tracked(self) -> bool {
        self != Requirement::NoGrad
    }
}

/// Join of two parents' requirements: any tracked parent makes the child
/// an interior gradient node.
pub open spec fn join_req(a: Requirement, b: Requirement) -> Requirement {
    if a.is_tracked() || b.is_tracked() {
        Requirement::GradInBackward
    } else {
        Requirement::NoGrad
    }
}

/// Executable form of the requirement join.
pub fn join_req_e(a: Requirement, b: Requirement) -> (r: Requirement)
    ensures
        r == join_req(a, b),
{
    if a == Requirement::NoGrad && b == Requirement::NoGrad {
        Requirement::NoGrad
    } else {
        Requirement::GradInBackward
    }
}

/// A reference to a node as recorded inside a step: its identity, its
/// creation order and the shape of its primitive.
#[derive(Clone, Debug)]
pub struct PRef {
    pub id: u64,
    pub order: u64,
    pub shape: Vec<usize>,
}

/// A graph node: identity, creation order, requirement, parent identities
/// and the shape of the primitive it was attached to.
#[derive(Clone, Debug)]
pub struct Node {
    pub id: u64,
    pub order: u64,
    pub req: Requirement,
    pub parents: Vec<u64>,
    pub shape: Vec<usize>,
}

/// The state captured by one reverse step, one variant per operation.
/// Stateless operations capture nothing; binary operations capture an
/// operand only when the other side needs it.
#[derive(Clone, Debug)]
pub enum StepKind {
    AddK,
    SubK,
    NegK,
    AddScalarK,
    SubScalarK,
    MulK { lhs: Option<Tensor>, rhs: Option<Tensor> },
    MulScalarK { s: i64 },
    DivK { lhs: Option<Tensor>, rhs: Option<Tensor> },
    DivScalarK { s: i64 },
    MatmulK { lhs: Option<Tensor>, rhs: Option<Tensor> },
    SwapDimsK { d1: usize, d2: usize },
    ReshapeK { shape_in: Vec<usize> },
    ToDeviceK,
    ToFullK,
    FromFullK,
    IndexSelectK { idx: IntTensor, shape: Vec<usize> },
    IndexSelectAssignK { idx: IntTensor, shape_lhs: Vec<usize>, shape_rhs: Vec<usize> },
    IndexSelectDimK { d: usize, idx: IntTensor, shape: Vec<usize> },
    IndexSelectDimAssignK { d: usize, idx: IntTensor, shape_lhs: Vec<usize>, shape_rhs: Vec<usize> },
    IndexK { ranges: Vec<(usize, usize)>, shape: Vec<usize> },
    IndexAssignK { ranges: Vec<(usize, usize)>, shape_rhs: Vec<usize> },
    MaskFillK { mask: BoolTensor },
    MaskScatterK { mask: BoolTensor },
    SumK { shape: Vec<usize> },
    SumDimK { shape: Vec<usize>, d: usize },
    MeanK { shape: Vec<usize> },
    MeanDimK { shape: Vec<usize>, d: usize },
    ExpK { output: Tensor },
    LogK { input: Tensor },
    Log1pK { input: Tensor },
    PowfK { input: Tensor, p: i64 },
    SqrtK { output: Tensor },
    SinK { input: Tensor },
    CosK { input: Tensor },
    TanhK { output: Tensor },
    ErfK { input: Tensor },
    ReluK { output: Tensor },
    AvgPool1dK { shape: Vec<usize>, kernel: usize, stride: usize, padding: usize },
    CatK { d: usize, offsets: Vec<usize> },
}

/// One reverse-mode action: the output node it consumes the gradient of,
/// the parents it delivers partials to (pruned positions are absent), and
/// the captured state.
#[derive(Clone, Debug)]
pub struct Step {
    pub out: PRef,
    pub parents: Vec<Option<PRef>>,
    pub kind: StepKind,
}

/// Shape of a live parent position.
pub open spec fn pshape_p(ps: Seq<Option<PRef>>, i: int) -> Seq<usize> {
    ps[i].unwrap().shape@
}

/// Whether a parent position is live.
pub open spec fn live_p(ps: Seq<Option<PRef>>, i: int) -> bool {
    0 <= i < ps.len() && ps[i] is Some
}

/// Shape of a live parent.
pub open spec fn pshape(s: Step, i: int) -> Seq<usize> {
    pshape_p(s.parents@, i)
}

/// Whether parent position `i` of a step is live.
pub open spec fn live(s: Step, i: int) -> bool {
    live_p(s.parents@, i)
}

/// Intrinsic well-formedness of one step: arity, the topological-order
/// relation to its parents, capture policy, and the shape relations that
/// make each partial conform to its parent.
pub open spec fn step_wf(s: Step) -> bool {
    &&& forall|i: int| live(s, i) ==> (#[trigger] s.parents@[i]).unwrap().order < s.out.order
    &&& step_shapes_ok(s.out.shape@, s.parents@, s.kind)
}

/// The shape discipline of one step, independent of node identities and
/// creation orders.
pub open spec fn step_shapes_ok(osh: Seq<usize>, ps: Seq<Option<PRef>>, kind: StepKind) -> bool {
    &&& prod(osh) <= usize::MAX
    &&& forall|i: int| live_p(ps, i) ==> prod(pshape_p(ps, i)) <= usize::MAX
    &&& match kind {
        StepKind::AddK | StepKind::SubK => {
            &&& ps.len() == 2
            &&& forall|i: int| live_p(ps, i) ==> pshape_p(ps, i) == osh
        },
        StepKind::NegK | StepKind::AddScalarK | StepKind::SubScalarK | StepKind::MulScalarK {
            ..
        } | StepKind::DivScalarK { .. } | StepKind::ToDeviceK | StepKind::ToFullK
            | StepKind::FromFullK => {
            &&& ps.len() == 1
            &&& (live_p(ps, 0) ==> pshape_p(ps, 0) == osh)
        },
        StepKind::MulK { lhs, rhs } => {
            &&& ps.len() == 2
            &&& (rhs is Some <==> live_p(ps, 0))
            &&& (lhs is Some <==> live_p(ps, 1))
            &&& (live_p(ps, 0) ==> pshape_p(ps, 0) == osh && rhs.unwrap()@.shape == osh
                && rhs.unwrap().wf())
            &&& (live_p(ps, 1) ==> pshape_p(ps, 1) == osh && lhs.unwrap()@.shape == osh
                && lhs.unwrap().wf())
        },
        StepKind::DivK { lhs, rhs } => {
            &&& ps.len() == 2
            &&& (rhs is Some <==> (live_p(ps, 0) || live_p(ps, 1)))
            &&& (lhs is Some <==> live_p(ps, 1))
            &&& (rhs is Some ==> rhs.unwrap()@.shape == osh && rhs.unwrap().wf())
            &&& (live_p(ps, 0) ==> pshape_p(ps, 0) == osh)
            &&& (live_p(ps, 1) ==> pshape_p(ps, 1) == osh && lhs.unwrap()@.shape == osh
                && lhs.unwrap().wf())
        },
        StepKind::MatmulK { lhs, rhs } => {
            let rank = osh.len();
            &&& ps.len() == 2
            &&& rank >= 2
            &&& (rhs is Some <==> live_p(ps, 0))
            &&& (lhs is Some <==> live_p(ps, 1))
            &&& (live_p(ps, 0) ==> {
                let rv = rhs.unwrap()@;
                &&& rhs.unwrap().wf()
                &&& rv.shape.len() == rank
                &&& rv.shape.take(rank - 2) == osh.take(rank - 2)
                &&& rv.shape[rank - 1] == osh[rank - 1]
                &&& pshape_p(ps, 0) == osh.update(rank - 1, rv.shape[rank - 2])
            })
            &&& (live_p(ps, 1) ==> {
                let lv = lhs.unwrap()@;
                &&& lhs.unwrap().wf()
                &&& lv.shape.len() == rank
                &&& lv.shape.take(rank - 2) == osh.take(rank - 2)
                &&& lv.shape[rank - 2] == osh[rank - 2]
                &&& pshape_p(ps, 1) == osh.update(rank - 2, lv.shape[rank - 1]).update(
                    rank - 1,
                    osh[rank - 1],
                )
            })
        },
        StepKind::SwapDimsK { d1, d2 } => {
            &&& ps.len() == 1
            &&& d1 < osh.len()
            &&& d2 < osh.len()
            &&& (live_p(ps, 0) ==> pshape_p(ps, 0) == crate::tensor_coords::swap2(
                osh,
                d1 as int,
                d2 as int,
            ))
        },
        StepKind::ReshapeK { shape_in } => {
            &&& ps.len() == 1
            &&& prod(shape_in@) == prod(osh)
            &&& (live_p(ps, 0) ==> pshape_p(ps, 0) == shape_in@)
        },
        StepKind::IndexSelectK { idx, shape } => {
            &&& ps.len() == 1
            &&& idx.wf()
            &&& idx@.shape == osh
            &&& idx@.data.len() == prod(osh)
            &&& forall|p: int| 0 <= p < idx@.data.len() ==> 0 <= #[trigger] idx@.data[p] < prod(
                shape@,
            )
            &&& prod(shape@) <= usize::MAX
            &&& (live_p(ps, 0) ==> pshape_p(ps, 0) == shape@)
        },
        StepKind::IndexSelectAssignK { idx, shape_lhs, shape_rhs } => {
            &&& ps.len() == 2
            &&& idx.wf()
            &&& osh == shape_lhs@
            &&& idx@.data.len() == prod(shape_rhs@)
            &&& idx@.shape == shape_rhs@
            &&& forall|p: int| 0 <= p < idx@.data.len() ==> 0 <= #[trigger] idx@.data[p] < prod(
                shape_lhs@,
            )
            &&& prod(shape_rhs@) <= usize::MAX
            &&& (live_p(ps, 0) ==> pshape_p(ps, 0) == shape_lhs@)
            &&& (live_p(ps, 1) ==> pshape_p(ps, 1) == shape_rhs@)
        },
        StepKind::IndexSelectDimK { d, idx, shape } => {
            &&& ps.len() == 1
            &&& idx.wf()
            &&& idx@.shape.len() == 1
            &&& d < shape@.len()
            &&& osh == shape@.update(d as int, idx@.data.len() as usize)
            &&& forall|p: int| 0 <= p < idx@.data.len() ==> 0 <= #[trigger] idx@.data[p]
                < shape@[d as int]
            &&& prod(shape@) <= usize::MAX
            &&& (live_p(ps, 0) ==> pshape_p(ps, 0) == shape@)
        },
        StepKind::IndexSelectDimAssignK { d, idx, shape_lhs, shape_rhs } => {
            &&& ps.len() == 2
            &&& idx.wf()
            &&& idx@.shape.len() == 1
            &&& d < shape_lhs@.len()
            &&& osh == shape_lhs@
            &&& shape_rhs@ == shape_lhs@.update(d as int, idx@.data.len() as usize)
            &&& forall|p: int| 0 <= p < idx@.data.len() ==> 0 <= #[trigger] idx@.data[p]
                < shape_lhs@[d as int]
            &&& prod(shape_rhs@) <= usize::MAX
            &&& (live_p(ps, 0) ==> pshape_p(ps, 0) == shape_lhs@)
            &&& (live_p(ps, 1) ==> pshape_p(ps, 1) == shape_rhs@)
        },
        StepKind::IndexK { ranges, shape } => {
            &&& ps.len() == 1
            &&& ranges@.len() <= shape@.len()
            &&& forall|i: int| 0 <= i < ranges@.len() ==> #[trigger] ranges@[i].0 <= ranges@[i].1
                && ranges@[i].1 <= shape@[i]
            &&& osh == slice_shape(shape@, ranges@)
            &&& prod(shape@) <= usize::MAX
            &&& (live_p(ps, 0) ==> pshape_p(ps, 0) == shape@)
        },
        StepKind::IndexAssignK { ranges, shape_rhs } => {
            &&& ps.len() == 2
            &&& ranges@.len() <= osh.len()
            &&& forall|i: int| 0 <= i < ranges@.len() ==> #[trigger] ranges@[i].0 <= ranges@[i].1
                && ranges@[i].1 <= osh[i]
            &&& shape_rhs@ == slice_shape(osh, ranges@)
            &&& prod(shape_rhs@) <= usize::MAX
            &&& (live_p(ps, 0) ==> pshape_p(ps, 0) == osh)
            &&& (live_p(ps, 1) ==> pshape_p(ps, 1) == shape_rhs@)
        },
        StepKind::MaskFillK { mask } => {
            &&& ps.len() == 1
            &&& mask.wf()
            &&& mask@.shape == osh
            &&& (live_p(ps, 0) ==> pshape_p(ps, 0) == osh)
        },
        StepKind::MaskScatterK { mask } => {
            &&& ps.len() == 2
            &&& mask.wf()
            &&& mask@.shape == osh
            &&& (live_p(ps, 0) ==> pshape_p(ps, 0) == osh)
            &&& (live_p(ps, 1) ==> pshape_p(ps, 1) == osh)
        },
        StepKind::SumK { shape } => {
            &&& ps.len() == 1
            &&& osh == seq![1usize]
            &&& prod(shape@) <= usize::MAX
            &&& (live_p(ps, 0) ==> pshape_p(ps, 0) == shape@)
        },
        StepKind::SumDimK { shape, d } => {
            &&& ps.len() == 1
            &&& d < shape@.len()
            &&& osh == shape@.update(d as int, 1usize)
            &&& prod(shape@) <= usize::MAX
            &&& (live_p(ps, 0) ==> pshape_p(ps, 0) == shape@)
        },
        StepKind::MeanK { shape } => {
            &&& ps.len() == 1
            &&& osh == seq![1usize]
            &&& prod(shape@) <= usize::MAX
            &&& prod(shape@) <= i64::MAX
            &&& (live_p(ps, 0) ==> pshape_p(ps, 0) == shape@)
        },
        StepKind::MeanDimK { shape, d } => {
            &&& ps.len() == 1
            &&& d < shape@.len()
            &&& osh == shape@.update(d as int, 1usize)
            &&& prod(shape@) <= usize::MAX
            &&& shape@[d as int] <= i64::MAX
            &&& (live_p(ps, 0) ==> pshape_p(ps, 0) == shape@)
        },
        StepKind::ExpK { output } | StepKind::SqrtK { output } | StepKind::TanhK { output }
            | StepKind::ReluK { output } => {
            &&& ps.len() == 1
            &&& output.wf()
            &&& output@.shape == osh
            &&& (live_p(ps, 0) ==> pshape_p(ps, 0) == osh)
        },
        StepKind::LogK { input } | StepKind::Log1pK { input } | StepKind::SinK { input }
            | StepKind::CosK { input } | StepKind::ErfK { input } => {
            &&& ps.len() == 1
            &&& input.wf()
            &&& input@.shape == osh
            &&& (live_p(ps, 0) ==> pshape_p(ps, 0) == osh)
        },
        StepKind::PowfK { input, p } => {
            &&& ps.len() == 1
            &&& input.wf()
            &&& input@.shape == osh
            &&& (live_p(ps, 0) ==> pshape_p(ps, 0) == osh)
        },
        StepKind::AvgPool1dK { shape, kernel, stride, padding } => {
            &&& ps.len() == 1
            &&& shape@.len() >= 1
            &&& kernel >= 1
            &&& stride >= 1
            &&& padding <= kernel
            &&& kernel <= i64::MAX
            &&& shape@.last() + 2 * padding >= kernel
            &&& shape@.last() + 2 * padding <= usize::MAX
            &&& prod(shape@) <= usize::MAX
            &&& osh == shape@.update(
                shape@.len() - 1,
                crate::pool::pool_out_len(
                    shape@.last() as int,
                    kernel as int,
                    stride as int,
                    padding as int,
                ) as usize,
            )
            &&& (live_p(ps, 0) ==> pshape_p(ps, 0) == shape@)
        },
        StepKind::CatK { d, offsets } => {
            &&& d < osh.len()
            &&& offsets@.len() == ps.len()
            &&& forall|i: int| live_p(ps, i) ==> (#[trigger] pshape_p(ps, i)).len() == osh.len()
            &&& forall|i: int, k: int|
                live_p(ps, i) && 0 <= k < osh.len() && k != d ==> #[trigger] pshape_p(ps, i)[k]
                    == osh[k]
            &&& forall|i: int| live_p(ps, i) ==> offsets@[i] + #[trigger] pshape_p(ps, i)[d as int]
                <= osh[d as int]
        },
    }
}

/// The recorded steps of a tensor, in ascending creation order.
#[derive(Clone, Debug)]
pub struct Graph {
    pub steps: Vec<Step>,
}

/// Steps sorted strictly by ascending output order.
pub open spec fn sorted_steps(ss: Seq<Step>) -> bool {
    forall|i: int, j: int| 0 <= i < j < ss.len() ==> (#[trigger] ss[i]).out.order
        < (#[trigger] ss[j]).out.order
}

/// Merge of two step lists ordered by ascending output order; a step
/// present in both (same order) is kept once, from the left list.
pub open spec fn merge_back(a: Seq<Step>, b: Seq<Step>) -> Seq<Step>
    decreases a.len() + b.len(),
{
    if a.len() == 0 {
        b
    } else if b.len() == 0 {
        a
    } else if a.last().out.order > b.last().out.order {
        merge_back(a.drop_last(), b).push(a.last())
    } else if a.last().out.order < b.last().out.order {
        merge_back(a, b.drop_last()).push(b.last())
    } else {
        merge_back(a.drop_last(), b.drop_last()).push(a.last())
    }
}

/// Every step of a merge comes from one of the two lists.
pub proof fn lemma_merge_from(a: Seq<Step>, b: Seq<Step>)
    ensures
        forall|k: int| 0 <= k < merge_back(a, b).len() ==> a.contains(
            #[trigger] merge_back(a, b)[k],
        ) || b.contains(merge_back(a, b)[k]),
    decreases a.len() + b.len(),
{
    if a.len() == 0 || b.len() == 0 {
    } else {
        if a.last().out.order > b.last().out.order {
            lemma_merge_from(a.drop_last(), b);
            assert forall|k: int| 0 <= k < merge_back(a, b).len() implies a.contains(
                #[trigger] merge_back(a, b)[k],
            ) || b.contains(merge_back(a, b)[k]) by {
                let m = merge_back(a.drop_last(), b);
                if k < m.len() {
                    if a.drop_last().contains(m[k]) {
                        let w = choose|w: int| 0 <= w < a.drop_last().len() && a.drop_last()[w]
                            == m[k];
                        assert(a[w] == m[k]);
                    }
                } else {
                    assert(merge_back(a, b)[k] == a.last());
                    assert(a[a.len() - 1] == a.last());
                }
            }
        } else if a.last().out.order < b.last().out.order {
            lemma_merge_from(a, b.drop_last());
            assert forall|k: int| 0 <= k < merge_back(a, b).len() implies a.contains(
                #[trigger] merge_back(a, b)[k],
            ) || b.contains(merge_back(a, b)[k]) by {
                let m = merge_back(a, b.drop_last());
                if k < m.len() {
                    if b.drop_last().contains(m[k]) {
                        let w = choose|w: int| 0 <= w < b.drop_last().len() && b.drop_last()[w]
                            == m[k];
                        assert(b[w] == m[k]);
                    }
                } else {
                    assert(merge_back(a, b)[k] == b.last());
                    assert(b[b.len() - 1] == b.last());
                }
            }
        } else {
            lemma_merge_from(a.drop_last(), b.drop_last());
            assert forall|k: int| 0 <= k < merge_back(a, b).len() implies a.contains(
                #[trigger] merge_back(a, b)[k],
            ) || b.contains(merge_back(a, b)[k]) by {
                let m = merge_back(a.drop_last(), b.drop_last());
                if k < m.len() {
                    if a.drop_last().contains(m[k]) {
                        let w = choose|w: int| 0 <= w < a.drop_last().len() && a.drop_last()[w]
                            == m[k];
                        assert(a[w] == m[k]);
                    } else if b.drop_last().contains(m[k]) {
                        let w = choose|w: int| 0 <= w < b.drop_last().len() && b.drop_last()[w]
                            == m[k];
                        assert(b[w] == m[k]);
                    }
                } else {
                    assert(merge_back(a, b)[k] == a.last());
                    assert(a[a.len() - 1] == a.last());
                }
            }
        }
    }
}

/// The orders appearing in a merge are bounded by the largest input order.
pub proof fn lemma_merge_sorted(a: Seq<Step>, b: Seq<Step>)
    requires
        sorted_steps(a),
        sorted_steps(b),
    ensures
        sorted_steps(merge_back(a, b)),
        merge_back(a, b).len() <= a.len() + b.len(),
        forall|k: int| 0 <= k < merge_back(a, b).len() ==> (exists|i: int|
            0 <= i < a.len() && (#[trigger] merge_back(a, b)[k]).out.order == a[i].out.order)
            || (exists|i: int| 0 <= i < b.len() && merge_back(a, b)[k].out.order
            == b[i].out.order),
    decreases a.len() + b.len(),
{
    lemma_merge_from(a, b);
    if a.len() == 0 || b.len() == 0 {
    } else if a.last().out.order > b.last().out.order {
        lemma_merge_sorted(a.drop_last(), b);
        let m = merge_back(a.drop_last(), b);
        assert forall|i: int, j: int|
            0 <= i < j < merge_back(a, b).len() implies (#[trigger] merge_back(a, b)[i]).out.order
            < (#[trigger] merge_back(a, b)[j]).out.order by {
            if j == merge_back(a, b).len() - 1 {
                // every order in m is below a.last()
                let oi = m[i].out.order;
                assert(oi < a.last().out.order) by {
                    if exists|w: int| 0 <= w < a.drop_last().len() && m[i].out.order == a.drop_last()[w].out.order {
                        let w = choose|w: int|
                            0 <= w < a.drop_last().len() && m[i].out.order
                                == a.drop_last()[w].out.order;
                        assert(a[w].out.order < a.last().out.order);
                    } else {
                        let w = choose|w: int|
                            0 <= w < b.len() && m[i].out.order == b[w].out.order;
                        assert(b[w].out.order <= b.last().out.order);
                    }
                }
            }
        }
    } else if a.last().out.order < b.last().out.order {
        lemma_merge_sorted(a, b.drop_last());
        let m = merge_back(a, b.drop_last());
        assert forall|i: int, j: int|
            0 <= i < j < merge_back(a, b).len() implies (#[trigger] merge_back(a, b)[i]).out.order
            < (#[trigger] merge_back(a, b)[j]).out.order by {
            if j == merge_back(a, b).len() - 1 {
                let oi = m[i].out.order;
                assert(oi < b.last().out.order) by {
                    if exists|w: int| 0 <= w < b.drop_last().len() && m[i].out.order == b.drop_last()[w].out.order {
                        let w = choose|w: int|
                            0 <= w < b.drop_last().len() && m[i].out.order
                                == b.drop_last()[w].out.order;
                        assert(b[w].out.order < b.last().out.order);
                    } else {
                        let w = choose|w: int|
                            0 <= w < a.len() && m[i].out.order == a[w].out.order;
                        assert(a[w].out.order <= a.last().out.order);
                    }
                }
            }
        }
    } else {
        lemma_merge_sorted(a.drop_last(), b.drop_last());
        let m = merge_back(a.drop_last(), b.drop_last());
        assert forall|i: int, j: int|
            0 <= i < j < merge_back(a, b).len() implies (#[trigger] merge_back(a, b)[i]).out.order
            < (#[trigger] merge_back(a, b)[j]).out.order by {
            if j == merge_back(a, b).len() - 1 {
                let oi = m[i].out.order;
                assert(oi < a.last().out.order) by {
                    if exists|w: int| 0 <= w < a.drop_last().len() && m[i].out.order == a.drop_last()[w].out.order {
                        let w = choose|w: int|
                            0 <= w < a.drop_last().len() && m[i].out.order
                                == a.drop_last()[w].out.order;
                        assert(a[w].out.order < a.last().out.order);
                    } else {
                        let w = choose|w: int|
                            0 <= w < b.drop_last().len() && m[i].out.order
                                == b.drop_last()[w].out.order;
                        assert(b[w].out.order < b.last().out.order);
                    }
                }
            }
        }
    }
}

/// The step values behind a reference-counted step list.
pub open spec fn steps_view(v: Seq<Rc<Step>>) -> Seq<Step> {
    Seq::new(v.len(), |i: int| *v[i])
}

/// Merge two step lists ordered by ascending output order, without
/// duplicating a step present in both; sharing is by reference count.
pub fn merge_steps(a: &Vec<Rc<Step>>, b: &Vec<Rc<Step>>) -> (r: Vec<Rc<Step>>)
    ensures
        steps_view(r@) == merge_back(steps_view(a@), steps_view(b@)),
{
    let ghost va = steps_view(a@);
    let ghost vb = steps_view(b@);
    let mut ia: usize = a.len();
    let mut ib: usize = b.len();
    let mut rev: Vec<Rc<Step>> = Vec::new();
    proof {
        assert(va.take(ia as int) =~= va);
        assert(vb.take(ib as int) =~= vb);
        assert(merge_back(va.take(ia as int), vb.take(ib as int)) + steps_view(rev@).reverse()
            =~= merge_back(va, vb));
    }
    while ia > 0 || ib > 0
        invariant
            0 <= ia <= va.len(),
            0 <= ib <= vb.len(),
            va == steps_view(a@),
            vb == steps_view(b@),
            va.len() == a@.len(),
            vb.len() == b@.len(),
            merge_back(va, vb) == merge_back(va.take(ia as int), vb.take(ib as int)) + steps_view(
                rev@,
            ).reverse(),
        decreases ia + ib,
    {
        let ghost prev_rev = steps_view(rev@);
        if ia == 0 {
            let s = Rc::clone(&b[ib - 1]);
            proof {
                assert(vb.take(ib as int).drop_last() =~= vb.take(ib as int - 1));
                assert(vb.take(ib as int).last() == *s);
                assert(va.take(0) =~= Seq::<Step>::empty());
                assert(merge_back(va.take(0), vb.take(ib as int)) == vb.take(ib as int));
                assert(merge_back(va.take(0), vb.take(ib as int - 1)) == vb.take(ib as int - 1));
            }
            let ghost prev_rc = rev@;
            rev.push(s);
            ib -= 1;
            proof {
                assert(rev@.drop_last() =~= prev_rc);
                lemma_steps_view_push(rev@, prev_rev);
                lemma_rc_reverse_push(prev_rev, steps_view(rev@));
                lemma_rc_push_assoc(
                    merge_back(va.take(ia as int), vb.take(ib as int)),
                    steps_view(rev@)[steps_view(rev@).len() - 1],
                    prev_rev.reverse(),
                );
                assert(merge_back(va, vb) =~= merge_back(va.take(ia as int), vb.take(ib as int))
                    + steps_view(rev@).reverse());
            }
        } else if ib == 0 {
            let s = Rc::clone(&a[ia - 1]);
            proof {
                assert(va.take(ia as int).drop_last() =~= va.take(ia as int - 1));
                assert(va.take(ia as int).last() == *s);
                assert(vb.take(0) =~= Seq::<Step>::empty());
                assert(merge_back(va.take(ia as int), vb.take(0)) == va.take(ia as int));
                assert(merge_back(va.take(ia as int - 1), vb.take(0)) == va.take(ia as int - 1));
            }
            let ghost prev_rc = rev@;
            rev.push(s);
            ia -= 1;
            proof {
                assert(rev@.drop_last() =~= prev_rc);
                lemma_steps_view_push(rev@, prev_rev);
                lemma_rc_reverse_push(prev_rev, steps_view(rev@));
                lemma_rc_push_assoc(
                    merge_back(va.take(ia as int), vb.take(ib as int)),
                    steps_view(rev@)[steps_view(rev@).len() - 1],
                    prev_rev.reverse(),
                );
                assert(merge_back(va, vb) =~= merge_back(va.take(ia as int), vb.take(ib as int))
                    + steps_view(rev@).reverse());
            }
        } else {
            let oa = a[ia - 1].out.order;
            let ob = b[ib - 1].out.order;
            proof {
                assert(va.take(ia as int).drop_last() =~= va.take(ia as int - 1));
                assert(vb.take(ib as int).drop_last() =~= vb.take(ib as int - 1));
                assert(va.take(ia as int).last() == va[ia as int - 1]);
                assert(vb.take(ib as int).last() == vb[ib as int - 1]);
            }
            let ghost prev_rc = rev@;
            if oa > ob {
                let s = Rc::clone(&a[ia - 1]);
                rev.push(s);
                ia -= 1;
            } else if oa < ob {
                let s = Rc::clone(&b[ib - 1]);
                rev.push(s);
                ib -= 1;
            } else {
                let s = Rc::clone(&a[ia - 1]);
                rev.push(s);
                ia -= 1;
                ib -= 1;
            }
            proof {
                assert(rev@.drop_last() =~= prev_rc);
                lemma_steps_view_push(rev@, prev_rev);
                lemma_rc_reverse_push(prev_rev, steps_view(rev@));
                lemma_rc_push_assoc(
                    merge_back(va.take(ia as int), vb.take(ib as int)),
                    steps_view(rev@)[steps_view(rev@).len() - 1],
                    prev_rev.reverse(),
                );
                assert(merge_back(va, vb) =~= merge_back(va.take(ia as int), vb.take(ib as int))
                    + steps_view(rev@).reverse());
            }
        }
    }
    // un-reverse the collected steps: popping walks them in ascending order
    let mut r: Vec<Rc<Step>> = Vec::new();
    let mut rev = rev;
    proof {
        assert(va.take(0) =~= Seq::<Step>::empty());
        assert(vb.take(0) =~= Seq::<Step>::empty());
        assert(Seq::<Step>::empty() + steps_view(rev@).reverse() =~= steps_view(rev@).reverse());
        assert(steps_view(r@) + steps_view(rev@).reverse() =~= steps_view(rev@).reverse());
    }
    while rev.len() > 0
        invariant
            merge_back(va, vb) == steps_view(r@) + steps_view(rev@).reverse(),
        decreases rev@.len(),
    {
        let ghost r_old = steps_view(r@);
        let ghost rev_old = steps_view(rev@);
        let s = rev.pop().unwrap();
        let ghost sv = rev_old.last();
        proof {
            assert(steps_view(rev@) =~= rev_old.drop_last());
            assert(rev_old =~= rev_old.drop_last().push(sv));
            lemma_rc_reverse_push(rev_old.drop_last(), rev_old);
        }
        r.push(s);
        proof {
            assert(steps_view(r@) =~= r_old.push(sv));
            lemma_rc_push_assoc(r_old, sv, steps_view(rev@).reverse());
            assert(rev_old.reverse() =~= seq![sv] + steps_view(rev@).reverse());
        }
    }
    proof {
        assert(steps_view(rev@).reverse() =~= Seq::<Step>::empty());
        assert(steps_view(r@) + Seq::<Step>::empty() =~= steps_view(r@));
    }
    r
}

/// Pushing a reference-counted step appends its value to the view.
proof fn lemma_steps_view_push(now: Seq<Rc<Step>>, prev: Seq<Step>)
    requires
        now.len() >= 1,
        steps_view(now.drop_last()) == prev,
    ensures
        steps_view(now) =~= prev.push(*now.last()),
{
    assert forall|i: int| 0 <= i < now.len() - 1 implies steps_view(now)[i] == prev[i] by {
        assert(steps_view(now.drop_last())[i] == *now.drop_last()[i]);
    }
}

/// Pushing onto a sequence prepends to its reverse.
proof fn lemma_rc_reverse_push(prev: Seq<Step>, now: Seq<Step>)
    requires
        now == prev.push(now.last()),
        now.len() == prev.len() + 1,
    ensures
        now.reverse() =~= seq![now.last()] + prev.reverse(),
{
}

/// Associativity of appending one pushed element.
proof fn lemma_rc_push_assoc(x: Seq<Step>, s: Step, y: Seq<Step>)
    ensures
        x.push(s) + y =~= x + (seq![s] + y),
{
}

} // verus!
