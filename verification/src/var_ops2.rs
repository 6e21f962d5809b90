//! The autodiff operations with operation-specific state: matrix product,
//! shape movements, reductions, indexing, masking, concatenation and
//! pooling.

use std::rc::Rc;

use vstd::prelude::*;

use crate::graph::{
    join_req, merge_back, merge_steps, step_shapes_ok, steps_view, PRef, Requirement, Step,
    StepKind,
};
use crate::engine::{tv_matmul, tv_swap};
use crate::shape::prod;
use crate::tensor::copy_shape;
use crate::tensor_coords::swap2;
use crate::tensor_dim::slice_sum;
use crate::var::{extends, make_leaf, make_tracked, Session, Var};
use crate::var_ops::{op_out_common, pref_of, slot_for};

verus! {

/// Batched matrix product; each operand is captured only if the other side
/// is tracked.
pub fn ad_matmul(ctx: &mut Session, lhs: Var, rhs: Var) -> (out: Var)
    requires
        old(ctx).inv(),
        old(ctx).next < u64::MAX,
        lhs.wf(*old(ctx)),
        rhs.wf(*old(ctx)),
        lhs.prim@.shape.len() >= 2,
        rhs.prim@.shape.len() == lhs.prim@.shape.len(),
        lhs.prim@.shape.take(lhs.prim@.shape.len() - 2) == rhs.prim@.shape.take(
            lhs.prim@.shape.len() - 2,
        ),
        lhs.prim@.shape[lhs.prim@.shape.len() - 1] == rhs.prim@.shape[lhs.prim@.shape.len() - 2],
        prod(
            lhs.prim@.shape.update(
                lhs.prim@.shape.len() - 1,
                rhs.prim@.shape[lhs.prim@.shape.len() - 1],
            ),
        ) <= usize::MAX,
    ensures
        final(ctx).inv(),
        extends(*old(ctx), *final(ctx)),
        op_out_common(out, *old(ctx), *final(ctx)),
        out.prim@ == tv_matmul(lhs.prim@, rhs.prim@),
        out.node.req == join_req(lhs.node.req, rhs.node.req),
        out.node.parents@ == seq![lhs.node.id, rhs.node.id],
        !(lhs.tracked_spec() || rhs.tracked_spec()) ==> out.gsteps() == Seq::<Step>::empty(),
        (lhs.tracked_spec() || rhs.tracked_spec()) ==> {
            &&& out.gsteps().drop_last() == merge_back(lhs.gsteps(), rhs.gsteps())
            &&& out.gsteps().last().parents@.len() == 2
            &&& slot_for(out.gsteps().last().parents@[0], lhs)
            &&& slot_for(out.gsteps().last().parents@[1], rhs)
            &&& out.gsteps().last().kind matches StepKind::MatmulK { lhs: cl, rhs: cr } && ((
            cl is Some) == rhs.tracked_spec()) && ((cr is Some) == lhs.tracked_spec()) && (
            rhs.tracked_spec() ==> cl.unwrap()@ == lhs.prim@) && (lhs.tracked_spec()
                ==> cr.unwrap()@ == rhs.prim@)
        },
{
    let lhs_tracked = lhs.is_tracked();
    let rhs_tracked = rhs.is_tracked();
    let prim = lhs.prim.matmul(&rhs.prim);
    proof {
        assert(prim@ =~= tv_matmul(lhs.prim@, rhs.prim@));
    }
    let mut parent_ids: Vec<u64> = Vec::new();
    parent_ids.push(lhs.node.id);
    parent_ids.push(rhs.node.id);
    if !lhs_tracked && !rhs_tracked {
        let v = make_leaf(ctx, prim, Requirement::NoGrad, parent_ids);
        proof {
            assert(v.node.parents@ =~= seq![lhs.node.id, rhs.node.id]);
        }
        return v;
    }
    let kind = StepKind::MatmulK {
        lhs: if rhs_tracked {
            Some(lhs.prim.dup())
        } else {
            None
        },
        rhs: if lhs_tracked {
            Some(rhs.prim.dup())
        } else {
            None
        },
    };
    let mut prefs: Vec<Option<PRef>> = Vec::new();
    prefs.push(pref_of(&lhs));
    prefs.push(pref_of(&rhs));
    let merged = merge_steps(&lhs.graph, &rhs.graph);
    proof {
        crate::var::lemma_merge_ok_vars(&lhs, &rhs, *ctx);
        let rank = lhs.prim@.shape.len() as int;
        let osh = prim@.shape;
        assert(osh.take(rank - 2) =~= lhs.prim@.shape.take(rank - 2));
        if lhs_tracked {
            assert forall|j: int| 0 <= j < rank - 2 implies rhs.prim@.shape[j] == osh[j] by {
                assert(rhs.prim@.shape.take(rank - 2)[j] == lhs.prim@.shape.take(rank - 2)[j]);
            }
            assert(osh.update(rank - 1, rhs.prim@.shape[rank - 2]) =~= lhs.prim@.shape);
        }
        if rhs_tracked {
            assert forall|j: int| 0 <= j < rank - 2 implies rhs.prim@.shape[j] == osh[j] by {
                assert(rhs.prim@.shape.take(rank - 2)[j] == lhs.prim@.shape.take(rank - 2)[j]);
            }
            assert(osh.update(rank - 2, lhs.prim@.shape[rank - 1]).update(rank - 1, osh[rank - 1])
                =~= rhs.prim@.shape);
        }
        assert(step_shapes_ok(prim@.shape, prefs@, kind));
    }
    let v = make_tracked(ctx, prim, parent_ids, prefs, merged, kind);
    proof {
        assert(v.node.parents@ =~= seq![lhs.node.id, rhs.node.id]);
    }
    v
}

/// Same contents under a new shape; the step records the original shape so
/// the gradient can be reshaped back.
pub fn ad_reshape(ctx: &mut Session, t: Var, shape: Vec<usize>) -> (out: Var)
    requires
        old(ctx).inv(),
        old(ctx).next < u64::MAX,
        t.wf(*old(ctx)),
        prod(shape@) == prod(t.prim@.shape),
    ensures
        final(ctx).inv(),
        extends(*old(ctx), *final(ctx)),
        op_out_common(out, *old(ctx), *final(ctx)),
        out.prim@.shape == shape@,
        out.prim@.data == t.prim@.data,
        out.node.req == join_req(t.node.req, Requirement::NoGrad),
        out.node.parents@ == seq![t.node.id],
        !t.tracked_spec() ==> out.gsteps() == Seq::<Step>::empty(),
        t.tracked_spec() ==> {
            &&& out.gsteps().drop_last() == t.gsteps()
            &&& out.gsteps().last().parents@.len() == 1
            &&& slot_for(out.gsteps().last().parents@[0], t)
            &&& out.gsteps().last().kind matches StepKind::ReshapeK { shape_in } && shape_in@
                == t.prim@.shape
        },
{
    let prim = t.prim.reshape(shape);
    let mut parent_ids: Vec<u64> = Vec::new();
    parent_ids.push(t.node.id);
    if !t.is_tracked() {
        let v = make_leaf(ctx, prim, Requirement::NoGrad, parent_ids);
        proof {
            assert(v.node.parents@ =~= seq![t.node.id]);
        }
        return v;
    }
    let kind = StepKind::ReshapeK { shape_in: copy_shape(&t.prim.shape) };
    let mut prefs: Vec<Option<PRef>> = Vec::new();
    prefs.push(pref_of(&t));
    let empty: Vec<Rc<Step>> = Vec::new();
    let merged = merge_steps(&t.graph, &empty);
    proof {
        crate::var::lemma_graph_ok(&t, *ctx);
        assert(steps_view(empty@) =~= Seq::<Step>::empty());
        assert(merge_back(t.gsteps(), Seq::<Step>::empty()) == t.gsteps());
        assert(step_shapes_ok(prim@.shape, prefs@, kind));
    }
    let v = make_tracked(ctx, prim, parent_ids, prefs, merged, kind);
    proof {
        assert(v.node.parents@ =~= seq![t.node.id]);
    }
    v
}

/// Exchange two dimensions; the gradient swaps them back.
pub fn ad_swap_dims(ctx: &mut Session, t: Var, d1: usize, d2: usize) -> (out: Var)
    requires
        old(ctx).inv(),
        old(ctx).next < u64::MAX,
        t.wf(*old(ctx)),
        d1 < t.prim@.shape.len(),
        d2 < t.prim@.shape.len(),
    ensures
        final(ctx).inv(),
        extends(*old(ctx), *final(ctx)),
        op_out_common(out, *old(ctx), *final(ctx)),
        out.prim@ == tv_swap(t.prim@, d1 as int, d2 as int),
        out.node.req == join_req(t.node.req, Requirement::NoGrad),
        out.node.parents@ == seq![t.node.id],
        !t.tracked_spec() ==> out.gsteps() == Seq::<Step>::empty(),
        t.tracked_spec() ==> {
            &&& out.gsteps().drop_last() == t.gsteps()
            &&& out.gsteps().last().parents@.len() == 1
            &&& slot_for(out.gsteps().last().parents@[0], t)
            &&& out.gsteps().last().kind == (StepKind::SwapDimsK { d1, d2 })
        },
{
    let prim = t.prim.swap_dims(d1, d2);
    proof {
        assert(prim@ =~= tv_swap(t.prim@, d1 as int, d2 as int));
        crate::tensor_coords::lemma_prod_swap(t.prim@.shape, d1 as int, d2 as int);
    }
    let mut parent_ids: Vec<u64> = Vec::new();
    parent_ids.push(t.node.id);
    if !t.is_tracked() {
        let v = make_leaf(ctx, prim, Requirement::NoGrad, parent_ids);
        proof {
            assert(v.node.parents@ =~= seq![t.node.id]);
        }
        return v;
    }
    let kind = StepKind::SwapDimsK { d1, d2 };
    let mut prefs: Vec<Option<PRef>> = Vec::new();
    prefs.push(pref_of(&t));
    let empty: Vec<Rc<Step>> = Vec::new();
    let merged = merge_steps(&t.graph, &empty);
    proof {
        crate::var::lemma_graph_ok(&t, *ctx);
        assert(steps_view(empty@) =~= Seq::<Step>::empty());
        assert(merge_back(t.gsteps(), Seq::<Step>::empty()) == t.gsteps());
        assert(swap2(prim@.shape, d1 as int, d2 as int) =~= t.prim@.shape);
        assert(step_shapes_ok(prim@.shape, prefs@, kind));
    }
    let v = make_tracked(ctx, prim, parent_ids, prefs, merged, kind);
    proof {
        assert(v.node.parents@ =~= seq![t.node.id]);
    }
    v
}

/// Sum of every element; the gradient broadcasts back over the input
/// shape.
pub fn ad_sum(ctx: &mut Session, t: Var) -> (out: Var)
    requires
        old(ctx).inv(),
        old(ctx).next < u64::MAX,
        t.wf(*old(ctx)),
    ensures
        final(ctx).inv(),
        extends(*old(ctx), *final(ctx)),
        op_out_common(out, *old(ctx), *final(ctx)),
        out.prim@.shape == seq![1usize],
        out.prim@.data == seq![crate::tensor::sum_data(t.prim@.data)],
        out.node.req == join_req(t.node.req, Requirement::NoGrad),
        out.node.parents@ == seq![t.node.id],
        !t.tracked_spec() ==> out.gsteps() == Seq::<Step>::empty(),
        t.tracked_spec() ==> {
            &&& out.gsteps().drop_last() == t.gsteps()
            &&& out.gsteps().last().parents@.len() == 1
            &&& slot_for(out.gsteps().last().parents@[0], t)
            &&& out.gsteps().last().kind matches StepKind::SumK { shape } && shape@
                == t.prim@.shape
        },
{
    let prim = t.prim.sum();
    let mut parent_ids: Vec<u64> = Vec::new();
    parent_ids.push(t.node.id);
    if !t.is_tracked() {
        let v = make_leaf(ctx, prim, Requirement::NoGrad, parent_ids);
        proof {
            assert(v.node.parents@ =~= seq![t.node.id]);
        }
        return v;
    }
    let kind = StepKind::SumK { shape: copy_shape(&t.prim.shape) };
    let mut prefs: Vec<Option<PRef>> = Vec::new();
    prefs.push(pref_of(&t));
    let empty: Vec<Rc<Step>> = Vec::new();
    let merged = merge_steps(&t.graph, &empty);
    proof {
        crate::var::lemma_graph_ok(&t, *ctx);
        assert(steps_view(empty@) =~= Seq::<Step>::empty());
        assert(merge_back(t.gsteps(), Seq::<Step>::empty()) == t.gsteps());
        assert(seq![1usize].drop_last() =~= Seq::<usize>::empty());
        assert(prod(Seq::<usize>::empty()) == 1);
        assert(prod(seq![1usize]) == prod(seq![1usize].drop_last()) * (seq![1usize].last()
            as int));
        assert(step_shapes_ok(prim@.shape, prefs@, kind));
    }
    let v = make_tracked(ctx, prim, parent_ids, prefs, merged, kind);
    proof {
        assert(v.node.parents@ =~= seq![t.node.id]);
    }
    v
}

/// Mean of every element; the gradient broadcasts back scaled by the
/// reciprocal of the element count.
pub fn ad_mean(ctx: &mut Session, t: Var) -> (out: Var)
    requires
        old(ctx).inv(),
        old(ctx).next < u64::MAX,
        t.wf(*old(ctx)),
        t.prim@.data.len() <= i64::MAX,
    ensures
        final(ctx).inv(),
        extends(*old(ctx), *final(ctx)),
        op_out_common(out, *old(ctx), *final(ctx)),
        out.prim@.shape == seq![1usize],
        out.prim@.data == seq![
            crate::fixed::fx_div_int(
                crate::tensor::sum_data(t.prim@.data),
                t.prim@.data.len() as i64,
            ),
        ],
        out.node.req == join_req(t.node.req, Requirement::NoGrad),
        out.node.parents@ == seq![t.node.id],
        !t.tracked_spec() ==> out.gsteps() == Seq::<Step>::empty(),
        t.tracked_spec() ==> {
            &&& out.gsteps().drop_last() == t.gsteps()
            &&& out.gsteps().last().parents@.len() == 1
            &&& slot_for(out.gsteps().last().parents@[0], t)
            &&& out.gsteps().last().kind matches StepKind::MeanK { shape } && shape@
                == t.prim@.shape
        },
{
    let prim = t.prim.mean();
    let mut parent_ids: Vec<u64> = Vec::new();
    parent_ids.push(t.node.id);
    if !t.is_tracked() {
        let v = make_leaf(ctx, prim, Requirement::NoGrad, parent_ids);
        proof {
            assert(v.node.parents@ =~= seq![t.node.id]);
        }
        return v;
    }
    let kind = StepKind::MeanK { shape: copy_shape(&t.prim.shape) };
    let mut prefs: Vec<Option<PRef>> = Vec::new();
    prefs.push(pref_of(&t));
    let empty: Vec<Rc<Step>> = Vec::new();
    let merged = merge_steps(&t.graph, &empty);
    proof {
        crate::var::lemma_graph_ok(&t, *ctx);
        assert(steps_view(empty@) =~= Seq::<Step>::empty());
        assert(merge_back(t.gsteps(), Seq::<Step>::empty()) == t.gsteps());
        assert(seq![1usize].drop_last() =~= Seq::<usize>::empty());
        assert(prod(Seq::<usize>::empty()) == 1);
        assert(prod(seq![1usize]) == prod(seq![1usize].drop_last()) * (seq![1usize].last()
            as int));
        assert(step_shapes_ok(prim@.shape, prefs@, kind));
    }
    let v = make_tracked(ctx, prim, parent_ids, prefs, merged, kind);
    proof {
        assert(v.node.parents@ =~= seq![t.node.id]);
    }
    v
}

/// Sum along one dimension; the gradient broadcasts back along it.
pub fn ad_sum_dim(ctx: &mut Session, t: Var, d: usize) -> (out: Var)
    requires
        old(ctx).inv(),
        old(ctx).next < u64::MAX,
        t.wf(*old(ctx)),
        d < t.prim@.shape.len(),
        prod(t.prim@.shape.update(d as int, 1usize)) <= usize::MAX,
    ensures
        final(ctx).inv(),
        extends(*old(ctx), *final(ctx)),
        op_out_common(out, *old(ctx), *final(ctx)),
        out.prim@.shape == t.prim@.shape.update(d as int, 1usize),
        forall|p: int| 0 <= p < out.prim@.data.len() ==> out.prim@.data[p] == slice_sum(
            t.prim@.data,
            t.prim@.shape[d as int] as int,
            prod(t.prim@.shape.skip(d as int + 1)),
            p / prod(t.prim@.shape.skip(d as int + 1)),
            p % prod(t.prim@.shape.skip(d as int + 1)),
            t.prim@.shape[d as int] as int,
        ),
        out.node.req == join_req(t.node.req, Requirement::NoGrad),
        out.node.parents@ == seq![t.node.id],
        !t.tracked_spec() ==> out.gsteps() == Seq::<Step>::empty(),
        t.tracked_spec() ==> {
            &&& out.gsteps().drop_last() == t.gsteps()
            &&& out.gsteps().last().parents@.len() == 1
            &&& slot_for(out.gsteps().last().parents@[0], t)
            &&& out.gsteps().last().kind matches StepKind::SumDimK { shape, d: dd } && shape@
                == t.prim@.shape && dd == d
        },
{
    let prim = t.prim.sum_dim(d);
    let mut parent_ids: Vec<u64> = Vec::new();
    parent_ids.push(t.node.id);
    if !t.is_tracked() {
        let v = make_leaf(ctx, prim, Requirement::NoGrad, parent_ids);
        proof {
            assert(v.node.parents@ =~= seq![t.node.id]);
        }
        return v;
    }
    let kind = StepKind::SumDimK { shape: copy_shape(&t.prim.shape), d };
    let mut prefs: Vec<Option<PRef>> = Vec::new();
    prefs.push(pref_of(&t));
    let empty: Vec<Rc<Step>> = Vec::new();
    let merged = merge_steps(&t.graph, &empty);
    proof {
        crate::var::lemma_graph_ok(&t, *ctx);
        assert(steps_view(empty@) =~= Seq::<Step>::empty());
        assert(merge_back(t.gsteps(), Seq::<Step>::empty()) == t.gsteps());
        assert(step_shapes_ok(prim@.shape, prefs@, kind));
    }
    let v = make_tracked(ctx, prim, parent_ids, prefs, merged, kind);
    proof {
        assert(v.node.parents@ =~= seq![t.node.id]);
    }
    v
}

/// Mean along one dimension; the gradient broadcasts back scaled by the
/// reciprocal of that extent.
pub fn ad_mean_dim(ctx: &mut Session, t: Var, d: usize) -> (out: Var)
    requires
        old(ctx).inv(),
        old(ctx).next < u64::MAX,
        t.wf(*old(ctx)),
        d < t.prim@.shape.len(),
        prod(t.prim@.shape.update(d as int, 1usize)) <= usize::MAX,
        t.prim@.shape[d as int] <= i64::MAX,
    ensures
        final(ctx).inv(),
        extends(*old(ctx), *final(ctx)),
        op_out_common(out, *old(ctx), *final(ctx)),
        out.prim@.shape == t.prim@.shape.update(d as int, 1usize),
        forall|p: int| 0 <= p < out.prim@.data.len() ==> out.prim@.data[p]
            == crate::fixed::fx_div_int(
            slice_sum(
                t.prim@.data,
                t.prim@.shape[d as int] as int,
                prod(t.prim@.shape.skip(d as int + 1)),
                p / prod(t.prim@.shape.skip(d as int + 1)),
                p % prod(t.prim@.shape.skip(d as int + 1)),
                t.prim@.shape[d as int] as int,
            ),
            t.prim@.shape[d as int] as i64,
        ),
        out.node.req == join_req(t.node.req, Requirement::NoGrad),
        out.node.parents@ == seq![t.node.id],
        !t.tracked_spec() ==> out.gsteps() == Seq::<Step>::empty(),
        t.tracked_spec() ==> {
            &&& out.gsteps().drop_last() == t.gsteps()
            &&& out.gsteps().last().parents@.len() == 1
            &&& slot_for(out.gsteps().last().parents@[0], t)
            &&& out.gsteps().last().kind matches StepKind::MeanDimK { shape, d: dd } && shape@
                == t.prim@.shape && dd == d
        },
{
    let prim = t.prim.mean_dim(d);
    let mut parent_ids: Vec<u64> = Vec::new();
    parent_ids.push(t.node.id);
    if !t.is_tracked() {
        let v = make_leaf(ctx, prim, Requirement::NoGrad, parent_ids);
        proof {
            assert(v.node.parents@ =~= seq![t.node.id]);
        }
        return v;
    }
    let kind = StepKind::MeanDimK { shape: copy_shape(&t.prim.shape), d };
    let mut prefs: Vec<Option<PRef>> = Vec::new();
    prefs.push(pref_of(&t));
    let empty: Vec<Rc<Step>> = Vec::new();
    let merged = merge_steps(&t.graph, &empty);
    proof {
        crate::var::lemma_graph_ok(&t, *ctx);
        assert(steps_view(empty@) =~= Seq::<Step>::empty());
        assert(merge_back(t.gsteps(), Seq::<Step>::empty()) == t.gsteps());
        assert(step_shapes_ok(prim@.shape, prefs@, kind));
    }
    let v = make_tracked(ctx, prim, parent_ids, prefs, merged, kind);
    proof {
        assert(v.node.parents@ =~= seq![t.node.id]);
    }
    v
}

} // verus!
