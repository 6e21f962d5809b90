//! The autodiff indexing, masking, concatenation and pooling operations,
//! and the one primitive whose adjoint is deliberately not implemented.

use std::rc::Rc;

use vstd::prelude::*;

use crate::graph::{
    join_req, merge_back, merge_steps, step_shapes_ok, steps_view, PRef, Requirement, Step,
    StepKind,
};
use crate::pool::pool_out_len;
use crate::shape::prod;
use crate::tensor::{copy_shape, BoolTensor, IntTensor, Tensor};
use crate::tensor_coords::{in_box, shift_down, shift_up, slice_shape, unflat};
use crate::tensor_dim::{at3_a, at3_b, at3_j, idx3, scatter_at, scatter_dim_at};
use crate::var::{extends, make_leaf, make_tracked, Session, Var};
use crate::var_ops::{op_out_common, pref_of, slot_for};

verus! {

/// The error of an autodiff operation whose adjoint does not exist.
#[derive(Clone, Copy, PartialEq, Eq, Structural, Debug)]
pub enum AdError {
    NotImplemented,
}

/// The elementwise maximum has no recorded adjoint: it is surfaced as not
/// implemented rather than silently degraded to a pass-through.
pub fn ad_maximum(lhs: &Var, rhs: &Var) -> (r: Result<Var, AdError>)
    ensures
        r == Result::<Var, AdError>::Err(AdError::NotImplemented),
{
    Err(AdError::NotImplemented)
}

/// Flat gather; the step captures the index tensor and the input shape so
/// the gradient can be scatter-added back.
pub fn ad_index_select(ctx: &mut Session, t: Var, idx: IntTensor) -> (out: Var)
    requires
        old(ctx).inv(),
        old(ctx).next < u64::MAX,
        t.wf(*old(ctx)),
        idx.wf(),
        forall|p: int| 0 <= p < idx@.data.len() ==> 0 <= #[trigger] idx@.data[p]
            < t.prim@.data.len(),
    ensures
        final(ctx).inv(),
        extends(*old(ctx), *final(ctx)),
        op_out_common(out, *old(ctx), *final(ctx)),
        out.prim@.shape == idx@.shape,
        out.prim@.data.len() == idx@.data.len(),
        forall|p: int| 0 <= p < out.prim@.data.len() ==> out.prim@.data[p]
            == t.prim@.data[idx@.data[p] as int],
        out.node.req == join_req(t.node.req, Requirement::NoGrad),
        out.node.parents@ == seq![t.node.id],
        !t.tracked_spec() ==> out.gsteps() == Seq::<Step>::empty(),
        t.tracked_spec() ==> {
            &&& out.gsteps().drop_last() == t.gsteps()
            &&& out.gsteps().last().parents@.len() == 1
            &&& slot_for(out.gsteps().last().parents@[0], t)
            &&& out.gsteps().last().kind matches StepKind::IndexSelectK { idx: ci, shape } && ci@
                == idx@ && shape@ == t.prim@.shape
        },
{
    let prim = t.prim.index_select(&idx);
    let total = t.prim.len();
    let n_out = prim.len();
    let mut parent_ids: Vec<u64> = Vec::new();
    parent_ids.push(t.node.id);
    if !t.is_tracked() {
        let v = make_leaf(ctx, prim, Requirement::NoGrad, parent_ids);
        proof {
            assert(v.node.parents@ =~= seq![t.node.id]);
        }
        return v;
    }
    let kind = StepKind::IndexSelectK { idx: idx.dup(), shape: copy_shape(&t.prim.shape) };
    let mut prefs: Vec<Option<PRef>> = Vec::new();
    prefs.push(pref_of(&t));
    let empty: Vec<Rc<Step>> = Vec::new();
    let merged = merge_steps(&t.graph, &empty);
    proof {
        crate::var::lemma_graph_ok(&t, *ctx);
        assert(steps_view(empty@) =~= Seq::<Step>::empty());
        assert(merge_back(t.gsteps(), Seq::<Step>::empty()) == t.gsteps());
        assert(step_shapes_ok(prim@.shape, prefs@, kind));
    }
    let v = make_tracked(ctx, prim, parent_ids, prefs, merged, kind);
    proof {
        assert(v.node.parents@ =~= seq![t.node.id]);
    }
    v
}

/// Flat scatter-add of a value tensor; the step captures the index tensor
/// and both shapes.
pub fn ad_index_select_assign(ctx: &mut Session, t: Var, idx: IntTensor, value: Var) -> (out: Var)
    requires
        old(ctx).inv(),
        old(ctx).next < u64::MAX,
        t.wf(*old(ctx)),
        value.wf(*old(ctx)),
        idx.wf(),
        idx@.shape == value.prim@.shape,
        forall|p: int| 0 <= p < idx@.data.len() ==> 0 <= #[trigger] idx@.data[p]
            < t.prim@.data.len(),
    ensures
        final(ctx).inv(),
        extends(*old(ctx), *final(ctx)),
        op_out_common(out, *old(ctx), *final(ctx)),
        out.prim@.shape == t.prim@.shape,
        out.prim@.data.len() == t.prim@.data.len(),
        forall|q: int| 0 <= q < out.prim@.data.len() ==> out.prim@.data[q] == scatter_at(
            t.prim@.data,
            idx@.data,
            value.prim@.data,
            q,
            idx@.data.len() as int,
        ),
        out.node.req == join_req(t.node.req, value.node.req),
        out.node.parents@ == seq![t.node.id, value.node.id],
        !(t.tracked_spec() || value.tracked_spec()) ==> out.gsteps() == Seq::<Step>::empty(),
        (t.tracked_spec() || value.tracked_spec()) ==> {
            &&& out.gsteps().drop_last() == merge_back(t.gsteps(), value.gsteps())
            &&& out.gsteps().last().parents@.len() == 2
            &&& slot_for(out.gsteps().last().parents@[0], t)
            &&& slot_for(out.gsteps().last().parents@[1], value)
            &&& out.gsteps().last().kind matches StepKind::IndexSelectAssignK {
                idx: ci,
                shape_lhs,
                shape_rhs,
            } && ci@ == idx@ && shape_lhs@ == t.prim@.shape && shape_rhs@ == value.prim@.shape
        },
{
    let prim = t.prim.index_select_assign(&idx, &value.prim);
    let total = t.prim.len();
    let vtotal = value.prim.len();
    let mut parent_ids: Vec<u64> = Vec::new();
    parent_ids.push(t.node.id);
    parent_ids.push(value.node.id);
    if !t.is_tracked() && !value.is_tracked() {
        let v = make_leaf(ctx, prim, Requirement::NoGrad, parent_ids);
        proof {
            assert(v.node.parents@ =~= seq![t.node.id, value.node.id]);
        }
        return v;
    }
    let kind = StepKind::IndexSelectAssignK {
        idx: idx.dup(),
        shape_lhs: copy_shape(&t.prim.shape),
        shape_rhs: copy_shape(&value.prim.shape),
    };
    let mut prefs: Vec<Option<PRef>> = Vec::new();
    prefs.push(pref_of(&t));
    prefs.push(pref_of(&value));
    let merged = merge_steps(&t.graph, &value.graph);
    proof {
        crate::var::lemma_merge_ok_vars(&t, &value, *ctx);
        assert(step_shapes_ok(prim@.shape, prefs@, kind));
    }
    let v = make_tracked(ctx, prim, parent_ids, prefs, merged, kind);
    proof {
        assert(v.node.parents@ =~= seq![t.node.id, value.node.id]);
    }
    v
}

/// Gather along one dimension; the step captures the index tensor, the
/// dimension and the input shape.
pub fn ad_index_select_dim(ctx: &mut Session, t: Var, d: usize, idx: IntTensor) -> (out: Var)
    requires
        old(ctx).inv(),
        old(ctx).next < u64::MAX,
        t.wf(*old(ctx)),
        d < t.prim@.shape.len(),
        idx.wf(),
        idx@.shape.len() == 1,
        forall|p: int| 0 <= p < idx@.data.len() ==> 0 <= #[trigger] idx@.data[p]
            < t.prim@.shape[d as int],
        prod(t.prim@.shape.update(d as int, idx@.data.len() as usize)) <= usize::MAX,
    ensures
        final(ctx).inv(),
        extends(*old(ctx), *final(ctx)),
        op_out_common(out, *old(ctx), *final(ctx)),
        out.prim@.shape == t.prim@.shape.update(d as int, idx@.data.len() as usize),
        forall|q: int| 0 <= q < out.prim@.data.len() ==> out.prim@.data[q] == t.prim@.data[idx3(
            at3_a(q, idx@.data.len() as int, prod(t.prim@.shape.skip(d as int + 1))),
            idx@.data[at3_j(
                q,
                idx@.data.len() as int,
                prod(t.prim@.shape.skip(d as int + 1)),
            )] as int,
            at3_b(q, prod(t.prim@.shape.skip(d as int + 1))),
            t.prim@.shape[d as int] as int,
            prod(t.prim@.shape.skip(d as int + 1)),
        )],
        out.node.req == join_req(t.node.req, Requirement::NoGrad),
        out.node.parents@ == seq![t.node.id],
        !t.tracked_spec() ==> out.gsteps() == Seq::<Step>::empty(),
        t.tracked_spec() ==> {
            &&& out.gsteps().drop_last() == t.gsteps()
            &&& out.gsteps().last().parents@.len() == 1
            &&& slot_for(out.gsteps().last().parents@[0], t)
            &&& out.gsteps().last().kind matches StepKind::IndexSelectDimK {
                d: dd,
                idx: ci,
                shape,
            } && dd == d && ci@ == idx@ && shape@ == t.prim@.shape
        },
{
    let prim = t.prim.index_select_dim(d, &idx);
    let mut parent_ids: Vec<u64> = Vec::new();
    parent_ids.push(t.node.id);
    if !t.is_tracked() {
        let v = make_leaf(ctx, prim, Requirement::NoGrad, parent_ids);
        proof {
            assert(v.node.parents@ =~= seq![t.node.id]);
        }
        return v;
    }
    let kind = StepKind::IndexSelectDimK {
        d,
        idx: idx.dup(),
        shape: copy_shape(&t.prim.shape),
    };
    let mut prefs: Vec<Option<PRef>> = Vec::new();
    prefs.push(pref_of(&t));
    let empty: Vec<Rc<Step>> = Vec::new();
    let merged = merge_steps(&t.graph, &empty);
    proof {
        crate::var::lemma_graph_ok(&t, *ctx);
        assert(steps_view(empty@) =~= Seq::<Step>::empty());
        assert(merge_back(t.gsteps(), Seq::<Step>::empty()) == t.gsteps());
        assert(step_shapes_ok(prim@.shape, prefs@, kind));
    }
    let v = make_tracked(ctx, prim, parent_ids, prefs, merged, kind);
    proof {
        assert(v.node.parents@ =~= seq![t.node.id]);
    }
    v
}

/// Scatter-add a value tensor along one dimension; the step captures the
/// index tensor, the dimension and both shapes.
pub fn ad_index_select_dim_assign(
    ctx: &mut Session,
    t: Var,
    d: usize,
    idx: IntTensor,
    value: Var,
) -> (out: Var)
    requires
        old(ctx).inv(),
        old(ctx).next < u64::MAX,
        t.wf(*old(ctx)),
        value.wf(*old(ctx)),
        d < t.prim@.shape.len(),
        idx.wf(),
        idx@.shape.len() == 1,
        value.prim@.shape == t.prim@.shape.update(d as int, idx@.data.len() as usize),
        forall|p: int| 0 <= p < idx@.data.len() ==> 0 <= #[trigger] idx@.data[p]
            < t.prim@.shape[d as int],
    ensures
        final(ctx).inv(),
        extends(*old(ctx), *final(ctx)),
        op_out_common(out, *old(ctx), *final(ctx)),
        out.prim@.shape == t.prim@.shape,
        out.prim@.data.len() == t.prim@.data.len(),
        forall|q: int| 0 <= q < out.prim@.data.len() ==> out.prim@.data[q] == scatter_dim_at(
            t.prim@.data,
            value.prim@.data,
            idx@.data,
            t.prim@.shape[d as int] as int,
            idx@.data.len() as int,
            prod(t.prim@.shape.skip(d as int + 1)),
            q,
            idx@.data.len() as int,
        ),
        out.node.req == join_req(t.node.req, value.node.req),
        out.node.parents@ == seq![t.node.id, value.node.id],
        !(t.tracked_spec() || value.tracked_spec()) ==> out.gsteps() == Seq::<Step>::empty(),
        (t.tracked_spec() || value.tracked_spec()) ==> {
            &&& out.gsteps().drop_last() == merge_back(t.gsteps(), value.gsteps())
            &&& out.gsteps().last().parents@.len() == 2
            &&& slot_for(out.gsteps().last().parents@[0], t)
            &&& slot_for(out.gsteps().last().parents@[1], value)
            &&& out.gsteps().last().kind matches StepKind::IndexSelectDimAssignK {
                d: dd,
                idx: ci,
                shape_lhs,
                shape_rhs,
            } && dd == d && ci@ == idx@ && shape_lhs@ == t.prim@.shape && shape_rhs@
                == value.prim@.shape
        },
{
    let prim = t.prim.index_select_dim_assign(d, &idx, &value.prim);
    let vtotal = value.prim.len();
    let mut parent_ids: Vec<u64> = Vec::new();
    parent_ids.push(t.node.id);
    parent_ids.push(value.node.id);
    if !t.is_tracked() && !value.is_tracked() {
        let v = make_leaf(ctx, prim, Requirement::NoGrad, parent_ids);
        proof {
            assert(v.node.parents@ =~= seq![t.node.id, value.node.id]);
        }
        return v;
    }
    let kind = StepKind::IndexSelectDimAssignK {
        d,
        idx: idx.dup(),
        shape_lhs: copy_shape(&t.prim.shape),
        shape_rhs: copy_shape(&value.prim.shape),
    };
    let mut prefs: Vec<Option<PRef>> = Vec::new();
    prefs.push(pref_of(&t));
    prefs.push(pref_of(&value));
    let merged = merge_steps(&t.graph, &value.graph);
    proof {
        crate::var::lemma_merge_ok_vars(&t, &value, *ctx);
        assert(step_shapes_ok(prim@.shape, prefs@, kind));
    }
    let v = make_tracked(ctx, prim, parent_ids, prefs, merged, kind);
    proof {
        assert(v.node.parents@ =~= seq![t.node.id, value.node.id]);
    }
    v
}

/// Slice by ranges; the step records the ranges and the input shape so the
/// gradient can be written back into zeros.
pub fn ad_index(ctx: &mut Session, t: Var, ranges: Vec<(usize, usize)>) -> (out: Var)
    requires
        old(ctx).inv(),
        old(ctx).next < u64::MAX,
        t.wf(*old(ctx)),
        ranges@.len() <= t.prim@.shape.len(),
        forall|i: int| 0 <= i < ranges@.len() ==> #[trigger] ranges@[i].0 <= ranges@[i].1
            && ranges@[i].1 <= t.prim@.shape[i],
    ensures
        final(ctx).inv(),
        extends(*old(ctx), *final(ctx)),
        op_out_common(out, *old(ctx), *final(ctx)),
        out.prim@.shape == slice_shape(t.prim@.shape, ranges@),
        forall|q: int| 0 <= q < out.prim@.data.len() ==> out.prim@.data[q]
            == t.prim@.data[crate::tensor_coords::flat(
            t.prim@.shape,
            shift_up(unflat(slice_shape(t.prim@.shape, ranges@), q), ranges@),
        )],
        out.node.req == join_req(t.node.req, Requirement::NoGrad),
        out.node.parents@ == seq![t.node.id],
        !t.tracked_spec() ==> out.gsteps() == Seq::<Step>::empty(),
        t.tracked_spec() ==> {
            &&& out.gsteps().drop_last() == t.gsteps()
            &&& out.gsteps().last().parents@.len() == 1
            &&& slot_for(out.gsteps().last().parents@[0], t)
            &&& out.gsteps().last().kind matches StepKind::IndexK { ranges: cr, shape } && cr@
                == ranges@ && shape@ == t.prim@.shape
        },
{
    let prim = t.prim.index(&ranges);
    let n_out = prim.len();
    let mut parent_ids: Vec<u64> = Vec::new();
    parent_ids.push(t.node.id);
    if !t.is_tracked() {
        let v = make_leaf(ctx, prim, Requirement::NoGrad, parent_ids);
        proof {
            assert(v.node.parents@ =~= seq![t.node.id]);
        }
        return v;
    }
    let kind = StepKind::IndexK { ranges, shape: copy_shape(&t.prim.shape) };
    let mut prefs: Vec<Option<PRef>> = Vec::new();
    prefs.push(pref_of(&t));
    let empty: Vec<Rc<Step>> = Vec::new();
    let merged = merge_steps(&t.graph, &empty);
    proof {
        crate::var::lemma_graph_ok(&t, *ctx);
        assert(steps_view(empty@) =~= Seq::<Step>::empty());
        assert(merge_back(t.gsteps(), Seq::<Step>::empty()) == t.gsteps());
        assert(step_shapes_ok(prim@.shape, prefs@, kind));
    }
    let v = make_tracked(ctx, prim, parent_ids, prefs, merged, kind);
    proof {
        assert(v.node.parents@ =~= seq![t.node.id]);
    }
    v
}

/// Write a value tensor into a slice; the gradient of the base has the
/// slice zeroed, the gradient of the value is the slice of the incoming
/// gradient.
pub fn ad_index_assign(ctx: &mut Session, t: Var, ranges: Vec<(usize, usize)>, value: Var) -> (out:
    Var)
    requires
        old(ctx).inv(),
        old(ctx).next < u64::MAX,
        t.wf(*old(ctx)),
        value.wf(*old(ctx)),
        ranges@.len() <= t.prim@.shape.len(),
        forall|i: int| 0 <= i < ranges@.len() ==> #[trigger] ranges@[i].0 <= ranges@[i].1
            && ranges@[i].1 <= t.prim@.shape[i],
        value.prim@.shape == slice_shape(t.prim@.shape, ranges@),
    ensures
        final(ctx).inv(),
        extends(*old(ctx), *final(ctx)),
        op_out_common(out, *old(ctx), *final(ctx)),
        out.prim@.shape == t.prim@.shape,
        out.prim@.data.len() == t.prim@.data.len(),
        forall|q: int| 0 <= q < out.prim@.data.len() ==> out.prim@.data[q] == (if in_box(
            t.prim@.shape,
            ranges@,
            q,
        ) {
            value.prim@.data[crate::tensor_coords::flat(
                slice_shape(t.prim@.shape, ranges@),
                shift_down(unflat(t.prim@.shape, q), ranges@),
            )]
        } else {
            t.prim@.data[q]
        }),
        out.node.req == join_req(t.node.req, value.node.req),
        out.node.parents@ == seq![t.node.id, value.node.id],
        !(t.tracked_spec() || value.tracked_spec()) ==> out.gsteps() == Seq::<Step>::empty(),
        (t.tracked_spec() || value.tracked_spec()) ==> {
            &&& out.gsteps().drop_last() == merge_back(t.gsteps(), value.gsteps())
            &&& out.gsteps().last().parents@.len() == 2
            &&& slot_for(out.gsteps().last().parents@[0], t)
            &&& slot_for(out.gsteps().last().parents@[1], value)
            &&& out.gsteps().last().kind matches StepKind::IndexAssignK { ranges: cr, shape_rhs }
                && cr@ == ranges@ && shape_rhs@ == value.prim@.shape
        },
{
    let prim = t.prim.index_assign(&ranges, &value.prim);
    let vtotal = value.prim.len();
    let mut parent_ids: Vec<u64> = Vec::new();
    parent_ids.push(t.node.id);
    parent_ids.push(value.node.id);
    if !t.is_tracked() && !value.is_tracked() {
        let v = make_leaf(ctx, prim, Requirement::NoGrad, parent_ids);
        proof {
            assert(v.node.parents@ =~= seq![t.node.id, value.node.id]);
        }
        return v;
    }
    let kind = StepKind::IndexAssignK { ranges, shape_rhs: copy_shape(&value.prim.shape) };
    let mut prefs: Vec<Option<PRef>> = Vec::new();
    prefs.push(pref_of(&t));
    prefs.push(pref_of(&value));
    let merged = merge_steps(&t.graph, &value.graph);
    proof {
        crate::var::lemma_merge_ok_vars(&t, &value, *ctx);
        assert(step_shapes_ok(prim@.shape, prefs@, kind));
    }
    let v = make_tracked(ctx, prim, parent_ids, prefs, merged, kind);
    proof {
        assert(v.node.parents@ =~= seq![t.node.id, value.node.id]);
    }
    v
}

/// Replace the masked elements with one value; the gradient is zeroed at
/// the masked positions.
pub fn ad_mask_fill(ctx: &mut Session, t: Var, mask: BoolTensor, value: i64) -> (out: Var)
    requires
        old(ctx).inv(),
        old(ctx).next < u64::MAX,
        t.wf(*old(ctx)),
        mask.wf(),
        mask@.shape == t.prim@.shape,
    ensures
        final(ctx).inv(),
        extends(*old(ctx), *final(ctx)),
        op_out_common(out, *old(ctx), *final(ctx)),
        out.prim@.shape == t.prim@.shape,
        out.prim@.data.len() == t.prim@.data.len(),
        forall|i: int| 0 <= i < out.prim@.data.len() ==> out.prim@.data[i] == (if mask@.data[i] {
            value
        } else {
            t.prim@.data[i]
        }),
        out.node.req == join_req(t.node.req, Requirement::NoGrad),
        out.node.parents@ == seq![t.node.id],
        !t.tracked_spec() ==> out.gsteps() == Seq::<Step>::empty(),
        t.tracked_spec() ==> {
            &&& out.gsteps().drop_last() == t.gsteps()
            &&& out.gsteps().last().parents@.len() == 1
            &&& slot_for(out.gsteps().last().parents@[0], t)
            &&& out.gsteps().last().kind matches StepKind::MaskFillK { mask: cm } && cm@ == mask@
        },
{
    let prim = t.prim.mask_fill(&mask, value);
    let mut parent_ids: Vec<u64> = Vec::new();
    parent_ids.push(t.node.id);
    if !t.is_tracked() {
        let v = make_leaf(ctx, prim, Requirement::NoGrad, parent_ids);
        proof {
            assert(v.node.parents@ =~= seq![t.node.id]);
        }
        return v;
    }
    let kind = StepKind::MaskFillK { mask: mask.dup() };
    let mut prefs: Vec<Option<PRef>> = Vec::new();
    prefs.push(pref_of(&t));
    let empty: Vec<Rc<Step>> = Vec::new();
    let merged = merge_steps(&t.graph, &empty);
    proof {
        crate::var::lemma_graph_ok(&t, *ctx);
        assert(steps_view(empty@) =~= Seq::<Step>::empty());
        assert(merge_back(t.gsteps(), Seq::<Step>::empty()) == t.gsteps());
        assert(step_shapes_ok(prim@.shape, prefs@, kind));
    }
    let v = make_tracked(ctx, prim, parent_ids, prefs, merged, kind);
    proof {
        assert(v.node.parents@ =~= seq![t.node.id]);
    }
    v
}

/// Replace the masked elements with those of a source tensor; the base's
/// gradient is zeroed there, the source's gradient keeps only those
/// positions.
pub fn ad_mask_scatter(ctx: &mut Session, t: Var, mask: BoolTensor, source: Var) -> (out: Var)
    requires
        old(ctx).inv(),
        old(ctx).next < u64::MAX,
        t.wf(*old(ctx)),
        source.wf(*old(ctx)),
        mask.wf(),
        mask@.shape == t.prim@.shape,
        source.prim@.shape == t.prim@.shape,
    ensures
        final(ctx).inv(),
        extends(*old(ctx), *final(ctx)),
        op_out_common(out, *old(ctx), *final(ctx)),
        out.prim@.shape == t.prim@.shape,
        out.prim@.data.len() == t.prim@.data.len(),
        forall|i: int| 0 <= i < out.prim@.data.len() ==> out.prim@.data[i] == (if mask@.data[i] {
            source.prim@.data[i]
        } else {
            t.prim@.data[i]
        }),
        out.node.req == join_req(t.node.req, source.node.req),
        out.node.parents@ == seq![t.node.id, source.node.id],
        !(t.tracked_spec() || source.tracked_spec()) ==> out.gsteps() == Seq::<Step>::empty(),
        (t.tracked_spec() || source.tracked_spec()) ==> {
            &&& out.gsteps().drop_last() == merge_back(t.gsteps(), source.gsteps())
            &&& out.gsteps().last().parents@.len() == 2
            &&& slot_for(out.gsteps().last().parents@[0], t)
            &&& slot_for(out.gsteps().last().parents@[1], source)
            &&& out.gsteps().last().kind matches StepKind::MaskScatterK { mask: cm } && cm@
                == mask@
        },
{
    let prim = t.prim.mask_scatter(&mask, &source.prim);
    let mut parent_ids: Vec<u64> = Vec::new();
    parent_ids.push(t.node.id);
    parent_ids.push(source.node.id);
    if !t.is_tracked() && !source.is_tracked() {
        let v = make_leaf(ctx, prim, Requirement::NoGrad, parent_ids);
        proof {
            assert(v.node.parents@ =~= seq![t.node.id, source.node.id]);
        }
        return v;
    }
    let kind = StepKind::MaskScatterK { mask: mask.dup() };
    let mut prefs: Vec<Option<PRef>> = Vec::new();
    prefs.push(pref_of(&t));
    prefs.push(pref_of(&source));
    let merged = merge_steps(&t.graph, &source.graph);
    proof {
        crate::var::lemma_merge_ok_vars(&t, &source, *ctx);
        assert(step_shapes_ok(prim@.shape, prefs@, kind));
    }
    let v = make_tracked(ctx, prim, parent_ids, prefs, merged, kind);
    proof {
        assert(v.node.parents@ =~= seq![t.node.id, source.node.id]);
    }
    v
}

/// Average pooling over the last dimension; the step records the input
/// shape and the window so the gradient can be spread back.
pub fn ad_avg_pool1d(ctx: &mut Session, t: Var, kernel: usize, stride: usize, padding: usize) -> (
    out: Var)
    requires
        old(ctx).inv(),
        old(ctx).next < u64::MAX,
        t.wf(*old(ctx)),
        t.prim@.shape.len() >= 1,
        kernel >= 1,
        stride >= 1,
        padding <= kernel,
        kernel <= i64::MAX,
        t.prim@.shape.last() + 2 * padding >= kernel,
        t.prim@.shape.last() + 2 * padding <= usize::MAX,
        prod(
            t.prim@.shape.update(
                t.prim@.shape.len() - 1,
                pool_out_len(
                    t.prim@.shape.last() as int,
                    kernel as int,
                    stride as int,
                    padding as int,
                ) as usize,
            ),
        ) <= usize::MAX,
    ensures
        final(ctx).inv(),
        extends(*old(ctx), *final(ctx)),
        op_out_common(out, *old(ctx), *final(ctx)),
        out.prim@ == crate::pool::tv_avg_pool_last(
            t.prim@,
            kernel as int,
            stride as int,
            padding as int,
        ),
        out.node.req == join_req(t.node.req, Requirement::NoGrad),
        out.node.parents@ == seq![t.node.id],
        !t.tracked_spec() ==> out.gsteps() == Seq::<Step>::empty(),
        t.tracked_spec() ==> {
            &&& out.gsteps().drop_last() == t.gsteps()
            &&& out.gsteps().last().parents@.len() == 1
            &&& slot_for(out.gsteps().last().parents@[0], t)
            &&& out.gsteps().last().kind matches StepKind::AvgPool1dK {
                shape,
                kernel: ck,
                stride: cs,
                padding: cp,
            } && shape@ == t.prim@.shape && ck == kernel && cs == stride && cp == padding
        },
{
    let prim = t.prim.avg_pool_last(kernel, stride, padding);
    proof {
        assert(prim@ =~= crate::pool::tv_avg_pool_last(
            t.prim@,
            kernel as int,
            stride as int,
            padding as int,
        ));
    }
    let mut parent_ids: Vec<u64> = Vec::new();
    parent_ids.push(t.node.id);
    if !t.is_tracked() {
        let v = make_leaf(ctx, prim, Requirement::NoGrad, parent_ids);
        proof {
            assert(v.node.parents@ =~= seq![t.node.id]);
        }
        return v;
    }
    let kind = StepKind::AvgPool1dK { shape: copy_shape(&t.prim.shape), kernel, stride, padding };
    let mut prefs: Vec<Option<PRef>> = Vec::new();
    prefs.push(pref_of(&t));
    let empty: Vec<Rc<Step>> = Vec::new();
    let merged = merge_steps(&t.graph, &empty);
    proof {
        crate::var::lemma_graph_ok(&t, *ctx);
        assert(steps_view(empty@) =~= Seq::<Step>::empty());
        assert(merge_back(t.gsteps(), Seq::<Step>::empty()) == t.gsteps());
        assert(step_shapes_ok(prim@.shape, prefs@, kind));
    }
    let v = make_tracked(ctx, prim, parent_ids, prefs, merged, kind);
    proof {
        assert(v.node.parents@ =~= seq![t.node.id]);
    }
    v
}

} // verus!
