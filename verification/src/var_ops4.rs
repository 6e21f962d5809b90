//! Concatenation of tracked tensors, the tracked constructors, and the
//! pass-through operations that produce no gradient.

use std::rc::Rc;

use vstd::prelude::*;

use crate::graph::{
    live_p, merge_back, merge_steps, pshape_p, sorted_steps, step_shapes_ok, steps_view, PRef, Requirement,
    Step, StepKind,
};
use crate::shape::prod;
use crate::tensor::{tv_ones, tv_zeros, BoolTensor, IntTensor, Tensor, TView};
use crate::tensor_linalg::{cat_views, dim_sum, lemma_dim_sum_prefix_le, lemma_dim_sum_nonneg};
use crate::var::{extends, make_leaf, make_tracked, Session, Var};
use crate::var_ops::{op_out_common, pref_of, slot_for};

verus! {

/// The tensor views of a list of tracked tensors.
pub open spec fn prim_views(parts: Seq<Var>) -> Seq<TView> {
    parts.map_values(|v: Var| v.prim@)
}

/// Whether any of the tensors is tracked.
pub open spec fn any_tracked(parts: Seq<Var>) -> bool {
    exists|i: int| 0 <= i < parts.len() && (#[trigger] parts[i]).tracked_spec()
}

/// The ordered merge of the first `n` parts' recorded steps, folded left to
/// right: the step container of a concatenation output before its own step
/// is appended.
pub open spec fn cat_merged(parts: Seq<Var>, n: int) -> Seq<Step>
    decreases n,
{
    if n <= 0 {
        Seq::empty()
    } else {
        merge_back(cat_merged(parts, n - 1), parts[n - 1].gsteps())
    }
}

/// Concatenate tracked tensors along one dimension. The step records, for
/// every parent position, its offset along that dimension; parents that
/// need no gradient are pruned from the recorded slots.
pub fn ad_cat(ctx: &mut Session, parts: &Vec<Var>, d: usize) -> (out: Var)
    requires
        old(ctx).inv(),
        old(ctx).next < u64::MAX,
        parts@.len() >= 1,
        forall|i: int| 0 <= i < parts@.len() ==> (#[trigger] parts@[i]).wf(*old(ctx)),
        d < parts@[0].prim@.shape.len(),
        forall|i: int| 0 <= i < parts@.len() ==> (#[trigger] parts@[i]).prim@.shape.len()
            == parts@[0].prim@.shape.len(),
        forall|i: int, k: int|
            0 <= i < parts@.len() && 0 <= k < parts@[0].prim@.shape.len() && k != d
                ==> #[trigger] parts@[i].prim@.shape[k] == parts@[0].prim@.shape[k],
        dim_sum(prim_views(parts@), d as int) <= usize::MAX,
        prod(
            parts@[0].prim@.shape.update(
                d as int,
                dim_sum(prim_views(parts@), d as int) as usize,
            ),
        ) <= usize::MAX,
    ensures
        final(ctx).inv(),
        extends(*old(ctx), *final(ctx)),
        op_out_common(out, *old(ctx), *final(ctx)),
        out.prim@ == cat_views(prim_views(parts@), d as int),
        out.node.parents@.len() == parts@.len(),
        forall|i: int| 0 <= i < parts@.len() ==> out.node.parents@[i] == (
        #[trigger] parts@[i]).node.id,
        out.node.req == (if any_tracked(parts@) {
            Requirement::GradInBackward
        } else {
            Requirement::NoGrad
        }),
        !any_tracked(parts@) ==> out.gsteps() == Seq::<Step>::empty(),
        any_tracked(parts@) ==> {
            &&& out.gsteps().len() == cat_merged(parts@, parts@.len() as int).len() + 1
            &&& out.gsteps().drop_last() == cat_merged(parts@, parts@.len() as int)
            &&& out.gsteps().last().out.id == out.node.id
            &&& out.gsteps().last().out.shape@ == out.prim@.shape
            &&& out.gsteps().last().parents@.len() == parts@.len()
            &&& forall|i: int| 0 <= i < parts@.len() ==> slot_for(
                out.gsteps().last().parents@[i],
                parts@[i],
            )
            &&& out.gsteps().last().kind matches StepKind::CatK { d: dd, offsets } && dd == d
                && offsets@.len() == parts@.len() && (forall|i: int|
                0 <= i < parts@.len() ==> #[trigger] offsets@[i] == dim_sum(
                    prim_views(parts@).take(i),
                    d as int,
                ))
        },
{
    let ghost vs = prim_views(parts@);
    let n = parts.len();
    // gather the primitives, the parent identities, the offsets, the parent
    // slots, and whether anything is tracked
    let mut prims: Vec<Tensor> = Vec::new();
    let mut parent_ids: Vec<u64> = Vec::new();
    let mut offsets: Vec<usize> = Vec::new();
    let mut prefs: Vec<Option<PRef>> = Vec::new();
    let mut is_any = false;
    let mut off_acc: usize = 0;
    let mut i: usize = 0;
    proof {
        assert(vs.take(0) =~= Seq::<TView>::empty());
        lemma_dim_sum_prefix_le(vs, d as int, 0);
        lemma_dim_sum_nonneg(vs, d as int);
    }
    while i < n
        invariant
            0 <= i <= n,
            n == parts@.len(),
            vs == prim_views(parts@),
            vs.len() == n,
            old(ctx).inv(),
            forall|k: int| 0 <= k < parts@.len() ==> (#[trigger] parts@[k]).wf(*old(ctx)),
            d < parts@[0].prim@.shape.len(),
            forall|k: int| 0 <= k < parts@.len() ==> (#[trigger] parts@[k]).prim@.shape.len()
                == parts@[0].prim@.shape.len(),
            dim_sum(vs, d as int) <= usize::MAX,
            prims@.len() == i,
            forall|k: int| 0 <= k < i ==> (#[trigger] prims@[k])@ == parts@[k].prim@,
            parent_ids@.len() == i,
            forall|k: int| 0 <= k < i ==> #[trigger] parent_ids@[k] == parts@[k].node.id,
            offsets@.len() == i,
            forall|k: int| 0 <= k < i ==> #[trigger] offsets@[k] == dim_sum(
                vs.take(k),
                d as int,
            ),
            prefs@.len() == i,
            forall|k: int| 0 <= k < i ==> slot_for(#[trigger] prefs@[k], parts@[k]),
            is_any == exists|k: int| 0 <= k < i && (#[trigger] parts@[k]).tracked_spec(),
            off_acc == dim_sum(vs.take(i as int), d as int),
        decreases n - i,
    {
        let p = &parts[i];
        prims.push(p.prim.dup());
        parent_ids.push(p.node.id);
        offsets.push(off_acc);
        prefs.push(pref_of(p));
        if p.is_tracked() {
            is_any = true;
        }
        proof {
            assert(vs.take(i as int + 1).drop_last() =~= vs.take(i as int));
            assert(vs.take(i as int + 1).last() == vs[i as int]);
            lemma_dim_sum_prefix_le(vs, d as int, i as int + 1);
            assert(vs[i as int].shape[d as int] == parts@[i as int].prim@.shape[d as int]);
        }
        let dext = p.prim.shape[d];
        off_acc = off_acc + dext;
        i += 1;
    }
    proof {
        assert(prims@.map_values(|t: Tensor| t@) =~= vs);
        assert forall|k: int| 0 <= k < prims@.len() implies (#[trigger] prims@[k]).wf() by {
            assert(prims@[k]@ == parts@[k].prim@);
            assert(parts@[k].wf(*old(ctx)));
        }
        assert forall|k: int| 0 <= k < prims@.len() implies (#[trigger] prims@[k])@.shape.len()
            == prims@[0]@.shape.len() by {
            assert(prims@[k]@ == parts@[k].prim@);
        }
        assert forall|k: int, k2: int|
            0 <= k < prims@.len() && 0 <= k2 < prims@[0]@.shape.len() && k2 != d
                implies #[trigger] prims@[k]@.shape[k2] == prims@[0]@.shape[k2] by {
            assert(prims@[k]@ == parts@[k].prim@);
            assert(parts@[k].prim@.shape[k2] == parts@[0].prim@.shape[k2]);
        }
    }
    let prim = crate::tensor_linalg::cat(&prims, d);
    proof {
        assert(prim@ == cat_views(vs, d as int));
    }
    let n_out = prim.len();
    if !is_any {
        let v = make_leaf(ctx, prim, Requirement::NoGrad, parent_ids);
        return v;
    }
    let kind = StepKind::CatK { d, offsets };
    // merge every part's step list
    let mut merged: Vec<Rc<Step>> = Vec::new();
    let mut j: usize = 0;
    proof {
        assert(steps_view(merged@) =~= Seq::<Step>::empty());
    }
    while j < n
        invariant
            0 <= j <= n,
            n == parts@.len(),
            ctx.inv(),
            ctx == old(ctx),
            forall|k: int| 0 <= k < parts@.len() ==> (#[trigger] parts@[k]).wf(*old(ctx)),
            steps_view(merged@) == cat_merged(parts@, j as int),
            sorted_steps(steps_view(merged@)),
            forall|k: int| 0 <= k < merged@.len() ==> ctx.steps@.contains_key(
                (#[trigger] steps_view(merged@)[k]).out.id,
            ) && ctx.steps@[steps_view(merged@)[k].out.id] == steps_view(merged@)[k],
            forall|k: int| 0 <= k < merged@.len() ==> (#[trigger] steps_view(
                merged@,
            )[k]).out.order < ctx.next,
        decreases n - j,
    {
        let part_graph = &parts[j].graph;
        let next_merged = merge_steps(&merged, part_graph);
        proof {
            crate::var::lemma_graph_ok(&parts[j as int], *ctx);
            crate::var::lemma_merge_lists_ok(
                steps_view(merged@),
                parts@[j as int].gsteps(),
                *ctx,
                ctx.next,
            );
        }
        merged = next_merged;
        j += 1;
    }
    proof {
        let osh = prim@.shape;
        assert(osh == parts@[0].prim@.shape.update(d as int, dim_sum(vs, d as int) as usize)) by {
            lemma_cat_shape(vs, d as int);
        }
        assert forall|k: int| live_p(prefs@, k) implies offsets@[k]
            + #[trigger] pshape_p(prefs@, k)[d as int] <= osh[d as int] by {
            assert(slot_for(prefs@[k], parts@[k]));
            assert(vs.take(k + 1).drop_last() =~= vs.take(k));
            assert(vs.take(k + 1).last() == vs[k]);
            lemma_dim_sum_prefix_le(vs, d as int, k + 1);
            lemma_dim_sum_nonneg(vs.take(k), d as int);
        }
        assert forall|k: int| live_p(prefs@, k) implies prod(
            #[trigger] pshape_p(prefs@, k),
        ) <= usize::MAX by {
            assert(slot_for(prefs@[k], parts@[k]));
            assert(parts@[k].wf(*old(ctx)));
        }
        assert(step_shapes_ok(prim@.shape, prefs@, kind));
    }
    let v = make_tracked(ctx, prim, parent_ids, prefs, merged, kind);
    v
}

/// The shape of a concatenation: the shared shape with the summed extent
/// at the concatenated dimension.
proof fn lemma_cat_shape(vs: Seq<TView>, d: int)
    requires
        vs.len() >= 1,
        0 <= d < vs[0].shape.len(),
        forall|i: int| 0 <= i < vs.len() ==> (#[trigger] vs[i]).shape.len() == vs[0].shape.len(),
        forall|i: int, k: int|
            0 <= i < vs.len() && 0 <= k < vs[0].shape.len() && k != d ==> #[trigger] vs[i].shape[k]
                == vs[0].shape[k],
        dim_sum(vs, d) <= usize::MAX,
    ensures
        cat_views(vs, d).shape == vs[0].shape.update(d, dim_sum(vs, d) as usize),
    decreases vs.len(),
{
    if vs.len() == 1 {
        assert(dim_sum(vs.drop_last(), d) == 0) by {
            assert(vs.drop_last() =~= Seq::<TView>::empty());
        }
        assert(cat_views(vs, d).shape =~= vs[0].shape.update(d, dim_sum(vs, d) as usize));
    } else {
        lemma_dim_sum_nonneg(vs.drop_last(), d);
        lemma_dim_sum_prefix_le(vs, d, vs.len() - 1);
        assert(vs.take(vs.len() - 1) =~= vs.drop_last());
        lemma_cat_shape(vs.drop_last(), d);
        assert(vs.drop_last()[0] == vs[0]);
        let inner = cat_views(vs.drop_last(), d);
        assert(cat_views(vs, d).shape =~= vs[0].shape.update(d, dim_sum(vs, d) as usize));
    }
}

/// Build a tracked tensor from raw values and a shape.
pub fn ad_from_data(ctx: &mut Session, data: Vec<i64>, shape: Vec<usize>) -> (v: Var)
    requires
        old(ctx).inv(),
        old(ctx).next < u64::MAX,
        data@.len() == prod(shape@),
    ensures
        final(ctx).inv(),
        extends(*old(ctx), *final(ctx)),
        v.wf(*final(ctx)),
        v.prim@.shape == shape@,
        v.prim@.data == data@,
        v.node.req == Requirement::NoGrad,
        v.node.id == old(ctx).next,
        final(ctx).next == old(ctx).next + 1,
        v.gsteps() == Seq::<Step>::empty(),
{
    let prim = Tensor::from_data(data, shape);
    let total = prim.len();
    Var::from_inner(ctx, prim)
}

/// A tracked tensor of zeros.
pub fn ad_zeros(ctx: &mut Session, shape: Vec<usize>) -> (v: Var)
    requires
        old(ctx).inv(),
        old(ctx).next < u64::MAX,
        prod(shape@) <= usize::MAX,
    ensures
        final(ctx).inv(),
        extends(*old(ctx), *final(ctx)),
        v.wf(*final(ctx)),
        v.prim@ == tv_zeros(shape@),
        v.node.req == Requirement::NoGrad,
        v.node.id == old(ctx).next,
        final(ctx).next == old(ctx).next + 1,
        v.gsteps() == Seq::<Step>::empty(),
{
    Var::from_inner(ctx, Tensor::zeros(shape))
}

/// A tracked tensor of ones.
pub fn ad_ones(ctx: &mut Session, shape: Vec<usize>) -> (v: Var)
    requires
        old(ctx).inv(),
        old(ctx).next < u64::MAX,
        prod(shape@) <= usize::MAX,
    ensures
        final(ctx).inv(),
        extends(*old(ctx), *final(ctx)),
        v.wf(*final(ctx)),
        v.prim@ == tv_ones(shape@),
        v.node.req == Requirement::NoGrad,
        v.node.id == old(ctx).next,
        final(ctx).next == old(ctx).next + 1,
        v.gsteps() == Seq::<Step>::empty(),
{
    Var::from_inner(ctx, Tensor::ones(shape))
}

/// An uninitialized tracked tensor: zeros, as on the reference CPU backend.
pub fn ad_empty(ctx: &mut Session, shape: Vec<usize>) -> (v: Var)
    requires
        old(ctx).inv(),
        old(ctx).next < u64::MAX,
        prod(shape@) <= usize::MAX,
    ensures
        final(ctx).inv(),
        extends(*old(ctx), *final(ctx)),
        v.wf(*final(ctx)),
        v.prim@ == tv_zeros(shape@),
        v.node.req == Requirement::NoGrad,
        v.node.id == old(ctx).next,
        final(ctx).next == old(ctx).next + 1,
        v.gsteps() == Seq::<Step>::empty(),
{
    Var::from_inner(ctx, Tensor::empty(shape))
}

impl Var {
    /// The shape of the wrapped primitive.
    pub fn dims(&self) -> (r: Vec<usize>)
        ensures
            r@ == self.prim@.shape,
    {
        self.prim.dims()
    }

    /// The values of the wrapped primitive.
    pub fn to_data(&self) -> (r: Vec<i64>)
        ensures
            r@ == self.prim@.data,
    {
        self.prim.to_data()
    }

    /// The values of the wrapped primitive, consuming the tensor.
    pub fn into_data(self) -> (r: Vec<i64>)
        ensures
            r@ == self.prim@.data,
    {
        self.prim.to_data()
    }
}

/// Elementwise comparisons and the argument reductions produce no gradient:
/// they read the primitives and return plain boolean or integer tensors.
pub fn ad_equal(lhs: &Var, rhs: &Var) -> (r: BoolTensor)
    requires
        lhs.prim.wf(),
        rhs.prim.wf(),
        lhs.prim@.shape == rhs.prim@.shape,
    ensures
        r.wf(),
        r@.shape == lhs.prim@.shape,
        r@.data.len() == lhs.prim@.data.len(),
        forall|i: int| 0 <= i < r@.data.len() ==> r@.data[i] == (lhs.prim@.data[i]
            == rhs.prim@.data[i]),
{
    lhs.prim.equal(&rhs.prim)
}

pub fn ad_equal_elem(lhs: &Var, s: i64) -> (r: BoolTensor)
    requires
        lhs.prim.wf(),
    ensures
        r.wf(),
        r@.shape == lhs.prim@.shape,
        r@.data.len() == lhs.prim@.data.len(),
        forall|i: int| 0 <= i < r@.data.len() ==> r@.data[i] == (lhs.prim@.data[i] == s),
{
    lhs.prim.equal_elem(s)
}

pub fn ad_greater(lhs: &Var, rhs: &Var) -> (r: BoolTensor)
    requires
        lhs.prim.wf(),
        rhs.prim.wf(),
        lhs.prim@.shape == rhs.prim@.shape,
    ensures
        r.wf(),
        r@.shape == lhs.prim@.shape,
        r@.data.len() == lhs.prim@.data.len(),
        forall|i: int| 0 <= i < r@.data.len() ==> r@.data[i] == (lhs.prim@.data[i]
            > rhs.prim@.data[i]),
{
    lhs.prim.greater(&rhs.prim)
}

pub fn ad_greater_elem(lhs: &Var, s: i64) -> (r: BoolTensor)
    requires
        lhs.prim.wf(),
    ensures
        r.wf(),
        r@.shape == lhs.prim@.shape,
        r@.data.len() == lhs.prim@.data.len(),
        forall|i: int| 0 <= i < r@.data.len() ==> r@.data[i] == (lhs.prim@.data[i] > s),
{
    lhs.prim.greater_elem(s)
}

pub fn ad_greater_equal(lhs: &Var, rhs: &Var) -> (r: BoolTensor)
    requires
        lhs.prim.wf(),
        rhs.prim.wf(),
        lhs.prim@.shape == rhs.prim@.shape,
    ensures
        r.wf(),
        r@.shape == lhs.prim@.shape,
        r@.data.len() == lhs.prim@.data.len(),
        forall|i: int| 0 <= i < r@.data.len() ==> r@.data[i] == (lhs.prim@.data[i]
            >= rhs.prim@.data[i]),
{
    lhs.prim.greater_equal(&rhs.prim)
}

pub fn ad_greater_equal_elem(lhs: &Var, s: i64) -> (r: BoolTensor)
    requires
        lhs.prim.wf(),
    ensures
        r.wf(),
        r@.shape == lhs.prim@.shape,
        r@.data.len() == lhs.prim@.data.len(),
        forall|i: int| 0 <= i < r@.data.len() ==> r@.data[i] == (lhs.prim@.data[i] >= s),
{
    lhs.prim.greater_equal_elem(s)
}

pub fn ad_lower(lhs: &Var, rhs: &Var) -> (r: BoolTensor)
    requires
        lhs.prim.wf(),
        rhs.prim.wf(),
        lhs.prim@.shape == rhs.prim@.shape,
    ensures
        r.wf(),
        r@.shape == lhs.prim@.shape,
        r@.data.len() == lhs.prim@.data.len(),
        forall|i: int| 0 <= i < r@.data.len() ==> r@.data[i] == (lhs.prim@.data[i]
            < rhs.prim@.data[i]),
{
    lhs.prim.lower(&rhs.prim)
}

pub fn ad_lower_elem(lhs: &Var, s: i64) -> (r: BoolTensor)
    requires
        lhs.prim.wf(),
    ensures
        r.wf(),
        r@.shape == lhs.prim@.shape,
        r@.data.len() == lhs.prim@.data.len(),
        forall|i: int| 0 <= i < r@.data.len() ==> r@.data[i] == (lhs.prim@.data[i] < s),
{
    lhs.prim.lower_elem(s)
}

pub fn ad_lower_equal(lhs: &Var, rhs: &Var) -> (r: BoolTensor)
    requires
        lhs.prim.wf(),
        rhs.prim.wf(),
        lhs.prim@.shape == rhs.prim@.shape,
    ensures
        r.wf(),
        r@.shape == lhs.prim@.shape,
        r@.data.len() == lhs.prim@.data.len(),
        forall|i: int| 0 <= i < r@.data.len() ==> r@.data[i] == (lhs.prim@.data[i]
            <= rhs.prim@.data[i]),
{
    lhs.prim.lower_equal(&rhs.prim)
}

pub fn ad_lower_equal_elem(lhs: &Var, s: i64) -> (r: BoolTensor)
    requires
        lhs.prim.wf(),
    ensures
        r.wf(),
        r@.shape == lhs.prim@.shape,
        r@.data.len() == lhs.prim@.data.len(),
        forall|i: int| 0 <= i < r@.data.len() ==> r@.data[i] == (lhs.prim@.data[i] <= s),
{
    lhs.prim.lower_equal_elem(s)
}

pub fn ad_argmax(t: &Var, d: usize) -> (r: IntTensor)
    requires
        t.prim.wf(),
        d < t.prim@.shape.len(),
        t.prim@.shape[d as int] >= 1,
        t.prim@.shape[d as int] <= i64::MAX,
        prod(t.prim@.shape.update(d as int, 1usize)) <= usize::MAX,
    ensures
        r.wf(),
        r@.shape == t.prim@.shape.update(d as int, 1usize),
{
    t.prim.argmax(d)
}

pub fn ad_argmin(t: &Var, d: usize) -> (r: IntTensor)
    requires
        t.prim.wf(),
        d < t.prim@.shape.len(),
        t.prim@.shape[d as int] >= 1,
        t.prim@.shape[d as int] <= i64::MAX,
        prod(t.prim@.shape.update(d as int, 1usize)) <= usize::MAX,
    ensures
        r.wf(),
        r@.shape == t.prim@.shape.update(d as int, 1usize),
{
    t.prim.argmin(d)
}

} // verus!
