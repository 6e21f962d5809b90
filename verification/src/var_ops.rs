//! The autodiff operations: every forward primitive re-implemented over
//! tracked tensors, with the prepare/finish protocol, the capture policy
//! and the recorded step of each.

use std::rc::Rc;

use vstd::prelude::*;

use crate::graph::{
    join_req, merge_back, merge_steps, step_shapes_ok, steps_view, PRef, Requirement, Step,
    StepKind,
};
use crate::tensor::{copy_shape, tv_bop, tv_uop, Bop, TView, Uop};
use crate::var::{extends, make_leaf, make_tracked, Session, Var};

verus! {

/// The pruned parent reference: present exactly when the parent is tracked
/// (the `clone_if_require_grad` discipline).
pub fn pref_of(v: &Var) -> (p: Option<PRef>)
    ensures
        (p is Some) == v.tracked_spec(),
        v.tracked_spec() ==> p.unwrap().id == v.node.id && p.unwrap().order == v.node.order
            && p.unwrap().shape@ == v.node.shape@,
{
    if v.is_tracked() {
        Some(PRef { id: v.node.id, order: v.node.order, shape: copy_shape(&v.node.shape) })
    } else {
        None
    }
}

/// What a recorded parent slot says about one operand.
pub open spec fn slot_for(p: Option<PRef>, v: Var) -> bool {
    &&& (p is Some) == v.tracked_spec()
    &&& (v.tracked_spec() ==> p.unwrap().id == v.node.id && p.unwrap().order == v.node.order
        && p.unwrap().shape@ == v.prim@.shape)
}

/// The unary operations that share the one-parent prepare/finish protocol.
#[derive(Clone, Copy)]
pub enum UnaryAd {
    NegOp,
    AddSOp(i64),
    SubSOp(i64),
    MulSOp(i64),
    DivSOp(i64),
    ExpOp,
    LogOp,
    Log1pOp,
    PowfOp(i64),
    SqrtOp,
    SinOp,
    CosOp,
    TanhOp,
    ErfOp,
    ReluOp,
    ToDeviceOp,
    ToFullOp,
    FromFullOp,
}

/// Forward semantics of each unary operation.
pub open spec fn un_forward(u: UnaryAd, a: TView) -> TView {
    match u {
        UnaryAd::NegOp => tv_uop(Uop::Neg, a),
        UnaryAd::AddSOp(s) => tv_uop(Uop::AddS(s), a),
        UnaryAd::SubSOp(s) => tv_uop(Uop::SubS(s), a),
        UnaryAd::MulSOp(s) => tv_uop(Uop::MulS(s), a),
        UnaryAd::DivSOp(s) => tv_uop(Uop::DivS(s), a),
        UnaryAd::ExpOp => tv_uop(Uop::Exp, a),
        UnaryAd::LogOp => tv_uop(Uop::Log, a),
        UnaryAd::Log1pOp => tv_uop(Uop::Log1p, a),
        UnaryAd::PowfOp(p) => tv_uop(Uop::Powf(p), a),
        UnaryAd::SqrtOp => tv_uop(Uop::Sqrt, a),
        UnaryAd::SinOp => tv_uop(Uop::Sin, a),
        UnaryAd::CosOp => tv_uop(Uop::Cos, a),
        UnaryAd::TanhOp => tv_uop(Uop::Tanh, a),
        UnaryAd::ErfOp => tv_uop(Uop::Erf, a),
        UnaryAd::ReluOp => tv_uop(Uop::Relu, a),
        UnaryAd::ToDeviceOp => a,
        UnaryAd::ToFullOp => a,
        UnaryAd::FromFullOp => a,
    }
}

/// The state each unary operation captures in its step: nothing for the
/// stateless ones, the scalar for scalar operations, and the input or the
/// forward output where the adjoint needs it.
pub open spec fn un_kind_spec(u: UnaryAd, inp: TView, outp: TView, kind: StepKind) -> bool {
    match u {
        UnaryAd::NegOp => kind == StepKind::NegK,
        UnaryAd::AddSOp(s) => kind == StepKind::AddScalarK,
        UnaryAd::SubSOp(s) => kind == StepKind::SubScalarK,
        UnaryAd::MulSOp(s) => kind matches StepKind::MulScalarK { s: c } && c == s,
        UnaryAd::DivSOp(s) => kind matches StepKind::DivScalarK { s: c } && c == s,
        UnaryAd::ExpOp => kind matches StepKind::ExpK { output } && output@ == outp,
        UnaryAd::LogOp => kind matches StepKind::LogK { input } && input@ == inp,
        UnaryAd::Log1pOp => kind matches StepKind::Log1pK { input } && input@ == inp,
        UnaryAd::PowfOp(p) => kind matches StepKind::PowfK { input, p: q } && input@ == inp && q
            == p,
        UnaryAd::SqrtOp => kind matches StepKind::SqrtK { output } && output@ == outp,
        UnaryAd::SinOp => kind matches StepKind::SinK { input } && input@ == inp,
        UnaryAd::CosOp => kind matches StepKind::CosK { input } && input@ == inp,
        UnaryAd::TanhOp => kind matches StepKind::TanhK { output } && output@ == outp,
        UnaryAd::ErfOp => kind matches StepKind::ErfK { input } && input@ == inp,
        UnaryAd::ReluOp => kind matches StepKind::ReluK { output } && output@ == outp,
        UnaryAd::ToDeviceOp => kind == StepKind::ToDeviceK,
        UnaryAd::ToFullOp => kind == StepKind::ToFullK,
        UnaryAd::FromFullOp => kind == StepKind::FromFullK,
    }
}

/// The common contract of a tracked or untracked operation output.
pub open spec fn op_out_common(out: Var, ctx_old: Session, ctx_new: Session) -> bool {
    &&& out.wf(ctx_new)
    &&& out.node.id == ctx_old.next
    &&& ctx_new.next == ctx_old.next + 1
}

/// Shared engine of the unary operations.
fn ad_unary(ctx: &mut Session, t: Var, u: UnaryAd) -> (out: Var)
    requires
        old(ctx).inv(),
        old(ctx).next < u64::MAX,
        t.wf(*old(ctx)),
    ensures
        final(ctx).inv(),
        extends(*old(ctx), *final(ctx)),
        op_out_common(out, *old(ctx), *final(ctx)),
        out.prim@ == un_forward(u, t.prim@),
        out.node.req == join_req(t.node.req, Requirement::NoGrad),
        out.node.parents@ == seq![t.node.id],
        !t.tracked_spec() ==> out.gsteps() == Seq::<Step>::empty(),
        t.tracked_spec() ==> {
            &&& out.gsteps().len() == t.gsteps().len() + 1
            &&& out.gsteps().drop_last() == t.gsteps()
            &&& out.gsteps().last().out.id == out.node.id
            &&& out.gsteps().last().out.shape@ == out.prim@.shape
            &&& out.gsteps().last().parents@.len() == 1
            &&& slot_for(out.gsteps().last().parents@[0], t)
            &&& un_kind_spec(u, t.prim@, out.prim@, out.gsteps().last().kind)
        },
{
    let prim = match u {
        UnaryAd::NegOp => t.prim.neg(),
        UnaryAd::AddSOp(s) => t.prim.add_scalar(s),
        UnaryAd::SubSOp(s) => t.prim.sub_scalar(s),
        UnaryAd::MulSOp(s) => t.prim.mul_scalar(s),
        UnaryAd::DivSOp(s) => t.prim.div_scalar(s),
        UnaryAd::ExpOp => t.prim.exp(),
        UnaryAd::LogOp => t.prim.log(),
        UnaryAd::Log1pOp => t.prim.log1p(),
        UnaryAd::PowfOp(p) => t.prim.powf(p),
        UnaryAd::SqrtOp => t.prim.sqrt(),
        UnaryAd::SinOp => t.prim.sin(),
        UnaryAd::CosOp => t.prim.cos(),
        UnaryAd::TanhOp => t.prim.tanh(),
        UnaryAd::ErfOp => t.prim.erf(),
        UnaryAd::ReluOp => t.prim.relu(),
        UnaryAd::ToDeviceOp => t.prim.dup(),
        UnaryAd::ToFullOp => t.prim.dup(),
        UnaryAd::FromFullOp => t.prim.dup(),
    };
    let mut parent_ids: Vec<u64> = Vec::new();
    parent_ids.push(t.node.id);
    if !t.is_tracked() {
        let v = make_leaf(ctx, prim, Requirement::NoGrad, parent_ids);
        proof {
            assert(v.node.parents@ =~= seq![t.node.id]);
        }
        return v;
    }
    let kind = match u {
        UnaryAd::NegOp => StepKind::NegK,
        UnaryAd::AddSOp(_s) => StepKind::AddScalarK,
        UnaryAd::SubSOp(_s) => StepKind::SubScalarK,
        UnaryAd::MulSOp(s) => StepKind::MulScalarK { s },
        UnaryAd::DivSOp(s) => StepKind::DivScalarK { s },
        UnaryAd::ExpOp => StepKind::ExpK { output: prim.dup() },
        UnaryAd::LogOp => StepKind::LogK { input: t.prim.dup() },
        UnaryAd::Log1pOp => StepKind::Log1pK { input: t.prim.dup() },
        UnaryAd::PowfOp(p) => StepKind::PowfK { input: t.prim.dup(), p },
        UnaryAd::SqrtOp => StepKind::SqrtK { output: prim.dup() },
        UnaryAd::SinOp => StepKind::SinK { input: t.prim.dup() },
        UnaryAd::CosOp => StepKind::CosK { input: t.prim.dup() },
        UnaryAd::TanhOp => StepKind::TanhK { output: prim.dup() },
        UnaryAd::ErfOp => StepKind::ErfK { input: t.prim.dup() },
        UnaryAd::ReluOp => StepKind::ReluK { output: prim.dup() },
        UnaryAd::ToDeviceOp => StepKind::ToDeviceK,
        UnaryAd::ToFullOp => StepKind::ToFullK,
        UnaryAd::FromFullOp => StepKind::FromFullK,
    };
    let mut prefs: Vec<Option<PRef>> = Vec::new();
    prefs.push(pref_of(&t));
    let empty: Vec<Rc<Step>> = Vec::new();
    let merged = merge_steps(&t.graph, &empty);
    proof {
        assert(steps_view(empty@) =~= Seq::<Step>::empty());
        assert(merge_back(t.gsteps(), Seq::<Step>::empty()) == t.gsteps());
        assert(step_shapes_ok(prim@.shape, prefs@, kind));
        assert(t.node.id < old(ctx).next);
    }
    let v = make_tracked(ctx, prim, parent_ids, prefs, merged, kind);
    proof {
        assert(v.node.parents@ =~= seq![t.node.id]);
        assert(join_req(t.node.req, Requirement::NoGrad) == Requirement::GradInBackward);
    }
    v
}

/// The binary elementwise operations sharing the two-parent protocol.
#[derive(Clone, Copy)]
pub enum BinAd {
    AddOp,
    SubOp,
    MulOp,
    DivOp,
}

pub open spec fn bin_forward(u: BinAd, a: TView, b: TView) -> TView {
    match u {
        BinAd::AddOp => tv_bop(Bop::Add, a, b),
        BinAd::SubOp => tv_bop(Bop::Sub, a, b),
        BinAd::MulOp => tv_bop(Bop::Mul, a, b),
        BinAd::DivOp => tv_bop(Bop::Div, a, b),
    }
}

/// Capture policy of the binary operations: `Add` and `Sub` are stateless;
/// `Mul` captures an operand only when the other side is tracked; `Div`
/// captures the divisor when either side is tracked and the dividend only
/// when the divisor side is tracked.
pub open spec fn bin_kind_spec(u: BinAd, lhs: Var, rhs: Var, kind: StepKind) -> bool {
    match u {
        BinAd::AddOp => kind == StepKind::AddK,
        BinAd::SubOp => kind == StepKind::SubK,
        BinAd::MulOp => kind matches StepKind::MulK { lhs: cl, rhs: cr } && ((cl is Some)
            == rhs.tracked_spec()) && ((cr is Some) == lhs.tracked_spec()) && (rhs.tracked_spec()
            ==> cl.unwrap()@ == lhs.prim@) && (lhs.tracked_spec() ==> cr.unwrap()@ == rhs.prim@),
        BinAd::DivOp => kind matches StepKind::DivK { lhs: cl, rhs: cr } && ((cl is Some)
            == rhs.tracked_spec()) && ((cr is Some) == (lhs.tracked_spec()
            || rhs.tracked_spec())) && (rhs.tracked_spec() ==> cl.unwrap()@ == lhs.prim@) && ((
        lhs.tracked_spec() || rhs.tracked_spec()) ==> cr.unwrap()@ == rhs.prim@),
    }
}

/// Shared engine of the binary elementwise operations.
fn ad_binary(ctx: &mut Session, lhs: Var, rhs: Var, u: BinAd) -> (out: Var)
    requires
        old(ctx).inv(),
        old(ctx).next < u64::MAX,
        lhs.wf(*old(ctx)),
        rhs.wf(*old(ctx)),
        lhs.prim@.shape == rhs.prim@.shape,
    ensures
        final(ctx).inv(),
        extends(*old(ctx), *final(ctx)),
        op_out_common(out, *old(ctx), *final(ctx)),
        out.prim@ == bin_forward(u, lhs.prim@, rhs.prim@),
        out.node.req == join_req(lhs.node.req, rhs.node.req),
        out.node.parents@ == seq![lhs.node.id, rhs.node.id],
        !(lhs.tracked_spec() || rhs.tracked_spec()) ==> out.gsteps() == Seq::<Step>::empty(),
        (lhs.tracked_spec() || rhs.tracked_spec()) ==> {
            &&& out.gsteps().drop_last() == merge_back(lhs.gsteps(), rhs.gsteps())
            &&& out.gsteps().len() == merge_back(lhs.gsteps(), rhs.gsteps()).len() + 1
            &&& out.gsteps().last().out.id == out.node.id
            &&& out.gsteps().last().out.shape@ == out.prim@.shape
            &&& out.gsteps().last().parents@.len() == 2
            &&& slot_for(out.gsteps().last().parents@[0], lhs)
            &&& slot_for(out.gsteps().last().parents@[1], rhs)
            &&& bin_kind_spec(u, lhs, rhs, out.gsteps().last().kind)
        },
{
    let lhs_tracked = lhs.is_tracked();
    let rhs_tracked = rhs.is_tracked();
    let prim = match u {
        BinAd::AddOp => lhs.prim.add(&rhs.prim),
        BinAd::SubOp => lhs.prim.sub(&rhs.prim),
        BinAd::MulOp => lhs.prim.mul(&rhs.prim),
        BinAd::DivOp => lhs.prim.div(&rhs.prim),
    };
    let mut parent_ids: Vec<u64> = Vec::new();
    parent_ids.push(lhs.node.id);
    parent_ids.push(rhs.node.id);
    if !lhs_tracked && !rhs_tracked {
        let v = make_leaf(ctx, prim, Requirement::NoGrad, parent_ids);
        proof {
            assert(v.node.parents@ =~= seq![lhs.node.id, rhs.node.id]);
        }
        return v;
    }
    let kind = match u {
        BinAd::AddOp => StepKind::AddK,
        BinAd::SubOp => StepKind::SubK,
        BinAd::MulOp => StepKind::MulK {
            lhs: if rhs_tracked {
                Some(lhs.prim.dup())
            } else {
                None
            },
            rhs: if lhs_tracked {
                Some(rhs.prim.dup())
            } else {
                None
            },
        },
        BinAd::DivOp => StepKind::DivK {
            lhs: if rhs_tracked {
                Some(lhs.prim.dup())
            } else {
                None
            },
            rhs: Some(rhs.prim.dup()),
        },
    };
    let mut prefs: Vec<Option<PRef>> = Vec::new();
    prefs.push(pref_of(&lhs));
    prefs.push(pref_of(&rhs));
    let merged = merge_steps(&lhs.graph, &rhs.graph);
    proof {
        crate::var::lemma_merge_ok_vars(&lhs, &rhs, *ctx);
        assert(step_shapes_ok(prim@.shape, prefs@, kind));
        assert(lhs.node.id < old(ctx).next);
        assert(rhs.node.id < old(ctx).next);
    }
    let v = make_tracked(ctx, prim, parent_ids, prefs, merged, kind);
    proof {
        assert(v.node.parents@ =~= seq![lhs.node.id, rhs.node.id]);
    }
    v
}

/// Elementwise sum of two tracked tensors.
pub fn ad_add(ctx: &mut Session, lhs: Var, rhs: Var) -> (out: Var)
    requires
        old(ctx).inv(),
        old(ctx).next < u64::MAX,
        lhs.wf(*old(ctx)),
        rhs.wf(*old(ctx)),
        lhs.prim@.shape == rhs.prim@.shape,
    ensures
        final(ctx).inv(),
        extends(*old(ctx), *final(ctx)),
        op_out_common(out, *old(ctx), *final(ctx)),
        out.prim@ == tv_bop(Bop::Add, lhs.prim@, rhs.prim@),
        out.node.req == join_req(lhs.node.req, rhs.node.req),
        out.node.parents@ == seq![lhs.node.id, rhs.node.id],
        !(lhs.tracked_spec() || rhs.tracked_spec()) ==> out.gsteps() == Seq::<Step>::empty(),
        (lhs.tracked_spec() || rhs.tracked_spec()) ==> {
            &&& out.gsteps().drop_last() == merge_back(lhs.gsteps(), rhs.gsteps())
            &&& out.gsteps().last().parents@.len() == 2
            &&& slot_for(out.gsteps().last().parents@[0], lhs)
            &&& slot_for(out.gsteps().last().parents@[1], rhs)
            &&& out.gsteps().last().kind == StepKind::AddK
        },
{
    ad_binary(ctx, lhs, rhs, BinAd::AddOp)
}

/// Elementwise difference of two tracked tensors.
pub fn ad_sub(ctx: &mut Session, lhs: Var, rhs: Var) -> (out: Var)
    requires
        old(ctx).inv(),
        old(ctx).next < u64::MAX,
        lhs.wf(*old(ctx)),
        rhs.wf(*old(ctx)),
        lhs.prim@.shape == rhs.prim@.shape,
    ensures
        final(ctx).inv(),
        extends(*old(ctx), *final(ctx)),
        op_out_common(out, *old(ctx), *final(ctx)),
        out.prim@ == tv_bop(Bop::Sub, lhs.prim@, rhs.prim@),
        out.node.req == join_req(lhs.node.req, rhs.node.req),
        out.node.parents@ == seq![lhs.node.id, rhs.node.id],
        !(lhs.tracked_spec() || rhs.tracked_spec()) ==> out.gsteps() == Seq::<Step>::empty(),
        (lhs.tracked_spec() || rhs.tracked_spec()) ==> {
            &&& out.gsteps().drop_last() == merge_back(lhs.gsteps(), rhs.gsteps())
            &&& out.gsteps().last().parents@.len() == 2
            &&& slot_for(out.gsteps().last().parents@[0], lhs)
            &&& slot_for(out.gsteps().last().parents@[1], rhs)
            &&& out.gsteps().last().kind == StepKind::SubK
        },
{
    ad_binary(ctx, lhs, rhs, BinAd::SubOp)
}

/// Elementwise product; each operand is captured only if the other side is
/// tracked.
pub fn ad_mul(ctx: &mut Session, lhs: Var, rhs: Var) -> (out: Var)
    requires
        old(ctx).inv(),
        old(ctx).next < u64::MAX,
        lhs.wf(*old(ctx)),
        rhs.wf(*old(ctx)),
        lhs.prim@.shape == rhs.prim@.shape,
    ensures
        final(ctx).inv(),
        extends(*old(ctx), *final(ctx)),
        op_out_common(out, *old(ctx), *final(ctx)),
        out.prim@ == tv_bop(Bop::Mul, lhs.prim@, rhs.prim@),
        out.node.req == join_req(lhs.node.req, rhs.node.req),
        out.node.parents@ == seq![lhs.node.id, rhs.node.id],
        !(lhs.tracked_spec() || rhs.tracked_spec()) ==> out.gsteps() == Seq::<Step>::empty(),
        (lhs.tracked_spec() || rhs.tracked_spec()) ==> {
            &&& out.gsteps().drop_last() == merge_back(lhs.gsteps(), rhs.gsteps())
            &&& out.gsteps().last().parents@.len() == 2
            &&& slot_for(out.gsteps().last().parents@[0], lhs)
            &&& slot_for(out.gsteps().last().parents@[1], rhs)
            &&& bin_kind_spec(BinAd::MulOp, lhs, rhs, out.gsteps().last().kind)
        },
{
    ad_binary(ctx, lhs, rhs, BinAd::MulOp)
}

/// Elementwise quotient; the divisor is captured when either side is
/// tracked, the dividend only when the divisor is tracked.
pub fn ad_div(ctx: &mut Session, lhs: Var, rhs: Var) -> (out: Var)
    requires
        old(ctx).inv(),
        old(ctx).next < u64::MAX,
        lhs.wf(*old(ctx)),
        rhs.wf(*old(ctx)),
        lhs.prim@.shape == rhs.prim@.shape,
    ensures
        final(ctx).inv(),
        extends(*old(ctx), *final(ctx)),
        op_out_common(out, *old(ctx), *final(ctx)),
        out.prim@ == tv_bop(Bop::Div, lhs.prim@, rhs.prim@),
        out.node.req == join_req(lhs.node.req, rhs.node.req),
        out.node.parents@ == seq![lhs.node.id, rhs.node.id],
        !(lhs.tracked_spec() || rhs.tracked_spec()) ==> out.gsteps() == Seq::<Step>::empty(),
        (lhs.tracked_spec() || rhs.tracked_spec()) ==> {
            &&& out.gsteps().drop_last() == merge_back(lhs.gsteps(), rhs.gsteps())
            &&& out.gsteps().last().parents@.len() == 2
            &&& slot_for(out.gsteps().last().parents@[0], lhs)
            &&& slot_for(out.gsteps().last().parents@[1], rhs)
            &&& bin_kind_spec(BinAd::DivOp, lhs, rhs, out.gsteps().last().kind)
        },
{
    ad_binary(ctx, lhs, rhs, BinAd::DivOp)
}

/// Elementwise negation.
pub fn ad_neg(ctx: &mut Session, t: Var) -> (out: Var)
    requires
        old(ctx).inv(),
        old(ctx).next < u64::MAX,
        t.wf(*old(ctx)),
    ensures
        final(ctx).inv(),
        extends(*old(ctx), *final(ctx)),
        op_out_common(out, *old(ctx), *final(ctx)),
        out.prim@ == un_forward(UnaryAd::NegOp, t.prim@),
        out.node.req == join_req(t.node.req, Requirement::NoGrad),
        out.node.parents@ == seq![t.node.id],
        !t.tracked_spec() ==> out.gsteps() == Seq::<Step>::empty(),
        t.tracked_spec() ==> {
            &&& out.gsteps().drop_last() == t.gsteps()
            &&& out.gsteps().len() == t.gsteps().len() + 1
            &&& out.gsteps().last().parents@.len() == 1
            &&& slot_for(out.gsteps().last().parents@[0], t)
            &&& un_kind_spec(UnaryAd::NegOp, t.prim@, out.prim@, out.gsteps().last().kind)
        },
{
    ad_unary(ctx, t, UnaryAd::NegOp)
}

/// Add a scalar to every element; the step is stateless.
pub fn ad_add_scalar(ctx: &mut Session, t: Var, s: i64) -> (out: Var)
    requires
        old(ctx).inv(),
        old(ctx).next < u64::MAX,
        t.wf(*old(ctx)),
    ensures
        final(ctx).inv(),
        extends(*old(ctx), *final(ctx)),
        op_out_common(out, *old(ctx), *final(ctx)),
        out.prim@ == un_forward(UnaryAd::AddSOp(s), t.prim@),
        out.node.req == join_req(t.node.req, Requirement::NoGrad),
        out.node.parents@ == seq![t.node.id],
        !t.tracked_spec() ==> out.gsteps() == Seq::<Step>::empty(),
        t.tracked_spec() ==> {
            &&& out.gsteps().drop_last() == t.gsteps()
            &&& out.gsteps().len() == t.gsteps().len() + 1
            &&& out.gsteps().last().parents@.len() == 1
            &&& slot_for(out.gsteps().last().parents@[0], t)
            &&& un_kind_spec(UnaryAd::AddSOp(s), t.prim@, out.prim@, out.gsteps().last().kind)
        },
{
    ad_unary(ctx, t, UnaryAd::AddSOp(s))
}

/// Subtract a scalar from every element; the step is stateless.
pub fn ad_sub_scalar(ctx: &mut Session, t: Var, s: i64) -> (out: Var)
    requires
        old(ctx).inv(),
        old(ctx).next < u64::MAX,
        t.wf(*old(ctx)),
    ensures
        final(ctx).inv(),
        extends(*old(ctx), *final(ctx)),
        op_out_common(out, *old(ctx), *final(ctx)),
        out.prim@ == un_forward(UnaryAd::SubSOp(s), t.prim@),
        out.node.req == join_req(t.node.req, Requirement::NoGrad),
        out.node.parents@ == seq![t.node.id],
        !t.tracked_spec() ==> out.gsteps() == Seq::<Step>::empty(),
        t.tracked_spec() ==> {
            &&& out.gsteps().drop_last() == t.gsteps()
            &&& out.gsteps().len() == t.gsteps().len() + 1
            &&& out.gsteps().last().parents@.len() == 1
            &&& slot_for(out.gsteps().last().parents@[0], t)
            &&& un_kind_spec(UnaryAd::SubSOp(s), t.prim@, out.prim@, out.gsteps().last().kind)
        },
{
    ad_unary(ctx, t, UnaryAd::SubSOp(s))
}

/// Multiply every element by a scalar; the step captures the scalar.
pub fn ad_mul_scalar(ctx: &mut Session, t: Var, s: i64) -> (out: Var)
    requires
        old(ctx).inv(),
        old(ctx).next < u64::MAX,
        t.wf(*old(ctx)),
    ensures
        final(ctx).inv(),
        extends(*old(ctx), *final(ctx)),
        op_out_common(out, *old(ctx), *final(ctx)),
        out.prim@ == un_forward(UnaryAd::MulSOp(s), t.prim@),
        out.node.req == join_req(t.node.req, Requirement::NoGrad),
        out.node.parents@ == seq![t.node.id],
        !t.tracked_spec() ==> out.gsteps() == Seq::<Step>::empty(),
        t.tracked_spec() ==> {
            &&& out.gsteps().drop_last() == t.gsteps()
            &&& out.gsteps().len() == t.gsteps().len() + 1
            &&& out.gsteps().last().parents@.len() == 1
            &&& slot_for(out.gsteps().last().parents@[0], t)
            &&& un_kind_spec(UnaryAd::MulSOp(s), t.prim@, out.prim@, out.gsteps().last().kind)
        },
{
    ad_unary(ctx, t, UnaryAd::MulSOp(s))
}

/// Divide every element by a scalar; the step captures the scalar.
pub fn ad_div_scalar(ctx: &mut Session, t: Var, s: i64) -> (out: Var)
    requires
        old(ctx).inv(),
        old(ctx).next < u64::MAX,
        t.wf(*old(ctx)),
    ensures
        final(ctx).inv(),
        extends(*old(ctx), *final(ctx)),
        op_out_common(out, *old(ctx), *final(ctx)),
        out.prim@ == un_forward(UnaryAd::DivSOp(s), t.prim@),
        out.node.req == join_req(t.node.req, Requirement::NoGrad),
        out.node.parents@ == seq![t.node.id],
        !t.tracked_spec() ==> out.gsteps() == Seq::<Step>::empty(),
        t.tracked_spec() ==> {
            &&& out.gsteps().drop_last() == t.gsteps()
            &&& out.gsteps().len() == t.gsteps().len() + 1
            &&& out.gsteps().last().parents@.len() == 1
            &&& slot_for(out.gsteps().last().parents@[0], t)
            &&& un_kind_spec(UnaryAd::DivSOp(s), t.prim@, out.prim@, out.gsteps().last().kind)
        },
{
    ad_unary(ctx, t, UnaryAd::DivSOp(s))
}

/// Elementwise exponential; the step captures the forward output.
pub fn ad_exp(ctx: &mut Session, t: Var) -> (out: Var)
    requires
        old(ctx).inv(),
        old(ctx).next < u64::MAX,
        t.wf(*old(ctx)),
    ensures
        final(ctx).inv(),
        extends(*old(ctx), *final(ctx)),
        op_out_common(out, *old(ctx), *final(ctx)),
        out.prim@ == un_forward(UnaryAd::ExpOp, t.prim@),
        out.node.req == join_req(t.node.req, Requirement::NoGrad),
        out.node.parents@ == seq![t.node.id],
        !t.tracked_spec() ==> out.gsteps() == Seq::<Step>::empty(),
        t.tracked_spec() ==> {
            &&& out.gsteps().drop_last() == t.gsteps()
            &&& out.gsteps().len() == t.gsteps().len() + 1
            &&& out.gsteps().last().parents@.len() == 1
            &&& slot_for(out.gsteps().last().parents@[0], t)
            &&& un_kind_spec(UnaryAd::ExpOp, t.prim@, out.prim@, out.gsteps().last().kind)
        },
{
    ad_unary(ctx, t, UnaryAd::ExpOp)
}

/// Elementwise logarithm; the step captures the input.
pub fn ad_log(ctx: &mut Session, t: Var) -> (out: Var)
    requires
        old(ctx).inv(),
        old(ctx).next < u64::MAX,
        t.wf(*old(ctx)),
    ensures
        final(ctx).inv(),
        extends(*old(ctx), *final(ctx)),
        op_out_common(out, *old(ctx), *final(ctx)),
        out.prim@ == un_forward(UnaryAd::LogOp, t.prim@),
        out.node.req == join_req(t.node.req, Requirement::NoGrad),
        out.node.parents@ == seq![t.node.id],
        !t.tracked_spec() ==> out.gsteps() == Seq::<Step>::empty(),
        t.tracked_spec() ==> {
            &&& out.gsteps().drop_last() == t.gsteps()
            &&& out.gsteps().len() == t.gsteps().len() + 1
            &&& out.gsteps().last().parents@.len() == 1
            &&& slot_for(out.gsteps().last().parents@[0], t)
            &&& un_kind_spec(UnaryAd::LogOp, t.prim@, out.prim@, out.gsteps().last().kind)
        },
{
    ad_unary(ctx, t, UnaryAd::LogOp)
}

/// Elementwise log(1 + x); the step captures the input.
pub fn ad_log1p(ctx: &mut Session, t: Var) -> (out: Var)
    requires
        old(ctx).inv(),
        old(ctx).next < u64::MAX,
        t.wf(*old(ctx)),
    ensures
        final(ctx).inv(),
        extends(*old(ctx), *final(ctx)),
        op_out_common(out, *old(ctx), *final(ctx)),
        out.prim@ == un_forward(UnaryAd::Log1pOp, t.prim@),
        out.node.req == join_req(t.node.req, Requirement::NoGrad),
        out.node.parents@ == seq![t.node.id],
        !t.tracked_spec() ==> out.gsteps() == Seq::<Step>::empty(),
        t.tracked_spec() ==> {
            &&& out.gsteps().drop_last() == t.gsteps()
            &&& out.gsteps().len() == t.gsteps().len() + 1
            &&& out.gsteps().last().parents@.len() == 1
            &&& slot_for(out.gsteps().last().parents@[0], t)
            &&& un_kind_spec(UnaryAd::Log1pOp, t.prim@, out.prim@, out.gsteps().last().kind)
        },
{
    ad_unary(ctx, t, UnaryAd::Log1pOp)
}

/// Elementwise power; the step captures the input and the exponent.
pub fn ad_powf(ctx: &mut Session, t: Var, p: i64) -> (out: Var)
    requires
        old(ctx).inv(),
        old(ctx).next < u64::MAX,
        t.wf(*old(ctx)),
    ensures
        final(ctx).inv(),
        extends(*old(ctx), *final(ctx)),
        op_out_common(out, *old(ctx), *final(ctx)),
        out.prim@ == un_forward(UnaryAd::PowfOp(p), t.prim@),
        out.node.req == join_req(t.node.req, Requirement::NoGrad),
        out.node.parents@ == seq![t.node.id],
        !t.tracked_spec() ==> out.gsteps() == Seq::<Step>::empty(),
        t.tracked_spec() ==> {
            &&& out.gsteps().drop_last() == t.gsteps()
            &&& out.gsteps().len() == t.gsteps().len() + 1
            &&& out.gsteps().last().parents@.len() == 1
            &&& slot_for(out.gsteps().last().parents@[0], t)
            &&& un_kind_spec(UnaryAd::PowfOp(p), t.prim@, out.prim@, out.gsteps().last().kind)
        },
{
    ad_unary(ctx, t, UnaryAd::PowfOp(p))
}

/// Elementwise square root; the step captures the forward output.
pub fn ad_sqrt(ctx: &mut Session, t: Var) -> (out: Var)
    requires
        old(ctx).inv(),
        old(ctx).next < u64::MAX,
        t.wf(*old(ctx)),
    ensures
        final(ctx).inv(),
        extends(*old(ctx), *final(ctx)),
        op_out_common(out, *old(ctx), *final(ctx)),
        out.prim@ == un_forward(UnaryAd::SqrtOp, t.prim@),
        out.node.req == join_req(t.node.req, Requirement::NoGrad),
        out.node.parents@ == seq![t.node.id],
        !t.tracked_spec() ==> out.gsteps() == Seq::<Step>::empty(),
        t.tracked_spec() ==> {
            &&& out.gsteps().drop_last() == t.gsteps()
            &&& out.gsteps().len() == t.gsteps().len() + 1
            &&& out.gsteps().last().parents@.len() == 1
            &&& slot_for(out.gsteps().last().parents@[0], t)
            &&& un_kind_spec(UnaryAd::SqrtOp, t.prim@, out.prim@, out.gsteps().last().kind)
        },
{
    ad_unary(ctx, t, UnaryAd::SqrtOp)
}

/// Elementwise sine; the step captures the input.
pub fn ad_sin(ctx: &mut Session, t: Var) -> (out: Var)
    requires
        old(ctx).inv(),
        old(ctx).next < u64::MAX,
        t.wf(*old(ctx)),
    ensures
        final(ctx).inv(),
        extends(*old(ctx), *final(ctx)),
        op_out_common(out, *old(ctx), *final(ctx)),
        out.prim@ == un_forward(UnaryAd::SinOp, t.prim@),
        out.node.req == join_req(t.node.req, Requirement::NoGrad),
        out.node.parents@ == seq![t.node.id],
        !t.tracked_spec() ==> out.gsteps() == Seq::<Step>::empty(),
        t.tracked_spec() ==> {
            &&& out.gsteps().drop_last() == t.gsteps()
            &&& out.gsteps().len() == t.gsteps().len() + 1
            &&& out.gsteps().last().parents@.len() == 1
            &&& slot_for(out.gsteps().last().parents@[0], t)
            &&& un_kind_spec(UnaryAd::SinOp, t.prim@, out.prim@, out.gsteps().last().kind)
        },
{
    ad_unary(ctx, t, UnaryAd::SinOp)
}

/// Elementwise cosine; the step captures the input.
pub fn ad_cos(ctx: &mut Session, t: Var) -> (out: Var)
    requires
        old(ctx).inv(),
        old(ctx).next < u64::MAX,
        t.wf(*old(ctx)),
    ensures
        final(ctx).inv(),
        extends(*old(ctx), *final(ctx)),
        op_out_common(out, *old(ctx), *final(ctx)),
        out.prim@ == un_forward(UnaryAd::CosOp, t.prim@),
        out.node.req == join_req(t.node.req, Requirement::NoGrad),
        out.node.parents@ == seq![t.node.id],
        !t.tracked_spec() ==> out.gsteps() == Seq::<Step>::empty(),
        t.tracked_spec() ==> {
            &&& out.gsteps().drop_last() == t.gsteps()
            &&& out.gsteps().len() == t.gsteps().len() + 1
            &&& out.gsteps().last().parents@.len() == 1
            &&& slot_for(out.gsteps().last().parents@[0], t)
            &&& un_kind_spec(UnaryAd::CosOp, t.prim@, out.prim@, out.gsteps().last().kind)
        },
{
    ad_unary(ctx, t, UnaryAd::CosOp)
}

/// Elementwise hyperbolic tangent; the step captures the forward output.
pub fn ad_tanh(ctx: &mut Session, t: Var) -> (out: Var)
    requires
        old(ctx).inv(),
        old(ctx).next < u64::MAX,
        t.wf(*old(ctx)),
    ensures
        final(ctx).inv(),
        extends(*old(ctx), *final(ctx)),
        op_out_common(out, *old(ctx), *final(ctx)),
        out.prim@ == un_forward(UnaryAd::TanhOp, t.prim@),
        out.node.req == join_req(t.node.req, Requirement::NoGrad),
        out.node.parents@ == seq![t.node.id],
        !t.tracked_spec() ==> out.gsteps() == Seq::<Step>::empty(),
        t.tracked_spec() ==> {
            &&& out.gsteps().drop_last() == t.gsteps()
            &&& out.gsteps().len() == t.gsteps().len() + 1
            &&& out.gsteps().last().parents@.len() == 1
            &&& slot_for(out.gsteps().last().parents@[0], t)
            &&& un_kind_spec(UnaryAd::TanhOp, t.prim@, out.prim@, out.gsteps().last().kind)
        },
{
    ad_unary(ctx, t, UnaryAd::TanhOp)
}

/// Elementwise error function; the step captures the input.
pub fn ad_erf(ctx: &mut Session, t: Var) -> (out: Var)
    requires
        old(ctx).inv(),
        old(ctx).next < u64::MAX,
        t.wf(*old(ctx)),
    ensures
        final(ctx).inv(),
        extends(*old(ctx), *final(ctx)),
        op_out_common(out, *old(ctx), *final(ctx)),
        out.prim@ == un_forward(UnaryAd::ErfOp, t.prim@),
        out.node.req == join_req(t.node.req, Requirement::NoGrad),
        out.node.parents@ == seq![t.node.id],
        !t.tracked_spec() ==> out.gsteps() == Seq::<Step>::empty(),
        t.tracked_spec() ==> {
            &&& out.gsteps().drop_last() == t.gsteps()
            &&& out.gsteps().len() == t.gsteps().len() + 1
            &&& out.gsteps().last().parents@.len() == 1
            &&& slot_for(out.gsteps().last().parents@[0], t)
            &&& un_kind_spec(UnaryAd::ErfOp, t.prim@, out.prim@, out.gsteps().last().kind)
        },
{
    ad_unary(ctx, t, UnaryAd::ErfOp)
}

/// Rectified linear unit; the step captures the forward output.
pub fn ad_relu(ctx: &mut Session, t: Var) -> (out: Var)
    requires
        old(ctx).inv(),
        old(ctx).next < u64::MAX,
        t.wf(*old(ctx)),
    ensures
        final(ctx).inv(),
        extends(*old(ctx), *final(ctx)),
        op_out_common(out, *old(ctx), *final(ctx)),
        out.prim@ == un_forward(UnaryAd::ReluOp, t.prim@),
        out.node.req == join_req(t.node.req, Requirement::NoGrad),
        out.node.parents@ == seq![t.node.id],
        !t.tracked_spec() ==> out.gsteps() == Seq::<Step>::empty(),
        t.tracked_spec() ==> {
            &&& out.gsteps().drop_last() == t.gsteps()
            &&& out.gsteps().len() == t.gsteps().len() + 1
            &&& out.gsteps().last().parents@.len() == 1
            &&& slot_for(out.gsteps().last().parents@[0], t)
            &&& un_kind_spec(UnaryAd::ReluOp, t.prim@, out.prim@, out.gsteps().last().kind)
        },
{
    ad_unary(ctx, t, UnaryAd::ReluOp)
}

/// Device transfer; the single device makes the move an identity, and the step routes the gradient back unchanged.
pub fn ad_to_device(ctx: &mut Session, t: Var) -> (out: Var)
    requires
        old(ctx).inv(),
        old(ctx).next < u64::MAX,
        t.wf(*old(ctx)),
    ensures
        final(ctx).inv(),
        extends(*old(ctx), *final(ctx)),
        op_out_common(out, *old(ctx), *final(ctx)),
        out.prim@ == un_forward(UnaryAd::ToDeviceOp, t.prim@),
        out.node.req == join_req(t.node.req, Requirement::NoGrad),
        out.node.parents@ == seq![t.node.id],
        !t.tracked_spec() ==> out.gsteps() == Seq::<Step>::empty(),
        t.tracked_spec() ==> {
            &&& out.gsteps().drop_last() == t.gsteps()
            &&& out.gsteps().len() == t.gsteps().len() + 1
            &&& out.gsteps().last().parents@.len() == 1
            &&& slot_for(out.gsteps().last().parents@[0], t)
            &&& un_kind_spec(UnaryAd::ToDeviceOp, t.prim@, out.prim@, out.gsteps().last().kind)
        },
{
    ad_unary(ctx, t, UnaryAd::ToDeviceOp)
}

/// Precision widening; the fixed-point backend has one precision, so the cast is an identity with a gradient pass-through.
pub fn ad_to_full_precision(ctx: &mut Session, t: Var) -> (out: Var)
    requires
        old(ctx).inv(),
        old(ctx).next < u64::MAX,
        t.wf(*old(ctx)),
    ensures
        final(ctx).inv(),
        extends(*old(ctx), *final(ctx)),
        op_out_common(out, *old(ctx), *final(ctx)),
        out.prim@ == un_forward(UnaryAd::ToFullOp, t.prim@),
        out.node.req == join_req(t.node.req, Requirement::NoGrad),
        out.node.parents@ == seq![t.node.id],
        !t.tracked_spec() ==> out.gsteps() == Seq::<Step>::empty(),
        t.tracked_spec() ==> {
            &&& out.gsteps().drop_last() == t.gsteps()
            &&& out.gsteps().len() == t.gsteps().len() + 1
            &&& out.gsteps().last().parents@.len() == 1
            &&& slot_for(out.gsteps().last().parents@[0], t)
            &&& un_kind_spec(UnaryAd::ToFullOp, t.prim@, out.prim@, out.gsteps().last().kind)
        },
{
    ad_unary(ctx, t, UnaryAd::ToFullOp)
}

/// Precision narrowing; the inverse cast of the gradient is an identity.
pub fn ad_from_full_precision(ctx: &mut Session, t: Var) -> (out: Var)
    requires
        old(ctx).inv(),
        old(ctx).next < u64::MAX,
        t.wf(*old(ctx)),
    ensures
        final(ctx).inv(),
        extends(*old(ctx), *final(ctx)),
        op_out_common(out, *old(ctx), *final(ctx)),
        out.prim@ == un_forward(UnaryAd::FromFullOp, t.prim@),
        out.node.req == join_req(t.node.req, Requirement::NoGrad),
        out.node.parents@ == seq![t.node.id],
        !t.tracked_spec() ==> out.gsteps() == Seq::<Step>::empty(),
        t.tracked_spec() ==> {
            &&& out.gsteps().drop_last() == t.gsteps()
            &&& out.gsteps().len() == t.gsteps().len() + 1
            &&& out.gsteps().last().parents@.len() == 1
            &&& slot_for(out.gsteps().last().parents@[0], t)
            &&& un_kind_spec(UnaryAd::FromFullOp, t.prim@, out.prim@, out.gsteps().last().kind)
        },
{
    ad_unary(ctx, t, UnaryAd::FromFullOp)
}

} // verus!
