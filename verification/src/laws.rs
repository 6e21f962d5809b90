//! The graph and engine invariants stated as theorems: requirement
//! propagation, topological ordering, gradient accumulation, detachment,
//! state minimality, the linearity of the stateless adjoints, and the
//! exact linearity of differentiation through a scaled two-leaf sum.

use vstd::prelude::*;

use crate::engine::{apply_step, deliver, partial_of, run_rev};
use crate::fixed::{fx_add, fx_neg, sat64};
use crate::grads::reg_spec;
use crate::graph::{join_req, live, step_wf, Requirement, Step, StepKind};
use crate::tensor::{tv_bop, tv_fill, tv_ones, tv_uop, Bop, TView, Uop};
use crate::var::Var;

verus! {

/// Requirement propagation: the join of the parents' requirements is
/// `NoGrad` exactly when no parent is tracked, and `GradInBackward`
/// otherwise. Every operation gives its output this join, so an interior
/// node carries a gradient exactly when some ancestor leaf was marked.
pub proof fn lemma_requirement_propagation(a: Requirement, b: Requirement)
    ensures
        (join_req(a, b) == Requirement::NoGrad) <==> (!a.is_tracked() && !b.is_tracked()),
        join_req(a, b) != Requirement::NoGrad ==> join_req(a, b)
            == Requirement::GradInBackward,
{
}

/// Node order is a topological order: in the graph of any tensor ready for
/// the backward pass, every live parent of every step was created strictly
/// before the step's output node.
pub proof fn lemma_node_order_topological(v: &Var)
    requires
        v.bwf(),
    ensures
        forall|k: int, i: int|
            0 <= k < v.gsteps().len() && live(v.gsteps()[k], i)
                ==> (#[trigger] v.gsteps()[k].parents@[i]).unwrap().order
                < v.gsteps()[k].out.order,
        // ties are impossible: within one graph, output orders are strict
        forall|k1: int, k2: int|
            0 <= k1 < k2 < v.gsteps().len() ==> (#[trigger] v.gsteps()[k1]).out.order < (
            #[trigger] v.gsteps()[k2]).out.order,
{
    assert forall|k: int, i: int|
        0 <= k < v.gsteps().len() && live(v.gsteps()[k], i) implies (
    #[trigger] v.gsteps()[k].parents@[i]).unwrap().order < v.gsteps()[k].out.order by {
        assert(step_wf(v.gsteps()[k]));
    }
}

/// Delivering partials registers gradients only under parent identities.
proof fn lemma_deliver_keys(s: Step, g: TView, m: Map<u64, TView>, n: int, id: u64)
    requires
        !m.contains_key(id),
        forall|i: int| live(s, i) ==> (#[trigger] s.parents@[i]).unwrap().id != id,
    ensures
        !deliver(s, g, m, n).contains_key(id),
    decreases n,
{
    if n > 0 {
        lemma_deliver_keys(s, g, m, n - 1, id);
    }
}

/// Detach semantics, at the engine level: a node that never occurs as a
/// live parent of any step — in particular, every ancestor reachable only
/// through a detached tensor — receives no gradient entry from the
/// backward traversal.
pub proof fn lemma_untouched_node_gets_no_gradient(
    ss: Seq<Step>,
    m: Map<u64, TView>,
    id: u64,
)
    requires
        !m.contains_key(id),
        forall|k: int, i: int|
            0 <= k < ss.len() && live(ss[k], i) ==> (#[trigger] ss[k].parents@[i]).unwrap().id
                != id,
    ensures
        !run_rev(ss, m).contains_key(id),
    decreases ss.len(),
{
    if ss.len() > 0 {
        let s = ss.last();
        let m2 = apply_step(s, m);
        assert(!m.remove(s.out.id).contains_key(id));
        assert forall|i: int| live(s, i) implies (#[trigger] s.parents@[i]).unwrap().id != id by {
            assert(ss[ss.len() - 1] == s);
        }
        lemma_deliver_keys(
            s,
            if m.contains_key(s.out.id) {
                m[s.out.id]
            } else {
                crate::tensor::tv_zeros(s.out.shape@)
            },
            m.remove(s.out.id),
            s.parents@.len() as int,
            id,
        );
        assert forall|k: int, i: int|
            0 <= k < ss.drop_last().len() && live(ss.drop_last()[k], i) implies (
        #[trigger] ss.drop_last()[k].parents@[i]).unwrap().id != id by {
            assert(ss.drop_last()[k] == ss[k]);
        }
        lemma_untouched_node_gets_no_gradient(ss.drop_last(), m2, id);
    }
}

/// State minimality: the steps of `Add`, `Sub`, `Neg`, `AddScalar` and
/// `SubScalar` carry no captured tensors, and their adjoints read nothing
/// but the incoming gradient — so replacing their state with a no-op
/// sentinel cannot change any gradient.
pub proof fn lemma_stateless_adjoints(s: Step, i: int, g: TView)
    requires
        s.kind matches StepKind::AddK || s.kind matches StepKind::SubK || s.kind
            matches StepKind::NegK || s.kind matches StepKind::AddScalarK || s.kind
            matches StepKind::SubScalarK,
    ensures
        partial_of(s, i, g) == (if ((s.kind matches StepKind::SubK) && i != 0) || (
        s.kind matches StepKind::NegK) {
            tv_uop(Uop::Neg, g)
        } else {
            g
        }),
        forall|s2: Step| s2.kind == s.kind ==> partial_of(s2, i, g) == partial_of(s, i, g),
{
    assert forall|s2: Step| s2.kind == s.kind implies partial_of(s2, i, g) == partial_of(
        s,
        i,
        g,
    ) by {
        if (s.kind matches StepKind::AddK) {
            assert(partial_of(s2, i, g) == g);
        } else if (s.kind matches StepKind::SubK) {
            if i == 0 {
                assert(partial_of(s2, i, g) == g);
            } else {
                assert(partial_of(s2, i, g) == tv_uop(Uop::Neg, g));
            }
        } else if (s.kind matches StepKind::NegK) {
            assert(partial_of(s2, i, g) == tv_uop(Uop::Neg, g));
        } else if (s.kind matches StepKind::AddScalarK) {
            assert(partial_of(s2, i, g) == g);
        } else {
            assert(partial_of(s2, i, g) == g);
        }
    }
    if (s.kind matches StepKind::SubK) {
        if i == 0 {
            assert(partial_of(s, i, g) == g);
        } else {
            assert(partial_of(s, i, g) == tv_uop(Uop::Neg, g));
        }
    } else if (s.kind matches StepKind::NegK) {
        assert(partial_of(s, i, g) == tv_uop(Uop::Neg, g));
    } else {
        assert(partial_of(s, i, g) == g);
    }
}

/// The adjoint of `sum` broadcasts the seed directly; that equals the
/// original formulation of multiplying a tensor of ones by the seed,
/// because multiplying by the fixed-point unit is the identity.
pub proof fn lemma_sum_adjoint_is_ones_times_seed(shape: Seq<usize>, g0: i64)
    ensures
        crate::engine::tv_broadcast_scalar(shape, g0) =~= tv_bop(
            Bop::Mul,
            crate::tensor::tv_ones(shape),
            crate::engine::tv_broadcast_scalar(shape, g0),
        ),
{
    let lhs = crate::engine::tv_broadcast_scalar(shape, g0);
    let rhs = tv_bop(
        Bop::Mul,
        crate::tensor::tv_ones(shape),
        crate::engine::tv_broadcast_scalar(shape, g0),
    );
    assert forall|i: int| 0 <= i < lhs.data.len() implies lhs.data[i] == rhs.data[i] by {
        crate::fixed::lemma_fx_mul_unit(g0);
    }
}

/// The sum of a list of partial gradients, folded in delivery order onto
/// an initial one.
pub open spec fn add_fold(init: TView, gs: Seq<TView>) -> TView
    decreases gs.len(),
{
    if gs.len() == 0 {
        init
    } else {
        tv_bop(Bop::Add, add_fold(init, gs.drop_last()), gs.last())
    }
}

/// A list of registrations to one node, in order.
pub open spec fn reg_fold(m: Map<u64, TView>, id: u64, gs: Seq<TView>) -> Map<u64, TView>
    decreases gs.len(),
{
    if gs.len() == 0 {
        m
    } else {
        reg_spec(reg_fold(m, id, gs.drop_last()), id, gs.last())
    }
}

/// Accumulation correctness: when a node is a parent of several children,
/// the gradients its children deliver are summed — after registering `k`
/// partials for a fresh node, the stored value is exactly their running
/// sum.
pub proof fn lemma_accumulation(m: Map<u64, TView>, id: u64, gs: Seq<TView>)
    requires
        !m.contains_key(id),
        gs.len() >= 1,
    ensures
        reg_fold(m, id, gs).contains_key(id),
        reg_fold(m, id, gs)[id] == add_fold(gs[0], gs.skip(1)),
    decreases gs.len(),
{
    if gs.len() == 1 {
        assert(gs.drop_last() =~= Seq::<TView>::empty());
        assert(gs.skip(1) =~= Seq::<TView>::empty());
        assert(reg_fold(m, id, gs) == reg_spec(reg_fold(m, id, gs.drop_last()), id, gs.last()));
        assert(reg_fold(m, id, gs.drop_last()) == m);
        assert(reg_fold(m, id, gs)[id] == gs[0]);
        assert(add_fold(gs[0], gs.skip(1)) == gs[0]);
    } else {
        lemma_accumulation(m, id, gs.drop_last());
        assert(gs.drop_last()[0] == gs[0]);
        assert(gs.skip(1).drop_last() =~= gs.drop_last().skip(1));
        assert(gs.skip(1).last() == gs.last());
        assert(gs.skip(1).len() >= 1);
        assert(add_fold(gs[0], gs.skip(1)) == tv_bop(
            Bop::Add,
            add_fold(gs[0], gs.skip(1).drop_last()),
            gs.skip(1).last(),
        ));
        assert(add_fold(gs[0], gs.skip(1).drop_last()) == add_fold(
            gs[0],
            gs.drop_last().skip(1),
        ));
        let lhsv = reg_fold(m, id, gs)[id];
        let rhsv = add_fold(gs[0], gs.skip(1));
        assert(lhsv =~= rhsv);
        assert(lhsv.data =~= rhsv.data);
        assert(lhsv.data == rhsv.data);
        assert(lhsv.shape == rhsv.shape);
        assert(lhsv == rhsv);
    }
}

/// Gradient linearity through the stateless adjoints: on inputs where no
/// element saturates, the partial of a sum of gradients is the sum of the
/// partials, for the steps whose adjoint is the identity or the negation.
pub proof fn lemma_stateless_adjoint_linear(s: Step, i: int, g1: TView, g2: TView)
    requires
        s.kind matches StepKind::AddK || s.kind matches StepKind::SubK || s.kind
            matches StepKind::NegK || s.kind matches StepKind::AddScalarK || s.kind
            matches StepKind::SubScalarK,
        g1.shape == g2.shape,
        g1.data.len() == g2.data.len(),
        forall|j: int| 0 <= j < g1.data.len() ==> i64::MIN < #[trigger] g1.data[j],
        forall|j: int| 0 <= j < g2.data.len() ==> i64::MIN < #[trigger] g2.data[j],
        forall|j: int| 0 <= j < g1.data.len() ==> i64::MIN < #[trigger] (g1.data[j] + g2.data[j])
            <= i64::MAX,
    ensures
        partial_of(s, i, tv_bop(Bop::Add, g1, g2)) =~= tv_bop(
            Bop::Add,
            partial_of(s, i, g1),
            partial_of(s, i, g2),
        ),
{
    let gsum = tv_bop(Bop::Add, g1, g2);
    if (s.kind matches StepKind::SubK) && i != 0 {
        assert forall|j: int| 0 <= j < g1.data.len() implies tv_uop(Uop::Neg, gsum).data[j]
            == tv_bop(Bop::Add, tv_uop(Uop::Neg, g1), tv_uop(Uop::Neg, g2)).data[j] by {
            let a = g1.data[j];
            let b = g2.data[j];
            assert(fx_add(a, b) == (a + b) as i64);
            assert(fx_neg((a + b) as i64) == sat64(-(a + b)));
            assert(fx_add(fx_neg(a), fx_neg(b)) == sat64(-(a + b))) by {
                assert(fx_neg(a) == sat64(-a));
                assert(fx_neg(b) == sat64(-b));
            }
        }
    } else if (s.kind matches StepKind::NegK) {
        assert forall|j: int| 0 <= j < g1.data.len() implies tv_uop(Uop::Neg, gsum).data[j]
            == tv_bop(Bop::Add, tv_uop(Uop::Neg, g1), tv_uop(Uop::Neg, g2)).data[j] by {
            let a = g1.data[j];
            let b = g2.data[j];
            assert(fx_add(a, b) == (a + b) as i64);
        }
        assert(partial_of(s, i, gsum) == tv_uop(Uop::Neg, gsum));
        assert(partial_of(s, i, g1) == tv_uop(Uop::Neg, g1));
        assert(partial_of(s, i, g2) == tv_uop(Uop::Neg, g2));
    } else {
        assert(partial_of(s, i, gsum) == gsum);
        assert(partial_of(s, i, g1) == g1);
        assert(partial_of(s, i, g2) == g2);
    }
}

/// Gradient linearity, proved end to end on the graph that combines two
/// leaves linearly: for `w = alpha * u + beta * v` built from `mul_scalar`
/// and `add`, running the whole backward traversal from the summed loss
/// delivers `u` the constant gradient `alpha` and `v` the constant gradient
/// `beta` — exactly, because scaling the unit seed is exact in this
/// arithmetic. (Over arbitrary graphs the law holds only up to the rounding
/// and saturation of the fixed-point operations; the stateless-adjoint case
/// is stated separately.)
pub proof fn lemma_linearity_of_scaled_leaf_sum(
    sh: Seq<usize>,
    alpha: i64,
    beta: i64,
    u_id: u64,
    v_id: u64,
    au_id: u64,
    bv_id: u64,
    w_id: u64,
    loss_id: u64,
    s_au: Step,
    s_bv: Step,
    s_w: Step,
    s_loss: Step,
)
    requires
        // six distinct nodes, in creation order
        u_id < v_id < au_id,
        au_id < bv_id < w_id,
        w_id < loss_id,
        // the step scaling u by alpha
        s_au.out.id == au_id,
        s_au.parents@.len() == 1,
        s_au.parents@[0] is Some,
        s_au.parents@[0].unwrap().id == u_id,
        s_au.kind matches StepKind::MulScalarK { s: c } && c == alpha,
        // the step scaling v by beta
        s_bv.out.id == bv_id,
        s_bv.parents@.len() == 1,
        s_bv.parents@[0] is Some,
        s_bv.parents@[0].unwrap().id == v_id,
        s_bv.kind matches StepKind::MulScalarK { s: c } && c == beta,
        // the sum of the two scaled tensors
        s_w.out.id == w_id,
        s_w.parents@.len() == 2,
        s_w.parents@[0] is Some,
        s_w.parents@[0].unwrap().id == au_id,
        s_w.parents@[1] is Some,
        s_w.parents@[1].unwrap().id == bv_id,
        s_w.kind == StepKind::AddK,
        // the scalar loss summing w
        s_loss.out.id == loss_id,
        s_loss.parents@.len() == 1,
        s_loss.parents@[0] is Some,
        s_loss.parents@[0].unwrap().id == w_id,
        s_loss.kind matches StepKind::SumK { shape } && shape@ == sh,
    ensures
        ({
            let grads = run_rev(
                seq![s_au, s_bv, s_w, s_loss],
                Map::<u64, TView>::empty().insert(loss_id, tv_ones(seq![1usize])),
            );
            &&& grads.contains_key(u_id)
            &&& grads[u_id] =~= tv_fill(sh, alpha)
            &&& grads.contains_key(v_id)
            &&& grads[v_id] =~= tv_fill(sh, beta)
        }),
{
    let ss = seq![s_au, s_bv, s_w, s_loss];
    let seed = tv_ones(seq![1usize]);
    let m0 = Map::<u64, TView>::empty().insert(loss_id, seed);

    // the seed is one fixed-point unit
    assert(seq![1usize].drop_last() =~= Seq::<usize>::empty());
    assert(crate::shape::prod(Seq::<usize>::empty()) == 1);
    assert(crate::shape::prod(seq![1usize]) == crate::shape::prod(seq![1usize].drop_last()) * (
    seq![1usize].last() as int));
    assert(seed.data.len() == 1);
    assert(seed.data[0] == crate::fixed::SCALE);

    // the loss step turns the unit seed into a tensor of ones over sh
    let g_w = crate::engine::tv_broadcast_scalar(sh, seed.data[0]);
    assert(ss.last() == s_loss);
    let m1 = apply_step(s_loss, m0);
    assert(m0.contains_key(loss_id));
    assert(m0[loss_id] == seed);
    assert(partial_of(s_loss, 0, seed) == g_w);
    let m0r = m0.remove(loss_id);
    assert(live(s_loss, 0));
    assert(deliver(s_loss, seed, m0r, 0) == m0r);
    assert(deliver(s_loss, seed, m0r, 1) == reg_spec(m0r, w_id, partial_of(s_loss, 0, seed)));
    assert(!m0r.contains_key(w_id));
    assert(m1 =~= m0r.insert(w_id, g_w));

    // the addition passes that gradient to both scaled operands
    let m2 = apply_step(s_w, m1);
    assert(m1.contains_key(w_id));
    assert(m1[w_id] == g_w);
    assert(partial_of(s_w, 0, g_w) == g_w);
    assert(partial_of(s_w, 1, g_w) == g_w);
    let m1r = m1.remove(w_id);
    assert(!m1r.contains_key(au_id));
    assert(live(s_w, 0));
    assert(live(s_w, 1));
    assert(deliver(s_w, g_w, m1r, 0) == m1r);
    assert(deliver(s_w, g_w, m1r, 1) == reg_spec(m1r, au_id, partial_of(s_w, 0, g_w)));
    assert(deliver(s_w, g_w, m1r, 1) =~= m1r.insert(au_id, g_w));
    assert(deliver(s_w, g_w, m1r, 2) == reg_spec(
        deliver(s_w, g_w, m1r, 1),
        bv_id,
        partial_of(s_w, 1, g_w),
    ));
    assert(!m1r.insert(au_id, g_w).contains_key(bv_id));
    assert(m2 =~= m1r.insert(au_id, g_w).insert(bv_id, g_w));

    // the scaling steps multiply it by their captured scalars
    let g_v = tv_uop(Uop::MulS(beta), g_w);
    let m3 = apply_step(s_bv, m2);
    assert(m2.contains_key(bv_id));
    assert(m2[bv_id] == g_w);
    assert(partial_of(s_bv, 0, g_w) == g_v);
    let m2r = m2.remove(bv_id);
    assert(!m2r.contains_key(v_id));
    assert(live(s_bv, 0));
    assert(deliver(s_bv, g_w, m2r, 0) == m2r);
    assert(deliver(s_bv, g_w, m2r, 1) == reg_spec(m2r, v_id, partial_of(s_bv, 0, g_w)));
    assert(m3 =~= m2r.insert(v_id, g_v));

    let g_u = tv_uop(Uop::MulS(alpha), g_w);
    let m4 = apply_step(s_au, m3);
    assert(m3.contains_key(au_id));
    assert(m3[au_id] == g_w);
    assert(partial_of(s_au, 0, g_w) == g_u);
    let m3r = m3.remove(au_id);
    assert(!m3r.contains_key(u_id));
    assert(live(s_au, 0));
    assert(deliver(s_au, g_w, m3r, 0) == m3r);
    assert(deliver(s_au, g_w, m3r, 1) == reg_spec(m3r, u_id, partial_of(s_au, 0, g_w)));
    assert(m4 =~= m3r.insert(u_id, g_u));

    // unfold the traversal down to the four applications
    assert(ss.drop_last() =~= seq![s_au, s_bv, s_w]);
    assert(seq![s_au, s_bv, s_w].drop_last() =~= seq![s_au, s_bv]);
    assert(seq![s_au, s_bv].drop_last() =~= seq![s_au]);
    assert(seq![s_au].drop_last() =~= Seq::<Step>::empty());
    assert(seq![s_au, s_bv, s_w].last() == s_w);
    assert(seq![s_au, s_bv].last() == s_bv);
    assert(seq![s_au].last() == s_au);
    assert(run_rev(ss, m0) == run_rev(seq![s_au, s_bv, s_w], m1));
    assert(run_rev(seq![s_au, s_bv, s_w], m1) == run_rev(seq![s_au, s_bv], m2));
    assert(run_rev(seq![s_au, s_bv], m2) == run_rev(seq![s_au], m3));
    assert(run_rev(seq![s_au], m3) == run_rev(Seq::<Step>::empty(), m4));
    assert(run_rev(ss, m0) == m4);

    // scaling the unit gradient is exact: every element is the coefficient
    assert(m4.contains_key(u_id));
    assert(m4.contains_key(v_id));
    assert forall|i: int| 0 <= i < g_u.data.len() implies g_u.data[i] == alpha by {
        crate::fixed::lemma_fx_mul_unit(alpha);
    }
    assert forall|i: int| 0 <= i < g_v.data.len() implies g_v.data[i] == beta by {
        crate::fixed::lemma_fx_mul_unit(beta);
    }
    assert(m4[u_id] == g_u);
    assert(m4[v_id] == g_v);
    assert(g_u =~= tv_fill(sh, alpha));
    assert(g_v =~= tv_fill(sh, beta));
}

} // verus!
