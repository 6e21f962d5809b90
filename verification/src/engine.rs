//! The backward engine: the per-operation adjoints at the view level, the
//! executable step application, and the reverse traversal over a recorded
//! graph.

use vstd::prelude::*;

use crate::fixed::{fx_div_int, fx_sub, sub_fx, SCALE};
use crate::grads::{reg_spec, Gradients};
use std::rc::Rc;

use crate::graph::{live, pshape, step_wf, steps_view, Step, StepKind};
use crate::pool::tv_pool_back;
use crate::scalar::TWO_OVER_SQRT_PI;
use crate::shape::prod;
use crate::tensor::{tv_bop, tv_uop, tv_zeros, BView, Bop, IView, TView, Tensor, Uop};
use crate::tensor_coords::{
    flat, in_box, shift_down, shift_up, slice_shape, swap2, unflat,
};
use crate::tensor_dim::{at3_a, at3_b, at3_j, idx3, scatter_at, scatter_dim_at};
use crate::tensor_linalg::mm_at;

verus! {

/// Twice the fixed-point unit.
pub const TWO_FX: i64 = 2_000_000;

/// Exchange of two dimensions at the view level.
pub open spec fn tv_swap(a: TView, d1: int, d2: int) -> TView {
    let nsh = swap2(a.shape, d1, d2);
    TView {
        shape: nsh,
        data: Seq::new(a.data.len(), |q: int| a.data[flat(a.shape, swap2(unflat(nsh, q), d1, d2))]),
    }
}

/// Exchange of the last two dimensions at the view level.
pub open spec fn tv_transpose(a: TView) -> TView {
    tv_swap(a, a.shape.len() - 2, a.shape.len() - 1)
}

/// Batched matrix product at the view level.
pub open spec fn tv_matmul(a: TView, b: TView) -> TView {
    let rank = a.shape.len();
    let m = a.shape[rank - 2] as int;
    let k = a.shape[rank - 1] as int;
    let n = b.shape[rank - 1] as int;
    let nsh = a.shape.update(rank - 1, b.shape[rank - 1]);
    TView {
        shape: nsh,
        data: Seq::new(
            prod(nsh) as nat,
            |q: int| mm_at(a.data, b.data, m, k, n, at3_a(q, m, n), at3_j(q, m, n), at3_b(q, n), k),
        ),
    }
}

/// Slicing by ranges at the view level.
pub open spec fn tv_slice(a: TView, rg: Seq<(usize, usize)>) -> TView {
    let nsh = slice_shape(a.shape, rg);
    TView {
        shape: nsh,
        data: Seq::new(
            prod(nsh) as nat,
            |q: int| a.data[flat(a.shape, shift_up(unflat(nsh, q), rg))],
        ),
    }
}

/// Slice assignment at the view level.
pub open spec fn tv_index_assign(a: TView, rg: Seq<(usize, usize)>, v: TView) -> TView {
    TView {
        shape: a.shape,
        data: Seq::new(
            a.data.len(),
            |q: int|
                if in_box(a.shape, rg, q) {
                    v.data[flat(slice_shape(a.shape, rg), shift_down(unflat(a.shape, q), rg))]
                } else {
                    a.data[q]
                },
        ),
    }
}

/// Flat gather at the view level.
pub open spec fn tv_gather(a: TView, idx: IView) -> TView {
    TView {
        shape: idx.shape,
        data: Seq::new(idx.data.len(), |p: int| a.data[idx.data[p] as int]),
    }
}

/// Flat scatter-add at the view level.
pub open spec fn tv_scatter_add(base: TView, idx: IView, vals: TView) -> TView {
    TView {
        shape: base.shape,
        data: Seq::new(
            base.data.len(),
            |q: int| scatter_at(base.data, idx.data, vals.data, q, idx.data.len() as int),
        ),
    }
}

/// Gather along one dimension at the view level.
pub open spec fn tv_gather_dim(a: TView, d: int, idx: IView) -> TView {
    let nsel = idx.data.len() as int;
    let inner = prod(a.shape.skip(d + 1));
    let dim = a.shape[d] as int;
    let nsh = a.shape.update(d, idx.data.len() as usize);
    TView {
        shape: nsh,
        data: Seq::new(
            prod(nsh) as nat,
            |q: int| a.data[idx3(
                at3_a(q, nsel, inner),
                idx.data[at3_j(q, nsel, inner)] as int,
                at3_b(q, inner),
                dim,
                inner,
            )],
        ),
    }
}

/// Scatter-add along one dimension at the view level.
pub open spec fn tv_scatter_dim(base: TView, d: int, idx: IView, vals: TView) -> TView {
    let dim = base.shape[d] as int;
    let inner = prod(base.shape.skip(d + 1));
    TView {
        shape: base.shape,
        data: Seq::new(
            base.data.len(),
            |q: int| scatter_dim_at(
                base.data,
                vals.data,
                idx.data,
                dim,
                idx.data.len() as int,
                inner,
                q,
                idx.data.len() as int,
            ),
        ),
    }
}

/// Broadcast along one dimension whose extent is 1, at the view level.
pub open spec fn tv_expand(a: TView, d: int, nd: usize) -> TView {
    let inner = prod(a.shape.skip(d + 1));
    let nsh = a.shape.update(d, nd);
    TView {
        shape: nsh,
        data: Seq::new(
            prod(nsh) as nat,
            |q: int| a.data[at3_a(q, nd as int, inner) * inner + at3_b(q, inner)],
        ),
    }
}

/// A one-value broadcast at the view level.
pub open spec fn tv_broadcast_scalar(shape: Seq<usize>, v: i64) -> TView {
    TView { shape: shape, data: Seq::new(prod(shape) as nat, |q: int| v) }
}

/// Zeroing the masked elements at the view level.
pub open spec fn tv_mask_zero(g: TView, m: BView) -> TView {
    TView {
        shape: g.shape,
        data: Seq::new(g.data.len(), |i: int| if m.data[i] {
            0i64
        } else {
            g.data[i]
        }),
    }
}

/// Keeping only the masked elements at the view level.
pub open spec fn tv_mask_keep(g: TView, m: BView) -> TView {
    TView {
        shape: g.shape,
        data: Seq::new(g.data.len(), |i: int| if m.data[i] {
            g.data[i]
        } else {
            0i64
        }),
    }
}

/// Zeroing the gradient where the forward output was not positive.
pub open spec fn tv_relu_grad(g: TView, out: TView) -> TView {
    TView {
        shape: g.shape,
        data: Seq::new(g.data.len(), |i: int| if out.data[i] <= 0 {
            0i64
        } else {
            g.data[i]
        }),
    }
}

/// The ranges selecting one concatenated part: full everywhere, the
/// recorded offset window along the concatenated dimension.
pub open spec fn cat_ranges(osh: Seq<usize>, d: int, offset: usize, size: usize) -> Seq<
    (usize, usize),
> {
    Seq::new(
        osh.len(),
        |k: int|
            if k == d {
                (offset, (offset + size) as usize)
            } else {
                (0usize, osh[k])
            },
    )
}

/// The adjoint of a recorded step: the partial gradient delivered to parent
/// `i` when the output's accumulated gradient is `g`.
pub open spec fn partial_of(s: Step, i: int, g: TView) -> TView {
    let osh = s.out.shape@;
    match s.kind {
        StepKind::AddK => g,
        StepKind::SubK => if i == 0 {
            g
        } else {
            tv_uop(Uop::Neg, g)
        },
        StepKind::NegK => tv_uop(Uop::Neg, g),
        StepKind::AddScalarK => g,
        StepKind::SubScalarK => g,
        StepKind::MulK { lhs, rhs } => if i == 0 {
            tv_bop(Bop::Mul, g, rhs.unwrap()@)
        } else {
            tv_bop(Bop::Mul, g, lhs.unwrap()@)
        },
        StepKind::MulScalarK { s: c } => tv_uop(Uop::MulS(c), g),
        StepKind::DivK { lhs, rhs } => if i == 0 {
            tv_bop(Bop::Div, g, rhs.unwrap()@)
        } else {
            tv_bop(
                Bop::Mul,
                g,
                tv_bop(
                    Bop::Div,
                    tv_uop(Uop::Neg, lhs.unwrap()@),
                    tv_bop(Bop::Mul, rhs.unwrap()@, rhs.unwrap()@),
                ),
            )
        },
        StepKind::DivScalarK { s: c } => tv_uop(Uop::DivS(c), g),
        StepKind::MatmulK { lhs, rhs } => if i == 0 {
            tv_matmul(g, tv_transpose(rhs.unwrap()@))
        } else {
            tv_matmul(tv_transpose(lhs.unwrap()@), g)
        },
        StepKind::SwapDimsK { d1, d2 } => tv_swap(g, d1 as int, d2 as int),
        StepKind::ReshapeK { shape_in } => TView { shape: shape_in@, data: g.data },
        StepKind::ToDeviceK => g,
        StepKind::ToFullK => g,
        StepKind::FromFullK => g,
        StepKind::IndexSelectK { idx, shape } => tv_scatter_add(tv_zeros(shape@), idx@, g),
        StepKind::IndexSelectAssignK { idx, shape_lhs, shape_rhs } => if i == 0 {
            tv_scatter_add(g, idx@, tv_zeros(shape_rhs@))
        } else {
            tv_gather(g, idx@)
        },
        StepKind::IndexSelectDimK { d, idx, shape } => tv_scatter_dim(
            tv_zeros(shape@),
            d as int,
            idx@,
            g,
        ),
        StepKind::IndexSelectDimAssignK { d, idx, shape_lhs, shape_rhs } => if i == 0 {
            tv_scatter_dim(g, d as int, idx@, tv_zeros(shape_rhs@))
        } else {
            tv_gather_dim(g, d as int, idx@)
        },
        StepKind::IndexK { ranges, shape } => tv_index_assign(tv_zeros(shape@), ranges@, g),
        StepKind::IndexAssignK { ranges, shape_rhs } => if i == 0 {
            tv_index_assign(g, ranges@, tv_zeros(shape_rhs@))
        } else {
            tv_slice(g, ranges@)
        },
        StepKind::MaskFillK { mask } => tv_mask_zero(g, mask@),
        StepKind::MaskScatterK { mask } => if i == 0 {
            tv_mask_zero(g, mask@)
        } else {
            tv_mask_keep(g, mask@)
        },
        StepKind::SumK { shape } => tv_broadcast_scalar(shape@, g.data[0]),
        StepKind::SumDimK { shape, d } => tv_expand(g, d as int, shape@[d as int]),
        StepKind::MeanK { shape } => tv_broadcast_scalar(
            shape@,
            fx_div_int(g.data[0], prod(shape@) as i64),
        ),
        StepKind::MeanDimK { shape, d } => tv_expand(
            tv_uop(Uop::DivIntS(shape@[d as int] as i64), g),
            d as int,
            shape@[d as int],
        ),
        StepKind::ExpK { output } => tv_bop(Bop::Mul, g, output@),
        StepKind::LogK { input } => tv_bop(Bop::Div, g, input@),
        StepKind::Log1pK { input } => tv_bop(Bop::Div, g, tv_uop(Uop::AddS(SCALE), input@)),
        StepKind::PowfK { input, p } => tv_bop(
            Bop::Mul,
            g,
            tv_uop(Uop::MulS(p), tv_uop(Uop::Powf(fx_sub(p, SCALE)), input@)),
        ),
        StepKind::SqrtK { output } => tv_bop(Bop::Div, g, tv_uop(Uop::MulS(TWO_FX), output@)),
        StepKind::SinK { input } => tv_bop(Bop::Mul, g, tv_uop(Uop::Cos, input@)),
        StepKind::CosK { input } => tv_bop(Bop::Mul, g, tv_uop(Uop::Neg, tv_uop(Uop::Sin, input@))),
        StepKind::TanhK { output } => tv_bop(
            Bop::Mul,
            g,
            tv_uop(Uop::AddS(SCALE), tv_uop(Uop::Neg, tv_bop(Bop::Mul, output@, output@))),
        ),
        StepKind::ErfK { input } => tv_bop(
            Bop::Mul,
            g,
            tv_uop(
                Uop::MulS(TWO_OVER_SQRT_PI),
                tv_uop(Uop::Exp, tv_uop(Uop::Neg, tv_bop(Bop::Mul, input@, input@))),
            ),
        ),
        StepKind::ReluK { output } => tv_relu_grad(g, output@),
        StepKind::AvgPool1dK { shape, kernel, stride, padding } => tv_pool_back(
            tv_zeros(shape@),
            g,
            kernel as int,
            stride as int,
            padding as int,
        ),
        StepKind::CatK { d, offsets } => tv_slice(
            g,
            cat_ranges(osh, d as int, offsets[i], (pshape(s, i)[d as int]) as usize),
        ),
    }
}

pub open spec fn kind_group_a(k: StepKind) -> bool {
    (k matches StepKind::AddK) || (k matches StepKind::SubK) || (k matches StepKind::NegK) || (k matches StepKind::AddScalarK) || (k matches StepKind::SubScalarK) || (k matches StepKind::MulK { .. }) || (k matches StepKind::MulScalarK { .. }) || (k matches StepKind::DivK { .. }) || (k matches StepKind::DivScalarK { .. }) || (k matches StepKind::ToDeviceK) || (k matches StepKind::ToFullK) || (k matches StepKind::FromFullK) || (k matches StepKind::ExpK { .. }) || (k matches StepKind::LogK { .. }) || (k matches StepKind::Log1pK { .. }) || (k matches StepKind::PowfK { .. }) || (k matches StepKind::SqrtK { .. }) || (k matches StepKind::SinK { .. }) || (k matches StepKind::CosK { .. }) || (k matches StepKind::TanhK { .. }) || (k matches StepKind::ErfK { .. }) || (k matches StepKind::ReluK { .. }) || (k matches StepKind::MaskFillK { .. }) || (k matches StepKind::MaskScatterK { .. })
}

pub open spec fn kind_group_b(k: StepKind) -> bool {
    (k matches StepKind::MatmulK { .. }) || (k matches StepKind::SwapDimsK { .. }) || (k matches StepKind::ReshapeK { .. })
}

pub open spec fn kind_group_c(k: StepKind) -> bool {
    (k matches StepKind::IndexSelectK { .. }) || (k matches StepKind::IndexSelectAssignK { .. }) || (k matches StepKind::IndexSelectDimK { .. }) || (k matches StepKind::IndexSelectDimAssignK { .. }) || (k matches StepKind::IndexK { .. }) || (k matches StepKind::IndexAssignK { .. })
}

pub open spec fn kind_group_d(k: StepKind) -> bool {
    (k matches StepKind::SumK { .. }) || (k matches StepKind::SumDimK { .. }) || (k matches StepKind::MeanK { .. }) || (k matches StepKind::MeanDimK { .. }) || (k matches StepKind::AvgPool1dK { .. }) || (k matches StepKind::CatK { .. })
}

#[verifier::rlimit(80)]
#[verifier::spinoff_prover]
fn partial_exec_a(s: &Step, i: usize, g: &Tensor) -> (r: Tensor)
    requires
        step_wf(*s),
        g.wf(),
        g@.shape == s.out.shape@,
        live(*s, i as int),
        kind_group_a(s.kind),
    ensures
        r.wf(),
        r@ == partial_of(*s, i as int, g@),
        r@.shape == pshape(*s, i as int),
{
    let ghost osh = s.out.shape@;
    match &s.kind {
        StepKind::AddK => g.dup(),
        StepKind::SubK => {
            if i == 0 {
                g.dup()
            } else {
                let r = g.neg();
                proof {
                    assert(r@ =~= partial_of(*s, i as int, g@));
                }
                r
            }
        },
        StepKind::NegK => g.neg(),
        StepKind::AddScalarK => g.dup(),
        StepKind::SubScalarK => g.dup(),
        StepKind::MulK { lhs, rhs } => {
            if i == 0 {
                let r = g.mul(rhs.as_ref().unwrap());
                r
            } else {
                let r = g.mul(lhs.as_ref().unwrap());
                r
            }
        },
        StepKind::MulScalarK { s: c } => g.mul_scalar(*c),
        StepKind::DivK { lhs, rhs } => {
            if i == 0 {
                let r = g.div(rhs.as_ref().unwrap());
                r
            } else {
                let rv = rhs.as_ref().unwrap();
                let value = lhs.as_ref().unwrap().neg().div(&rv.mul(rv));
                let r = g.mul(&value);
                r
            }
        },
        StepKind::DivScalarK { s: c } => g.div_scalar(*c),
        StepKind::ToDeviceK => g.dup(),
        StepKind::ToFullK => g.dup(),
        StepKind::FromFullK => g.dup(),
        StepKind::ExpK { output } => g.mul(output),
        StepKind::LogK { input } => g.div(input),
        StepKind::Log1pK { input } => {
            let r = g.div(&input.add_scalar(SCALE));
            proof {
                assert(r@ =~= partial_of(*s, i as int, g@));
            }
            r
        },
        StepKind::PowfK { input, p } => {
            let r = g.mul(&input.powf(sub_fx(*p, SCALE)).mul_scalar(*p));
            proof {
                assert(r@ =~= partial_of(*s, i as int, g@));
            }
            r
        },
        StepKind::SqrtK { output } => {
            let r = g.div(&output.mul_scalar(TWO_FX));
            proof {
                assert(r@ =~= partial_of(*s, i as int, g@));
            }
            r
        },
        StepKind::SinK { input } => {
            let r = g.mul(&input.cos());
            proof {
                assert(r@ =~= partial_of(*s, i as int, g@));
            }
            r
        },
        StepKind::CosK { input } => {
            let r = g.mul(&input.sin().neg());
            proof {
                assert(r@ =~= partial_of(*s, i as int, g@));
            }
            r
        },
        StepKind::TanhK { output } => {
            let r = g.mul(&output.mul(output).neg().add_scalar(SCALE));
            proof {
                assert(r@ =~= partial_of(*s, i as int, g@));
            }
            r
        },
        StepKind::ErfK { input } => {
            let r = g.mul(&input.mul(input).neg().exp().mul_scalar(TWO_OVER_SQRT_PI));
            proof {
                assert(r@ =~= partial_of(*s, i as int, g@));
            }
            r
        },
        StepKind::ReluK { output } => {
            let mask = output.lower_equal_elem(0);
            let r = g.mask_fill(&mask, 0);
            proof {
                assert(r@ =~= tv_relu_grad(g@, output@));
            }
            r
        },
        StepKind::MaskFillK { mask } => {
            let r = g.mask_fill(mask, 0);
            proof {
                assert(r@ =~= tv_mask_zero(g@, mask@));
            }
            r
        },
        StepKind::MaskScatterK { mask } => {
            if i == 0 {
                let r = g.mask_fill(mask, 0);
                proof {
                    assert(r@ =~= tv_mask_zero(g@, mask@));
                }
                r
            } else {
                let zeros = Tensor::zeros(g.dims());
                let r = zeros.mask_scatter(mask, g);
                proof {
                    assert(r@ =~= tv_mask_keep(g@, mask@));
                }
                r
            }
        },
        _ => {
            proof {
                assert(false);
            }
            g.dup()
        },
    }
}

#[verifier::rlimit(80)]
#[verifier::spinoff_prover]
fn partial_exec_b(s: &Step, i: usize, g: &Tensor) -> (r: Tensor)
    requires
        step_wf(*s),
        g.wf(),
        g@.shape == s.out.shape@,
        live(*s, i as int),
        kind_group_b(s.kind),
    ensures
        r.wf(),
        r@ == partial_of(*s, i as int, g@),
        r@.shape == pshape(*s, i as int),
{
    let ghost osh = s.out.shape@;
    match &s.kind {
        StepKind::MatmulK { lhs, rhs } => {
            if i == 0 {
                let rt = rhs.as_ref().unwrap().transpose();
                proof {
                    let rv = rhs.unwrap()@;
                    let rank = osh.len();
                    assert(rt@ =~= tv_transpose(rv));
                    assert(rt@.shape.take(rank - 2) =~= g@.shape.take(rank - 2)) by {
                        assert forall|k: int| 0 <= k < rank - 2 implies rt@.shape[k]
                            == g@.shape[k] by {
                            assert(rt@.shape[k] == rv.shape[k]);
                            assert(rv.shape.take(rank - 2)[k] == osh.take(rank - 2)[k]);
                        }
                    }
                    crate::tensor_coords::lemma_prod_swap(rv.shape, rank - 2, rank - 1);
                }
                let r = g.matmul(&rt);
                proof {
                    assert(r@ =~= tv_matmul(g@, tv_transpose(rhs.unwrap()@)));
                    assert(r@.shape =~= pshape(*s, i as int));
                }
                r
            } else {
                let lt = lhs.as_ref().unwrap().transpose();
                proof {
                    let lv = lhs.unwrap()@;
                    let rank = osh.len();
                    assert(lt@ =~= tv_transpose(lv));
                    assert(lt@.shape.take(rank - 2) =~= g@.shape.take(rank - 2)) by {
                        assert forall|k: int| 0 <= k < rank - 2 implies lt@.shape[k]
                            == g@.shape[k] by {
                            assert(lt@.shape[k] == lv.shape[k]);
                            assert(lv.shape.take(rank - 2)[k] == osh.take(rank - 2)[k]);
                        }
                    }
                    crate::tensor_coords::lemma_prod_swap(lv.shape, rank - 2, rank - 1);
                    assert forall|k: int| 0 <= k < rank implies lt@.shape.update(
                        rank - 1,
                        g@.shape[rank - 1],
                    )[k] == pshape(*s, i as int)[k] by {
                        if k < rank - 2 {
                            assert(lv.shape.take(rank - 2)[k] == osh.take(rank - 2)[k]);
                        }
                    }
                    assert(lt@.shape.update(rank - 1, g@.shape[rank - 1]) =~= pshape(
                        *s,
                        i as int,
                    ));
                }
                let r = lt.matmul(g);
                proof {
                    assert(r@ =~= tv_matmul(tv_transpose(lhs.unwrap()@), g@));
                    assert(r@.shape =~= pshape(*s, i as int));
                }
                r
            }
        },
        StepKind::SwapDimsK { d1, d2 } => {
            let r = g.swap_dims(*d1, *d2);
            proof {
                assert(r@ =~= tv_swap(g@, *d1 as int, *d2 as int));
            }
            r
        },
        StepKind::ReshapeK { shape_in } => {
            let r = g.reshape(crate::tensor::copy_shape(shape_in));
            proof {
                assert(r@ =~= partial_of(*s, i as int, g@));
            }
            r
        },
        _ => {
            proof {
                assert(false);
            }
            g.dup()
        },
    }
}

#[verifier::rlimit(80)]
#[verifier::spinoff_prover]
fn partial_exec_c(s: &Step, i: usize, g: &Tensor) -> (r: Tensor)
    requires
        step_wf(*s),
        g.wf(),
        g@.shape == s.out.shape@,
        live(*s, i as int),
        kind_group_c(s.kind),
    ensures
        r.wf(),
        r@ == partial_of(*s, i as int, g@),
        r@.shape == pshape(*s, i as int),
{
    let ghost osh = s.out.shape@;
    match &s.kind {
        StepKind::IndexSelectK { idx, shape } => {
            let base = Tensor::zeros(crate::tensor::copy_shape(shape));
            let r = base.index_select_assign(idx, g);
            proof {
                assert(r@ =~= tv_scatter_add(tv_zeros(shape@), idx@, g@));
            }
            r
        },
        StepKind::IndexSelectAssignK { idx, shape_lhs, shape_rhs } => {
            if i == 0 {
                let zeros = Tensor::zeros(crate::tensor::copy_shape(shape_rhs));
                let r = g.index_select_assign(idx, &zeros);
                proof {
                    assert(r@ =~= tv_scatter_add(g@, idx@, tv_zeros(shape_rhs@)));
                }
                r
            } else {
                let r = g.index_select(idx);
                proof {
                    assert(r@ =~= tv_gather(g@, idx@));
                }
                r
            }
        },
        StepKind::IndexSelectDimK { d, idx, shape } => {
            let base = Tensor::zeros(crate::tensor::copy_shape(shape));
            let r = base.index_select_dim_assign(*d, idx, g);
            proof {
                assert(r@ =~= tv_scatter_dim(tv_zeros(shape@), *d as int, idx@, g@));
            }
            r
        },
        StepKind::IndexSelectDimAssignK { d, idx, shape_lhs, shape_rhs } => {
            if i == 0 {
                let zeros = Tensor::zeros(crate::tensor::copy_shape(shape_rhs));
                let r = g.index_select_dim_assign(*d, idx, &zeros);
                proof {
                    assert(r@ =~= tv_scatter_dim(g@, *d as int, idx@, tv_zeros(shape_rhs@)));
                }
                r
            } else {
                let r = g.index_select_dim(*d, idx);
                proof {
                    assert(r@ =~= tv_gather_dim(g@, *d as int, idx@));
                }
                r
            }
        },
        StepKind::IndexK { ranges, shape } => {
            let base = Tensor::zeros(crate::tensor::copy_shape(shape));
            let r = base.index_assign(ranges, g);
            proof {
                assert(r@ =~= tv_index_assign(tv_zeros(shape@), ranges@, g@));
            }
            r
        },
        StepKind::IndexAssignK { ranges, shape_rhs } => {
            if i == 0 {
                let zeros = Tensor::zeros(crate::tensor::copy_shape(shape_rhs));
                let r = g.index_assign(ranges, &zeros);
                proof {
                    assert(r@ =~= tv_index_assign(g@, ranges@, tv_zeros(shape_rhs@)));
                }
                r
            } else {
                proof {
                    assert forall|j: int| 0 <= j < ranges@.len() implies #[trigger] ranges@[j].0
                        <= ranges@[j].1 && ranges@[j].1 <= g@.shape[j] by {
                        assert(g@.shape == osh);
                        assert(ranges@[j].0 <= ranges@[j].1 && ranges@[j].1 <= osh[j]);
                    }
                }
                let r = g.index(ranges);
                proof {
                    assert(r@ =~= tv_slice(g@, ranges@));
                }
                r
            }
        },
        _ => {
            proof {
                assert(false);
            }
            g.dup()
        },
    }
}

#[verifier::rlimit(80)]
#[verifier::spinoff_prover]
fn partial_exec_d(s: &Step, i: usize, g: &Tensor) -> (r: Tensor)
    requires
        step_wf(*s),
        g.wf(),
        g@.shape == s.out.shape@,
        live(*s, i as int),
        kind_group_d(s.kind),
    ensures
        r.wf(),
        r@ == partial_of(*s, i as int, g@),
        r@.shape == pshape(*s, i as int),
{
    let ghost osh = s.out.shape@;
    match &s.kind {
        StepKind::SumK { shape } => {
            // multiplying a tensor of ones by the scalar gradient is the
            // identity on the gradient value, so the broadcast is direct
            proof {
                assert(seq![1usize].drop_last() =~= Seq::<usize>::empty());
                assert(prod(Seq::<usize>::empty()) == 1);
                assert(prod(seq![1usize]) == prod(seq![1usize].drop_last()) * (seq![1usize].last()
                    as int));
                assert(prod(osh) == 1);
                assert(g@.data.len() == 1);
            }
            let r = Tensor::full(crate::tensor::copy_shape(shape), g.data[0]);
            proof {
                assert(r@ =~= tv_broadcast_scalar(shape@, g@.data[0]));
            }
            r
        },
        StepKind::SumDimK { shape, d } => {
            proof {
                assert(g@.shape.update(*d as int, shape@[*d as int]) =~= shape@);
                assert(g@.shape.skip(*d as int + 1) =~= shape@.skip(*d as int + 1));
            }
            let r = g.expand_dim(*d, shape[*d]);
            proof {
                assert(r@ =~= tv_expand(g@, *d as int, shape@[*d as int]));
            }
            r
        },
        StepKind::MeanK { shape } => {
            proof {
                assert(seq![1usize].drop_last() =~= Seq::<usize>::empty());
                assert(prod(Seq::<usize>::empty()) == 1);
                assert(prod(seq![1usize]) == prod(seq![1usize].drop_last()) * (seq![1usize].last()
                    as int));
                assert(prod(osh) == 1);
                assert(g@.data.len() == 1);
            }
            let n = crate::shape::num_elems(shape);
            let r = Tensor::full(
                crate::tensor::copy_shape(shape),
                crate::fixed::div_int_fx(g.data[0], n as i64),
            );
            proof {
                assert(r@ =~= tv_broadcast_scalar(
                    shape@,
                    fx_div_int(g@.data[0], prod(shape@) as i64),
                ));
            }
            r
        },
        StepKind::MeanDimK { shape, d } => {
            let scaled = g.div_int_scalar(shape[*d] as i64);
            proof {
                assert(scaled@.shape.update(*d as int, shape@[*d as int]) =~= shape@);
                assert(scaled@.shape.skip(*d as int + 1) =~= shape@.skip(*d as int + 1));
            }
            let r = scaled.expand_dim(*d, shape[*d]);
            proof {
                assert(r@ =~= tv_expand(
                    tv_uop(Uop::DivIntS(shape@[*d as int] as i64), g@),
                    *d as int,
                    shape@[*d as int],
                ));
            }
            r
        },
        StepKind::AvgPool1dK { shape, kernel, stride, padding } => {
            let base = Tensor::zeros(crate::tensor::copy_shape(shape));
            let r = base.avg_pool_last_backward(g, *kernel, *stride, *padding);
            proof {
                assert(r@ =~= tv_pool_back(
                    tv_zeros(shape@),
                    g@,
                    *kernel as int,
                    *stride as int,
                    *padding as int,
                ));
            }
            r
        },
        StepKind::CatK { d, offsets } => {
            let mut ranges: Vec<(usize, usize)> = Vec::new();
            let ghost size = pshape(*s, i as int)[*d as int];
            let offset = offsets[i];
            let psize = match &s.parents[i] {
                Some(p) => p.shape[*d],
                None => 0,
            };
            let mut k: usize = 0;
            while k < g.shape.len()
                invariant
                    0 <= k <= g@.shape.len(),
                    g@.shape == osh,
                    *d < osh.len(),
                    live(*s, i as int),
                    psize == size,
                    (offset as int) + size <= osh[*d as int],
                    offset == offsets@[i as int],
                    ranges@.len() == k,
                    forall|j: int| 0 <= j < k ==> ranges@[j] == cat_ranges(
                        osh,
                        *d as int,
                        offset,
                        (size) as usize,
                    )[j],
                decreases g@.shape.len() - k,
            {
                if k == *d {
                    ranges.push((offset, offset + psize));
                } else {
                    ranges.push((0, g.shape[k]));
                }
                k += 1;
            }
            proof {
                assert(ranges@ =~= cat_ranges(osh, *d as int, offset, size as usize));
                assert forall|j: int| 0 <= j < ranges@.len() implies #[trigger] ranges@[j].0
                    <= ranges@[j].1 && ranges@[j].1 <= g@.shape[j] by {
                    if j == *d {
                        assert(ranges@[j] == ((offset, (offset + size) as usize)));
                    } else {
                        assert(ranges@[j] == ((0usize, osh[j])));
                    }
                }
            }
            let r = g.index(&ranges);
            proof {
                assert(r@ =~= tv_slice(g@, cat_ranges(osh, *d as int, offset, size as usize)));
                assert(r@.shape =~= pshape(*s, i as int));
            }
            r
        },
        _ => {
            proof {
                assert(false);
            }
            g.dup()
        },
    }
}

/// Compute the partial gradient a step delivers to one live parent.
pub fn partial_exec(s: &Step, i: usize, g: &Tensor) -> (r: Tensor)
    requires
        step_wf(*s),
        g.wf(),
        g@.shape == s.out.shape@,
        live(*s, i as int),
    ensures
        r.wf(),
        r@ == partial_of(*s, i as int, g@),
        r@.shape == pshape(*s, i as int),
{
    match &s.kind {
        StepKind::MatmulK { .. } | StepKind::SwapDimsK { .. } | StepKind::ReshapeK { .. } => {
            partial_exec_b(s, i, g)
        },
        StepKind::IndexSelectK { .. } | StepKind::IndexSelectAssignK { .. }
            | StepKind::IndexSelectDimK { .. } | StepKind::IndexSelectDimAssignK { .. }
            | StepKind::IndexK { .. } | StepKind::IndexAssignK { .. } => {
            partial_exec_c(s, i, g)
        },
        StepKind::SumK { .. } | StepKind::SumDimK { .. } | StepKind::MeanK { .. }
            | StepKind::MeanDimK { .. } | StepKind::AvgPool1dK { .. } | StepKind::CatK { .. } => {
            partial_exec_d(s, i, g)
        },
        _ => partial_exec_a(s, i, g),
    }
}

/// One step applied at the map level: consume the output's gradient (zeros
/// of the output shape when absent), then deliver each live parent its
/// partial, in parent order.
pub open spec fn deliver(s: Step, g: TView, m: Map<u64, TView>, n: int) -> Map<u64, TView>
    decreases n,
{
    if n <= 0 {
        m
    } else {
        let m2 = deliver(s, g, m, n - 1);
        if live(s, n - 1) {
            reg_spec(m2, s.parents[n - 1].unwrap().id, partial_of(s, n - 1, g))
        } else {
            m2
        }
    }
}

pub open spec fn apply_step(s: Step, m: Map<u64, TView>) -> Map<u64, TView> {
    let g = if m.contains_key(s.out.id) {
        m[s.out.id]
    } else {
        tv_zeros(s.out.shape@)
    };
    deliver(s, g, m.remove(s.out.id), s.parents@.len() as int)
}

/// The backward traversal at the map level: apply the steps from the last
/// (highest order) to the first.
pub open spec fn run_rev(ss: Seq<Step>, m: Map<u64, TView>) -> Map<u64, TView>
    decreases ss.len(),
{
    if ss.len() == 0 {
        m
    } else {
        run_rev(ss.drop_last(), apply_step(ss.last(), m))
    }
}

/// Consistency of one identity-shape pair with every mention of that
/// identity in the graph and with the root.
pub open spec fn entry_ok(
    ss: Seq<Step>,
    root_id: u64,
    root_shape: Seq<usize>,
    id: u64,
    sh: Seq<usize>,
) -> bool {
    &&& (id == root_id ==> sh == root_shape)
    &&& forall|k: int| 0 <= k < ss.len() && (#[trigger] ss[k]).out.id == id ==> sh
        == ss[k].out.shape@
    &&& forall|k: int, i: int|
        live(ss[k], i) && 0 <= k < ss.len() && #[trigger] ss[k].parents@[i].unwrap().id == id
            ==> sh == pshape(ss[k], i)
}

/// Well-formedness of a whole recorded graph with respect to the root it
/// will be traversed from: steps are ordered and individually well formed,
/// and every mention of one node identity agrees on its shape.
pub open spec fn gwf(ss: Seq<Step>, root_id: u64, root_shape: Seq<usize>) -> bool {
    &&& crate::graph::sorted_steps(ss)
    &&& prod(root_shape) <= usize::MAX
    &&& forall|k: int| 0 <= k < ss.len() ==> step_wf(#[trigger] ss[k])
    &&& forall|k: int| 0 <= k < ss.len() ==> entry_ok(
        ss,
        root_id,
        root_shape,
        (#[trigger] ss[k]).out.id,
        ss[k].out.shape@,
    )
    &&& forall|k: int, i: int|
        0 <= k < ss.len() && live(ss[k], i) ==> entry_ok(
            ss,
            root_id,
            root_shape,
            #[trigger] ss[k].parents@[i].unwrap().id,
            pshape(ss[k], i),
        )
    &&& entry_ok(ss, root_id, root_shape, root_id, root_shape)
}

/// Every gradient in the store conforms to the graph's shapes.
pub open spec fn store_ok(
    m: Map<u64, TView>,
    ss: Seq<Step>,
    root_id: u64,
    root_shape: Seq<usize>,
) -> bool {
    forall|id: u64| #[trigger] m.contains_key(id) ==> entry_ok(ss, root_id, root_shape, id, m[id].shape)
        && crate::tensor::tv_wf(m[id]) && prod(m[id].shape) <= usize::MAX
}

/// Run one step against the store: consume the output gradient and deliver
/// each live parent its partial.
fn step_apply_exec(
    s: &Step,
    grads: &mut Gradients,
    Ghost(ss): Ghost<Seq<Step>>,
    Ghost(root_id): Ghost<u64>,
    Ghost(root_shape): Ghost<Seq<usize>>,
)
    requires
        gwf(ss, root_id, root_shape),
        ss.contains(*s),
        old(grads).wf(),
        store_ok(old(grads)@, ss, root_id, root_shape),
    ensures
        final(grads).wf(),
        final(grads)@ == apply_step(*s, old(grads)@),
        store_ok(final(grads)@, ss, root_id, root_shape),
{
    let ghost k0 = choose|k: int| 0 <= k < ss.len() && ss[k] == *s;
    proof {
        assert(step_wf(*s));
        if old(grads)@.contains_key(s.out.id) {
            assert(entry_ok(ss, root_id, root_shape, s.out.id, old(grads)@[s.out.id].shape));
            assert(old(grads)@[s.out.id].shape == s.out.shape@);
        }
    }
    let g = grads.consume(s.out.id, crate::tensor::copy_shape(&s.out.shape));
    let ghost gv = g@;
    let ghost m0 = old(grads)@.remove(s.out.id);
    let mut i: usize = 0;
    while i < s.parents.len()
        invariant
            0 <= i <= s.parents@.len(),
            gwf(ss, root_id, root_shape),
            ss.contains(*s),
            ss[k0] == *s,
            0 <= k0 < ss.len(),
            g.wf(),
            g@ == gv,
            g@.shape == s.out.shape@,
            grads.wf(),
            grads@ == deliver(*s, gv, m0, i as int),
            store_ok(grads@, ss, root_id, root_shape),
        decreases s.parents@.len() - i,
    {
        let is_live = match &s.parents[i] {
            Some(_) => true,
            None => false,
        };
        if is_live {
            let p = partial_exec(s, i, &g);
            let pid = match &s.parents[i] {
                Some(pr) => pr.id,
                None => 0,
            };
            proof {
                // the target entry, if present, already has the partial's shape
                if grads@.contains_key(pid) {
                    assert(entry_ok(ss, root_id, root_shape, pid, grads@[pid].shape));
                    assert(live(ss[k0], i as int));
                    assert(grads@[pid].shape == pshape(*s, i as int));
                }
            }
            grads.register(pid, p);
            proof {
                // the new or summed entry stays consistent
                assert(entry_ok(ss, root_id, root_shape, pid, pshape(*s, i as int))) by {
                    assert(live(ss[k0], i as int));
                }
                assert forall|id: u64| #[trigger] grads@.contains_key(id) implies entry_ok(
                    ss,
                    root_id,
                    root_shape,
                    id,
                    grads@[id].shape,
                ) && crate::tensor::tv_wf(grads@[id]) && prod(grads@[id].shape) <= usize::MAX by {
                    if id != pid {
                        assert(deliver(*s, gv, m0, i as int).contains_key(id));
                    } else {
                        assert(grads@[id].shape == pshape(*s, i as int));
                        assert(prod(pshape(*s, i as int)) <= usize::MAX);
                    }
                }
            }
        }
        i += 1;
    }
}

/// Run a whole step list from the last (highest order) step to the first.
pub fn run_steps(
    steps: &Vec<Rc<Step>>,
    grads: &mut Gradients,
    Ghost(root_id): Ghost<u64>,
    Ghost(root_shape): Ghost<Seq<usize>>,
)
    requires
        gwf(steps_view(steps@), root_id, root_shape),
        old(grads).wf(),
        store_ok(old(grads)@, steps_view(steps@), root_id, root_shape),
    ensures
        final(grads).wf(),
        final(grads)@ == run_rev(steps_view(steps@), old(grads)@),
        store_ok(final(grads)@, steps_view(steps@), root_id, root_shape),
{
    let ghost vs = steps_view(steps@);
    let ghost m_init = old(grads)@;
    let mut k: usize = steps.len();
    proof {
        assert(vs.take(vs.len() as int) =~= vs);
    }
    while k > 0
        invariant
            0 <= k <= vs.len(),
            vs == steps_view(steps@),
            vs.len() == steps@.len(),
            gwf(vs, root_id, root_shape),
            grads.wf(),
            store_ok(grads@, vs, root_id, root_shape),
            run_rev(vs.take(k as int), grads@) == run_rev(vs, m_init),
        decreases k,
    {
        k -= 1;
        let ghost before = grads@;
        let stp: &Rc<Step> = &steps[k];
        proof {
            assert(vs[k as int] == *steps@[k as int]);
            assert(vs.contains(vs[k as int]));
        }
        step_apply_exec(
            stp,
            grads,
            Ghost(vs),
            Ghost(root_id),
            Ghost(root_shape),
        );
        proof {
            assert(vs.take(k as int + 1).drop_last() =~= vs.take(k as int));
            assert(vs.take(k as int + 1).last() == vs[k as int]);
            assert(run_rev(vs.take(k as int + 1), before) == run_rev(
                vs.take(k as int),
                apply_step(vs[k as int], before),
            ));
        }
    }
    proof {
        assert(vs.take(0) =~= Seq::<Step>::empty());
    }
}

} // verus!
