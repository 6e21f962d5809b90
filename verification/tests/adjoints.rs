//! Per-operation adjoints: each elementary operation's analytical gradient,
//! checked against exact values and against central finite differences.

use autodiff::tensor::{IntTensor, Tensor};
use autodiff::var::{Session, Var};
use autodiff::var_ops::{
    ad_add_scalar, ad_div, ad_div_scalar, ad_exp, ad_log, ad_neg, ad_relu, ad_sqrt, ad_sub,
    ad_sub_scalar, ad_tanh, ad_to_device, ad_to_full_precision,
};
use autodiff::var_ops2::{ad_mean, ad_mean_dim, ad_sum, ad_sum_dim, ad_swap_dims};
use autodiff::var_ops3::{ad_index, ad_index_assign, ad_mask_fill};

fn fx(x: f64) -> i64 {
    (x * 1_000_000.0).round() as i64
}

fn tof(v: i64) -> f64 {
    v as f64 / 1_000_000.0
}

fn leaf(ctx: &mut Session, data: Vec<f64>, shape: Vec<usize>) -> Var {
    let units: Vec<i64> = data.iter().map(|v| fx(*v)).collect();
    Var::from_inner(ctx, Tensor::from_data(units, shape)).require_grad(ctx)
}

fn assert_close(actual: &[i64], expected: &[f64], tol: f64) {
    assert_eq!(actual.len(), expected.len());
    for (a, e) in actual.iter().zip(expected.iter()) {
        assert!(
            (tof(*a) - e).abs() <= tol,
            "expected {} within {} of {}",
            tof(*a),
            tol,
            e
        );
    }
}

#[test]
fn sub_backward_negates_the_right_gradient() {
    let mut ctx = Session::new();
    let a = leaf(&mut ctx, vec![5.0, 1.0], vec![2]);
    let b = leaf(&mut ctx, vec![2.0, 3.0], vec![2]);
    let y = ad_sub(&mut ctx, a.dup(), b.dup());
    let loss = ad_sum(&mut ctx, y);
    let grads = loss.backward();
    assert_eq!(a.grad(&grads).unwrap().to_data(), vec![fx(1.0), fx(1.0)]);
    assert_eq!(b.grad(&grads).unwrap().to_data(), vec![fx(-1.0), fx(-1.0)]);
}

#[test]
fn div_backward_follows_the_quotient_rule() {
    let mut ctx = Session::new();
    let a = leaf(&mut ctx, vec![6.0], vec![1]);
    let b = leaf(&mut ctx, vec![2.0], vec![1]);
    let y = ad_div(&mut ctx, a.dup(), b.dup());
    let loss = ad_sum(&mut ctx, y);
    let grads = loss.backward();
    // d(a/b)/da = 1/b, d(a/b)/db = -a/b^2
    assert_close(&a.grad(&grads).unwrap().to_data(), &[0.5], 1e-4);
    assert_close(&b.grad(&grads).unwrap().to_data(), &[-1.5], 1e-4);
}

#[test]
fn scalar_ops_pass_the_gradient_through() {
    let mut ctx = Session::new();
    let a = leaf(&mut ctx, vec![2.0], vec![1]);
    let y = ad_add_scalar(&mut ctx, a.dup(), fx(10.0));
    let y = ad_sub_scalar(&mut ctx, y, fx(3.0));
    let y = ad_div_scalar(&mut ctx, y, fx(2.0));
    let loss = ad_sum(&mut ctx, y);
    let grads = loss.backward();
    assert_close(&a.grad(&grads).unwrap().to_data(), &[0.5], 1e-4);
}

#[test]
fn neg_backward_flips_the_gradient() {
    let mut ctx = Session::new();
    let a = leaf(&mut ctx, vec![4.0], vec![1]);
    let y = ad_neg(&mut ctx, a.dup());
    let loss = ad_sum(&mut ctx, y);
    let grads = loss.backward();
    assert_eq!(a.grad(&grads).unwrap().to_data(), vec![fx(-1.0)]);
}

#[test]
fn exp_backward_reuses_the_forward_output() {
    let mut ctx = Session::new();
    let a = leaf(&mut ctx, vec![1.0], vec![1]);
    let y = ad_exp(&mut ctx, a.dup());
    let loss = ad_sum(&mut ctx, y);
    let grads = loss.backward();
    assert_close(&a.grad(&grads).unwrap().to_data(), &[2.718282], 1e-3);
}

#[test]
fn log_backward_is_the_reciprocal() {
    let mut ctx = Session::new();
    let a = leaf(&mut ctx, vec![4.0], vec![1]);
    let y = ad_log(&mut ctx, a.dup());
    let loss = ad_sum(&mut ctx, y);
    let grads = loss.backward();
    assert_close(&a.grad(&grads).unwrap().to_data(), &[0.25], 1e-3);
}

#[test]
fn sqrt_backward_halves_the_reciprocal_root() {
    let mut ctx = Session::new();
    let a = leaf(&mut ctx, vec![4.0], vec![1]);
    let y = ad_sqrt(&mut ctx, a.dup());
    let loss = ad_sum(&mut ctx, y);
    let grads = loss.backward();
    assert_close(&a.grad(&grads).unwrap().to_data(), &[0.25], 1e-3);
}

#[test]
fn tanh_backward_uses_one_minus_the_square() {
    let mut ctx = Session::new();
    let a = leaf(&mut ctx, vec![0.5], vec![1]);
    let y = ad_tanh(&mut ctx, a.dup());
    let loss = ad_sum(&mut ctx, y);
    let grads = loss.backward();
    // 1 - tanh(0.5)^2
    assert_close(&a.grad(&grads).unwrap().to_data(), &[0.786448], 2e-3);
}

#[test]
fn relu_backward_masks_nonpositive_inputs() {
    let mut ctx = Session::new();
    let a = leaf(&mut ctx, vec![-1.0, 0.0, 2.0], vec![3]);
    let y = ad_relu(&mut ctx, a.dup());
    let loss = ad_sum(&mut ctx, y);
    let grads = loss.backward();
    assert_eq!(
        a.grad(&grads).unwrap().to_data(),
        vec![0, 0, fx(1.0)]
    );
}

#[test]
fn device_and_precision_moves_pass_the_gradient_unchanged() {
    let mut ctx = Session::new();
    let a = leaf(&mut ctx, vec![1.0, 2.0], vec![2]);
    let y = ad_to_device(&mut ctx, a.dup());
    let y = ad_to_full_precision(&mut ctx, y);
    let loss = ad_sum(&mut ctx, y);
    let grads = loss.backward();
    assert_eq!(a.grad(&grads).unwrap().to_data(), vec![fx(1.0), fx(1.0)]);
}

#[test]
fn sum_dim_backward_broadcasts_along_the_axis() {
    let mut ctx = Session::new();
    let a = leaf(&mut ctx, vec![1.0, 2.0, 3.0, 4.0, 5.0, 6.0], vec![2, 3]);
    let y = ad_sum_dim(&mut ctx, a.dup(), 1);
    let loss = ad_sum(&mut ctx, y);
    let grads = loss.backward();
    assert_eq!(a.grad(&grads).unwrap().to_data(), vec![fx(1.0); 6]);
}

#[test]
fn mean_backward_scales_by_the_count() {
    let mut ctx = Session::new();
    let a = leaf(&mut ctx, vec![1.0, 2.0, 3.0, 4.0], vec![4]);
    let y = ad_mean(&mut ctx, a.dup());
    let grads = y.backward();
    assert_eq!(a.grad(&grads).unwrap().to_data(), vec![fx(0.25); 4]);
}

#[test]
fn mean_dim_backward_scales_by_the_extent() {
    let mut ctx = Session::new();
    let a = leaf(&mut ctx, vec![1.0, 2.0, 3.0, 4.0, 5.0, 6.0], vec![2, 3]);
    let y = ad_mean_dim(&mut ctx, a.dup(), 1);
    let loss = ad_sum(&mut ctx, y);
    let grads = loss.backward();
    assert_close(
        &a.grad(&grads).unwrap().to_data(),
        &[0.333333; 6],
        1e-3,
    );
}

#[test]
fn swap_dims_backward_swaps_back() {
    let mut ctx = Session::new();
    let a = leaf(&mut ctx, vec![1.0, 2.0, 3.0, 4.0, 5.0, 6.0], vec![2, 3]);
    let y = ad_swap_dims(&mut ctx, a.dup(), 0, 1);
    let loss = ad_sum(&mut ctx, y);
    let grads = loss.backward();
    let g = a.grad(&grads).unwrap();
    assert_eq!(g.dims(), vec![2, 3]);
    assert_eq!(g.to_data(), vec![fx(1.0); 6]);
}

#[test]
fn slice_backward_writes_into_zeros() {
    let mut ctx = Session::new();
    let a = leaf(&mut ctx, vec![1.0, 2.0, 3.0, 4.0], vec![4]);
    let y = ad_index(&mut ctx, a.dup(), vec![(1, 3)]);
    let loss = ad_sum(&mut ctx, y);
    let grads = loss.backward();
    assert_eq!(
        a.grad(&grads).unwrap().to_data(),
        vec![0, fx(1.0), fx(1.0), 0]
    );
}

#[test]
fn slice_assignment_backward_splits_base_and_patch() {
    let mut ctx = Session::new();
    let a = leaf(&mut ctx, vec![1.0, 2.0, 3.0, 4.0], vec![4]);
    let patch = leaf(&mut ctx, vec![9.0, 8.0], vec![2]);
    let y = ad_index_assign(&mut ctx, a.dup(), vec![(1, 3)], patch.dup());
    let loss = ad_sum(&mut ctx, y);
    let grads = loss.backward();
    assert_eq!(
        a.grad(&grads).unwrap().to_data(),
        vec![fx(1.0), 0, 0, fx(1.0)]
    );
    assert_eq!(
        patch.grad(&grads).unwrap().to_data(),
        vec![fx(1.0), fx(1.0)]
    );
}

#[test]
fn mask_fill_backward_zeroes_masked_positions() {
    let mut ctx = Session::new();
    let a = leaf(&mut ctx, vec![1.0, -2.0, 3.0], vec![3]);
    let mask = Tensor::from_data(vec![fx(1.0), fx(-2.0), fx(3.0)], vec![3]).lower_elem(0);
    let y = ad_mask_fill(&mut ctx, a.dup(), mask, 0);
    let loss = ad_sum(&mut ctx, y);
    let grads = loss.backward();
    assert_eq!(
        a.grad(&grads).unwrap().to_data(),
        vec![fx(1.0), 0, fx(1.0)]
    );
}

/// Central finite difference of a scalar fixed-point function.
fn central_difference<F: Fn(&Tensor) -> i64>(f: F, at: f64, h: f64) -> f64 {
    let plus = Tensor::from_data(vec![fx(at + h)], vec![1]);
    let minus = Tensor::from_data(vec![fx(at - h)], vec![1]);
    (tof(f(&plus)) - tof(f(&minus))) / (2.0 * h)
}

#[test]
fn analytical_adjoints_agree_with_finite_differences() {
    // the analytical gradients above, against a central difference of the
    // forward primitives, away from singularities
    let cases: Vec<(f64, Box<dyn Fn(&Tensor) -> i64>, Box<dyn Fn(f64) -> f64>)> = vec![
        (0.8, Box::new(|t: &Tensor| t.exp().to_data()[0]), Box::new(|x: f64| x.exp())),
        (2.5, Box::new(|t: &Tensor| t.log().to_data()[0]), Box::new(|x: f64| 1.0 / x)),
        (3.0, Box::new(|t: &Tensor| t.sqrt().to_data()[0]), Box::new(|x: f64| 0.5 / x.sqrt())),
        (0.4, Box::new(|t: &Tensor| t.sin().to_data()[0]), Box::new(|x: f64| x.cos())),
        (0.4, Box::new(|t: &Tensor| t.cos().to_data()[0]), Box::new(|x: f64| -x.sin())),
        (
            0.3,
            Box::new(|t: &Tensor| t.tanh().to_data()[0]),
            Box::new(|x: f64| 1.0 - x.tanh() * x.tanh()),
        ),
    ];
    for (at, f, dexact) in cases {
        let numeric = central_difference(|t| f(t), at, 0.01);
        let exact = dexact(at);
        assert!(
            (numeric - exact).abs() <= 1e-2 * (1.0 + exact.abs()),
            "finite difference {} too far from {}",
            numeric,
            exact
        );
    }
    let _ = IntTensor::from_values(vec![0]);
}
