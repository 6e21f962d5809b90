//! End-to-end backward scenarios over the tracked tensor operations.

use autodiff::tensor::{IntTensor, Tensor};
use autodiff::var::{Session, Var};
use autodiff::var_ops::{ad_add, ad_mul, ad_mul_scalar};
use autodiff::var_ops2::{ad_matmul, ad_reshape, ad_sum};
use autodiff::var_ops3::{ad_index_select, ad_maximum, AdError};
use autodiff::var_ops4::ad_cat;

fn fx(x: f64) -> i64 {
    (x * 1_000_000.0).round() as i64
}

fn leaf(ctx: &mut Session, data: Vec<f64>, shape: Vec<usize>) -> Var {
    let units: Vec<i64> = data.iter().map(|v| fx(*v)).collect();
    Var::from_inner(ctx, Tensor::from_data(units, shape)).require_grad(ctx)
}

#[test]
fn mul_backward_delivers_each_operand() {
    let mut ctx = Session::new();
    let a = leaf(&mut ctx, vec![2.0, 3.0], vec![2]);
    let b = leaf(&mut ctx, vec![4.0, 5.0], vec![2]);
    let y = ad_mul(&mut ctx, a.dup(), b.dup());
    let loss = ad_sum(&mut ctx, y);
    let grads = loss.backward();
    let ga = a.grad(&grads).unwrap();
    let gb = b.grad(&grads).unwrap();
    assert_eq!(ga.to_data(), vec![fx(4.0), fx(5.0)]);
    assert_eq!(gb.to_data(), vec![fx(2.0), fx(3.0)]);
}

#[test]
fn matmul_backward_matches_transposed_products() {
    let mut ctx = Session::new();
    let a = leaf(&mut ctx, vec![1.0, 2.0, 3.0, 4.0, 5.0, 6.0], vec![2, 3]);
    let b = leaf(&mut ctx, vec![7.0, 8.0, 9.0, 10.0, 11.0, 12.0], vec![3, 2]);
    let y = ad_matmul(&mut ctx, a.dup(), b.dup());
    // backward on the matrix output seeds its gradient with ones(2, 2)
    let grads = y.backward();
    let ga = a.grad(&grads).unwrap();
    let gb = b.grad(&grads).unwrap();
    // grad_a = ones * b^T, grad_b = a^T * ones
    assert_eq!(
        ga.to_data(),
        vec![fx(15.0), fx(19.0), fx(23.0), fx(15.0), fx(19.0), fx(23.0)]
    );
    assert_eq!(
        gb.to_data(),
        vec![fx(5.0), fx(5.0), fx(7.0), fx(7.0), fx(9.0), fx(9.0)]
    );
}

#[test]
fn reshape_backward_restores_the_original_shape() {
    let mut ctx = Session::new();
    let a = leaf(&mut ctx, vec![0.5, 1.5, 2.5, 3.5, 4.5, 5.5], vec![2, 3]);
    let y = ad_reshape(&mut ctx, a.dup(), vec![6]);
    let loss = ad_sum(&mut ctx, y);
    let grads = loss.backward();
    let ga = a.grad(&grads).unwrap();
    assert_eq!(ga.dims(), vec![2, 3]);
    assert_eq!(ga.to_data(), vec![fx(1.0); 6]);
}

#[test]
fn gather_backward_accumulates_repeated_indices() {
    let mut ctx = Session::new();
    let a = leaf(&mut ctx, vec![10.0, 20.0, 30.0], vec![3]);
    let idx = IntTensor::from_values(vec![0, 0, 2, 1]);
    let y = ad_index_select(&mut ctx, a.dup(), idx);
    let loss = ad_sum(&mut ctx, y);
    let grads = loss.backward();
    let ga = a.grad(&grads).unwrap();
    assert_eq!(ga.to_data(), vec![fx(2.0), fx(1.0), fx(1.0)]);
}

#[test]
fn cat_backward_splits_the_gradient_and_skips_untracked_parents() {
    let mut ctx = Session::new();
    let t1 = leaf(&mut ctx, vec![1.0, 2.0, 3.0, 4.0], vec![2, 2]);
    let t2 = leaf(&mut ctx, vec![5.0, 6.0], vec![1, 2]);
    let parts = vec![t1.dup(), t2.dup()];
    let y = ad_cat(&mut ctx, &parts, 0);
    assert_eq!(y.dims(), vec![3, 2]);
    let grads = y.backward();
    let g1 = t1.grad(&grads).unwrap();
    let g2 = t2.grad(&grads).unwrap();
    assert_eq!(g1.dims(), vec![2, 2]);
    assert_eq!(g1.to_data(), vec![fx(1.0); 4]);
    assert_eq!(g2.dims(), vec![1, 2]);
    assert_eq!(g2.to_data(), vec![fx(1.0); 2]);

    // an untracked part receives no gradient entry
    let mut ctx = Session::new();
    let marked = leaf(&mut ctx, vec![1.0, 2.0], vec![1, 2]);
    let plain = Var::from_inner(
        &mut ctx,
        Tensor::from_data(vec![fx(9.0), fx(8.0)], vec![1, 2]),
    );
    let parts = vec![marked.dup(), plain.dup()];
    let y = ad_cat(&mut ctx, &parts, 0);
    let grads = y.backward();
    assert!(marked.grad(&grads).is_some());
    assert!(plain.grad(&grads).is_none());
}

#[test]
fn detached_branch_contributes_no_gradient() {
    let mut ctx = Session::new();
    let a = leaf(&mut ctx, vec![2.0, 3.0], vec![2]);
    let b = leaf(&mut ctx, vec![4.0, 5.0], vec![2]);
    let c = ad_mul(&mut ctx, a.dup(), b.dup());
    let d = c.detach(&mut ctx);
    let loss = ad_sum(&mut ctx, d);
    let grads = loss.backward();
    assert!(a.grad(&grads).is_none());
    assert!(b.grad(&grads).is_none());
}

#[test]
fn detach_preserves_the_leaf_marker() {
    let mut ctx = Session::new();
    let a = leaf(&mut ctx, vec![1.0], vec![1]);
    let d = a.detach(&mut ctx);
    assert!(d.is_require_grad());
    let plain = Var::from_inner(&mut ctx, Tensor::from_data(vec![fx(1.0)], vec![1]));
    let d2 = plain.detach(&mut ctx);
    assert!(!d2.is_require_grad());
}

#[test]
fn requirement_joins_parents() {
    let mut ctx = Session::new();
    let a = leaf(&mut ctx, vec![1.0], vec![1]);
    let plain = Var::from_inner(&mut ctx, Tensor::from_data(vec![fx(2.0)], vec![1]));
    let y = ad_mul(&mut ctx, a.dup(), plain.dup());
    assert!(y.is_tracked());
    assert!(!y.is_require_grad());
    let z = ad_mul(&mut ctx, plain.dup(), plain.dup());
    assert!(!z.is_tracked());
    let grads = z.backward();
    assert!(plain.grad(&grads).is_none());
}

#[test]
fn accumulation_sums_gradients_over_multiple_paths() {
    let mut ctx = Session::new();
    let a = leaf(&mut ctx, vec![3.0], vec![1]);
    let doubled = ad_add(&mut ctx, a.dup(), a.dup());
    let loss = ad_sum(&mut ctx, doubled);
    let grads = loss.backward();
    let ga = a.grad(&grads).unwrap();
    assert_eq!(ga.to_data(), vec![fx(2.0)]);
}

#[test]
fn gradient_linearity_on_a_two_leaf_combination() {
    // d(alpha * u + beta * v)/du = alpha and /dv = beta
    let mut ctx = Session::new();
    let u = leaf(&mut ctx, vec![1.5, -2.0], vec![2]);
    let v = leaf(&mut ctx, vec![0.25, 4.0], vec![2]);
    let au = ad_mul_scalar(&mut ctx, u.dup(), fx(3.0));
    let bv = ad_mul_scalar(&mut ctx, v.dup(), fx(-0.5));
    let w = ad_add(&mut ctx, au, bv);
    let loss = ad_sum(&mut ctx, w);
    let grads = loss.backward();
    assert_eq!(u.grad(&grads).unwrap().to_data(), vec![fx(3.0), fx(3.0)]);
    assert_eq!(
        v.grad(&grads).unwrap().to_data(),
        vec![fx(-0.5), fx(-0.5)]
    );
}

#[test]
fn maximum_reports_not_implemented() {
    let mut ctx = Session::new();
    let a = leaf(&mut ctx, vec![1.0], vec![1]);
    let b = leaf(&mut ctx, vec![2.0], vec![1]);
    let r = ad_maximum(&a, &b);
    assert_eq!(r.unwrap_err(), AdError::NotImplemented);
    let _ = ctx;
}

#[test]
fn backward_on_untracked_root_is_empty() {
    let mut ctx = Session::new();
    let plain = Var::from_inner(&mut ctx, Tensor::from_data(vec![fx(1.0)], vec![1]));
    let grads = plain.backward();
    assert!(plain.grad(&grads).is_none());
}

#[test]
fn grad_remove_consumes_the_entry() {
    let mut ctx = Session::new();
    let a = leaf(&mut ctx, vec![1.0, 2.0], vec![2]);
    let loss = ad_sum(&mut ctx, a.dup());
    let mut grads = loss.backward();
    let taken = a.grad_remove(&mut grads).unwrap();
    assert_eq!(taken.to_data(), vec![fx(1.0), fx(1.0)]);
    assert!(a.grad(&grads).is_none());
}
