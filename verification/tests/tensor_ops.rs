//! The dense fixed-point backend: arithmetic, saturation, elementary
//! functions, indexing, reductions and shape movements.

use autodiff::rng::Rng;
use autodiff::tensor::{IntTensor, Tensor};

fn fx(x: f64) -> i64 {
    (x * 1_000_000.0).round() as i64
}

fn tof(v: i64) -> f64 {
    v as f64 / 1_000_000.0
}

fn t1(vals: &[f64]) -> Tensor {
    Tensor::from_data(vals.iter().map(|v| fx(*v)).collect(), vec![vals.len()])
}

fn assert_close(actual: i64, expected: f64, tol: f64) {
    assert!(
        (tof(actual) - expected).abs() <= tol,
        "expected {} within {} of {}",
        tof(actual),
        tol,
        expected
    );
}

#[test]
fn arithmetic_is_exact_on_representable_values() {
    let a = t1(&[1.5, -2.0, 0.0]);
    let b = t1(&[0.5, 4.0, -1.0]);
    assert_eq!(a.add(&b).to_data(), vec![fx(2.0), fx(2.0), fx(-1.0)]);
    assert_eq!(a.sub(&b).to_data(), vec![fx(1.0), fx(-6.0), fx(1.0)]);
    assert_eq!(a.mul(&b).to_data(), vec![fx(0.75), fx(-8.0), fx(0.0)]);
    assert_eq!(a.div(&b).to_data(), vec![fx(3.0), fx(-0.5), fx(0.0)]);
    assert_eq!(a.neg().to_data(), vec![fx(-1.5), fx(2.0), fx(0.0)]);
    assert_eq!(a.mul_scalar(fx(2.0)).to_data(), vec![fx(3.0), fx(-4.0), fx(0.0)]);
}

#[test]
fn addition_saturates_at_the_bounds() {
    let a = Tensor::from_data(vec![i64::MAX, i64::MIN], vec![2]);
    let b = Tensor::from_data(vec![1, -1], vec![2]);
    assert_eq!(a.add(&b).to_data(), vec![i64::MAX, i64::MIN]);
}

#[test]
fn division_by_zero_yields_zero() {
    let a = t1(&[5.0]);
    let z = t1(&[0.0]);
    assert_eq!(a.div(&z).to_data(), vec![0]);
    assert_eq!(a.div_scalar(0).to_data(), vec![0]);
}

#[test]
fn elementary_functions_approximate_their_values() {
    let x = t1(&[1.0]);
    assert_close(x.exp().to_data()[0], 2.718282, 1e-3);
    assert_close(x.log().to_data()[0], 0.0, 1e-3);
    let e = t1(&[2.718282]);
    assert_close(e.log().to_data()[0], 1.0, 1e-3);
    let four = t1(&[4.0]);
    assert_eq!(four.sqrt().to_data(), vec![fx(2.0)]);
    let zero = t1(&[0.0]);
    assert_eq!(zero.tanh().to_data(), vec![0]);
    assert_eq!(zero.sin().to_data(), vec![0]);
    assert_eq!(zero.cos().to_data(), vec![fx(1.0)]);
    let half = t1(&[0.5]);
    assert_close(half.sin().to_data()[0], 0.479426, 1e-3);
    assert_close(half.cos().to_data()[0], 0.877583, 1e-3);
    assert_close(half.tanh().to_data()[0], 0.462117, 1e-3);
    let one = t1(&[1.0]);
    assert_close(one.erf().to_data()[0], 0.842701, 2e-3);
    let two = t1(&[2.0]);
    assert_close(two.powf(fx(2.0)).to_data()[0], 4.0, 2e-2);
    assert_close(two.log1p().to_data()[0], 1.098612, 1e-3);
}

#[test]
fn relu_zeroes_the_negative_part() {
    let a = t1(&[-1.0, 0.0, 2.5]);
    assert_eq!(a.relu().to_data(), vec![0, 0, fx(2.5)]);
}

#[test]
fn reductions_match_their_formulas() {
    let a = t1(&[1.0, 2.0, 3.0, 4.0]);
    assert_eq!(a.sum().to_data(), vec![fx(10.0)]);
    assert_eq!(a.mean().to_data(), vec![fx(2.5)]);
    let m = Tensor::from_data(
        vec![fx(1.0), fx(2.0), fx(3.0), fx(4.0), fx(5.0), fx(6.0)],
        vec![2, 3],
    );
    let rows = m.sum_dim(1);
    assert_eq!(rows.dims(), vec![2, 1]);
    assert_eq!(rows.to_data(), vec![fx(6.0), fx(15.0)]);
    let cols = m.sum_dim(0);
    assert_eq!(cols.dims(), vec![1, 3]);
    assert_eq!(cols.to_data(), vec![fx(5.0), fx(7.0), fx(9.0)]);
    assert_eq!(m.mean_dim(1).to_data(), vec![fx(2.0), fx(5.0)]);
}

#[test]
fn argmax_and_argmin_take_the_first_extremum() {
    let a = Tensor::from_data(
        vec![fx(1.0), fx(3.0), fx(3.0), fx(0.0), fx(-1.0), fx(2.0)],
        vec![2, 3],
    );
    assert_eq!(a.argmax(1).to_data(), vec![1, 2]);
    assert_eq!(a.argmin(1).to_data(), vec![0, 1]);
}

#[test]
fn comparisons_are_pointwise() {
    let a = t1(&[1.0, 2.0, 3.0]);
    let b = t1(&[2.0, 2.0, 2.0]);
    assert_eq!(a.equal(&b).data, vec![false, true, false]);
    assert_eq!(a.greater(&b).data, vec![false, false, true]);
    assert_eq!(a.greater_equal(&b).data, vec![false, true, true]);
    assert_eq!(a.lower(&b).data, vec![true, false, false]);
    assert_eq!(a.lower_equal(&b).data, vec![true, true, false]);
    assert_eq!(a.greater_elem(fx(1.5)).data, vec![false, true, true]);
    assert_eq!(a.equal_elem(fx(2.0)).data, vec![false, true, false]);
}

#[test]
fn masks_fill_and_scatter() {
    let a = t1(&[1.0, 2.0, 3.0]);
    let mask = a.greater_elem(fx(1.5));
    assert_eq!(
        a.mask_fill(&mask, fx(9.0)).to_data(),
        vec![fx(1.0), fx(9.0), fx(9.0)]
    );
    let src = t1(&[7.0, 8.0, 9.0]);
    assert_eq!(
        a.mask_scatter(&mask, &src).to_data(),
        vec![fx(1.0), fx(8.0), fx(9.0)]
    );
}

#[test]
fn gather_and_scatter_add() {
    let a = t1(&[10.0, 20.0, 30.0]);
    let idx = IntTensor::from_values(vec![0, 0, 2, 1]);
    let picked = a.index_select(&idx);
    assert_eq!(
        picked.to_data(),
        vec![fx(10.0), fx(10.0), fx(30.0), fx(20.0)]
    );
    let vals = t1(&[1.0, 2.0, 3.0, 4.0]);
    let scattered = a.index_select_assign(&idx, &vals);
    assert_eq!(
        scattered.to_data(),
        vec![fx(13.0), fx(24.0), fx(33.0)]
    );
}

#[test]
fn gather_along_a_dimension() {
    let m = Tensor::from_data(
        vec![fx(1.0), fx(2.0), fx(3.0), fx(4.0), fx(5.0), fx(6.0)],
        vec![2, 3],
    );
    let idx = IntTensor::from_values(vec![2, 0]);
    let picked = m.index_select_dim(1, &idx);
    assert_eq!(picked.dims(), vec![2, 2]);
    assert_eq!(
        picked.to_data(),
        vec![fx(3.0), fx(1.0), fx(6.0), fx(4.0)]
    );
}

#[test]
fn slicing_and_slice_assignment() {
    let m = Tensor::from_data(
        vec![fx(1.0), fx(2.0), fx(3.0), fx(4.0), fx(5.0), fx(6.0)],
        vec![2, 3],
    );
    let sliced = m.index(&vec![(0, 2), (1, 3)]);
    assert_eq!(sliced.dims(), vec![2, 2]);
    assert_eq!(
        sliced.to_data(),
        vec![fx(2.0), fx(3.0), fx(5.0), fx(6.0)]
    );
    let patch = Tensor::from_data(vec![fx(9.0), fx(8.0)], vec![1, 2]);
    let written = m.index_assign(&vec![(1, 2), (0, 2)], &patch);
    assert_eq!(
        written.to_data(),
        vec![fx(1.0), fx(2.0), fx(3.0), fx(9.0), fx(8.0), fx(6.0)]
    );
}

#[test]
fn swap_dims_remaps_indices() {
    let m = Tensor::from_data(
        vec![fx(1.0), fx(2.0), fx(3.0), fx(4.0), fx(5.0), fx(6.0)],
        vec![2, 3],
    );
    let t = m.swap_dims(0, 1);
    assert_eq!(t.dims(), vec![3, 2]);
    assert_eq!(
        t.to_data(),
        vec![fx(1.0), fx(4.0), fx(2.0), fx(5.0), fx(3.0), fx(6.0)]
    );
}

#[test]
fn matmul_of_known_matrices() {
    let a = Tensor::from_data(
        vec![fx(1.0), fx(2.0), fx(3.0), fx(4.0), fx(5.0), fx(6.0)],
        vec![2, 3],
    );
    let b = Tensor::from_data(
        vec![fx(7.0), fx(8.0), fx(9.0), fx(10.0), fx(11.0), fx(12.0)],
        vec![3, 2],
    );
    let c = a.matmul(&b);
    assert_eq!(c.dims(), vec![2, 2]);
    assert_eq!(
        c.to_data(),
        vec![fx(58.0), fx(64.0), fx(139.0), fx(154.0)]
    );
}

#[test]
fn concatenation_along_both_dimensions() {
    let a = Tensor::from_data(vec![fx(1.0), fx(2.0)], vec![1, 2]);
    let b = Tensor::from_data(vec![fx(3.0), fx(4.0)], vec![1, 2]);
    let rows = autodiff::tensor_linalg::cat(&vec![a.dup(), b.dup()], 0);
    assert_eq!(rows.dims(), vec![2, 2]);
    assert_eq!(rows.to_data(), vec![fx(1.0), fx(2.0), fx(3.0), fx(4.0)]);
    let cols = autodiff::tensor_linalg::cat(&vec![a, b], 1);
    assert_eq!(cols.dims(), vec![1, 4]);
    assert_eq!(cols.to_data(), vec![fx(1.0), fx(2.0), fx(3.0), fx(4.0)]);
}

#[test]
fn empty_tensors_reduce_to_zero() {
    let empty = Tensor::from_data(vec![], vec![0]);
    assert_eq!(empty.sum().to_data(), vec![0]);
    let z = Tensor::zeros(vec![2, 2]);
    assert_eq!(z.to_data(), vec![0; 4]);
    let o = Tensor::ones(vec![3]);
    assert_eq!(o.to_data(), vec![fx(1.0); 3]);
}

#[test]
fn arange_counts_from_start() {
    let r = IntTensor::arange(2, 6);
    assert_eq!(r.to_data(), vec![2, 3, 4, 5]);
}

#[test]
fn reshape_keeps_contents() {
    let a = t1(&[1.0, 2.0, 3.0, 4.0]);
    let m = a.reshape(vec![2, 2]);
    assert_eq!(m.dims(), vec![2, 2]);
    assert_eq!(m.to_data(), a.to_data());
}

#[test]
fn random_fills_within_the_range_and_is_reproducible() {
    let mut rng = Rng::seed(7);
    let t = Tensor::random(vec![4, 4], 0, fx(1.0), &mut rng);
    assert_eq!(t.dims(), vec![4, 4]);
    for v in t.to_data() {
        assert!(0 <= v && v < fx(1.0));
    }
    let mut rng2 = Rng::seed(7);
    let t2 = Tensor::random(vec![4, 4], 0, fx(1.0), &mut rng2);
    assert_eq!(t.to_data(), t2.to_data());
}
