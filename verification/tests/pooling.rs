//! Average pooling: backward through the tracked operation, and the
//! two-dimensional kernels against an independent reference.

use autodiff::pool::{avg_pool2d, avg_pool2d_backward};
use autodiff::tensor::Tensor;
use autodiff::var::{Session, Var};
use autodiff::var_ops3::ad_avg_pool1d;

fn fx(x: f64) -> i64 {
    (x * 1_000_000.0).round() as i64
}

fn tof(v: i64) -> f64 {
    v as f64 / 1_000_000.0
}

fn assert_close(actual: &[i64], expected: &[f64], tol: f64) {
    assert_eq!(actual.len(), expected.len());
    for (a, e) in actual.iter().zip(expected.iter()) {
        assert!(
            (tof(*a) - e).abs() <= tol,
            "expected {} within {} of {}",
            tof(*a),
            tol,
            e
        );
    }
}

fn pool1d_case(
    batch_size: usize,
    channels: usize,
    kernel_size: usize,
    padding: usize,
    stride: usize,
    length: usize,
    expected_grad: &[f64],
) {
    let mut ctx = Session::new();
    let n = batch_size * channels * length;
    let data: Vec<i64> = (0..n).map(|i| fx(i as f64)).collect();
    let x = Var::from_inner(
        &mut ctx,
        Tensor::from_data(data, vec![batch_size, channels, length]),
    )
    .require_grad(&mut ctx);
    let output = ad_avg_pool1d(&mut ctx, x.dup(), kernel_size, stride, padding);
    let grads = output.backward();
    let xg = x.grad(&grads).unwrap();
    assert_close(&xg.to_data(), expected_grad, 1e-3);
}

#[test]
fn test_avg_pool1d_simple() {
    pool1d_case(
        1,
        1,
        3,
        0,
        1,
        6,
        &[0.3333, 0.6667, 1.0000, 1.0000, 0.6667, 0.3333],
    );
}

#[test]
fn test_avg_pool1d_complex() {
    pool1d_case(
        1,
        2,
        3,
        1,
        2,
        6,
        &[
            0.3333, 0.6667, 0.3333, 0.6667, 0.3333, 0.3333, 0.3333, 0.6667, 0.3333, 0.6667,
            0.3333, 0.3333,
        ],
    );
}

/// A small deterministic generator for reproducible pseudo-random inputs.
struct TestRng {
    state: u64,
}

impl TestRng {
    fn new(seed: u64) -> TestRng {
        TestRng { state: seed.wrapping_mul(6364136223846793005).wrapping_add(1442695040888963407) }
    }

    fn next_unit(&mut self) -> f64 {
        self.state = self
            .state
            .wrapping_mul(6364136223846793005)
            .wrapping_add(1442695040888963407);
        ((self.state >> 11) as f64) / ((1u64 << 53) as f64)
    }
}

fn random_values(seed: u64, n: usize) -> Vec<f64> {
    let mut rng = TestRng::new(seed);
    (0..n).map(|_| rng.next_unit()).collect()
}

fn pool_out_len(len: usize, kernel: usize, stride: usize, padding: usize) -> usize {
    (len + 2 * padding - kernel) / stride + 1
}

/// Direct two-dimensional average pooling over floats, as the reference.
fn reference_pool2d(
    x: &[f64],
    shape: [usize; 4],
    kernel: [usize; 2],
    stride: [usize; 2],
    padding: [usize; 2],
) -> Vec<f64> {
    let [b, c, h, w] = shape;
    let oh = pool_out_len(h, kernel[0], stride[0], padding[0]);
    let ow = pool_out_len(w, kernel[1], stride[1], padding[1]);
    let mut out = Vec::with_capacity(b * c * oh * ow);
    for bi in 0..b {
        for ci in 0..c {
            for i in 0..oh {
                for j in 0..ow {
                    let mut acc = 0.0;
                    for ki in 0..kernel[0] {
                        for kj in 0..kernel[1] {
                            let y = (i * stride[0] + ki) as isize - padding[0] as isize;
                            let xpos = (j * stride[1] + kj) as isize - padding[1] as isize;
                            if y >= 0 && (y as usize) < h && xpos >= 0 && (xpos as usize) < w {
                                acc += x[((bi * c + ci) * h + y as usize) * w + xpos as usize];
                            }
                        }
                    }
                    out.push(acc / (kernel[0] * kernel[1]) as f64);
                }
            }
        }
    }
    out
}

/// The backward reference: each window spreads its incoming gradient.
fn reference_pool2d_backward(
    g: &[f64],
    shape: [usize; 4],
    kernel: [usize; 2],
    stride: [usize; 2],
    padding: [usize; 2],
) -> Vec<f64> {
    let [b, c, h, w] = shape;
    let oh = pool_out_len(h, kernel[0], stride[0], padding[0]);
    let ow = pool_out_len(w, kernel[1], stride[1], padding[1]);
    let mut out = vec![0.0; b * c * h * w];
    let denom = (kernel[0] * kernel[1]) as f64;
    for bi in 0..b {
        for ci in 0..c {
            for i in 0..oh {
                for j in 0..ow {
                    let gv = g[((bi * c + ci) * oh + i) * ow + j] / denom;
                    for ki in 0..kernel[0] {
                        for kj in 0..kernel[1] {
                            let y = (i * stride[0] + ki) as isize - padding[0] as isize;
                            let xpos = (j * stride[1] + kj) as isize - padding[1] as isize;
                            if y >= 0 && (y as usize) < h && xpos >= 0 && (xpos as usize) < w {
                                out[((bi * c + ci) * h + y as usize) * w + xpos as usize] += gv;
                            }
                        }
                    }
                }
            }
        }
    }
    out
}

#[test]
fn avg_pool2d_should_work_with_multiple_invocations() {
    let shape = [32, 32, 32, 32];
    let n = 32 * 32 * 32 * 32;
    let vals = random_values(0, n);
    let data: Vec<i64> = vals.iter().map(|v| fx(*v)).collect();
    let x = Tensor::from_data(data, shape.to_vec());
    let kernel_size = [3, 4];
    let stride = [1, 2];
    let padding = [1, 2];

    let pooled = avg_pool2d(&x, kernel_size, stride, padding);
    let pooled_again = avg_pool2d(&x, kernel_size, stride, padding);
    assert_eq!(pooled.to_data(), pooled_again.to_data());

    let expected = reference_pool2d(&vals, shape, kernel_size, stride, padding);
    assert_close(&pooled.to_data(), &expected, 1e-3);
}

#[test]
fn avg_pool2d_backward_should_work_with_multiple_invocations() {
    let shape = [32, 32, 32, 32];
    let n = 32 * 32 * 32 * 32;
    let vals = random_values(0, n);
    let x = Tensor::from_data(vals.iter().map(|v| fx(*v)).collect(), shape.to_vec());
    let kernel_size = [3, 3];
    let stride = [1, 1];
    let padding = [1, 1];

    let oh = pool_out_len(32, 3, 1, 1);
    let ow = pool_out_len(32, 3, 1, 1);
    let gn = 32 * 32 * oh * ow;
    let gvals = random_values(1, gn);
    let grad_output = Tensor::from_data(
        gvals.iter().map(|v| fx(*v)).collect(),
        vec![32, 32, oh, ow],
    );

    let grad = avg_pool2d_backward(&x, &grad_output, kernel_size, stride, padding);
    let grad_again = avg_pool2d_backward(&x, &grad_output, kernel_size, stride, padding);
    assert_eq!(grad.to_data(), grad_again.to_data());

    let expected = reference_pool2d_backward(&gvals, shape, kernel_size, stride, padding);
    assert_close(&grad.to_data(), &expected, 1e-3);
}
