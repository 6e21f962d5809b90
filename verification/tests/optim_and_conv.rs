//! The optimizer stack and the convolution layer configuration.

use autodiff::conv::{Conv1dConfig, Initializer, PaddingConfig1d};
use autodiff::optim::{
    MomemtumState, Momentum, MomentumConfig, Sgd, SgdConfig, SgdState, WeightDecay,
    WeightDecayConfig, WeightDecayState,
};
use autodiff::tensor::{Device, Tensor};

fn fx(x: f64) -> i64 {
    (x * 1_000_000.0).round() as i64
}

/// The fixed-point product semantics, reproduced independently: truncate
/// the wide product toward zero.
fn ref_mul(a: i64, b: i64) -> i64 {
    let p = (a as i128) * (b as i128);
    (p / 1_000_000) as i64
}

fn tensor1(vals: &[f64]) -> Tensor {
    Tensor::from_data(vals.iter().map(|v| fx(*v)).collect(), vec![vals.len()])
}

#[test]
fn initializer_zeros() {
    let config = Conv1dConfig::new(5, 5, 5).with_initializer(Initializer::Zeros);
    let conv = config.init();
    assert_eq!(config.initializer, Initializer::Zeros);
    assert_eq!(conv.weight.to_data(), vec![0i64; 125]);
}

#[test]
fn configured_custom() {
    let config = Conv1dConfig::new(2, 2, 2)
        .with_padding(PaddingConfig1d::Explicit(2))
        .with_stride(2)
        .with_bias(false)
        .with_dilation(2)
        .with_groups(2)
        .with_initializer(Initializer::Zeros);

    let conv = config.init();

    assert_eq!(conv.padding, PaddingConfig1d::Explicit(2));
    assert_eq!(conv.stride, 2);
    assert!(conv.bias.is_none());
    assert_eq!(conv.dilation, 2);
    assert_eq!(conv.groups, 2);
    assert_eq!(conv.weight.dims(), vec![2, 2, 2]);
    assert_eq!(conv.weight.to_data(), vec![0i64; 8]);
}

#[test]
fn conv1d_forward_computes_windowed_sums() {
    let config = Conv1dConfig::new(1, 1, 2).with_initializer(Initializer::Zeros);
    let mut conv = config.init();
    conv.weight = Tensor::from_data(vec![fx(1.0), fx(1.0)], vec![1, 1, 2]);
    conv.bias = Some(Tensor::from_data(vec![fx(0.5)], vec![1]));
    let input = Tensor::from_data(vec![fx(1.0), fx(2.0), fx(3.0)], vec![1, 1, 3]);
    let out = conv.forward(&input);
    assert_eq!(out.dims(), vec![1, 1, 2]);
    assert_eq!(out.to_data(), vec![fx(3.5), fx(5.5)]);
}

#[test]
fn weight_decay_uses_the_previous_gradient() {
    let wd = WeightDecay::new(&WeightDecayConfig { penalty: fx(0.05) });
    let g0 = tensor1(&[2.0, -1.0]);
    let g1 = tensor1(&[3.0, 0.5]);
    let g2 = tensor1(&[-4.0, 1.0]);

    let (out0, st0) = wd.transform(g0.dup(), None);
    assert_eq!(out0.to_data(), g0.to_data());
    assert_eq!(st0.grad_last_step.to_data(), g0.to_data());

    let (out1, st1) = wd.transform(g1.dup(), Some(st0));
    let expect1: Vec<i64> = g0
        .to_data()
        .iter()
        .zip(g1.to_data().iter())
        .map(|(p, g)| ref_mul(*p, fx(0.05)) + *g)
        .collect();
    assert_eq!(out1.to_data(), expect1);
    assert_eq!(st1.grad_last_step.to_data(), g1.to_data());

    // third step: penalty * g1 + g2, bit for bit
    let (out2, _st2) = wd.transform(g2.dup(), Some(st1));
    let expect2: Vec<i64> = g1
        .to_data()
        .iter()
        .zip(g2.to_data().iter())
        .map(|(p, g)| ref_mul(*p, fx(0.05)) + *g)
        .collect();
    assert_eq!(out2.to_data(), expect2);
}

#[test]
fn momentum_velocity_recurrence() {
    let m = Momentum::new(&MomentumConfig {
        momentum: fx(0.9),
        dampening: fx(0.1),
        nesterov: true,
    });
    let g0 = tensor1(&[2.0]);
    let g1 = tensor1(&[3.0]);

    // from a present all-zero velocity: v1 = (1 - tau) * g0
    let v0 = MomemtumState { velocity: tensor1(&[0.0]) };
    let (out1, st1) = m.transform(g0.dup(), Some(v0));
    let v1 = ref_mul(fx(2.0), fx(0.9));
    assert_eq!(st1.velocity.to_data(), vec![v1]);
    assert_eq!(out1.to_data(), vec![ref_mul(v1, fx(0.9)) + fx(2.0)]);

    // second step: v2 = mu * v1 + (1 - tau) * g1
    let (out2, st2) = m.transform(g1.dup(), Some(st1));
    let v2 = ref_mul(fx(3.0), fx(0.9)) + ref_mul(v1, fx(0.9));
    assert_eq!(st2.velocity.to_data(), vec![v2]);
    assert_eq!(out2.to_data(), vec![ref_mul(v2, fx(0.9)) + fx(3.0)]);
}

#[test]
fn sgd_with_momentum_and_weight_decay_two_steps() {
    let sgd = SgdConfig {
        weight_decay: Some(WeightDecayConfig { penalty: fx(0.05) }),
        momentum: Some(MomentumConfig {
            momentum: fx(0.9),
            dampening: fx(0.1),
            nesterov: true,
        }),
    }
    .init();
    let lr = fx(0.02);
    let theta0 = tensor1(&[1.0]);
    let g0 = tensor1(&[2.0]);
    let g1 = tensor1(&[3.0]);

    let (theta1, st1) = sgd.step(lr, theta0.dup(), g0.dup(), None);
    // first step: decay passes g0 through, momentum starts at v1 = g0,
    // nesterov output mu * v1 + g0
    let v1 = fx(2.0);
    let out1 = ref_mul(v1, fx(0.9)) + fx(2.0);
    let expect_theta1 = fx(1.0) - ref_mul(out1, lr);
    assert_eq!(theta1.to_data(), vec![expect_theta1]);
    let st1 = st1.unwrap();
    assert_eq!(
        st1.weight_decay.as_ref().unwrap().grad_last_step.to_data(),
        vec![fx(2.0)]
    );
    assert_eq!(st1.momentum.as_ref().unwrap().velocity.to_data(), vec![v1]);

    let (theta2, st2) = sgd.step(lr, theta1.dup(), g1.dup(), Some(st1));
    // second step: decayed gradient penalty * g0 + g1, then the momentum
    // recurrence, then the nesterov push
    let gd = ref_mul(fx(2.0), fx(0.05)) + fx(3.0);
    let v2 = ref_mul(gd, fx(0.9)) + ref_mul(v1, fx(0.9));
    let out2 = ref_mul(v2, fx(0.9)) + gd;
    let expect_theta2 = expect_theta1 - ref_mul(out2, lr);
    assert_eq!(theta2.to_data(), vec![expect_theta2]);
    let st2 = st2.unwrap();
    assert_eq!(
        st2.weight_decay.as_ref().unwrap().grad_last_step.to_data(),
        vec![fx(3.0)]
    );
    assert_eq!(st2.momentum.as_ref().unwrap().velocity.to_data(), vec![v2]);
}

#[test]
fn sgd_state_moves_across_devices_unchanged() {
    let state = SgdState {
        weight_decay: Some(WeightDecayState { grad_last_step: tensor1(&[1.0, 2.0]) }),
        momentum: Some(MomemtumState { velocity: tensor1(&[3.0]) }),
    };
    let moved = Sgd::to_device(state, &Device::Cpu);
    assert_eq!(
        moved.weight_decay.unwrap().grad_last_step.to_data(),
        vec![fx(1.0), fx(2.0)]
    );
    assert_eq!(moved.momentum.unwrap().velocity.to_data(), vec![fx(3.0)]);
}

#[test]
fn sgd_without_transforms_is_a_plain_update() {
    let sgd = SgdConfig { weight_decay: None, momentum: None }.init();
    let (theta, state) = sgd.step(fx(0.5), tensor1(&[10.0]), tensor1(&[4.0]), None);
    assert_eq!(theta.to_data(), vec![fx(8.0)]);
    let state = state.unwrap();
    assert!(state.weight_decay.is_none());
    assert!(state.momentum.is_none());
}
