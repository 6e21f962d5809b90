//! The optimizer core: stochastic gradient descent composed from stackable
//! gradient transforms — weight decay and momentum — each carrying its own
//! per-parameter state.

use vstd::prelude::*;

use crate::fixed::{fx_add, fx_mul, fx_sub, lemma_fx_add_comm, sub_fx, SCALE};
use crate::tensor::{tv_bop, tv_uop, Bop, Device, Tensor, TView, Uop};

verus! {

/// Configuration of the weight decay transform: the decay penalty.
pub struct WeightDecayConfig {
    pub penalty: i64,
}

/// State of the weight decay transform: the previous step's raw gradient,
/// before any transform was applied.
#[derive(Clone, Debug)]
pub struct WeightDecayState {
    pub grad_last_step: Tensor,
}

/// Weight decay implementation that transforms gradients: the penalty is
/// applied to the previous step's raw gradient, which is the recorded
/// behaviour of this optimizer stack.
pub struct WeightDecay {
    pub penalty: i64,
}

/// The transformed gradient: the decayed previous gradient plus the current
/// one once a state exists, the current gradient alone before that.
pub open spec fn wd_transformed(penalty: i64, g: TView, st: Option<TView>) -> TView {
    match st {
        Some(prev) => tv_bop(Bop::Add, tv_uop(Uop::MulS(penalty), prev), g),
        None => g,
    }
}

impl WeightDecay {
    /// Create the transform from its configuration.
    pub fn new(config: &WeightDecayConfig) -> (r: WeightDecay)
        ensures
            r.penalty == config.penalty,
    {
        WeightDecay { penalty: config.penalty }
    }

    /// Transform a gradient; the new state is the untransformed gradient.
    pub fn transform(&self, grad: Tensor, state: Option<WeightDecayState>) -> (r: (
        Tensor,
        WeightDecayState,
    ))
        requires
            grad.wf(),
            state is Some ==> state.unwrap().grad_last_step.wf()
                && state.unwrap().grad_last_step@.shape == grad@.shape,
        ensures
            r.0.wf(),
            r.0@ == wd_transformed(
                self.penalty,
                grad@,
                match state {
                    Some(st) => Some(st.grad_last_step@),
                    None => None,
                },
            ),
            r.1.grad_last_step@ == grad@,
            r.1.grad_last_step.wf(),
    {
        let grad_last_step = grad.dup();
        let out = match state {
            Some(st) => st.grad_last_step.mul_scalar(self.penalty).add(&grad),
            None => grad,
        };
        (out, WeightDecayState { grad_last_step })
    }
}

impl WeightDecayState {
    /// Move the state to a device; the single device makes this the
    /// identity on the held gradient.
    pub fn to_device(self, device: &Device) -> (r: WeightDecayState)
        ensures
            r.grad_last_step@ == self.grad_last_step@,
    {
        let r = WeightDecayState { grad_last_step: self.grad_last_step.dup() };
        r
    }
}

/// Configuration of the momentum transform.
pub struct MomentumConfig {
    pub momentum: i64,
    pub dampening: i64,
    pub nesterov: bool,
}

/// State of the momentum transform: the running velocity.
#[derive(Clone, Debug)]
pub struct MomemtumState {
    pub velocity: Tensor,
}

/// Momentum implementation that transforms gradients.
pub struct Momentum {
    pub momentum: i64,
    pub dampening: i64,
    pub nesterov: bool,
}

/// The updated velocity: the dampened gradient plus the scaled previous
/// velocity once a state exists, the raw gradient alone before that.
pub open spec fn mom_velocity(momentum: i64, dampening: i64, g: TView, st: Option<TView>) -> TView {
    match st {
        Some(v) => tv_bop(
            Bop::Add,
            tv_uop(Uop::MulS(fx_sub(SCALE, dampening)), g),
            tv_uop(Uop::MulS(momentum), v),
        ),
        None => g,
    }
}

/// The transformed gradient: the velocity, pushed once more by the momentum
/// under Nesterov.
pub open spec fn mom_out(momentum: i64, nesterov: bool, vel: TView, g: TView) -> TView {
    if nesterov {
        tv_bop(Bop::Add, tv_uop(Uop::MulS(momentum), vel), g)
    } else {
        vel
    }
}

impl Momentum {
    /// Create the transform from its configuration.
    pub fn new(config: &MomentumConfig) -> (r: Momentum)
        ensures
            r.momentum == config.momentum,
            r.dampening == config.dampening,
            r.nesterov == config.nesterov,
    {
        Momentum {
            momentum: config.momentum,
            dampening: config.dampening,
            nesterov: config.nesterov,
        }
    }

    /// Transform a gradient; the new state is the updated velocity.
    pub fn transform(&self, grad: Tensor, state: Option<MomemtumState>) -> (r: (
        Tensor,
        MomemtumState,
    ))
        requires
            grad.wf(),
            state is Some ==> state.unwrap().velocity.wf() && state.unwrap().velocity@.shape
                == grad@.shape,
        ensures
            r.0.wf(),
            r.0@ == mom_out(
                self.momentum,
                self.nesterov,
                mom_velocity(
                    self.momentum,
                    self.dampening,
                    grad@,
                    match state {
                        Some(st) => Some(st.velocity@),
                        None => None,
                    },
                ),
                grad@,
            ),
            r.1.velocity@ == mom_velocity(
                self.momentum,
                self.dampening,
                grad@,
                match state {
                    Some(st) => Some(st.velocity@),
                    None => None,
                },
            ),
            r.1.velocity.wf(),
    {
        let velocity = match state {
            Some(st) => grad.mul_scalar(sub_fx(SCALE, self.dampening)).add(
                &st.velocity.mul_scalar(self.momentum),
            ),
            None => grad.dup(),
        };
        let out = if self.nesterov {
            velocity.mul_scalar(self.momentum).add(&grad)
        } else {
            velocity.dup()
        };
        (out, MomemtumState { velocity })
    }
}

impl MomemtumState {
    /// Move the state to a device; the single device makes this the
    /// identity on the velocity.
    pub fn to_device(self, device: &Device) -> (r: MomemtumState)
        ensures
            r.velocity@ == self.velocity@,
    {
        let r = MomemtumState { velocity: self.velocity.dup() };
        r
    }
}

/// Configuration of the SGD optimizer: its optional transforms.
pub struct SgdConfig {
    pub weight_decay: Option<WeightDecayConfig>,
    pub momentum: Option<MomentumConfig>,
}

/// Optimizer that implements stochastic gradient descent with momentum.
pub struct Sgd {
    pub momentum: Option<Momentum>,
    pub weight_decay: Option<WeightDecay>,
}

/// State of the SGD optimizer: the optional sub-states of its transforms.
#[derive(Clone, Debug)]
pub struct SgdState {
    pub weight_decay: Option<WeightDecayState>,
    pub momentum: Option<MomemtumState>,
}

/// The gradient after the configured transform chain: weight decay first,
/// then momentum.
pub open spec fn sgd_grad(
    wd: Option<WeightDecay>,
    mom: Option<Momentum>,
    g: TView,
    st_wd: Option<TView>,
    st_mom: Option<TView>,
) -> TView {
    let g1 = match wd {
        Some(w) => wd_transformed(w.penalty, g, st_wd),
        None => g,
    };
    match mom {
        Some(m) => mom_out(m.momentum, m.nesterov, mom_velocity(m.momentum, m.dampening, g1, st_mom), g1),
        None => g1,
    }
}

impl SgdConfig {
    /// Build the optimizer from its configuration.
    pub fn init(&self) -> (r: Sgd)
        ensures
            (r.weight_decay is Some) == (self.weight_decay is Some),
            self.weight_decay is Some ==> r.weight_decay.unwrap().penalty
                == self.weight_decay.unwrap().penalty,
            (r.momentum is Some) == (self.momentum is Some),
            self.momentum is Some ==> r.momentum.unwrap().momentum
                == self.momentum.unwrap().momentum && r.momentum.unwrap().dampening
                == self.momentum.unwrap().dampening && r.momentum.unwrap().nesterov
                == self.momentum.unwrap().nesterov,
    {
        let momentum = match &self.momentum {
            Some(c) => Some(Momentum::new(c)),
            None => None,
        };
        let weight_decay = match &self.weight_decay {
            Some(c) => Some(WeightDecay::new(c)),
            None => None,
        };
        Sgd { momentum, weight_decay }
    }
}

/// The per-parameter state views held by an SGD state.
pub open spec fn sgd_state_wd_view(state: Option<SgdState>) -> Option<TView> {
    match state {
        Some(st) => match st.weight_decay {
            Some(w) => Some(w.grad_last_step@),
            None => None,
        },
        None => None,
    }
}

pub open spec fn sgd_state_mom_view(state: Option<SgdState>) -> Option<TView> {
    match state {
        Some(st) => match st.momentum {
            Some(m) => Some(m.velocity@),
            None => None,
        },
        None => None,
    }
}

impl Sgd {
    /// One optimizer step: apply weight decay, then momentum, then the
    /// learning-rate scaled update, returning the new parameter and the
    /// new per-parameter state.
    pub fn step(&self, lr: i64, tensor: Tensor, grad: Tensor, state: Option<SgdState>) -> (r: (
        Tensor,
        Option<SgdState>,
    ))
        requires
            tensor.wf(),
            grad.wf(),
            tensor@.shape == grad@.shape,
            sgd_state_wd_view(state) is Some ==> sgd_state_wd_view(state).unwrap().shape
                == grad@.shape,
            sgd_state_mom_view(state) is Some ==> sgd_state_mom_view(state).unwrap().shape
                == grad@.shape,
            state is Some && state.unwrap().weight_decay is Some ==> state.unwrap(
            ).weight_decay.unwrap().grad_last_step.wf(),
            state is Some && state.unwrap().momentum is Some ==> state.unwrap(
            ).momentum.unwrap().velocity.wf(),
        ensures
            r.0.wf(),
            r.0@ == tv_bop(
                Bop::Sub,
                tensor@,
                tv_uop(
                    Uop::MulS(lr),
                    sgd_grad(
                        self.weight_decay,
                        self.momentum,
                        grad@,
                        sgd_state_wd_view(state),
                        sgd_state_mom_view(state),
                    ),
                ),
            ),
            r.1 is Some,
            self.weight_decay is Some ==> r.1.unwrap().weight_decay is Some && r.1.unwrap(
            ).weight_decay.unwrap().grad_last_step@ == wd_input_view(grad@),
            self.weight_decay is None ==> (r.1.unwrap().weight_decay is Some) == (state is Some
                && state.unwrap().weight_decay is Some),
            self.momentum is None ==> (r.1.unwrap().momentum is Some) == (state is Some
                && state.unwrap().momentum is Some),
            self.momentum is Some ==> r.1.unwrap().momentum is Some && r.1.unwrap(
            ).momentum.unwrap().velocity@ == mom_velocity(
                self.momentum.unwrap().momentum,
                self.momentum.unwrap().dampening,
                (match self.weight_decay {
                    Some(w) => wd_transformed(w.penalty, grad@, sgd_state_wd_view(state)),
                    None => grad@,
                }),
                sgd_state_mom_view(state),
            ),
    {
        let mut state_weight_decay: Option<WeightDecayState> = None;
        let mut state_momentum: Option<MomemtumState> = None;
        if let Some(st) = state {
            state_weight_decay = st.weight_decay;
            state_momentum = st.momentum;
        }
        let mut grad = grad;
        if let Some(weight_decay) = &self.weight_decay {
            let (grad_out, st) = weight_decay.transform(grad, state_weight_decay);
            state_weight_decay = Some(st);
            grad = grad_out;
        }
        if let Some(momentum) = &self.momentum {
            let (grad_out, st) = momentum.transform(grad, state_momentum);
            state_momentum = Some(st);
            grad = grad_out;
        }
        let new_state = SgdState { weight_decay: state_weight_decay, momentum: state_momentum };
        let delta = grad.mul_scalar(lr);
        let updated = tensor.sub(&delta);
        (updated, Some(new_state))
    }

    /// Move an optimizer state to a device: both sub-states move.
    pub fn to_device(state: SgdState, device: &Device) -> (r: SgdState)
        ensures
            (r.weight_decay is Some) == (state.weight_decay is Some),
            state.weight_decay is Some ==> r.weight_decay.unwrap().grad_last_step@
                == state.weight_decay.unwrap().grad_last_step@,
            (r.momentum is Some) == (state.momentum is Some),
            state.momentum is Some ==> r.momentum.unwrap().velocity@
                == state.momentum.unwrap().velocity@,
    {
        let weight_decay = match state.weight_decay {
            Some(w) => Some(w.to_device(device)),
            None => None,
        };
        let momentum = match state.momentum {
            Some(m) => Some(m.to_device(device)),
            None => None,
        };
        SgdState { weight_decay, momentum }
    }
}

/// The weight decay state recorded after a step is the raw incoming
/// gradient.
pub open spec fn wd_input_view(g: TView) -> TView {
    g
}

/// Weight decay over three steps: starting from no state and feeding the
/// gradients in order, the third step's transformed gradient is exactly the
/// penalty times the second gradient, plus the third.
pub proof fn lemma_weight_decay_algebra(penalty: i64, g0: TView, g1: TView, g2: TView)
    ensures
        wd_transformed(penalty, g1, Some(wd_input_view(g0))) == tv_bop(
            Bop::Add,
            tv_uop(Uop::MulS(penalty), g0),
            g1,
        ),
        wd_transformed(penalty, g2, Some(wd_input_view(g1))) == tv_bop(
            Bop::Add,
            tv_uop(Uop::MulS(penalty), g1),
            g2,
        ),
{
}

/// Momentum over two steps from a present all-zero velocity: the second
/// velocity is the momentum times the dampened first gradient, plus the
/// dampened second gradient; the Nesterov output pushes it once more and
/// adds the current gradient.
pub proof fn lemma_momentum_algebra(momentum: i64, dampening: i64, g0: TView, g1: TView, v0: TView)
    requires
        v0.shape == g0.shape,
        g1.shape == g0.shape,
        v0.data.len() == g0.data.len(),
        g1.data.len() == g0.data.len(),
        forall|i: int| 0 <= i < v0.data.len() ==> #[trigger] v0.data[i] == 0,
    ensures
        mom_velocity(momentum, dampening, g1, Some(mom_velocity(momentum, dampening, g0, Some(v0))))
            =~= tv_bop(
            Bop::Add,
            tv_uop(Uop::MulS(momentum), tv_uop(Uop::MulS(fx_sub(SCALE, dampening)), g0)),
            tv_uop(Uop::MulS(fx_sub(SCALE, dampening)), g1),
        ),
        mom_out(
            momentum,
            true,
            mom_velocity(momentum, dampening, g1, Some(mom_velocity(momentum, dampening, g0, Some(v0)))),
            g1,
        ) =~= tv_bop(
            Bop::Add,
            tv_uop(
                Uop::MulS(momentum),
                mom_velocity(
                    momentum,
                    dampening,
                    g1,
                    Some(mom_velocity(momentum, dampening, g0, Some(v0))),
                ),
            ),
            g1,
        ),
{
    let tau = fx_sub(SCALE, dampening);
    let v1 = mom_velocity(momentum, dampening, g0, Some(v0));
    // the first velocity is the dampened first gradient: the zero previous
    // velocity contributes nothing
    assert forall|i: int| 0 <= i < v1.data.len() implies v1.data[i] == fx_mul(g0.data[i], tau) by {
        assert(fx_mul(v0.data[i], momentum) == 0) by {
            assert(v0.data[i] == 0);
            assert((0 as i64) * momentum == 0);
            assert(crate::fixed::abs_int(0) == 0);
        }
        assert(fx_add(fx_mul(g0.data[i], tau), 0) == fx_mul(g0.data[i], tau));
    }
    let v2 = mom_velocity(momentum, dampening, g1, Some(v1));
    let target = tv_bop(
        Bop::Add,
        tv_uop(Uop::MulS(momentum), tv_uop(Uop::MulS(tau), g0)),
        tv_uop(Uop::MulS(tau), g1),
    );
    assert forall|i: int| 0 <= i < v2.data.len() implies v2.data[i] == target.data[i] by {
        assert(v1.data[i] == fx_mul(g0.data[i], tau));
        lemma_fx_add_comm(fx_mul(g1.data[i], tau), fx_mul(v1.data[i], momentum));
    }
    assert(v2.data =~= target.data);
    assert(v2.shape == target.shape);
}

} // verus!
