//! Reverse-mode automatic differentiation over a dense fixed-point tensor
//! backend, together with the SGD optimizer stack built from gradient
//! transforms.
//!
//! Tensor elements are fixed-point numbers: an `i64` holding `value * SCALE`,
//! with saturating arithmetic. This keeps every operation exactly specified,
//! so forward results, recorded graphs and the gradients produced by the
//! backward engine all carry precise contracts.
//!
//! The layers, from the bottom up:
//!
//! - [`fixed`] and [`scalar`]: the saturating fixed-point element type and
//!   its elementary functions;
//! - [`shape`], [`tensor`], [`tensor_dim`], [`tensor_coords`],
//!   [`tensor_linalg`], [`pool`], [`rng`]: the dense CPU backend — shapes and
//!   flat-index arithmetic, elementwise and reduction kernels, gathers and
//!   scatters, dimension remaps, matrix products, concatenation, pooling and
//!   the explicit random source;
//! - [`graph`], [`grads`], [`engine`]: the recorded computation graph, the
//!   gradient accumulator, the per-operation adjoints and the reverse
//!   traversal;
//! - [`var`], [`var_ops`], [`var_ops2`], [`var_ops3`], [`var_ops4`]: the
//!   autodiff decorator — tracked tensors, the session that issues node
//!   identities, and every forward primitive re-implemented with its
//!   recorded step;
//! - [`optim`]: weight decay, momentum and SGD with per-parameter state;
//! - [`conv`]: the one-dimensional convolution layer;
//! - [`laws`]: the graph and engine invariants stated as theorems.

pub mod fixed;
pub mod scalar;
pub mod shape;
pub mod tensor;
pub mod tensor_coords;
pub mod tensor_dim;
pub mod tensor_linalg;
pub mod pool;
pub mod rng;
pub mod graph;
pub mod grads;
pub mod engine;
pub mod var;
pub mod var_ops;
pub mod var_ops2;
pub mod var_ops3;
pub mod var_ops4;
pub mod optim;
pub mod laws;
pub mod conv;
pub mod modelgen;
