//! The dense CPU tensor backend: contiguous buffers of fixed-point elements
//! with explicit shapes, plus integer and boolean tensors for indexing,
//! argument reductions and comparisons.

use vstd::prelude::*;

use crate::fixed::{
    add_fx, div_fx, div_int_fx, fx_add, fx_div, fx_div_int, fx_mul, fx_neg, fx_sub, mul_fx, neg_fx,
    sub_fx, SCALE,
};
use crate::scalar::{
    cos_fx, cos_fx_e, erf_fx, erf_fx_e, exp_fx, exp_fx_e, log1p_fx, log1p_fx_e, log_fx, log_fx_e,
    powf_fx, powf_fx_e, sin_fx, sin_fx_e, sqrt_fx, sqrt_fx_e, tanh_fx, tanh_fx_e,
};
use crate::shape::{lemma_prod_nonneg, num_elems, prod};

verus! {

/// Mathematical view of a dense tensor: a shape and the flat element buffer.
#[verifier::ext_equal]
pub struct TView {
    pub shape: Seq<usize>,
    pub data: Seq<i64>,
}

pub open spec fn tv_wf(t: TView) -> bool {
    t.data.len() == prod(t.shape)
}

/// A dense tensor of fixed-point elements in row-major order.
#[derive(Clone, PartialEq, Eq, Debug)]
pub struct Tensor {
    pub shape: Vec<usize>,
    pub data: Vec<i64>,
}

impl View for Tensor {
    type V = TView;

    open spec fn view(&self) -> TView {
        TView { shape: self.shape@, data: self.data@ }
    }
}

/// The device of the dense backend: a single CPU.
#[derive(Clone, Copy, PartialEq, Eq, Structural, Debug)]
pub enum Device {
    Cpu,
}

/// Mathematical view of a boolean tensor.
#[verifier::ext_equal]
pub struct BView {
    pub shape: Seq<usize>,
    pub data: Seq<bool>,
}

/// A dense boolean tensor (comparison results, masks).
#[derive(Clone, PartialEq, Eq, Debug)]
pub struct BoolTensor {
    pub shape: Vec<usize>,
    pub data: Vec<bool>,
}

impl View for BoolTensor {
    type V = BView;

    open spec fn view(&self) -> BView {
        BView { shape: self.shape@, data: self.data@ }
    }
}

impl BoolTensor {
    pub open spec fn wf(&self) -> bool {
        self@.data.len() == prod(self@.shape)
    }
}

/// Mathematical view of an integer tensor.
#[verifier::ext_equal]
pub struct IView {
    pub shape: Seq<usize>,
    pub data: Seq<i64>,
}

/// A dense tensor of plain integers (indices).
#[derive(Clone, PartialEq, Eq, Debug)]
pub struct IntTensor {
    pub shape: Vec<usize>,
    pub data: Vec<i64>,
}

impl View for IntTensor {
    type V = IView;

    open spec fn view(&self) -> IView {
        IView { shape: self.shape@, data: self.data@ }
    }
}

impl IntTensor {
    pub open spec fn wf(&self) -> bool {
        self@.data.len() == prod(self@.shape)
    }

    /// A rank-1 integer tensor over the given values.
    pub fn from_values(data: Vec<i64>) -> (r: IntTensor)
        ensures
            r.wf(),
            r@.shape == seq![data@.len() as usize],
            r@.data == data@,
    {
        let n = data.len();
        let mut shape: Vec<usize> = Vec::new();
        shape.push(n);
        let r = IntTensor { shape, data };
        proof {
            assert(r@.shape =~= seq![n as usize]);
            assert(r@.shape.drop_last() =~= Seq::<usize>::empty());
            assert(prod(r@.shape) == prod(r@.shape.drop_last()) * (n as int));
        }
        r
    }

    /// Integer tensor holding `start, start + 1, ..., end - 1`.
    pub fn arange(start: usize, end: usize) -> (r: IntTensor)
        requires
            start <= end,
            end <= i64::MAX,
        ensures
            r.wf(),
            r@.shape == seq![(end - start) as usize],
            r@.data.len() == end - start,
            forall|i: int| 0 <= i < r@.data.len() ==> r@.data[i] == start + i,
    {
        let mut data: Vec<i64> = Vec::new();
        let mut i: usize = start;
        while i < end
            invariant
                start <= i <= end,
                end <= i64::MAX,
                data@.len() == i - start,
                forall|k: int| 0 <= k < data@.len() ==> data@[k] == start + k,
            decreases end - i,
        {
            data.push(i as i64);
            i += 1;
        }
        let mut shape: Vec<usize> = Vec::new();
        shape.push(end - start);
        let r = IntTensor { shape, data };
        proof {
            assert(r@.shape =~= seq![(end - start) as usize]);
            assert(prod(r@.shape) == prod(r@.shape.drop_last()) * ((end - start) as int));
            assert(r@.shape.drop_last() =~= Seq::<usize>::empty());
        }
        r
    }

    /// The values as a plain vector.
    pub fn to_data(&self) -> (r: Vec<i64>)
        ensures
            r@ == self@.data,
    {
        copy_i64s(&self.data)
    }

    /// An owned copy with the same shape and contents.
    pub fn dup(&self) -> (r: IntTensor)
        ensures
            r@ == self@,
    {
        let r = IntTensor { shape: copy_shape(&self.shape), data: copy_i64s(&self.data) };
        proof {
            assert(r@ =~= self@);
        }
        r
    }
}

impl BoolTensor {
    /// An owned copy with the same shape and contents.
    pub fn dup(&self) -> (r: BoolTensor)
        ensures
            r@ == self@,
    {
        let mut data: Vec<bool> = Vec::new();
        let mut i: usize = 0;
        while i < self.data.len()
            invariant
                0 <= i <= self@.data.len(),
                data@ == self@.data.take(i as int),
            decreases self@.data.len() - i,
        {
            data.push(self.data[i]);
            proof {
                assert(data@ =~= self@.data.take(i as int + 1));
            }
            i += 1;
        }
        proof {
            assert(self@.data.take(self@.data.len() as int) =~= self@.data);
        }
        let r = BoolTensor { shape: copy_shape(&self.shape), data };
        proof {
            assert(r@ =~= self@);
        }
        r
    }
}

/// Elementwise unary operations of the backend.
#[derive(Clone, Copy)]
pub enum Uop {
    Neg,
    AddS(i64),
    SubS(i64),
    MulS(i64),
    DivS(i64),
    DivIntS(i64),
    Relu,
    Exp,
    Log,
    Log1p,
    Sqrt,
    Sin,
    Cos,
    Tanh,
    Erf,
    Powf(i64),
}

pub open spec fn uop_apply(op: Uop, x: i64) -> i64 {
    match op {
        Uop::Neg => fx_neg(x),
        Uop::AddS(s) => fx_add(x, s),
        Uop::SubS(s) => fx_sub(x, s),
        Uop::MulS(s) => fx_mul(x, s),
        Uop::DivS(s) => fx_div(x, s),
        Uop::DivIntS(n) => fx_div_int(x, n),
        Uop::Relu => if x <= 0 {
            0
        } else {
            x
        },
        Uop::Exp => exp_fx(x),
        Uop::Log => log_fx(x),
        Uop::Log1p => log1p_fx(x),
        Uop::Sqrt => sqrt_fx(x),
        Uop::Sin => sin_fx(x),
        Uop::Cos => cos_fx(x),
        Uop::Tanh => tanh_fx(x),
        Uop::Erf => erf_fx(x),
        Uop::Powf(p) => powf_fx(x, p),
    }
}

fn uop_exec(op: Uop, x: i64) -> (r: i64)
    ensures
        r == uop_apply(op, x),
{
    match op {
        Uop::Neg => neg_fx(x),
        Uop::AddS(s) => add_fx(x, s),
        Uop::SubS(s) => sub_fx(x, s),
        Uop::MulS(s) => mul_fx(x, s),
        Uop::DivS(s) => div_fx(x, s),
        Uop::DivIntS(n) => div_int_fx(x, n),
        Uop::Relu => if x <= 0 {
            0
        } else {
            x
        },
        Uop::Exp => exp_fx_e(x),
        Uop::Log => log_fx_e(x),
        Uop::Log1p => log1p_fx_e(x),
        Uop::Sqrt => sqrt_fx_e(x),
        Uop::Sin => sin_fx_e(x),
        Uop::Cos => cos_fx_e(x),
        Uop::Tanh => tanh_fx_e(x),
        Uop::Erf => erf_fx_e(x),
        Uop::Powf(p) => powf_fx_e(x, p),
    }
}

/// Elementwise binary operations of the backend.
#[derive(Clone, Copy)]
pub enum Bop {
    Add,
    Sub,
    Mul,
    Div,
}

pub open spec fn bop_apply(op: Bop, a: i64, b: i64) -> i64 {
    match op {
        Bop::Add => fx_add(a, b),
        Bop::Sub => fx_sub(a, b),
        Bop::Mul => fx_mul(a, b),
        Bop::Div => fx_div(a, b),
    }
}

fn bop_exec(op: Bop, a: i64, b: i64) -> (r: i64)
    ensures
        r == bop_apply(op, a, b),
{
    match op {
        Bop::Add => add_fx(a, b),
        Bop::Sub => sub_fx(a, b),
        Bop::Mul => mul_fx(a, b),
        Bop::Div => div_fx(a, b),
    }
}

/// Unary elementwise map at the view level.
pub open spec fn tv_uop(op: Uop, a: TView) -> TView {
    TView { shape: a.shape, data: Seq::new(a.data.len(), |i: int| uop_apply(op, a.data[i])) }
}

/// Binary elementwise map at the view level.
pub open spec fn tv_bop(op: Bop, a: TView, b: TView) -> TView {
    TView {
        shape: a.shape,
        data: Seq::new(a.data.len(), |i: int| bop_apply(op, a.data[i], b.data[i])),
    }
}

/// A constant tensor at the view level.
pub open spec fn tv_fill(shape: Seq<usize>, v: i64) -> TView {
    TView { shape: shape, data: Seq::new(prod(shape) as nat, |i: int| v) }
}

pub open spec fn tv_zeros(shape: Seq<usize>) -> TView {
    tv_fill(shape, 0)
}

pub open spec fn tv_ones(shape: Seq<usize>) -> TView {
    tv_fill(shape, SCALE)
}

/// Saturating fixed-point sum of a buffer, folded left to right.
pub open spec fn sum_data(s: Seq<i64>) -> i64
    decreases s.len(),
{
    if s.len() == 0 {
        0
    } else {
        fx_add(sum_data(s.drop_last()), s.last())
    }
}

/// Copy a shape vector.
pub fn copy_shape(v: &Vec<usize>) -> (r: Vec<usize>)
    ensures
        r@ == v@,
{
    let mut r: Vec<usize> = Vec::new();
    let mut i: usize = 0;
    while i < v.len()
        invariant
            0 <= i <= v@.len(),
            r@ == v@.take(i as int),
        decreases v@.len() - i,
    {
        r.push(v[i]);
        proof {
            assert(r@ =~= v@.take(i as int + 1));
        }
        i += 1;
    }
    proof {
        assert(v@.take(v@.len() as int) =~= v@);
    }
    r
}

/// Copy an element buffer.
pub fn copy_i64s(v: &Vec<i64>) -> (r: Vec<i64>)
    ensures
        r@ == v@,
{
    let mut r: Vec<i64> = Vec::new();
    let mut i: usize = 0;
    while i < v.len()
        invariant
            0 <= i <= v@.len(),
            r@ == v@.take(i as int),
        decreases v@.len() - i,
    {
        r.push(v[i]);
        proof {
            assert(r@ =~= v@.take(i as int + 1));
        }
        i += 1;
    }
    proof {
        assert(v@.take(v@.len() as int) =~= v@);
    }
    r
}

impl Tensor {
    pub open spec fn wf(&self) -> bool {
        tv_wf(self@)
    }

    /// Build a tensor from a flat buffer and a shape; the buffer length must
    /// match the shape's element count.
    pub fn from_data(data: Vec<i64>, shape: Vec<usize>) -> (r: Tensor)
        requires
            data@.len() == prod(shape@),
        ensures
            r.wf(),
            r@.shape == shape@,
            r@.data == data@,
    {
        Tensor { shape, data }
    }

    /// A tensor filled with one constant value.
    pub fn full(shape: Vec<usize>, v: i64) -> (r: Tensor)
        requires
            prod(shape@) <= usize::MAX,
        ensures
            r.wf(),
            r@ == tv_fill(shape@, v),
    {
        let n = num_elems(&shape);
        let mut data: Vec<i64> = Vec::new();
        let mut i: usize = 0;
        proof {
            lemma_prod_nonneg(shape@);
        }
        while i < n
            invariant
                0 <= i <= n,
                data@.len() == i,
                forall|k: int| 0 <= k < i ==> data@[k] == v,
            decreases n - i,
        {
            data.push(v);
            i += 1;
        }
        let r = Tensor { shape, data };
        proof {
            assert(r@ =~= tv_fill(r@.shape, v));
        }
        r
    }

    /// A tensor of zeros.
    pub fn zeros(shape: Vec<usize>) -> (r: Tensor)
        requires
            prod(shape@) <= usize::MAX,
        ensures
            r.wf(),
            r@ == tv_zeros(shape@),
    {
        Self::full(shape, 0)
    }

    /// A tensor of ones (the fixed-point unit).
    pub fn ones(shape: Vec<usize>) -> (r: Tensor)
        requires
            prod(shape@) <= usize::MAX,
        ensures
            r.wf(),
            r@ == tv_ones(shape@),
    {
        Self::full(shape, SCALE)
    }

    /// An uninitialized tensor; like the reference CPU backend this is simply
    /// a tensor of zeros.
    pub fn empty(shape: Vec<usize>) -> (r: Tensor)
        requires
            prod(shape@) <= usize::MAX,
        ensures
            r.wf(),
            r@ == tv_zeros(shape@),
    {
        Self::zeros(shape)
    }

    /// An owned copy with the same shape and contents.
    pub fn dup(&self) -> (r: Tensor)
        ensures
            r@ == self@,
    {
        let r = Tensor { shape: copy_shape(&self.shape), data: copy_i64s(&self.data) };
        proof {
            assert(r@ =~= self@);
        }
        r
    }

    /// The shape as a plain vector.
    pub fn dims(&self) -> (r: Vec<usize>)
        ensures
            r@ == self@.shape,
    {
        copy_shape(&self.shape)
    }

    /// The values as a plain vector.
    pub fn to_data(&self) -> (r: Vec<i64>)
        ensures
            r@ == self@.data,
    {
        copy_i64s(&self.data)
    }

    /// Number of elements.
    pub fn len(&self) -> (n: usize)
        ensures
            n == self@.data.len(),
    {
        self.data.len()
    }

    fn map_uop(&self, op: Uop) -> (r: Tensor)
        requires
            self.wf(),
        ensures
            r.wf(),
            r@ == tv_uop(op, self@),
    {
        let mut data: Vec<i64> = Vec::new();
        let mut i: usize = 0;
        while i < self.data.len()
            invariant
                0 <= i <= self@.data.len(),
                data@.len() == i,
                forall|k: int| 0 <= k < i ==> data@[k] == uop_apply(op, self@.data[k]),
            decreases self@.data.len() - i,
        {
            data.push(uop_exec(op, self.data[i]));
            i += 1;
        }
        let r = Tensor { shape: copy_shape(&self.shape), data };
        proof {
            assert(r@ =~= tv_uop(op, self@));
        }
        r
    }

    fn map_bop(&self, other: &Tensor, op: Bop) -> (r: Tensor)
        requires
            self.wf(),
            other.wf(),
            self@.shape == other@.shape,
        ensures
            r.wf(),
            r@ == tv_bop(op, self@, other@),
    {
        let mut data: Vec<i64> = Vec::new();
        let mut i: usize = 0;
        while i < self.data.len()
            invariant
                0 <= i <= self@.data.len(),
                self@.data.len() == other@.data.len(),
                data@.len() == i,
                forall|k: int| 0 <= k < i ==> data@[k] == bop_apply(
                    op,
                    self@.data[k],
                    other@.data[k],
                ),
            decreases self@.data.len() - i,
        {
            data.push(bop_exec(op, self.data[i], other.data[i]));
            i += 1;
        }
        let r = Tensor { shape: copy_shape(&self.shape), data };
        proof {
            assert(r@ =~= tv_bop(op, self@, other@));
        }
        r
    }

    /// Elementwise sum.
    pub fn add(&self, other: &Tensor) -> (r: Tensor)
        requires
            self.wf(),
            other.wf(),
            self@.shape == other@.shape,
        ensures
            r.wf(),
            r@ == tv_bop(Bop::Add, self@, other@),
    {
        self.map_bop(other, Bop::Add)
    }

    /// Elementwise difference.
    pub fn sub(&self, other: &Tensor) -> (r: Tensor)
        requires
            self.wf(),
            other.wf(),
            self@.shape == other@.shape,
        ensures
            r.wf(),
            r@ == tv_bop(Bop::Sub, self@, other@),
    {
        self.map_bop(other, Bop::Sub)
    }

    /// Elementwise product.
    pub fn mul(&self, other: &Tensor) -> (r: Tensor)
        requires
            self.wf(),
            other.wf(),
            self@.shape == other@.shape,
        ensures
            r.wf(),
            r@ == tv_bop(Bop::Mul, self@, other@),
    {
        self.map_bop(other, Bop::Mul)
    }

    /// Elementwise quotient; division by a zero element yields zero.
    pub fn div(&self, other: &Tensor) -> (r: Tensor)
        requires
            self.wf(),
            other.wf(),
            self@.shape == other@.shape,
        ensures
            r.wf(),
            r@ == tv_bop(Bop::Div, self@, other@),
    {
        self.map_bop(other, Bop::Div)
    }

    /// Elementwise negation.
    pub fn neg(&self) -> (r: Tensor)
        requires
            self.wf(),
        ensures
            r.wf(),
            r@ == tv_uop(Uop::Neg, self@),
    {
        self.map_uop(Uop::Neg)
    }

    /// Add a scalar to every element.
    pub fn add_scalar(&self, s: i64) -> (r: Tensor)
        requires
            self.wf(),
        ensures
            r.wf(),
            r@ == tv_uop(Uop::AddS(s), self@),
    {
        self.map_uop(Uop::AddS(s))
    }

    /// Subtract a scalar from every element.
    pub fn sub_scalar(&self, s: i64) -> (r: Tensor)
        requires
            self.wf(),
        ensures
            r.wf(),
            r@ == tv_uop(Uop::SubS(s), self@),
    {
        self.map_uop(Uop::SubS(s))
    }

    /// Multiply every element by a scalar.
    pub fn mul_scalar(&self, s: i64) -> (r: Tensor)
        requires
            self.wf(),
        ensures
            r.wf(),
            r@ == tv_uop(Uop::MulS(s), self@),
    {
        self.map_uop(Uop::MulS(s))
    }

    /// Divide every element by a scalar.
    pub fn div_scalar(&self, s: i64) -> (r: Tensor)
        requires
            self.wf(),
        ensures
            r.wf(),
            r@ == tv_uop(Uop::DivS(s), self@),
    {
        self.map_uop(Uop::DivS(s))
    }

    /// Divide every element by a plain integer count.
    pub fn div_int_scalar(&self, n: i64) -> (r: Tensor)
        requires
            self.wf(),
        ensures
            r.wf(),
            r@ == tv_uop(Uop::DivIntS(n), self@),
    {
        self.map_uop(Uop::DivIntS(n))
    }

    /// Rectified linear unit: negative elements become zero.
    pub fn relu(&self) -> (r: Tensor)
        requires
            self.wf(),
        ensures
            r.wf(),
            r@ == tv_uop(Uop::Relu, self@),
    {
        self.map_uop(Uop::Relu)
    }

    /// Elementwise exponential.
    pub fn exp(&self) -> (r: Tensor)
        requires
            self.wf(),
        ensures
            r.wf(),
            r@ == tv_uop(Uop::Exp, self@),
    {
        self.map_uop(Uop::Exp)
    }

    /// Elementwise natural logarithm.
    pub fn log(&self) -> (r: Tensor)
        requires
            self.wf(),
        ensures
            r.wf(),
            r@ == tv_uop(Uop::Log, self@),
    {
        self.map_uop(Uop::Log)
    }

    /// Elementwise logarithm of one plus the element.
    pub fn log1p(&self) -> (r: Tensor)
        requires
            self.wf(),
        ensures
            r.wf(),
            r@ == tv_uop(Uop::Log1p, self@),
    {
        self.map_uop(Uop::Log1p)
    }

    /// Elementwise square root.
    pub fn sqrt(&self) -> (r: Tensor)
        requires
            self.wf(),
        ensures
            r.wf(),
            r@ == tv_uop(Uop::Sqrt, self@),
    {
        self.map_uop(Uop::Sqrt)
    }

    /// Elementwise sine.
    pub fn sin(&self) -> (r: Tensor)
        requires
            self.wf(),
        ensures
            r.wf(),
            r@ == tv_uop(Uop::Sin, self@),
    {
        self.map_uop(Uop::Sin)
    }

    /// Elementwise cosine.
    pub fn cos(&self) -> (r: Tensor)
        requires
            self.wf(),
        ensures
            r.wf(),
            r@ == tv_uop(Uop::Cos, self@),
    {
        self.map_uop(Uop::Cos)
    }

    /// Elementwise hyperbolic tangent.
    pub fn tanh(&self) -> (r: Tensor)
        requires
            self.wf(),
        ensures
            r.wf(),
            r@ == tv_uop(Uop::Tanh, self@),
    {
        self.map_uop(Uop::Tanh)
    }

    /// Elementwise error function.
    pub fn erf(&self) -> (r: Tensor)
        requires
            self.wf(),
        ensures
            r.wf(),
            r@ == tv_uop(Uop::Erf, self@),
    {
        self.map_uop(Uop::Erf)
    }

    /// Elementwise power with a fixed-point exponent.
    pub fn powf(&self, p: i64) -> (r: Tensor)
        requires
            self.wf(),
        ensures
            r.wf(),
            r@ == tv_uop(Uop::Powf(p), self@),
    {
        self.map_uop(Uop::Powf(p))
    }

    /// Detaching at the backend level is the identity.
    pub fn detach(&self) -> (r: Tensor)
        ensures
            r@ == self@,
    {
        self.dup()
    }

    /// Same contents under a new shape with the same element count.
    pub fn reshape(&self, shape: Vec<usize>) -> (r: Tensor)
        requires
            self.wf(),
            prod(shape@) == prod(self@.shape),
        ensures
            r.wf(),
            r@.shape == shape@,
            r@.data == self@.data,
    {
        Tensor { shape, data: copy_i64s(&self.data) }
    }

    /// Sum of all elements as a one-element rank-1 tensor.
    pub fn sum(&self) -> (r: Tensor)
        requires
            self.wf(),
        ensures
            r.wf(),
            r@.shape == seq![1usize],
            r@.data == seq![sum_data(self@.data)],
    {
        let mut acc: i64 = 0;
        let mut i: usize = 0;
        while i < self.data.len()
            invariant
                0 <= i <= self@.data.len(),
                acc == sum_data(self@.data.take(i as int)),
            decreases self@.data.len() - i,
        {
            proof {
                assert(self@.data.take(i as int + 1).drop_last() =~= self@.data.take(i as int));
            }
            acc = add_fx(acc, self.data[i]);
            i += 1;
        }
        proof {
            assert(self@.data.take(self@.data.len() as int) =~= self@.data);
        }
        let mut shape: Vec<usize> = Vec::new();
        shape.push(1);
        let mut data: Vec<i64> = Vec::new();
        data.push(acc);
        let r = Tensor { shape, data };
        proof {
            assert(r@.shape =~= seq![1usize]);
            assert(r@.data =~= seq![sum_data(self@.data)]);
            assert(prod(r@.shape.drop_last()) == 1);
            assert(r@.shape.drop_last() =~= Seq::<usize>::empty());
        }
        r
    }

    /// Mean of all elements as a one-element rank-1 tensor.
    pub fn mean(&self) -> (r: Tensor)
        requires
            self.wf(),
            self@.data.len() <= i64::MAX,
        ensures
            r.wf(),
            r@.shape == seq![1usize],
            r@.data == seq![fx_div_int(sum_data(self@.data), self@.data.len() as i64)],
    {
        let s = self.sum();
        let n = self.data.len();
        let v = div_int_fx(s.data[0], n as i64);
        let mut shape: Vec<usize> = Vec::new();
        shape.push(1);
        let mut data: Vec<i64> = Vec::new();
        data.push(v);
        let r = Tensor { shape, data };
        proof {
            assert(r@.shape =~= seq![1usize]);
            assert(r@.data =~= seq![fx_div_int(sum_data(self@.data), self@.data.len() as i64)]);
            assert(r@.shape.drop_last() =~= Seq::<usize>::empty());
        }
        r
    }
}

/// Comparison operators of the backend.
#[derive(Clone, Copy)]
pub enum Cmp {
    Eq,
    Gt,
    Ge,
    Lt,
    Le,
}

pub open spec fn cmp_apply(op: Cmp, a: i64, b: i64) -> bool {
    match op {
        Cmp::Eq => a == b,
        Cmp::Gt => a > b,
        Cmp::Ge => a >= b,
        Cmp::Lt => a < b,
        Cmp::Le => a <= b,
    }
}

fn cmp_exec(op: Cmp, a: i64, b: i64) -> (r: bool)
    ensures
        r == cmp_apply(op, a, b),
{
    match op {
        Cmp::Eq => a == b,
        Cmp::Gt => a > b,
        Cmp::Ge => a >= b,
        Cmp::Lt => a < b,
        Cmp::Le => a <= b,
    }
}

impl Tensor {
    fn map_cmp(&self, other: &Tensor, op: Cmp) -> (r: BoolTensor)
        requires
            self.wf(),
            other.wf(),
            self@.shape == other@.shape,
        ensures
            r.wf(),
            r@.shape == self@.shape,
            r@.data.len() == self@.data.len(),
            forall|i: int| 0 <= i < r@.data.len() ==> r@.data[i] == cmp_apply(
                op,
                self@.data[i],
                other@.data[i],
            ),
    {
        let mut data: Vec<bool> = Vec::new();
        let mut i: usize = 0;
        while i < self.data.len()
            invariant
                0 <= i <= self@.data.len(),
                self@.data.len() == other@.data.len(),
                data@.len() == i,
                forall|k: int| 0 <= k < i ==> data@[k] == cmp_apply(
                    op,
                    self@.data[k],
                    other@.data[k],
                ),
            decreases self@.data.len() - i,
        {
            data.push(cmp_exec(op, self.data[i], other.data[i]));
            i += 1;
        }
        BoolTensor { shape: copy_shape(&self.shape), data }
    }

    fn map_cmp_scalar(&self, s: i64, op: Cmp) -> (r: BoolTensor)
        requires
            self.wf(),
        ensures
            r.wf(),
            r@.shape == self@.shape,
            r@.data.len() == self@.data.len(),
            forall|i: int| 0 <= i < r@.data.len() ==> r@.data[i] == cmp_apply(
                op,
                self@.data[i],
                s,
            ),
    {
        let mut data: Vec<bool> = Vec::new();
        let mut i: usize = 0;
        while i < self.data.len()
            invariant
                0 <= i <= self@.data.len(),
                data@.len() == i,
                forall|k: int| 0 <= k < i ==> data@[k] == cmp_apply(op, self@.data[k], s),
            decreases self@.data.len() - i,
        {
            data.push(cmp_exec(op, self.data[i], s));
            i += 1;
        }
        BoolTensor { shape: copy_shape(&self.shape), data }
    }

    /// Elementwise equality test.
    pub fn equal(&self, other: &Tensor) -> (r: BoolTensor)
        requires
            self.wf(),
            other.wf(),
            self@.shape == other@.shape,
        ensures
            r.wf(),
            r@.shape == self@.shape,
            r@.data.len() == self@.data.len(),
            forall|i: int| 0 <= i < r@.data.len() ==> r@.data[i] == (self@.data[i]
                == other@.data[i]),
    {
        self.map_cmp(other, Cmp::Eq)
    }

    /// Elementwise equality against a scalar.
    pub fn equal_elem(&self, s: i64) -> (r: BoolTensor)
        requires
            self.wf(),
        ensures
            r.wf(),
            r@.shape == self@.shape,
            r@.data.len() == self@.data.len(),
            forall|i: int| 0 <= i < r@.data.len() ==> r@.data[i] == (self@.data[i] == s),
    {
        self.map_cmp_scalar(s, Cmp::Eq)
    }

    /// Elementwise strict greater-than test.
    pub fn greater(&self, other: &Tensor) -> (r: BoolTensor)
        requires
            self.wf(),
            other.wf(),
            self@.shape == other@.shape,
        ensures
            r.wf(),
            r@.shape == self@.shape,
            r@.data.len() == self@.data.len(),
            forall|i: int| 0 <= i < r@.data.len() ==> r@.data[i] == (self@.data[i]
                > other@.data[i]),
    {
        self.map_cmp(other, Cmp::Gt)
    }

    /// Elementwise strict greater-than against a scalar.
    pub fn greater_elem(&self, s: i64) -> (r: BoolTensor)
        requires
            self.wf(),
        ensures
            r.wf(),
            r@.shape == self@.shape,
            r@.data.len() == self@.data.len(),
            forall|i: int| 0 <= i < r@.data.len() ==> r@.data[i] == (self@.data[i] > s),
    {
        self.map_cmp_scalar(s, Cmp::Gt)
    }

    /// Elementwise greater-or-equal test.
    pub fn greater_equal(&self, other: &Tensor) -> (r: BoolTensor)
        requires
            self.wf(),
            other.wf(),
            self@.shape == other@.shape,
        ensures
            r.wf(),
            r@.shape == self@.shape,
            r@.data.len() == self@.data.len(),
            forall|i: int| 0 <= i < r@.data.len() ==> r@.data[i] == (self@.data[i]
                >= other@.data[i]),
    {
        self.map_cmp(other, Cmp::Ge)
    }

    /// Elementwise greater-or-equal against a scalar.
    pub fn greater_equal_elem(&self, s: i64) -> (r: BoolTensor)
        requires
            self.wf(),
        ensures
            r.wf(),
            r@.shape == self@.shape,
            r@.data.len() == self@.data.len(),
            forall|i: int| 0 <= i < r@.data.len() ==> r@.data[i] == (self@.data[i] >= s),
    {
        self.map_cmp_scalar(s, Cmp::Ge)
    }

    /// Elementwise strict less-than test.
    pub fn lower(&self, other: &Tensor) -> (r: BoolTensor)
        requires
            self.wf(),
            other.wf(),
            self@.shape == other@.shape,
        ensures
            r.wf(),
            r@.shape == self@.shape,
            r@.data.len() == self@.data.len(),
            forall|i: int| 0 <= i < r@.data.len() ==> r@.data[i] == (self@.data[i]
                < other@.data[i]),
    {
        self.map_cmp(other, Cmp::Lt)
    }

    /// Elementwise strict less-than against a scalar.
    pub fn lower_elem(&self, s: i64) -> (r: BoolTensor)
        requires
            self.wf(),
        ensures
            r.wf(),
            r@.shape == self@.shape,
            r@.data.len() == self@.data.len(),
            forall|i: int| 0 <= i < r@.data.len() ==> r@.data[i] == (self@.data[i] < s),
    {
        self.map_cmp_scalar(s, Cmp::Lt)
    }

    /// Elementwise less-or-equal test.
    pub fn lower_equal(&self, other: &Tensor) -> (r: BoolTensor)
        requires
            self.wf(),
            other.wf(),
            self@.shape == other@.shape,
        ensures
            r.wf(),
            r@.shape == self@.shape,
            r@.data.len() == self@.data.len(),
            forall|i: int| 0 <= i < r@.data.len() ==> r@.data[i] == (self@.data[i]
                <= other@.data[i]),
    {
        self.map_cmp(other, Cmp::Le)
    }

    /// Elementwise less-or-equal against a scalar.
    pub fn lower_equal_elem(&self, s: i64) -> (r: BoolTensor)
        requires
            self.wf(),
        ensures
            r.wf(),
            r@.shape == self@.shape,
            r@.data.len() == self@.data.len(),
            forall|i: int| 0 <= i < r@.data.len() ==> r@.data[i] == (self@.data[i] <= s),
    {
        self.map_cmp_scalar(s, Cmp::Le)
    }

    /// Replace the elements selected by the mask with one value.
    pub fn mask_fill(&self, mask: &BoolTensor, v: i64) -> (r: Tensor)
        requires
            self.wf(),
            mask.wf(),
            self@.shape == mask@.shape,
        ensures
            r.wf(),
            r@.shape == self@.shape,
            r@.data.len() == self@.data.len(),
            forall|i: int| 0 <= i < r@.data.len() ==> r@.data[i] == (if mask@.data[i] {
                v
            } else {
                self@.data[i]
            }),
    {
        let mut data: Vec<i64> = Vec::new();
        let mut i: usize = 0;
        while i < self.data.len()
            invariant
                0 <= i <= self@.data.len(),
                self@.data.len() == mask@.data.len(),
                data@.len() == i,
                forall|k: int| 0 <= k < i ==> data@[k] == (if mask@.data[k] {
                    v
                } else {
                    self@.data[k]
                }),
            decreases self@.data.len() - i,
        {
            if mask.data[i] {
                data.push(v);
            } else {
                data.push(self.data[i]);
            }
            i += 1;
        }
        Tensor { shape: copy_shape(&self.shape), data }
    }

    /// Replace the elements selected by the mask with the matching elements
    /// of the source tensor.
    pub fn mask_scatter(&self, mask: &BoolTensor, source: &Tensor) -> (r: Tensor)
        requires
            self.wf(),
            mask.wf(),
            source.wf(),
            self@.shape == mask@.shape,
            self@.shape == source@.shape,
        ensures
            r.wf(),
            r@.shape == self@.shape,
            r@.data.len() == self@.data.len(),
            forall|i: int| 0 <= i < r@.data.len() ==> r@.data[i] == (if mask@.data[i] {
                source@.data[i]
            } else {
                self@.data[i]
            }),
    {
        let mut data: Vec<i64> = Vec::new();
        let mut i: usize = 0;
        while i < self.data.len()
            invariant
                0 <= i <= self@.data.len(),
                self@.data.len() == mask@.data.len(),
                self@.data.len() == source@.data.len(),
                data@.len() == i,
                forall|k: int| 0 <= k < i ==> data@[k] == (if mask@.data[k] {
                    source@.data[k]
                } else {
                    self@.data[k]
                }),
            decreases self@.data.len() - i,
        {
            if mask.data[i] {
                data.push(source.data[i]);
            } else {
                data.push(self.data[i]);
            }
            i += 1;
        }
        Tensor { shape: copy_shape(&self.shape), data }
    }
}

} // verus!
