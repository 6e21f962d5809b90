//! The one-dimensional convolution layer: its configuration, parameter
//! initialization, and the verified forward kernel with stride, dilation,
//! padding and grouped channels.

use vstd::prelude::*;

use crate::fixed::{add_fx, fx_add, fx_mul, mul_fx};
use crate::pool::padded_at;
use crate::shape::{lemma_index2, lemma_index3_bound, lemma_prod_head, prod};
use crate::tensor::{tv_fill, Tensor};

verus! {

/// The padding mode of a one-dimensional convolution.
#[derive(Clone, Copy, PartialEq, Eq, Structural, Debug)]
pub enum PaddingConfig1d {
    Valid,
    Explicit(usize),
}

impl PaddingConfig1d {
    /// The padding applied on each side of the spatial dimension.
    pub open spec fn padding_spec(self) -> usize {
        match self {
            PaddingConfig1d::Valid => 0,
            PaddingConfig1d::Explicit(p) => p,
        }
    }

    /// Compute the padding for a given input length, kernel and stride.
    pub fn calculate_padding_1d(&self, length: usize, kernel_size: usize, stride: usize) -> (r:
        usize)
        ensures
            r == self.padding_spec(),
    {
        match self {
            PaddingConfig1d::Valid => 0,
            PaddingConfig1d::Explicit(p) => *p,
        }
    }
}

/// How the layer's parameters are filled at initialization.
#[derive(Clone, Copy, PartialEq, Eq, Structural, Debug)]
pub enum Initializer {
    Zeros,
    Constant(i64),
}

impl Initializer {
    /// The element every parameter position receives.
    pub open spec fn fill_value(self) -> i64 {
        match self {
            Initializer::Zeros => 0,
            Initializer::Constant(v) => v,
        }
    }

    /// Build a parameter tensor of the given shape.
    pub fn init_with(&self, shape: Vec<usize>) -> (r: Tensor)
        requires
            prod(shape@) <= usize::MAX,
        ensures
            r.wf(),
            r@ == tv_fill(shape@, self.fill_value()),
    {
        match self {
            Initializer::Zeros => Tensor::full(shape, 0),
            Initializer::Constant(v) => Tensor::full(shape, *v),
        }
    }
}

/// Configuration to create a one-dimensional convolution layer.
#[derive(Clone, PartialEq, Eq, Structural, Debug)]
pub struct Conv1dConfig {
    pub channels_in: usize,
    pub channels_out: usize,
    pub kernel_size: usize,
    pub stride: usize,
    pub dilation: usize,
    pub groups: usize,
    pub padding: PaddingConfig1d,
    pub bias: bool,
    pub initializer: Initializer,
}

impl Conv1dConfig {
    /// A configuration with the default stride, dilation, grouping, padding
    /// and bias.
    pub fn new(channels_in: usize, channels_out: usize, kernel_size: usize) -> (r: Conv1dConfig)
        ensures
            r.channels_in == channels_in,
            r.channels_out == channels_out,
            r.kernel_size == kernel_size,
            r.stride == 1,
            r.dilation == 1,
            r.groups == 1,
            r.padding == PaddingConfig1d::Valid,
            r.bias == true,
            r.initializer == Initializer::Zeros,
    {
        Conv1dConfig {
            channels_in,
            channels_out,
            kernel_size,
            stride: 1,
            dilation: 1,
            groups: 1,
            padding: PaddingConfig1d::Valid,
            bias: true,
            initializer: Initializer::Zeros,
        }
    }

    pub fn with_stride(self, stride: usize) -> (r: Conv1dConfig)
        ensures
            r == (Conv1dConfig { stride, ..self }),
    {
        Conv1dConfig { stride, ..self }
    }

    pub fn with_dilation(self, dilation: usize) -> (r: Conv1dConfig)
        ensures
            r == (Conv1dConfig { dilation, ..self }),
    {
        Conv1dConfig { dilation, ..self }
    }

    pub fn with_groups(self, groups: usize) -> (r: Conv1dConfig)
        ensures
            r == (Conv1dConfig { groups, ..self }),
    {
        Conv1dConfig { groups, ..self }
    }

    pub fn with_padding(self, padding: PaddingConfig1d) -> (r: Conv1dConfig)
        ensures
            r == (Conv1dConfig { padding, ..self }),
    {
        Conv1dConfig { padding, ..self }
    }

    pub fn with_bias(self, bias: bool) -> (r: Conv1dConfig)
        ensures
            r == (Conv1dConfig { bias, ..self }),
    {
        Conv1dConfig { bias, ..self }
    }

    pub fn with_initializer(self, initializer: Initializer) -> (r: Conv1dConfig)
        ensures
            r == (Conv1dConfig { initializer, ..self }),
    {
        Conv1dConfig { initializer, ..self }
    }
}

/// A one-dimensional convolution layer: its parameters and the hyper
/// parameters frozen from the configuration.
#[derive(Clone, Debug)]
pub struct Conv1d {
    pub weight: Tensor,
    pub bias: Option<Tensor>,
    pub stride: usize,
    pub kernel_size: usize,
    pub dilation: usize,
    pub groups: usize,
    pub padding: PaddingConfig1d,
}

impl Conv1d {
    /// The layer's structural invariant: the weight is
    /// `[channels_out, channels_in / groups, kernel_size]`, the bias, when
    /// present, `[channels_out]`, and the grouping divides both channel
    /// counts.
    pub open spec fn wf(&self) -> bool {
        &&& self.weight.wf()
        &&& self.weight@.shape.len() == 3
        &&& self.weight@.shape[2] == self.kernel_size
        &&& self.groups >= 1
        &&& self.stride >= 1
        &&& self.dilation >= 1
        &&& self.kernel_size >= 1
        &&& (self.bias is Some ==> self.bias.unwrap().wf()
            && self.bias.unwrap()@.shape =~= seq![self.weight@.shape[0]])
    }
}

impl Conv1dConfig {
    /// Initialize the layer: the weight is
    /// `[channels_out, channels_in / groups, kernel_size]` filled by the
    /// configured initializer, and so is the bias when enabled.
    pub fn init(&self) -> (r: Conv1d)
        requires
            self.groups >= 1,
            self.stride >= 1,
            self.dilation >= 1,
            self.kernel_size >= 1,
            (self.channels_out as int) * (self.channels_in as int) * (self.kernel_size as int)
                <= usize::MAX,
        ensures
            r.wf(),
            r.weight@.shape == seq![self.channels_out, self.channels_in, self.kernel_size],
            forall|i: int| 0 <= i < r.weight@.data.len() ==> r.weight@.data[i]
                == self.initializer.fill_value(),
            (r.bias is Some) == self.bias,
            self.bias ==> forall|i: int|
                0 <= i < r.bias.unwrap()@.data.len() ==> r.bias.unwrap()@.data[i]
                    == self.initializer.fill_value(),
            self.bias ==> r.bias.unwrap()@.data.len() == self.channels_out,
            r.stride == self.stride,
            r.kernel_size == self.kernel_size,
            r.dilation == self.dilation,
            r.groups == self.groups,
            r.padding == self.padding,
    {
        let mut wshape: Vec<usize> = Vec::new();
        wshape.push(self.channels_out);
        wshape.push(self.channels_in);
        wshape.push(self.kernel_size);
        proof {
            assert(wshape@ =~= seq![self.channels_out, self.channels_in, self.kernel_size]);
            lemma_prod_seq3(
                self.channels_out as int,
                self.channels_in as int,
                self.kernel_size as int,
                wshape@,
            );
        }
        let weight = self.initializer.init_with(wshape);
        let bias = if self.bias {
            let mut bshape: Vec<usize> = Vec::new();
            bshape.push(self.channels_out);
            proof {
                assert(bshape@ =~= seq![self.channels_out]);
                assert(bshape@.drop_last() =~= Seq::<usize>::empty());
                assert(prod(bshape@.drop_last()) == 1);
                assert(prod(bshape@) == 1 * (self.channels_out as int));
            }
            Some(self.initializer.init_with(bshape))
        } else {
            None
        };
        Conv1d {
            weight,
            bias,
            stride: self.stride,
            kernel_size: self.kernel_size,
            dilation: self.dilation,
            groups: self.groups,
            padding: self.padding,
        }
    }

    /// Initialize the layer from recorded parameters.
    pub fn init_with(&self, weight: Tensor, bias: Option<Tensor>) -> (r: Conv1d)
        requires
            self.groups >= 1,
            self.stride >= 1,
            self.dilation >= 1,
            self.kernel_size >= 1,
            weight.wf(),
            weight@.shape.len() == 3,
            weight@.shape[2] == self.kernel_size,
            bias is Some ==> bias.unwrap().wf() && bias.unwrap()@.shape =~= seq![
                weight@.shape[0],
            ],
        ensures
            r.wf(),
            r.weight@ == weight@,
            (r.bias is Some) == (bias is Some),
            bias is Some ==> r.bias.unwrap()@ == bias.unwrap()@,
            r.stride == self.stride,
            r.kernel_size == self.kernel_size,
            r.dilation == self.dilation,
            r.groups == self.groups,
            r.padding == self.padding,
    {
        Conv1d {
            weight,
            bias,
            stride: self.stride,
            kernel_size: self.kernel_size,
            dilation: self.dilation,
            groups: self.groups,
            padding: self.padding,
        }
    }
}

/// The element count of a three-entry shape.
proof fn lemma_prod_seq3(a: int, b: int, c: int, s: Seq<usize>)
    requires
        s.len() == 3,
        s[0] == a,
        s[1] == b,
        s[2] == c,
        a >= 0,
        b >= 0,
        c >= 0,
    ensures
        prod(s) == a * b * c,
{
    let s1 = s.drop_last();
    let s0 = s1.drop_last();
    assert(s0.drop_last() =~= Seq::<usize>::empty());
    assert(prod(s0.drop_last()) == 1);
    assert(s0.last() == s[0]);
    assert(s1.last() == s[1]);
    assert(s.last() == s[2]);
    assert(prod(s0) == 1 * a);
    assert(prod(s1) == (1 * a) * b);
    assert(prod(s) == ((1 * a) * b) * c);
    assert(((1 * a) * b) * c == a * b * c) by (nonlinear_arith);
}

/// The windowed product sum of one output position: the first `n` of the
/// `cpg * kernel` weight positions of output channel `oc`, folded over the
/// padded input row of batch `b`.
pub open spec fn conv_sum(
    xd: Seq<i64>,
    wd: Seq<i64>,
    cin: int,
    len: int,
    cpg: int,
    kernel: int,
    stride: int,
    dilation: int,
    padding: int,
    g0: int,
    b: int,
    oc: int,
    ol: int,
    n: int,
) -> i64
    decreases n,
{
    if n <= 0 {
        0
    } else {
        let icg = (n - 1) / kernel;
        let k = (n - 1) % kernel;
        fx_add(
            conv_sum(
                xd,
                wd,
                cin,
                len,
                cpg,
                kernel,
                stride,
                dilation,
                padding,
                g0,
                b,
                oc,
                ol,
                n - 1,
            ),
            fx_mul(
                padded_at(xd, len, b * cin + g0 + icg, ol * stride + k * dilation - padding),
                wd[oc * (cpg * kernel) + icg * kernel + k],
            ),
        )
    }
}

/// Number of output positions of the convolution.
pub open spec fn conv_out_len(len: int, kernel: int, stride: int, dilation: int, padding: int)
    -> int {
    (len + 2 * padding - dilation * (kernel - 1) - 1) / stride + 1
}

impl Conv1d {
    /// The forward pass: for input `[batch, channels_in, length]` the output
    /// is `[batch, channels_out, length_out]`, each element the bias of its
    /// channel plus the windowed product sum of its group's input channels.
    pub fn forward(&self, input: &Tensor) -> (r: Tensor)
        requires
            self.wf(),
            input.wf(),
            input@.shape.len() == 3,
            self.groups >= 1,
            input@.shape[1] == (self.weight@.shape[1] as int) * (self.groups as int),
            self.weight@.shape[0] % self.groups == 0,
            input@.shape[2] + 2 * self.padding.padding_spec() <= usize::MAX,
            input@.shape[2] + 2 * self.padding.padding_spec() >= (self.dilation as int) * (
            self.kernel_size - 1) + 1,
            (self.dilation as int) * ((self.kernel_size - 1) as int) <= usize::MAX,
            prod(
                seq![
                    input@.shape[0],
                    self.weight@.shape[0],
                    conv_out_len(
                        input@.shape[2] as int,
                        self.kernel_size as int,
                        self.stride as int,
                        self.dilation as int,
                        self.padding.padding_spec() as int,
                    ) as usize,
                ],
            ) <= usize::MAX,
            self.bias is Some ==> self.bias.unwrap()@.data.len() == self.weight@.shape[0],
        ensures
            r.wf(),
            r@.shape == seq![
                input@.shape[0],
                self.weight@.shape[0],
                conv_out_len(
                    input@.shape[2] as int,
                    self.kernel_size as int,
                    self.stride as int,
                    self.dilation as int,
                    self.padding.padding_spec() as int,
                ) as usize,
            ],
            forall|q: int| 0 <= q < r@.data.len() ==> r@.data[q] == fx_add(
                (if self.bias is Some {
                    self.bias.unwrap()@.data[crate::tensor_dim::at3_j(
                        q,
                        self.weight@.shape[0] as int,
                        conv_out_len(
                            input@.shape[2] as int,
                            self.kernel_size as int,
                            self.stride as int,
                            self.dilation as int,
                            self.padding.padding_spec() as int,
                        ),
                    )]
                } else {
                    0
                }),
                conv_sum(
                    input@.data,
                    self.weight@.data,
                    input@.shape[1] as int,
                    input@.shape[2] as int,
                    self.weight@.shape[1] as int,
                    self.kernel_size as int,
                    self.stride as int,
                    self.dilation as int,
                    self.padding.padding_spec() as int,
                    (crate::tensor_dim::at3_j(
                        q,
                        self.weight@.shape[0] as int,
                        conv_out_len(
                            input@.shape[2] as int,
                            self.kernel_size as int,
                            self.stride as int,
                            self.dilation as int,
                            self.padding.padding_spec() as int,
                        ),
                    ) / ((self.weight@.shape[0] as int) / (self.groups as int))) * (
                    self.weight@.shape[1] as int),
                    crate::tensor_dim::at3_a(
                        q,
                        self.weight@.shape[0] as int,
                        conv_out_len(
                            input@.shape[2] as int,
                            self.kernel_size as int,
                            self.stride as int,
                            self.dilation as int,
                            self.padding.padding_spec() as int,
                        ),
                    ),
                    crate::tensor_dim::at3_j(
                        q,
                        self.weight@.shape[0] as int,
                        conv_out_len(
                            input@.shape[2] as int,
                            self.kernel_size as int,
                            self.stride as int,
                            self.dilation as int,
                            self.padding.padding_spec() as int,
                        ),
                    ),
                    crate::tensor_dim::at3_b(
                        q,
                        conv_out_len(
                            input@.shape[2] as int,
                            self.kernel_size as int,
                            self.stride as int,
                            self.dilation as int,
                            self.padding.padding_spec() as int,
                        ),
                    ),
                    (self.weight@.shape[1] as int) * (self.kernel_size as int),
                ),
            ),
    {
        let ghost xs = input@.shape;
        let batch = input.shape[0];
        let cin = input.shape[1];
        let len = input.shape[2];
        let cout = self.weight.shape[0];
        let cpg = self.weight.shape[1];
        let kernel = self.kernel_size;
        let stride = self.stride;
        let dilation = self.dilation;
        let padding = self.padding.calculate_padding_1d(len, kernel, stride);
        let out_len = (len + 2 * padding - dilation * (kernel - 1) - 1) / stride + 1;
        let ghost oli = out_len as int;
        let ghost cini = cin as int;
        let ghost leni = len as int;
        let ghost cpgi = cpg as int;
        let ghost ki = kernel as int;
        let opg = cout / self.groups;
        let mut out_shape: Vec<usize> = Vec::new();
        out_shape.push(batch);
        out_shape.push(cout);
        out_shape.push(out_len);
        proof {
            assert(out_shape@ =~= seq![batch, cout, out_len as usize]);
            lemma_prod_seq3(batch as int, cout as int, oli, out_shape@);
            lemma_prod_head(xs);
            assert(xs.skip(1)[0] == xs[1]);
            assert(xs.skip(1).skip(1) =~= xs.skip(2));
            lemma_prod_head(xs.skip(1));
            assert(xs.skip(2)[0] == xs[2]);
            assert(xs.skip(2).skip(1) =~= Seq::<usize>::empty());
            lemma_prod_head(xs.skip(2));
            // prod(input shape) == batch * (cin * len)
        }
        let wtotal = self.weight.data.len();
        let xtotal = input.data.len();
        proof {
            lemma_prod_seq3(cout as int, cpgi, ki, self.weight@.shape);
            assert(prod(xs) == (batch as int) * (cini * leni));
        }
        let mut data: Vec<i64> = Vec::new();
        let mut b: usize = 0;
        while b < batch
            invariant
                0 <= b <= batch,
                self.wf(),
                input.wf(),
                xs == input@.shape,
                xs.len() == 3,
                batch == xs[0],
                cin == xs[1],
                len == xs[2],
                cini == cin,
                leni == len,
                cout == self.weight@.shape[0],
                cpg == self.weight@.shape[1],
                cpgi == cpg,
                kernel == self.kernel_size,
                ki == kernel,
                stride == self.stride,
                dilation == self.dilation,
                padding == self.padding.padding_spec(),
                oli == out_len,
                oli == conv_out_len(leni, ki, stride as int, dilation as int, padding as int),
                cini == cpgi * (self.groups as int),
                cout % self.groups == 0,
                opg == cout / self.groups,
                self.groups >= 1,
                stride >= 1,
                dilation >= 1,
                kernel >= 1,
                leni + 2 * padding <= usize::MAX,
                leni + 2 * padding >= (dilation as int) * (ki - 1) + 1,
                (dilation as int) * (ki - 1) <= usize::MAX,
                out_len >= 1,
                self.weight@.data.len() == (cout as int) * cpgi * ki,
               self.weight@.data.len() <= usize::MAX,
                self.weight@.data.len() <= usize::MAX,
                input@.data.len() == (batch as int) * (cini * leni),
                prod(xs) == (batch as int) * (cini * leni),
                prod(xs) <= usize::MAX,
                (batch as int) * (cout as int) * oli <= usize::MAX,
                self.bias is Some ==> self.bias.unwrap()@.data.len() == cout,
                data@.len() == b * ((cout as int) * oli),
                forall|q: int| 0 <= q < data@.len() ==> data@[q] == out_spec_at(
                    *self,
                    input@,
                    q,
                ),
            decreases batch - b,
        {
            let mut oc: usize = 0;
            while oc < cout
                invariant
                    0 <= oc <= cout,
                    0 <= b < batch,
                    self.wf(),
                    input.wf(),
                    xs == input@.shape,
                    xs.len() == 3,
                    batch == xs[0],
                    cin == xs[1],
                    len == xs[2],
                    cini == cin,
                    leni == len,
                    cout == self.weight@.shape[0],
                    cpg == self.weight@.shape[1],
                    cpgi == cpg,
                    kernel == self.kernel_size,
                    ki == kernel,
                    stride == self.stride,
                    dilation == self.dilation,
                    padding == self.padding.padding_spec(),
                    oli == out_len,
                    oli == conv_out_len(leni, ki, stride as int, dilation as int, padding as int),
                    cini == cpgi * (self.groups as int),
                    cout % self.groups == 0,
                    opg == cout / self.groups,
                    self.groups >= 1,
                    stride >= 1,
                    dilation >= 1,
                    kernel >= 1,
                    leni + 2 * padding <= usize::MAX,
                    leni + 2 * padding >= (dilation as int) * (ki - 1) + 1,
                    (dilation as int) * (ki - 1) <= usize::MAX,
                    out_len >= 1,
                    self.weight@.data.len() == (cout as int) * cpgi * ki,
                    self.weight@.data.len() <= usize::MAX,
                self.weight@.data.len() <= usize::MAX,
                    input@.data.len() == (batch as int) * (cini * leni),
                    prod(xs) == (batch as int) * (cini * leni),
                    prod(xs) <= usize::MAX,
                    (batch as int) * (cout as int) * oli <= usize::MAX,
                    self.bias is Some ==> self.bias.unwrap()@.data.len() == cout,
                    data@.len() == b * ((cout as int) * oli) + oc * oli,
                    forall|q: int| 0 <= q < data@.len() ==> data@[q] == out_spec_at(
                        *self,
                        input@,
                        q,
                    ),
                decreases cout - oc,
            {
                proof {
                    // the group count divides the output channels, so each
                    // group holds at least one of them
                    vstd::arithmetic::div_mod::lemma_fundamental_div_mod(
                        cout as int,
                        self.groups as int,
                    );
                    assert(opg as int == (cout as int) / (self.groups as int));
                    assert(opg >= 1) by (nonlinear_arith)
                        requires
                            (cout as int) == (self.groups as int) * (opg as int) + (cout as int)
                                % (self.groups as int),
                            (cout as int) % (self.groups as int) == 0,
                            cout >= 1,
                            opg as int >= 0,
                            self.groups >= 1,
                    ;
                    vstd::arithmetic::div_mod::lemma_fundamental_div_mod(
                        oc as int,
                        opg as int,
                    );
                    assert((oc as int) / (opg as int) < self.groups as int) by (nonlinear_arith)
                        requires
                            0 <= (oc as int) < (cout as int),
                            opg as int >= 1,
                            cout as int == (self.groups as int) * (opg as int),
                            (oc as int) / (opg as int) >= 0,
                            (oc as int) == (opg as int) * ((oc as int) / (opg as int)) + (
                            oc as int) % (opg as int),
                            (oc as int) % (opg as int) >= 0,
                    ;
                    assert(((oc as int) / (opg as int)) * cpgi + cpgi <= cini)
                        by (nonlinear_arith)
                        requires
                            (oc as int) / (opg as int) < self.groups as int,
                            (oc as int) / (opg as int) >= 0,
                            cini == cpgi * (self.groups as int),
                            cpgi >= 0,
                    ;
                    assert(((oc as int) / (opg as int)) * cpgi <= cini);
                }
                let g0 = (oc / opg) * cpg;
                let ghost g0i = g0 as int;
                let mut ol: usize = 0;
                while ol < out_len
                    invariant
                        0 <= ol <= out_len,
                        0 <= oc < cout,
                        0 <= b < batch,
                        self.wf(),
                        input.wf(),
                        xs == input@.shape,
                        xs.len() == 3,
                        batch == xs[0],
                        cin == xs[1],
                        len == xs[2],
                        cini == cin,
                        leni == len,
                        cout == self.weight@.shape[0],
                        cpg == self.weight@.shape[1],
                        cpgi == cpg,
                        kernel == self.kernel_size,
                        ki == kernel,
                        stride == self.stride,
                        dilation == self.dilation,
                        padding == self.padding.padding_spec(),
                        oli == out_len,
                        oli == conv_out_len(
                            leni,
                            ki,
                            stride as int,
                            dilation as int,
                            padding as int,
                        ),
                        cini == cpgi * (self.groups as int),
                        self.groups >= 1,
                        stride >= 1,
                        dilation >= 1,
                        kernel >= 1,
                        leni + 2 * padding <= usize::MAX,
                        leni + 2 * padding >= (dilation as int) * (ki - 1) + 1,
                        (dilation as int) * (ki - 1) <= usize::MAX,
                        out_len >= 1,
                        g0i == g0,
                        0 <= g0i,
                        g0i + cpgi <= cini,
                        g0i == ((oc as int) / ((cout / self.groups) as int)) * cpgi,
                        opg == cout / self.groups,
                        self.weight@.data.len() == (cout as int) * cpgi * ki,
                        self.weight@.data.len() <= usize::MAX,
                self.weight@.data.len() <= usize::MAX,
                        input@.data.len() == (batch as int) * (cini * leni),
                        prod(xs) == (batch as int) * (cini * leni),
                        prod(xs) <= usize::MAX,
                        (batch as int) * (cout as int) * oli <= usize::MAX,
                        self.bias is Some ==> self.bias.unwrap()@.data.len() == cout,
                        data@.len() == b * ((cout as int) * oli) + oc * oli + ol,
                        forall|q: int| 0 <= q < data@.len() ==> data@[q] == out_spec_at(
                            *self,
                            input@,
                            q,
                        ),
                    decreases out_len - ol,
                {
                    let mut acc: i64 = 0;
                    let mut icg: usize = 0;
                    proof {
                        assert(0 * ki == 0) by (nonlinear_arith);
                    }
                    while icg < cpg
                        invariant
                            0 <= icg <= cpg,
                            0 <= ol < out_len,
                            0 <= oc < cout,
                            0 <= b < batch,
                            self.wf(),
                            input.wf(),
                            xs == input@.shape,
                            xs.len() == 3,
                            batch == xs[0],
                            cin == xs[1],
                            len == xs[2],
                            cini == cin,
                            leni == len,
                            cout == self.weight@.shape[0],
                            cpg == self.weight@.shape[1],
                            cpgi == cpg,
                            kernel == self.kernel_size,
                            ki == kernel,
                            stride == self.stride,
                            dilation == self.dilation,
                            padding == self.padding.padding_spec(),
                            cini == cpgi * (self.groups as int),
                            stride >= 1,
                            dilation >= 1,
                            kernel >= 1,
                            leni + 2 * padding <= usize::MAX,
                            leni + 2 * padding >= (dilation as int) * (ki - 1) + 1,
                            (dilation as int) * (ki - 1) <= usize::MAX,
                            oli == out_len,
                            oli == conv_out_len(
                                leni,
                                ki,
                                stride as int,
                                dilation as int,
                                padding as int,
                            ),
                            g0i == g0,
                            0 <= g0i,
                            g0i + cpgi <= cini,
                            self.weight@.data.len() == (cout as int) * cpgi * ki,
                            self.weight@.data.len() <= usize::MAX,
                self.weight@.data.len() <= usize::MAX,
                            input@.data.len() == (batch as int) * (cini * leni),
                            prod(xs) <= usize::MAX,
                            acc == conv_sum(
                                input@.data,
                                self.weight@.data,
                                cini,
                                leni,
                                cpgi,
                                ki,
                                stride as int,
                                dilation as int,
                                padding as int,
                                g0i,
                                b as int,
                                oc as int,
                                ol as int,
                                (icg as int) * ki,
                            ),
                        decreases cpg - icg,
                    {
                        let mut k: usize = 0;
                        while k < kernel
                            invariant
                                0 <= k <= kernel,
                                0 <= icg < cpg,
                                0 <= ol < out_len,
                                0 <= oc < cout,
                                0 <= b < batch,
                                self.wf(),
                                input.wf(),
                                xs == input@.shape,
                                xs.len() == 3,
                                batch == xs[0],
                                cin == xs[1],
                                len == xs[2],
                                cini == cin,
                                leni == len,
                                cout == self.weight@.shape[0],
                                cpg == self.weight@.shape[1],
                                cpgi == cpg,
                                kernel == self.kernel_size,
                                ki == kernel,
                                stride == self.stride,
                                dilation == self.dilation,
                                padding == self.padding.padding_spec(),
                                cini == cpgi * (self.groups as int),
                                stride >= 1,
                                dilation >= 1,
                                kernel >= 1,
                                leni + 2 * padding <= usize::MAX,
                                leni + 2 * padding >= (dilation as int) * (ki - 1) + 1,
                                (dilation as int) * (ki - 1) <= usize::MAX,
                                oli == out_len,
                                oli == conv_out_len(
                                    leni,
                                    ki,
                                    stride as int,
                                    dilation as int,
                                    padding as int,
                                ),
                                g0i == g0,
                                0 <= g0i,
                                g0i + cpgi <= cini,
                                self.weight@.data.len() == (cout as int) * cpgi * ki,
                                self.weight@.data.len() <= usize::MAX,
                self.weight@.data.len() <= usize::MAX,
                                input@.data.len() == (batch as int) * (cini * leni),
                                prod(xs) <= usize::MAX,
                                acc == conv_sum(
                                    input@.data,
                                    self.weight@.data,
                                    cini,
                                    leni,
                                    cpgi,
                                    ki,
                                    stride as int,
                                    dilation as int,
                                    padding as int,
                                    g0i,
                                    b as int,
                                    oc as int,
                                    ol as int,
                                    (icg as int) * ki + k,
                                ),
                            decreases kernel - k,
                        {
                            proof {
                                lemma_index2(icg as int, k as int, ki);
                                // window position stays within the padded line
                                let pos = (ol as int) * (stride as int) + (k as int) * (
                                dilation as int) - (padding as int);
                                lemma_conv_pos(
                                    leni,
                                    ki,
                                    stride as int,
                                    dilation as int,
                                    padding as int,
                                    ol as int,
                                    k as int,
                                );
                                lemma_index3_bound(
                                    oc as int,
                                    icg as int,
                                    k as int,
                                    cout as int,
                                    cpgi,
                                    ki,
                                );
                                assert((oc as int) * (cpgi * ki) + (icg as int) * ki + (k as int)
                                    < (cout as int) * cpgi * ki) by (nonlinear_arith)
                                    requires
                                        (oc as int) * (cpgi * ki) + (icg as int) * ki + (k as int)
                                            < (cout as int) * (cpgi * ki),
                                ;
                                assert(cpgi * ki <= (cout as int) * cpgi * ki) by (nonlinear_arith)
                                    requires
                                        cout >= 1,
                                        cpgi >= 0,
                                        ki >= 0,
                                ;
                            }
                            let pos_p = ol * stride + k * dilation;
                            let wv = self.weight.data[oc * (cpg * kernel) + icg * kernel + k];
                            let xv: i64 = if pos_p >= padding && pos_p - padding < len {
                                proof {
                                    lemma_index3_bound(
                                        b as int,
                                        g0i + icg,
                                        (pos_p - padding) as int,
                                        batch as int,
                                        cini,
                                        leni,
                                    );
                                    assert((b as int) * (cini * leni) + (g0i + icg) * leni + (
                                    pos_p - padding) == ((b as int) * cini + g0i + icg) * leni + (
                                    pos_p - padding)) by (nonlinear_arith);
                                    assert((b as int) * cini + g0i + icg < (batch as int) * cini)
                                        by (nonlinear_arith)
                                        requires
                                            0 <= (b as int) < (batch as int),
                                            0 <= g0i + icg < cini,
                                    ;
                                    assert(((b as int) * cini + g0i + icg) * leni + (pos_p
                                        - padding) < ((batch as int) * cini) * leni)
                                        by (nonlinear_arith)
                                        requires
                                            (b as int) * cini + g0i + icg < (batch as int) * cini,
                                            0 <= (b as int) * cini + g0i + icg,
                                            0 <= (pos_p - padding) < leni,
                                    ;
                                    assert(((batch as int) * cini) * leni == (batch as int) * (
                                    cini * leni)) by (nonlinear_arith);
                                    assert(0 <= (b as int) * cini) by (nonlinear_arith)
                                        requires
                                            b >= 0,
                                            cini >= 0,
                                    ;
                                    assert((batch as int) * cini <= (batch as int) * cini * leni)
                                        by (nonlinear_arith)
                                        requires
                                            leni >= 1,
                                            (batch as int) * cini >= 0,
                                    ;
                                    assert((batch as int) * cini * leni == ((batch as int) * cini)
                                        * leni) by (nonlinear_arith);
                                }
                                input.data[(b * cin + g0 + icg) * len + (pos_p - padding)]
                            } else {
                                0
                            };
                            proof {
                                assert(padded_at(
                                    input@.data,
                                    leni,
                                    (b as int) * cini + g0i + icg,
                                    (ol as int) * (stride as int) + (k as int) * (dilation as int)
                                        - (padding as int),
                                ) == xv);
                            }
                            acc = add_fx(acc, mul_fx(xv, wv));
                            proof {
                                assert((icg as int) * ki + k + 1 >= 1);
                                assert(((icg as int) * ki + (k as int) + 1 - 1) / ki
                                    == icg as int && ((icg as int) * ki + (k as int) + 1 - 1) % ki
                                    == k as int) by {
                                    lemma_index2(icg as int, k as int, ki);
                                }
                            }
                            k += 1;
                        }
                        proof {
                            assert((icg as int + 1) * ki == (icg as int) * ki + ki)
                                by (nonlinear_arith);
                        }
                        icg += 1;
                    }
                    let base = match &self.bias {
                        Some(bt) => bt.data[oc],
                        None => 0,
                    };
                    let outv = add_fx(base, acc);
                    proof {
                        lemma_index3_bound(b as int, oc as int, ol as int, batch as int, cout as int, oli);
                        crate::shape::lemma_index3_inverse(b as int, oc as int, ol as int, cout as int, oli);
                        assert((b as int) * ((cout as int) * oli) + (oc as int) * oli + (ol as int)
                            < (batch as int) * ((cout as int) * oli));
                        assert((batch as int) * ((cout as int) * oli) == (batch as int) * (
                        cout as int) * oli) by (nonlinear_arith);
                    }
                    data.push(outv);
                    proof {
                        let q = (b as int) * ((cout as int) * oli) + (oc as int) * oli + (
                        ol as int);
                        assert(data@[q] == out_spec_at(*self, input@, q));
                    }
                    ol += 1;
                }
                proof {
                    assert((oc as int + 1) * oli == (oc as int) * oli + oli) by (nonlinear_arith);
                }
                oc += 1;
            }
            proof {
                assert((b as int + 1) * ((cout as int) * oli) == (b as int) * ((cout as int) * oli)
                    + (cout as int) * oli) by (nonlinear_arith);
            }
            b += 1;
        }
        let r = Tensor { shape: out_shape, data };
        proof {
            assert(r@.shape =~= seq![
                input@.shape[0],
                self.weight@.shape[0],
                conv_out_len(
                    input@.shape[2] as int,
                    self.kernel_size as int,
                    self.stride as int,
                    self.dilation as int,
                    self.padding.padding_spec() as int,
                ) as usize,
            ]);
            assert(prod(r@.shape) == (batch as int) * (cout as int) * oli);
            assert((batch as int) * ((cout as int) * oli) == (batch as int) * (cout as int) * oli)
                by (nonlinear_arith);
        }
        r
    }
}

/// The specified output element at flat position `q`.
pub open spec fn out_spec_at(layer: Conv1d, x: crate::tensor::TView, q: int) -> i64 {
    let cout = layer.weight.shape@[0] as int;
    let cpg = layer.weight.shape@[1] as int;
    let ki = layer.kernel_size as int;
    let oli = conv_out_len(
        x.shape[2] as int,
        layer.kernel_size as int,
        layer.stride as int,
        layer.dilation as int,
        layer.padding.padding_spec() as int,
    );
    let b = crate::tensor_dim::at3_a(q, cout, oli);
    let oc = crate::tensor_dim::at3_j(q, cout, oli);
    let ol = crate::tensor_dim::at3_b(q, oli);
    fx_add(
        (if layer.bias is Some {
            layer.bias.unwrap()@.data[oc]
        } else {
            0
        }),
        conv_sum(
            x.data,
            layer.weight@.data,
            x.shape[1] as int,
            x.shape[2] as int,
            cpg,
            ki,
            layer.stride as int,
            layer.dilation as int,
            layer.padding.padding_spec() as int,
            (oc / (cout / (layer.groups as int))) * cpg,
            b,
            oc,
            ol,
            cpg * ki,
        ),
    )
}

/// A window position of a valid output stays within the padded line.
proof fn lemma_conv_pos(len: int, kernel: int, stride: int, dilation: int, padding: int, ol: int, k: int)
    requires
        stride >= 1,
        dilation >= 1,
        kernel >= 1,
        0 <= k < kernel,
        0 <= ol,
        ol < conv_out_len(len, kernel, stride, dilation, padding),
        len + 2 * padding >= dilation * (kernel - 1) + 1,
    ensures
        ol * stride + k * dilation <= len + 2 * padding,
{
    let m = len + 2 * padding - dilation * (kernel - 1) - 1;
    vstd::arithmetic::div_mod::lemma_fundamental_div_mod(m, stride);
    assert(ol <= m / stride);
    assert(ol * stride <= (m / stride) * stride) by (nonlinear_arith)
        requires
            ol <= m / stride,
            stride >= 1,
    ;
    assert((m / stride) * stride <= m) by (nonlinear_arith)
        requires
            m == stride * (m / stride) + m % stride,
            m % stride >= 0,
    ;
    assert(k * dilation <= (kernel - 1) * dilation) by (nonlinear_arith)
        requires
            k <= kernel - 1,
            dilation >= 0,
    ;
    assert((kernel - 1) * dilation == dilation * (kernel - 1)) by (nonlinear_arith);
}

} // verus!
