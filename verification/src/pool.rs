//! Average pooling over the trailing spatial dimensions, with the matching
//! backward kernels.
//!
//! Windows may overhang the input through zero padding; the divisor is
//! always the full kernel size.

use vstd::prelude::*;

use crate::fixed::{add_fx, div_int_fx, fx_add, fx_div_int};
use crate::shape::{lemma_index2, lemma_index3_bound, lemma_prod_all_pos, lemma_prod_head, lemma_prod_split, num_elems, prod};
use crate::tensor::{copy_shape, Tensor, TView};
use crate::tensor_coords::{flat, lemma_prod_swap, swap2, unflat};
use crate::tensor_dim::has_zero_dim;

verus! {

/// Number of output positions of a pooled dimension.
pub open spec fn pool_out_len(len: int, kernel: int, stride: int, padding: int) -> int {
    (len + 2 * padding - kernel) / stride + 1
}

/// Padded read: the element at spatial position `pos` of row `o`, or zero
/// outside the input.
pub open spec fn padded_at(data: Seq<i64>, len: int, o: int, pos: int) -> i64 {
    if 0 <= pos < len {
        data[o * len + pos]
    } else {
        0
    }
}

/// Sum of the first `k` kernel positions of the window at output position
/// `ol` of row `o`.
pub open spec fn pool_win_sum(
    data: Seq<i64>,
    len: int,
    o: int,
    ol: int,
    stride: int,
    padding: int,
    k: int,
) -> i64
    decreases k,
{
    if k <= 0 {
        0
    } else {
        fx_add(
            pool_win_sum(data, len, o, ol, stride, padding, k - 1),
            padded_at(data, len, o, ol * stride + (k - 1) - padding),
        )
    }
}

/// Contribution of the first `n` output positions of row `o` to input
/// position `i` of the backward pass: each window covering `i` contributes
/// its incoming gradient divided by the kernel size.
pub open spec fn pool_back_sum(
    gdata: Seq<i64>,
    out_len: int,
    o: int,
    i: int,
    kernel: int,
    stride: int,
    padding: int,
    n: int,
) -> i64
    decreases n,
{
    if n <= 0 {
        0
    } else {
        let prev = pool_back_sum(gdata, out_len, o, i, kernel, stride, padding, n - 1);
        let ol = n - 1;
        if ol * stride - padding <= i < ol * stride - padding + kernel {
            fx_add(prev, fx_div_int(gdata[o * out_len + ol], kernel as i64))
        } else {
            prev
        }
    }
}

/// Windows before `lo = ceil((i + padding - kernel + 1) / stride)` do not
/// cover position `i`, so their contribution is zero.
proof fn lemma_pool_back_zero_prefix(
    gdata: Seq<i64>,
    out_len: int,
    o: int,
    i: int,
    kernel: int,
    stride: int,
    padding: int,
    n: int,
)
    requires
        0 <= n,
        stride >= 1,
        forall|ol: int| 0 <= ol < n ==> !(#[trigger] (ol * stride) - padding <= i < ol * stride
            - padding + kernel),
    ensures
        pool_back_sum(gdata, out_len, o, i, kernel, stride, padding, n) == 0,
    decreases n,
{
    if n > 0 {
        lemma_pool_back_zero_prefix(gdata, out_len, o, i, kernel, stride, padding, n - 1);
    }
}

/// Windows from `hi` on do not cover position `i`, so the sum stops growing.
proof fn lemma_pool_back_zero_suffix(
    gdata: Seq<i64>,
    out_len: int,
    o: int,
    i: int,
    kernel: int,
    stride: int,
    padding: int,
    hi: int,
    n: int,
)
    requires
        0 <= hi <= n,
        stride >= 1,
        forall|ol: int| hi <= ol < n ==> !(#[trigger] (ol * stride) - padding <= i < ol * stride
            - padding + kernel),
    ensures
        pool_back_sum(gdata, out_len, o, i, kernel, stride, padding, n) == pool_back_sum(
            gdata,
            out_len,
            o,
            i,
            kernel,
            stride,
            padding,
            hi,
        ),
    decreases n - hi,
{
    if n > hi {
        lemma_pool_back_zero_suffix(gdata, out_len, o, i, kernel, stride, padding, hi, n - 1);
    }
}

impl Tensor {
    /// Average pooling over the last dimension.
    pub fn avg_pool_last(&self, kernel: usize, stride: usize, padding: usize) -> (r: Tensor)
        requires
            self.wf(),
            self@.shape.len() >= 1,
            kernel >= 1,
            stride >= 1,
            padding <= kernel,
            kernel <= i64::MAX,
            self@.shape.last() + 2 * padding >= kernel,
            self@.shape.last() + 2 * padding <= usize::MAX,
            prod(
                self@.shape.update(
                    self@.shape.len() - 1,
                    pool_out_len(
                        self@.shape.last() as int,
                        kernel as int,
                        stride as int,
                        padding as int,
                    ) as usize,
                ),
            ) <= usize::MAX,
        ensures
            r.wf(),
            r@.shape == self@.shape.update(
                self@.shape.len() - 1,
                pool_out_len(
                    self@.shape.last() as int,
                    kernel as int,
                    stride as int,
                    padding as int,
                ) as usize,
            ),
            forall|q: int| 0 <= q < r@.data.len() ==> r@.data[q] == fx_div_int(
                pool_win_sum(
                    self@.data,
                    self@.shape.last() as int,
                    q / pool_out_len(
                        self@.shape.last() as int,
                        kernel as int,
                        stride as int,
                        padding as int,
                    ),
                    q % pool_out_len(
                        self@.shape.last() as int,
                        kernel as int,
                        stride as int,
                        padding as int,
                    ),
                    stride as int,
                    padding as int,
                    kernel as int,
                ),
                kernel as i64,
            ),
    {
        let ghost s = self@.shape;
        let rank = self.shape.len();
        let len = self.shape[rank - 1];
        let out_len = (len + 2 * padding - kernel) / stride + 1;
        let ghost oli = out_len as int;
        let mut new_shape = copy_shape(&self.shape);
        new_shape.set(rank - 1, out_len);
        proof {
            assert(new_shape@ =~= s.update(s.len() - 1, out_len as usize));
        }
        if has_zero_dim(&new_shape) {
            let data: Vec<i64> = Vec::new();
            let r = Tensor { shape: new_shape, data };
            proof {
                crate::tensor_dim::lemma_prod_zero_from_update(new_shape@);
            }
            return r;
        }
        proof {
            assert forall|k: int| 0 <= k < s.len() - 1 implies s[k] >= 1 by {
                assert(new_shape@[k] == s[k]);
            }
        }
        let total = self.data.len();
        proof {
            assert(prod(s) <= usize::MAX);
        }
        // outer extent: every dimension but the last
        let mut headv: Vec<usize> = Vec::new();
        let mut hidx: usize = 0;
        while hidx < rank - 1
            invariant
                0 <= hidx <= rank - 1,
                rank == s.len(),
                rank >= 1,
                self@.shape == s,
                headv@ == s.take(hidx as int),
            decreases rank - 1 - hidx,
        {
            headv.push(self.shape[hidx]);
            proof {
                assert(headv@ =~= s.take(hidx as int + 1));
            }
            hidx += 1;
        }
        proof {
            lemma_prod_split(s, rank - 1);
            lemma_prod_head(s.skip(rank - 1));
            assert(s.skip(rank - 1)[0] == s[rank - 1]);
            assert(s.skip(rank - 1).skip(1) =~= Seq::<usize>::empty());
            let u = s.update(s.len() - 1, out_len as usize);
            lemma_prod_split(u, rank - 1);
            lemma_prod_head(u.skip(rank - 1));
            assert(u.skip(rank - 1)[0] == out_len);
            assert(u.skip(rank - 1).skip(1) =~= Seq::<usize>::empty());
            assert(u.take(rank - 1) =~= s.take(rank - 1));
            lemma_prod_all_pos(u);
            lemma_prod_all_pos(s.take(rank - 1));
            let og = prod(s.take(rank - 1));
            let og2 = out_len as int;
            assert(og <= og * (og2 * 1) && og * (og2 * 1) == og * og2) by (nonlinear_arith)
                requires
                    og >= 1,
                    og2 >= 1,
            ;
        }
        let outer = num_elems(&headv);
        let ghost leni = len as int;
        let mut data: Vec<i64> = Vec::new();
        let mut o: usize = 0;
        while o < outer
            invariant
                0 <= o <= outer,
                self.wf(),
                s == self@.shape,
                rank == s.len(),
                rank >= 1,
                leni == len,
                len == s[rank - 1],
                oli == out_len,
                oli == pool_out_len(leni, kernel as int, stride as int, padding as int),
                outer * (leni * 1) == prod(s),
                outer * (oli * 1) == prod(s.update(s.len() - 1, out_len as usize)),
                prod(s) <= usize::MAX,
                prod(s.update(s.len() - 1, out_len as usize)) <= usize::MAX,
                kernel >= 1,
                stride >= 1,
                kernel <= i64::MAX,
                padding <= kernel,
                leni + 2 * padding >= kernel,
                leni + 2 * padding <= usize::MAX,
                out_len >= 1,
                outer >= 1,
                data@.len() == o * oli,
                forall|q: int| 0 <= q < data@.len() ==> data@[q] == fx_div_int(
                    pool_win_sum(
                        self@.data,
                        leni,
                        q / oli,
                        q % oli,
                        stride as int,
                        padding as int,
                        kernel as int,
                    ),
                    kernel as i64,
                ),
            decreases outer - o,
        {
            let mut ol: usize = 0;
            while ol < out_len
                invariant
                    0 <= ol <= out_len,
                    0 <= o < outer,
                    self.wf(),
                    s == self@.shape,
                    rank == s.len(),
                    rank >= 1,
                    leni == len,
                    len == s[rank - 1],
                    oli == out_len,
                    oli == pool_out_len(leni, kernel as int, stride as int, padding as int),
                    outer * (leni * 1) == prod(s),
                    outer * (oli * 1) == prod(s.update(s.len() - 1, out_len as usize)),
                    prod(s) <= usize::MAX,
                    prod(s.update(s.len() - 1, out_len as usize)) <= usize::MAX,
                    kernel >= 1,
                    stride >= 1,
                    kernel <= i64::MAX,
                    padding <= kernel,
                    leni + 2 * padding >= kernel,
                    leni + 2 * padding <= usize::MAX,
                    out_len >= 1,
                    data@.len() == o * oli + ol,
                    forall|q: int| 0 <= q < data@.len() ==> data@[q] == fx_div_int(
                        pool_win_sum(
                            self@.data,
                            leni,
                            q / oli,
                            q % oli,
                            stride as int,
                            padding as int,
                            kernel as int,
                        ),
                        kernel as i64,
                    ),
                decreases out_len - ol,
            {
                let mut acc: i64 = 0;
                let mut k: usize = 0;
                while k < kernel
                    invariant
                        0 <= k <= kernel,
                        0 <= ol < out_len,
                        0 <= o < outer,
                        self.wf(),
                        s == self@.shape,
                        rank == s.len(),
                        rank >= 1,
                        leni == len,
                        len == s[rank - 1],
                        oli == out_len,
                        oli == pool_out_len(leni, kernel as int, stride as int, padding as int),
                        outer * (leni * 1) == prod(s),
                        prod(s) <= usize::MAX,
                        stride >= 1,
                        kernel >= 1,
                        padding <= kernel,
                        leni + 2 * padding >= kernel,
                        leni + 2 * padding <= usize::MAX,
                        acc == pool_win_sum(
                            self@.data,
                            leni,
                            o as int,
                            ol as int,
                            stride as int,
                            padding as int,
                            k as int,
                        ),
                    decreases kernel - k,
                {
                    proof {
                        let b = leni + 2 * (padding as int) - kernel;
                        vstd::arithmetic::div_mod::lemma_fundamental_div_mod(b, stride as int);
                        assert((ol as int) * stride <= (b / (stride as int)) * stride)
                            by (nonlinear_arith)
                            requires
                                ol as int <= b / (stride as int),
                                stride >= 1,
                        ;
                        assert((b / (stride as int)) * (stride as int) <= b) by (nonlinear_arith)
                            requires
                                b == (stride as int) * (b / (stride as int)) + b % (stride as int),
                                b % (stride as int) >= 0,
                        ;
                    }
                    let pos_p = ol * stride + k;
                    if pos_p >= padding && pos_p - padding < len {
                        let pos = pos_p - padding;
                        proof {
                            lemma_index3_bound(o as int, pos as int, 0, outer as int, leni, 1);
                            assert(o * (leni * 1) + pos * 1 + 0 == o * leni + pos)
                                by (nonlinear_arith);
                        }
                        acc = add_fx(acc, self.data[o * len + pos]);
                    }
                    k += 1;
                }
                proof {
                    lemma_index2(o as int, ol as int, oli);
                    lemma_index3_bound(o as int, ol as int, 0, outer as int, oli, 1);
                    assert(o * (oli * 1) + ol * 1 + 0 == o * oli + ol) by (nonlinear_arith);
                }
                data.push(div_int_fx(acc, kernel as i64));
                ol += 1;
            }
            proof {
                assert((o + 1) * oli == o * oli + oli) by (nonlinear_arith);
            }
            o += 1;
        }
        let r = Tensor { shape: new_shape, data };
        proof {
            assert(outer * (oli * 1) == outer * oli) by (nonlinear_arith);
        }
        r
    }

    /// Backward of average pooling over the last dimension: `self` is the
    /// input whose gradient is produced, `grad` the incoming gradient.
    pub fn avg_pool_last_backward(
        &self,
        grad: &Tensor,
        kernel: usize,
        stride: usize,
        padding: usize,
    ) -> (r: Tensor)
        requires
            self.wf(),
            grad.wf(),
            self@.shape.len() >= 1,
            kernel >= 1,
            stride >= 1,
            padding <= kernel,
            kernel <= i64::MAX,
            self@.shape.last() + 2 * padding >= kernel,
            self@.shape.last() + 2 * padding <= usize::MAX,
            grad@.shape == self@.shape.update(
                self@.shape.len() - 1,
                pool_out_len(
                    self@.shape.last() as int,
                    kernel as int,
                    stride as int,
                    padding as int,
                ) as usize,
            ),
        ensures
            r.wf(),
            r@.shape == self@.shape,
            r@.data.len() == self@.data.len(),
            forall|q: int| 0 <= q < r@.data.len() ==> r@.data[q] == pool_back_sum(
                grad@.data,
                pool_out_len(
                    self@.shape.last() as int,
                    kernel as int,
                    stride as int,
                    padding as int,
                ),
                q / (self@.shape.last() as int),
                q % (self@.shape.last() as int),
                kernel as int,
                stride as int,
                padding as int,
                pool_out_len(
                    self@.shape.last() as int,
                    kernel as int,
                    stride as int,
                    padding as int,
                ),
            ),
    {
        let ghost s = self@.shape;
        let rank = self.shape.len();
        let len = self.shape[rank - 1];
        let out_len = (len + 2 * padding - kernel) / stride + 1;
        let ghost oli = out_len as int;
        let ghost leni = len as int;
        if has_zero_dim(&self.shape) {
            let r = self.dup();
            return r;
        }
        let total = self.data.len();
        let gtotal = grad.data.len();
        proof {
            assert(prod(s) <= usize::MAX);
            lemma_prod_all_pos(s);
        }
        // split both element counts at the last dimension
        let mut headv: Vec<usize> = Vec::new();
        let mut hidx: usize = 0;
        while hidx < rank - 1
            invariant
                0 <= hidx <= rank - 1,
                rank == s.len(),
                rank >= 1,
                self@.shape == s,
                headv@ == s.take(hidx as int),
            decreases rank - 1 - hidx,
        {
            headv.push(self.shape[hidx]);
            proof {
                assert(headv@ =~= s.take(hidx as int + 1));
            }
            hidx += 1;
        }
        proof {
            lemma_prod_split(s, rank - 1);
            lemma_prod_head(s.skip(rank - 1));
            assert(s.skip(rank - 1)[0] == s[rank - 1]);
            assert(s.skip(rank - 1).skip(1) =~= Seq::<usize>::empty());
            let u = s.update(s.len() - 1, out_len as usize);
            lemma_prod_split(u, rank - 1);
            lemma_prod_head(u.skip(rank - 1));
            assert(u.skip(rank - 1)[0] == out_len);
            assert(u.skip(rank - 1).skip(1) =~= Seq::<usize>::empty());
            assert(u.take(rank - 1) =~= s.take(rank - 1));
            lemma_prod_all_pos(s.take(rank - 1));
            let og = prod(s.take(rank - 1));
            let og2 = out_len as int;
            assert(og2 >= 1);
            assert(og <= og * (og2 * 1) && og * (og2 * 1) == og * og2) by (nonlinear_arith)
                requires
                    og >= 1,
                    og2 >= 1,
            ;
        }
        let outer = num_elems(&headv);
        let mut data: Vec<i64> = Vec::new();
        let mut o: usize = 0;
        while o < outer
            invariant
                0 <= o <= outer,
                self.wf(),
                grad.wf(),
                s == self@.shape,
                rank == s.len(),
                rank >= 1,
                leni == len,
                len == s[rank - 1],
                len >= 1,
                oli == out_len,
                oli == pool_out_len(leni, kernel as int, stride as int, padding as int),
                outer * (leni * 1) == prod(s),
                grad@.data.len() == outer * (oli * 1),
                prod(s) <= usize::MAX,
                grad@.data.len() <= usize::MAX,
                kernel >= 1,
                stride >= 1,
                kernel <= i64::MAX,
                padding <= kernel,
                leni + 2 * padding >= kernel,
                leni + 2 * padding <= usize::MAX,
                out_len >= 1,
                outer >= 1,
                data@.len() == o * leni,
                forall|q: int| 0 <= q < data@.len() ==> data@[q] == pool_back_sum(
                    grad@.data,
                    oli,
                    q / leni,
                    q % leni,
                    kernel as int,
                    stride as int,
                    padding as int,
                    oli,
                ),
            decreases outer - o,
        {
            let mut i: usize = 0;
            while i < len
                invariant
                    0 <= i <= len,
                    0 <= o < outer,
                    self.wf(),
                    grad.wf(),
                    s == self@.shape,
                    rank == s.len(),
                    rank >= 1,
                    leni == len,
                    len == s[rank - 1],
                    len >= 1,
                    oli == out_len,
                    oli == pool_out_len(leni, kernel as int, stride as int, padding as int),
                    outer * (leni * 1) == prod(s),
                    grad@.data.len() == outer * (oli * 1),
                    prod(s) <= usize::MAX,
                    grad@.data.len() <= usize::MAX,
                    kernel >= 1,
                    stride >= 1,
                    kernel <= i64::MAX,
                    padding <= kernel,
                    leni + 2 * padding >= kernel,
                    leni + 2 * padding <= usize::MAX,
                    out_len >= 1,
                    data@.len() == o * leni + i,
                    forall|q: int| 0 <= q < data@.len() ==> data@[q] == pool_back_sum(
                        grad@.data,
                        oli,
                        q / leni,
                        q % leni,
                        kernel as int,
                        stride as int,
                        padding as int,
                        oli,
                    ),
                decreases len - i,
            {
                // windows covering i: ol * stride in (i + padding - kernel, i + padding]
                let lo = if i + padding >= kernel {
                    (i + padding - kernel) / stride + 1
                } else {
                    0
                };
                let hi_raw = (i + padding) / stride + 1;
                let hi = if hi_raw < out_len {
                    hi_raw
                } else {
                    out_len
                };
                let mut acc: i64 = 0;
                let mut ol: usize = if lo < hi {
                    lo
                } else {
                    hi
                };
                proof {
                    lemma_pool_back_window(
                        leni,
                        oli,
                        kernel as int,
                        stride as int,
                        padding as int,
                        i as int,
                        lo as int,
                        hi as int,
                    );
                    lemma_pool_back_zero_prefix(
                        grad@.data,
                        oli,
                        o as int,
                        i as int,
                        kernel as int,
                        stride as int,
                        padding as int,
                        ol as int,
                    );
                }
                while ol < hi
                    invariant
                        lo <= hi ==> lo <= ol <= hi,
                        lo > hi ==> ol == hi,
                        hi <= out_len,
                        lo as int == (if (i as int) + (padding as int) >= kernel {
                            ((i as int) + (padding as int) - (kernel as int)) / (stride as int)
                                + 1
                        } else {
                            0
                        }),
                        (hi as int) == (if ((i as int) + (padding as int)) / (stride as int) + 1
                            < out_len {
                            ((i as int) + (padding as int)) / (stride as int) + 1
                        } else {
                            out_len as int
                        }),
                        0 <= i < len,
                        0 <= o < outer,
                        grad.wf(),
                        leni == len,
                        oli == out_len,
                        grad@.data.len() == outer * (oli * 1),
                        grad@.data.len() <= usize::MAX,
                        kernel >= 1,
                        stride >= 1,
                        kernel <= i64::MAX,
                        acc == pool_back_sum(
                            grad@.data,
                            oli,
                            o as int,
                            i as int,
                            kernel as int,
                            stride as int,
                            padding as int,
                            ol as int,
                        ),
                    decreases hi - ol,
                {
                    proof {
                        lemma_index3_bound(o as int, ol as int, 0, outer as int, oli, 1);
                        assert(o * (oli * 1) + ol * 1 + 0 == o * oli + ol) by (nonlinear_arith);
                    }
                    proof {
                        // every window in [lo, hi) covers position i
                        let oli2 = ol as int;
                        let si = stride as int;
                        let ii = i as int;
                        let pi = padding as int;
                        let ki = kernel as int;
                        if ii + pi >= ki {
                            let b = ii + pi - ki;
                            vstd::arithmetic::div_mod::lemma_fundamental_div_mod(b, si);
                            assert(oli2 * si >= (b / si + 1) * si) by (nonlinear_arith)
                                requires
                                    oli2 >= b / si + 1,
                                    si >= 1,
                            ;
                            assert((b / si + 1) * si > b) by (nonlinear_arith)
                                requires
                                    b == si * (b / si) + b % si,
                                    b % si < si,
                            ;
                        } else {
                            assert(oli2 * si >= 0) by (nonlinear_arith)
                                requires
                                    oli2 >= 0,
                                    si >= 0,
                            ;
                        }
                        let c = ii + pi;
                        vstd::arithmetic::div_mod::lemma_fundamental_div_mod(c, si);
                        assert(oli2 * si <= (c / si) * si) by (nonlinear_arith)
                            requires
                                oli2 <= c / si,
                                si >= 1,
                        ;
                        assert((c / si) * si <= c) by (nonlinear_arith)
                            requires
                                c == si * (c / si) + c % si,
                                c % si >= 0,
                        ;
                        assert(oli2 * si - pi <= ii < oli2 * si - pi + ki);
                    }
                    let gv = grad.data[o * out_len + ol];
                    acc = add_fx(acc, div_int_fx(gv, kernel as i64));
                    ol += 1;
                }
                proof {
                    lemma_pool_back_zero_suffix(
                        grad@.data,
                        oli,
                        o as int,
                        i as int,
                        kernel as int,
                        stride as int,
                        padding as int,
                        ol as int,
                        oli,
                    );
                    lemma_index2(o as int, i as int, leni);
                }
                data.push(acc);
                i += 1;
            }
            proof {
                assert((o + 1) * leni == o * leni + leni) by (nonlinear_arith);
            }
            o += 1;
        }
        let r = Tensor { shape: copy_shape(&self.shape), data };
        r
    }
}

/// View-level form of `avg_pool_last`.
pub open spec fn tv_avg_pool_last(a: TView, kernel: int, stride: int, padding: int) -> TView {
    let len = a.shape.last() as int;
    let ol = pool_out_len(len, kernel, stride, padding);
    let nsh = a.shape.update(a.shape.len() - 1, ol as usize);
    TView {
        shape: nsh,
        data: Seq::new(
            prod(nsh) as nat,
            |q: int| fx_div_int(pool_win_sum(a.data, len, q / ol, q % ol, stride, padding, kernel), kernel as i64),
        ),
    }
}

/// View-level form of `avg_pool_last_backward`.
pub open spec fn tv_pool_back(x: TView, g: TView, kernel: int, stride: int, padding: int) -> TView {
    let len = x.shape.last() as int;
    let ol = pool_out_len(len, kernel, stride, padding);
    TView {
        shape: x.shape,
        data: Seq::new(
            x.data.len(),
            |q: int| pool_back_sum(g.data, ol, q / len, q % len, kernel, stride, padding, ol),
        ),
    }
}

/// View-level exchange of the last two dimensions.
pub open spec fn tv_swap_last2(a: TView) -> TView {
    let r = a.shape.len();
    let nsh = swap2(a.shape, r - 2, r - 1);
    TView {
        shape: nsh,
        data: Seq::new(
            a.data.len(),
            |q: int| a.data[flat(a.shape, swap2(unflat(nsh, q), r - 2, r - 1))],
        ),
    }
}

/// Average pooling over the last two dimensions, computed one dimension at
/// a time: the width is pooled first, then, after an index swap, the height.
pub fn avg_pool2d(x: &Tensor, kernel_size: [usize; 2], stride: [usize; 2], padding: [usize; 2])
    -> (r: Tensor)
    requires
        x.wf(),
        x@.shape.len() >= 2,
        kernel_size[0] >= 1,
        kernel_size[1] >= 1,
        stride[0] >= 1,
        stride[1] >= 1,
        padding[0] <= kernel_size[0],
        padding[1] <= kernel_size[1],
        kernel_size[0] <= i64::MAX,
        kernel_size[1] <= i64::MAX,
        x@.shape.last() + 2 * padding[1] >= kernel_size[1],
        x@.shape.last() + 2 * padding[1] <= usize::MAX,
        x@.shape[x@.shape.len() - 2] + 2 * padding[0] >= kernel_size[0],
        x@.shape[x@.shape.len() - 2] + 2 * padding[0] <= usize::MAX,
        prod(
            x@.shape.update(
                x@.shape.len() - 1,
                pool_out_len(
                    x@.shape.last() as int,
                    kernel_size[1] as int,
                    stride[1] as int,
                    padding[1] as int,
                ) as usize,
            ),
        ) <= usize::MAX,
        prod(
            x@.shape.update(
                x@.shape.len() - 2,
                pool_out_len(
                    x@.shape[x@.shape.len() - 2] as int,
                    kernel_size[0] as int,
                    stride[0] as int,
                    padding[0] as int,
                ) as usize,
            ).update(
                x@.shape.len() - 1,
                pool_out_len(
                    x@.shape.last() as int,
                    kernel_size[1] as int,
                    stride[1] as int,
                    padding[1] as int,
                ) as usize,
            ),
        ) <= usize::MAX,
    ensures
        r.wf(),
        r@ == tv_swap_last2(
            tv_avg_pool_last(
                tv_swap_last2(
                    tv_avg_pool_last(
                        x@,
                        kernel_size[1] as int,
                        stride[1] as int,
                        padding[1] as int,
                    ),
                ),
                kernel_size[0] as int,
                stride[0] as int,
                padding[0] as int,
            ),
        ),
{
    let ghost s = x@.shape;
    let rank = x.shape.len();
    let a = x.avg_pool_last(kernel_size[1], stride[1], padding[1]);
    proof {
        assert(a@ =~= tv_avg_pool_last(x@, kernel_size[1] as int, stride[1] as int, padding[1] as int));
    }
    let b = a.swap_dims(rank - 2, rank - 1);
    proof {
        assert(b@ =~= tv_swap_last2(a@));
        assert(b@.shape.last() == s[s.len() - 2]);
        lemma_prod_swap(a@.shape, rank - 2, rank - 1);
        // the final element count bounds the intermediate one
        let s3 = b@.shape.update(b@.shape.len() - 1, pool_out_len(
            b@.shape.last() as int,
            kernel_size[0] as int,
            stride[0] as int,
            padding[0] as int,
        ) as usize);
        let s4 = s.update(
            s.len() - 2,
            pool_out_len(
                s[s.len() - 2] as int,
                kernel_size[0] as int,
                stride[0] as int,
                padding[0] as int,
            ) as usize,
        ).update(
            s.len() - 1,
            pool_out_len(s.last() as int, kernel_size[1] as int, stride[1] as int, padding[1] as int) as usize,
        );
        assert(s3 =~= swap2(s4, rank - 2, rank - 1));
        lemma_prod_swap(s4, rank - 2, rank - 1);
    }
    let c = b.avg_pool_last(kernel_size[0], stride[0], padding[0]);
    proof {
        assert(c@ =~= tv_avg_pool_last(b@, kernel_size[0] as int, stride[0] as int, padding[0] as int));
    }
    let r = c.swap_dims(rank - 2, rank - 1);
    proof {
        assert(r@ =~= tv_swap_last2(c@));
    }
    r
}

/// Backward of two-dimensional average pooling: the incoming gradient flows
/// back through the height pooling, then through the width pooling.
pub fn avg_pool2d_backward(
    x: &Tensor,
    grad: &Tensor,
    kernel_size: [usize; 2],
    stride: [usize; 2],
    padding: [usize; 2],
) -> (r: Tensor)
    requires
        x.wf(),
        grad.wf(),
        x@.shape.len() >= 2,
        kernel_size[0] >= 1,
        kernel_size[1] >= 1,
        stride[0] >= 1,
        stride[1] >= 1,
        padding[0] <= kernel_size[0],
        padding[1] <= kernel_size[1],
        kernel_size[0] <= i64::MAX,
        kernel_size[1] <= i64::MAX,
        x@.shape.last() + 2 * padding[1] >= kernel_size[1],
        x@.shape.last() + 2 * padding[1] <= usize::MAX,
        x@.shape[x@.shape.len() - 2] + 2 * padding[0] >= kernel_size[0],
        x@.shape[x@.shape.len() - 2] + 2 * padding[0] <= usize::MAX,
        prod(
            x@.shape.update(
                x@.shape.len() - 1,
                pool_out_len(
                    x@.shape.last() as int,
                    kernel_size[1] as int,
                    stride[1] as int,
                    padding[1] as int,
                ) as usize,
            ),
        ) <= usize::MAX,
        grad@.shape == x@.shape.update(
            x@.shape.len() - 2,
            pool_out_len(
                x@.shape[x@.shape.len() - 2] as int,
                kernel_size[0] as int,
                stride[0] as int,
                padding[0] as int,
            ) as usize,
        ).update(
            x@.shape.len() - 1,
            pool_out_len(
                x@.shape.last() as int,
                kernel_size[1] as int,
                stride[1] as int,
                padding[1] as int,
            ) as usize,
        ),
    ensures
        r.wf(),
        r@ == tv_pool_back(
            x@,
            tv_swap_last2(
                tv_pool_back(
                    tv_swap_last2(
                        tv_avg_pool_last(
                            x@,
                            kernel_size[1] as int,
                            stride[1] as int,
                            padding[1] as int,
                        ),
                    ),
                    tv_swap_last2(grad@),
                    kernel_size[0] as int,
                    stride[0] as int,
                    padding[0] as int,
                ),
            ),
            kernel_size[1] as int,
            stride[1] as int,
            padding[1] as int,
        ),
{
    let ghost s = x@.shape;
    let rank = x.shape.len();
    let a = x.avg_pool_last(kernel_size[1], stride[1], padding[1]);
    proof {
        assert(a@ =~= tv_avg_pool_last(x@, kernel_size[1] as int, stride[1] as int, padding[1] as int));
    }
    let b = a.swap_dims(rank - 2, rank - 1);
    proof {
        assert(b@ =~= tv_swap_last2(a@));
        assert(b@.shape.last() == s[s.len() - 2]);
        lemma_prod_swap(a@.shape, rank - 2, rank - 1);
    }
    let gc = grad.swap_dims(rank - 2, rank - 1);
    proof {
        assert(gc@ =~= tv_swap_last2(grad@));
        assert(gc@.shape =~= b@.shape.update(b@.shape.len() - 1, pool_out_len(
            b@.shape.last() as int,
            kernel_size[0] as int,
            stride[0] as int,
            padding[0] as int,
        ) as usize));
    }
    let gb = b.avg_pool_last_backward(&gc, kernel_size[0], stride[0], padding[0]);
    proof {
        assert(gb@ =~= tv_pool_back(b@, gc@, kernel_size[0] as int, stride[0] as int, padding[0] as int));
    }
    let ga = gb.swap_dims(rank - 2, rank - 1);
    proof {
        assert(gb@.shape == b@.shape);
        assert(ga@ =~= tv_swap_last2(gb@));
        assert(ga@.shape =~= a@.shape);
    }
    let r = x.avg_pool_last_backward(&ga, kernel_size[1], stride[1], padding[1]);
    proof {
        assert(r@ =~= tv_pool_back(x@, ga@, kernel_size[1] as int, stride[1] as int, padding[1] as int));
    }
    r
}

/// The window bounds used by the backward pass are exactly the output
/// positions whose windows cover input position `i`.
proof fn lemma_pool_back_window(
    len: int,
    out_len: int,
    kernel: int,
    stride: int,
    padding: int,
    i: int,
    lo: int,
    hi: int,
)
    requires
        kernel >= 1,
        stride >= 1,
        0 <= i,
        lo == if i + padding >= kernel {
            (i + padding - kernel) / stride + 1
        } else {
            0
        },
        hi == if (i + padding) / stride + 1 < out_len {
            (i + padding) / stride + 1
        } else {
            out_len
        },
    ensures
        forall|ol: int| 0 <= ol < lo ==> !(#[trigger] (ol * stride) - padding <= i < ol * stride
            - padding + kernel),
        forall|ol: int| hi <= ol < out_len ==> !(#[trigger] (ol * stride) - padding <= i < ol
            * stride - padding + kernel),
{
    assert forall|ol: int| 0 <= ol < lo implies !(#[trigger] (ol * stride) - padding <= i < ol
        * stride - padding + kernel) by {
        // ol <= (i + padding - kernel) / stride means the window ends at or
        // before i
        if i + padding >= kernel {
            let b = i + padding - kernel;
            vstd::arithmetic::div_mod::lemma_fundamental_div_mod(b, stride);
            assert(ol <= b / stride);
            assert(ol * stride <= (b / stride) * stride) by (nonlinear_arith)
                requires
                    ol <= b / stride,
                    stride >= 1,
            ;
            assert((b / stride) * stride <= b) by (nonlinear_arith)
                requires
                    b == stride * (b / stride) + b % stride,
                    b % stride >= 0,
            ;
        }
    }
    assert forall|ol: int| hi <= ol < out_len implies !(#[trigger] (ol * stride) - padding <= i
        < ol * stride - padding + kernel) by {
        if ol * stride - padding <= i {
            let c = i + padding;
            vstd::arithmetic::div_mod::lemma_fundamental_div_mod(c, stride);
            assert(ol * stride <= c);
            assert(ol <= c / stride) by (nonlinear_arith)
                requires
                    ol * stride <= c,
                    stride >= 1,
                    c == stride * (c / stride) + c % stride,
                    0 <= c % stride < stride,
            ;
            assert(ol < c / stride + 1);
            assert(hi >= c / stride + 1 || hi == out_len);
        }
    }
}

} // verus!
