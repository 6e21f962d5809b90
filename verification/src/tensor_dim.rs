//! Tensor operations indexed by one dimension: reductions along an axis,
//! gathers and scatter-adds, and argument reductions.
//!
//! A flat position `q` of a tensor whose shape splits at dimension `d` into
//! `outer * dim * inner` decomposes as `q = a * (dim * inner) + j * inner + b`
//! with `j` the coordinate along `d`.

use vstd::prelude::*;

use crate::fixed::{add_fx, fx_add, fx_div_int};
use crate::shape::{
    lemma_index2, lemma_index3_bound, lemma_index3_inverse, lemma_prod_all_pos, lemma_prod_head,
    lemma_prod_split, lemma_prod_zero_dim, num_elems, prod,
};
use crate::tensor::{copy_i64s, copy_shape, IntTensor, Tensor};

verus! {

/// Flat position of the coordinate triple `(a, j, b)`.
pub open spec fn idx3(a: int, j: int, b: int, dim: int, inner: int) -> int {
    a * (dim * inner) + j * inner + b
}

/// Outer coordinate of a flat position.
pub open spec fn at3_a(q: int, dim: int, inner: int) -> int {
    q / (dim * inner)
}

/// Coordinate along the distinguished dimension.
pub open spec fn at3_j(q: int, dim: int, inner: int) -> int {
    (q / inner) % dim
}

/// Inner coordinate of a flat position.
pub open spec fn at3_b(q: int, inner: int) -> int {
    q % inner
}

/// Saturating sum of the first `n` elements of the slice through `(a, _, b)`
/// along the distinguished dimension.
pub open spec fn slice_sum(data: Seq<i64>, dim: int, inner: int, a: int, b: int, n: int) -> i64
    decreases n,
{
    if n <= 0 {
        0
    } else {
        fx_add(slice_sum(data, dim, inner, a, b, n - 1), data[idx3(a, n - 1, b, dim, inner)])
    }
}

/// Check whether a shape has a zero dimension (an empty tensor).
pub fn has_zero_dim(shape: &Vec<usize>) -> (r: bool)
    ensures
        r == exists|i: int| 0 <= i < shape@.len() && shape@[i] == 0,
        r ==> prod(shape@) == 0,
        !r ==> forall|i: int| 0 <= i < shape@.len() ==> shape@[i] >= 1,
        !r ==> prod(shape@) >= 1,
{
    let mut k: usize = 0;
    while k < shape.len()
        invariant
            0 <= k <= shape@.len(),
            forall|i: int| 0 <= i < k ==> shape@[i] >= 1,
        decreases shape@.len() - k,
    {
        if shape[k] == 0 {
            proof {
                lemma_prod_zero_dim(shape@, k as int);
            }
            return true;
        }
        k += 1;
    }
    proof {
        lemma_prod_all_pos(shape@);
    }
    false
}

/// The three extents a shape splits into at dimension `d`.
pub fn dim_factors(shape: &Vec<usize>, d: usize) -> (f: (usize, usize, usize))
    requires
        prod(shape@) <= usize::MAX,
        d < shape@.len(),
        forall|i: int| 0 <= i < shape@.len() ==> shape@[i] >= 1,
    ensures
        f.0 == prod(shape@.take(d as int)),
        f.1 == shape@[d as int],
        f.2 == prod(shape@.skip(d as int + 1)),
        f.0 * ((f.1 as int) * f.2) == prod(shape@),
        f.0 >= 1,
        f.1 >= 1,
        f.2 >= 1,
        (f.1 as int) * f.2 <= prod(shape@),
{
    let ghost s = shape@;
    let rank = shape.len();
    let mut head: Vec<usize> = Vec::new();
    let mut i: usize = 0;
    while i < d
        invariant
            0 <= i <= d,
            d < s.len(),
            shape@ == s,
            head@ == s.take(i as int),
        decreases d - i,
    {
        head.push(shape[i]);
        proof {
            assert(head@ =~= s.take(i as int + 1));
        }
        i += 1;
    }
    let mut tail: Vec<usize> = Vec::new();
    let mut k: usize = d + 1;
    while k < rank
        invariant
            d + 1 <= k <= s.len(),
            rank == s.len(),
            shape@ == s,
            tail@ == s.subrange(d as int + 1, k as int),
        decreases s.len() - k,
    {
        tail.push(shape[k]);
        proof {
            assert(tail@ =~= s.subrange(d as int + 1, k as int + 1));
        }
        k += 1;
    }
    proof {
        assert(tail@ =~= s.skip(d as int + 1));
        lemma_prod_split(s, d as int);
        lemma_prod_head(s.skip(d as int));
        assert(s.skip(d as int)[0] == s[d as int]);
        assert(s.skip(d as int).skip(1) =~= s.skip(d as int + 1));
        lemma_prod_all_pos(s.take(d as int));
        lemma_prod_all_pos(s.skip(d as int + 1));
        let o = prod(s.take(d as int));
        let m = s[d as int] as int;
        let inr = prod(s.skip(d as int + 1));
        assert(o * (m * inr) == prod(s) && o <= prod(s) && m * inr <= prod(s) && inr <= prod(s))
            by (nonlinear_arith)
            requires
                o >= 1,
                m >= 1,
                inr >= 1,
                prod(s) == o * (m * inr),
        ;
    }
    let outer = num_elems(&head);
    let inner = num_elems(&tail);
    (outer, shape[d], inner)
}

impl Tensor {
    /// Sum along one dimension; the result keeps the rank, with extent 1 at
    /// that dimension.
    pub fn sum_dim(&self, d: usize) -> (r: Tensor)
        requires
            self.wf(),
            d < self@.shape.len(),
            prod(self@.shape.update(d as int, 1usize)) <= usize::MAX,
        ensures
            r.wf(),
            r@.shape == self@.shape.update(d as int, 1usize),
            forall|p: int| 0 <= p < r@.data.len() ==> r@.data[p] == slice_sum(
                self@.data,
                self@.shape[d as int] as int,
                prod(self@.shape.skip(d as int + 1)),
                p / prod(self@.shape.skip(d as int + 1)),
                p % prod(self@.shape.skip(d as int + 1)),
                self@.shape[d as int] as int,
            ),
    {
        let ghost s = self@.shape;
        let mut new_shape = copy_shape(&self.shape);
        new_shape.set(d, 1);
        proof {
            assert(new_shape@ =~= s.update(d as int, 1usize));
        }
        if has_zero_dim(&self.shape) {
            // Either the result is empty, or the summed dimension is empty
            // and every slice sum is zero.
            let r = Tensor::zeros(new_shape);
            proof {
                let inr = prod(s.skip(d as int + 1));
                let dim = s[d as int] as int;
                if r@.data.len() > 0 {
                    lemma_prod_all_pos_converse(s.update(d as int, 1usize));
                    let zi = choose|i: int| 0 <= i < s.len() && s[i] == 0;
                    if zi != d {
                        assert(s.update(d as int, 1usize)[zi] == s[zi]);
                    }
                    assert(zi == d);
                    assert forall|p: int| 0 <= p < r@.data.len() implies r@.data[p] == slice_sum(
                        self@.data,
                        dim,
                        inr,
                        p / inr,
                        p % inr,
                        dim,
                    ) by {
                        assert(dim == 0);
                    }
                }
            }
            return r;
        }
        let total = self.data.len();
        proof {
            assert(prod(s) <= usize::MAX);
        }
        let (outer, dim, inner) = dim_factors(&self.shape, d);
        let ghost dimi = dim as int;
        let ghost inr = inner as int;
        proof {
            lemma_prod_split(s.update(d as int, 1usize), d as int);
            lemma_prod_head(s.update(d as int, 1usize).skip(d as int));
            assert(s.update(d as int, 1usize).take(d as int) =~= s.take(d as int));
            assert(s.update(d as int, 1usize).skip(d as int).skip(1) =~= s.skip(d as int + 1));
            assert(s.update(d as int, 1usize).skip(d as int)[0] == 1);
            assert(prod(s.update(d as int, 1usize)) == outer * (1 * inr));
            assert(outer * (1 * inr) == outer * inr) by (nonlinear_arith);
        }
        let mut data: Vec<i64> = Vec::new();
        let mut a: usize = 0;
        while a < outer
            invariant
                0 <= a <= outer,
                self.wf(),
                s == self@.shape,
                d < s.len(),
                dimi == s[d as int],
                inr == prod(s.skip(d as int + 1)),
                outer * ((dim as int) * (inner as int)) == prod(s),
                (dim as int) * (inner as int) <= prod(s),
                prod(s) <= usize::MAX,
                dimi == dim,
                inr == inner,
                outer >= 1,
                dim >= 1,
                inner >= 1,
                data@.len() == a * inr,
                forall|p: int| 0 <= p < data@.len() ==> data@[p] == slice_sum(
                    self@.data,
                    dimi,
                    inr,
                    p / inr,
                    p % inr,
                    dimi,
                ),
            decreases outer - a,
        {
            let mut b: usize = 0;
            while b < inner
                invariant
                    0 <= b <= inner,
                    0 <= a < outer,
                    self.wf(),
                    s == self@.shape,
                    d < s.len(),
                    dimi == s[d as int],
                    inr == prod(s.skip(d as int + 1)),
                    outer * ((dim as int) * (inner as int)) == prod(s),
                    (dim as int) * (inner as int) <= prod(s),
                    prod(s) <= usize::MAX,
                    dimi == dim,
                    inr == inner,
                    dim >= 1,
                    inner >= 1,
                    data@.len() == a * inr + b,
                    forall|p: int| 0 <= p < data@.len() ==> data@[p] == slice_sum(
                        self@.data,
                        dimi,
                        inr,
                        p / inr,
                        p % inr,
                        dimi,
                    ),
                decreases inner - b,
            {
                let mut acc: i64 = 0;
                let mut j: usize = 0;
                proof {
                    lemma_index3_bound(a as int, 0, b as int, outer as int, 1, inr);
                }
                while j < dim
                    invariant
                        0 <= j <= dim,
                        0 <= a < outer,
                        0 <= b < inner,
                        self.wf(),
                        s == self@.shape,
                        d < s.len(),
                        dimi == s[d as int],
                        inr == prod(s.skip(d as int + 1)),
                        outer * ((dim as int) * (inner as int)) == prod(s),
                        (dim as int) * (inner as int) <= prod(s),
                        prod(s) <= usize::MAX,
                        dimi == dim,
                        inr == inner,
                        acc == slice_sum(self@.data, dimi, inr, a as int, b as int, j as int),
                    decreases dim - j,
                {
                    proof {
                        lemma_index3_bound(
                            a as int,
                            j as int,
                            b as int,
                            outer as int,
                            dimi,
                            inr,
                        );
                    }
                    let q = a * (dim * inner) + j * inner + b;
                    acc = add_fx(acc, self.data[q]);
                    j += 1;
                }
                proof {
                    lemma_index2(a as int, b as int, inr);
                    lemma_index3_bound(a as int, 0, b as int, outer as int, 1, inr);
                    assert(a * (1 * inr) + 0 * inr + b == a * inr + b) by (nonlinear_arith);
                }
                data.push(acc);
                b += 1;
            }
            proof {
                assert((a + 1) * inr == a * inr + inr) by (nonlinear_arith);
            }
            a += 1;
        }
        let r = Tensor { shape: new_shape, data };
        proof {
            assert(outer * (1 * inr) == outer * inr) by (nonlinear_arith);
        }
        r
    }

    /// Mean along one dimension.
    pub fn mean_dim(&self, d: usize) -> (r: Tensor)
        requires
            self.wf(),
            d < self@.shape.len(),
            prod(self@.shape.update(d as int, 1usize)) <= usize::MAX,
            self@.shape[d as int] <= i64::MAX,
        ensures
            r.wf(),
            r@.shape == self@.shape.update(d as int, 1usize),
            forall|p: int| 0 <= p < r@.data.len() ==> r@.data[p] == fx_div_int(
                slice_sum(
                    self@.data,
                    self@.shape[d as int] as int,
                    prod(self@.shape.skip(d as int + 1)),
                    p / prod(self@.shape.skip(d as int + 1)),
                    p % prod(self@.shape.skip(d as int + 1)),
                    self@.shape[d as int] as int,
                ),
                self@.shape[d as int] as i64,
            ),
    {
        let summed = self.sum_dim(d);
        let r = summed.div_int_scalar(self.shape[d] as i64);
        r
    }

    /// Broadcast along one dimension whose extent is 1 (the adjoint of
    /// `sum_dim`): every slice along `d` of the result repeats the input.
    pub fn expand_dim(&self, d: usize, new_dim: usize) -> (r: Tensor)
        requires
            self.wf(),
            d < self@.shape.len(),
            self@.shape[d as int] == 1,
            prod(self@.shape.update(d as int, new_dim)) <= usize::MAX,
        ensures
            r.wf(),
            r@.shape == self@.shape.update(d as int, new_dim),
            forall|q: int| 0 <= q < r@.data.len() ==> r@.data[q] == self@.data[at3_a(
                q,
                new_dim as int,
                prod(self@.shape.skip(d as int + 1)),
            ) * prod(self@.shape.skip(d as int + 1)) + at3_b(
                q,
                prod(self@.shape.skip(d as int + 1)),
            )],
    {
        let ghost s = self@.shape;
        let mut new_shape = copy_shape(&self.shape);
        new_shape.set(d, new_dim);
        proof {
            assert(new_shape@ =~= s.update(d as int, new_dim));
        }
        if has_zero_dim(&new_shape) {
            let r = Tensor::zeros(new_shape);
            proof {
                lemma_prod_zero_from_update(s.update(d as int, new_dim));
            }
            return r;
        }
        // every dimension of the result is at least 1, so the input, whose
        // extent at d is exactly 1, is nonempty as well
        proof {
            assert forall|i: int| 0 <= i < s.len() implies s[i] >= 1 by {
                if i != d {
                    assert(s.update(d as int, new_dim)[i] == s[i]);
                }
            }
            lemma_prod_all_pos(s);
        }
        let total = self.data.len();
        proof {
            assert(prod(s) <= usize::MAX);
        }
        let (outer, dimn, inner) = dim_factors(&new_shape, d);
        let ghost inr = inner as int;
        proof {
            assert(new_shape@.take(d as int) =~= s.take(d as int));
            assert(new_shape@.skip(d as int + 1) =~= s.skip(d as int + 1));
            lemma_prod_split(s, d as int);
            lemma_prod_head(s.skip(d as int));
            assert(s.skip(d as int)[0] == 1);
            assert(s.skip(d as int).skip(1) =~= s.skip(d as int + 1));
            assert(prod(s) == outer * (1 * inr));
            assert(outer * (1 * inr) == outer * inr) by (nonlinear_arith);
        }
        let mut data: Vec<i64> = Vec::new();
        let mut a: usize = 0;
        while a < outer
            invariant
                0 <= a <= outer,
                self.wf(),
                s == self@.shape,
                d < s.len(),
                inr == prod(s.skip(d as int + 1)),
                prod(s) == outer * inr,
                prod(s) <= usize::MAX,
                dimn == new_dim,
                outer * ((dimn as int) * inr) == prod(s.update(d as int, new_dim)),
                (dimn as int) * inr <= prod(s.update(d as int, new_dim)),
                prod(s.update(d as int, new_dim)) <= usize::MAX,
                inr == inner,
                outer >= 1,
                dimn >= 1,
                inner >= 1,
                data@.len() == a * ((dimn as int) * inr),
                forall|q: int| 0 <= q < data@.len() ==> data@[q] == self@.data[at3_a(
                    q,
                    dimn as int,
                    inr,
                ) * inr + at3_b(q, inr)],
            decreases outer - a,
        {
            let mut j: usize = 0;
            while j < dimn
                invariant
                    0 <= j <= dimn,
                    0 <= a < outer,
                    self.wf(),
                    s == self@.shape,
                    d < s.len(),
                    inr == prod(s.skip(d as int + 1)),
                    prod(s) == outer * inr,
                    prod(s) <= usize::MAX,
                    dimn == new_dim,
                    outer * ((dimn as int) * inr) == prod(s.update(d as int, new_dim)),
                    (dimn as int) * inr <= prod(s.update(d as int, new_dim)),
                    prod(s.update(d as int, new_dim)) <= usize::MAX,
                    inr == inner,
                    dimn >= 1,
                    inner >= 1,
                    data@.len() == a * ((dimn as int) * inr) + j * inr,
                    forall|q: int| 0 <= q < data@.len() ==> data@[q] == self@.data[at3_a(
                        q,
                        dimn as int,
                        inr,
                    ) * inr + at3_b(q, inr)],
                decreases dimn - j,
            {
                let mut b: usize = 0;
                while b < inner
                    invariant
                        0 <= b <= inner,
                        0 <= j < dimn,
                        0 <= a < outer,
                        self.wf(),
                        s == self@.shape,
                        d < s.len(),
                        inr == prod(s.skip(d as int + 1)),
                        prod(s) == outer * inr,
                        prod(s) <= usize::MAX,
                        dimn == new_dim,
                        outer * ((dimn as int) * inr) == prod(s.update(d as int, new_dim)),
                        (dimn as int) * inr <= prod(s.update(d as int, new_dim)),
                        prod(s.update(d as int, new_dim)) <= usize::MAX,
                        inr == inner,
                        inner >= 1,
                        data@.len() == a * ((dimn as int) * inr) + j * inr + b,
                        forall|q: int| 0 <= q < data@.len() ==> data@[q] == self@.data[at3_a(
                            q,
                            dimn as int,
                            inr,
                        ) * inr + at3_b(q, inr)],
                    decreases inner - b,
                {
                    proof {
                        lemma_index3_bound(
                            a as int,
                            j as int,
                            b as int,
                            outer as int,
                            dimn as int,
                            inr,
                        );
                        lemma_index3_inverse(a as int, j as int, b as int, dimn as int, inr);
                        lemma_index3_bound(a as int, 0, b as int, outer as int, 1, inr);
                        assert(a * (1 * inr) + 0 * inr + b == a * inr + b && a * (1 * inr) == a
                            * inr) by (nonlinear_arith);
                    }
                    let src = a * inner + b;
                    data.push(self.data[src]);
                    b += 1;
                }
                proof {
                    assert((j + 1) * inr == j * inr + inr) by (nonlinear_arith);
                }
                j += 1;
            }
            proof {
                assert((a + 1) * ((dimn as int) * inr) == a * ((dimn as int) * inr) + (dimn as int)
                    * inr) by (nonlinear_arith);
            }
            a += 1;
        }
        let r = Tensor { shape: new_shape, data };
        r
    }
}

/// Value at `q` after the first `n` scatter-add updates: update `k` adds
/// `vals[k]` at flat position `idx[k]`.
pub open spec fn scatter_at(base: Seq<i64>, idx: Seq<i64>, vals: Seq<i64>, q: int, n: int) -> i64
    decreases n,
{
    if n <= 0 {
        base[q]
    } else {
        let prev = scatter_at(base, idx, vals, q, n - 1);
        if idx[n - 1] == q {
            fx_add(prev, vals[n - 1])
        } else {
            prev
        }
    }
}

/// Value at `q` after the first `n` dimension scatter-add updates: update
/// `k` adds slice `k` of `vdata` into the slice of the base at coordinate
/// `idx[k]` along the distinguished dimension.
pub open spec fn scatter_dim_at(
    base: Seq<i64>,
    vdata: Seq<i64>,
    idx: Seq<i64>,
    dim: int,
    vdim: int,
    inner: int,
    q: int,
    n: int,
) -> i64
    decreases n,
{
    if n <= 0 {
        base[q]
    } else {
        let prev = scatter_dim_at(base, vdata, idx, dim, vdim, inner, q, n - 1);
        if idx[n - 1] == at3_j(q, dim, inner) {
            fx_add(
                prev,
                vdata[idx3(at3_a(q, dim, inner), n - 1, at3_b(q, inner), vdim, inner)],
            )
        } else {
            prev
        }
    }
}

/// First index attaining the extremum of the first `n` elements of a slice.
pub open spec fn arg_best(
    data: Seq<i64>,
    dim: int,
    inner: int,
    a: int,
    b: int,
    n: int,
    is_max: bool,
) -> int
    decreases n,
{
    if n <= 1 {
        0
    } else {
        let prev = arg_best(data, dim, inner, a, b, n - 1, is_max);
        let cur = data[idx3(a, n - 1, b, dim, inner)];
        let best = data[idx3(a, prev, b, dim, inner)];
        if (is_max && cur > best) || (!is_max && cur < best) {
            n - 1
        } else {
            prev
        }
    }
}

impl Tensor {
    /// Flat gather: element `p` of the result is the element of `self` at
    /// flat position `idx[p]`.
    pub fn index_select(&self, idx: &IntTensor) -> (r: Tensor)
        requires
            self.wf(),
            idx.wf(),
            forall|p: int| 0 <= p < idx@.data.len() ==> 0 <= #[trigger] idx@.data[p] < self@.data.len(),
        ensures
            r.wf(),
            r@.shape == idx@.shape,
            r@.data.len() == idx@.data.len(),
            forall|p: int| 0 <= p < r@.data.len() ==> r@.data[p] == self@.data[idx@.data[p] as int],
    {
        let n_self = self.data.len();
        let mut data: Vec<i64> = Vec::new();
        let mut i: usize = 0;
        while i < idx.data.len()
            invariant
                0 <= i <= idx@.data.len(),
                self.wf(),
                self@.data.len() <= usize::MAX,
                forall|p: int| 0 <= p < idx@.data.len() ==> 0 <= #[trigger] idx@.data[p] < self@.data.len(),
                data@.len() == i,
                forall|p: int| 0 <= p < i ==> data@[p] == self@.data[idx@.data[p] as int],
            decreases idx@.data.len() - i,
        {
            let j = idx.data[i] as usize;
            proof {
                assert(0 <= idx@.data[i as int] < self@.data.len());
                assert(j == idx@.data[i as int]);
            }
            data.push(self.data[j]);
            proof {
                assert(data@[i as int] == self@.data[idx@.data[i as int] as int]);
            }
            i += 1;
        }
        Tensor { shape: copy_shape(&idx.shape), data }
    }

    /// Flat scatter-add: add each element of `value` into the position of
    /// `self` named by the matching element of `idx`; repeated indices
    /// accumulate.
    pub fn index_select_assign(&self, idx: &IntTensor, value: &Tensor) -> (r: Tensor)
        requires
            self.wf(),
            idx.wf(),
            value.wf(),
            value@.data.len() == idx@.data.len(),
            forall|p: int| 0 <= p < idx@.data.len() ==> 0 <= #[trigger] idx@.data[p] < self@.data.len(),
        ensures
            r.wf(),
            r@.shape == self@.shape,
            r@.data.len() == self@.data.len(),
            forall|q: int| 0 <= q < r@.data.len() ==> r@.data[q] == scatter_at(
                self@.data,
                idx@.data,
                value@.data,
                q,
                idx@.data.len() as int,
            ),
    {
        let ghost base = self@.data;
        let n_self = self.data.len();
        let mut data = copy_i64s(&self.data);
        let mut i: usize = 0;
        while i < idx.data.len()
            invariant
                0 <= i <= idx@.data.len(),
                self.wf(),
                base == self@.data,
                value@.data.len() == idx@.data.len(),
                base.len() <= usize::MAX,
                forall|p: int| 0 <= p < idx@.data.len() ==> 0 <= #[trigger] idx@.data[p] < base.len(),
                data@.len() == base.len(),
                forall|q: int| 0 <= q < data@.len() ==> data@[q] == scatter_at(
                    base,
                    idx@.data,
                    value@.data,
                    q,
                    i as int,
                ),
            decreases idx@.data.len() - i,
        {
            let ghost before = data@;
            let j = idx.data[i] as usize;
            proof {
                assert(0 <= idx@.data[i as int] < base.len());
                assert(j == idx@.data[i as int]);
            }
            let updated = add_fx(data[j], value.data[i]);
            data.set(j, updated);
            proof {
                assert forall|q: int| 0 <= q < data@.len() implies data@[q] == scatter_at(
                    base,
                    idx@.data,
                    value@.data,
                    q,
                    i as int + 1,
                ) by {
                    assert(scatter_at(base, idx@.data, value@.data, q, i as int + 1) == (if idx@.data[
                        i as int] == q {
                        fx_add(scatter_at(base, idx@.data, value@.data, q, i as int), value@.data[i as int])
                    } else {
                        scatter_at(base, idx@.data, value@.data, q, i as int)
                    }));
                    if q == j {
                        assert(data@[q] == fx_add(before[q], value@.data[i as int]));
                    } else {
                        assert(data@[q] == before[q]);
                    }
                }
            }
            i += 1;
        }
        Tensor { shape: copy_shape(&self.shape), data }
    }

    /// Gather along one dimension: slice `j` of the result along `d` is
    /// slice `idx[j]` of `self` along `d`.
    pub fn index_select_dim(&self, d: usize, idx: &IntTensor) -> (r: Tensor)
        requires
            self.wf(),
            d < self@.shape.len(),
            idx.wf(),
            idx@.shape.len() == 1,
            forall|p: int| 0 <= p < idx@.data.len() ==> 0 <= #[trigger] idx@.data[p] < self@.shape[d as int],
            prod(self@.shape.update(d as int, idx@.data.len() as usize)) <= usize::MAX,
        ensures
            r.wf(),
            r@.shape == self@.shape.update(d as int, idx@.data.len() as usize),
            forall|q: int| 0 <= q < r@.data.len() ==> r@.data[q] == self@.data[idx3(
                at3_a(q, idx@.data.len() as int, prod(self@.shape.skip(d as int + 1))),
                idx@.data[at3_j(
                    q,
                    idx@.data.len() as int,
                    prod(self@.shape.skip(d as int + 1)),
                )] as int,
                at3_b(q, prod(self@.shape.skip(d as int + 1))),
                self@.shape[d as int] as int,
                prod(self@.shape.skip(d as int + 1)),
            )],
    {
        let ghost s = self@.shape;
        let nsel = idx.data.len();
        let mut new_shape = copy_shape(&self.shape);
        new_shape.set(d, nsel);
        proof {
            assert(new_shape@ =~= s.update(d as int, nsel as usize));
            assert(idx@.data.len() == prod(idx@.shape));
        }
        if has_zero_dim(&new_shape) {
            let r = Tensor::zeros(new_shape);
            proof {
                lemma_prod_zero_from_update(s.update(d as int, nsel as usize));
            }
            return r;
        }
        // the selection is nonempty, so the selected dimension is nonempty
        proof {
            assert(nsel >= 1) by {
                if s.update(d as int, nsel as usize)[d as int] == 0 {
                }
            }
            assert(0 <= idx@.data[0] < s[d as int]);
            assert forall|i: int| 0 <= i < s.len() implies s[i] >= 1 by {
                if i != d {
                    assert(s.update(d as int, nsel as usize)[i] == s[i]);
                }
            }
            lemma_prod_all_pos(s);
        }
        let total = self.data.len();
        proof {
            assert(prod(s) <= usize::MAX);
        }
        let (outer, dim, inner) = dim_factors(&self.shape, d);
        let ghost dimi = dim as int;
        let ghost inr = inner as int;
        proof {
            let u = s.update(d as int, nsel as usize);
            lemma_prod_split(u, d as int);
            lemma_prod_head(u.skip(d as int));
            assert(u.take(d as int) =~= s.take(d as int));
            assert(u.skip(d as int).skip(1) =~= s.skip(d as int + 1));
            assert(u.skip(d as int)[0] == nsel);
            assert(prod(u) == outer * ((nsel as int) * inr));
        }
        let mut data: Vec<i64> = Vec::new();
        let mut a: usize = 0;
        while a < outer
            invariant
                0 <= a <= outer,
                self.wf(),
                s == self@.shape,
                d < s.len(),
                dimi == s[d as int],
                inr == prod(s.skip(d as int + 1)),
                outer * ((dim as int) * (inner as int)) == prod(s),
                (dim as int) * (inner as int) <= prod(s),
                prod(s) <= usize::MAX,
                dimi == dim,
                inr == inner,
                dim >= 1,
                inner >= 1,
                nsel == idx@.data.len(),
                forall|p: int| 0 <= p < idx@.data.len() ==> 0 <= #[trigger] idx@.data[p] < dimi,
                outer * ((nsel as int) * inr) == prod(s.update(d as int, nsel as usize)),
                prod(s.update(d as int, nsel as usize)) <= usize::MAX,
                data@.len() == a * ((nsel as int) * inr),
                forall|q: int| 0 <= q < data@.len() ==> data@[q] == self@.data[idx3(
                    at3_a(q, nsel as int, inr),
                    idx@.data[at3_j(q, nsel as int, inr)] as int,
                    at3_b(q, inr),
                    dimi,
                    inr,
                )],
            decreases outer - a,
        {
            let mut j: usize = 0;
            while j < nsel
                invariant
                    0 <= j <= nsel,
                    0 <= a < outer,
                    self.wf(),
                    s == self@.shape,
                    d < s.len(),
                    dimi == s[d as int],
                    inr == prod(s.skip(d as int + 1)),
                    outer * ((dim as int) * (inner as int)) == prod(s),
                    (dim as int) * (inner as int) <= prod(s),
                    prod(s) <= usize::MAX,
                    dimi == dim,
                    inr == inner,
                    dim >= 1,
                    inner >= 1,
                    nsel == idx@.data.len(),
                    forall|p: int| 0 <= p < idx@.data.len() ==> 0 <= #[trigger] idx@.data[p] < dimi,
                    outer * ((nsel as int) * inr) == prod(s.update(d as int, nsel as usize)),
                    prod(s.update(d as int, nsel as usize)) <= usize::MAX,
                    data@.len() == a * ((nsel as int) * inr) + j * inr,
                    forall|q: int| 0 <= q < data@.len() ==> data@[q] == self@.data[idx3(
                        at3_a(q, nsel as int, inr),
                        idx@.data[at3_j(q, nsel as int, inr)] as int,
                        at3_b(q, inr),
                        dimi,
                        inr,
                    )],
                decreases nsel - j,
            {
                let src_j = idx.data[j] as usize;
                let mut b: usize = 0;
                while b < inner
                    invariant
                        0 <= b <= inner,
                        0 <= j < nsel,
                        0 <= a < outer,
                        self.wf(),
                        s == self@.shape,
                        d < s.len(),
                        dimi == s[d as int],
                        inr == prod(s.skip(d as int + 1)),
                        outer * ((dim as int) * (inner as int)) == prod(s),
                        (dim as int) * (inner as int) <= prod(s),
                        prod(s) <= usize::MAX,
                        dimi == dim,
                        inr == inner,
                        dim >= 1,
                        inner >= 1,
                        nsel == idx@.data.len(),
                        forall|p: int| 0 <= p < idx@.data.len() ==> 0 <= #[trigger] idx@.data[p] < dimi,
                        src_j == idx@.data[j as int],
                        outer * ((nsel as int) * inr) == prod(s.update(d as int, nsel as usize)),
                        prod(s.update(d as int, nsel as usize)) <= usize::MAX,
                        data@.len() == a * ((nsel as int) * inr) + j * inr + b,
                        forall|q: int| 0 <= q < data@.len() ==> data@[q] == self@.data[idx3(
                            at3_a(q, nsel as int, inr),
                            idx@.data[at3_j(q, nsel as int, inr)] as int,
                            at3_b(q, inr),
                            dimi,
                            inr,
                        )],
                    decreases inner - b,
                {
                    proof {
                        lemma_index3_bound(
                            a as int,
                            j as int,
                            b as int,
                            outer as int,
                            nsel as int,
                            inr,
                        );
                        lemma_index3_inverse(a as int, j as int, b as int, nsel as int, inr);
                        lemma_index3_bound(
                            a as int,
                            src_j as int,
                            b as int,
                            outer as int,
                            dimi,
                            inr,
                        );
                    }
                    let src = a * (dim * inner) + src_j * inner + b;
                    data.push(self.data[src]);
                    b += 1;
                }
                proof {
                    assert((j + 1) * inr == j * inr + inr) by (nonlinear_arith);
                }
                j += 1;
            }
            proof {
                assert((a + 1) * ((nsel as int) * inr) == a * ((nsel as int) * inr) + (nsel as int)
                    * inr) by (nonlinear_arith);
            }
            a += 1;
        }
        let r = Tensor { shape: new_shape, data };
        r
    }

    /// Scatter-add along one dimension: slice `j` of `value` along `d` is
    /// added into slice `idx[j]` of `self` along `d`; repeated indices
    /// accumulate.
    pub fn index_select_dim_assign(&self, d: usize, idx: &IntTensor, value: &Tensor) -> (r:
        Tensor)
        requires
            self.wf(),
            d < self@.shape.len(),
            idx.wf(),
            idx@.shape.len() == 1,
            value.wf(),
            value@.shape == self@.shape.update(d as int, idx@.data.len() as usize),
            forall|p: int| 0 <= p < idx@.data.len() ==> 0 <= #[trigger] idx@.data[p] < self@.shape[d as int],
        ensures
            r.wf(),
            r@.shape == self@.shape,
            r@.data.len() == self@.data.len(),
            forall|q: int| 0 <= q < r@.data.len() ==> r@.data[q] == scatter_dim_at(
                self@.data,
                value@.data,
                idx@.data,
                self@.shape[d as int] as int,
                idx@.data.len() as int,
                prod(self@.shape.skip(d as int + 1)),
                q,
                idx@.data.len() as int,
            ),
    {
        let ghost s = self@.shape;
        let nsel = idx.data.len();
        if has_zero_dim(&self.shape) {
            let r = self.dup();
            return r;
        }
        let total = self.data.len();
        let vtotal = value.data.len();
        proof {
            assert(prod(s) <= usize::MAX);
        }
        let (outer, dim, inner) = dim_factors(&self.shape, d);
        let ghost dimi = dim as int;
        let ghost inr = inner as int;
        proof {
            let u = s.update(d as int, nsel as usize);
            lemma_prod_split(u, d as int);
            lemma_prod_head(u.skip(d as int));
            assert(u.take(d as int) =~= s.take(d as int));
            assert(u.skip(d as int).skip(1) =~= s.skip(d as int + 1));
            assert(u.skip(d as int)[0] == nsel);
            assert(prod(u) == outer * ((nsel as int) * inr));
        }
        let mut data: Vec<i64> = Vec::new();
        let mut a: usize = 0;
        while a < outer
            invariant
                0 <= a <= outer,
                self.wf(),
                value.wf(),
                idx.wf(),
                value@.data.len() <= usize::MAX,
                s == self@.shape,
                d < s.len(),
                dimi == s[d as int],
                inr == prod(s.skip(d as int + 1)),
                outer * ((dim as int) * (inner as int)) == prod(s),
                (dim as int) * (inner as int) <= prod(s),
                prod(s) <= usize::MAX,
                dimi == dim,
                inr == inner,
                dim >= 1,
                inner >= 1,
                nsel == idx@.data.len(),
                forall|p: int| 0 <= p < idx@.data.len() ==> 0 <= #[trigger] idx@.data[p] < dimi,
                value@.data.len() == outer * ((nsel as int) * inr),
                data@.len() == a * ((dim as int) * inr),
                forall|q: int| 0 <= q < data@.len() ==> data@[q] == scatter_dim_at(
                    self@.data,
                    value@.data,
                    idx@.data,
                    dimi,
                    nsel as int,
                    inr,
                    q,
                    nsel as int,
                ),
            decreases outer - a,
        {
            let mut c: usize = 0;
            while c < dim
                invariant
                    0 <= c <= dim,
                    0 <= a < outer,
                    self.wf(),
                    value.wf(),
                    idx.wf(),
                    s == self@.shape,
                    d < s.len(),
                    dimi == s[d as int],
                    inr == prod(s.skip(d as int + 1)),
                    outer * ((dim as int) * (inner as int)) == prod(s),
                    (dim as int) * (inner as int) <= prod(s),
                    prod(s) <= usize::MAX,
                    dimi == dim,
                    inr == inner,
                    dim >= 1,
                    inner >= 1,
                    nsel == idx@.data.len(),
                    forall|p: int| 0 <= p < idx@.data.len() ==> 0 <= #[trigger] idx@.data[p] < dimi,
                    value@.data.len() == outer * ((nsel as int) * inr),
                    value@.data.len() <= usize::MAX,
                    data@.len() == a * ((dim as int) * inr) + c * inr,
                    forall|q: int| 0 <= q < data@.len() ==> data@[q] == scatter_dim_at(
                        self@.data,
                        value@.data,
                        idx@.data,
                        dimi,
                        nsel as int,
                        inr,
                        q,
                        nsel as int,
                    ),
                decreases dim - c,
            {
                let mut b: usize = 0;
                while b < inner
                    invariant
                        0 <= b <= inner,
                        0 <= c < dim,
                        0 <= a < outer,
                        self.wf(),
                        value.wf(),
                        idx.wf(),
                        s == self@.shape,
                        d < s.len(),
                        dimi == s[d as int],
                        inr == prod(s.skip(d as int + 1)),
                        outer * ((dim as int) * (inner as int)) == prod(s),
                        (dim as int) * (inner as int) <= prod(s),
                        prod(s) <= usize::MAX,
                        dimi == dim,
                        inr == inner,
                        dim >= 1,
                        inner >= 1,
                        nsel == idx@.data.len(),
                        forall|p: int| 0 <= p < idx@.data.len() ==> 0 <= #[trigger] idx@.data[p] < dimi,
                        value@.data.len() == outer * ((nsel as int) * inr),
                        value@.data.len() <= usize::MAX,
                    value@.data.len() <= usize::MAX,
                        data@.len() == a * ((dim as int) * inr) + c * inr + b,
                        forall|q: int| 0 <= q < data@.len() ==> data@[q] == scatter_dim_at(
                            self@.data,
                            value@.data,
                            idx@.data,
                            dimi,
                            nsel as int,
                            inr,
                            q,
                            nsel as int,
                        ),
                    decreases inner - b,
                {
                    proof {
                        lemma_index3_bound(a as int, c as int, b as int, outer as int, dimi, inr);
                        lemma_index3_inverse(a as int, c as int, b as int, dimi, inr);
                    }
                    let q = a * (dim * inner) + c * inner + b;
                    let ghost qi = q as int;
                    let mut acc: i64 = self.data[q];
                    let mut n: usize = 0;
                    while n < nsel
                        invariant
                            0 <= n <= nsel,
                            0 <= b < inner,
                            0 <= c < dim,
                            0 <= a < outer,
                            self.wf(),
                            value.wf(),
                            idx.wf(),
                            s == self@.shape,
                            d < s.len(),
                            dimi == s[d as int],
                            inr == prod(s.skip(d as int + 1)),
                            outer * ((dim as int) * (inner as int)) == prod(s),
                            (dim as int) * (inner as int) <= prod(s),
                            prod(s) <= usize::MAX,
                            dimi == dim,
                            inr == inner,
                            dim >= 1,
                            inner >= 1,
                            nsel == idx@.data.len(),
                            forall|p: int| 0 <= p < idx@.data.len() ==> 0 <= #[trigger] idx@.data[p] < dimi,
                            value@.data.len() == outer * ((nsel as int) * inr),
                            value@.data.len() <= usize::MAX,
                        value@.data.len() <= usize::MAX,
                    value@.data.len() <= usize::MAX,
                            qi == idx3(a as int, c as int, b as int, dimi, inr),
                            at3_a(qi, dimi, inr) == a,
                            at3_j(qi, dimi, inr) == c,
                            at3_b(qi, inr) == b,
                            0 <= qi < self@.data.len(),
                            acc == scatter_dim_at(
                                self@.data,
                                value@.data,
                                idx@.data,
                                dimi,
                                nsel as int,
                                inr,
                                qi,
                                n as int,
                            ),
                        decreases nsel - n,
                    {
                        let ghost acc_before = acc;
                        proof {
                            assert(0 <= idx@.data[n as int] < dimi);
                        }
                        if idx.data[n] as usize == c {
                            proof {
                                lemma_index3_bound(
                                    a as int,
                                    n as int,
                                    b as int,
                                    outer as int,
                                    nsel as int,
                                    inr,
                                );
                                assert((nsel as int) * inr <= outer * ((nsel as int) * inr))
                                    by (nonlinear_arith)
                                    requires
                                        outer >= 1,
                                        nsel >= 0,
                                        inr >= 0,
                                ;
                            }
                            let vsrc = a * (nsel * inner) + n * inner + b;
                            acc = add_fx(acc, value.data[vsrc]);
                        }
                        proof {
                            assert(scatter_dim_at(
                                self@.data,
                                value@.data,
                                idx@.data,
                                dimi,
                                nsel as int,
                                inr,
                                qi,
                                n as int + 1,
                            ) == (if idx@.data[n as int] == at3_j(qi, dimi, inr) {
                                fx_add(
                                    acc_before,
                                    value@.data[idx3(
                                        at3_a(qi, dimi, inr),
                                        n as int,
                                        at3_b(qi, inr),
                                        nsel as int,
                                        inr,
                                    )],
                                )
                            } else {
                                acc_before
                            }));
                        }
                        n += 1;
                    }
                    data.push(acc);
                    b += 1;
                }
                proof {
                    assert((c + 1) * inr == c * inr + inr) by (nonlinear_arith);
                }
                c += 1;
            }
            proof {
                assert((a + 1) * ((dim as int) * inr) == a * ((dim as int) * inr) + (dim as int)
                    * inr) by (nonlinear_arith);
            }
            a += 1;
        }
        let r = Tensor { shape: copy_shape(&self.shape), data };
        r
    }

    fn arg_reduce(&self, d: usize, is_max: bool) -> (r: IntTensor)
        requires
            self.wf(),
            d < self@.shape.len(),
            self@.shape[d as int] >= 1,
            self@.shape[d as int] <= i64::MAX,
            prod(self@.shape.update(d as int, 1usize)) <= usize::MAX,
        ensures
            r.wf(),
            r@.shape == self@.shape.update(d as int, 1usize),
            forall|p: int| 0 <= p < r@.data.len() ==> r@.data[p] == arg_best(
                self@.data,
                self@.shape[d as int] as int,
                prod(self@.shape.skip(d as int + 1)),
                p / prod(self@.shape.skip(d as int + 1)),
                p % prod(self@.shape.skip(d as int + 1)),
                self@.shape[d as int] as int,
                is_max,
            ),
    {
        let ghost s = self@.shape;
        let mut new_shape = copy_shape(&self.shape);
        new_shape.set(d, 1);
        proof {
            assert(new_shape@ =~= s.update(d as int, 1usize));
        }
        if has_zero_dim(&self.shape) {
            let mut data: Vec<i64> = Vec::new();
            let r = IntTensor { shape: new_shape, data };
            proof {
                let zi = choose|i: int| 0 <= i < s.len() && s[i] == 0;
                assert(s.update(d as int, 1usize)[zi] == s[zi]);
                lemma_prod_zero_dim(s.update(d as int, 1usize), zi);
            }
            return r;
        }
        let total = self.data.len();
        proof {
            assert(prod(s) <= usize::MAX);
        }
        let (outer, dim, inner) = dim_factors(&self.shape, d);
        let ghost dimi = dim as int;
        let ghost inr = inner as int;
        proof {
            let u = s.update(d as int, 1usize);
            lemma_prod_split(u, d as int);
            lemma_prod_head(u.skip(d as int));
            assert(u.take(d as int) =~= s.take(d as int));
            assert(u.skip(d as int).skip(1) =~= s.skip(d as int + 1));
            assert(u.skip(d as int)[0] == 1);
            assert(prod(u) == outer * (1 * inr));
            assert(outer * (1 * inr) == outer * inr) by (nonlinear_arith);
        }
        let mut data: Vec<i64> = Vec::new();
        let mut a: usize = 0;
        while a < outer
            invariant
                0 <= a <= outer,
                self.wf(),
                s == self@.shape,
                d < s.len(),
                dimi == s[d as int],
                inr == prod(s.skip(d as int + 1)),
                outer * ((dim as int) * (inner as int)) == prod(s),
                (dim as int) * (inner as int) <= prod(s),
                prod(s) <= usize::MAX,
                dimi == dim,
                dimi <= i64::MAX,
                inr == inner,
                dim >= 1,
                inner >= 1,
                data@.len() == a * inr,
                forall|p: int| 0 <= p < data@.len() ==> data@[p] == arg_best(
                    self@.data,
                    dimi,
                    inr,
                    p / inr,
                    p % inr,
                    dimi,
                    is_max,
                ),
            decreases outer - a,
        {
            let mut b: usize = 0;
            while b < inner
                invariant
                    0 <= b <= inner,
                    0 <= a < outer,
                    self.wf(),
                    s == self@.shape,
                    d < s.len(),
                    dimi == s[d as int],
                    inr == prod(s.skip(d as int + 1)),
                    outer * ((dim as int) * (inner as int)) == prod(s),
                    (dim as int) * (inner as int) <= prod(s),
                    prod(s) <= usize::MAX,
                    dimi == dim,
                dimi <= i64::MAX,
                    inr == inner,
                    dim >= 1,
                    inner >= 1,
                    data@.len() == a * inr + b,
                    forall|p: int| 0 <= p < data@.len() ==> data@[p] == arg_best(
                        self@.data,
                        dimi,
                        inr,
                        p / inr,
                        p % inr,
                        dimi,
                        is_max,
                    ),
                decreases inner - b,
            {
                let mut best: usize = 0;
                let mut j: usize = 1;
                proof {
                    lemma_index3_bound(a as int, 0, b as int, outer as int, dimi, inr);
                }
                let mut best_val: i64 = self.data[a * (dim * inner) + b];
                proof {
                    assert(0 * inr == 0) by (nonlinear_arith);
                    assert(a * (dim * inner) + b == idx3(a as int, 0, b as int, dimi, inr));
                }
                while j < dim
                    invariant
                        1 <= j <= dim,
                        0 <= best < j,
                        0 <= b < inner,
                        0 <= a < outer,
                        self.wf(),
                        s == self@.shape,
                        d < s.len(),
                        dimi == s[d as int],
                        inr == prod(s.skip(d as int + 1)),
                        outer * ((dim as int) * (inner as int)) == prod(s),
                        (dim as int) * (inner as int) <= prod(s),
                        prod(s) <= usize::MAX,
                        dimi == dim,
                dimi <= i64::MAX,
                        inr == inner,
                        dim >= 1,
                        inner >= 1,
                        best == arg_best(self@.data, dimi, inr, a as int, b as int, j as int, is_max),
                        best_val == self@.data[idx3(a as int, best as int, b as int, dimi, inr)],
                    decreases dim - j,
                {
                    proof {
                        lemma_index3_bound(a as int, j as int, b as int, outer as int, dimi, inr);
                    }
                    let cur = self.data[a * (dim * inner) + j * inner + b];
                    if (is_max && cur > best_val) || (!is_max && cur < best_val) {
                        best = j;
                        best_val = cur;
                    }
                    j += 1;
                }
                proof {
                    lemma_index2(a as int, b as int, inr);
                    lemma_index3_bound(a as int, 0, b as int, outer as int, 1, inr);
                    assert(a * (1 * inr) + 0 * inr + b == a * inr + b) by (nonlinear_arith);
                }
                data.push(best as i64);
                proof {
                    let pp = a as int * inr + b;
                    assert(pp / inr == a && pp % inr == b);
                    assert(data@[pp] == arg_best(
                        self@.data,
                        dimi,
                        inr,
                        pp / inr,
                        pp % inr,
                        dimi,
                        is_max,
                    ));
                }
                b += 1;
            }
            proof {
                assert((a + 1) * inr == a * inr + inr) by (nonlinear_arith);
            }
            a += 1;
        }
        let r = IntTensor { shape: new_shape, data };
        proof {
            assert(outer * (1 * inr) == outer * inr) by (nonlinear_arith);
        }
        r
    }

    /// Index of the first maximum along one dimension.
    pub fn argmax(&self, d: usize) -> (r: IntTensor)
        requires
            self.wf(),
            d < self@.shape.len(),
            self@.shape[d as int] >= 1,
            self@.shape[d as int] <= i64::MAX,
            prod(self@.shape.update(d as int, 1usize)) <= usize::MAX,
        ensures
            r.wf(),
            r@.shape == self@.shape.update(d as int, 1usize),
            forall|p: int| 0 <= p < r@.data.len() ==> r@.data[p] == arg_best(
                self@.data,
                self@.shape[d as int] as int,
                prod(self@.shape.skip(d as int + 1)),
                p / prod(self@.shape.skip(d as int + 1)),
                p % prod(self@.shape.skip(d as int + 1)),
                self@.shape[d as int] as int,
                true,
            ),
    {
        self.arg_reduce(d, true)
    }

    /// Index of the first minimum along one dimension.
    pub fn argmin(&self, d: usize) -> (r: IntTensor)
        requires
            self.wf(),
            d < self@.shape.len(),
            self@.shape[d as int] >= 1,
            self@.shape[d as int] <= i64::MAX,
            prod(self@.shape.update(d as int, 1usize)) <= usize::MAX,
        ensures
            r.wf(),
            r@.shape == self@.shape.update(d as int, 1usize),
            forall|p: int| 0 <= p < r@.data.len() ==> r@.data[p] == arg_best(
                self@.data,
                self@.shape[d as int] as int,
                prod(self@.shape.skip(d as int + 1)),
                p / prod(self@.shape.skip(d as int + 1)),
                p % prod(self@.shape.skip(d as int + 1)),
                self@.shape[d as int] as int,
                false,
            ),
    {
        self.arg_reduce(d, false)
    }
}

/// In a shape whose element count is zero, some dimension is zero.
pub proof fn lemma_prod_all_pos_converse(s: Seq<usize>)
    requires
        prod(s) >= 1,
    ensures
        forall|i: int| 0 <= i < s.len() ==> s[i] >= 1,
{
    assert forall|i: int| 0 <= i < s.len() implies s[i] >= 1 by {
        if s[i] == 0 {
            lemma_prod_zero_dim(s, i);
        }
    }
}

/// An empty tensor stays empty whichever single dimension is replaced:
/// helper fact for early returns.
pub proof fn lemma_prod_zero_from_update(s: Seq<usize>)
    requires
        exists|i: int| 0 <= i < s.len() && s[i] == 0,
    ensures
        prod(s) == 0,
{
    let i = choose|i: int| 0 <= i < s.len() && s[i] == 0;
    lemma_prod_zero_dim(s, i);
}

} // verus!
