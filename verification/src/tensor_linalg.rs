//! Batched matrix multiplication and concatenation.

use vstd::prelude::*;

use crate::fixed::{add_fx, fx_add, fx_mul, mul_fx};
use crate::shape::{
    lemma_index3_bound, lemma_index3_inverse, lemma_prod_all_pos, lemma_prod_head,
    lemma_prod_split, num_elems, prod,
};
use crate::tensor::{copy_shape, Tensor, TView};
use crate::tensor_coords::lemma_prod_le_all;
use crate::tensor_dim::{at3_a, at3_b, at3_j, dim_factors, has_zero_dim, idx3, lemma_prod_zero_from_update};

verus! {

/// Inner product of the first `t` positions of row `i` of the left operand
/// and column `j` of the right operand, within batch `bi`.
pub open spec fn mm_at(
    ad: Seq<i64>,
    bd: Seq<i64>,
    m: int,
    k: int,
    n: int,
    bi: int,
    i: int,
    j: int,
    t: int,
) -> i64
    decreases t,
{
    if t <= 0 {
        0
    } else {
        fx_add(
            mm_at(ad, bd, m, k, n, bi, i, j, t - 1),
            fx_mul(ad[bi * (m * k) + i * k + (t - 1)], bd[bi * (k * n) + (t - 1) * n + j]),
        )
    }
}

/// Concatenation of two views along dimension `d`.
pub open spec fn tv_cat2(a: TView, b: TView, d: int) -> TView {
    let ad = a.shape[d] as int;
    let bd = b.shape[d] as int;
    let inner = prod(a.shape.skip(d + 1));
    let nsh = a.shape.update(d, (a.shape[d] + b.shape[d]) as usize);
    TView {
        shape: nsh,
        data: Seq::new(
            prod(nsh) as nat,
            |q: int|
                if at3_j(q, ad + bd, inner) < ad {
                    a.data[idx3(at3_a(q, ad + bd, inner), at3_j(q, ad + bd, inner), at3_b(q, inner), ad, inner)]
                } else {
                    b.data[idx3(
                        at3_a(q, ad + bd, inner),
                        at3_j(q, ad + bd, inner) - ad,
                        at3_b(q, inner),
                        bd,
                        inner,
                    )]
                },
        ),
    }
}

/// Concatenation of a nonempty list of views along dimension `d`.
pub open spec fn cat_views(vs: Seq<TView>, d: int) -> TView
    decreases vs.len(),
{
    if vs.len() <= 1 {
        vs[0]
    } else {
        tv_cat2(cat_views(vs.drop_last(), d), vs.last(), d)
    }
}

/// Sum of the extents along `d` of a list of views.
pub open spec fn dim_sum(vs: Seq<TView>, d: int) -> int
    decreases vs.len(),
{
    if vs.len() == 0 {
        0
    } else {
        dim_sum(vs.drop_last(), d) + vs.last().shape[d]
    }
}

impl Tensor {
    /// Batched matrix product over the last two dimensions; the leading
    /// dimensions must agree.
    pub fn matmul(&self, other: &Tensor) -> (r: Tensor)
        requires
            self.wf(),
            other.wf(),
            self@.shape.len() >= 2,
            other@.shape.len() == self@.shape.len(),
            self@.shape.take(self@.shape.len() - 2) == other@.shape.take(self@.shape.len() - 2),
            self@.shape[self@.shape.len() - 1] == other@.shape[self@.shape.len() - 2],
            prod(self@.shape.update(self@.shape.len() - 1, other@.shape[self@.shape.len() - 1]))
                <= usize::MAX,
        ensures
            r.wf(),
            r@.shape == self@.shape.update(
                self@.shape.len() - 1,
                other@.shape[self@.shape.len() - 1],
            ),
            forall|q: int| 0 <= q < r@.data.len() ==> r@.data[q] == mm_at(
                self@.data,
                other@.data,
                self@.shape[self@.shape.len() - 2] as int,
                self@.shape[self@.shape.len() - 1] as int,
                other@.shape[self@.shape.len() - 1] as int,
                at3_a(
                    q,
                    self@.shape[self@.shape.len() - 2] as int,
                    other@.shape[self@.shape.len() - 1] as int,
                ),
                at3_j(
                    q,
                    self@.shape[self@.shape.len() - 2] as int,
                    other@.shape[self@.shape.len() - 1] as int,
                ),
                at3_b(q, other@.shape[self@.shape.len() - 1] as int),
                self@.shape[self@.shape.len() - 1] as int,
            ),
    {
        let ghost sa = self@.shape;
        let ghost sb = other@.shape;
        let rank = self.shape.len();
        let m = self.shape[rank - 2];
        let kk = self.shape[rank - 1];
        let n = other.shape[rank - 1];
        let ghost osh = sa.update(sa.len() - 1, n as usize);
        let mut new_shape = copy_shape(&self.shape);
        new_shape.set(rank - 1, n);
        proof {
            assert(new_shape@ =~= osh);
        }
        if has_zero_dim(&new_shape) {
            let data: Vec<i64> = Vec::new();
            let r = Tensor { shape: new_shape, data };
            proof {
                lemma_prod_zero_from_update(osh);
            }
            return r;
        }
        // all output extents are positive: the batch extents, m and n
        proof {
            assert forall|i: int| 0 <= i < sa.len() - 1 implies sa[i] >= 1 by {
                assert(osh[i] == sa[i]);
            }
        }
        let total_a = self.data.len();
        let total_b = other.data.len();
        let ghost mi = m as int;
        let ghost ki = kk as int;
        let ghost ni = n as int;
        proof {
            assert(prod(sa) <= usize::MAX);
            assert(prod(sb) <= usize::MAX);
        }
        // element counts split as batch * (rows * columns)
        let mut head: Vec<usize> = Vec::new();
        let mut hi: usize = 0;
        while hi < rank - 2
            invariant
                0 <= hi <= rank - 2,
                rank == sa.len(),
                rank >= 2,
                self@.shape == sa,
                head@ == sa.take(hi as int),
            decreases rank - 2 - hi,
        {
            head.push(self.shape[hi]);
            proof {
                assert(head@ =~= sa.take(hi as int + 1));
            }
            hi += 1;
        }
        proof {
            lemma_prod_split(sa, rank - 2);
            lemma_prod_head(sa.skip(rank - 2));
            assert(sa.skip(rank - 2)[0] == sa[rank - 2]);
            assert(sa.skip(rank - 2).skip(1) =~= sa.skip(rank - 1));
            lemma_prod_head(sa.skip(rank - 1));
            assert(sa.skip(rank - 1)[0] == sa[rank - 1]);
            assert(sa.skip(rank - 1).skip(1) =~= Seq::<usize>::empty());
            // prod(sa) == batch * (m * k)
            lemma_prod_split(sb, rank - 2);
            lemma_prod_head(sb.skip(rank - 2));
            assert(sb.skip(rank - 2)[0] == sb[rank - 2]);
            assert(sb.skip(rank - 2).skip(1) =~= sb.skip(rank - 1));
            lemma_prod_head(sb.skip(rank - 1));
            assert(sb.skip(rank - 1)[0] == sb[rank - 1]);
            assert(sb.skip(rank - 1).skip(1) =~= Seq::<usize>::empty());
            lemma_prod_split(osh, rank - 2);
            lemma_prod_head(osh.skip(rank - 2));
            assert(osh.skip(rank - 2)[0] == osh[rank - 2]);
            assert(osh.skip(rank - 2).skip(1) =~= osh.skip(rank - 1));
            lemma_prod_head(osh.skip(rank - 1));
            assert(osh.skip(rank - 1)[0] == osh[rank - 1]);
            assert(osh.skip(rank - 1).skip(1) =~= Seq::<usize>::empty());
            assert(osh.take(rank - 2) =~= sa.take(rank - 2));
            assert(osh[rank - 2] == sa[rank - 2]);
            assert(osh[rank - 1] == n);
            // batch itself is bounded
            lemma_prod_all_pos(osh);
            let batch0 = prod(sa.take(rank - 2));
            assert(batch0 <= batch0 * ((mi * 1) * (ni * 1)) || true);
        }
        let ghost batchg = prod(sa.take(rank - 2));
        proof {
            assert(prod(osh) == batchg * ((mi * (ni * 1))));
            assert(batchg >= 1 && mi >= 1 && ni >= 1) by {
                lemma_prod_all_pos(sa.take(rank - 2));
                assert(osh[rank - 2] == mi);
                assert(osh[rank - 1] == ni);
            }
            assert(batchg <= prod(osh) && mi * (ni * 1) == mi * ni) by (nonlinear_arith)
                requires
                    batchg >= 1,
                    mi >= 1,
                    ni >= 1,
                    prod(osh) == batchg * (mi * (ni * 1)),
            ;
        }
        let batch = num_elems(&head);
        let ghost adata = self@.data;
        let ghost bdata = other@.data;
        let mut data: Vec<i64> = Vec::new();
        let mut bi: usize = 0;
        while bi < batch
            invariant
                0 <= bi <= batch,
                self.wf(),
                other.wf(),
                sa == self@.shape,
                sb == other@.shape,
                adata == self@.data,
                bdata == other@.data,
                rank == sa.len(),
                rank >= 2,
                mi == m,
                ki == kk,
                ni == n,
                mi == sa[rank - 2],
                ki == sa[rank - 1],
                ni == sb[rank - 1],
                batch == batchg,
                prod(sa) == batch * (mi * ki),
                prod(sb) == batch * (ki * ni),
                prod(osh) == batch * (mi * ni),
                prod(sa) <= usize::MAX,
                prod(sb) <= usize::MAX,
                prod(osh) <= usize::MAX,
                batch >= 1,
                mi >= 1,
                ni >= 1,
                data@.len() == bi * (mi * ni),
                forall|q: int| 0 <= q < data@.len() ==> data@[q] == mm_at(
                    adata,
                    bdata,
                    mi,
                    ki,
                    ni,
                    at3_a(q, mi, ni),
                    at3_j(q, mi, ni),
                    at3_b(q, ni),
                    ki,
                ),
            decreases batch - bi,
        {
            let mut i: usize = 0;
            while i < m
                invariant
                    0 <= i <= m,
                    0 <= bi < batch,
                    self.wf(),
                    other.wf(),
                    sa == self@.shape,
                    sb == other@.shape,
                    adata == self@.data,
                    bdata == other@.data,
                    rank == sa.len(),
                    rank >= 2,
                    mi == m,
                    ki == kk,
                    ni == n,
                    prod(sa) == batch * (mi * ki),
                    prod(sb) == batch * (ki * ni),
                    prod(osh) == batch * (mi * ni),
                    prod(sa) <= usize::MAX,
                    prod(sb) <= usize::MAX,
                    prod(osh) <= usize::MAX,
                    batch >= 1,
                    mi >= 1,
                    ni >= 1,
                    data@.len() == bi * (mi * ni) + i * ni,
                    forall|q: int| 0 <= q < data@.len() ==> data@[q] == mm_at(
                        adata,
                        bdata,
                        mi,
                        ki,
                        ni,
                        at3_a(q, mi, ni),
                        at3_j(q, mi, ni),
                        at3_b(q, ni),
                        ki,
                    ),
                decreases m - i,
            {
                let mut j: usize = 0;
                while j < n
                    invariant
                        0 <= j <= n,
                        0 <= i < m,
                        0 <= bi < batch,
                        self.wf(),
                        other.wf(),
                        sa == self@.shape,
                        sb == other@.shape,
                        adata == self@.data,
                        bdata == other@.data,
                        rank == sa.len(),
                        rank >= 2,
                        mi == m,
                        ki == kk,
                        ni == n,
                        prod(sa) == batch * (mi * ki),
                        prod(sb) == batch * (ki * ni),
                        prod(osh) == batch * (mi * ni),
                        prod(sa) <= usize::MAX,
                        prod(sb) <= usize::MAX,
                        prod(osh) <= usize::MAX,
                        batch >= 1,
                        mi >= 1,
                        ni >= 1,
                        data@.len() == bi * (mi * ni) + i * ni + j,
                        forall|q: int| 0 <= q < data@.len() ==> data@[q] == mm_at(
                            adata,
                            bdata,
                            mi,
                            ki,
                            ni,
                            at3_a(q, mi, ni),
                            at3_j(q, mi, ni),
                            at3_b(q, ni),
                            ki,
                        ),
                    decreases n - j,
                {
                    let mut acc: i64 = 0;
                    let mut t: usize = 0;
                    while t < kk
                        invariant
                            0 <= t <= kk,
                            0 <= j < n,
                            0 <= i < m,
                            0 <= bi < batch,
                            self.wf(),
                            other.wf(),
                            sa == self@.shape,
                            sb == other@.shape,
                            adata == self@.data,
                            bdata == other@.data,
                            mi == m,
                            ki == kk,
                            ni == n,
                            prod(sa) == batch * (mi * ki),
                            prod(sb) == batch * (ki * ni),
                            prod(sa) <= usize::MAX,
                            prod(sb) <= usize::MAX,
                            batch >= 1,
                            acc == mm_at(adata, bdata, mi, ki, ni, bi as int, i as int, j as int, t as int),
                        decreases kk - t,
                    {
                        proof {
                            lemma_index3_bound(bi as int, i as int, t as int, batch as int, mi, ki);
                            lemma_index3_bound(bi as int, t as int, j as int, batch as int, ki, ni);
                            assert(mi * ki <= batch * (mi * ki) && ki * ni <= batch * (ki * ni))
                                by (nonlinear_arith)
                                requires
                                    batch >= 1,
                                    mi >= 1,
                                    ki >= 1,
                                    ni >= 1,
                            ;
                        }
                        let av = self.data[bi * (m * kk) + i * kk + t];
                        let bv = other.data[bi * (kk * n) + t * n + j];
                        acc = add_fx(acc, mul_fx(av, bv));
                        t += 1;
                    }
                    proof {
                        lemma_index3_bound(bi as int, i as int, j as int, batch as int, mi, ni);
                        lemma_index3_inverse(bi as int, i as int, j as int, mi, ni);
                    }
                    data.push(acc);
                    j += 1;
                }
                proof {
                    assert((i + 1) * ni == i * ni + ni) by (nonlinear_arith);
                }
                i += 1;
            }
            proof {
                assert((bi + 1) * (mi * ni) == bi * (mi * ni) + mi * ni) by (nonlinear_arith);
            }
            bi += 1;
        }
        let r = Tensor { shape: new_shape, data };
        r
    }

    /// Concatenate another tensor after this one along dimension `d`.
    pub fn cat2(&self, other: &Tensor, d: usize) -> (r: Tensor)
        requires
            self.wf(),
            other.wf(),
            other@.shape.len() == self@.shape.len(),
            d < self@.shape.len(),
            forall|i: int| 0 <= i < self@.shape.len() && i != d ==> self@.shape[i]
                == #[trigger] other@.shape[i],
            self@.shape[d as int] + other@.shape[d as int] <= usize::MAX,
            prod(
                self@.shape.update(
                    d as int,
                    (self@.shape[d as int] + other@.shape[d as int]) as usize,
                ),
            ) <= usize::MAX,
        ensures
            r.wf(),
            r@ == tv_cat2(self@, other@, d as int),
    {
        let ghost sa = self@.shape;
        let ghost sb = other@.shape;
        let ad = self.shape[d];
        let bd = other.shape[d];
        let ghost osh = sa.update(d as int, (sa[d as int] + sb[d as int]) as usize);
        let mut new_shape = copy_shape(&self.shape);
        new_shape.set(d, ad + bd);
        proof {
            assert(new_shape@ =~= osh);
            assert(sb.skip(d as int + 1) =~= sa.skip(d as int + 1));
        }
        if has_zero_dim(&new_shape) {
            let data: Vec<i64> = Vec::new();
            let r = Tensor { shape: new_shape, data };
            proof {
                lemma_prod_zero_from_update(osh);
                assert(r@ =~= tv_cat2(self@, other@, d as int));
            }
            return r;
        }
        let total_a = self.data.len();
        let total_b = other.data.len();
        proof {
            assert(prod(sa) <= usize::MAX);
            assert(prod(sb) <= usize::MAX);
        }
        let (outer, nd, inner) = dim_factors(&new_shape, d);
        let ghost adi = ad as int;
        let ghost bdi = bd as int;
        let ghost inr = inner as int;
        proof {
            assert(osh.take(d as int) =~= sa.take(d as int));
            assert(osh.skip(d as int + 1) =~= sa.skip(d as int + 1));
            lemma_prod_split(sa, d as int);
            lemma_prod_head(sa.skip(d as int));
            assert(sa.skip(d as int)[0] == sa[d as int]);
            assert(sa.skip(d as int).skip(1) =~= sa.skip(d as int + 1));
            lemma_prod_split(sb, d as int);
            lemma_prod_head(sb.skip(d as int));
            assert(sb.skip(d as int)[0] == sb[d as int]);
            assert(sb.skip(d as int).skip(1) =~= sb.skip(d as int + 1));
            assert(sb.take(d as int) =~= sa.take(d as int));
            // prod(sa) == outer * (ad * inner), prod(sb) == outer * (bd * inner)
        }
        let mut data: Vec<i64> = Vec::new();
        let mut x: usize = 0;
        while x < outer
            invariant
                0 <= x <= outer,
                self.wf(),
                other.wf(),
                sa == self@.shape,
                sb == other@.shape,
                d < sa.len(),
                adi == ad,
                bdi == bd,
                inr == inner,
                adi == sa[d as int],
                bdi == sb[d as int],
                inr == prod(sa.skip(d as int + 1)),
                nd == ad + bd,
                prod(sa) == outer * (adi * inr),
                prod(sb) == outer * (bdi * inr),
                prod(osh) == outer * ((adi + bdi) * inr),
                osh == sa.update(d as int, (sa[d as int] + sb[d as int]) as usize),
                prod(sa) <= usize::MAX,
                prod(sb) <= usize::MAX,
                prod(osh) <= usize::MAX,
                outer >= 1,
                inner >= 1,
                nd >= 1,
                data@.len() == x * ((adi + bdi) * inr),
                forall|q: int| 0 <= q < data@.len() ==> data@[q] == tv_cat2(
                    self@,
                    other@,
                    d as int,
                ).data[q],
            decreases outer - x,
        {
            let mut j: usize = 0;
            while j < ad
                invariant
                    0 <= j <= ad,
                    0 <= x < outer,
                    self.wf(),
                    other.wf(),
                    sa == self@.shape,
                    sb == other@.shape,
                    d < sa.len(),
                    adi == ad,
                    bdi == bd,
                    inr == inner,
                    adi == sa[d as int],
                    bdi == sb[d as int],
                    inr == prod(sa.skip(d as int + 1)),
                    nd == ad + bd,
                    prod(sa) == outer * (adi * inr),
                    prod(sb) == outer * (bdi * inr),
                    prod(osh) == outer * ((adi + bdi) * inr),
                    osh == sa.update(d as int, (sa[d as int] + sb[d as int]) as usize),
                    prod(sa) <= usize::MAX,
                    prod(sb) <= usize::MAX,
                    prod(osh) <= usize::MAX,
                    outer >= 1,
                    inner >= 1,
                    nd >= 1,
                    data@.len() == x * ((adi + bdi) * inr) + j * inr,
                    forall|q: int| 0 <= q < data@.len() ==> data@[q] == tv_cat2(
                        self@,
                        other@,
                        d as int,
                    ).data[q],
                decreases ad - j,
            {
                let mut y: usize = 0;
                while y < inner
                    invariant
                        0 <= y <= inner,
                        0 <= j < ad,
                        0 <= x < outer,
                        self.wf(),
                        other.wf(),
                        sa == self@.shape,
                        sb == other@.shape,
                        d < sa.len(),
                        adi == ad,
                        bdi == bd,
                        inr == inner,
                        adi == sa[d as int],
                        bdi == sb[d as int],
                        inr == prod(sa.skip(d as int + 1)),
                        nd == ad + bd,
                        prod(sa) == outer * (adi * inr),
                        prod(sb) == outer * (bdi * inr),
                        prod(osh) == outer * ((adi + bdi) * inr),
                        osh == sa.update(d as int, (sa[d as int] + sb[d as int]) as usize),
                        prod(sa) <= usize::MAX,
                        prod(sb) <= usize::MAX,
                        prod(osh) <= usize::MAX,
                        outer >= 1,
                        inner >= 1,
                        nd >= 1,
                        data@.len() == x * ((adi + bdi) * inr) + j * inr + y,
                        forall|q: int| 0 <= q < data@.len() ==> data@[q] == tv_cat2(
                            self@,
                            other@,
                            d as int,
                        ).data[q],
                    decreases inner - y,
                {
                    proof {
                        lemma_index3_bound(x as int, j as int, y as int, outer as int, adi, inr);
                        lemma_index3_bound(
                            x as int,
                            j as int,
                            y as int,
                            outer as int,
                            adi + bdi,
                            inr,
                        );
                        lemma_index3_inverse(x as int, j as int, y as int, adi + bdi, inr);
                        assert(adi * inr <= outer * (adi * inr)) by (nonlinear_arith)
                            requires
                                outer >= 1,
                                adi >= 0,
                                inr >= 0,
                        ;
                    }
                    data.push(self.data[x * (ad * inner) + j * inner + y]);
                    y += 1;
                }
                proof {
                    assert((j + 1) * inr == j * inr + inr) by (nonlinear_arith);
                }
                j += 1;
            }
            let mut j2: usize = 0;
            while j2 < bd
                invariant
                    0 <= j2 <= bd,
                    0 <= x < outer,
                    self.wf(),
                    other.wf(),
                    sa == self@.shape,
                    sb == other@.shape,
                    d < sa.len(),
                    adi == ad,
                    bdi == bd,
                    inr == inner,
                    adi == sa[d as int],
                    bdi == sb[d as int],
                    inr == prod(sa.skip(d as int + 1)),
                    nd == ad + bd,
                    prod(sa) == outer * (adi * inr),
                    prod(sb) == outer * (bdi * inr),
                    prod(osh) == outer * ((adi + bdi) * inr),
                    osh == sa.update(d as int, (sa[d as int] + sb[d as int]) as usize),
                    prod(sa) <= usize::MAX,
                    prod(sb) <= usize::MAX,
                    prod(osh) <= usize::MAX,
                    outer >= 1,
                    inner >= 1,
                    nd >= 1,
                    data@.len() == x * ((adi + bdi) * inr) + (adi + j2) * inr,
                    forall|q: int| 0 <= q < data@.len() ==> data@[q] == tv_cat2(
                        self@,
                        other@,
                        d as int,
                    ).data[q],
                decreases bd - j2,
            {
                let mut y: usize = 0;
                while y < inner
                    invariant
                        0 <= y <= inner,
                        0 <= j2 < bd,
                        0 <= x < outer,
                        self.wf(),
                        other.wf(),
                        sa == self@.shape,
                        sb == other@.shape,
                        d < sa.len(),
                        adi == ad,
                        bdi == bd,
                        inr == inner,
                        adi == sa[d as int],
                        bdi == sb[d as int],
                        inr == prod(sa.skip(d as int + 1)),
                        nd == ad + bd,
                        prod(sa) == outer * (adi * inr),
                        prod(sb) == outer * (bdi * inr),
                        prod(osh) == outer * ((adi + bdi) * inr),
                        osh == sa.update(d as int, (sa[d as int] + sb[d as int]) as usize),
                        prod(sa) <= usize::MAX,
                        prod(sb) <= usize::MAX,
                        prod(osh) <= usize::MAX,
                        outer >= 1,
                        inner >= 1,
                        nd >= 1,
                        data@.len() == x * ((adi + bdi) * inr) + (adi + j2) * inr + y,
                        forall|q: int| 0 <= q < data@.len() ==> data@[q] == tv_cat2(
                            self@,
                            other@,
                            d as int,
                        ).data[q],
                    decreases inner - y,
                {
                    proof {
                        lemma_index3_bound(x as int, j2 as int, y as int, outer as int, bdi, inr);
                        lemma_index3_bound(
                            x as int,
                            adi + j2,
                            y as int,
                            outer as int,
                            adi + bdi,
                            inr,
                        );
                        lemma_index3_inverse(x as int, adi + j2, y as int, adi + bdi, inr);
                        assert((adi + j2) * inr == adi * inr + j2 * inr) by (nonlinear_arith);
                        assert(bdi * inr <= outer * (bdi * inr)) by (nonlinear_arith)
                            requires
                                outer >= 1,
                                bdi >= 0,
                                inr >= 0,
                        ;
                    }
                    data.push(other.data[x * (bd * inner) + j2 * inner + y]);
                    y += 1;
                }
                proof {
                    assert((adi + j2 + 1) * inr == (adi + j2) * inr + inr) by (nonlinear_arith);
                }
                j2 += 1;
            }
            proof {
                assert((x + 1) * ((adi + bdi) * inr) == x * ((adi + bdi) * inr) + (adi + bdi)
                    * inr) by (nonlinear_arith);
                assert((adi + bdi) * inr == adi * inr + bdi * inr) by (nonlinear_arith);
            }
            x += 1;
        }
        let r = Tensor { shape: new_shape, data };
        proof {
            assert(r@ =~= tv_cat2(self@, other@, d as int));
        }
        r
    }
}

/// Extents along `d` never shrink as more views are concatenated.
pub proof fn lemma_dim_sum_nonneg(vs: Seq<TView>, d: int)
    ensures
        dim_sum(vs, d) >= 0,
    decreases vs.len(),
{
    if vs.len() > 0 {
        lemma_dim_sum_nonneg(vs.drop_last(), d);
    }
}

/// Concatenate a nonempty list of tensors along dimension `d`.
pub fn cat(parts: &Vec<Tensor>, d: usize) -> (r: Tensor)
    requires
        parts@.len() >= 1,
        forall|i: int| 0 <= i < parts@.len() ==> #[trigger] parts@[i].wf(),
        forall|i: int| 0 <= i < parts@.len() ==> (#[trigger] parts@[i])@.shape.len() == parts@[0]@.shape.len(),
        d < parts@[0]@.shape.len(),
        forall|i: int, k: int|
            0 <= i < parts@.len() && 0 <= k < parts@[0]@.shape.len() && k != d
                ==> #[trigger] parts@[i]@.shape[k] == parts@[0]@.shape[k],
        dim_sum(parts@.map_values(|t: Tensor| t@), d as int) <= usize::MAX,
        prod(
            parts@[0]@.shape.update(
                d as int,
                dim_sum(parts@.map_values(|t: Tensor| t@), d as int) as usize,
            ),
        ) <= usize::MAX,
    ensures
        r.wf(),
        r@ == cat_views(parts@.map_values(|t: Tensor| t@), d as int),
{
    let ghost vs = parts@.map_values(|t: Tensor| t@);
    let ghost base = parts@[0]@.shape;
    let mut acc = parts[0].dup();
    let mut i: usize = 1;
    proof {
        assert(parts@[0].wf());
        assert(vs[0] == parts@[0]@);
        assert(vs.take(1).drop_last() =~= Seq::<TView>::empty());
        assert(vs.take(1)[0] == parts@[0]@);
        assert(cat_views(vs.take(1), d as int) == vs.take(1)[0]);
        assert(vs.take(1).len() == 1);
        assert(vs.take(1).last() == vs[0]);
        assert(dim_sum(Seq::<TView>::empty(), d as int) == 0);
        assert(dim_sum(vs.take(1), d as int) == vs[0].shape[d as int]);
        assert(acc@.shape =~= base.update(d as int, (dim_sum(vs.take(1), d as int)) as usize));
    }
    while i < parts.len()
        invariant
            1 <= i <= parts@.len(),
            vs == parts@.map_values(|t: Tensor| t@),
            vs.len() == parts@.len(),
            base == parts@[0]@.shape,
            d < base.len(),
            forall|k: int| 0 <= k < vs.len() ==> (#[trigger] parts@[k]).wf(),
            forall|k: int| 0 <= k < vs.len() ==> (#[trigger] parts@[k])@.shape.len() == base.len(),
            forall|k: int, k2: int|
                0 <= k < vs.len() && 0 <= k2 < base.len() && k2 != d
                    ==> #[trigger] parts@[k]@.shape[k2] == base[k2],
            dim_sum(vs, d as int) <= usize::MAX,
            prod(base.update(d as int, dim_sum(vs, d as int) as usize)) <= usize::MAX,
            acc.wf(),
            acc@ == cat_views(vs.take(i as int), d as int),
            acc@.shape == base.update(d as int, dim_sum(vs.take(i as int), d as int) as usize),
        decreases parts@.len() - i,
    {
        proof {
            lemma_cat_prefix_bounds(vs, base, d as int, i as int);
            assert(vs[i as int] == parts@[i as int]@);
            assert(parts@[i as int].wf());
            assert forall|k: int|
                0 <= k < acc@.shape.len() && k != d implies acc@.shape[k] == #[trigger] parts@[
                i as int]@.shape[k] by {
                assert(acc@.shape[k] == base[k]);
            }
            assert(acc@.shape.update(
                d as int,
                (acc@.shape[d as int] + parts@[i as int]@.shape[d as int]) as usize,
            ) =~= base.update(
                d as int,
                (dim_sum(vs.take(i as int), d as int) + vs[i as int].shape[d as int]) as usize,
            ));
        }
        let next = acc.cat2(&parts[i], d);
        proof {
            assert(vs.take(i as int + 1).drop_last() =~= vs.take(i as int));
            assert(vs.take(i as int + 1).last() == parts@[i as int]@);
            assert(next@.shape =~= base.update(
                d as int,
                dim_sum(vs.take(i as int + 1), d as int) as usize,
            ));
        }
        acc = next;
        i += 1;
    }
    proof {
        assert(vs.take(vs.len() as int) =~= vs);
    }
    acc
}

/// The extent sum and element count of every prefix are bounded by those of
/// the whole list.
proof fn lemma_cat_prefix_bounds(vs: Seq<TView>, base: Seq<usize>, d: int, i: int)
    requires
        1 <= i < vs.len(),
        0 <= d < base.len(),
        forall|k: int| 0 <= k < vs.len() ==> (#[trigger] vs[k]).shape.len() == base.len(),
        forall|k: int, k2: int|
            0 <= k < vs.len() && 0 <= k2 < base.len() && k2 != d ==> #[trigger] vs[k].shape[k2]
                == base[k2],
        dim_sum(vs, d) <= usize::MAX,
        prod(base.update(d, dim_sum(vs, d) as usize)) <= usize::MAX,
    ensures
        dim_sum(vs.take(i), d) + vs[i].shape[d] <= usize::MAX,
        dim_sum(vs.take(i), d) >= 0,
        prod(base.update(d, (dim_sum(vs.take(i), d) + vs[i].shape[d]) as usize)) <= usize::MAX,
        dim_sum(vs.take(i + 1), d) == dim_sum(vs.take(i), d) + vs[i].shape[d],
{
    lemma_dim_sum_nonneg(vs.take(i), d);
    assert(vs.take(i + 1).drop_last() =~= vs.take(i));
    assert(vs.take(i + 1).last() == vs[i]);
    lemma_dim_sum_prefix_le(vs, d, i + 1);
    let su = dim_sum(vs.take(i + 1), d);
    let sall = dim_sum(vs, d);
    assert(su <= sall);
    let u1 = base.update(d, su as usize);
    let u2 = base.update(d, sall as usize);
    lemma_prod_le_all(u1, u2);
}

/// A prefix's extent sum is at most the whole list's.
pub proof fn lemma_dim_sum_prefix_le(vs: Seq<TView>, d: int, i: int)
    requires
        0 <= i <= vs.len(),
    ensures
        dim_sum(vs.take(i), d) <= dim_sum(vs, d),
    decreases vs.len() - i,
{
    if i == vs.len() {
        assert(vs.take(i) =~= vs);
    } else {
        lemma_dim_sum_prefix_le(vs, d, i + 1);
        assert(vs.take(i + 1).drop_last() =~= vs.take(i));
        assert(vs.take(i + 1).last() == vs[i]);
    }
}

} // verus!
