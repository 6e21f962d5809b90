//! Coordinate arithmetic for whole-tensor remaps: dimension swaps, slicing
//! by ranges, and slice assignment.
//!
//! A flat position decomposes into one coordinate per dimension; these
//! operations permute or shift coordinates and read the source element.

use vstd::prelude::*;

use crate::shape::{lemma_index2, lemma_prod_all_pos, lemma_prod_head, lemma_prod_split, prod};
use crate::tensor::{copy_shape, Tensor};
use crate::tensor_dim::has_zero_dim;

verus! {

/// The coordinates of flat position `q` in a tensor of the given shape.
pub open spec fn unflat(sh: Seq<usize>, q: int) -> Seq<usize> {
    Seq::new(sh.len(), |i: int| (((q / prod(sh.skip(i + 1))) % (sh[i] as int)) as usize))
}

/// Flat position of a coordinate vector, summed from dimension `i` on.
pub open spec fn flat_from(sh: Seq<usize>, c: Seq<usize>, i: int) -> int
    decreases sh.len() - i,
{
    if i < 0 || i >= sh.len() {
        0
    } else {
        (c[i] as int) * prod(sh.skip(i + 1)) + flat_from(sh, c, i + 1)
    }
}

/// Flat position of a coordinate vector.
pub open spec fn flat(sh: Seq<usize>, c: Seq<usize>) -> int {
    flat_from(sh, c, 0)
}

/// Each coordinate of a valid flat position is within its extent.
pub proof fn lemma_unflat_bounds(sh: Seq<usize>, q: int)
    requires
        0 <= q < prod(sh),
        forall|i: int| 0 <= i < sh.len() ==> sh[i] >= 1,
    ensures
        forall|i: int| 0 <= i < sh.len() ==> #[trigger] unflat(sh, q)[i] < sh[i],
{
    assert forall|i: int| 0 <= i < sh.len() implies #[trigger] unflat(sh, q)[i] < sh[i] by {
        lemma_prod_all_pos(sh.skip(i + 1));
        let m = prod(sh.skip(i + 1));
        let d = sh[i] as int;
        assert(0 <= (q / m) % d < d);
    }
}

/// A coordinate vector within bounds has a flat position within the element
/// count; stated from dimension `i` on.
pub proof fn lemma_flat_from_bounds(sh: Seq<usize>, c: Seq<usize>, i: int)
    requires
        0 <= i <= sh.len(),
        c.len() == sh.len(),
        forall|k: int| 0 <= k < sh.len() ==> #[trigger] c[k] < sh[k],
        forall|k: int| 0 <= k < sh.len() ==> sh[k] >= 1,
    ensures
        0 <= flat_from(sh, c, i) < prod(sh.skip(i)),
    decreases sh.len() - i,
{
    if i == sh.len() {
        assert(sh.skip(i) =~= Seq::<usize>::empty());
    } else {
        lemma_flat_from_bounds(sh, c, i + 1);
        lemma_prod_head(sh.skip(i));
        assert(sh.skip(i)[0] == sh[i]);
        assert(sh.skip(i).skip(1) =~= sh.skip(i + 1));
        let d = sh[i] as int;
        let m = prod(sh.skip(i + 1));
        let ci = c[i] as int;
        let rest = flat_from(sh, c, i + 1);
        assert(0 <= ci * m + rest < d * m) by (nonlinear_arith)
            requires
                0 <= ci < d,
                0 <= rest < m,
        ;
    }
}

/// Flattening the coordinates of a valid position gives the position back;
/// stated from dimension `i` on, where the tail flattens the remainder.
pub proof fn lemma_flat_from_unflat(sh: Seq<usize>, q: int, i: int)
    requires
        0 <= q < prod(sh),
        0 <= i <= sh.len(),
        forall|k: int| 0 <= k < sh.len() ==> sh[k] >= 1,
    ensures
        flat_from(sh, unflat(sh, q), i) == q % prod(sh.skip(i)),
    decreases sh.len() - i,
{
    if i == sh.len() {
        assert(sh.skip(i) =~= Seq::<usize>::empty());
        assert(q % 1 == 0);
    } else {
        lemma_flat_from_unflat(sh, q, i + 1);
        lemma_prod_head(sh.skip(i));
        assert(sh.skip(i)[0] == sh[i]);
        assert(sh.skip(i).skip(1) =~= sh.skip(i + 1));
        let d = sh[i] as int;
        let m = prod(sh.skip(i + 1));
        lemma_prod_all_pos(sh.skip(i + 1));
        lemma_prod_all_pos(sh);
        vstd::arithmetic::div_mod::lemma_mod_breakdown(q, m, d);
        assert(q % (m * d) == m * ((q / m) % d) + q % m);
        assert(m * d == d * m) by (nonlinear_arith);
        assert(0 <= (q / m) % d < d);
        assert(unflat(sh, q)[i] == ((q / m) % d) as usize);
        assert(((q / m) % d) * m == m * ((q / m) % d)) by (nonlinear_arith);
        assert(q % prod(sh.skip(i)) == ((q / m) % d) * m + q % m);
    }
}

/// Top-level composition: `flat` undoes `unflat`.
pub proof fn lemma_flat_unflat(sh: Seq<usize>, q: int)
    requires
        0 <= q < prod(sh),
        forall|k: int| 0 <= k < sh.len() ==> sh[k] >= 1,
    ensures
        flat(sh, unflat(sh, q)) == q,
{
    lemma_flat_from_unflat(sh, q, 0);
    assert(sh.skip(0) =~= sh);
    vstd::arithmetic::div_mod::lemma_small_mod(q as nat, prod(sh) as nat);
}

/// The per-dimension strides of a shape: `r[i]` is the element count of the
/// dimensions after `i`.
pub fn strides_of(shape: &Vec<usize>) -> (r: Vec<usize>)
    requires
        prod(shape@) <= usize::MAX,
        forall|i: int| 0 <= i < shape@.len() ==> shape@[i] >= 1,
    ensures
        r@.len() == shape@.len(),
        forall|i: int| 0 <= i < r@.len() ==> r@[i] == prod(shape@.skip(i + 1)),
        forall|i: int| 0 <= i < r@.len() ==> #[trigger] r@[i] >= 1,
{
    let ghost s = shape@;
    let rank = shape.len();
    let mut r: Vec<usize> = Vec::new();
    let mut k: usize = 0;
    while k < rank
        invariant
            0 <= k <= rank,
            rank == s.len(),
            shape@ == s,
            r@.len() == k,
        decreases rank - k,
    {
        r.push(0);
        k += 1;
    }
    let mut acc: usize = 1;
    let mut i: usize = rank;
    proof {
        assert(s.skip(rank as int) =~= Seq::<usize>::empty());
        lemma_prod_all_pos(s);
    }
    while i > 0
        invariant
            0 <= i <= rank,
            rank == s.len(),
            shape@ == s,
            prod(s) <= usize::MAX,
            forall|k2: int| 0 <= k2 < s.len() ==> s[k2] >= 1,
            r@.len() == rank,
            acc == prod(s.skip(i as int)),
            acc >= 1,
            forall|k2: int| i <= k2 < rank ==> r@[k2] == prod(s.skip(k2 + 1)),
        decreases i,
    {
        i -= 1;
        r.set(i, acc);
        proof {
            lemma_prod_head(s.skip(i as int));
            assert(s.skip(i as int)[0] == s[i as int]);
            assert(s.skip(i as int).skip(1) =~= s.skip(i as int + 1));
            lemma_prod_split(s, i as int);
            lemma_prod_all_pos(s.take(i as int));
            lemma_prod_all_pos(s.skip(i as int));
            let a = prod(s.take(i as int));
            let b = prod(s.skip(i as int));
            assert(b <= a * b) by (nonlinear_arith)
                requires
                    a >= 1,
                    b >= 1,
            ;
        }
        acc = shape[i] * acc;
    }
    proof {
        assert forall|k2: int| 0 <= k2 < r@.len() implies #[trigger] r@[k2] >= 1 by {
            lemma_prod_all_pos(s.skip(k2 + 1));
        }
    }
    r
}

/// The coordinates of flat position `q`.
pub fn coords_of(shape: &Vec<usize>, strides: &Vec<usize>, q: usize) -> (c: Vec<usize>)
    requires
        prod(shape@) <= usize::MAX,
        forall|i: int| 0 <= i < shape@.len() ==> shape@[i] >= 1,
        strides@.len() == shape@.len(),
        forall|i: int| 0 <= i < strides@.len() ==> strides@[i] == prod(shape@.skip(i + 1)),
        q < prod(shape@),
    ensures
        c@ == unflat(shape@, q as int),
        forall|i: int| 0 <= i < c@.len() ==> #[trigger] c@[i] < shape@[i],
{
    let ghost s = shape@;
    let rank = shape.len();
    let mut c: Vec<usize> = Vec::new();
    let mut rem: usize = q;
    let mut i: usize = 0;
    proof {
        assert(s.skip(0) =~= s);
        lemma_prod_all_pos(s);
        vstd::arithmetic::div_mod::lemma_small_mod(q as nat, prod(s) as nat);
    }
    while i < rank
        invariant
            0 <= i <= rank,
            rank == s.len(),
            shape@ == s,
            strides@.len() == s.len(),
            forall|k: int| 0 <= k < strides@.len() ==> strides@[k] == prod(s.skip(k + 1)),
            forall|k: int| 0 <= k < s.len() ==> s[k] >= 1,
            q < prod(s),
            prod(s) <= usize::MAX,
            rem == (q as int) % prod(s.skip(i as int)),
            c@.len() == i,
            forall|k: int| 0 <= k < i ==> c@[k] == unflat(s, q as int)[k],
        decreases rank - i,
    {
        proof {
            lemma_prod_all_pos(s.skip(i as int + 1));
            lemma_prod_all_pos(s.skip(i as int));
            lemma_prod_head(s.skip(i as int));
            assert(s.skip(i as int)[0] == s[i as int]);
            assert(s.skip(i as int).skip(1) =~= s.skip(i as int + 1));
            let d = s[i as int] as int;
            let m = prod(s.skip(i as int + 1));
            vstd::arithmetic::div_mod::lemma_mod_breakdown(q as int, m, d);
            assert(m * d == d * m) by (nonlinear_arith);
            assert(rem == m * (((q as int) / m) % d) + (q as int) % m);
            assert(0 <= ((q as int) / m) % d < d);
            assert(0 <= (q as int) % m < m);
            lemma_index2(((q as int) / m) % d, (q as int) % m, m);
            assert(m * (((q as int) / m) % d) == (((q as int) / m) % d) * m)
                by (nonlinear_arith);
            assert((rem as int) / m == ((q as int) / m) % d);
            assert((rem as int) % m == (q as int) % m);
        }
        let ci = rem / strides[i];
        rem = rem % strides[i];
        c.push(ci);
        i += 1;
    }
    proof {
        assert(c@ =~= unflat(s, q as int));
        lemma_unflat_bounds(s, q as int);
    }
    c
}

/// The flat position of a coordinate vector.
pub fn flat_of(shape: &Vec<usize>, strides: &Vec<usize>, coords: &Vec<usize>) -> (r: usize)
    requires
        prod(shape@) <= usize::MAX,
        forall|i: int| 0 <= i < shape@.len() ==> shape@[i] >= 1,
        strides@.len() == shape@.len(),
        forall|i: int| 0 <= i < strides@.len() ==> strides@[i] == prod(shape@.skip(i + 1)),
        coords@.len() == shape@.len(),
        forall|i: int| 0 <= i < coords@.len() ==> #[trigger] coords@[i] < shape@[i],
    ensures
        r == flat(shape@, coords@),
        r < prod(shape@),
{
    let ghost s = shape@;
    let ghost cs = coords@;
    let rank = shape.len();
    let mut acc: usize = 0;
    let mut i: usize = 0;
    proof {
        lemma_flat_from_bounds(s, cs, 0);
        assert(s.skip(0) =~= s);
    }
    while i < rank
        invariant
            0 <= i <= rank,
            rank == s.len(),
            shape@ == s,
            coords@ == cs,
            strides@.len() == s.len(),
            forall|k: int| 0 <= k < strides@.len() ==> strides@[k] == prod(s.skip(k + 1)),
            forall|k: int| 0 <= k < s.len() ==> s[k] >= 1,
            forall|k: int| 0 <= k < cs.len() ==> #[trigger] cs[k] < s[k],
            cs.len() == s.len(),
            prod(s) <= usize::MAX,
            acc + flat_from(s, cs, i as int) == flat(s, cs),
            0 <= flat(s, cs) < prod(s),
            acc <= flat(s, cs),
        decreases rank - i,
    {
        proof {
            lemma_flat_from_bounds(s, cs, i as int + 1);
            lemma_prod_all_pos(s.skip(i as int + 1));
            let m = prod(s.skip(i as int + 1));
            let ci = cs[i as int] as int;
            assert(flat_from(s, cs, i as int) == ci * m + flat_from(s, cs, i as int + 1));
            assert(ci * m >= 0) by (nonlinear_arith)
                requires
                    ci >= 0,
                    m >= 0,
            ;
        }
        acc = acc + coords[i] * strides[i];
        i += 1;
    }
    acc
}

/// Shape of a slice: each ranged dimension shrinks to the range's width,
/// the rest keep their extent.
pub open spec fn slice_shape(sh: Seq<usize>, rg: Seq<(usize, usize)>) -> Seq<usize> {
    Seq::new(
        sh.len(),
        |i: int|
            if i < rg.len() {
                (rg[i].1 - rg[i].0) as usize
            } else {
                sh[i]
            },
    )
}

/// Start offset of a dimension under the ranges (zero past their end).
pub open spec fn start_of(rg: Seq<(usize, usize)>, i: int) -> usize {
    if 0 <= i < rg.len() {
        rg[i].0
    } else {
        0
    }
}

/// Slice coordinates moved up into the source tensor.
pub open spec fn shift_up(c: Seq<usize>, rg: Seq<(usize, usize)>) -> Seq<usize> {
    Seq::new(c.len(), |i: int| (c[i] + start_of(rg, i)) as usize)
}

/// Source coordinates moved down into the slice.
pub open spec fn shift_down(c: Seq<usize>, rg: Seq<(usize, usize)>) -> Seq<usize> {
    Seq::new(c.len(), |i: int| (c[i] - start_of(rg, i)) as usize)
}

/// Whether the coordinates of flat position `q` lie inside the ranged box.
pub open spec fn in_box(sh: Seq<usize>, rg: Seq<(usize, usize)>, q: int) -> bool {
    forall|j: int| 0 <= j < rg.len() ==> rg[j].0 <= #[trigger] unflat(sh, q)[j] < rg[j].1
}

/// A shape that is pointwise at most another has at most its element count.
pub proof fn lemma_prod_le_all(a: Seq<usize>, b: Seq<usize>)
    requires
        a.len() == b.len(),
        forall|i: int| 0 <= i < a.len() ==> a[i] <= #[trigger] b[i],
    ensures
        prod(a) <= prod(b),
    decreases a.len(),
{
    if a.len() > 0 {
        lemma_prod_le_all(a.drop_last(), b.drop_last());
        crate::shape::lemma_prod_nonneg(a.drop_last());
        crate::shape::lemma_prod_nonneg(b.drop_last());
        let pa = prod(a.drop_last());
        let pb = prod(b.drop_last());
        let xa = a.last() as int;
        let xb = b.last() as int;
        assert(pa * xa <= pb * xb) by (nonlinear_arith)
            requires
                0 <= pa <= pb,
                0 <= xa <= xb,
        ;
    }
}

/// Swapping two entries of a coordinate vector (or of a shape).
pub open spec fn swap2(c: Seq<usize>, d1: int, d2: int) -> Seq<usize> {
    c.update(d1, c[d2]).update(d2, c[d1])
}

/// The element count is unchanged by swapping two dimensions.
pub proof fn lemma_prod_swap(s: Seq<usize>, d1: int, d2: int)
    requires
        0 <= d1 < s.len(),
        0 <= d2 < s.len(),
    ensures
        prod(swap2(s, d1, d2)) == prod(s),
    decreases s.len(),
{
    if d1 == d2 {
        assert(swap2(s, d1, d2) =~= s);
    } else if d1 < d2 {
        lemma_prod_swap_ordered(s, d1, d2);
    } else {
        assert(swap2(s, d1, d2) =~= swap2(s, d2, d1));
        lemma_prod_swap_ordered(s, d2, d1);
    }
}

proof fn lemma_prod_swap_ordered(s: Seq<usize>, d1: int, d2: int)
    requires
        0 <= d1 < d2 < s.len(),
    ensures
        prod(swap2(s, d1, d2)) == prod(s),
{
    let u = swap2(s, d1, d2);
    lemma_prod_split(s, d1);
    lemma_prod_head(s.skip(d1));
    lemma_prod_split(u, d1);
    lemma_prod_head(u.skip(d1));
    assert(u.take(d1) =~= s.take(d1));
    let t1 = s.skip(d1).skip(1);
    let t2 = u.skip(d1).skip(1);
    assert(t1 =~= s.skip(d1 + 1));
    assert(t2 =~= u.skip(d1 + 1));
    let e = d2 - d1 - 1;
    lemma_prod_split(s.skip(d1 + 1), e);
    lemma_prod_head(s.skip(d1 + 1).skip(e));
    lemma_prod_split(u.skip(d1 + 1), e);
    lemma_prod_head(u.skip(d1 + 1).skip(e));
    assert(u.skip(d1 + 1).take(e) =~= s.skip(d1 + 1).take(e));
    assert(u.skip(d1 + 1).skip(e).skip(1) =~= s.skip(d1 + 1).skip(e).skip(1));
    let a = prod(s.take(d1));
    let x = s[d1] as int;
    let b = prod(s.skip(d1 + 1).take(e));
    let y = s[d2] as int;
    let c = prod(s.skip(d1 + 1).skip(e).skip(1));
    assert(s.skip(d1)[0] == s[d1]);
    assert(u.skip(d1)[0] == s[d2]);
    assert(s.skip(d1 + 1).skip(e)[0] == s[d2]);
    assert(u.skip(d1 + 1).skip(e)[0] == s[d1]);
    assert(prod(s) == a * (x * (b * (y * c))));
    assert(prod(u) == a * (y * (b * (x * c))));
    assert(a * (x * (b * (y * c))) == a * (y * (b * (x * c)))) by (nonlinear_arith);
}

impl Tensor {
    /// Exchange two dimensions; an index remap, no arithmetic on elements.
    pub fn swap_dims(&self, d1: usize, d2: usize) -> (r: Tensor)
        requires
            self.wf(),
            d1 < self@.shape.len(),
            d2 < self@.shape.len(),
        ensures
            r.wf(),
            r@.shape == swap2(self@.shape, d1 as int, d2 as int),
            r@.data.len() == self@.data.len(),
            forall|q: int| 0 <= q < r@.data.len() ==> r@.data[q] == self@.data[flat(
                self@.shape,
                swap2(unflat(swap2(self@.shape, d1 as int, d2 as int), q), d1 as int, d2 as int),
            )],
    {
        let ghost s = self@.shape;
        let ghost osh = swap2(s, d1 as int, d2 as int);
        let mut new_shape = copy_shape(&self.shape);
        let sd1 = self.shape[d1];
        let sd2 = self.shape[d2];
        new_shape.set(d1, sd2);
        new_shape.set(d2, sd1);
        proof {
            assert(new_shape@ =~= osh);
            lemma_prod_swap(s, d1 as int, d2 as int);
        }
        if has_zero_dim(&self.shape) {
            let data: Vec<i64> = Vec::new();
            let r = Tensor { shape: new_shape, data };
            return r;
        }
        let total = self.data.len();
        proof {
            assert(prod(s) <= usize::MAX);
            assert forall|i: int| 0 <= i < osh.len() implies osh[i] >= 1 by {
                assert(osh[i] == s[i] || osh[i] == s[d1 as int] || osh[i] == s[d2 as int]);
            }
        }
        let in_strides = strides_of(&self.shape);
        let out_strides = strides_of(&new_shape);
        let mut data: Vec<i64> = Vec::new();
        let mut q: usize = 0;
        while q < total
            invariant
                0 <= q <= total,
                self.wf(),
                s == self@.shape,
                osh == new_shape@,
                osh == swap2(s, d1 as int, d2 as int),
                d1 < s.len(),
                d2 < s.len(),
                total == self@.data.len(),
                prod(s) <= usize::MAX,
                prod(osh) == prod(s),
                forall|i: int| 0 <= i < s.len() ==> s[i] >= 1,
                forall|i: int| 0 <= i < osh.len() ==> osh[i] >= 1,
                in_strides@.len() == s.len(),
                forall|k: int| 0 <= k < in_strides@.len() ==> in_strides@[k] == prod(
                    s.skip(k + 1),
                ),
                out_strides@.len() == osh.len(),
                forall|k: int| 0 <= k < out_strides@.len() ==> out_strides@[k] == prod(
                    osh.skip(k + 1),
                ),
                data@.len() == q,
                forall|p: int| 0 <= p < q ==> data@[p] == self@.data[flat(
                    s,
                    swap2(unflat(osh, p), d1 as int, d2 as int),
                )],
            decreases total - q,
        {
            let c = coords_of(&new_shape, &out_strides, q);
            let mut cin = copy_shape(&c);
            let c1 = c[d1];
            let c2 = c[d2];
            cin.set(d1, c2);
            cin.set(d2, c1);
            proof {
                assert(cin@ =~= swap2(unflat(osh, q as int), d1 as int, d2 as int));
                assert forall|i: int| 0 <= i < cin@.len() implies #[trigger] cin@[i] < s[i] by {
                    if i == d1 {
                        assert(cin@[i] == c@[d2 as int]);
                        assert(osh[d2 as int] == s[d1 as int]);
                    } else if i == d2 {
                        assert(cin@[i] == c@[d1 as int]);
                        assert(osh[d1 as int] == s[d2 as int]);
                    } else {
                        assert(osh[i] == s[i]);
                    }
                }
            }
            let src = flat_of(&self.shape, &in_strides, &cin);
            data.push(self.data[src]);
            q += 1;
        }
        let r = Tensor { shape: new_shape, data };
        r
    }

    /// Slice by one range per leading dimension.
    pub fn index(&self, ranges: &Vec<(usize, usize)>) -> (r: Tensor)
        requires
            self.wf(),
            ranges@.len() <= self@.shape.len(),
            forall|i: int| 0 <= i < ranges@.len() ==> #[trigger] ranges@[i].0 <= ranges@[i].1
                && ranges@[i].1 <= self@.shape[i],
        ensures
            r.wf(),
            r@.shape == slice_shape(self@.shape, ranges@),
            forall|q: int| 0 <= q < r@.data.len() ==> r@.data[q] == self@.data[flat(
                self@.shape,
                shift_up(unflat(slice_shape(self@.shape, ranges@), q), ranges@),
            )],
    {
        let ghost s = self@.shape;
        let ghost rg = ranges@;
        let ghost osh = slice_shape(s, rg);
        let rank = self.shape.len();
        let nr = ranges.len();
        let mut new_shape: Vec<usize> = Vec::new();
        let mut i: usize = 0;
        while i < rank
            invariant
                0 <= i <= rank,
                rank == s.len(),
                nr == rg.len(),
                nr <= rank,
                self@.shape == s,
                ranges@ == rg,
                forall|k: int| 0 <= k < rg.len() ==> #[trigger] rg[k].0 <= rg[k].1 && rg[k].1
                    <= s[k],
                osh == slice_shape(s, rg),
                new_shape@.len() == i,
                forall|k: int| 0 <= k < i ==> new_shape@[k] == osh[k],
            decreases rank - i,
        {
            if i < nr {
                let (lo, hi) = ranges[i];
                new_shape.push(hi - lo);
            } else {
                new_shape.push(self.shape[i]);
            }
            i += 1;
        }
        proof {
            assert(new_shape@ =~= osh);
        }
        if has_zero_dim(&new_shape) {
            let data: Vec<i64> = Vec::new();
            let r = Tensor { shape: new_shape, data };
            return r;
        }
        // every output extent is positive, so every input extent is too
        proof {
            assert forall|k: int| 0 <= k < s.len() implies s[k] >= 1 by {
                assert(osh[k] >= 1);
                if k < rg.len() {
                    assert(osh[k] == rg[k].1 - rg[k].0);
                }
            }
            lemma_prod_all_pos(s);
        }
        let total_in = self.data.len();
        proof {
            assert(prod(s) <= usize::MAX);
            lemma_prod_le_all(osh, s);
        }
        let in_strides = strides_of(&self.shape);
        let out_strides = strides_of(&new_shape);
        let total = crate::shape::num_elems(&new_shape);
        let mut data: Vec<i64> = Vec::new();
        let mut q: usize = 0;
        while q < total
            invariant
                0 <= q <= total,
                self.wf(),
                s == self@.shape,
                rg == ranges@,
                osh == new_shape@,
                osh == slice_shape(s, rg),
                rank == s.len(),
                nr == rg.len(),
                nr <= rank,
                total == prod(osh),
                prod(s) <= usize::MAX,
                prod(osh) <= usize::MAX,
                forall|k: int| 0 <= k < rg.len() ==> #[trigger] rg[k].0 <= rg[k].1 && rg[k].1
                    <= s[k],
                forall|k: int| 0 <= k < s.len() ==> s[k] >= 1,
                forall|k: int| 0 <= k < osh.len() ==> osh[k] >= 1,
                in_strides@.len() == s.len(),
                forall|k: int| 0 <= k < in_strides@.len() ==> in_strides@[k] == prod(
                    s.skip(k + 1),
                ),
                out_strides@.len() == osh.len(),
                forall|k: int| 0 <= k < out_strides@.len() ==> out_strides@[k] == prod(
                    osh.skip(k + 1),
                ),
                data@.len() == q,
                forall|p: int| 0 <= p < q ==> data@[p] == self@.data[flat(
                    s,
                    shift_up(unflat(osh, p), rg),
                )],
            decreases total - q,
        {
            let c = coords_of(&new_shape, &out_strides, q);
            let mut cin: Vec<usize> = Vec::new();
            let mut k: usize = 0;
            while k < rank
                invariant
                    0 <= k <= rank,
                    rank == s.len(),
                    nr == rg.len(),
                    nr <= rank,
                    ranges@ == rg,
                    forall|j: int| 0 <= j < rg.len() ==> #[trigger] rg[j].0 <= rg[j].1 && rg[j].1
                        <= s[j],
                    c@.len() == rank,
                    forall|j: int| 0 <= j < c@.len() ==> #[trigger] c@[j] < osh[j],
                    osh == slice_shape(s, rg),
                    cin@.len() == k,
                    forall|j: int| 0 <= j < k ==> cin@[j] == shift_up(c@, rg)[j],
                    forall|j: int| 0 <= j < k ==> #[trigger] cin@[j] < s[j],
                decreases rank - k,
            {
                if k < nr {
                    let (lo, _hi) = ranges[k];
                    proof {
                        assert(c@[k as int] < osh[k as int]);
                        assert(osh[k as int] == rg[k as int].1 - rg[k as int].0);
                    }
                    cin.push(c[k] + lo);
                } else {
                    proof {
                        assert(osh[k as int] == s[k as int]);
                    }
                    cin.push(c[k]);
                }
                k += 1;
            }
            proof {
                assert(cin@ =~= shift_up(c@, rg));
            }
            let src = flat_of(&self.shape, &in_strides, &cin);
            data.push(self.data[src]);
            q += 1;
        }
        let r = Tensor { shape: new_shape, data };
        r
    }

    /// Write a value tensor into the slice named by the ranges, leaving the
    /// rest unchanged.
    pub fn index_assign(&self, ranges: &Vec<(usize, usize)>, value: &Tensor) -> (r: Tensor)
        requires
            self.wf(),
            value.wf(),
            ranges@.len() <= self@.shape.len(),
            forall|i: int| 0 <= i < ranges@.len() ==> #[trigger] ranges@[i].0 <= ranges@[i].1
                && ranges@[i].1 <= self@.shape[i],
            value@.shape == slice_shape(self@.shape, ranges@),
        ensures
            r.wf(),
            r@.shape == self@.shape,
            r@.data.len() == self@.data.len(),
            forall|q: int| 0 <= q < r@.data.len() ==> r@.data[q] == (if in_box(
                self@.shape,
                ranges@,
                q,
            ) {
                value@.data[flat(
                    slice_shape(self@.shape, ranges@),
                    shift_down(unflat(self@.shape, q), ranges@),
                )]
            } else {
                self@.data[q]
            }),
    {
        let ghost s = self@.shape;
        let ghost rg = ranges@;
        let ghost vsh = slice_shape(s, rg);
        let rank = self.shape.len();
        let nr = ranges.len();
        if has_zero_dim(&self.shape) {
            let r = self.dup();
            return r;
        }
        proof {
            lemma_prod_all_pos(s);
        }
        let total = self.data.len();
        proof {
            assert(prod(s) <= usize::MAX);
        }
        if has_zero_dim(&value.shape) {
            // some range is empty, so no position lies inside the box
            let r = self.dup();
            proof {
                let zi = choose|i: int| 0 <= i < vsh.len() && vsh[i] == 0;
                assert forall|q: int| 0 <= q < r@.data.len() implies !in_box(s, rg, q) by {
                    if in_box(s, rg, q) {
                        assert(zi < rg.len()) by {
                            if zi >= rg.len() {
                                assert(vsh[zi] == s[zi]);
                            }
                        }
                        assert(rg[zi].0 <= unflat(s, q)[zi] < rg[zi].1);
                        assert(vsh[zi] == rg[zi].1 - rg[zi].0);
                    }
                }
            }
            return r;
        }
        let vtotal = value.data.len();
        proof {
            assert(prod(vsh) <= usize::MAX);
        }
        let in_strides = strides_of(&self.shape);
        let v_strides = strides_of(&value.shape);
        let mut data: Vec<i64> = Vec::new();
        let mut q: usize = 0;
        while q < total
            invariant
                0 <= q <= total,
                self.wf(),
                value.wf(),
                s == self@.shape,
                rg == ranges@,
                vsh == value@.shape,
                vsh == slice_shape(s, rg),
                rank == s.len(),
                nr == rg.len(),
                nr <= rank,
                total == self@.data.len(),
                total == prod(s),
                prod(s) <= usize::MAX,
                forall|k: int| 0 <= k < rg.len() ==> #[trigger] rg[k].0 <= rg[k].1 && rg[k].1
                    <= s[k],
                forall|k: int| 0 <= k < s.len() ==> s[k] >= 1,
                forall|k: int| 0 <= k < vsh.len() ==> vsh[k] >= 1,
                prod(vsh) <= usize::MAX,
                in_strides@.len() == s.len(),
                forall|k: int| 0 <= k < in_strides@.len() ==> in_strides@[k] == prod(
                    s.skip(k + 1),
                ),
                v_strides@.len() == vsh.len(),
                forall|k: int| 0 <= k < v_strides@.len() ==> v_strides@[k] == prod(
                    vsh.skip(k + 1),
                ),
                data@.len() == q,
                forall|p: int| 0 <= p < q ==> data@[p] == (if in_box(s, rg, p) {
                    value@.data[flat(vsh, shift_down(unflat(s, p), rg))]
                } else {
                    self@.data[p]
                }),
            decreases total - q,
        {
            let c = coords_of(&self.shape, &in_strides, q);
            let mut inside = true;
            let mut k: usize = 0;
            while k < nr
                invariant
                    0 <= k <= nr,
                    nr == rg.len(),
                    nr <= rank,
                    rank == s.len(),
                    ranges@ == rg,
                    c@ == unflat(s, q as int),
                    c@.len() == rank,
                    0 <= q < prod(s),
                    inside == forall|j: int| 0 <= j < k ==> rg[j].0 <= #[trigger] unflat(
                        s,
                        q as int,
                    )[j] < rg[j].1,
                decreases nr - k,
            {
                let (lo, hi) = ranges[k];
                let ck = c[k];
                if !(lo <= ck && ck < hi) {
                    proof {
                        assert(!(rg[k as int].0 <= unflat(s, q as int)[k as int] < rg[
                            k as int].1));
                    }
                    inside = false;
                }
                k += 1;
            }
            if inside {
                proof {
                    assert(in_box(s, rg, q as int));
                }
                let mut vc: Vec<usize> = Vec::new();
                let mut k2: usize = 0;
                while k2 < rank
                    invariant
                        0 <= k2 <= rank,
                        rank == s.len(),
                        nr == rg.len(),
                        nr <= rank,
                        ranges@ == rg,
                        c@ == unflat(s, q as int),
                        c@.len() == rank,
                        0 <= q < prod(s),
                        in_box(s, rg, q as int),
                        forall|j: int| 0 <= j < c@.len() ==> #[trigger] c@[j] < s[j],
                        vsh == slice_shape(s, rg),
                        forall|j: int| 0 <= j < rg.len() ==> #[trigger] rg[j].0 <= rg[j].1
                            && rg[j].1 <= s[j],
                        vc@.len() == k2,
                        forall|j: int| 0 <= j < k2 ==> vc@[j] == shift_down(c@, rg)[j],
                        forall|j: int| 0 <= j < k2 ==> #[trigger] vc@[j] < vsh[j],
                    decreases rank - k2,
                {
                    if k2 < nr {
                        let (lo, hi) = ranges[k2];
                        proof {
                            assert(rg[k2 as int].0 <= unflat(s, q as int)[k2 as int] < rg[
                                k2 as int].1);
                        }
                        vc.push(c[k2] - lo);
                    } else {
                        vc.push(c[k2]);
                    }
                    k2 += 1;
                }
                proof {
                    assert(vc@ =~= shift_down(c@, rg));
                }
                let vsrc = flat_of(&value.shape, &v_strides, &vc);
                data.push(value.data[vsrc]);
            } else {
                data.push(self.data[q]);
            }
            q += 1;
        }
        let r = Tensor { shape: copy_shape(&self.shape), data };
        r
    }

    /// Exchange the last two dimensions.
    pub fn transpose(&self) -> (r: Tensor)
        requires
            self.wf(),
            self@.shape.len() >= 2,
        ensures
            r.wf(),
            r@.shape == swap2(
                self@.shape,
                self@.shape.len() - 2,
                self@.shape.len() - 1,
            ),
            r@.data.len() == self@.data.len(),
            forall|q: int| 0 <= q < r@.data.len() ==> r@.data[q] == self@.data[flat(
                self@.shape,
                swap2(
                    unflat(
                        swap2(self@.shape, self@.shape.len() - 2, self@.shape.len() - 1),
                        q,
                    ),
                    self@.shape.len() - 2,
                    self@.shape.len() - 1,
                ),
            )],
    {
        let rank = self.shape.len();
        self.swap_dims(rank - 2, rank - 1)
    }
}

} // verus!
