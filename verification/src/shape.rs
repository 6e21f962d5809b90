//! Shapes of dense tensors, flat-index arithmetic, and the lemmas that relate
//! multi-dimensional coordinates to positions in the flat element buffer.

use vstd::prelude::*;

verus! {

/// Number of elements of a tensor with the given dimensions.
pub open spec fn prod(s: Seq<usize>) -> int
    decreases s.len(),
{
    if s.len() == 0 {
        1
    } else {
        prod(s.drop_last()) * (s.last() as int)
    }
}

pub proof fn lemma_prod_nonneg(s: Seq<usize>)
    ensures
        prod(s) >= 0,
    decreases s.len(),
{
    if s.len() > 0 {
        lemma_prod_nonneg(s.drop_last());
        assert(prod(s.drop_last()) * (s.last() as int) >= 0) by (nonlinear_arith)
            requires
                prod(s.drop_last()) >= 0,
                s.last() as int >= 0,
        ;
    }
}

pub proof fn lemma_prod_all_pos(s: Seq<usize>)
    requires
        forall|i: int| 0 <= i < s.len() ==> s[i] >= 1,
    ensures
        prod(s) >= 1,
    decreases s.len(),
{
    if s.len() > 0 {
        lemma_prod_all_pos(s.drop_last());
        assert(prod(s.drop_last()) * (s.last() as int) >= 1) by (nonlinear_arith)
            requires
                prod(s.drop_last()) >= 1,
                s.last() as int >= 1,
        ;
    }
}

pub proof fn lemma_prod_zero_dim(s: Seq<usize>, i: int)
    requires
        0 <= i < s.len(),
        s[i] == 0,
    ensures
        prod(s) == 0,
    decreases s.len(),
{
    if i == s.len() - 1 {
        assert(prod(s.drop_last()) * 0 == 0) by (nonlinear_arith);
    } else {
        lemma_prod_zero_dim(s.drop_last(), i);
        assert(0 * (s.last() as int) == 0) by (nonlinear_arith);
    }
}

/// Splitting a shape at position `i` splits its element count into a product.
pub proof fn lemma_prod_split(s: Seq<usize>, i: int)
    requires
        0 <= i <= s.len(),
    ensures
        prod(s) == prod(s.take(i)) * prod(s.skip(i)),
    decreases s.len() - i,
{
    if i == s.len() {
        assert(s.take(i) =~= s);
        assert(s.skip(i) =~= Seq::<usize>::empty());
        assert(prod(s) * 1 == prod(s));
    } else {
        lemma_prod_split(s, i + 1);
        assert(s.take(i + 1).drop_last() =~= s.take(i));
        assert(s.take(i + 1).last() == s[i]);
        // prod(take(i+1)) == prod(take(i)) * s[i]
        let a = prod(s.take(i));
        let b = s[i] as int;
        let c = prod(s.skip(i + 1));
        assert(s.skip(i)[0] == s[i]);
        assert(s.skip(i).skip(1) =~= s.skip(i + 1));
        lemma_prod_head(s.skip(i));
        assert((a * b) * c == a * (b * c)) by (nonlinear_arith);
    }
}

/// Element count of a nonempty shape, peeled at the head.
pub proof fn lemma_prod_head(s: Seq<usize>)
    requires
        s.len() > 0,
    ensures
        prod(s) == (s[0] as int) * prod(s.skip(1)),
    decreases s.len(),
{
    if s.len() == 1 {
        assert(s.drop_last() =~= Seq::<usize>::empty());
        assert(s.skip(1) =~= Seq::<usize>::empty());
    } else {
        lemma_prod_head(s.drop_last());
        assert(s.drop_last()[0] == s[0]);
        assert(s.drop_last().skip(1) =~= s.skip(1).drop_last());
        assert(s.skip(1).last() == s.last());
        let h = s[0] as int;
        let m = prod(s.skip(1).drop_last());
        let t = s.last() as int;
        assert((h * m) * t == h * (m * t)) by (nonlinear_arith);
    }
}

/// A one-entry change of one dimension to 1 never grows the element count.
pub proof fn lemma_prod_set_dim_one(s: Seq<usize>, d: int)
    requires
        0 <= d < s.len(),
        s[d] >= 1,
    ensures
        prod(s.update(d, 1)) * (s[d] as int) == prod(s),
        prod(s.update(d, 1)) <= prod(s),
{
    let u = s.update(d, 1);
    lemma_prod_split(s, d);
    lemma_prod_split(u, d);
    lemma_prod_head(s.skip(d));
    lemma_prod_head(u.skip(d));
    assert(u.take(d) =~= s.take(d));
    assert(u.skip(d).skip(1) =~= s.skip(d).skip(1));
    let a = prod(s.take(d));
    let b = s[d] as int;
    let c = prod(s.skip(d).skip(1));
    assert(u.skip(d)[0] == 1);
    assert(prod(u) == a * (1 * c));
    assert(prod(s) == a * (b * c));
    lemma_prod_nonneg(s.take(d));
    lemma_prod_nonneg(s.skip(d).skip(1));
    assert((a * (1 * c)) * b == a * (b * c) && (b >= 1 && a >= 0 && c >= 0 ==> a * (1 * c) <= a * (
    b * c))) by (nonlinear_arith);
}

/// Compute the element count of a shape.
pub fn num_elems(shape: &Vec<usize>) -> (n: usize)
    requires
        prod(shape@) <= usize::MAX,
    ensures
        n == prod(shape@),
{
    let ghost s = shape@;
    let mut has_zero = false;
    let mut k: usize = 0;
    while k < shape.len()
        invariant
            0 <= k <= s.len(),
            shape@ == s,
            has_zero ==> prod(s) == 0,
            !has_zero ==> forall|i: int| 0 <= i < k ==> s[i] >= 1,
        decreases s.len() - k,
    {
        if shape[k] == 0 {
            proof {
                lemma_prod_zero_dim(s, k as int);
            }
            has_zero = true;
        }
        k += 1;
    }
    if has_zero {
        return 0;
    }
    proof {
        lemma_prod_all_pos(s);
    }
    let mut acc: usize = 1;
    let mut i: usize = 0;
    while i < shape.len()
        invariant
            0 <= i <= s.len(),
            shape@ == s,
            prod(s) <= usize::MAX,
            forall|j: int| 0 <= j < s.len() ==> s[j] >= 1,
            acc == prod(s.take(i as int)),
            prod(s) >= 1,
        decreases s.len() - i,
    {
        proof {
            lemma_prod_split(s, i as int);
            lemma_prod_head(s.skip(i as int));
            assert(s.skip(i as int)[0] == s[i as int]);
            lemma_prod_all_pos(s.skip(i as int).skip(1));
            lemma_prod_all_pos(s.take(i as int));
            // acc * s[i] is bounded by prod(s)
            let a = acc as int;
            let b = s[i as int] as int;
            let c = prod(s.skip(i as int).skip(1));
            assert(a * b <= (a * b) * c && a * (b * c) == (a * b) * c) by (nonlinear_arith)
                requires
                    a >= 1,
                    b >= 1,
                    c >= 1,
            ;
            assert(s.take(i as int + 1).drop_last() =~= s.take(i as int));
            assert(s.take(i as int + 1).last() == s[i as int]);
        }
        acc = acc * shape[i];
        i += 1;
    }
    proof {
        assert(s.take(s.len() as int) =~= s);
    }
    acc
}

/// Inverting the composition of a coordinate pair into a flat index.
pub proof fn lemma_index2(a: int, b: int, m: int)
    requires
        0 <= a,
        0 <= b < m,
    ensures
        (a * m + b) / m == a,
        (a * m + b) % m == b,
{
    vstd::arithmetic::div_mod::lemma_fundamental_div_mod_converse(a * m + b, m, a, b);
}

/// A three-way coordinate `(a, j, b)` with middle extent `dim` and inner
/// extent `inner` packs into a flat index below `outer * dim * inner`.
pub proof fn lemma_index3_bound(a: int, j: int, b: int, outer: int, dim: int, inner: int)
    requires
        0 <= a < outer,
        0 <= j < dim,
        0 <= b < inner,
    ensures
        0 <= a * (dim * inner) + j * inner + b,
        a * (dim * inner) + j * inner + b < outer * (dim * inner),
        a * (dim * inner) + j * inner + b == (a * dim + j) * inner + b,
        0 <= a * (dim * inner),
        0 <= j * inner,
        a * (dim * inner) <= a * (dim * inner) + j * inner + b,
        a * (dim * inner) + j * inner <= a * (dim * inner) + j * inner + b,
{
    assert(0 <= a * (dim * inner) && 0 <= j * inner && a * (dim * inner) + j * inner + b < outer
        * (dim * inner) && a * (dim * inner) + j * inner + b == (a * dim + j) * inner + b)
        by (nonlinear_arith)
        requires
            0 <= a < outer,
            0 <= j < dim,
            0 <= b < inner,
    ;
}

/// Recover the three-way coordinate from a flat index.
pub proof fn lemma_index3_inverse(a: int, j: int, b: int, dim: int, inner: int)
    requires
        0 <= a,
        0 <= j < dim,
        0 <= b < inner,
    ensures
        (a * (dim * inner) + j * inner + b) / (dim * inner) == a,
        ((a * (dim * inner) + j * inner + b) / inner) % dim == j,
        (a * (dim * inner) + j * inner + b) % inner == b,
{
    let q = a * (dim * inner) + j * inner + b;
    assert(q == (a * dim + j) * inner + b) by (nonlinear_arith)
        requires
            q == a * (dim * inner) + j * inner + b,
    ;
    assert(0 <= a * dim + j) by (nonlinear_arith)
        requires
            0 <= a,
            0 <= j < dim,
    ;
    assert(dim * inner > 0 && j * inner + b < dim * inner) by (nonlinear_arith)
        requires
            0 <= j < dim,
            0 <= b < inner,
    ;
    lemma_index2(a * dim + j, b, inner);
    lemma_index2(a, j * inner + b, dim * inner);
    assert((q / inner) % dim == j) by {
        assert(q / inner == a * dim + j);
        lemma_index2(a, j, dim);
    }
}

} // verus!
