//! Row-major index arithmetic over shapes of any rank.
use vstd::arithmetic::div_mod::{
    lemma_div_pos_is_pos, lemma_fundamental_div_mod, lemma_fundamental_div_mod_converse,
    lemma_mod_bound,
};
use vstd::arithmetic::mul::{lemma_mul_inequality, lemma_mul_nonnegative};
use vstd::prelude::*;

verus! {

/// Number of cells of an array of the given shape.
pub open spec fn size(shape: Seq<usize>) -> int
    decreases shape.len(),
{
    if shape.len() == 0 {
        1
    } else {
        size(shape.drop_last()) * shape.last()
    }
}

/// The entries of a sequence of machine integers, as mathematical integers.
pub open spec fn ints(s: Seq<usize>) -> Seq<int> {
    s.map_values(|x: usize| x as int)
}

/// `idx` is a multi-index that addresses a cell of an array of shape `shape`.
pub open spec fn in_bounds(shape: Seq<usize>, idx: Seq<int>) -> bool {
    &&& idx.len() == shape.len()
    &&& forall|i: int| 0 <= i < idx.len() ==> 0 <= #[trigger] idx[i] < shape[i]
}

/// Row-major flat position of a multi-index: the last axis varies fastest.
pub open spec fn ravel(shape: Seq<usize>, idx: Seq<int>) -> int
    decreases idx.len(),
{
    if idx.len() == 0 {
        0
    } else {
        ravel(shape.drop_last(), idx.drop_last()) * shape.last() + idx.last()
    }
}

/// Row-major multi-index of a flat position.
pub open spec fn unravel(shape: Seq<usize>, f: int) -> Seq<int>
    decreases shape.len(),
{
    if shape.len() == 0 {
        seq![]
    } else {
        unravel(shape.drop_last(), f / (shape.last() as int)).push(f % (shape.last() as int))
    }
}

/// Pointwise sum of two multi-indices.
pub open spec fn add_idx(a: Seq<int>, b: Seq<int>) -> Seq<int> {
    Seq::new(a.len(), |i: int| a[i] + b[i])
}

pub proof fn lemma_unravel_len(shape: Seq<usize>, f: int)
    ensures
        unravel(shape, f).len() == shape.len(),
    decreases shape.len(),
{
    if shape.len() > 0 {
        lemma_unravel_len(shape.drop_last(), f / (shape.last() as int));
    }
}

pub proof fn lemma_size_nonneg(shape: Seq<usize>)
    ensures
        size(shape) >= 0,
    decreases shape.len(),
{
    if shape.len() > 0 {
        lemma_size_nonneg(shape.drop_last());
        lemma_mul_nonnegative(size(shape.drop_last()), shape.last() as int);
    }
}

/// A shape with at least one cell has no empty axis.
pub proof fn lemma_size_pos(shape: Seq<usize>)
    requires
        size(shape) > 0,
    ensures
        forall|i: int| 0 <= i < shape.len() ==> #[trigger] shape[i] > 0,
    decreases shape.len(),
{
    if shape.len() > 0 {
        let pre = shape.drop_last();
        let l = shape.last() as int;
        lemma_size_nonneg(pre);
        assert(size(pre) > 0 && l > 0) by (nonlinear_arith)
            requires
                size(pre) * l > 0,
                size(pre) >= 0,
                l >= 0,
        ;
        lemma_size_pos(pre);
        assert forall|i: int| 0 <= i < shape.len() implies #[trigger] shape[i] > 0 by {
            if i < shape.len() - 1 {
                assert(shape[i] == pre[i]);
            }
        }
    }
}

/// Every prefix of a shape without empty axes has at most as many cells as the shape.
pub proof fn lemma_size_prefix(shape: Seq<usize>, i: int)
    requires
        0 <= i <= shape.len(),
        forall|j: int| 0 <= j < shape.len() ==> #[trigger] shape[j] > 0,
    ensures
        size(shape.take(i)) <= size(shape),
    decreases shape.len(),
{
    if i < shape.len() {
        let pre = shape.drop_last();
        assert(pre.take(i) == shape.take(i));
        assert forall|j: int| 0 <= j < pre.len() implies #[trigger] pre[j] > 0 by {
            assert(pre[j] == shape[j]);
        }
        lemma_size_prefix(pre, i);
        lemma_size_nonneg(pre);
        lemma_mul_inequality(1, shape.last() as int, size(pre));
        assert(size(pre) * 1 == size(pre));
        assert(size(pre) * (shape.last() as int) == (shape.last() as int) * size(pre))
            by (nonlinear_arith);
    } else {
        assert(shape.take(i) == shape);
    }
}

/// A shape that is no larger than another on every axis has no more cells.
pub proof fn lemma_size_le(a: Seq<usize>, b: Seq<usize>)
    requires
        a.len() == b.len(),
        forall|i: int| 0 <= i < a.len() ==> #[trigger] a[i] <= b[i],
    ensures
        size(a) <= size(b),
    decreases a.len(),
{
    if a.len() > 0 {
        let pa = a.drop_last();
        let pb = b.drop_last();
        assert forall|i: int| 0 <= i < pa.len() implies #[trigger] pa[i] <= pb[i] by {
            assert(pa[i] == a[i] && pb[i] == b[i]);
        }
        lemma_size_le(pa, pb);
        lemma_size_nonneg(pa);
        assert(a.last() <= b.last());
        assert(size(pa) * a.last() <= size(pb) * b.last()) by (nonlinear_arith)
            requires
                0 <= size(pa) <= size(pb),
                a.last() <= b.last(),
        ;
    }
}

/// A flat position below the size unravels to an in-bounds multi-index that ravels back to it.
pub proof fn lemma_unravel(shape: Seq<usize>, f: int)
    requires
        0 <= f < size(shape),
    ensures
        in_bounds(shape, unravel(shape, f)),
        ravel(shape, unravel(shape, f)) == f,
    decreases shape.len(),
{
    if shape.len() > 0 {
        let pre = shape.drop_last();
        let l = shape.last() as int;
        lemma_size_pos(shape);
        assert(l > 0);
        lemma_size_nonneg(pre);
        lemma_fundamental_div_mod(f, l);
        lemma_mod_bound(f, l);
        lemma_div_pos_is_pos(f, l);
        let q = f / l;
        assert(q < size(pre)) by {
            if q >= size(pre) {
                lemma_mul_inequality(size(pre), q, l);
                assert(l * q == q * l) by (nonlinear_arith);
            }
        }
        lemma_unravel(pre, q);
        let u = unravel(shape, f);
        assert(u.drop_last() == unravel(pre, q));
        assert forall|i: int| 0 <= i < u.len() implies 0 <= #[trigger] u[i] < shape[i] by {
            if i < u.len() - 1 {
                assert(u[i] == unravel(pre, q)[i]);
                assert(shape[i] == pre[i]);
            }
        }
        assert(l * q == q * l) by (nonlinear_arith);
    }
}

/// An in-bounds multi-index ravels to a flat position below the size, which unravels back to it.
pub proof fn lemma_ravel(shape: Seq<usize>, idx: Seq<int>)
    requires
        in_bounds(shape, idx),
    ensures
        0 <= ravel(shape, idx) < size(shape),
        unravel(shape, ravel(shape, idx)) == idx,
    decreases idx.len(),
{
    if idx.len() > 0 {
        let pre = shape.drop_last();
        let ip = idx.drop_last();
        let l = shape.last() as int;
        let a = idx.last();
        assert forall|i: int| 0 <= i < ip.len() implies 0 <= #[trigger] ip[i] < pre[i] by {
            assert(ip[i] == idx[i]);
            assert(pre[i] == shape[i]);
        }
        lemma_ravel(pre, ip);
        let r = ravel(pre, ip);
        assert(0 <= a < l) by {
            assert(idx[idx.len() - 1] < shape[shape.len() - 1]);
        }
        lemma_fundamental_div_mod_converse(r * l + a, l, r, a);
        lemma_mul_nonnegative(r, l);
        assert(r * l + a < size(pre) * l) by (nonlinear_arith)
            requires
                0 <= r < size(pre),
                0 <= a < l,
        ;
        assert(idx == ip.push(a));
    }
}

/// Row-major flattening is linear in the multi-index.
pub proof fn lemma_ravel_add(shape: Seq<usize>, a: Seq<int>, b: Seq<int>)
    requires
        a.len() == b.len(),
    ensures
        ravel(shape, add_idx(a, b)) == ravel(shape, a) + ravel(shape, b),
    decreases a.len(),
{
    if a.len() > 0 {
        let s = add_idx(a, b);
        assert(s.drop_last() == add_idx(a.drop_last(), b.drop_last()));
        lemma_ravel_add(shape.drop_last(), a.drop_last(), b.drop_last());
        let ra = ravel(shape.drop_last(), a.drop_last());
        let rb = ravel(shape.drop_last(), b.drop_last());
        let l = shape.last() as int;
        assert((ra + rb) * l == ra * l + rb * l) by (nonlinear_arith);
    }
}

/// Flat row-major position of an in-bounds multi-index.
pub fn ravel_index(shape: &Vec<usize>, idx: &Vec<usize>) -> (r: usize)
    requires
        in_bounds(shape@, ints(idx@)),
        size(shape@) <= usize::MAX,
    ensures
        r == ravel(shape@, ints(idx@)),
{
    let n = shape.len();
    let ghost sh = shape@;
    let ghost ix = ints(idx@);
    assert forall|j: int| 0 <= j < sh.len() implies #[trigger] sh[j] > 0 by {
        assert(ix[j] < sh[j]);
    }
    let mut acc: usize = 0;
    let mut i: usize = 0;
    while i < n
        invariant
            n == sh.len(),
            sh == shape@,
            ix == ints(idx@),
            in_bounds(sh, ix),
            size(sh) <= usize::MAX,
            forall|j: int| 0 <= j < sh.len() ==> #[trigger] sh[j] > 0,
            0 <= i <= n,
            acc == ravel(sh.take(i as int), ix.take(i as int)),
        decreases n - i,
    {
        let ghost pre = sh.take(i as int);
        let ghost ipre = ix.take(i as int);
        assert forall|j: int| 0 <= j < ipre.len() implies 0 <= #[trigger] ipre[j] < pre[j] by {
            assert(ipre[j] == ix[j]);
        }
        proof {
            lemma_ravel(pre, ipre);
            lemma_size_prefix(sh, i + 1);
        }
        let ghost pre1 = sh.take(i + 1);
        assert(pre1.drop_last() == pre);
        assert(ix.take(i + 1).drop_last() == ipre);
        assert(ix[i as int] == idx@[i as int] as int);
        assert(size(pre1) == size(pre) * shape@[i as int]);
        assert((acc as int) * (shape@[i as int] as int) + (idx@[i as int] as int) < size(pre1))
            by (nonlinear_arith)
            requires
                acc < size(pre),
                idx@[i as int] < shape@[i as int],
                size(pre1) == size(pre) * shape@[i as int],
        ;
        acc = acc * shape[i] + idx[i];
        i = i + 1;
    }
    assert(sh.take(n as int) == sh);
    assert(ix.take(n as int) == ix);
    acc
}

/// Row-major multi-index of a flat position below the size.
pub fn unravel_index(shape: &Vec<usize>, f: usize) -> (r: Vec<usize>)
    requires
        f < size(shape@),
    ensures
        ints(r@) == unravel(shape@, f as int),
{
    let n = shape.len();
    let ghost sh = shape@;
    proof {
        lemma_size_pos(sh);
    }
    let mut r: Vec<usize> = Vec::new();
    let mut k: usize = 0;
    while k < n
        invariant
            k <= n,
            r@.len() == k,
        decreases n - k,
    {
        r.push(0);
        k = k + 1;
    }
    let mut rem: usize = f;
    let mut i: usize = n;
    assert(sh.take(n as int) == sh);
    assert(ints(r@).skip(n as int) == Seq::<int>::empty());
    assert(unravel(sh, f as int) + Seq::<int>::empty() == unravel(sh, f as int));
    while i > 0
        invariant
            n == sh.len(),
            sh == shape@,
            r@.len() == n,
            forall|j: int| 0 <= j < sh.len() ==> #[trigger] sh[j] > 0,
            0 <= i <= n,
            unravel(sh, f as int) == unravel(sh.take(i as int), rem as int) + ints(r@).skip(i as int),
        decreases i,
    {
        let s = shape[i - 1];
        assert(s > 0);
        let ghost pre = sh.take(i as int);
        assert(pre.drop_last() == sh.take(i - 1));
        assert(pre.last() == s);
        let ghost old_tail = ints(r@).skip(i as int);
        r.set(i - 1, rem % s);
        assert(ints(r@).skip(i - 1) == seq![(rem % s) as int] + old_tail);
        assert(unravel(pre, rem as int) == unravel(sh.take(i - 1), (rem / s) as int).push(
            (rem % s) as int,
        ));
        assert(unravel(pre, rem as int) + old_tail == unravel(sh.take(i - 1), (rem / s) as int)
            + ints(r@).skip(i - 1));
        rem = rem / s;
        i = i - 1;
    }
    assert(sh.take(0) == Seq::<usize>::empty());
    assert(ints(r@).skip(0) == ints(r@));
    r
}

} // verus!
