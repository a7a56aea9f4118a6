//! The convolution engine: pads the input, lists the kernel's taps as flat offsets into
//! the padded buffer, and sums the weighted taps at every output anchor.
use crate::mode::{ConvMode, ExplicitConv};
use crate::shape::{
    add_idx, in_bounds, ints, lemma_ravel, lemma_ravel_add, lemma_size_le, lemma_size_nonneg,
    lemma_unravel,
    ravel, ravel_index, size, unravel, unravel_index,
};
use crate::tensor::{checked_size, KernelWithDilation, PaddingMode, Tensor};
use vstd::arithmetic::div_mod::{lemma_fundamental_div_mod, lemma_mod_bound};
use vstd::arithmetic::mul::{lemma_mul_inequality, lemma_mul_nonnegative};
use vstd::prelude::*;

verus! {

/// Why a convolution cannot be computed.
#[derive(Debug, Clone, Copy, PartialEq, Eq, Structural)]
pub enum ConvError {
    /// The kernel, the dilation or the mode's per-axis settings do not have the input's rank.
    DimensionMismatch,
    /// The kernel has an empty axis, or a dilation factor is zero.
    InvalidKernel,
    /// A stride is zero.
    ZeroStride,
    /// A dilated span, a padded extent or the padded buffer does not fit in `usize`.
    TooLarge,
    /// On some axis the dilated kernel spans more cells than the padded input has.
    KernelDoesNotFit,
}

/// Cells that a kernel of `k` taps with dilation `d` occupies, gaps included.
pub open spec fn dilated_span(k: usize, d: usize) -> int {
    k * d - d + 1
}

/// The dilated span of the kernel on every axis.
pub open spec fn spans(kernel: KernelWithDilation) -> Seq<usize> {
    Seq::new(
        kernel.dilation@.len(),
        |i: int| dilated_span(kernel.kernel.shape@[i], kernel.dilation@[i]) as usize,
    )
}

/// Resolved padding of every axis.
pub open spec fn pads(kernel: KernelWithDilation, mode: ConvMode) -> Seq<(usize, usize)> {
    Seq::new(kernel.dilation@.len(), |i: int| mode.pad_spec(spans(kernel)[i], i))
}

/// Resolved stride of every axis.
pub open spec fn strides(kernel: KernelWithDilation, mode: ConvMode) -> Seq<usize> {
    Seq::new(kernel.dilation@.len(), |i: int| mode.stride_spec(i))
}

/// Extent of axis `i` once padded.
pub open spec fn padded_extent(
    input: Tensor,
    kernel: KernelWithDilation,
    mode: ConvMode,
    i: int,
) -> int {
    input.shape@[i] + pads(kernel, mode)[i].0 + pads(kernel, mode)[i].1
}

/// Shape of the padded input.
pub open spec fn padded_shape(
    input: Tensor,
    kernel: KernelWithDilation,
    mode: ConvMode,
) -> Seq<usize> {
    Seq::new(input.shape@.len(), |i: int| padded_extent(input, kernel, mode, i) as usize)
}

/// Shape of the output: one cell per stride step that keeps the kernel inside the padded input.
pub open spec fn output_shape(
    input: Tensor,
    kernel: KernelWithDilation,
    mode: ConvMode,
) -> Seq<usize> {
    Seq::new(
        input.shape@.len(),
        |i: int|
            ((padded_extent(input, kernel, mode, i) - spans(kernel)[i]) / (strides(
                kernel,
                mode,
            )[i] as int) + 1) as usize,
    )
}

/// The error that a convolution reports, checked in this order; `None` where it succeeds.
pub open spec fn conv_error(
    input: Tensor,
    kernel: KernelWithDilation,
    mode: ConvMode,
) -> Option<ConvError> {
    let n = input.shape@.len();
    let ks = kernel.kernel.shape@;
    let d = kernel.dilation@;
    if ks.len() != n || d.len() != n || !mode.rank_ok(n) {
        Some(ConvError::DimensionMismatch)
    } else if exists|i: int| 0 <= i < n && (ks[i] == 0 || d[i] == 0) {
        Some(ConvError::InvalidKernel)
    } else if exists|i: int| 0 <= i < n && ks[i] * d[i] > usize::MAX {
        Some(ConvError::TooLarge)
    } else if exists|i: int| 0 <= i < n && mode.stride_spec(i) == 0 {
        Some(ConvError::ZeroStride)
    } else if exists|i: int| 0 <= i < n && padded_extent(input, kernel, mode, i) > usize::MAX {
        Some(ConvError::TooLarge)
    } else if exists|i: int| 0 <= i < n && spans(kernel)[i] > padded_extent(input, kernel, mode, i) {
        Some(ConvError::KernelDoesNotFit)
    } else if size(padded_shape(input, kernel, mode)) > usize::MAX {
        Some(ConvError::TooLarge)
    } else {
        None
    }
}

/// Pointwise product of a multi-index with per-axis factors.
pub open spec fn scale(a: Seq<int>, s: Seq<usize>) -> Seq<int> {
    Seq::new(a.len(), |i: int| a[i] * s[i])
}

/// The value at position `q` of the input padded by `pads`: an input cell inside the
/// input's footprint, the fill value outside it.
pub open spec fn padded_value(
    input: Tensor,
    fill: i64,
    pads: Seq<(usize, usize)>,
    q: Seq<int>,
) -> i64 {
    let p = Seq::new(q.len(), |i: int| q[i] - pads[i].0);
    if in_bounds(input.shape@, p) {
        input.at(p)
    } else {
        fill
    }
}

/// Padded-input position of tap `k` for the output cell `o`.
pub open spec fn tap_position(
    o: Seq<int>,
    strides: Seq<usize>,
    k: Seq<int>,
    dilation: Seq<usize>,
) -> Seq<int> {
    add_idx(scale(o, strides), scale(k, dilation))
}

/// Weighted sum of the first `t` taps (row-major over the kernel) at output cell `o`,
/// in the element type's wrapping arithmetic.
pub open spec fn tap_sum(
    input: Tensor,
    kernel: KernelWithDilation,
    mode: ConvMode,
    fill: i64,
    o: Seq<int>,
    t: int,
) -> i64
    decreases t,
{
    if t <= 0 {
        0
    } else {
        let k = unravel(kernel.kernel.shape@, t - 1);
        let q = tap_position(o, strides(kernel, mode), k, kernel.dilation@);
        tap_sum(input, kernel, mode, fill, o, t - 1).wrapping_add(
            kernel.kernel.data@[t - 1].wrapping_mul(padded_value(input, fill, pads(kernel, mode), q)),
        )
    }
}

/// The output cells in row-major order.
pub open spec fn conv_values(
    input: Tensor,
    kernel: KernelWithDilation,
    mode: ConvMode,
    fill: i64,
) -> Seq<i64> {
    let os = output_shape(input, kernel, mode);
    Seq::new(
        size(os) as nat,
        |j: int| tap_sum(input, kernel, mode, fill, unravel(os, j), kernel.kernel.data@.len() as int),
    )
}

/// Fills a buffer of shape `pshape` (`psize` cells) with the input surrounded by padding.
fn pad(
    input: &Tensor,
    fill: i64,
    pads: &Vec<(usize, usize)>,
    pshape: &Vec<usize>,
    psize: usize,
) -> (r: Vec<i64>)
    requires
        input.wf(),
        pads@.len() == input.shape@.len(),
        pshape@.len() == input.shape@.len(),
        forall|i: int|
            0 <= i < pshape@.len() ==> #[trigger] pshape@[i] == input.shape@[i] + pads@[i].0
                + pads@[i].1,
        psize == size(pshape@),
    ensures
        r@.len() == psize,
        forall|f: int|
            0 <= f < psize ==> #[trigger] r@[f] == padded_value(
                *input,
                fill,
                pads@,
                unravel(pshape@, f),
            ),
{
    let n = input.shape.len();
    let cells = input.data.len();
    assert(cells == size(input.shape@));
    let mut r: Vec<i64> = Vec::new();
    let mut f: usize = 0;
    while f < psize
        invariant
            n == input.shape@.len(),
            input.wf(),
            cells == size(input.shape@),
            pads@.len() == n,
            pshape@.len() == n,
            forall|i: int|
                0 <= i < pshape@.len() ==> #[trigger] pshape@[i] == input.shape@[i]
                    + pads@[i].0 + pads@[i].1,
            psize == size(pshape@),
            f <= psize,
            r@.len() == f,
            forall|g: int|
                0 <= g < f ==> #[trigger] r@[g] == padded_value(
                    *input,
                    fill,
                    pads@,
                    unravel(pshape@, g),
                ),
        decreases psize - f,
    {
        let q = unravel_index(pshape, f);
        proof {
            lemma_unravel(pshape@, f as int);
        }
        let ghost qs = unravel(pshape@, f as int);
        let ghost ps = Seq::new(qs.len(), |i: int| qs[i] - pads@[i].0);
        let mut p: Vec<usize> = Vec::new();
        let mut inside = true;
        let mut i: usize = 0;
        while i < n
            invariant
                n == input.shape@.len(),
                pads@.len() == n,
                ints(q@) == qs,
                qs.len() == n,
                ps == Seq::new(qs.len(), |i: int| qs[i] - pads@[i].0),
                i <= n,
                p@.len() == i,
                inside == (forall|j: int| 0 <= j < i ==> 0 <= #[trigger] ps[j] < input.shape@[j]),
                forall|j: int|
                    0 <= j < i && 0 <= ps[j] < input.shape@[j] ==> #[trigger] p@[j] == ps[j],
            decreases n - i,
        {
            let (before, _) = pads[i];
            assert(qs[i as int] == q@[i as int]);
            assert(ps[i as int] == q@[i as int] - before);
            if q[i] >= before && q[i] - before < input.shape[i] {
                p.push(q[i] - before);
            } else {
                inside = false;
                p.push(0);
            }
            i = i + 1;
        }
        let v = if inside {
            assert(ints(p@) == ps);
            let idx = ravel_index(&input.shape, &p);
            proof {
                lemma_ravel(input.shape@, ps);
            }
            input.data[idx]
        } else {
            fill
        };
        r.push(v);
        f = f + 1;
    }
    r
}

/// Where `o < x / s + 1`, the stride step `o * s` stays within `x`.
proof fn lemma_step_bound(o: int, x: int, s: int)
    requires
        0 <= o < x / s + 1,
        x >= 0,
        s > 0,
    ensures
        0 <= o * s <= x,
{
    lemma_fundamental_div_mod(x, s);
    lemma_mod_bound(x, s);
    lemma_mul_inequality(o, x / s, s);
    lemma_mul_nonnegative(o, s);
    assert(s * (x / s) == (x / s) * s) by (nonlinear_arith);
}

/// A tap at index `k < ks` with dilation `d` lies at most `ks * d - d` cells from the anchor.
proof fn lemma_tap_bound(k: int, ks: int, d: int)
    requires
        0 <= k < ks,
        d >= 0,
    ensures
        0 <= k * d <= ks * d - d,
{
    assert(0 <= k * d <= ks * d - d) by (nonlinear_arith)
        requires
            0 <= k < ks,
            d >= 0,
    ;
}

/// Lists every kernel tap, row-major, as its flat offset in a buffer of shape `pshape`
/// from an anchor cell, together with its weight.
fn gen_offset_list(kernel: &KernelWithDilation, pshape: &Vec<usize>) -> (r: Vec<(usize, i64)>)
    requires
        kernel.kernel.wf(),
        kernel.kernel.shape@.len() == pshape@.len(),
        kernel.dilation@.len() == pshape@.len(),
        size(pshape@) <= usize::MAX,
        forall|i: int|
            0 <= i < pshape@.len() ==> #[trigger] kernel.kernel.shape@[i] * kernel.dilation@[i]
                - kernel.dilation@[i] + 1 <= pshape@[i],
    ensures
        r@.len() == kernel.kernel.data@.len(),
        forall|t: int|
            0 <= t < r@.len() ==> (#[trigger] r@[t]).0 == ravel(
                pshape@,
                scale(unravel(kernel.kernel.shape@, t), kernel.dilation@),
            ) && r@[t].1 == kernel.kernel.data@[t],
{
    let n = pshape.len();
    let ks = &kernel.kernel.shape;
    let d = &kernel.dilation;
    let taps = kernel.kernel.data.len();
    let mut r: Vec<(usize, i64)> = Vec::new();
    let mut t: usize = 0;
    while t < taps
        invariant
            n == pshape@.len(),
            ks@ == kernel.kernel.shape@,
            d@ == kernel.dilation@,
            ks@.len() == n,
            d@.len() == n,
            taps == kernel.kernel.data@.len(),
            taps == size(ks@),
            size(pshape@) <= usize::MAX,
            forall|i: int|
                0 <= i < n ==> #[trigger] ks@[i] * d@[i] - d@[i] + 1 <= pshape@[i],
            t <= taps,
            r@.len() == t,
            forall|u: int|
                0 <= u < t ==> (#[trigger] r@[u]).0 == ravel(pshape@, scale(unravel(ks@, u), d@))
                    && r@[u].1 == kernel.kernel.data@[u],
        decreases taps - t,
    {
        let k = unravel_index(ks, t);
        proof {
            lemma_unravel(ks@, t as int);
        }
        let ghost kk = unravel(ks@, t as int);
        let mut pos: Vec<usize> = Vec::new();
        let mut i: usize = 0;
        while i < n
            invariant
                n == pshape@.len(),
                ks@.len() == n,
                d@.len() == n,
                ints(k@) == kk,
                in_bounds(ks@, kk),
                forall|i: int|
                    0 <= i < n ==> #[trigger] ks@[i] * d@[i] - d@[i] + 1 <= pshape@[i],
                i <= n,
                pos@.len() == i,
                forall|j: int|
                    0 <= j < i ==> #[trigger] pos@[j] == kk[j] * d@[j] && pos@[j] < pshape@[j],
            decreases n - i,
        {
            assert(kk[i as int] == k@[i as int]);
            proof {
                lemma_tap_bound(kk[i as int], ks@[i as int] as int, d@[i as int] as int);
            }
            pos.push(k[i] * d[i]);
            i = i + 1;
        }
        assert(ints(pos@) == scale(kk, d@));
        let off = ravel_index(pshape, &pos);
        r.push((off, kernel.kernel.data[t]));
        t = t + 1;
    }
    r
}

/// Sums the weighted taps at every output anchor, in row-major order of the output.
#[verifier::loop_isolation(false)]
fn accumulate(
    input: &Tensor,
    kernel: &KernelWithDilation,
    mode: &ConvMode,
    fill: i64,
    padded: &Vec<i64>,
    pshape: &Vec<usize>,
    offsets: &Vec<(usize, i64)>,
    oshape: &Vec<usize>,
    osize: usize,
    steps: &Vec<usize>,
    kspans: &Vec<usize>,
) -> (r: Vec<i64>)
    requires
        kernel.kernel.wf(),
        pshape@.len() == kernel.kernel.shape@.len(),
        kernel.dilation@.len() == pshape@.len(),
        oshape@.len() == pshape@.len(),
        steps@ == strides(*kernel, *mode),
        kspans@.len() == pshape@.len(),
        size(pshape@) <= usize::MAX,
        padded@.len() == size(pshape@),
        forall|f: int|
            0 <= f < padded@.len() ==> #[trigger] padded@[f] == padded_value(
                *input,
                fill,
                pads(*kernel, *mode),
                unravel(pshape@, f),
            ),
        offsets@.len() == kernel.kernel.data@.len(),
        forall|t: int|
            0 <= t < offsets@.len() ==> (#[trigger] offsets@[t]).0 == ravel(
                pshape@,
                scale(unravel(kernel.kernel.shape@, t), kernel.dilation@),
            ) && offsets@[t].1 == kernel.kernel.data@[t],
        forall|i: int|
            0 <= i < pshape@.len() ==> {
                &&& #[trigger] kspans@[i] == kernel.kernel.shape@[i] * kernel.dilation@[i]
                    - kernel.dilation@[i] + 1
                &&& kernel.kernel.shape@[i] >= 1
                &&& 1 <= kspans@[i] <= pshape@[i]
                &&& steps@[i] > 0
                &&& oshape@[i] == (pshape@[i] - kspans@[i]) / (steps@[i] as int) + 1
            },
        osize == size(oshape@),
    ensures
        r@.len() == osize,
        forall|j: int|
            0 <= j < osize ==> #[trigger] r@[j] == tap_sum(
                *input,
                *kernel,
                *mode,
                fill,
                unravel(oshape@, j),
                kernel.kernel.data@.len() as int,
            ),
{
    let n = pshape.len();
    let taps = offsets.len();
    let ghost ks = kernel.kernel.shape@;
    let ghost d = kernel.dilation@;
    let mut r: Vec<i64> = Vec::new();
    let mut j: usize = 0;
    while j < osize
        invariant
            n == pshape@.len(),
            taps == offsets@.len(),
            j <= osize,
            r@.len() == j,
            forall|g: int|
                0 <= g < j ==> #[trigger] r@[g] == tap_sum(
                    *input,
                    *kernel,
                    *mode,
                    fill,
                    unravel(oshape@, g),
                    kernel.kernel.data@.len() as int,
                ),
        decreases osize - j,
    {
        let o = unravel_index(oshape, j);
        proof {
            lemma_unravel(oshape@, j as int);
        }
        let ghost os = unravel(oshape@, j as int);
        let mut a: Vec<usize> = Vec::new();
        let mut i: usize = 0;
        while i < n
            invariant
                n == pshape@.len(),
                ints(o@) == os,
                in_bounds(oshape@, os),
                i <= n,
                a@.len() == i,
                forall|j: int|
                    0 <= j < i ==> #[trigger] a@[j] == os[j] * steps@[j] && a@[j] + kspans@[j]
                        <= pshape@[j],
            decreases n - i,
        {
            assert(os[i as int] == o@[i as int]);
            proof {
                lemma_step_bound(
                    os[i as int],
                    pshape@[i as int] - kspans@[i as int],
                    steps@[i as int] as int,
                );
            }
            a.push(o[i] * steps[i]);
            i = i + 1;
        }
        let ghost anchor_idx = ints(a@);
        assert(anchor_idx == scale(os, steps@));
        assert forall|i: int| 0 <= i < n implies 0 <= #[trigger] anchor_idx[i] < pshape@[i] by {
            assert(anchor_idx[i] == a@[i]);
        }
        let anchor = ravel_index(pshape, &a);
        let mut acc: i64 = 0;
        let mut t: usize = 0;
        while t < taps
            invariant
                n == pshape@.len(),
                taps == offsets@.len(),
                anchor == ravel(pshape@, anchor_idx),
                anchor_idx == scale(os, steps@),
                anchor_idx.len() == n,
                forall|j: int|
                    0 <= j < n ==> 0 <= #[trigger] anchor_idx[j] && anchor_idx[j] + kspans@[j]
                        <= pshape@[j],
                t <= taps,
                acc == tap_sum(*input, *kernel, *mode, fill, os, t as int),
            decreases taps - t,
        {
            let (off, w) = offsets[t];
            proof {
                lemma_size_nonneg(ks);
                lemma_unravel(ks, t as int);
            }
            let ghost kk = unravel(ks, t as int);
            let ghost tap_idx = scale(kk, d);
            let ghost q = add_idx(anchor_idx, tap_idx);
            assert(q == tap_position(os, strides(*kernel, *mode), kk, d));
            assert forall|i: int| 0 <= i < n implies 0 <= #[trigger] q[i] < pshape@[i] by {
                lemma_tap_bound(kk[i], ks[i] as int, d[i] as int);
                assert(tap_idx[i] == kk[i] * d[i]);
            }
            proof {
                lemma_ravel_add(pshape@, anchor_idx, tap_idx);
                lemma_ravel(pshape@, q);
            }
            let v = padded[anchor + off];
            acc = acc.wrapping_add(w.wrapping_mul(v));
            t = t + 1;
        }
        r.push(acc);
        j = j + 1;
    }
    r
}

impl Tensor {
    /// Convolves this array with a dilated kernel (cross-correlation: the kernel is not
    /// flipped), after resolving `conv_mode` into padding and strides and padding the
    /// input as `padding_mode` says.
    #[verifier::loop_isolation(false)]
    pub fn conv(
        &self,
        kernel: &KernelWithDilation,
        conv_mode: &ConvMode,
        padding_mode: &PaddingMode,
    ) -> (r: Result<Tensor, ConvError>)
        requires
            self.wf(),
            kernel.kernel.wf(),
        ensures
            r is Err <==> conv_error(*self, *kernel, *conv_mode) is Some,
            r matches Err(e) ==> conv_error(*self, *kernel, *conv_mode) == Some(e),
            r matches Ok(out) ==> {
                &&& out.wf()
                &&& out.shape@ == output_shape(*self, *kernel, *conv_mode)
                &&& out.data@ == conv_values(*self, *kernel, *conv_mode, padding_mode.fill())
            },
    {
        let n = self.shape.len();
        let ks = &kernel.kernel.shape;
        let d = &kernel.dilation;
        if ks.len() != n || d.len() != n || !conv_mode.rank_matches(n) {
            return Err(ConvError::DimensionMismatch);
        }
        let mut i: usize = 0;
        while i < n
            invariant
                i <= n,
                forall|j: int| 0 <= j < i ==> #[trigger] ks@[j] != 0,
                forall|j: int| 0 <= j < i ==> #[trigger] d@[j] != 0,
            decreases n - i,
        {
            if ks[i] == 0 || d[i] == 0 {
                assert(ks@[i as int] == 0 || d@[i as int] == 0);
                return Err(ConvError::InvalidKernel);
            }
            assert(ks@[i as int] != 0 && d@[i as int] != 0);
            i = i + 1;
        }
        let mut kspans: Vec<usize> = Vec::new();
        let mut i: usize = 0;
        while i < n
            invariant
                i <= n,
                kspans@.len() == i,
                forall|j: int|
                    0 <= j < i ==> #[trigger] ks@[j] * d@[j] <= usize::MAX && kspans@[j] == ks@[j]
                        * d@[j] - d@[j] + 1 && kspans@[j] >= 1,
            decreases n - i,
        {
            match ks[i].checked_mul(d[i]) {
                Some(kd) => {
                    assert(kd >= d@[i as int]) by (nonlinear_arith)
                        requires
                            kd == ks@[i as int] * d@[i as int],
                            ks@[i as int] >= 1,
                    ;
                    kspans.push(kd - d[i] + 1);
                },
                None => {
                    assert(ks@[i as int] * d@[i as int] > usize::MAX);
                    return Err(ConvError::TooLarge);
                },
            }
            i = i + 1;
        }
        assert(kspans@ == spans(*kernel));
        let cm: ExplicitConv = conv_mode.unfold(&kspans);
        assert(cm.padding@ == pads(*kernel, *conv_mode));
        assert(cm.strides@ == strides(*kernel, *conv_mode));
        let mut i: usize = 0;
        while i < n
            invariant
                i <= n,
                forall|j: int| 0 <= j < i ==> #[trigger] conv_mode.stride_spec(j) > 0,
            decreases n - i,
        {
            if cm.strides[i] == 0 {
                assert(conv_mode.stride_spec(i as int) == 0);
                return Err(ConvError::ZeroStride);
            }
            i = i + 1;
        }
        let mut pshape: Vec<usize> = Vec::new();
        let mut i: usize = 0;
        while i < n
            invariant
                i <= n,
                pshape@.len() == i,
                forall|j: int|
                    0 <= j < i ==> #[trigger] pshape@[j] == padded_extent(
                        *self,
                        *kernel,
                        *conv_mode,
                        j,
                    ),
            decreases n - i,
        {
            let (before, after) = cm.padding[i];
            match self.shape[i].checked_add(before) {
                Some(x) => match x.checked_add(after) {
                    Some(y) => {
                        pshape.push(y);
                    },
                    None => {
                        assert(padded_extent(*self, *kernel, *conv_mode, i as int) > usize::MAX);
                        return Err(ConvError::TooLarge);
                    },
                },
                None => {
                    assert(padded_extent(*self, *kernel, *conv_mode, i as int) > usize::MAX);
                    return Err(ConvError::TooLarge);
                },
            }
            i = i + 1;
        }
        assert(pshape@ == padded_shape(*self, *kernel, *conv_mode));
        let mut i: usize = 0;
        while i < n
            invariant
                i <= n,
                forall|j: int|
                    0 <= j < i ==> #[trigger] spans(*kernel)[j] <= padded_extent(
                        *self,
                        *kernel,
                        *conv_mode,
                        j,
                    ),
            decreases n - i,
        {
            assert(kspans@[i as int] == spans(*kernel)[i as int]);
            if kspans[i] > pshape[i] {
                assert(spans(*kernel)[i as int] > padded_extent(
                    *self,
                    *kernel,
                    *conv_mode,
                    i as int,
                ));
                return Err(ConvError::KernelDoesNotFit);
            }
            i = i + 1;
        }
        assert forall|j: int| 0 <= j < n implies #[trigger] cm.strides@[j] > 0 by {
            assert(cm.strides@[j] == conv_mode.stride_spec(j));
        }
        assert forall|j: int| 0 <= j < n implies #[trigger] kspans@[j] <= pshape@[j] by {
            assert(kspans@[j] == spans(*kernel)[j]);
        }
        let psize = match checked_size(&pshape) {
            Some(v) => v,
            None => {
                return Err(ConvError::TooLarge);
            },
        };
        let mut oshape: Vec<usize> = Vec::new();
        let mut i: usize = 0;
        while i < n
            invariant
                i <= n,
                oshape@.len() == i,
                forall|j: int|
                    0 <= j < i ==> #[trigger] oshape@[j] == (pshape@[j] - kspans@[j]) / (
                    cm.strides@[j] as int) + 1 && oshape@[j] <= pshape@[j],
            decreases n - i,
        {
            let s = cm.strides[i];
            let o = (pshape[i] - kspans[i]) / s + 1;
            assert(o <= pshape@[i as int]) by (nonlinear_arith)
                requires
                    o == (pshape@[i as int] - kspans@[i as int]) / (s as int) + 1,
                    kspans@[i as int] >= 1,
                    kspans@[i as int] <= pshape@[i as int],
                    s >= 1,
            ;
            oshape.push(o);
            i = i + 1;
        }
        assert(oshape@ == output_shape(*self, *kernel, *conv_mode));
        proof {
            lemma_size_le(oshape@, pshape@);
        }
        let osize = match checked_size(&oshape) {
            Some(v) => v,
            None => {
                return Err(ConvError::TooLarge);
            },
        };
        let fill = padding_mode.fill_value();
        let padded = pad(self, fill, &cm.padding, &pshape, psize);
        let offsets = gen_offset_list(kernel, &pshape);
        let data = accumulate(
            self,
            kernel,
            conv_mode,
            fill,
            &padded,
            &pshape,
            &offsets,
            &oshape,
            osize,
            &cm.strides,
            &kspans,
        );
        assert(data@ == conv_values(*self, *kernel, *conv_mode, fill));
        Ok(Tensor { shape: oshape, data })
    }
}

} // verus!
