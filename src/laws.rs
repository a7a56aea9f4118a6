//! Facts that hold of every convolution: output shapes of the named modes, agreement of
//! symmetric custom padding with explicit padding, what dilation 1 means, and the
//! rejection of kernels that do not fit.
use crate::conv::{
    conv_error, conv_values, output_shape, padded_extent, padded_shape, pads, scale, spans, strides, tap_sum,
    padded_value,
};
use crate::conv::ConvError;
use crate::mode::ConvMode;
use crate::shape::{add_idx, lemma_size_nonneg, lemma_unravel_len, size, unravel};
use crate::tensor::{KernelWithDilation, Tensor};
use vstd::prelude::*;

verus! {

/// Where a convolution succeeds, the dilated span of every axis is `k * d - d + 1 >= 1`.
proof fn lemma_span_valid(input: Tensor, kernel: KernelWithDilation, mode: ConvMode, i: int)
    requires
        conv_error(input, kernel, mode) is None,
        0 <= i < input.shape@.len(),
    ensures
        spans(kernel)[i] as int == kernel.kernel.shape@[i] * kernel.dilation@[i]
            - kernel.dilation@[i] + 1,
        spans(kernel)[i] >= 1,
{
    let k = kernel.kernel.shape@[i] as int;
    let d = kernel.dilation@[i] as int;
    assert(!(k == 0 || d == 0));
    assert(!(k * d > usize::MAX));
    assert(k * d - d >= 0) by (nonlinear_arith)
        requires
            k >= 1,
            d >= 1,
    ;
}

/// With no padding, stride 1 and dilation 1, each axis of the output has
/// `input - kernel + 1` cells.
pub proof fn lemma_valid_output_shape(input: Tensor, kernel: KernelWithDilation)
    requires
        conv_error(input, kernel, ConvMode::Valid) is None,
        forall|i: int| 0 <= i < kernel.dilation@.len() ==> #[trigger] kernel.dilation@[i] == 1,
    ensures
        forall|i: int|
            0 <= i < input.shape@.len() ==> #[trigger] output_shape(input, kernel, ConvMode::Valid)[i]
                == input.shape@[i] - kernel.kernel.shape@[i] + 1,
{
    let m = ConvMode::Valid;
    assert forall|i: int| 0 <= i < input.shape@.len() implies #[trigger] output_shape(
        input,
        kernel,
        m,
    )[i] == input.shape@[i] - kernel.kernel.shape@[i] + 1 by {
        assert(kernel.dilation@[i] == 1);
        assert(spans(kernel)[i] == kernel.kernel.shape@[i]);
        assert(padded_extent(input, kernel, m, i) == input.shape@[i]);
        assert(strides(kernel, m)[i] == 1);
    }
}

/// In full mode (stride 1) each axis of the output has `input + span - 1` cells, where
/// `span` is the dilated kernel's extent.
pub proof fn lemma_full_output_shape(input: Tensor, kernel: KernelWithDilation)
    requires
        conv_error(input, kernel, ConvMode::Full) is None,
    ensures
        forall|i: int|
            0 <= i < input.shape@.len() ==> #[trigger] output_shape(input, kernel, ConvMode::Full)[i]
                == input.shape@[i] + spans(kernel)[i] - 1,
{
    let m = ConvMode::Full;
    assert forall|i: int| 0 <= i < input.shape@.len() implies #[trigger] output_shape(
        input,
        kernel,
        m,
    )[i] == input.shape@[i] + spans(kernel)[i] - 1 by {
        lemma_span_valid(input, kernel, m, i);
        assert(padded_extent(input, kernel, m, i) == input.shape@[i] + 2 * (spans(kernel)[i] - 1));
        assert(strides(kernel, m)[i] == 1);
    }
}

/// In same mode (stride 1) the output has the input's shape.
pub proof fn lemma_same_output_shape(input: Tensor, kernel: KernelWithDilation)
    requires
        conv_error(input, kernel, ConvMode::Same) is None,
    ensures
        output_shape(input, kernel, ConvMode::Same) == input.shape@,
{
    let m = ConvMode::Same;
    assert forall|i: int| 0 <= i < input.shape@.len() implies #[trigger] output_shape(
        input,
        kernel,
        m,
    )[i] == input.shape@[i] by {
        lemma_span_valid(input, kernel, m, i);
        let k = spans(kernel)[i] as int;
        assert(pads(kernel, m)[i].0 + pads(kernel, m)[i].1 == k - 1);
        assert(strides(kernel, m)[i] == 1);
    }
    assert(output_shape(input, kernel, m) == input.shape@);
}

/// Two modes that resolve to the same padding and strides give the same weighted sums.
proof fn lemma_tap_sum_same_resolution(
    input: Tensor,
    kernel: KernelWithDilation,
    m1: ConvMode,
    m2: ConvMode,
    fill: i64,
    o: Seq<int>,
    t: int,
)
    requires
        pads(kernel, m1) == pads(kernel, m2),
        strides(kernel, m1) == strides(kernel, m2),
    ensures
        tap_sum(input, kernel, m1, fill, o, t) == tap_sum(input, kernel, m2, fill, o, t),
    decreases t,
{
    if t > 0 {
        lemma_tap_sum_same_resolution(input, kernel, m1, m2, fill, o, t - 1);
    }
}

/// Symmetric custom padding is explicit padding with equal sides: both modes fail alike,
/// and otherwise give the same output shape and cells.
pub proof fn lemma_custom_is_symmetric_explicit(
    input: Tensor,
    kernel: KernelWithDilation,
    padding: Vec<usize>,
    explicit_padding: Vec<(usize, usize)>,
    steps: Vec<usize>,
    fill: i64,
)
    requires
        explicit_padding@.len() == padding@.len(),
        forall|i: int|
            0 <= i < padding@.len() ==> #[trigger] explicit_padding@[i] == (padding@[i], padding@[i]),
    ensures
        ({
            let c = ConvMode::Custom { padding, strides: steps };
            let e = ConvMode::Explicit { padding: explicit_padding, strides: steps };
            &&& conv_error(input, kernel, c) == conv_error(input, kernel, e)
            &&& conv_error(input, kernel, c) is None ==> output_shape(input, kernel, c)
                == output_shape(input, kernel, e) && conv_values(input, kernel, c, fill)
                == conv_values(input, kernel, e, fill)
        }),
{
    let c = ConvMode::Custom { padding, strides: steps };
    let e = ConvMode::Explicit { padding: explicit_padding, strides: steps };
    let n = input.shape@.len();
    if kernel.kernel.shape@.len() != n || kernel.dilation@.len() != n || padding@.len() != n
        || steps@.len() != n {
        assert(conv_error(input, kernel, c) == Some(ConvError::DimensionMismatch));
        assert(conv_error(input, kernel, e) == Some(ConvError::DimensionMismatch));
    } else {
        assert(pads(kernel, c) == pads(kernel, e));
        assert(strides(kernel, c) == strides(kernel, e));
        assert forall|i: int| 0 <= i < n implies #[trigger] padded_extent(input, kernel, c, i)
            == padded_extent(input, kernel, e, i) by {}
        assert forall|i: int| 0 <= i < n implies #[trigger] c.stride_spec(i) == e.stride_spec(
            i,
        ) by {}
        if exists|i: int| 0 <= i < n && c.stride_spec(i) == 0 {
            let w = choose|i: int| 0 <= i < n && c.stride_spec(i) == 0;
            assert(e.stride_spec(w) == 0);
        }
        if exists|i: int| 0 <= i < n && e.stride_spec(i) == 0 {
            let w = choose|i: int| 0 <= i < n && e.stride_spec(i) == 0;
            assert(c.stride_spec(w) == 0);
        }
        if exists|i: int| 0 <= i < n && padded_extent(input, kernel, c, i) > usize::MAX {
            let w = choose|i: int| 0 <= i < n && padded_extent(input, kernel, c, i) > usize::MAX;
            assert(padded_extent(input, kernel, e, w) > usize::MAX);
        }
        if exists|i: int| 0 <= i < n && padded_extent(input, kernel, e, i) > usize::MAX {
            let w = choose|i: int| 0 <= i < n && padded_extent(input, kernel, e, i) > usize::MAX;
            assert(padded_extent(input, kernel, c, w) > usize::MAX);
        }
        assert((exists|i: int|
            0 <= i < n && spans(kernel)[i] > padded_extent(input, kernel, c, i)) == (exists|i: int|
            0 <= i < n && spans(kernel)[i] > padded_extent(input, kernel, e, i)));
        assert(padded_shape(input, kernel, c) =~= padded_shape(input, kernel, e));
        assert(output_shape(input, kernel, c) =~= output_shape(input, kernel, e));
        let os = output_shape(input, kernel, c);
        let k = kernel.kernel.data@.len() as int;
        lemma_size_nonneg(os);
        assert forall|j: int| 0 <= j < size(os) implies #[trigger] conv_values(
            input,
            kernel,
            c,
            fill,
        )[j] == conv_values(input, kernel, e, fill)[j] by {
            lemma_tap_sum_same_resolution(input, kernel, c, e, fill, unravel(os, j), k);
        }
        assert(conv_values(input, kernel, c, fill) =~= conv_values(input, kernel, e, fill));
    }
}

/// Weighted sum of the first `t` taps at output cell `o` with the taps of `kernel` placed
/// next to each other, as a convolution without dilation computes it.
pub open spec fn undilated_tap_sum(
    input: Tensor,
    kernel: Tensor,
    pads: Seq<(usize, usize)>,
    steps: Seq<usize>,
    fill: i64,
    o: Seq<int>,
    t: int,
) -> i64
    decreases t,
{
    if t <= 0 {
        0
    } else {
        let q = add_idx(scale(o, steps), unravel(kernel.shape@, t - 1));
        undilated_tap_sum(input, kernel, pads, steps, fill, o, t - 1).wrapping_add(
            kernel.data@[t - 1].wrapping_mul(padded_value(input, fill, pads, q)),
        )
    }
}

/// Dilation 1 on every axis is no dilation: the dilated span is the kernel's extent, and
/// every weighted sum is the one computed with adjacent taps.
pub proof fn lemma_unit_dilation_is_plain(
    input: Tensor,
    kernel: KernelWithDilation,
    mode: ConvMode,
    fill: i64,
    o: Seq<int>,
    t: int,
)
    requires
        kernel.dilation@.len() == kernel.kernel.shape@.len(),
        forall|i: int| 0 <= i < kernel.dilation@.len() ==> #[trigger] kernel.dilation@[i] == 1,
    ensures
        spans(kernel) == kernel.kernel.shape@,
        tap_sum(input, kernel, mode, fill, o, t) == undilated_tap_sum(
            input,
            kernel.kernel,
            pads(kernel, mode),
            strides(kernel, mode),
            fill,
            o,
            t,
        ),
    decreases t,
{
    assert(spans(kernel) =~= kernel.kernel.shape@);
    if t > 0 {
        lemma_unit_dilation_is_plain(input, kernel, mode, fill, o, t - 1);
        let k = unravel(kernel.kernel.shape@, t - 1);
        lemma_unravel_len(kernel.kernel.shape@, t - 1);
        assert(scale(k, kernel.dilation@) =~= k);
    }
}

/// A kernel whose dilated span exceeds the padded input on some axis is rejected.
pub proof fn lemma_oversized_kernel_is_rejected(
    input: Tensor,
    kernel: KernelWithDilation,
    mode: ConvMode,
)
    requires
        exists|i: int|
            0 <= i < input.shape@.len() && spans(kernel)[i] > padded_extent(input, kernel, mode, i),
    ensures
        conv_error(input, kernel, mode) is Some,
{
}

} // verus!
