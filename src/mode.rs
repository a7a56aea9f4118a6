//! Resolution of a convolution mode into explicit per-axis padding and strides.
use vstd::prelude::*;

verus! {

/// What part of the correlation the output covers.
#[derive(Debug, Clone)]
#[allow(inconsistent_fields)]
pub enum ConvMode {
    /// Every position where kernel and input overlap at all.
    Full,
    /// As many cells as the input (for stride 1).
    Same,
    /// Only positions where the kernel lies entirely within the input.
    Valid,
    /// The same padding on both sides of each axis, with the given strides.
    Custom { padding: Vec<usize>, strides: Vec<usize> },
    /// Padding given per side (before, after) for each axis, with the given strides.
    Explicit { padding: Vec<(usize, usize)>, strides: Vec<usize> },
}

/// Resolved padding (before, after) and stride for each axis.
#[derive(Debug, Clone, PartialEq, Eq)]
pub struct ExplicitConv {
    pub padding: Vec<(usize, usize)>,
    pub strides: Vec<usize>,
}

impl ConvMode {
    /// The per-axis settings that the mode carries, if any, cover `n` axes.
    pub open spec fn rank_ok(&self, n: nat) -> bool {
        match self {
            ConvMode::Custom { padding, strides } => padding@.len() == n && strides@.len() == n,
            ConvMode::Explicit { padding, strides } => padding@.len() == n && strides@.len()
                == n,
            _ => true,
        }
    }

    /// Padding on axis `i`, whose dilated kernel spans `span` cells.
    pub open spec fn pad_spec(&self, span: usize, i: int) -> (usize, usize) {
        match self {
            ConvMode::Full => ((span - 1) as usize, (span - 1) as usize),
            ConvMode::Same => if span % 2 == 0 {
                (((span - 1) / 2 + 1) as usize, ((span - 1) / 2) as usize)
            } else {
                (((span - 1) / 2) as usize, ((span - 1) / 2) as usize)
            },
            ConvMode::Valid => (0, 0),
            ConvMode::Custom { padding, .. } => (padding@[i], padding@[i]),
            ConvMode::Explicit { padding, .. } => padding@[i],
        }
    }

    /// Stride on axis `i`.
    pub open spec fn stride_spec(&self, i: int) -> usize {
        match self {
            ConvMode::Custom { strides, .. } => strides@[i],
            ConvMode::Explicit { strides, .. } => strides@[i],
            _ => 1,
        }
    }

    pub fn rank_matches(&self, n: usize) -> (r: bool)
        ensures
            r == self.rank_ok(n as nat),
    {
        match self {
            ConvMode::Custom { padding, strides } => padding.len() == n && strides.len() == n,
            ConvMode::Explicit { padding, strides } => padding.len() == n && strides.len() == n,
            _ => true,
        }
    }

    /// Resolves the mode for a kernel whose dilated span on axis `i` is `kernel_span[i]`.
    pub fn unfold(&self, kernel_span: &Vec<usize>) -> (r: ExplicitConv)
        requires
            self.rank_ok(kernel_span@.len()),
            forall|i: int| 0 <= i < kernel_span@.len() ==> #[trigger] kernel_span@[i] >= 1,
        ensures
            r.padding@.len() == kernel_span@.len(),
            r.strides@.len() == kernel_span@.len(),
            forall|i: int|
                0 <= i < kernel_span@.len() ==> #[trigger] r.padding@[i] == self.pad_spec(
                    kernel_span@[i],
                    i,
                ),
            forall|i: int|
                0 <= i < kernel_span@.len() ==> #[trigger] r.strides@[i] == self.stride_spec(i),
    {
        let n = kernel_span.len();
        let mut padding: Vec<(usize, usize)> = Vec::new();
        let mut strides: Vec<usize> = Vec::new();
        let mut i: usize = 0;
        while i < n
            invariant
                n == kernel_span@.len(),
                self.rank_ok(n as nat),
                forall|j: int| 0 <= j < n ==> #[trigger] kernel_span@[j] >= 1,
                i <= n,
                padding@.len() == i,
                strides@.len() == i,
                forall|j: int|
                    0 <= j < i ==> #[trigger] padding@[j] == self.pad_spec(kernel_span@[j], j),
                forall|j: int| 0 <= j < i ==> #[trigger] strides@[j] == self.stride_spec(j),
            decreases n - i,
        {
            let k = kernel_span[i];
            let (p, s) = match self {
                ConvMode::Full => ((k - 1, k - 1), 1),
                ConvMode::Same => {
                    if k % 2 == 0 {
                        (((k - 1) / 2 + 1, (k - 1) / 2), 1)
                    } else {
                        (((k - 1) / 2, (k - 1) / 2), 1)
                    }
                },
                ConvMode::Valid => ((0, 0), 1),
                ConvMode::Custom { padding: pd, strides: st } => ((pd[i], pd[i]), st[i]),
                ConvMode::Explicit { padding: pd, strides: st } => (pd[i], st[i]),
            };
            padding.push(p);
            strides.push(s);
            i = i + 1;
        }
        ExplicitConv { padding, strides }
    }
}

} // verus!
