//! Dense row-major arrays of `i64`, kernels with dilation, and fill policies for padding.
use crate::shape::{lemma_size_nonneg, lemma_size_pos, lemma_size_prefix, ravel, size};
use vstd::prelude::*;

verus! {

/// A dense array: `data` holds the cells in row-major order of `shape`.
#[derive(Debug, Clone, PartialEq, Eq)]
pub struct Tensor {
    pub shape: Vec<usize>,
    pub data: Vec<i64>,
}

impl Tensor {
    /// The buffer holds exactly one value per cell.
    pub open spec fn wf(&self) -> bool {
        self.data@.len() == size(self.shape@)
    }

    /// The value at an in-bounds multi-index.
    pub open spec fn at(&self, idx: Seq<int>) -> i64 {
        self.data@[ravel(self.shape@, idx)]
    }

    /// Builds an array from a shape and its row-major cells; `None` where the number of
    /// cells does not match the shape.
    pub fn from_shape_vec(shape: Vec<usize>, data: Vec<i64>) -> (r: Option<Tensor>)
        ensures
            r is Some <==> data@.len() == size(shape@),
            r matches Some(t) ==> t.shape@ == shape@ && t.data@ == data@,
    {
        let len = data.len();
        match checked_size(&shape) {
            Some(n) => {
                if n == len {
                    Some(Tensor { shape, data })
                } else {
                    None
                }
            },
            None => None,
        }
    }

    /// Attaches the same dilation factor to every axis of this kernel.
    pub fn with_dilation(self, dilation: usize) -> (r: KernelWithDilation)
        ensures
            r.kernel == self,
            r.dilation@.len() == self.shape@.len(),
            forall|i: int| 0 <= i < r.dilation@.len() ==> #[trigger] r.dilation@[i] == dilation,
    {
        let n = self.shape.len();
        let mut d: Vec<usize> = Vec::new();
        let mut i: usize = 0;
        while i < n
            invariant
                i <= n,
                d@.len() == i,
                forall|j: int| 0 <= j < i ==> #[trigger] d@[j] == dilation,
            decreases n - i,
        {
            d.push(dilation);
            i = i + 1;
        }
        KernelWithDilation { kernel: self, dilation: d }
    }
}

/// Number of cells of a shape, or `None` where it exceeds `usize::MAX`.
pub fn checked_size(shape: &Vec<usize>) -> (r: Option<usize>)
    ensures
        r matches Some(v) ==> v == size(shape@),
        r is None ==> size(shape@) > usize::MAX,
{
    let n = shape.len();
    let mut i: usize = 0;
    while i < n
        invariant
            n == shape@.len(),
            i <= n,
            forall|j: int| 0 <= j < i ==> #[trigger] shape@[j] > 0,
        decreases n - i,
    {
        if shape[i] == 0 {
            proof {
                lemma_size_nonneg(shape@);
                if size(shape@) > 0 {
                    lemma_size_pos(shape@);
                    assert(shape@[i as int] > 0);
                }
            }
            return Some(0);
        }
        i = i + 1;
    }
    let mut acc: usize = 1;
    let mut i: usize = 0;
    while i < n
        invariant
            n == shape@.len(),
            i <= n,
            forall|j: int| 0 <= j < n ==> #[trigger] shape@[j] > 0,
            acc == size(shape@.take(i as int)),
        decreases n - i,
    {
        assert(shape@.take(i + 1).drop_last() == shape@.take(i as int));
        proof {
            lemma_size_prefix(shape@, i + 1);
        }
        match acc.checked_mul(shape[i]) {
            Some(v) => {
                acc = v;
            },
            None => {
                return None;
            },
        }
        i = i + 1;
    }
    assert(shape@.take(n as int) == shape@);
    Some(acc)
}

/// A kernel together with one dilation factor per axis: taps along axis `i` lie
/// `dilation[i]` cells apart.
#[derive(Debug, Clone)]
pub struct KernelWithDilation {
    pub kernel: Tensor,
    pub dilation: Vec<usize>,
}

impl KernelWithDilation {
    /// The kernel with dilation 1 on every axis, which places its taps next to each other.
    pub fn new(kernel: Tensor) -> (r: KernelWithDilation)
        ensures
            r.kernel == kernel,
            r.dilation@.len() == kernel.shape@.len(),
            forall|i: int| 0 <= i < r.dilation@.len() ==> #[trigger] r.dilation@[i] == 1,
    {
        kernel.with_dilation(1)
    }
}

/// How the cells that padding adds around the input are filled.
#[derive(Debug, Clone, Copy, PartialEq, Eq)]
pub enum PaddingMode {
    Zeros,
    Const(i64),
}

impl PaddingMode {
    /// The value that every padding cell holds.
    pub open spec fn fill(&self) -> i64 {
        match self {
            PaddingMode::Zeros => 0,
            PaddingMode::Const(v) => *v,
        }
    }

    pub fn fill_value(&self) -> (r: i64)
        ensures
            r == self.fill(),
    {
        match self {
            PaddingMode::Zeros => 0,
            PaddingMode::Const(v) => *v,
        }
    }
}

} // verus!
