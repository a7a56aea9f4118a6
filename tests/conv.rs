use ndconv::conv::ConvError;
use ndconv::mode::ConvMode;
use ndconv::tensor::{KernelWithDilation, PaddingMode, Tensor};

fn arr(shape: Vec<usize>, data: Vec<i64>) -> Tensor {
    Tensor::from_shape_vec(shape, data).unwrap()
}

fn ones(shape: Vec<usize>) -> Tensor {
    let n: usize = shape.iter().product();
    arr(shape, vec![1; n])
}

fn plain(kernel: Tensor) -> KernelWithDilation {
    KernelWithDilation::new(kernel)
}

fn check(res: Result<Tensor, ConvError>, shape: Vec<usize>, data: Vec<i64>) {
    let out = res.unwrap();
    assert_eq!(out.shape, shape);
    assert_eq!(out.data, data);
}

#[test]
fn tch_conv2d() {
    let a = ones(vec![3, 3]);
    let kernel = ones(vec![2, 3]).with_dilation(2);
    let res = a.conv(&kernel, &ConvMode::Same, &PaddingMode::Zeros).unwrap();
    assert_eq!(res.shape, vec![3, 3]);
}

#[test]
fn test_conv() {
    let a = arr(vec![2, 2], vec![1, 2, 3, 4]);
    let kernel = plain(arr(vec![2, 2], vec![1, 1, 1, 1]));
    let res = a.conv(
        &kernel,
        &ConvMode::Custom { padding: vec![1, 2], strides: vec![2, 2] },
        &PaddingMode::Zeros,
    );
    check(res, vec![2, 3], vec![0, 3, 0, 0, 7, 0]);

    let res = a.conv(&kernel, &ConvMode::Full, &PaddingMode::Zeros);
    check(res, vec![3, 3], vec![1, 3, 2, 4, 10, 6, 3, 7, 4]);

    let a = arr(vec![6], vec![1, 2, 3, 4, 5, 6]);
    let kernel = plain(arr(vec![3], vec![1, 1, 1]));
    let res = a.conv(
        &kernel,
        &ConvMode::Custom { padding: vec![4], strides: vec![2] },
        &PaddingMode::Zeros,
    );
    check(res, vec![6], vec![0, 1, 6, 12, 11, 0]);

    let kernel = arr(vec![3], vec![1, 1, 1]).with_dilation(2);
    let res = a.conv(
        &kernel,
        &ConvMode::Custom { padding: vec![4], strides: vec![2] },
        &PaddingMode::Zeros,
    );
    check(res, vec![5], vec![1, 4, 9, 8, 5]);
}

#[test]
fn aligned_with_libtorch() {
    let a = arr(vec![6], vec![1, 2, 3, 4, 5, 6]);
    let kernel = arr(vec![3], vec![1, 1, 1]).with_dilation(2);
    let res = a.conv(
        &kernel,
        &ConvMode::Custom { padding: vec![4], strides: vec![2] },
        &PaddingMode::Zeros,
    );
    check(res, vec![5], vec![1, 4, 9, 8, 5]);

    let a = ones(vec![3, 3]);
    let kernel = ones(vec![3, 3]).with_dilation(2);
    let res = a.conv(&kernel, &ConvMode::Same, &PaddingMode::Zeros);
    check(res, vec![3, 3], vec![4, 2, 4, 2, 1, 2, 4, 2, 4]);

    let kernel = ones(vec![2, 3]).with_dilation(2);
    let res = a.conv(&kernel, &ConvMode::Same, &PaddingMode::Zeros);
    check(res, vec![3, 3], vec![2, 1, 2, 4, 2, 4, 2, 1, 2]);

    let a = arr(vec![2, 2, 2], vec![1, 2, 3, 4, 5, 6, 7, 8]);
    let kernel = ones(vec![2, 3, 3]).with_dilation(2);
    let res = a.conv(
        &kernel,
        &ConvMode::Custom { padding: vec![2, 2, 2], strides: vec![1, 2, 1] },
        &PaddingMode::Zeros,
    );
    check(res, vec![4, 1, 2], vec![1, 2, 5, 6, 1, 2, 5, 6]);
}

#[test]
fn explicit_symmetric_padding_example() {
    let a = arr(vec![2, 2], vec![1, 2, 3, 4]);
    let kernel = plain(arr(vec![2, 2], vec![1, 1, 1, 1]));
    let res = a.conv(
        &kernel,
        &ConvMode::Explicit { padding: vec![(1, 1), (2, 2)], strides: vec![2, 2] },
        &PaddingMode::Zeros,
    );
    check(res, vec![2, 3], vec![0, 3, 0, 0, 7, 0]);
}

#[test]
fn custom_equals_symmetric_explicit() {
    let a = arr(vec![3, 4], vec![1, -2, 3, 4, 5, 6, -7, 8, 9, 10, 11, 12]);
    let kernel = arr(vec![2, 3], vec![1, 2, 3, 4, 5, 6]).with_dilation(2);
    let c = a.conv(
        &kernel,
        &ConvMode::Custom { padding: vec![2, 3], strides: vec![1, 2] },
        &PaddingMode::Const(7),
    );
    let e = a.conv(
        &kernel,
        &ConvMode::Explicit { padding: vec![(2, 2), (3, 3)], strides: vec![1, 2] },
        &PaddingMode::Const(7),
    );
    assert_eq!(c.unwrap(), e.unwrap());
}

#[test]
fn valid_mode_shape() {
    let a = arr(vec![4, 5], (1..=20).collect());
    let kernel = plain(arr(vec![2, 3], vec![1, 0, 0, 0, 0, 1]));
    let res = a.conv(&kernel, &ConvMode::Valid, &PaddingMode::Zeros);
    // each cell is a[i][j] + a[i+1][j+2]
    check(res, vec![3, 3], vec![1 + 8, 2 + 9, 3 + 10, 6 + 13, 7 + 14, 8 + 15, 11 + 18, 12 + 19, 13 + 20]);
}

#[test]
fn full_mode_shape_with_dilation() {
    let a = ones(vec![4]);
    let kernel = ones(vec![2]).with_dilation(3);
    let res = a.conv(&kernel, &ConvMode::Full, &PaddingMode::Zeros).unwrap();
    // span 4: 4 + 4 - 1 cells
    assert_eq!(res.shape, vec![7]);
    assert_eq!(res.data, vec![1, 1, 1, 2, 1, 1, 1]);
}

#[test]
fn same_mode_keeps_shape_for_even_kernel() {
    let a = arr(vec![5], vec![1, 2, 3, 4, 5]);
    let kernel = plain(arr(vec![2], vec![1, 10]));
    // even span: one extra cell of padding before
    let res = a.conv(&kernel, &ConvMode::Same, &PaddingMode::Zeros);
    check(res, vec![5], vec![10, 21, 32, 43, 54]);
}

#[test]
fn unit_dilation_matches_plain_kernel() {
    let a = arr(vec![2, 3], vec![1, 2, 3, 4, 5, 6]);
    let k = arr(vec![2, 2], vec![1, 2, 3, 4]);
    let d1 = k.clone().with_dilation(1);
    let p = plain(k);
    let r1 = a.conv(&d1, &ConvMode::Full, &PaddingMode::Zeros).unwrap();
    let r2 = a.conv(&p, &ConvMode::Full, &PaddingMode::Zeros).unwrap();
    assert_eq!(r1, r2);
    assert_eq!(r1.data, vec![4, 11, 18, 9, 18, 37, 47, 21, 8, 14, 17, 6]);
}

#[test]
fn const_fill_padding() {
    let a = arr(vec![2], vec![1, 2]);
    let kernel = plain(arr(vec![2], vec![1, 1]));
    let res = a.conv(&kernel, &ConvMode::Full, &PaddingMode::Const(5));
    check(res, vec![3], vec![6, 3, 7]);
}

#[test]
fn kernel_does_not_fit() {
    let a = arr(vec![2, 2], vec![1, 2, 3, 4]);
    let kernel = plain(ones(vec![3, 1]));
    let res = a.conv(&kernel, &ConvMode::Valid, &PaddingMode::Zeros);
    assert_eq!(res, Err(ConvError::KernelDoesNotFit));
    let kernel = ones(vec![2, 2]).with_dilation(2);
    let res = a.conv(&kernel, &ConvMode::Valid, &PaddingMode::Zeros);
    assert_eq!(res, Err(ConvError::KernelDoesNotFit));
}

#[test]
fn dimension_mismatch() {
    let a = arr(vec![2, 2], vec![1, 2, 3, 4]);
    let kernel = plain(ones(vec![2]));
    let res = a.conv(&kernel, &ConvMode::Valid, &PaddingMode::Zeros);
    assert_eq!(res, Err(ConvError::DimensionMismatch));
    let kernel = plain(ones(vec![1, 1]));
    let res = a.conv(
        &kernel,
        &ConvMode::Custom { padding: vec![1], strides: vec![1, 1] },
        &PaddingMode::Zeros,
    );
    assert_eq!(res, Err(ConvError::DimensionMismatch));
}

#[test]
fn invalid_kernel_and_zero_stride() {
    let a = arr(vec![2, 2], vec![1, 2, 3, 4]);
    let kernel = ones(vec![1, 1]).with_dilation(0);
    let res = a.conv(&kernel, &ConvMode::Valid, &PaddingMode::Zeros);
    assert_eq!(res, Err(ConvError::InvalidKernel));
    let kernel = plain(arr(vec![0, 1], vec![]));
    let res = a.conv(&kernel, &ConvMode::Valid, &PaddingMode::Zeros);
    assert_eq!(res, Err(ConvError::InvalidKernel));
    let kernel = plain(ones(vec![1, 1]));
    let res = a.conv(
        &kernel,
        &ConvMode::Custom { padding: vec![0, 0], strides: vec![1, 0] },
        &PaddingMode::Zeros,
    );
    assert_eq!(res, Err(ConvError::ZeroStride));
}

#[test]
fn too_large() {
    let a = arr(vec![1], vec![1]);
    let kernel = plain(ones(vec![1]));
    let res = a.conv(
        &kernel,
        &ConvMode::Custom { padding: vec![usize::MAX / 2 + 1], strides: vec![1] },
        &PaddingMode::Zeros,
    );
    assert_eq!(res, Err(ConvError::TooLarge));
    let kernel = ones(vec![3]).with_dilation(usize::MAX / 2);
    let res = a.conv(&kernel, &ConvMode::Full, &PaddingMode::Zeros);
    assert_eq!(res, Err(ConvError::TooLarge));
}

#[test]
fn wrapping_accumulation() {
    let a = arr(vec![2], vec![i64::MAX, 1]);
    let kernel = plain(arr(vec![2], vec![1, 1]));
    let res = a.conv(&kernel, &ConvMode::Valid, &PaddingMode::Zeros);
    check(res, vec![1], vec![i64::MIN]);
}

#[test]
fn unfold_modes() {
    let spans = vec![4, 3];
    let f = ConvMode::Full.unfold(&spans);
    assert_eq!(f.padding, vec![(3, 3), (2, 2)]);
    assert_eq!(f.strides, vec![1, 1]);
    let s = ConvMode::Same.unfold(&spans);
    assert_eq!(s.padding, vec![(2, 1), (1, 1)]);
    let v = ConvMode::Valid.unfold(&spans);
    assert_eq!(v.padding, vec![(0, 0), (0, 0)]);
    let c = ConvMode::Custom { padding: vec![5, 6], strides: vec![2, 3] }.unfold(&spans);
    assert_eq!(c.padding, vec![(5, 5), (6, 6)]);
    assert_eq!(c.strides, vec![2, 3]);
    let e = ConvMode::Explicit { padding: vec![(1, 2), (3, 4)], strides: vec![5, 6] }
        .unfold(&spans);
    assert_eq!(e.padding, vec![(1, 2), (3, 4)]);
    assert_eq!(e.strides, vec![5, 6]);
}

#[test]
fn from_shape_vec_checks_length() {
    assert!(Tensor::from_shape_vec(vec![2, 3], vec![0; 5]).is_none());
    assert!(Tensor::from_shape_vec(vec![2, 0, usize::MAX], vec![]).is_some());
    assert!(Tensor::from_shape_vec(vec![usize::MAX, 2], vec![]).is_none());
}
