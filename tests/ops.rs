use ezkl::tensor::nonlinearities::{const_div, relu};
use ezkl::tensor::ops::{
    add, affine, const_add, const_mult, const_sub, convolution, div, dot, matmul, max_pool2d,
    mult, pad, pow, rescale, scale_and_shift, sub, sum, sumpool,
};
use ezkl::tensor::{Tensor, TensorError};

fn t(values: &[i32], dims: &[usize]) -> Tensor<i32> {
    Tensor::new(values.to_vec(), dims.to_vec()).unwrap()
}

fn mismatch(op: &str) -> TensorError {
    TensorError::DimMismatch(op.to_string())
}

#[test]
fn tensor_new_checks_size() {
    assert_eq!(
        Tensor::new(vec![1, 2, 3], vec![2, 2]),
        Err(mismatch("tensor"))
    );
    assert!(Tensor::new(Vec::<i32>::new(), vec![3, 0]).is_ok());
    assert!(Tensor::new(vec![1, 2, 3, 4, 5, 6], vec![2, 3]).is_ok());
}

#[test]
fn reshape_round_trip_restores_tensor() {
    let start = t(&[1, 2, 3, 4, 5, 6], &[2, 3]);
    let mut x = start.clone();
    x.reshape(&[3, 1, 2]);
    assert_eq!(x.dims(), &vec![3, 1, 2]);
    assert_eq!(x.inner(), start.inner());
    x.reshape(&[2, 3]);
    assert_eq!(x, start);
}

#[test]
fn flatten_keeps_elements() {
    let mut x = t(&[1, 2, 3, 4, 5, 6], &[2, 3]);
    x.flatten();
    assert_eq!(x, t(&[1, 2, 3, 4, 5, 6], &[6]));
}

#[test]
fn affine_matrix_input() {
    let x = t(&[5, 2, 3, 0, 4, -1, 3, 1, 6, 2, 1, 1], &[3, 4]);
    let k = t(&[2, 1, 2, 1, 1, 1], &[2, 3]);
    let b = t(&[0, 0], &[2]);
    let result = affine(&vec![x, k, b]).unwrap();
    assert_eq!(result, t(&[26, 7, 11, 3, 15, 3, 7, 2], &[2, 4]));
}

#[test]
fn affine_entry_is_row_dot_column_plus_bias() {
    let x = t(&[1, 2, 3, 4, 5, 6], &[3, 2]);
    let k = t(&[1, 0, -1, 2, 1, 0], &[2, 3]);
    let b = t(&[10, -3], &[2]);
    let result = affine(&vec![x, k, b]).unwrap();
    // [1,0,-1].[1,3,5] + 10 = 6; [1,0,-1].[2,4,6] + 10 = 6; [2,1,0].[1,3,5] - 3 = 2; [2,1,0].[2,4,6] - 3 = 5
    assert_eq!(result, t(&[6, 6, 2, 5], &[2, 2]));
}

#[test]
fn affine_vector_input_is_flattened() {
    let x = t(&[1, 2, 3], &[3]);
    let k = t(&[1, 1, 1, 0, 2, 0], &[2, 3]);
    let b = t(&[1, -1], &[2]);
    let result = affine(&vec![x, k, b]).unwrap();
    assert_eq!(result, t(&[7, 3], &[2]));
}

#[test]
fn affine_rejects_mismatched_shapes() {
    let x = t(&[1, 2], &[2]);
    let k = t(&[1, 1, 1, 0, 2, 0], &[2, 3]);
    let b = t(&[1, -1], &[2]);
    assert_eq!(affine(&vec![x.clone(), k.clone(), b.clone()]), Err(mismatch("affine")));
    assert_eq!(affine(&vec![x, k]), Err(mismatch("affine")));
}

#[test]
fn scale_and_shift_elementwise() {
    let x = t(&[2, 1, 2, 1, 1, 1], &[2, 3]);
    let k = t(&[2, 1, 2, 1, 1, 1], &[2, 3]);
    let b = t(&[2, 1, 2, 1, 1, 1], &[2, 3]);
    let result = scale_and_shift(&vec![x, k, b]).unwrap();
    assert_eq!(result, t(&[6, 2, 6, 2, 2, 2], &[2, 3]));
}

#[test]
fn scale_and_shift_rejects_mismatched_shapes() {
    let x = t(&[2, 1, 2, 1, 1, 1], &[2, 3]);
    let k = t(&[2, 1, 2, 1, 1, 1], &[3, 2]);
    let b = t(&[2, 1, 2, 1, 1, 1], &[2, 3]);
    assert_eq!(scale_and_shift(&vec![x, k, b]), Err(mismatch("scale and shift")));
}

#[test]
fn matmul_two_matrices() {
    let x = t(&[5, 2, 3, 0, 4, -1, 3, 1, 6, 2, 1, 1], &[3, 4]);
    let k = t(&[2, 1, 2, 1, 1, 1], &[2, 3]);
    let result = matmul(&vec![k, x]).unwrap();
    assert_eq!(result, t(&[26, 7, 11, 3, 15, 3, 7, 2], &[2, 4]));
}

#[test]
fn matmul_batched() {
    let a = t(&[1, 2, 3, 4, 1, 0, 0, 1], &[2, 2, 2]);
    let b = t(&[1, 1, 1, 1, 5, 6, 7, 8], &[2, 2, 2]);
    let result = matmul(&vec![a, b]).unwrap();
    assert_eq!(result, t(&[3, 3, 7, 7, 5, 6, 7, 8], &[2, 2, 2]));
}

#[test]
fn matmul_rejects_mismatched_shapes() {
    let a = t(&[1, 2, 3, 4, 5, 6], &[2, 3]);
    let b = t(&[1, 2, 3, 4], &[2, 2]);
    assert_eq!(matmul(&vec![a.clone(), b]), Err(mismatch("matmul")));
    let c = t(&[1, 2, 3, 4, 5, 6, 7, 8, 9, 10, 11, 12], &[2, 3, 2]);
    let d = t(&[1, 2, 3, 4, 5, 6, 7, 8, 9, 10, 11, 12], &[3, 2, 2]);
    assert_eq!(matmul(&vec![c, d]), Err(mismatch("matmul")));
}

#[test]
fn add_tensors() {
    let x = t(&[2, 1, 2, 1, 1, 1], &[2, 3]);
    let k = t(&[2, 3, 2, 1, 1, 1], &[2, 3]);
    assert_eq!(add(&vec![x, k]).unwrap(), t(&[4, 4, 4, 2, 2, 2], &[2, 3]));
}

#[test]
fn add_three_tensors() {
    let x = t(&[1, 2], &[2]);
    assert_eq!(add(&vec![x.clone(), x.clone(), x]).unwrap(), t(&[3, 6], &[2]));
}

#[test]
fn add_broadcasts_single_element() {
    let x = t(&[2, 1, 2, 1, 1, 1], &[2, 3]);
    let c = t(&[5], &[1]);
    assert_eq!(add(&vec![x, c]).unwrap(), t(&[7, 6, 7, 6, 6, 6], &[2, 3]));
}

#[test]
fn add_rejects_mismatched_shapes() {
    let x = t(&[2, 1, 2, 1, 1, 1], &[2, 3]);
    let k = t(&[2, 3], &[2]);
    assert_eq!(add(&vec![x, k]), Err(mismatch("add")));
    assert_eq!(add(&vec![]), Err(mismatch("add")));
}

#[test]
fn const_add_every_element() {
    let x = t(&[2, 1, 2, 1, 1, 1], &[2, 3]);
    assert_eq!(const_add(&x, 2).unwrap(), t(&[4, 3, 4, 3, 3, 3], &[2, 3]));
}

#[test]
fn sub_tensors() {
    let x = t(&[2, 1, 2, 1, 1, 1], &[2, 3]);
    let k = t(&[2, 3, 2, 1, 1, 1], &[2, 3]);
    assert_eq!(sub(&vec![x, k]).unwrap(), t(&[0, -2, 0, 0, 0, 0], &[2, 3]));
}

#[test]
fn sub_broadcasts_and_rejects() {
    let x = t(&[2, 1], &[2]);
    assert_eq!(sub(&vec![x.clone(), t(&[3], &[1])]).unwrap(), t(&[-1, -2], &[2]));
    assert_eq!(sub(&vec![x, t(&[1, 2, 3], &[3])]), Err(mismatch("sub")));
}

#[test]
fn const_sub_every_element() {
    let x = t(&[2, 1, 2, 1, 1, 1], &[2, 3]);
    assert_eq!(const_sub(&x, 2).unwrap(), t(&[0, -1, 0, -1, -1, -1], &[2, 3]));
}

#[test]
fn mult_tensors() {
    let x = t(&[2, 1, 2, 1, 1, 1], &[2, 3]);
    let k = t(&[2, 3, 2, 1, 1, 1], &[2, 3]);
    assert_eq!(mult(&vec![x, k]).unwrap(), t(&[4, 3, 4, 1, 1, 1], &[2, 3]));
}

#[test]
fn mult_broadcasts_and_rejects() {
    let x = t(&[2, -1], &[2]);
    assert_eq!(mult(&vec![x.clone(), t(&[3], &[1])]).unwrap(), t(&[6, -3], &[2]));
    assert_eq!(mult(&vec![x, t(&[1, 2, 3], &[3])]), Err(mismatch("mult")));
}

#[test]
fn div_tensors() {
    let x = t(&[4, 1, 4, 1, 1, 4], &[2, 3]);
    let y = t(&[2, 1, 2, 1, 1, 1], &[2, 3]);
    assert_eq!(div(x, y).unwrap(), t(&[2, 1, 2, 1, 1, 4], &[2, 3]));
}

#[test]
fn div_rounds_toward_zero() {
    let x = t(&[7, -7, 7, -7], &[4]);
    let y = t(&[2, 2, -2, -2], &[4]);
    assert_eq!(div(x, y).unwrap(), t(&[3, -3, -3, 3], &[4]));
}

#[test]
fn div_rejects_mismatched_shapes() {
    let x = t(&[4, 1], &[2]);
    let y = t(&[2, 1], &[1, 2]);
    assert_eq!(div(x, y), Err(mismatch("div")));
}

#[test]
fn const_mult_every_element() {
    let x = t(&[2, 1, 2, 1, 1, 1], &[2, 3]);
    assert_eq!(const_mult(&x, 2).unwrap(), t(&[4, 2, 4, 2, 2, 2], &[2, 3]));
}

#[test]
fn rescale_multiplies() {
    let x = t(&[2, 1, 2, 1, 1, 1], &[2, 3]);
    assert_eq!(rescale(&x, 2).unwrap(), t(&[4, 2, 4, 2, 2, 2], &[2, 3]));
    assert_eq!(rescale(&x, 0).unwrap(), t(&[0, 0, 0, 0, 0, 0], &[2, 3]));
    assert_eq!(rescale(&t(&[-3], &[1]), 5).unwrap(), t(&[-15], &[1]));
}

#[test]
fn pow_raises() {
    let x = t(&[2, 15, 2, 1, 1, 0], &[2, 3]);
    assert_eq!(pow(&x, 3).unwrap(), t(&[8, 3375, 8, 1, 1, 0], &[2, 3]));
    assert_eq!(pow(&x, 0).unwrap(), t(&[1, 1, 1, 1, 1, 1], &[2, 3]));
    assert_eq!(pow(&x, 1).unwrap(), x);
    assert_eq!(pow(&t(&[-2], &[1]), 31).unwrap(), t(&[i32::MIN], &[1]));
}

#[test]
fn sum_all_elements() {
    let x = t(&[2, 15, 2, 1, 1, 0], &[2, 3]);
    assert_eq!(sum(&x).unwrap(), t(&[21], &[1]));
    assert_eq!(sum(&t(&[], &[0])).unwrap(), t(&[0], &[1]));
}

#[test]
fn convolution_unpadded_sliding_window() {
    let x = t(&[5, 2, 3, 0, 4, -1, 3, 1, 6], &[1, 3, 3]);
    let k = t(&[5, 1, 1, 1], &[1, 1, 2, 2]);
    let b = t(&[0], &[1]);
    let result = convolution(&vec![x, k, b], (0, 0), (1, 1)).unwrap();
    assert_eq!(result, t(&[31, 16, 8, 26], &[1, 2, 2]));
}

#[test]
fn convolution_padded_strided_shape() {
    // (4 + 2 - 3) / 2 + 1 = 2 rows, (5 + 2 - 3) / 2 + 1 = 3 columns
    let x = t(&(1..=20).collect::<Vec<i32>>(), &[1, 4, 5]);
    let k = t(&[1; 18], &[2, 1, 3, 3]);
    let result = convolution(&vec![x, k], (1, 1), (2, 2)).unwrap();
    assert_eq!(result.dims(), &vec![2, 2, 3]);
    // top-left window covers rows -1..2, columns -1..2: 1 + 2 + 6 + 7
    assert_eq!(result.inner()[0], 16);
    assert_eq!(result.inner()[6], 16);
}

#[test]
fn convolution_adds_bias_and_channels() {
    let x = t(&[1, 2, 3, 4, 5, 6, 7, 8], &[2, 2, 2]);
    let k = t(&[1, 0, 0, 0, 0, 0, 0, 1], &[1, 2, 2, 2]);
    let b = t(&[100], &[1]);
    let result = convolution(&vec![x, k, b], (0, 0), (1, 1)).unwrap();
    assert_eq!(result, t(&[109], &[1, 1, 1]));
}

#[test]
fn convolution_rejects_mismatched_shapes() {
    let x = t(&[5, 2, 3, 0, 4, -1, 3, 1, 6], &[1, 3, 3]);
    let k = t(&[5, 1, 1, 1, 1, 1, 1, 1], &[1, 2, 2, 2]);
    assert_eq!(convolution(&vec![x.clone(), k], (0, 0), (1, 1)), Err(mismatch("conv")));
    let k = t(&[5, 1, 1, 1], &[1, 1, 2, 2]);
    let b = t(&[0, 0], &[2]);
    assert_eq!(
        convolution(&vec![x.clone(), k.clone(), b], (0, 0), (1, 1)),
        Err(mismatch("conv bias"))
    );
    let b2 = t(&[0], &[1, 1]);
    assert_eq!(
        convolution(&vec![x.clone(), k.clone(), b2], (0, 0), (1, 1)),
        Err(mismatch("conv bias"))
    );
    let big = t(&[1; 16], &[1, 1, 4, 4]);
    assert_eq!(convolution(&vec![x, big], (0, 0), (1, 1)), Err(mismatch("conv")));
}

#[test]
fn sumpool_windows() {
    let x = t(&[5, 2, 3, 0, 4, -1, 3, 1, 6], &[1, 3, 3]);
    let pooled = sumpool(&x, (0, 0), (1, 1), (2, 2)).unwrap();
    assert_eq!(pooled, t(&[11, 8, 8, 10], &[1, 2, 2]));
}

#[test]
fn max_pool2d_windows() {
    let x = t(&[5, 2, 3, 0, 4, -1, 3, 1, 6], &[1, 3, 3]);
    let pooled = max_pool2d(&x, (0, 0), (1, 1), (2, 2)).unwrap();
    assert_eq!(pooled, t(&[5, 4, 4, 6], &[1, 2, 2]));
}

#[test]
fn max_pool2d_sees_padding_zeros() {
    let x = t(&[-5, -2, -3, -4], &[1, 2, 2]);
    let pooled = max_pool2d(&x, (1, 1), (2, 2), (2, 2)).unwrap();
    assert_eq!(pooled, t(&[0, 0, 0, 0], &[1, 2, 2]));
}

#[test]
fn pooling_rejects_bad_shapes() {
    let x = t(&[5, 2, 3, 0], &[2, 2]);
    assert_eq!(sumpool(&x, (0, 0), (1, 1), (2, 2)), Err(mismatch("sumpool")));
    assert_eq!(max_pool2d(&x, (0, 0), (1, 1), (2, 2)), Err(mismatch("max_pool2d")));
    let y = t(&[5, 2, 3, 0], &[1, 2, 2]);
    assert_eq!(max_pool2d(&y, (0, 0), (1, 1), (0, 1)), Err(mismatch("max_pool2d")));
    assert_eq!(sumpool(&y, (0, 0), (1, 1), (3, 1)), Err(mismatch("sumpool")));
}

#[test]
fn dot_product() {
    let x = t(&[5, 2, 3, 0, 4, -1, 3, 1, 6], &[1, 3, 3]);
    let y = t(&[5, 5, 10, -4, 2, -1, 2, 0, 1], &[1, 3, 3]);
    assert_eq!(dot(&vec![&x, &y]).unwrap(), t(&[86], &[1]));
    let z = t(&[1, 2], &[2]);
    assert_eq!(dot(&vec![&x, &z]), Err(mismatch("dot")));
}

#[test]
fn pad_surrounds_with_zeros() {
    let x = t(&[5, 2, 3, 0, 4, -1, 3, 1, 6], &[1, 3, 3]);
    let result = pad(&x, (1, 1)).unwrap();
    let expected = t(
        &[0, 0, 0, 0, 0, 0, 5, 2, 3, 0, 0, 0, 4, -1, 0, 0, 3, 1, 6, 0, 0, 0, 0, 0, 0],
        &[1, 5, 5],
    );
    assert_eq!(result, expected);
    assert_eq!(pad(&t(&[1, 2], &[2]), (1, 1)), Err(mismatch("pad")));
}

#[test]
fn const_div_rounds_half_away_from_zero() {
    let x = t(&[2, 1, 2, 7, 1, 1], &[2, 3]);
    assert_eq!(const_div(&x, 2), t(&[1, 1, 1, 4, 1, 1], &[2, 3]));
    let y = t(&[-7, 5, -5, 6, 0], &[5]);
    assert_eq!(const_div(&y, 2), t(&[-4, 3, -3, 3, 0], &[5]));
    assert_eq!(const_div(&t(&[5, 7], &[2]), -2), t(&[-3, -4], &[2]));
}

#[test]
fn relu_clamps_and_rescales() {
    let x = t(&[-3, 0, 3, 5, 8], &[5]);
    assert_eq!(relu(&x, 1), t(&[0, 0, 3, 5, 8], &[5]));
    assert_eq!(relu(&x, 2), t(&[0, 0, 2, 3, 4], &[5]));
}

#[test]
fn shape_errors_come_before_stride() {
    let flat = t(&[1, 2, 3, 4], &[4]);
    let k = t(&[1], &[1, 1, 1, 1]);
    assert_eq!(convolution(&vec![flat.clone(), k], (0, 0), (0, 0)), Err(mismatch("conv")));
    assert_eq!(sumpool(&flat, (0, 0), (0, 1), (1, 1)), Err(mismatch("sumpool")));
    assert_eq!(max_pool2d(&flat, (0, 0), (1, 0), (1, 1)), Err(mismatch("max_pool2d")));
}
