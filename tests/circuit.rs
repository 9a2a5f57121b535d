use ezkl::circuit::lookup::LookupTable;
use ezkl::circuit::range::{range_check_factors, range_check_holds};
use ezkl::circuit::utils::{value_muxer, ValTensor, VarTensor};
use ezkl::tensor::{Tensor, TensorError};

fn t(values: &[i32], dims: &[usize]) -> Tensor<i32> {
    Tensor::new(values.to_vec(), dims.to_vec()).unwrap()
}

#[test]
fn test_range_check() {
    const RANGE: usize = 8;
    for i in 0..RANGE as i32 {
        let input = t(&[i], &[1]);
        let expected = t(&[i + 1], &[1]);
        assert_eq!(range_check_holds(RANGE, &input, &expected), Ok(true));
    }
    let input = t(&[22], &[1]);
    let expected = t(&[0], &[1]);
    assert_eq!(range_check_holds(RANGE, &input, &expected), Ok(false));
}

#[test]
fn range_check_boundaries() {
    let expected = t(&[0, 0, 0, 0, 0], &[5]);
    assert_eq!(range_check_holds(8, &t(&[7, -7, 0, 3, -1], &[5]), &expected), Ok(true));
    assert_eq!(range_check_holds(8, &t(&[8], &[1]), &t(&[0], &[1])), Ok(false));
    assert_eq!(range_check_holds(8, &t(&[-9], &[1]), &t(&[0], &[1])), Ok(false));
    assert_eq!(range_check_holds(8, &t(&[-8], &[1]), &t(&[0], &[1])), Ok(false));
    assert_eq!(range_check_holds(1, &t(&[0, 3], &[2]), &t(&[0, 3], &[2])), Ok(true));
    assert_eq!(range_check_holds(1, &t(&[1], &[1]), &t(&[0], &[1])), Ok(false));
    assert_eq!(range_check_holds(1, &t(&[-1], &[1]), &t(&[0], &[1])), Ok(false));
}

#[test]
fn range_check_rejects_mismatched_shapes() {
    assert_eq!(
        range_check_holds(8, &t(&[1, 2], &[2]), &t(&[1, 2], &[1, 2])),
        Err(TensorError::DimMismatch("range check".to_string()))
    );
}

#[test]
fn range_check_factor_constants() {
    assert_eq!(range_check_factors(3), vec![-2, -1, 0, 1, 2]);
    assert_eq!(range_check_factors(1), vec![0]);
    assert_eq!(range_check_factors(0), Vec::<i32>::new());
}

#[test]
fn relu_table_is_complete_over_its_domain() {
    let table = LookupTable::relu(4, 1);
    assert_eq!(table.len(), 16);
    for x in -8..8 {
        let y = if x > 0 { x } else { 0 };
        assert!(table.contains(x, y));
        assert!(!table.contains(x, y + 1));
    }
    assert!(!table.contains(8, 8));
    assert!(!table.contains(-9, 0));
}

#[test]
fn relu_table_rounds_scaled_outputs() {
    let table = LookupTable::relu(5, 4);
    assert!(table.contains(6, 2));
    assert!(table.contains(5, 1));
    assert!(table.contains(-16, 0));
    assert!(table.contains(15, 4));
    assert!(!table.contains(16, 4));
}

#[test]
fn value_muxer_follows_column_kind() {
    let advice: VarTensor<u8, u16> =
        VarTensor::Advice { inner: vec![0], col_size: 4, capacity: 4, dims: vec![2] };
    let fixed: VarTensor<u8, u16> =
        VarTensor::Fixed { inner: vec![0], col_size: 4, capacity: 4, dims: vec![2] };
    let assigned = t(&[1, 2], &[2]);
    let given: ValTensor<i32, u32> = ValTensor::Value { inner: t(&[7, 8], &[2]), dims: vec![2] };
    assert_eq!(value_muxer(&advice, assigned.clone(), given), assigned);
    let given: ValTensor<i32, u32> = ValTensor::from_values(t(&[7, 8], &[2]));
    assert_eq!(given.dims(), &vec![2]);
    assert_eq!(value_muxer(&fixed, assigned, given), t(&[7, 8], &[2]));
    let chained: ValTensor<i32, u32> = ValTensor::from_assigned(Tensor::new(vec![5u32, 6], vec![1, 2]).unwrap());
    assert_eq!(chained.dims(), &vec![1, 2]);
    assert_eq!(value_muxer(&advice, t(&[5, 6], &[2]), chained), t(&[5, 6], &[2]));
}

#[test]
fn var_tensor_cells_and_reshape() {
    let mut v: VarTensor<u8, u16> =
        VarTensor::Advice { inner: vec![0, 1], col_size: 3, capacity: 6, dims: vec![6] };
    assert_eq!(v.cell_of(10, 4), (1, 11));
    assert_eq!(v.cell_of(0, 2), (0, 2));
    v.reshape(vec![2, 3]);
    assert_eq!(v.dims(), &vec![2, 3]);
    assert_eq!(v.cell_of(10, 4), (1, 11));
    match v {
        VarTensor::Advice { inner, col_size, capacity, .. } => {
            assert_eq!((inner, col_size, capacity), (vec![0, 1], 3, 6));
        }
        VarTensor::Fixed { .. } => panic!("reshape changed the column kind"),
    }
}
