use ha_ndarray::broadcast_shape;
use ha_ndarray::shape::{
    check_bound, check_shape, checked_size, div_ceil, expand_dims, insert_axes, permutation,
    permute, reduce_axis, strides_for, valid_size,
};
use ha_ndarray::Error;

#[test]
fn size_is_the_product_of_the_dimensions() {
    assert_eq!(checked_size(&[2, 3, 4]), Some(24));
    assert_eq!(checked_size(&[]), Some(1));
    assert_eq!(checked_size(&[usize::MAX, 2]), None);
    assert_eq!(checked_size(&[usize::MAX, 2, 0]), Some(0));
}

#[test]
fn a_valid_shape_is_not_empty_and_has_no_zero() {
    assert_eq!(valid_size(&[2, 3]), Some(6));
    assert_eq!(valid_size(&[]), None);
    assert_eq!(valid_size(&[2, 0]), None);
    assert_eq!(valid_size(&[usize::MAX, 2]), None);
}

#[test]
fn canonical_strides_skip_unit_axes() {
    assert_eq!(strides_for(&[2, 3, 4], 3), vec![12, 4, 1]);
    assert_eq!(strides_for(&[2, 1, 4], 4), vec![0, 4, 0, 1]);
    assert_eq!(strides_for(&[1], 3), vec![0, 0, 0]);
}

#[test]
fn broadcast_shape_aligns_trailing_axes() {
    assert_eq!(broadcast_shape(&[2, 3], &[3]).unwrap(), vec![2, 3]);
    assert_eq!(broadcast_shape(&[3], &[2, 3]).unwrap(), vec![2, 3]);
    assert_eq!(broadcast_shape(&[1, 3], &[2, 1]).unwrap(), vec![2, 3]);
    assert_eq!(broadcast_shape(&[4, 1, 3], &[2, 1]).unwrap(), vec![4, 2, 3]);
    assert!(matches!(broadcast_shape(&[2, 3], &[4]), Err(Error::Bounds(_))));
    assert!(matches!(broadcast_shape(&[], &[4]), Err(Error::Bounds(_))));
    assert!(matches!(broadcast_shape(&[4], &[]), Err(Error::Bounds(_))));
}

#[test]
fn check_shape_wants_equal_shapes() {
    assert_eq!(check_shape(&[2, 3], &[2, 3]).unwrap(), vec![2, 3]);
    assert!(matches!(check_shape(&[2, 3], &[3, 2]), Err(Error::Bounds(_))));
    assert!(matches!(check_shape(&[2, 3], &[2, 3, 1]), Err(Error::Bounds(_))));
}

#[test]
fn reduce_axis_removes_the_axis() {
    assert_eq!(reduce_axis(&[2, 3, 4], 0).unwrap(), vec![3, 4]);
    assert_eq!(reduce_axis(&[2, 3, 4], 1).unwrap(), vec![2, 4]);
    assert_eq!(reduce_axis(&[2, 3, 4], 2).unwrap(), vec![2, 3]);
    assert_eq!(reduce_axis(&[5], 0).unwrap(), vec![1]);
    assert!(matches!(reduce_axis(&[2, 3], 2), Err(Error::Bounds(_))));
}

#[test]
fn expand_dims_inserts_unit_axes_at_source_positions() {
    assert_eq!(expand_dims(&[2, 3], vec![]).unwrap(), vec![2, 3]);
    assert_eq!(expand_dims(&[2, 3], vec![0]).unwrap(), vec![1, 2, 3]);
    assert_eq!(expand_dims(&[2, 3], vec![2, 0]).unwrap(), vec![1, 2, 3, 1]);
    assert_eq!(expand_dims(&[2, 3], vec![1, 1]).unwrap(), vec![2, 1, 1, 3]);
    assert!(matches!(expand_dims(&[2, 3], vec![3]), Err(Error::Bounds(_))));
    assert_eq!(insert_axes(&[7, 8], &[1], 0), vec![7, 0, 8]);
}

#[test]
fn permutation_accepts_each_axis_once() {
    assert_eq!(permutation(3, None).unwrap(), vec![2, 1, 0]);
    assert_eq!(permutation(3, Some(vec![1, 2, 0])).unwrap(), vec![1, 2, 0]);
    assert!(matches!(permutation(3, Some(vec![0, 1])), Err(Error::Bounds(_))));
    assert!(matches!(permutation(3, Some(vec![0, 1, 1])), Err(Error::Bounds(_))));
    assert!(matches!(permutation(3, Some(vec![0, 1, 3])), Err(Error::Bounds(_))));
    assert_eq!(permute(&[10, 20, 30], &[2, 0, 1]), vec![30, 10, 20]);
}

#[test]
fn check_bound_tells_indices_from_ends() {
    assert!(check_bound(2, 3, true).is_ok());
    assert!(matches!(check_bound(3, 3, true), Err(Error::Bounds(_))));
    assert!(check_bound(3, 3, false).is_ok());
    assert!(matches!(check_bound(4, 3, false), Err(Error::Bounds(_))));
}

#[test]
fn div_ceil_rounds_up() {
    assert_eq!(div_ceil(10, 5), 2);
    assert_eq!(div_ceil(11, 5), 3);
    assert_eq!(div_ceil(0, 5), 0);
}
