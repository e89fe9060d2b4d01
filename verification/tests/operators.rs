use ha_ndarray::array::{ArrayBase, NDArray, NDArrayRead, NDArrayTransform, NDArrayWrite};
use ha_ndarray::linalg::MatrixMath;
use ha_ndarray::math::{
    NDArrayAbs, NDArrayBoolean, NDArrayCompare, NDArrayCompareScalar, NDArrayMath,
    NDArrayMathScalar, NDArrayNegate, NDArrayWhere,
};
use ha_ndarray::platform::{Context, Queue};
use ha_ndarray::reduce::NDArrayReduce;
use ha_ndarray::Error;

fn queue() -> Queue {
    Queue::new(Context::default().unwrap(), 0).unwrap()
}

fn sample() -> ArrayBase<i32> {
    ArrayBase::new(vec![2, 3], vec![1, 2, 3, 4, 5, 6]).unwrap()
}

#[test]
fn sum_along_each_axis_and_over_all() {
    assert_eq!(sample().sum_axis(0).unwrap().to_vec(&queue()).unwrap(), vec![5, 7, 9]);
    assert_eq!(sample().sum_axis(1).unwrap().to_vec(&queue()).unwrap(), vec![6, 15]);
    assert_eq!(sample().sum().unwrap(), 21);
    assert!(matches!(sample().sum_axis(2), Err(Error::Bounds(_))));
}

#[test]
fn reducing_the_only_axis_leaves_one_element() {
    let a = ArrayBase::<i32>::new(vec![4], vec![3, 1, 4, 1]).unwrap();
    let s = a.sum_axis(0).unwrap();
    assert_eq!(s.shape(), &[1]);
    assert_eq!(s.to_vec(&queue()).unwrap(), vec![9]);
}

#[test]
fn product_max_and_min() {
    assert_eq!(sample().product().unwrap(), 720);
    assert_eq!(sample().max().unwrap(), 6);
    assert_eq!(sample().min().unwrap(), 1);
    assert_eq!(sample().max_axis(0).unwrap().to_vec(&queue()).unwrap(), vec![4, 5, 6]);
    assert_eq!(sample().min_axis(1).unwrap().to_vec(&queue()).unwrap(), vec![1, 4]);
    assert_eq!(sample().product_axis(1).unwrap().to_vec(&queue()).unwrap(), vec![6, 120]);
}

#[test]
fn all_and_any() {
    assert!(sample().all().unwrap());
    assert!(sample().any().unwrap());
    let zeros = ArrayBase::<i32>::new(vec![3], vec![0, 0, 0]).unwrap();
    assert!(!zeros.clone().all().unwrap());
    assert!(!zeros.any().unwrap());
    let mixed = ArrayBase::<i32>::new(vec![3], vec![0, 7, 0]).unwrap();
    assert!(!mixed.clone().all().unwrap());
    assert!(mixed.any().unwrap());
}

#[test]
fn reductions_over_many_blocks() {
    let n: usize = 10_000;
    let data: Vec<u64> = (1..=n as u64).collect();
    let a = ArrayBase::new(vec![n], data).unwrap();
    assert_eq!(a.clone().sum().unwrap(), 50_005_000);
    assert_eq!(a.clone().max().unwrap(), 10_000);
    assert_eq!(a.clone().min().unwrap(), 1);
    assert!(a.all().unwrap());
}

#[test]
fn sums_wrap_around() {
    let a = ArrayBase::<u8>::new(vec![3], vec![200, 100, 1]).unwrap();
    assert_eq!(a.sum().unwrap(), 45);
    let b = ArrayBase::<i8>::new(vec![2], vec![127, 1]).unwrap();
    assert_eq!(b.sum().unwrap(), -128);
}

#[test]
fn scalar_product_plus_array() {
    let a = sample();
    let r = a.clone().mul_scalar(2).unwrap().add(a).unwrap();
    assert_eq!(r.to_vec(&queue()).unwrap(), vec![3, 6, 9, 12, 15, 18]);
}

#[test]
fn matrix_product() {
    let m1 = ArrayBase::<i32>::new(vec![2, 2], vec![1, 2, 3, 4]).unwrap();
    let m2 = ArrayBase::<i32>::new(vec![2, 2], vec![5, 6, 7, 8]).unwrap();
    let p = m1.matmul(m2).unwrap();
    assert_eq!(p.shape(), &[2, 2]);
    assert_eq!(p.to_vec(&queue()).unwrap(), vec![19, 22, 43, 50]);
}

#[test]
fn batched_matrix_product_of_other_shapes() {
    let l = ArrayBase::<i64>::new(vec![2, 1, 3], vec![1, 2, 3, 4, 5, 6]).unwrap();
    let r = ArrayBase::<i64>::new(vec![2, 3, 2], vec![1, 0, 0, 1, 1, 1, 2, 0, 0, 2, 1, 1]).unwrap();
    let p = l.matmul(r).unwrap();
    assert_eq!(p.shape(), &[2, 1, 2]);
    assert_eq!(p.to_vec(&queue()).unwrap(), vec![4, 5, 14, 16]);
}

#[test]
fn matrix_product_rejects_wrong_shapes() {
    let v = ArrayBase::<i32>::new(vec![3], vec![1, 2, 3]).unwrap();
    let m = ArrayBase::<i32>::new(vec![3, 2], vec![1, 2, 3, 4, 5, 6]).unwrap();
    assert!(matches!(v.matmul(m.clone()), Err(Error::Bounds(_))));
    assert!(matches!(m.clone().matmul(m.clone()), Err(Error::Bounds(_))));
    let b1 = ArrayBase::<i32>::new(vec![1, 2, 3], vec![1, 2, 3, 4, 5, 6]).unwrap();
    let b2 = ArrayBase::<i32>::new(vec![2, 3, 1], vec![1, 2, 3, 4, 5, 6]).unwrap();
    assert!(matches!(b1.matmul(b2), Err(Error::Bounds(_))));
}

#[test]
fn diagonal_of_square_matrices() {
    let m = ArrayBase::<i32>::new(vec![2, 2, 2], vec![1, 2, 3, 4, 5, 6, 7, 8]).unwrap();
    let d = m.diagonal().unwrap();
    assert_eq!(d.shape(), &[2, 2]);
    assert_eq!(d.to_vec(&queue()).unwrap(), vec![1, 4, 5, 8]);
    assert!(matches!(sample().diagonal(), Err(Error::Bounds(_))));
}

#[test]
fn comparison_with_a_scalar() {
    assert_eq!(sample().ge_scalar(3).unwrap().to_vec(&queue()).unwrap(), vec![0, 0, 1, 1, 1, 1]);
    assert_eq!(sample().lt_scalar(3).unwrap().to_vec(&queue()).unwrap(), vec![1, 1, 0, 0, 0, 0]);
    assert_eq!(sample().eq_scalar(3).unwrap().to_vec(&queue()).unwrap(), vec![0, 0, 1, 0, 0, 0]);
    assert_eq!(sample().gt_scalar(3).unwrap().to_vec(&queue()).unwrap(), vec![0, 0, 0, 1, 1, 1]);
    assert_eq!(sample().le_scalar(3).unwrap().to_vec(&queue()).unwrap(), vec![1, 1, 1, 0, 0, 0]);
    assert_eq!(sample().ne_scalar(3).unwrap().to_vec(&queue()).unwrap(), vec![1, 1, 0, 1, 1, 1]);
}

#[test]
fn comparison_of_two_arrays() {
    let b = ArrayBase::<i32>::new(vec![2, 3], vec![1, 3, 2, 4, 6, 5]).unwrap();
    assert_eq!(sample().gt(b.clone()).unwrap().to_vec(&queue()).unwrap(), vec![0, 0, 1, 0, 0, 1]);
    assert_eq!(sample().le(b.clone()).unwrap().to_vec(&queue()).unwrap(), vec![1, 1, 0, 1, 1, 0]);
    assert_eq!(sample().ne(b.clone()).unwrap().to_vec(&queue()).unwrap(), vec![0, 1, 1, 0, 1, 1]);
    assert_eq!(sample().eq(b.clone()).unwrap().to_vec(&queue()).unwrap(), vec![1, 0, 0, 1, 0, 0]);
    assert_eq!(sample().lt(b.clone()).unwrap().to_vec(&queue()).unwrap(), vec![0, 1, 0, 0, 1, 0]);
    assert_eq!(sample().ge(b).unwrap().to_vec(&queue()).unwrap(), vec![1, 0, 1, 1, 0, 1]);
    let other = ArrayBase::<i32>::new(vec![3, 2], vec![1, 3, 2, 4, 6, 5]).unwrap();
    assert!(matches!(sample().eq(other), Err(Error::Bounds(_))));
}

#[test]
fn logical_connectives() {
    let a = ArrayBase::<u8>::new(vec![4], vec![0, 0, 5, 1]).unwrap();
    let b = ArrayBase::<u8>::new(vec![4], vec![0, 2, 0, 1]).unwrap();
    assert_eq!(a.clone().and(b.clone()).unwrap().to_vec(&queue()).unwrap(), vec![0, 0, 0, 1]);
    assert_eq!(a.clone().or(b.clone()).unwrap().to_vec(&queue()).unwrap(), vec![0, 1, 1, 1]);
    assert_eq!(a.xor(b).unwrap().to_vec(&queue()).unwrap(), vec![0, 1, 1, 0]);
}

#[test]
fn broadcast_row_added_to_each_row() {
    let row = ArrayBase::<i32>::new(vec![1, 3], vec![10, 20, 30]).unwrap();
    let wide = row.broadcast(vec![2, 3]).unwrap();
    let r = wide.add(sample()).unwrap();
    assert_eq!(r.to_vec(&queue()).unwrap(), vec![11, 22, 33, 14, 25, 36]);
}

#[test]
fn division_rounds_towards_zero() {
    let a = ArrayBase::<i32>::new(vec![4], vec![7, -7, 7, -7]).unwrap();
    let b = ArrayBase::<i32>::new(vec![4], vec![2, 2, -2, -2]).unwrap();
    assert_eq!(a.clone().div(b.clone()).unwrap().to_vec(&queue()).unwrap(), vec![3, -3, -3, 3]);
    assert_eq!(a.rem(b).unwrap().to_vec(&queue()).unwrap(), vec![1, -1, 1, -1]);
}

#[test]
fn division_by_zero_is_an_interface_error() {
    let a = ArrayBase::<i32>::new(vec![2], vec![7, 8]).unwrap();
    let b = ArrayBase::<i32>::new(vec![2], vec![2, 0]).unwrap();
    let q = a.clone().div(b).unwrap();
    assert!(matches!(q.to_vec(&queue()), Err(Error::Interface(_))));
    let r = a.rem_scalar(0).unwrap();
    assert!(matches!(r.to_vec(&queue()), Err(Error::Interface(_))));
}

#[test]
fn arithmetic_wraps_around() {
    let a = ArrayBase::<u8>::new(vec![2], vec![250, 3]).unwrap();
    assert_eq!(a.clone().add_scalar(10).unwrap().to_vec(&queue()).unwrap(), vec![4, 13]);
    assert_eq!(a.clone().sub_scalar(5).unwrap().to_vec(&queue()).unwrap(), vec![245, 254]);
    assert_eq!(a.mul_scalar(3).unwrap().to_vec(&queue()).unwrap(), vec![238, 9]);
    let m = ArrayBase::<i8>::new(vec![1], vec![-128]).unwrap();
    assert_eq!(m.div_scalar(-1).unwrap().to_vec(&queue()).unwrap(), vec![-128]);
}

#[test]
fn absolute_value_negation_and_not() {
    let a = ArrayBase::<i32>::new(vec![3], vec![-2, 0, 5]).unwrap();
    assert_eq!(a.clone().abs().unwrap().to_vec(&queue()).unwrap(), vec![2, 0, 5]);
    assert_eq!(a.clone().neg().unwrap().to_vec(&queue()).unwrap(), vec![2, 0, -5]);
    assert_eq!(a.not().unwrap().to_vec(&queue()).unwrap(), vec![0, 1, 0]);
    let u = ArrayBase::<u8>::new(vec![3], vec![1, 128, 200]).unwrap();
    let n: Vec<i8> = u.neg().unwrap().to_vec(&queue()).unwrap();
    assert_eq!(n, vec![-1, -128, 56]);
}

#[test]
fn conditional_gather() {
    let cond = ArrayBase::<u8>::new(vec![3], vec![1, 0, 2]).unwrap();
    let l = ArrayBase::<i32>::new(vec![3], vec![10, 20, 30]).unwrap();
    let r = ArrayBase::<i32>::new(vec![3], vec![-1, -2, -3]).unwrap();
    let g = cond.clone().gather_cond(l.clone(), r).unwrap();
    assert_eq!(g.to_vec(&queue()).unwrap(), vec![10, -2, 30]);
    let short = ArrayBase::<i32>::new(vec![2], vec![1, 2]).unwrap();
    assert!(matches!(cond.gather_cond(l, short), Err(Error::Bounds(_))));
}

#[test]
fn write_replaces_the_elements() {
    let mut a = sample();
    let src = sample().mul_scalar(10).unwrap();
    a.write(&src).unwrap();
    assert_eq!(a.to_vec(&queue()).unwrap(), src.to_vec(&queue()).unwrap());
    assert_eq!(a.into_data(), vec![10, 20, 30, 40, 50, 60]);
}

#[test]
fn write_refuses_another_shape() {
    let mut a = sample();
    let other = ArrayBase::<i32>::new(vec![3, 2], vec![0; 6]).unwrap();
    assert!(matches!(a.write(&other), Err(Error::Bounds(_))));
    assert_eq!(a.into_data(), vec![1, 2, 3, 4, 5, 6]);
}

#[test]
fn reading_an_operator_twice_gives_the_same() {
    let op = sample().mul_scalar(3).unwrap();
    let first = op.to_vec(&queue()).unwrap();
    let second = op.to_vec(&queue()).unwrap();
    assert_eq!(first, second);
}

#[test]
fn transforms_of_operator_results() {
    let op = sample().add_scalar(1).unwrap();
    assert_eq!(op.transpose(None).unwrap().to_vec(&queue()).unwrap(), vec![2, 5, 3, 6, 4, 7]);
    assert_eq!(op.reshape(vec![6]).unwrap().to_vec(&queue()).unwrap(), vec![2, 3, 4, 5, 6, 7]);
    let e = op.expand_dims(vec![0, 2]).unwrap();
    assert_eq!(e.shape(), &[1, 2, 3, 1]);
}

#[test]
fn axis_sums_broadcast_back_over_the_axis() {
    let a = sample();
    let sums = a.clone().sum_axis(1).unwrap();
    let back = sums.expand_dims(vec![1]).unwrap().broadcast(vec![2, 3]).unwrap();
    assert_eq!(back.shape(), a.shape());
    assert_eq!(back.to_vec(&queue()).unwrap(), vec![6, 6, 6, 15, 15, 15]);
    let down = a.sum_axis(0).unwrap().expand_dims(vec![0]).unwrap().broadcast(vec![2, 3]).unwrap();
    assert_eq!(down.to_vec(&queue()).unwrap(), vec![5, 7, 9, 5, 7, 9]);
}

#[test]
fn sum_of_axis_sums_is_the_sum() {
    let data: Vec<i16> = (0..24).map(|i| (i * 1234 % 4001) as i16).collect();
    let a = ArrayBase::new(vec![2, 3, 4], data).unwrap();
    let total = a.clone().sum().unwrap();
    for axis in 0..3 {
        assert_eq!(a.clone().sum_axis(axis).unwrap().sum().unwrap(), total);
    }
}

#[test]
fn operators_keep_the_context_of_their_input() {
    let context = ha_ndarray::Context::new(7, 9, Some(ha_ndarray::Platform::new(1, 0, 0))).unwrap();
    let a = ArrayBase::<i32>::with_context(context, vec![2], vec![1, 2]).unwrap();
    let op = a.add_scalar(1).unwrap().transpose(None).unwrap();
    assert_eq!(op.context().select_class(6), Some(ha_ndarray::platform::DeviceKind::Cpu));
    assert_eq!(op.context().select_class(8), Some(ha_ndarray::platform::DeviceKind::Cpu));
}
