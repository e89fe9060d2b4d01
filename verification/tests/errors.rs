use ha_ndarray::array::{ArrayBase, NDArrayRead, NDArrayTransform, NDArrayWrite};
use ha_ndarray::math::{NDArrayMath, NDArrayMathScalar};
use ha_ndarray::ops::{BooleanOp, CompareOp, DualOp};
use ha_ndarray::platform::{Context, Queue};
use ha_ndarray::reduce::ReduceOp;
use ha_ndarray::Error;

#[test]
fn every_error_carries_its_message() {
    assert_eq!(Error::Bounds("out of range".to_string()).message(), "out of range");
    assert_eq!(Error::Interface("misused".to_string()).message(), "misused");
    assert_eq!(Error::Device("driver failed".to_string()).message(), "driver failed");
}

#[test]
fn bounds_errors_name_the_shapes() {
    let a = ArrayBase::<i32>::new(vec![2, 3], vec![0; 6]).unwrap();
    match a.reshape(vec![4, 2]) {
        Err(Error::Bounds(message)) => {
            assert!(message.contains("[2, 3]"));
            assert!(message.contains("[4, 2]"));
        }
        _ => panic!("expected a bounds error"),
    }
    let b = ArrayBase::<i32>::new(vec![3, 2], vec![0; 6]).unwrap();
    match a.add(b) {
        Err(Error::Bounds(message)) => {
            assert!(message.contains("[2, 3]"));
            assert!(message.contains("[3, 2]"));
        }
        _ => panic!("expected a bounds error"),
    }
}

#[test]
fn interface_error_of_a_division_by_zero() {
    let a = ArrayBase::<u8>::new(vec![2], vec![1, 2]).unwrap();
    let zero = ArrayBase::<u8>::new(vec![2], vec![1, 0]).unwrap();
    let queue = Queue::new(Context::default().unwrap(), 2).unwrap();
    match a.rem(zero).unwrap().to_vec(&queue) {
        Err(Error::Interface(message)) => assert_eq!(message, "division by zero"),
        _ => panic!("expected an interface error"),
    }
}

#[test]
fn names_of_the_operations_in_kernel_text() {
    assert_eq!(DualOp::Add.name(), "add");
    assert_eq!(DualOp::Sub.name(), "sub");
    assert_eq!(DualOp::Mul.name(), "mul");
    assert_eq!(DualOp::Div.name(), "div");
    assert_eq!(DualOp::Rem.name(), "rem");
    assert_eq!(CompareOp::Eq.symbol(), "==");
    assert_eq!(CompareOp::Ne.symbol(), "!=");
    assert_eq!(CompareOp::Lt.symbol(), "<");
    assert_eq!(CompareOp::Le.symbol(), "<=");
    assert_eq!(CompareOp::Gt.symbol(), ">");
    assert_eq!(CompareOp::Ge.symbol(), ">=");
    assert_eq!(BooleanOp::And.symbol(), "&&");
    assert_eq!(BooleanOp::Or.symbol(), "||");
    assert_eq!(BooleanOp::Xor.symbol(), "^");
    assert_eq!(ReduceOp::Sum.name(), "add");
    assert_eq!(ReduceOp::Product.name(), "mul");
    assert_eq!(ReduceOp::Max.name(), "max");
    assert_eq!(ReduceOp::Min.name(), "min");
}

#[test]
fn messages_render_the_numbers_they_name() {
    match ha_ndarray::broadcast_shape(&[2, 3], &[4]) {
        Err(Error::Bounds(message)) => {
            assert_eq!(message, "cannot broadcast dimension 3 for dimension 4")
        }
        _ => panic!("expected a bounds error"),
    }
    match ha_ndarray::shape::reduce_axis(&[2, 3], 5) {
        Err(Error::Bounds(message)) => assert_eq!(message, "axis is out of bounds for shape [2, 3]"),
        _ => panic!("expected a bounds error"),
    }
    let a = ArrayBase::<i32>::new(vec![2, 3], vec![0; 6]).unwrap();
    match a.reshape(vec![4, 2]) {
        Err(Error::Bounds(message)) => {
            assert_eq!(message, "cannot reshape between shapes [2, 3] and [4, 2]")
        }
        _ => panic!("expected a bounds error"),
    }
}

#[test]
fn renderings_of_empty_lists_zero_and_large_numbers() {
    match ha_ndarray::shape::permutation(3, Some(vec![])) {
        Err(Error::Bounds(message)) => assert_eq!(message, "invalid permutation: []"),
        _ => panic!("expected a bounds error"),
    }
    match ha_ndarray::shape::check_bound(usize::MAX, 0, true) {
        Err(Error::Bounds(message)) => assert_eq!(
            message,
            format!("index is out of bounds: {} for dimension 0", usize::MAX)
        ),
        _ => panic!("expected a bounds error"),
    }
    match ha_ndarray::shape::expand_dims(&[7], vec![10, 200]) {
        Err(Error::Bounds(message)) => {
            assert_eq!(message, "cannot expand axes and shape [10, 200] and [7]")
        }
        _ => panic!("expected a bounds error"),
    }
}

#[test]
fn write_names_both_shapes_where_they_differ() {
    let mut a = ArrayBase::<i32>::new(vec![2, 3], vec![0; 6]).unwrap();
    let b = ArrayBase::<i32>::new(vec![3, 2], vec![1; 6]).unwrap();
    match a.write(&b) {
        Err(Error::Bounds(message)) => {
            assert_eq!(message, "cannot write between shapes [3, 2] and [2, 3]")
        }
        _ => panic!("expected a bounds error"),
    }
}

#[test]
fn write_hands_on_the_error_of_the_evaluation() {
    let mut a = ArrayBase::<i32>::new(vec![2], vec![5, 6]).unwrap();
    let bad = ArrayBase::<i32>::new(vec![2], vec![1, 2]).unwrap().div_scalar(0).unwrap();
    match a.write(&bad) {
        Err(Error::Interface(message)) => assert_eq!(message, "division by zero"),
        _ => panic!("expected an interface error"),
    }
    assert_eq!(a.into_data(), vec![5, 6]);
}
