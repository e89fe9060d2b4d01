use ha_ndarray::buffer::{Buffer, BufferConverter, BufferInstance, SliceConverter};
use ha_ndarray::platform::{Context, Queue};
use ha_ndarray::reduce::{fold_lane, reduce_along, reduce_all, BufferReduce, ReduceOp};
use ha_ndarray::Error;

fn queue() -> Queue {
    Queue::new(Context::default().unwrap(), 0).unwrap()
}

#[test]
fn converters_keep_the_data() {
    let data: Vec<i32> = vec![1, 2, 3];
    let owned = SliceConverter::Vec(data.clone());
    assert_eq!(owned.size(), 3);
    assert_eq!(owned.as_ref(), &[1, 2, 3]);
    assert_eq!(owned.into_vec(), vec![1, 2, 3]);
    let borrowed = SliceConverter::Slice(&data[..]);
    assert_eq!(borrowed.into_vec(), vec![1, 2, 3]);
    let converter = BufferConverter::from(data.clone());
    assert_eq!(converter.size(), 3);
    let buffer = converter.into_buffer().unwrap();
    assert_eq!(buffer.len(), 3);
    assert_eq!(BufferInstance::size(&buffer), 3);
    let back = BufferConverter::from(buffer).to_slice().unwrap();
    assert_eq!(back.into_vec(), data);
    let view = BufferConverter::from(&data[..]);
    assert_eq!(view.to_slice().unwrap().as_ref(), &[1, 2, 3]);
}

#[test]
fn buffer_write_wants_the_same_length() {
    let mut buffer = Buffer::from(vec![1i32, 2, 3]);
    buffer.write(BufferConverter::from(vec![7, 8, 9])).unwrap();
    assert_eq!(BufferConverter::from_buffer_ref(&buffer).to_slice().unwrap().into_vec(), vec![
        7, 8, 9
    ]);
    assert!(matches!(buffer.write(BufferConverter::from(vec![1, 2])), Err(Error::Bounds(_))));
    assert_eq!(BufferConverter::from(buffer).to_slice().unwrap().into_vec(), vec![7, 8, 9]);
}

#[test]
fn buffer_reductions() {
    let data: Vec<i16> = vec![3, -1, 4, 1, -5];
    assert_eq!(data.sum(&queue()).unwrap(), 2);
    assert_eq!(data.product(&queue()).unwrap(), 60);
    assert_eq!(BufferReduce::max(&data, &queue()).unwrap(), 4);
    assert_eq!(BufferReduce::min(&data, &queue()).unwrap(), -5);
    assert!(data.all(&queue()).unwrap());
    let buffer = Buffer::from(vec![0u8, 0]);
    assert!(!buffer.any(&queue()).unwrap());
    assert_eq!(buffer.sum(&queue()).unwrap(), 0);
    let empty: Vec<i32> = vec![];
    assert_eq!(empty.sum(&queue()).unwrap(), 0);
    assert_eq!(empty.product(&queue()).unwrap(), 1);
    assert_eq!(BufferReduce::max(&empty, &queue()).unwrap(), i32::MIN);
    assert_eq!(BufferReduce::min(&empty, &queue()).unwrap(), i32::MAX);
    assert!(empty.all(&queue()).unwrap());
    assert!(!empty.any(&queue()).unwrap());
}

#[test]
fn folds_and_lanes() {
    let data: Vec<i32> = (1..=12).collect();
    assert_eq!(fold_lane(ReduceOp::Sum, &data, 1, 4, 3), 2 + 6 + 10);
    assert_eq!(fold_lane(ReduceOp::Max, &data, 0, 1, 0), i32::MIN);
    assert_eq!(reduce_all(ReduceOp::Product, &data[..5]), 120);
    assert_eq!(reduce_along(ReduceOp::Sum, &data, &[2, 3, 2], 1), vec![9, 12, 27, 30]);
    assert_eq!(reduce_along(ReduceOp::Min, &data, &[2, 3, 2], 0), vec![1, 2, 3, 4, 5, 6]);
    assert_eq!(reduce_along(ReduceOp::Max, &data, &[2, 3, 2], 2), vec![2, 4, 6, 8, 10, 12]);
}

#[test]
fn axis_sums_add_up_to_the_sum() {
    let data: Vec<u8> = (0..60).map(|i| (i * 37 % 251) as u8).collect();
    let shape = [3usize, 4, 5];
    let total = reduce_all(ReduceOp::Sum, &data);
    for axis in 0..3 {
        let sums = reduce_along(ReduceOp::Sum, &data, &shape, axis);
        assert_eq!(reduce_all(ReduceOp::Sum, &sums), total);
    }
}
