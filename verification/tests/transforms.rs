use ha_ndarray::array::{ArrayBase, NDArray, NDArrayRead, NDArrayTransform};
use ha_ndarray::bounds::AxisBound;
use ha_ndarray::platform::{Context, Queue};

fn host_queue() -> Queue {
    Queue::new(Context::default().unwrap(), 0).unwrap()
}

fn sample() -> ArrayBase<i32> {
    ArrayBase::new(vec![2, 3], vec![1, 2, 3, 4, 5, 6]).unwrap()
}

#[test]
fn transpose_without_axes_reverses_them() {
    let a = sample();
    let t = a.transpose(None).unwrap();
    assert_eq!(t.shape(), &[3, 2]);
    assert_eq!(t.to_vec(&host_queue()).unwrap(), vec![1, 4, 2, 5, 3, 6]);
}

#[test]
fn reshape_keeps_the_elements() {
    let a = sample();
    let r = a.reshape(vec![3, 2]).unwrap();
    assert_eq!(r.shape(), &[3, 2]);
    assert_eq!(r.to_vec(&host_queue()).unwrap(), vec![1, 2, 3, 4, 5, 6]);
    assert!(a.reshape(vec![4, 2]).is_err());
}

#[test]
fn slice_pins_an_axis() {
    let a = sample();
    let s = a.slice(vec![AxisBound::At(1), AxisBound::In(0, 3, 1)]).unwrap();
    assert_eq!(s.shape(), &[3]);
    assert_eq!(s.to_vec(&host_queue()).unwrap(), vec![4, 5, 6]);
}

#[test]
fn slice_gathers_and_steps() {
    let a = sample();
    let s = a.slice(vec![AxisBound::Of(vec![1, 0, 1]), AxisBound::In(0, 3, 2)]).unwrap();
    assert_eq!(s.shape(), &[3, 1]);
    assert_eq!(s.to_vec(&host_queue()).unwrap(), vec![4, 1, 4]);
}

#[test]
fn broadcast_repeats_a_row() {
    let row = ArrayBase::<i32>::new(vec![1, 3], vec![10, 20, 30]).unwrap();
    let b = row.broadcast(vec![2, 3]).unwrap();
    assert_eq!(b.shape(), &[2, 3]);
    assert_eq!(b.to_vec(&host_queue()).unwrap(), vec![10, 20, 30, 10, 20, 30]);
    assert!(row.broadcast(vec![2, 4]).is_err());
}
