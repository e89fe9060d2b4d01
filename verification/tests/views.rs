use ha_ndarray::array::{ArrayBase, NDArray, NDArrayRead, NDArrayTransform};
use ha_ndarray::bounds::AxisBound;
use ha_ndarray::platform::{Context, Queue};
use ha_ndarray::Error;

fn queue() -> Queue {
    Queue::new(Context::default().unwrap(), 0).unwrap()
}

fn cube() -> ArrayBase<i32> {
    ArrayBase::new(vec![2, 3, 4], (0..24).collect()).unwrap()
}

#[test]
fn base_rejects_wrong_sizes_and_shapes() {
    assert!(matches!(ArrayBase::<i32>::new(vec![2, 3], vec![1, 2, 3]), Err(Error::Bounds(_))));
    assert!(matches!(ArrayBase::<i32>::new(vec![], vec![1]), Err(Error::Bounds(_))));
    assert!(matches!(ArrayBase::<i32>::new(vec![0, 3], vec![]), Err(Error::Bounds(_))));
    let a = ArrayBase::<i32>::new(vec![2, 3], vec![1, 2, 3, 4, 5, 6]).unwrap();
    assert_eq!(a.ndim(), 2);
    assert_eq!(a.size(), 6);
}

#[test]
fn constant_array() {
    let a = ArrayBase::<u8>::constant(vec![2, 2], 7).unwrap();
    assert_eq!(a.into_data(), vec![7, 7, 7, 7]);
}

#[test]
fn copy_evaluates_another_array() {
    let t = cube().transpose(Some(vec![2, 0, 1])).unwrap();
    let c = ArrayBase::copy(&t).unwrap();
    assert_eq!(c.shape(), &[4, 2, 3]);
    assert_eq!(c.to_vec(&queue()).unwrap(), t.to_vec(&queue()).unwrap());
}

#[test]
fn transpose_with_a_permutation() {
    let t = cube().transpose(Some(vec![1, 2, 0])).unwrap();
    assert_eq!(t.shape(), &[3, 4, 2]);
    let data = t.to_vec(&queue()).unwrap();
    // element (j, k, i) of the transpose is element (i, j, k) of the cube
    for i in 0..2 {
        for j in 0..3 {
            for k in 0..4 {
                assert_eq!(data[(j * 4 + k) * 2 + i], (i * 12 + j * 4 + k) as i32);
            }
        }
    }
    assert!(matches!(cube().transpose(Some(vec![0, 1])), Err(Error::Bounds(_))));
    assert!(matches!(cube().transpose(Some(vec![0, 1, 1])), Err(Error::Bounds(_))));
}

#[test]
fn transpose_and_back_by_the_inverse() {
    let a = cube();
    let there = a.transpose(Some(vec![1, 2, 0])).unwrap();
    let back = there.transpose(Some(vec![2, 0, 1])).unwrap();
    assert_eq!(back.shape(), a.shape());
    assert_eq!(back.to_vec(&queue()).unwrap(), a.to_vec(&queue()).unwrap());
}

#[test]
fn reshape_and_back() {
    let a = cube();
    let r = a.reshape(vec![6, 4]).unwrap().reshape(vec![2, 3, 4]).unwrap();
    assert_eq!(r.shape(), a.shape());
    assert_eq!(r.to_vec(&queue()).unwrap(), a.to_vec(&queue()).unwrap());
    let t = a.transpose(None).unwrap();
    let tr = t.reshape(vec![24]).unwrap().reshape(vec![4, 3, 2]).unwrap();
    assert_eq!(tr.to_vec(&queue()).unwrap(), t.to_vec(&queue()).unwrap());
    assert!(matches!(t.reshape(vec![5, 5]), Err(Error::Bounds(_))));
}

#[test]
fn full_slice_is_the_array() {
    let a = cube();
    let s = a
        .slice(vec![AxisBound::In(0, 2, 1), AxisBound::In(0, 3, 1), AxisBound::In(0, 4, 1)])
        .unwrap();
    assert_eq!(s.shape(), a.shape());
    assert_eq!(s.to_vec(&queue()).unwrap(), a.to_vec(&queue()).unwrap());
    let none = a.slice(vec![]).unwrap();
    assert_eq!(none.to_vec(&queue()).unwrap(), a.to_vec(&queue()).unwrap());
}

#[test]
fn slice_of_a_cube() {
    let s = cube()
        .slice(vec![AxisBound::At(1), AxisBound::In(1, 3, 1), AxisBound::Of(vec![3, 0])])
        .unwrap();
    assert_eq!(s.shape(), &[2, 2]);
    assert_eq!(s.to_vec(&queue()).unwrap(), vec![19, 16, 23, 20]);
}

#[test]
fn slice_rejects_bad_bounds() {
    let a = cube();
    assert!(matches!(a.slice(vec![AxisBound::At(2)]), Err(Error::Bounds(_))));
    assert!(matches!(a.slice(vec![AxisBound::In(0, 3, 1)]), Err(Error::Bounds(_))));
    assert!(matches!(a.slice(vec![AxisBound::In(2, 1, 1)]), Err(Error::Bounds(_))));
    assert!(matches!(a.slice(vec![AxisBound::In(0, 2, 0)]), Err(Error::Bounds(_))));
    assert!(matches!(a.slice(vec![AxisBound::In(1, 1, 1)]), Err(Error::Bounds(_))));
    assert!(matches!(a.slice(vec![AxisBound::Of(vec![0, 2])]), Err(Error::Bounds(_))));
    assert!(matches!(a.slice(vec![AxisBound::Of(vec![])]), Err(Error::Bounds(_))));
    assert!(matches!(
        a.slice(vec![AxisBound::At(0), AxisBound::At(0), AxisBound::At(0)]),
        Err(Error::Bounds(_))
    ));
    assert!(matches!(
        a.slice(vec![AxisBound::At(0), AxisBound::At(0), AxisBound::At(0), AxisBound::At(0)]),
        Err(Error::Bounds(_))
    ));
}

#[test]
fn axis_bound_sizes_and_conversions() {
    assert_eq!(AxisBound::At(3).size(), 0);
    assert_eq!(AxisBound::In(1, 8, 2).size(), 3);
    assert_eq!(AxisBound::Of(vec![4, 4, 1]).size(), 3);
    assert!(matches!(AxisBound::from(5), AxisBound::At(5)));
    assert!(matches!(AxisBound::from(2..6), AxisBound::In(2, 6, 1)));
    assert_eq!(AxisBound::from(vec![1, 2]).size(), 2);
}

#[test]
fn broadcast_of_a_scalar_is_constant() {
    let one = ArrayBase::<i32>::new(vec![1], vec![42]).unwrap();
    let b = one.broadcast(vec![2, 3]).unwrap();
    assert_eq!(b.shape(), &[2, 3]);
    assert_eq!(b.to_vec(&queue()).unwrap(), vec![42; 6]);
}

#[test]
fn broadcast_of_a_column() {
    let col = ArrayBase::<i32>::new(vec![2, 1], vec![1, 2]).unwrap();
    let b = col.broadcast(vec![3, 2, 2]).unwrap();
    assert_eq!(b.to_vec(&queue()).unwrap(), vec![1, 1, 2, 2, 1, 1, 2, 2, 1, 1, 2, 2]);
    assert!(matches!(col.broadcast(vec![2]), Err(Error::Bounds(_))));
    assert!(matches!(col.broadcast(vec![3, 2]), Err(Error::Bounds(_))));
    assert!(matches!(col.broadcast(vec![2, 0]), Err(Error::Bounds(_))));
}

#[test]
fn transforms_of_a_view_share_its_source() {
    let a = ArrayBase::<i32>::new(vec![2, 3], vec![1, 2, 3, 4, 5, 6]).unwrap();
    let t = a.transpose(None).unwrap();
    let tt = t.transpose(None).unwrap();
    assert_eq!(tt.shape(), &[2, 3]);
    assert_eq!(tt.to_vec(&queue()).unwrap(), vec![1, 2, 3, 4, 5, 6]);
    let e = t.expand_dims(vec![1]).unwrap();
    assert_eq!(e.shape(), &[3, 1, 2]);
    assert_eq!(e.to_vec(&queue()).unwrap(), vec![1, 4, 2, 5, 3, 6]);
    let b = e.broadcast(vec![2, 3, 2, 2]).unwrap();
    assert_eq!(
        b.to_vec(&queue()).unwrap(),
        vec![1, 4, 1, 4, 2, 5, 2, 5, 3, 6, 3, 6, 1, 4, 1, 4, 2, 5, 2, 5, 3, 6, 3, 6]
    );
    let s = t.slice(vec![AxisBound::In(1, 3, 1)]).unwrap();
    assert_eq!(s.to_vec(&queue()).unwrap(), vec![2, 5, 3, 6]);
    assert!(matches!(t.expand_dims(vec![3]), Err(Error::Bounds(_))));
    assert!(matches!(t.broadcast(vec![3, 3]), Err(Error::Bounds(_))));
}

#[test]
fn transforms_of_a_slice() {
    let s = cube().slice(vec![AxisBound::At(0)]).unwrap();
    assert_eq!(s.shape(), &[3, 4]);
    assert_eq!(s.transpose(None).unwrap().to_vec(&queue()).unwrap(), vec![
        0, 4, 8, 1, 5, 9, 2, 6, 10, 3, 7, 11
    ]);
    assert_eq!(s.reshape(vec![2, 6]).unwrap().shape(), &[2, 6]);
    assert_eq!(s.expand_dims(vec![0]).unwrap().shape(), &[1, 3, 4]);
    let again = s.slice(vec![AxisBound::At(2), AxisBound::In(1, 4, 2)]).unwrap();
    assert_eq!(again.to_vec(&queue()).unwrap(), vec![9]);
    let wide = again.broadcast(vec![3, 1]).unwrap();
    assert_eq!(wide.to_vec(&queue()).unwrap(), vec![9, 9, 9]);
}

#[test]
fn expand_dims_of_a_base_keeps_the_elements() {
    let a = ArrayBase::<i32>::new(vec![2, 3], vec![1, 2, 3, 4, 5, 6]).unwrap();
    let e = a.expand_dims(vec![1, 0]).unwrap();
    assert_eq!(e.shape(), &[1, 2, 1, 3]);
    assert_eq!(e.into_data(), vec![1, 2, 3, 4, 5, 6]);
    assert!(matches!(a.expand_dims(vec![3]), Err(Error::Bounds(_))));
}
