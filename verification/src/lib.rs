//! A lazy n-dimensional array engine: array expressions are built from owned
//! buffers, views, slices and deferred operators, and evaluated on demand. A
//! context chooses the kind of device that an evaluation runs on from the
//! size of the work; the evaluation itself runs on the host's worker pool.

pub mod array;
pub mod bounds;
pub mod buffer;
pub mod cl_programs;
pub mod compose;
pub mod dtype;
pub mod error;
pub mod laws;
pub mod layout;
pub mod linalg;
pub mod math;
pub mod ops;
mod parallel;
pub mod platform;
pub mod reduce;
pub mod shape;
pub mod slice;
pub mod view;

pub use array::{ArrayBase, ArrayOp, NDArray, NDArrayRead, NDArrayTransform, NDArrayWrite};
pub use bounds::AxisBound;
pub use buffer::{Buffer, BufferConverter, BufferInstance, SliceConverter};
pub use dtype::{CDatatype, Negate};
pub use error::Error;
pub use linalg::MatrixMath;
pub use math::{
    NDArrayAbs, NDArrayBoolean, NDArrayCompare, NDArrayCompareScalar, NDArrayMath,
    NDArrayMathScalar, NDArrayNegate, NDArrayWhere,
};
pub use platform::{Context, Platform, Queue};
pub use reduce::{BufferReduce, NDArrayReduce};
pub use shape::{broadcast_shape, Shape};
pub use slice::ArraySlice;
pub use view::ArrayView;
