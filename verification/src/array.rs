//! The array graph: what every node of it offers, and the node that owns its data.

use vstd::prelude::*;
use vstd::slice::slice_to_vec;
use crate::bounds::{
    bound_views, padded, slice_refusal, sliceable, sliced, sliced_shape, AxisBound,
};
use crate::buffer::{BufferConverter, SliceConverter};
use crate::dtype::CDatatype;
use crate::error::{
    bounds_about, bounds_between, message_about, message_between, zero_division_message, Error,
};
use crate::layout::reordered;
use crate::ops::Op;
use crate::platform::{Context, Queue, Settings, GPU_MIN_DEFAULT};
use crate::shape::{broadcast_into_refusal, reshape_refusal, shape_refusal};
use crate::shape::{
    axes_within, broadcasts_to, canonical_strides, checked_size, copy_of, expand_dims,
    expanded_shape, is_permutation, permuted, resolved_axes, same_dims, Shape, size_of,
    valid_shape, valid_size,
};
use crate::slice::ArraySlice;
use crate::view::ArrayView;

verus! {

/// A node of the array graph: it has a shape and a context.
pub trait NDArray: Clone + Sized {
    /// The type of the elements.
    type DType: CDatatype;

    /// The node keeps the invariants of its kind.
    spec fn valid(&self) -> bool;

    /// The shape, as a mathematical value.
    spec fn dims(&self) -> Seq<usize>;

    /// A valid node has a valid shape.
    proof fn lemma_valid(&self)
        requires
            self.valid(),
        ensures
            valid_shape(self.dims()),
    ;

    /// A clone has the shape of what it was cloned from, and is valid if that is.
    proof fn lemma_clone(&self, copy: &Self)
        requires
            cloned(*self, *copy),
        ensures
            copy.valid() == self.valid(),
            copy.settings() == self.settings(),
            copy.dims() == self.dims(),
    ;

    /// What the context of the node is set to.
    spec fn settings(&self) -> Settings;

    /// The context that the node was made in.
    fn context(&self) -> (context: &Context)
        ensures
            context.settings() == self.settings(),
    ;

    /// The shape.
    fn shape(&self) -> (shape: &[usize])
        ensures
            shape@ == self.dims(),
    ;

    /// The number of axes.
    fn ndim(&self) -> (n: usize)
        ensures
            n == self.dims().len(),
    {
        self.shape().len()
    }

    /// The number of elements.
    fn size(&self) -> (n: usize)
        requires
            self.valid(),
        ensures
            n == size_of(self.dims()),
    {
        proof {
            self.lemma_valid();
        }
        match checked_size(self.shape()) {
            Some(n) => n,
            None => 0,
        }
    }
}

/// A node that can be evaluated.
pub trait NDArrayRead: NDArray {
    /// The elements of the array in row-major order.
    spec fn elements(&self) -> Seq<Self::DType>;

    /// The array can be evaluated: no division in it meets a zero divisor.
    spec fn defined(&self) -> bool;

    /// A valid array has as many elements as its shape says.
    proof fn lemma_elements(&self)
        requires
            self.valid(),
        ensures
            self.elements().len() == size_of(self.dims()),
    ;

    /// A clone has the elements of what it was cloned from.
    proof fn lemma_clone_read(&self, copy: &Self)
        requires
            cloned(*self, *copy),
        ensures
            copy.elements() == self.elements(),
            copy.defined() == self.defined(),
    ;

    /// Evaluates the array: the buffer holds its elements in row-major order.
    /// It fails, with an interface error, only where a division meets a zero divisor.
    fn read<'a>(&'a self, queue: &Queue) -> (buffer: Result<
        BufferConverter<'a, Self::DType>,
        Error,
    >)
        requires
            self.valid(),
        ensures
            buffer is Ok == self.defined(),
            buffer matches Ok(b) ==> b@ == self.elements(),
            buffer matches Err(e) ==> e is Interface && e.cause() == zero_division_message(),
    ;

    /// Evaluates the array into host memory.
    fn to_host<'a>(&'a self, queue: &Queue) -> (data: Result<
        SliceConverter<'a, Self::DType>,
        Error,
    >)
        requires
            self.valid(),
        ensures
            data is Ok == self.defined(),
            data matches Ok(d) ==> d@ == self.elements(),
            data matches Err(e) ==> e is Interface && e.cause() == zero_division_message(),
    {
        match self.read(queue) {
            Ok(converter) => converter.to_slice(),
            Err(cause) => Err(cause),
        }
    }

    /// Evaluates the array into a vector of its own.
    fn to_vec(&self, queue: &Queue) -> (data: Result<Vec<Self::DType>, Error>)
        requires
            self.valid(),
        ensures
            data is Ok == self.defined(),
            data matches Ok(d) ==> d@ == self.elements(),
            data matches Err(e) ==> e is Interface && e.cause() == zero_division_message(),
    {
        match self.to_host(queue) {
            Ok(data) => Ok(data.into_vec()),
            Err(cause) => Err(cause),
        }
    }
}

/// A node that can be written to.
pub trait NDArrayWrite<A: NDArrayRead>: NDArrayRead<DType = A::DType> {
    /// Overwrites the elements of this array with those of `other`, which must
    /// have the same shape: afterwards a read of this array gives what a read
    /// of `other` gives. Nothing changes where it fails: with a bounds error
    /// where the shapes differ, else with the error of the evaluation of `other`.
    fn write(&mut self, other: &A) -> (done: Result<(), Error>)
        requires
            old(self).valid(),
            other.valid(),
        ensures
            done is Ok == (old(self).dims() == other.dims() && other.defined()),
            final(self).valid(),
            final(self).settings() == old(self).settings(),
            final(self).defined() == old(self).defined(),
            final(self).dims() == old(self).dims(),
            done is Ok ==> final(self).elements() == other.elements(),
            done is Err ==> final(self).elements() == old(self).elements(),
            done matches Err(e) ==> (if old(self).dims() != other.dims() {
                e is Bounds && e.cause() == message_between(
                    "cannot write between shapes "@,
                    other.dims(),
                    old(self).dims(),
                )
            } else {
                e is Interface && e.cause() == zero_division_message()
            }),
    ;
}

/// The shape-changing operations. None of them copies the elements: each
/// returns a node that reads this one.
pub trait NDArrayTransform: NDArrayRead {
    type Broadcast: NDArrayRead<DType = Self::DType>;

    type Expand: NDArrayRead<DType = Self::DType>;

    type Reshape: NDArrayRead<DType = Self::DType>;

    type Slice: NDArrayRead<DType = Self::DType>;

    type Transpose: NDArrayRead<DType = Self::DType>;

    /// The array seen in the shape `shape`, which must be a valid shape that
    /// this array broadcasts to: the elements are repeated along the new axes
    /// and along the axes on which this array has size 1.
    fn broadcast(&self, shape: Shape) -> (view: Result<Self::Broadcast, Error>)
        requires
            self.valid(),
        ensures
            view is Ok == (valid_shape(shape@) && broadcasts_to(self.dims(), shape@)),
            view matches Ok(v) ==> v.valid() && v.settings() == self.settings()
                && v.dims() == shape@ && v.defined() == self.defined()
                && v.elements() == reordered(
                self.elements(),
                shape@,
                canonical_strides(self.dims(), shape@.len() as int),
            ),
            view matches Err(e) ==> e is Bounds && e.cause() == broadcast_into_refusal(self.dims(), shape@),
    ;

    /// The array with an axis of size 1 inserted at each of the positions
    /// `axes`, which are positions among the axes of this array, the one past
    /// the last included. The elements stay as they are.
    fn expand_dims(&self, axes: Vec<usize>) -> (view: Result<Self::Expand, Error>)
        requires
            self.valid(),
        ensures
            view is Ok == axes_within(axes@, self.dims().len() as int),
            view matches Ok(v) ==> v.valid() && v.settings() == self.settings()
                && v.dims() == expanded_shape(self.dims(), axes@)
                && v.defined() == self.defined() && v.elements() == self.elements(),
            view matches Err(e) ==> e is Bounds && e.cause() == message_between(
                "cannot expand axes and shape "@,
                axes@,
                self.dims(),
            ),
    ;

    /// The array in the shape `shape`, which must be valid and of the same
    /// size. The elements stay as they are.
    fn reshape(&self, shape: Shape) -> (view: Result<Self::Reshape, Error>)
        requires
            self.valid(),
        ensures
            view is Ok == (valid_shape(shape@) && size_of(shape@) == size_of(self.dims())),
            view matches Ok(v) ==> v.valid() && v.settings() == self.settings()
                && v.dims() == shape@ && v.defined() == self.defined()
                && v.elements() == self.elements(),
            view matches Err(e) ==> e is Bounds && e.cause() == reshape_refusal(self.dims(), shape@),
    ;

    /// The part of the array that `bounds` keep, one bound for each of the
    /// first axes; the remaining axes are kept whole.
    fn slice(&self, bounds: Vec<AxisBound>) -> (view: Result<Self::Slice, Error>)
        requires
            self.valid(),
        ensures
            view is Ok == sliceable(bound_views(bounds@), self.dims()),
            view matches Ok(v) ==> v.valid() && v.settings() == self.settings()
                && v.dims() == sliced_shape(
                padded(bound_views(bounds@), self.dims()),
            ) && v.defined() == self.defined() && v.elements() == sliced(
                self.elements(),
                self.dims(),
                padded(bound_views(bounds@), self.dims()),
            ),
            view matches Err(e) ==> e is Bounds && e.cause() == slice_refusal(
                bound_views(bounds@),
                self.dims(),
            ),
    ;

    /// The array with its axes in the order `axes`, which must name each axis
    /// once, or in reverse order where none is given.
    fn transpose(&self, axes: Option<Vec<usize>>) -> (view: Result<Self::Transpose, Error>)
        requires
            self.valid(),
        ensures
            view is Ok == (axes is None || is_permutation(
                axes->Some_0@,
                self.dims().len() as int,
            )),
            view matches Ok(v) ==> v.valid() && v.settings() == self.settings()
                && v.dims() == permuted(
                self.dims(),
                resolved_axes(axes, self.dims().len() as int),
            ) && v.defined() == self.defined() && v.elements() == reordered(
                self.elements(),
                permuted(self.dims(), resolved_axes(axes, self.dims().len() as int)),
                permuted(
                    canonical_strides(self.dims(), self.dims().len() as int),
                    resolved_axes(axes, self.dims().len() as int),
                ),
            ),
            view matches Err(e) ==> e is Bounds && e.cause() == message_about(
                "invalid permutation: "@,
                axes->Some_0@,
            ),
    ;
}

/// An array that owns its elements.
pub struct ArrayBase<T> {
    context: Context,
    shape: Shape,
    data: Vec<T>,
}

impl<T: CDatatype> Clone for ArrayBase<T> {
    fn clone(&self) -> (copy: Self)
        ensures
            copy.valid() == self.valid(),
            copy.settings() == self.settings(),
            copy.dims() == self.dims(),
            copy.elements() == self.elements(),
    {
        ArrayBase {
            context: self.context.clone(),
            shape: copy_of(self.shape.as_slice()),
            data: slice_to_vec(self.data.as_slice()),
        }
    }
}

impl<T: CDatatype> ArrayBase<T> {
    /// An array with the elements of `other`, evaluated now.
    pub fn copy<O: NDArrayRead<DType = T>>(other: &O) -> (array: Result<Self, Error>)
        requires
            other.valid(),
        ensures
            array is Ok == other.defined(),
            array matches Ok(a) ==> a.valid() && a.settings() == other.settings()
                && a.dims() == other.dims() && a.elements()
                == other.elements(),
            array matches Err(e) ==> e is Interface && e.cause() == zero_division_message(),
    {
        let context = other.context().clone();
        let queue = match Queue::new(context.clone(), other.size()) {
            Ok(queue) => queue,
            Err(cause) => {
                return Err(cause);
            },
        };
        let shape = copy_of(other.shape());
        proof {
            other.lemma_valid();
            other.lemma_elements();
        }
        match other.to_vec(&queue) {
            Ok(data) => Ok(ArrayBase { context, shape, data }),
            Err(cause) => Err(cause),
        }
    }

    /// An array of the given shape that holds `data`, in the default context.
    /// The shape must be valid and `data` hold as many elements as it says.
    pub fn new(shape: Shape, data: Vec<T>) -> (array: Result<Self, Error>)
        ensures
            array is Ok == (valid_shape(shape@) && data@.len() == size_of(shape@)),
            array matches Ok(a) ==> a.valid() && a.dims() == shape@ && a.elements() == data@
                && a.settings() == (GPU_MIN_DEFAULT, GPU_MIN_DEFAULT, (0nat, 0nat, 0nat)),
            array matches Err(e) ==> e is Bounds && e.cause() == shape_refusal(shape@),
    {
        match Context::default() {
            Ok(context) => Self::with_context(context, shape, data),
            Err(cause) => Err(cause),
        }
    }

    /// An array of the given shape that holds `data`, in the given context.
    /// The shape must be valid and `data` hold as many elements as it says.
    pub fn with_context(context: Context, shape: Shape, data: Vec<T>) -> (array: Result<
        Self,
        Error,
    >)
        ensures
            array is Ok == (valid_shape(shape@) && data@.len() == size_of(shape@)),
            array matches Ok(a) ==> a.valid() && a.dims() == shape@ && a.elements() == data@
                && a.settings() == context.settings(),
            array matches Err(e) ==> e is Bounds && e.cause() == shape_refusal(shape@),
    {
        match valid_size(shape.as_slice()) {
            Some(size) => {
                if data.len() == size {
                    Ok(ArrayBase { context, shape, data })
                } else {
                    Err(bounds_about("wrong number of elements for shape ", shape.as_slice()))
                }
            },
            None => Err(bounds_about("invalid shape ", shape.as_slice())),
        }
    }

    /// An array of the given shape, which must be valid, with every element
    /// equal to `value`, in the default context.
    pub fn constant(shape: Shape, value: T) -> (array: Result<Self, Error>)
        ensures
            array is Ok == valid_shape(shape@),
            array matches Ok(a) ==> a.valid() && a.dims() == shape@ && a.elements() == Seq::new(
                size_of(shape@),
                |i: int| value,
            ) && a.settings() == (GPU_MIN_DEFAULT, GPU_MIN_DEFAULT, (0nat, 0nat, 0nat)),
            array matches Err(e) ==> e is Bounds && e.cause() == message_about("invalid shape "@, shape@),
    {
        match valid_size(shape.as_slice()) {
            Some(size) => {
                let mut data: Vec<T> = Vec::new();
                let mut i: usize = 0;
                while i < size
                    invariant
                        i <= size,
                        data@ == Seq::new(i as nat, |k: int| value),
                    decreases size - i,
                {
                    data.push(value);
                    assert(data@ =~= Seq::new((i + 1) as nat, |k: int| value));
                    i += 1;
                }
                Self::new(shape, data)
            },
            None => Err(bounds_about("invalid shape ", shape.as_slice())),
        }
    }

    /// The elements.
    pub fn into_data(self) -> (data: Vec<T>)
        ensures
            data@ == self.elements(),
    {
        self.data
    }
}

impl<T: CDatatype> NDArray for ArrayBase<T> {
    type DType = T;

    closed spec fn settings(&self) -> Settings {
        self.context.settings()
    }

    closed spec fn valid(&self) -> bool {
        &&& valid_shape(self.shape@)
        &&& self.data@.len() == size_of(self.shape@)
    }

    closed spec fn dims(&self) -> Seq<usize> {
        self.shape@
    }

    proof fn lemma_valid(&self) {
    }

    proof fn lemma_clone(&self, copy: &Self) {
    }

    fn context(&self) -> (context: &Context) {
        &self.context
    }

    fn shape(&self) -> (shape: &[usize]) {
        self.shape.as_slice()
    }
}

impl<T: CDatatype> NDArrayRead for ArrayBase<T> {
    closed spec fn elements(&self) -> Seq<T> {
        self.data@
    }

    open spec fn defined(&self) -> bool {
        true
    }

    proof fn lemma_elements(&self) {
    }

    proof fn lemma_clone_read(&self, copy: &Self) {
    }

    fn read<'a>(&'a self, queue: &Queue) -> (buffer: Result<BufferConverter<'a, T>, Error>) {
        Ok(BufferConverter::from_slice(self.data.as_slice()))
    }
}

impl<A: NDArrayRead> NDArrayWrite<A> for ArrayBase<A::DType> {
    fn write(&mut self, other: &A) -> (done: Result<(), Error>) {
        if !same_dims(self.shape.as_slice(), other.shape()) {
            return Err(
                bounds_between("cannot write between shapes ", other.shape(), self.shape.as_slice()),
            );
        }
        let size: usize = self.size();
        let queue = match Queue::new(self.context.clone(), size) {
            Ok(queue) => queue,
            Err(cause) => {
                return Err(Error::Interface(cause.message()));
            },
        };
        proof {
            other.lemma_elements();
        }
        match other.to_vec(&queue) {
            Ok(data) => {
                self.data = data;
                Ok(())
            },
            Err(cause) => Err(cause),
        }
    }
}

impl<T: CDatatype> NDArrayTransform for ArrayBase<T> {
    type Broadcast = ArrayView<Self>;

    type Expand = Self;

    type Reshape = Self;

    type Slice = ArraySlice<Self>;

    type Transpose = ArrayView<Self>;

    fn broadcast(&self, shape: Shape) -> (view: Result<ArrayView<Self>, Error>) {
        ArrayView::broadcast(self.clone(), shape)
    }

    fn expand_dims(&self, axes: Vec<usize>) -> (view: Result<Self, Error>) {
        match expand_dims(self.shape.as_slice(), axes) {
            Ok(shape) => {
                proof {
                    crate::shape::lemma_expanded_shape(self.shape@, axes@);
                }
                Ok(
                    ArrayBase {
                        context: self.context.clone(),
                        shape,
                        data: slice_to_vec(self.data.as_slice()),
                    },
                )
            },
            Err(cause) => Err(cause),
        }
    }

    fn reshape(&self, shape: Shape) -> (view: Result<Self, Error>) {
        match valid_size(shape.as_slice()) {
            Some(size) => {
                if size == self.size() {
                    Ok(
                        ArrayBase {
                            context: self.context.clone(),
                            shape,
                            data: slice_to_vec(self.data.as_slice()),
                        },
                    )
                } else {
                    Err(
                        bounds_between(
                            "cannot reshape between shapes ",
                            self.shape.as_slice(),
                            shape.as_slice(),
                        ),
                    )
                }
            },
            None => Err(bounds_about("cannot reshape into ", shape.as_slice())),
        }
    }

    fn slice(&self, bounds: Vec<AxisBound>) -> (view: Result<ArraySlice<Self>, Error>) {
        ArraySlice::new(self.clone(), bounds)
    }

    fn transpose(&self, axes: Option<Vec<usize>>) -> (view: Result<ArrayView<Self>, Error>) {
        ArrayView::transposed(self.clone(), axes)
    }
}

/// An array whose elements a deferred operator computes.
pub struct ArrayOp<O> {
    op: O,
    shape: Shape,
}

impl<O: Op> Clone for ArrayOp<O> {
    fn clone(&self) -> (copy: Self)
        ensures
            copy.valid() == self.valid(),
            copy.settings() == self.settings(),
            copy.dims() == self.dims(),
            copy.elements() == self.elements(),
            copy.defined() == self.defined(),
    {
        let op = self.op.clone();
        proof {
            self.op.lemma_clone(&op);
        }
        ArrayOp { op, shape: self.shape.clone() }
    }
}

impl<O: Op> ArrayOp<O> {
    /// The operator that the array holds.
    pub closed spec fn operator(&self) -> O {
        self.op
    }

    /// The array of shape `shape` that `op` computes. Nothing is computed yet:
    /// the array holds the operator and reads through it. It is valid where
    /// the operator is, the shape is valid, and the shape has the size of the
    /// output of the operator.
    pub fn new(shape: Shape, op: O) -> (array: Self)
        ensures
            array.valid() == (op.valid() && valid_shape(shape@) && size_of(shape@) == op.size()),
            array.operator() == op,
            array.settings() == op.settings(),
            array.dims() == shape@,
            array.elements() == op.output(),
            array.defined() == op.defined(),
    {
        ArrayOp { op, shape }
    }
}

impl<O: Op> NDArray for ArrayOp<O> {
    type DType = O::Out;

    closed spec fn settings(&self) -> Settings {
        self.op.settings()
    }

    closed spec fn valid(&self) -> bool {
        &&& self.op.valid()
        &&& valid_shape(self.shape@)
        &&& size_of(self.shape@) == self.op.size()
    }

    closed spec fn dims(&self) -> Seq<usize> {
        self.shape@
    }

    proof fn lemma_valid(&self) {
    }

    proof fn lemma_clone(&self, copy: &Self) {
    }

    fn context(&self) -> (context: &Context) {
        self.op.context()
    }

    fn shape(&self) -> (shape: &[usize]) {
        self.shape.as_slice()
    }
}

impl<O: Op> NDArrayRead for ArrayOp<O> {
    closed spec fn elements(&self) -> Seq<O::Out> {
        self.op.output()
    }

    closed spec fn defined(&self) -> bool {
        self.op.defined()
    }

    proof fn lemma_elements(&self) {
        self.op.lemma_output();
    }

    proof fn lemma_clone_read(&self, copy: &Self) {
    }

    fn read<'a>(&'a self, queue: &Queue) -> (buffer: Result<BufferConverter<'a, O::Out>, Error>) {
        match self.op.enqueue(queue) {
            Ok(buffer) => Ok(BufferConverter::from_buffer(buffer)),
            Err(cause) => Err(cause),
        }
    }
}

impl<O: Op> NDArrayTransform for ArrayOp<O> {
    type Broadcast = ArrayView<Self>;

    type Expand = Self;

    type Reshape = Self;

    type Slice = ArraySlice<Self>;

    type Transpose = ArrayView<Self>;

    fn broadcast(&self, shape: Shape) -> (view: Result<ArrayView<Self>, Error>) {
        ArrayView::broadcast(self.clone(), shape)
    }

    fn expand_dims(&self, axes: Vec<usize>) -> (view: Result<Self, Error>) {
        match expand_dims(self.shape.as_slice(), axes) {
            Ok(shape) => {
                proof {
                    crate::shape::lemma_expanded_shape(self.shape@, axes@);
                }
                self.reshape(shape)
            },
            Err(cause) => Err(cause),
        }
    }

    fn reshape(&self, shape: Shape) -> (view: Result<Self, Error>) {
        match valid_size(shape.as_slice()) {
            Some(size) => {
                if size == self.size() {
                    let op = self.op.clone();
                    proof {
                        self.op.lemma_clone(&op);
                    }
                    Ok(ArrayOp { op, shape })
                } else {
                    Err(
                        bounds_between(
                            "cannot reshape between shapes ",
                            self.shape.as_slice(),
                            shape.as_slice(),
                        ),
                    )
                }
            },
            None => Err(bounds_about("cannot reshape into ", shape.as_slice())),
        }
    }

    fn slice(&self, bounds: Vec<AxisBound>) -> (view: Result<ArraySlice<Self>, Error>) {
        ArraySlice::new(self.clone(), bounds)
    }

    fn transpose(&self, axes: Option<Vec<usize>>) -> (view: Result<ArrayView<Self>, Error>) {
        ArrayView::transposed(self.clone(), axes)
    }
}

} // verus!
