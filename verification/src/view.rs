//! Views: an array seen through a shape and strides of its own over the
//! elements of its source. Broadcasts, transposes and reshapes of arrays that
//! are not stored in row-major order are views.

use vstd::prelude::*;
use crate::array::{NDArray, NDArrayRead, NDArrayTransform};
use crate::bounds::AxisBound;
use crate::compose::{
    broadcast_strides, lemma_broadcast_view, lemma_broadcast_view_reach, lemma_expand_view,
    lemma_transpose_view,
};
use crate::slice::ArraySlice;
use crate::buffer::BufferConverter;
use crate::error::{bounds_about, bounds_between, message_about, Error};
use crate::layout::{
    dot, lemma_broadcast_reach, lemma_canonical_reach, lemma_dot_within_reach,
    lemma_reach_permuted, lemma_reordered_canonical, lemma_unravel_in_shape,
    lemma_valid_shape_permuted, offset_in, reach, reordered, unravel,
};
use crate::parallel::par_collect;
use crate::platform::{Context, Queue, Settings};
use crate::shape::broadcast_into_refusal;
use crate::shape::{
    broadcasts_to, can_broadcast_to, canonical_strides, check_axes_within, insert_axes,
    is_permutation, lemma_expanded_shape, permutation, permute, permuted, resolved_axes, size_of,
    strides_for, valid_shape, valid_size, Shape,
};

verus! {

/// An array seen through a shape and strides over the elements of `A`.
pub struct ArrayView<A> {
    source: A,
    shape: Shape,
    strides: Vec<usize>,
}

impl<A: NDArrayRead> Clone for ArrayView<A> {
    fn clone(&self) -> (copy: Self)
        ensures
            copy.valid() == self.valid(),
            copy.settings() == self.settings(),
            copy.dims() == self.dims(),
            copy.elements() == self.elements(),
            copy.defined() == self.defined(),
            copy.source_dims() == self.source_dims(),
            copy.source_elements() == self.source_elements(),
            copy.strides() == self.strides(),
    {
        let source = self.source.clone();
        proof {
            self.source.lemma_clone(&source);
            self.source.lemma_clone_read(&source);
        }
        ArrayView { source, shape: self.shape.clone(), strides: self.strides.clone() }
    }
}

/// What reading one element through a view asks for: the offset lies within
/// the view, whose shape is valid, `canon` holds the canonical strides of that
/// shape, and the view does not reach beyond a source of `source_len` elements.
pub open spec fn can_gather(
    offset: usize,
    shape: Seq<usize>,
    canon: Seq<usize>,
    strides: Seq<usize>,
    source_len: nat,
) -> bool {
    &&& offset < size_of(shape)
    &&& valid_shape(shape)
    &&& canon == canonical_strides(shape, shape.len() as int)
    &&& strides.len() == shape.len()
    &&& reach(shape, strides) < source_len <= usize::MAX
}

impl<A: NDArrayRead> ArrayView<A> {
    /// The strides of the view.
    pub closed spec fn strides(&self) -> Seq<usize> {
        self.strides@
    }

    /// The shape of the source of the view.
    pub closed spec fn source_dims(&self) -> Seq<usize> {
        self.source.dims()
    }

    /// The elements of the source of the view.
    pub closed spec fn source_elements(&self) -> Seq<A::DType> {
        self.source.elements()
    }

    /// A view of `source` in the given shape with the given strides, under
    /// which it must not reach beyond the source.
    pub(crate) fn new(source: A, shape: Shape, strides: Vec<usize>) -> (view: Result<Self, Error>)
        requires
            source.valid(),
            valid_shape(shape@),
            strides@.len() == shape@.len(),
            reach(shape@, strides@) < size_of(source.dims()),
        ensures
            view matches Ok(v) && v.valid() && v.settings() == source.settings()
                && v.dims() == shape@ && v.strides() == strides@
                && v.source_dims() == source.dims() && v.source_elements() == source.elements()
                && v.defined() == source.defined() && v.elements() == reordered(
                source.elements(),
                shape@,
                strides@,
            ),
    {
        Ok(ArrayView { source, shape, strides })
    }

    /// The view of `source` in the shape `shape`, which must be a valid shape
    /// that the source broadcasts to.
    pub(crate) fn broadcast(source: A, shape: Shape) -> (view: Result<Self, Error>)
        requires
            source.valid(),
        ensures
            view is Ok == (valid_shape(shape@) && broadcasts_to(source.dims(), shape@)),
            view matches Ok(v) ==> v.valid() && v.settings() == source.settings()
                && v.dims() == shape@ && v.defined()
                == source.defined() && v.elements() == reordered(
                source.elements(),
                shape@,
                canonical_strides(source.dims(), shape@.len() as int),
            ),
            view matches Err(e) ==> e is Bounds && e.cause() == broadcast_into_refusal(source.dims(), shape@),
    {
        if valid_size(shape.as_slice()).is_none() {
            return Err(bounds_about("cannot broadcast into ", shape.as_slice()));
        }
        if !can_broadcast_to(source.shape(), shape.as_slice()) {
            return Err(
                bounds_between("cannot broadcast between shapes ", source.shape(), shape.as_slice()),
            );
        }
        proof {
            source.lemma_valid();
            lemma_broadcast_reach(source.dims(), shape@);
        }
        let strides = strides_for(source.shape(), shape.len());
        Self::new(source, shape, strides)
    }

    /// The view of `source`, an array stored in row-major order, with its axes
    /// in the order `axes`, or in reverse order where none is given.
    pub(crate) fn transposed(source: A, axes: Option<Vec<usize>>) -> (view: Result<Self, Error>)
        requires
            source.valid(),
        ensures
            view is Ok == (axes is None || is_permutation(
                axes->Some_0@,
                source.dims().len() as int,
            )),
            view matches Ok(v) ==> v.valid() && v.settings() == source.settings()
                && v.dims() == permuted(
                source.dims(),
                resolved_axes(axes, source.dims().len() as int),
            ) && v.defined() == source.defined() && v.elements() == reordered(
                source.elements(),
                permuted(source.dims(), resolved_axes(axes, source.dims().len() as int)),
                permuted(
                    canonical_strides(source.dims(), source.dims().len() as int),
                    resolved_axes(axes, source.dims().len() as int),
                ),
            ),
            view matches Err(e) ==> e is Bounds && e.cause() == message_about(
                "invalid permutation: "@,
                axes->Some_0@,
            ),
    {
        let ghost order = resolved_axes(axes, source.dims().len() as int);
        let axes = match permutation(source.ndim(), axes) {
            Ok(axes) => axes,
            Err(cause) => {
                return Err(cause);
            },
        };
        proof {
            source.lemma_valid();
        }
        let source_strides = strides_for(source.shape(), source.ndim());
        let shape = permute(source.shape(), axes.as_slice());
        let strides = permute(source_strides.as_slice(), axes.as_slice());
        proof {
            lemma_valid_shape_permuted(source.dims(), axes@);
            lemma_reach_permuted(source.dims(), source_strides@, axes@);
            lemma_canonical_reach(source.dims());
        }
        Self::new(source, shape, strides)
    }

    /// The view of `source` in the shape `shape`, which must be valid and of
    /// the size of the source: the elements are those of the source.
    pub(crate) fn reshaped(source: A, shape: Shape) -> (view: Result<Self, Error>)
        requires
            source.valid(),
            valid_shape(shape@),
            size_of(shape@) == size_of(source.dims()),
        ensures
            view matches Ok(v) && v.valid() && v.settings() == source.settings()
                && v.dims() == shape@ && v.defined()
                == source.defined() && v.elements() == source.elements(),
    {
        proof {
            source.lemma_elements();
            lemma_canonical_reach(shape@);
            lemma_reordered_canonical(source.elements(), shape@);
        }
        let strides = strides_for(shape.as_slice(), shape.len());
        Self::new(source, shape, strides)
    }

    /// The elements of the view, given those of its source.
    fn read_vec(&self, source: &[A::DType]) -> (out: Vec<A::DType>)
        requires
            self.valid(),
            source@.len() == size_of(self.source_dims()),
        ensures
            out@ == reordered(source@, self.dims(), self.strides()),
    {
        proof {
            self.source.lemma_valid();
        }
        gather(source, self.shape.as_slice(), self.strides.as_slice())
    }
}

/// The elements that a view of shape `shape` with `strides` shows of `source`,
/// computed on the worker pool.
pub fn gather<T: Copy + Send + Sync>(source: &[T], shape: &[usize], strides: &[usize]) -> (out: Vec<
    T,
>)
    requires
        valid_shape(shape@),
        strides@.len() == shape@.len(),
        reach(shape@, strides@) < source@.len(),
    ensures
        out@ == reordered(source@, shape@, strides@),
{
    let size: usize = match valid_size(shape) {
        Some(size) => size,
        None => 0,
    };
    let canon_strides = strides_for(shape, shape.len());
    let canon: &[usize] = canon_strides.as_slice();
    let len: usize = source.len();
    let out = par_collect(
        size,
        |offset: usize| -> (item: T)
            requires
                can_gather(offset, shape@, canon@, strides@, source@.len()),
            ensures
                item == source@.index(dot(unravel(offset as int, shape@), strides@)),
            {
                proof {
                    lemma_unravel_in_shape(offset as int, shape@);
                    lemma_dot_within_reach(unravel(offset as int, shape@), shape@, strides@);
                }
                source[offset_in(offset, shape, canon, strides)]
            }
    );
    assert(out@ =~= reordered(source@, shape@, strides@));
    out
}

impl<A: NDArrayRead> NDArray for ArrayView<A> {
    type DType = A::DType;

    closed spec fn settings(&self) -> Settings {
        self.source.settings()
    }

    closed spec fn valid(&self) -> bool {
        &&& self.source.valid()
        &&& valid_shape(self.shape@)
        &&& self.strides@.len() == self.shape@.len()
        &&& reach(self.shape@, self.strides@) < size_of(self.source.dims())
    }

    closed spec fn dims(&self) -> Seq<usize> {
        self.shape@
    }

    proof fn lemma_valid(&self) {
    }

    proof fn lemma_clone(&self, copy: &Self) {
    }

    fn context(&self) -> (context: &Context) {
        self.source.context()
    }

    fn shape(&self) -> (shape: &[usize]) {
        self.shape.as_slice()
    }
}

impl<A: NDArrayRead> NDArrayRead for ArrayView<A> {
    closed spec fn elements(&self) -> Seq<A::DType> {
        reordered(self.source.elements(), self.shape@, self.strides@)
    }

    closed spec fn defined(&self) -> bool {
        self.source.defined()
    }

    proof fn lemma_elements(&self) {
    }

    proof fn lemma_clone_read(&self, copy: &Self) {
    }

    fn read<'a>(&'a self, queue: &Queue) -> (buffer: Result<BufferConverter<'a, A::DType>, Error>) {
        proof {
            self.source.lemma_elements();
        }
        match self.source.read(queue) {
            Ok(buffer) => match buffer.to_slice() {
                Ok(source) => Ok(BufferConverter::from_vec(self.read_vec(source.as_ref()))),
                Err(cause) => Err(Error::Interface(cause.message())),
            },
            Err(cause) => Err(cause),
        }
    }
}


impl<A: NDArrayRead> NDArrayTransform for ArrayView<A> {
    type Broadcast = Self;

    type Expand = Self;

    type Reshape = ArrayView<Self>;

    type Slice = ArraySlice<Self>;

    type Transpose = Self;

    fn broadcast(&self, shape: Shape) -> (view: Result<Self, Error>) {
        if valid_size(shape.as_slice()).is_none() {
            return Err(bounds_about("cannot broadcast into ", shape.as_slice()));
        }
        if !can_broadcast_to(self.shape.as_slice(), shape.as_slice()) {
            return Err(
                bounds_between(
                    "cannot broadcast between shapes ",
                    self.shape.as_slice(),
                    shape.as_slice(),
                ),
            );
        }
        let ndim: usize = shape.len();
        let lead: usize = ndim - self.shape.len();
        let mut strides: Vec<usize> = Vec::new();
        let mut i: usize = 0;
        while i < ndim
            invariant
                i <= ndim,
                lead + self.shape@.len() == ndim,
                self.strides@.len() == self.shape@.len(),
                strides@.len() == i,
                forall|k: int|
                    0 <= k < i ==> #[trigger] strides@[k] == broadcast_strides(
                        self.shape@,
                        self.strides@,
                        ndim as int,
                    )[k],
            decreases ndim - i,
        {
            if i < lead || self.shape[i - lead] == 1 {
                strides.push(0);
            } else {
                strides.push(self.strides[i - lead]);
            }
            i += 1;
        }
        proof {
            assert(strides@ =~= broadcast_strides(self.shape@, self.strides@, ndim as int));
            lemma_broadcast_view_reach(self.shape@, self.strides@, shape@);
            lemma_broadcast_view(self.source.elements(), self.shape@, self.strides@, shape@);
        }
        let source = self.source.clone();
        proof {
            self.source.lemma_clone(&source);
            self.source.lemma_clone_read(&source);
        }
        Self::new(source, shape, strides)
    }

    fn expand_dims(&self, axes: Vec<usize>) -> (view: Result<Self, Error>) {
        if !check_axes_within(axes.as_slice(), self.shape.len()) {
            return Err(
                bounds_between("cannot expand axes and shape ", axes.as_slice(), self.shape.as_slice()),
            );
        }
        let shape = insert_axes(self.shape.as_slice(), axes.as_slice(), 1);
        let strides = insert_axes(self.strides.as_slice(), axes.as_slice(), 0);
        proof {
            lemma_expanded_shape(self.shape@, axes@);
            lemma_expand_view(self.source.elements(), self.shape@, self.strides@, axes@);
        }
        let source = self.source.clone();
        proof {
            self.source.lemma_clone(&source);
            self.source.lemma_clone_read(&source);
        }
        Self::new(source, shape, strides)
    }

    fn reshape(&self, shape: Shape) -> (view: Result<ArrayView<Self>, Error>) {
        match valid_size(shape.as_slice()) {
            Some(size) => {
                if size == self.size() {
                    ArrayView::reshaped(self.clone(), shape)
                } else {
                    Err(
                        bounds_between(
                            "cannot reshape between shapes ",
                            self.shape.as_slice(),
                            shape.as_slice(),
                        ),
                    )
                }
            },
            None => Err(bounds_about("cannot reshape into ", shape.as_slice())),
        }
    }

    fn slice(&self, bounds: Vec<AxisBound>) -> (view: Result<ArraySlice<Self>, Error>) {
        ArraySlice::new(self.clone(), bounds)
    }

    fn transpose(&self, axes: Option<Vec<usize>>) -> (view: Result<Self, Error>) {
        let axes = match permutation(self.shape.len(), axes) {
            Ok(axes) => axes,
            Err(cause) => {
                return Err(cause);
            },
        };
        let shape = permute(self.shape.as_slice(), axes.as_slice());
        let strides = permute(self.strides.as_slice(), axes.as_slice());
        proof {
            lemma_valid_shape_permuted(self.shape@, axes@);
            lemma_reach_permuted(self.shape@, self.strides@, axes@);
            lemma_transpose_view(self.source.elements(), self.shape@, self.strides@, axes@);
        }
        let source = self.source.clone();
        proof {
            self.source.lemma_clone(&source);
            self.source.lemma_clone_read(&source);
        }
        Self::new(source, shape, strides)
    }
}

} // verus!
