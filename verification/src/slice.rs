//! Slices: the part of an array that a list of axis bounds keeps.

use vstd::prelude::*;
use crate::array::{NDArray, NDArrayRead, NDArrayTransform};
use crate::bounds::slice_refusal;
use crate::bounds::{
    all_fit, AxisBound, Bound, bound_views, check_bounds, pad_bounds, padded, slice_coords,
    slice_offset, slice_shape, sliceable, sliced, sliced_shape,
};
use crate::buffer::BufferConverter;
use crate::error::{bounds_about, bounds_between, Error};
use crate::layout::{ravel, unravel};
use crate::parallel::par_collect;
use crate::platform::{Context, Queue, Settings};
use crate::shape::{
    canonical_strides, expand_dims, lemma_expanded_shape, Shape, size_of, strides_for, valid_shape,
    valid_size,
};
use crate::view::ArrayView;

verus! {

/// The part of `A` that a list of bounds keeps, one bound for every axis of `A`.
pub struct ArraySlice<A> {
    source: A,
    bounds: Vec<AxisBound>,
    shape: Shape,
    strides: Vec<usize>,
    source_strides: Vec<usize>,
}

impl<A: NDArrayRead> Clone for ArraySlice<A> {
    fn clone(&self) -> (copy: Self)
        ensures
            copy.valid() == self.valid(),
            copy.settings() == self.settings(),
            copy.dims() == self.dims(),
            copy.elements() == self.elements(),
            copy.defined() == self.defined(),
    {
        let source = self.source.clone();
        proof {
            self.source.lemma_clone(&source);
            self.source.lemma_clone_read(&source);
        }
        let mut bounds: Vec<AxisBound> = Vec::new();
        let mut k: usize = 0;
        while k < self.bounds.len()
            invariant
                k <= self.bounds@.len(),
                bounds@.len() == k,
                forall|i: int| 0 <= i < k ==> #[trigger] bounds@[i]@ == self.bounds@[i]@,
            decreases self.bounds@.len() - k,
        {
            bounds.push(self.bounds[k].clone());
            k += 1;
        }
        assert(bound_views(bounds@) =~= bound_views(self.bounds@));
        ArraySlice {
            source,
            bounds,
            shape: self.shape.clone(),
            strides: self.strides.clone(),
            source_strides: self.source_strides.clone(),
        }
    }
}

/// What reading one element of a slice asks for: the offset lies within the
/// slice, whose shape is valid and the one that the bounds give, `canon` holds
/// the canonical strides of that shape, there is a bound for every axis of
/// the source, each fits its axis, and `strides` holds the canonical strides
/// of the source.
pub open spec fn can_pick(
    offset: usize,
    shape: Seq<usize>,
    canon: Seq<usize>,
    bounds: Seq<Bound>,
    source_shape: Seq<usize>,
    strides: Seq<usize>,
) -> bool {
    &&& offset < size_of(shape)
    &&& valid_shape(shape)
    &&& valid_shape(source_shape)
    &&& shape == sliced_shape(bounds)
    &&& canon == canonical_strides(shape, shape.len() as int)
    &&& bounds.len() == source_shape.len()
    &&& all_fit(bounds, source_shape)
    &&& strides == canonical_strides(source_shape, source_shape.len() as int)
}

impl<A: NDArrayRead> ArraySlice<A> {
    /// The slice of `source` that `bounds` keep, one bound for each of the
    /// first axes of the source; the remaining axes are kept whole. Each bound
    /// must fit its axis, and something must be kept.
    pub fn new(source: A, bounds: Vec<AxisBound>) -> (slice: Result<Self, Error>)
        requires
            source.valid(),
        ensures
            slice is Ok == sliceable(bound_views(bounds@), source.dims()),
            slice matches Ok(s) ==> s.valid() && s.settings() == source.settings()
                && s.dims() == sliced_shape(
                padded(bound_views(bounds@), source.dims()),
            ) && s.defined() == source.defined() && s.elements() == sliced(
                source.elements(),
                source.dims(),
                padded(bound_views(bounds@), source.dims()),
            ),
            slice matches Err(e) ==> e is Bounds && e.cause() == slice_refusal(
                bound_views(bounds@),
                source.dims(),
            ),
    {
        let ghost given = bound_views(bounds@);
        if bounds.len() > source.ndim() {
            return Err(bounds_about("too many slice bounds for shape ", source.shape()));
        }
        if !check_bounds(bounds.as_slice(), source.shape()) {
            return Err(bounds_about("slice bounds out of range for shape ", source.shape()));
        }
        proof {
            source.lemma_valid();
        }
        let bounds = pad_bounds(bounds, source.shape());
        let ghost all = bound_views(bounds@);
        assert(all_fit(all, source.dims())) by {
            assert forall|k: int| 0 <= k < all.len() implies crate::bounds::fits(
                #[trigger] all[k],
                source.dims()[k] as int,
            ) by {
                if k < given.len() {
                    assert(crate::bounds::fits(given[k], source.dims()[k] as int));
                } else {
                    vstd::arithmetic::div_mod::lemma_div_basics_3(source.dims()[k] as int);
                }
            }
        }
        assert forall|k: int| 0 <= k < bounds@.len() implies crate::bounds::ordered(
            #[trigger] bounds@[k]@,
        ) by {
            assert(crate::bounds::fits(all[k], source.dims()[k] as int));
        }
        let shape = slice_shape(bounds.as_slice());
        if valid_size(shape.as_slice()).is_none() {
            return Err(bounds_about("slice bounds keep nothing of shape ", source.shape()));
        }
        let strides = strides_for(shape.as_slice(), shape.len());
        let source_strides = strides_for(source.shape(), source.ndim());
        Ok(ArraySlice { source, bounds, shape, strides, source_strides })
    }

    /// The bounds of the slice, one for every axis of its source.
    pub closed spec fn bounds(&self) -> Seq<Bound> {
        bound_views(self.bounds@)
    }

    /// The elements of the slice, given those of its source.
    fn read_vec(&self, source: &[A::DType]) -> (out: Vec<A::DType>)
        requires
            self.valid(),
            source@.len() == size_of(self.source.dims()),
        ensures
            out@ == sliced(source@, self.source.dims(), self.bounds()),
    {
        proof {
            self.source.lemma_valid();
        }
        pick(
            source,
            self.shape.as_slice(),
            self.strides.as_slice(),
            self.bounds.as_slice(),
            self.source.shape(),
            self.source_strides.as_slice(),
        )
    }
}

/// The elements of a slice of `source`, an array of shape `source_shape` in
/// row-major order, computed on the worker pool: `bounds` holds a bound for
/// every axis of the source, `shape` is the shape that they give, and `canon`
/// and `strides` hold the canonical strides of the slice and of the source.
pub fn pick<T: Copy + Send + Sync>(
    source: &[T],
    shape: &[usize],
    canon: &[usize],
    bounds: &[AxisBound],
    source_shape: &[usize],
    strides: &[usize],
) -> (out: Vec<T>)
    requires
        valid_shape(shape@),
        valid_shape(source_shape@),
        shape@ == sliced_shape(bound_views(bounds@)),
        canon@ == canonical_strides(shape@, shape@.len() as int),
        bounds@.len() == source_shape@.len(),
        all_fit(bound_views(bounds@), source_shape@),
        strides@ == canonical_strides(source_shape@, source_shape@.len() as int),
        source@.len() == size_of(source_shape@),
    ensures
        out@ == sliced(source@, source_shape@, bound_views(bounds@)),
{
    let size: usize = match valid_size(shape) {
        Some(size) => size,
        None => 0,
    };
    let out = par_collect(
        size,
        |offset: usize| -> (item: T)
            requires
                can_pick(offset, shape@, canon@, bound_views(bounds@), source_shape@, strides@),
                source@.len() == size_of(source_shape@),
            ensures
                item == source@.index(
                    ravel(
                        slice_coords(unravel(offset as int, shape@), bound_views(bounds@)),
                        source_shape@,
                    ),
                ),
            {
                source[slice_offset(offset, shape, canon, bounds, source_shape, strides)]
            }
    );
    assert(out@ =~= sliced(source@, source_shape@, bound_views(bounds@)));
    out
}

impl<A: NDArrayRead> NDArray for ArraySlice<A> {
    type DType = A::DType;

    closed spec fn settings(&self) -> Settings {
        self.source.settings()
    }

    closed spec fn valid(&self) -> bool {
        &&& self.source.valid()
        &&& self.bounds@.len() == self.source.dims().len()
        &&& all_fit(bound_views(self.bounds@), self.source.dims())
        &&& self.shape@ == sliced_shape(bound_views(self.bounds@))
        &&& valid_shape(self.shape@)
        &&& self.strides@ == canonical_strides(self.shape@, self.shape@.len() as int)
        &&& self.source_strides@ == canonical_strides(
            self.source.dims(),
            self.source.dims().len() as int,
        )
    }

    closed spec fn dims(&self) -> Seq<usize> {
        self.shape@
    }

    proof fn lemma_valid(&self) {
    }

    proof fn lemma_clone(&self, copy: &Self) {
    }

    fn context(&self) -> (context: &Context) {
        self.source.context()
    }

    fn shape(&self) -> (shape: &[usize]) {
        self.shape.as_slice()
    }
}

impl<A: NDArrayRead> NDArrayRead for ArraySlice<A> {
    closed spec fn elements(&self) -> Seq<A::DType> {
        sliced(self.source.elements(), self.source.dims(), bound_views(self.bounds@))
    }

    closed spec fn defined(&self) -> bool {
        self.source.defined()
    }

    proof fn lemma_elements(&self) {
    }

    proof fn lemma_clone_read(&self, copy: &Self) {
    }

    fn read<'a>(&'a self, queue: &Queue) -> (buffer: Result<BufferConverter<'a, A::DType>, Error>) {
        proof {
            self.source.lemma_elements();
        }
        match self.source.read(queue) {
            Ok(buffer) => match buffer.to_slice() {
                Ok(source) => Ok(BufferConverter::from_vec(self.read_vec(source.as_ref()))),
                Err(cause) => Err(Error::Interface(cause.message())),
            },
            Err(cause) => Err(cause),
        }
    }
}

impl<A: NDArrayRead> NDArrayTransform for ArraySlice<A> {
    type Broadcast = ArrayView<Self>;

    type Expand = ArrayView<Self>;

    type Reshape = ArrayView<Self>;

    type Slice = ArraySlice<Self>;

    type Transpose = ArrayView<Self>;

    fn broadcast(&self, shape: Shape) -> (view: Result<ArrayView<Self>, Error>) {
        ArrayView::broadcast(self.clone(), shape)
    }

    fn expand_dims(&self, axes: Vec<usize>) -> (view: Result<ArrayView<Self>, Error>) {
        match expand_dims(self.shape.as_slice(), axes) {
            Ok(shape) => {
                proof {
                    lemma_expanded_shape(self.shape@, axes@);
                }
                ArrayView::reshaped(self.clone(), shape)
            },
            Err(cause) => Err(cause),
        }
    }

    fn reshape(&self, shape: Shape) -> (view: Result<ArrayView<Self>, Error>) {
        match valid_size(shape.as_slice()) {
            Some(size) => {
                if size == self.size() {
                    ArrayView::reshaped(self.clone(), shape)
                } else {
                    Err(
                        bounds_between(
                            "cannot reshape between shapes ",
                            self.shape.as_slice(),
                            shape.as_slice(),
                        ),
                    )
                }
            },
            None => Err(bounds_about("cannot reshape into ", shape.as_slice())),
        }
    }

    fn slice(&self, bounds: Vec<AxisBound>) -> (view: Result<ArraySlice<Self>, Error>) {
        ArraySlice::new(self.clone(), bounds)
    }

    fn transpose(&self, axes: Option<Vec<usize>>) -> (view: Result<ArrayView<Self>, Error>) {
        ArrayView::transposed(self.clone(), axes)
    }
}

} // verus!
