//! Axis bounds: what a slice keeps of each axis of its source, the shape that
//! results, and the source element that each element of the slice stands for.

use std::ops::Range;
use vstd::prelude::*;
use vstd::std_specs::convert::FromSpecImpl;
use vstd::arithmetic::div_mod::{lemma_div_pos_is_pos, lemma_fundamental_div_mod, lemma_mod_bound};

use crate::error::message_about;
use crate::layout::{
    in_shape, lemma_canonical_reach, lemma_dot_canonical, lemma_partial_dot_within_reach,
    lemma_total_take, lemma_unravel_in_shape, products, ravel, total, unravel,
};
use crate::shape::{
    canonical_strides, lemma_suffix_product_monotone, lemma_suffix_product_positive, positive_dims,
    size_of, suffix_product, valid_shape,
};

verus! {

/// What a slice keeps of one axis of its source.
#[derive(Debug)]
pub enum AxisBound {
    /// One index: the axis does not appear in the slice.
    At(usize),
    /// The indices from the first number up to, not including, the second, in steps of the third.
    In(usize, usize, usize),
    /// The listed indices, in the order given.
    Of(Vec<usize>),
}

/// An axis bound as a mathematical value.
pub enum Bound {
    At(usize),
    In(usize, usize, usize),
    Of(Seq<usize>),
}

impl View for AxisBound {
    type V = Bound;

    open spec fn view(&self) -> Bound {
        match self {
            AxisBound::At(i) => Bound::At(*i),
            AxisBound::In(start, stop, step) => Bound::In(*start, *stop, *step),
            AxisBound::Of(indices) => Bound::Of(indices@),
        }
    }
}

impl Clone for AxisBound {
    fn clone(&self) -> (copy: Self)
        ensures
            copy@ == self@,
    {
        match self {
            AxisBound::At(i) => AxisBound::At(*i),
            AxisBound::In(start, stop, step) => AxisBound::In(*start, *stop, *step),
            AxisBound::Of(indices) => AxisBound::Of(indices.clone()),
        }
    }
}

impl From<usize> for AxisBound {
    /// The bound that pins an axis to the index `i`.
    fn from(i: usize) -> (bound: Self) {
        AxisBound::At(i)
    }
}

impl FromSpecImpl<usize> for AxisBound {
    open spec fn obeys_from_spec() -> bool {
        true
    }

    open spec fn from_spec(i: usize) -> Self {
        AxisBound::At(i)
    }
}

impl From<Range<usize>> for AxisBound {
    /// The bound that keeps the indices of `range`, one by one.
    fn from(range: Range<usize>) -> (bound: Self) {
        AxisBound::In(range.start, range.end, 1)
    }
}

impl FromSpecImpl<Range<usize>> for AxisBound {
    open spec fn obeys_from_spec() -> bool {
        true
    }

    open spec fn from_spec(range: Range<usize>) -> Self {
        AxisBound::In(range.start, range.end, 1)
    }
}

impl From<Vec<usize>> for AxisBound {
    /// The bound that keeps the listed indices.
    fn from(indices: Vec<usize>) -> (bound: Self) {
        AxisBound::Of(indices)
    }
}

impl FromSpecImpl<Vec<usize>> for AxisBound {
    open spec fn obeys_from_spec() -> bool {
        true
    }

    open spec fn from_spec(indices: Vec<usize>) -> Self {
        AxisBound::Of(indices)
    }
}

/// The bounds of a list as mathematical values.
pub open spec fn bound_views(bounds: Seq<AxisBound>) -> Seq<Bound> {
    Seq::new(bounds.len(), |k: int| bounds[k]@)
}

/// How many indices the bound keeps; none where it pins the axis to one index.
pub open spec fn extent(bound: Bound) -> int {
    match bound {
        Bound::At(_) => 0,
        Bound::In(start, stop, step) => (stop - start) / (step as int),
        Bound::Of(indices) => indices.len() as int,
    }
}

/// The bound is a range whose end is not before its start and whose step is
/// positive, or it is no range.
pub open spec fn ordered(bound: Bound) -> bool {
    match bound {
        Bound::In(start, stop, step) => start <= stop && step >= 1,
        _ => true,
    }
}

/// The bound fits an axis of size `dim`: an index is below `dim`, a range ends
/// at `dim` at most, and what is kept is not empty.
pub open spec fn fits(bound: Bound, dim: int) -> bool {
    match bound {
        Bound::At(i) => i < dim,
        Bound::In(start, stop, step) => start <= stop <= dim && step >= 1 && extent(bound) >= 1,
        Bound::Of(indices) => indices.len() >= 1 && forall|j: int|
            0 <= j < indices.len() ==> #[trigger] indices[j] < dim,
    }
}

/// The bound keeps its axis in the slice.
pub open spec fn kept(bound: Bound) -> bool {
    !(bound is At)
}

/// The source index that the bound gives for index `c` of the slice along the axis.
pub open spec fn picked(bound: Bound, c: int) -> int {
    match bound {
        Bound::At(i) => i as int,
        Bound::In(start, _, step) => start + c * step,
        Bound::Of(indices) => indices[c] as int,
    }
}

/// The shape of a slice: the extents of the bounds that keep their axis, in order.
pub open spec fn sliced_shape(bounds: Seq<Bound>) -> Seq<usize>
    decreases bounds.len(),
{
    if bounds.len() == 0 {
        Seq::empty()
    } else if kept(bounds.last()) {
        sliced_shape(bounds.drop_last()).push(extent(bounds.last()) as usize)
    } else {
        sliced_shape(bounds.drop_last())
    }
}

/// The axis of the slice that source axis `k` becomes, if it is kept: the
/// number of kept axes before it.
pub open spec fn cursor(bounds: Seq<Bound>, k: int) -> int {
    sliced_shape(bounds.take(k)).len() as int
}

/// The source coordinates of the element of the slice at `coords`.
pub open spec fn slice_coords(coords: Seq<int>, bounds: Seq<Bound>) -> Seq<int> {
    Seq::new(bounds.len(), |k: int| picked(bounds[k], coords[cursor(bounds, k)]))
}

/// The elements of the slice of a row-major array `source` of shape `shape`
/// that `bounds` describe, one bound for every axis.
pub open spec fn sliced<T>(source: Seq<T>, shape: Seq<usize>, bounds: Seq<Bound>) -> Seq<T> {
    Seq::new(
        size_of(sliced_shape(bounds)),
        |offset: int|
            source[ravel(slice_coords(unravel(offset, sliced_shape(bounds)), bounds), shape)],
    )
}

/// `bounds`, followed by the full range of every axis of `shape` that they do not reach.
pub open spec fn padded(bounds: Seq<Bound>, shape: Seq<usize>) -> Seq<Bound> {
    Seq::new(
        shape.len(),
        |k: int|
            if k < bounds.len() {
                bounds[k]
            } else {
                Bound::In(0, shape[k], 1)
            },
    )
}

/// Every bound fits the axis of `shape` at its position.
pub open spec fn all_fit(bounds: Seq<Bound>, shape: Seq<usize>) -> bool {
    forall|k: int| 0 <= k < bounds.len() ==> fits(#[trigger] bounds[k], shape[k] as int)
}

/// `bounds` describe a slice of an array of shape `shape`: there is one bound
/// at most for each axis, each fits its axis, and together with the full
/// ranges of the remaining axes they give a valid shape.
pub open spec fn sliceable(bounds: Seq<Bound>, shape: Seq<usize>) -> bool {
    &&& bounds.len() <= shape.len()
    &&& all_fit(bounds, shape)
    &&& valid_shape(sliced_shape(padded(bounds, shape)))
}

/// The message of the error that tells why `bounds` describe no slice of an
/// array of shape `shape`: that they are too many, that one of them does not
/// fit its axis, or that they keep nothing.
pub open spec fn slice_refusal(bounds: Seq<Bound>, shape: Seq<usize>) -> Seq<char> {
    if bounds.len() > shape.len() {
        message_about("too many slice bounds for shape "@, shape)
    } else if !all_fit(bounds, shape) {
        message_about("slice bounds out of range for shape "@, shape)
    } else {
        message_about("slice bounds keep nothing of shape "@, shape)
    }
}

impl AxisBound {
    /// How many indices the bound keeps of its axis: none where it pins the axis to one index.
    pub fn size(&self) -> (n: usize)
        requires
            ordered(self@),
        ensures
            n == extent(self@),
    {
        match self {
            AxisBound::At(_) => 0,
            AxisBound::In(start, stop, step) => {
                proof {
                    lemma_div_pos_is_pos(*stop - *start, *step as int);
                }
                (*stop - *start) / *step
            },
            AxisBound::Of(indices) => indices.len(),
        }
    }

    /// Whether the bound fits an axis of size `dim`.
    pub fn check(&self, dim: usize) -> (ok: bool)
        ensures
            ok == fits(self@, dim as int),
    {
        match self {
            AxisBound::At(i) => *i < dim,
            AxisBound::In(start, stop, step) => {
                if *start <= *stop && *stop <= dim && *step >= 1 {
                    proof {
                        lemma_div_pos_is_pos(*stop - *start, *step as int);
                    }
                    (*stop - *start) / *step >= 1
                } else {
                    false
                }
            },
            AxisBound::Of(indices) => {
                if indices.len() == 0 {
                    return false;
                }
                let mut j: usize = 0;
                while j < indices.len()
                    invariant
                        j <= indices@.len(),
                        self@ == Bound::Of(indices@),
                        forall|i: int| 0 <= i < j ==> #[trigger] indices@[i] < dim,
                    decreases indices@.len() - j,
                {
                    if indices[j] >= dim {
                        assert(!(indices@[j as int] < dim));
                        return false;
                    }
                    j += 1;
                }
                true
            },
        }
    }
}

/// The shape of a slice is the same whether it is taken of the first bounds or
/// read off the beginning of the shape of them all.
pub proof fn lemma_sliced_shape_prefix(bounds: Seq<Bound>, k: int)
    requires
        0 <= k <= bounds.len(),
    ensures
        cursor(bounds, k) <= sliced_shape(bounds).len(),
        sliced_shape(bounds.take(k)) == sliced_shape(bounds).take(cursor(bounds, k)),
    decreases bounds.len() - k,
{
    if k == bounds.len() {
        assert(bounds.take(k) =~= bounds);
        assert(sliced_shape(bounds).take(sliced_shape(bounds).len() as int) =~= sliced_shape(
            bounds,
        ));
    } else {
        lemma_sliced_shape_prefix(bounds, k + 1);
        assert(bounds.take(k + 1).drop_last() =~= bounds.take(k));
        let more = sliced_shape(bounds.take(k + 1));
        let less = sliced_shape(bounds.take(k));
        assert(less =~= sliced_shape(bounds).take(cursor(bounds, k)));
    }
}

/// A kept axis has its own place in the shape of the slice, which holds its extent.
pub proof fn lemma_cursor_of_kept(bounds: Seq<Bound>, k: int)
    requires
        0 <= k < bounds.len(),
        kept(bounds[k]),
    ensures
        0 <= cursor(bounds, k) < sliced_shape(bounds).len(),
        cursor(bounds, k + 1) == cursor(bounds, k) + 1,
        sliced_shape(bounds)[cursor(bounds, k)] == extent(bounds[k]) as usize,
{
    lemma_sliced_shape_prefix(bounds, k + 1);
    assert(bounds.take(k + 1).drop_last() =~= bounds.take(k));
    let more = sliced_shape(bounds.take(k + 1));
    assert(more[cursor(bounds, k)] == sliced_shape(bounds).take(cursor(bounds, k + 1))[cursor(
        bounds,
        k,
    )]);
}

/// An axis that is not kept takes no place in the shape of the slice.
pub proof fn lemma_cursor_of_pinned(bounds: Seq<Bound>, k: int)
    requires
        0 <= k < bounds.len(),
        !kept(bounds[k]),
    ensures
        cursor(bounds, k + 1) == cursor(bounds, k),
{
    assert(bounds.take(k + 1).drop_last() =~= bounds.take(k));
}

/// The source index picked along an axis lies within the axis.
pub proof fn lemma_picked_fits(bound: Bound, dim: int, c: int)
    requires
        fits(bound, dim),
        kept(bound) ==> 0 <= c < extent(bound),
    ensures
        0 <= picked(bound, c) < dim,
{
    match bound {
        Bound::At(i) => {},
        Bound::In(start, stop, step) => {
            let span = stop - start;
            let k = step as int;
            lemma_fundamental_div_mod(span, k);
            lemma_mod_bound(span, k);
            assert(c * k <= k * (span / k) - k) by (nonlinear_arith)
                requires
                    0 <= c <= span / k - 1,
                    k >= 1,
            ;
            assert(0 <= c * k) by (nonlinear_arith)
                requires
                    0 <= c,
                    k >= 1,
            ;
        },
        Bound::Of(indices) => {},
    }
}

/// Coordinates within the slice pick source coordinates within the source.
pub proof fn lemma_slice_coords_in_shape(coords: Seq<int>, bounds: Seq<Bound>, shape: Seq<usize>)
    requires
        bounds.len() == shape.len(),
        all_fit(bounds, shape),
        in_shape(coords, sliced_shape(bounds)),
    ensures
        in_shape(slice_coords(coords, bounds), shape),
{
    let picked_coords = slice_coords(coords, bounds);
    assert forall|k: int| 0 <= k < shape.len() implies 0 <= #[trigger] picked_coords[k]
        < shape[k] by {
        assert(fits(bounds[k], shape[k] as int));
        if kept(bounds[k]) {
            lemma_cursor_of_kept(bounds, k);
            let x = cursor(bounds, k);
            assert(0 <= coords[x] < sliced_shape(bounds)[x]);
        }
        lemma_picked_fits(bounds[k], shape[k] as int, coords[cursor(bounds, k)]);
    }
}

/// The full range of every axis keeps every axis as it is.
pub proof fn lemma_full_ranges(shape: Seq<usize>, upto: int)
    requires
        positive_dims(shape),
        0 <= upto <= shape.len(),
    ensures
        sliced_shape(padded(Seq::empty(), shape).take(upto)) == shape.take(upto),
    decreases upto,
{
    let bounds = padded(Seq::empty(), shape);
    if upto == 0 {
        assert(bounds.take(0) =~= Seq::<Bound>::empty());
        assert(shape.take(0) =~= Seq::<usize>::empty());
    } else {
        lemma_full_ranges(shape, upto - 1);
        assert(bounds.take(upto).drop_last() =~= bounds.take(upto - 1));
        assert(bounds.take(upto).last() == Bound::In(0, shape[upto - 1], 1));
        assert(shape.take(upto) =~= shape.take(upto - 1).push(shape[upto - 1]));
    }
}

/// Whether every bound fits the axis of `shape` at its position.
pub fn check_bounds(bounds: &[AxisBound], shape: &[usize]) -> (ok: bool)
    requires
        bounds@.len() <= shape@.len(),
    ensures
        ok == all_fit(bound_views(bounds@), shape@),
{
    let mut k: usize = 0;
    while k < bounds.len()
        invariant
            k <= bounds@.len() <= shape@.len(),
            forall|i: int|
                0 <= i < k ==> fits(#[trigger] bound_views(bounds@)[i], shape@[i] as int),
        decreases bounds@.len() - k,
    {
        if !bounds[k].check(shape[k]) {
            assert(!fits(bound_views(bounds@)[k as int], shape@[k as int] as int));
            return false;
        }
        k += 1;
    }
    true
}

/// `bounds`, followed by the full range of every axis of `shape` that they do not reach.
pub fn pad_bounds(bounds: Vec<AxisBound>, shape: &[usize]) -> (all: Vec<AxisBound>)
    requires
        bounds@.len() <= shape@.len(),
    ensures
        bound_views(all@) == padded(bound_views(bounds@), shape@),
{
    let mut all = bounds;
    let ghost given = bound_views(all@);
    let mut k: usize = all.len();
    while k < shape.len()
        invariant
            given.len() <= k <= shape@.len(),
            all@.len() == k,
            forall|i: int|
                0 <= i < k ==> #[trigger] all@[i]@ == padded(given, shape@)[i],
        decreases shape@.len() - k,
    {
        all.push(AxisBound::In(0, shape[k], 1));
        k += 1;
    }
    assert(bound_views(all@) =~= padded(given, shape@));
    all
}

/// The shape of the slice that `bounds` describe.
pub fn slice_shape(bounds: &[AxisBound]) -> (shape: Vec<usize>)
    requires
        forall|k: int| 0 <= k < bounds@.len() ==> ordered(#[trigger] bounds@[k]@),
    ensures
        shape@ == sliced_shape(bound_views(bounds@)),
{
    let ghost views = bound_views(bounds@);
    let mut shape: Vec<usize> = Vec::new();
    let mut k: usize = 0;
    assert(views.take(0) =~= Seq::<Bound>::empty());
    while k < bounds.len()
        invariant
            k <= bounds@.len(),
            views == bound_views(bounds@),
            forall|i: int| 0 <= i < bounds@.len() ==> ordered(#[trigger] bounds@[i]@),
            shape@ == sliced_shape(views.take(k as int)),
        decreases bounds@.len() - k,
    {
        assert(views.take(k as int + 1).drop_last() =~= views.take(k as int));
        assert(views.take(k as int + 1).last() == bounds@[k as int]@);
        match &bounds[k] {
            AxisBound::At(_) => {},
            bound => {
                shape.push(bound.size());
            },
        }
        k += 1;
    }
    assert(views.take(bounds@.len() as int) =~= views);
    shape
}

/// The offset in the source of the element at `offset` of a slice, where
/// `shape` is the shape of the slice, `canon` its canonical strides, `bounds`
/// the bounds that made it and `strides` the canonical strides of the source.
pub fn slice_offset(
    offset: usize,
    shape: &[usize],
    canon: &[usize],
    bounds: &[AxisBound],
    source_shape: &[usize],
    strides: &[usize],
) -> (at: usize)
    requires
        valid_shape(shape@),
        valid_shape(source_shape@),
        shape@ == sliced_shape(bound_views(bounds@)),
        canon@ == canonical_strides(shape@, shape@.len() as int),
        bounds@.len() == source_shape@.len(),
        all_fit(bound_views(bounds@), source_shape@),
        strides@ == canonical_strides(source_shape@, source_shape@.len() as int),
        offset < size_of(shape@),
    ensures
        at == ravel(
            slice_coords(unravel(offset as int, shape@), bound_views(bounds@)),
            source_shape@,
        ),
        at < size_of(source_shape@),
{
    let ghost views = bound_views(bounds@);
    let ghost coords = unravel(offset as int, shape@);
    let ghost source_coords = slice_coords(coords, views);
    let ghost terms = products(source_coords, strides@);
    proof {
        lemma_unravel_in_shape(offset as int, shape@);
        lemma_slice_coords_in_shape(coords, views, source_shape@);
        lemma_dot_canonical(source_coords, source_shape@);
        lemma_canonical_reach(source_shape@);
        lemma_partial_dot_within_reach(
            source_coords,
            source_shape@,
            strides@,
            source_shape@.len() as int,
        );
        assert(terms.take(source_shape@.len() as int) =~= terms);
        assert(views.take(0) =~= Seq::<Bound>::empty());
    }
    let n: usize = bounds.len();
    let out_ndim: usize = shape.len();
    let mut at: usize = 0;
    let mut x: usize = 0;
    let mut k: usize = 0;
    while k < n
        invariant
            k <= n,
            n == bounds@.len(),
            out_ndim == shape@.len(),
            valid_shape(shape@),
            valid_shape(source_shape@),
            shape@ == sliced_shape(views),
            canon@ == canonical_strides(shape@, shape@.len() as int),
            bounds@.len() == source_shape@.len(),
            all_fit(views, source_shape@),
            strides@ == canonical_strides(source_shape@, source_shape@.len() as int),
            offset < size_of(shape@),
            views == bound_views(bounds@),
            coords == unravel(offset as int, shape@),
            in_shape(coords, shape@),
            source_coords == slice_coords(coords, views),
            in_shape(source_coords, source_shape@),
            terms == products(source_coords, strides@),
            reach_fits(source_shape@, strides@),
            x == cursor(views, k as int),
            at == total(terms.take(k as int)),
        decreases n - k,
    {
        let ghost bound = views[k as int];
        assert(bound == bounds@[k as int]@);
        assert(fits(bound, source_shape@[k as int] as int));
        proof {
            if kept(bound) {
                lemma_cursor_of_kept(views, k as int);
            } else {
                lemma_cursor_of_pinned(views, k as int);
            }
        }
        let i: usize = match &bounds[k] {
            AxisBound::At(i) => *i,
            AxisBound::In(start, _stop, step) => {
                let c: usize = coordinate_at(offset, shape, canon, x);
                proof {
                    lemma_picked_fits(bound, source_shape@[k as int] as int, c as int);
                    assert(0 <= c * *step) by (nonlinear_arith)
                        requires
                            0 <= c,
                            *step >= 1,
                    ;
                }
                x += 1;
                *start + c * *step
            },
            AxisBound::Of(indices) => {
                let c: usize = coordinate_at(offset, shape, canon, x);
                x += 1;
                indices[c]
            },
        };
        proof {
            assert(source_coords[k as int] == i as int);
            lemma_total_take(terms, k as int);
            lemma_partial_dot_within_reach(
                source_coords,
                source_shape@,
                strides@,
                k as int + 1,
            );
            lemma_partial_dot_within_reach(source_coords, source_shape@, strides@, k as int);
            assert(terms[k as int] == i * strides@[k as int]);
        }
        at = at + i * strides[k];
        k += 1;
    }
    assert(terms.take(n as int) =~= terms);
    at
}

/// The reach of a view under `strides` is what a `usize` can hold.
pub open spec fn reach_fits(shape: Seq<usize>, strides: Seq<usize>) -> bool {
    crate::layout::reach(shape, strides) <= usize::MAX
}

/// The coordinate along `axis` of the element at `offset` of a row-major array
/// of shape `shape`, whose canonical strides are `canon`.
pub fn coordinate_at(offset: usize, shape: &[usize], canon: &[usize], axis: usize) -> (c: usize)
    requires
        valid_shape(shape@),
        canon@ == canonical_strides(shape@, shape@.len() as int),
        axis < shape@.len(),
    ensures
        c == unravel(offset as int, shape@)[axis as int],
        c < shape@[axis as int],
{
    proof {
        lemma_unravel_in_shape(offset as int, shape@);
        lemma_suffix_product_monotone(shape@, 0, axis as int + 1);
        lemma_suffix_product_positive(shape@, axis as int + 1);
        assert(0 <= unravel(offset as int, shape@)[axis as int] < shape@[axis as int]);
    }
    if canon[axis] == 0 {
        assert(shape@[axis as int] == 1);
        0
    } else {
        assert(canon@[axis as int] == suffix_product(shape@, axis as int + 1));
        (offset / canon[axis]) % shape[axis]
    }
}

} // verus!
