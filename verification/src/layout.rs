//! Offsets and coordinates: how a position in a flat, row-major buffer
//! corresponds to one index per axis, and how strides turn coordinates into
//! an offset in another buffer.

use vstd::prelude::*;
use vstd::arithmetic::div_mod::{
    lemma_fundamental_div_mod_converse, lemma_mod_bound, lemma_mod_breakdown, lemma_small_mod,
};
use vstd::arithmetic::mul::{lemma_mul_inequality, lemma_mul_is_commutative, lemma_mul_nonnegative};
use crate::shape::{
    broadcasts_to, canonical_strides, is_permutation, lemma_suffix_product_monotone,
    lemma_suffix_product_positive, names_axis, permuted, positive_dims, size_of, suffix_product,
    valid_shape,
};

verus! {

/// The sum of a list of integers.
pub open spec fn total(terms: Seq<int>) -> int
    decreases terms.len(),
{
    if terms.len() == 0 {
        0
    } else {
        total(terms.drop_last()) + terms.last()
    }
}

/// The index along `axis` of the element at `offset` in a row-major array of shape `shape`.
pub open spec fn coordinate(offset: int, shape: Seq<usize>, axis: int) -> int {
    (offset / (suffix_product(shape, axis + 1) as int)) % (shape[axis] as int)
}

/// The coordinates, one per axis, of the element at `offset` in a row-major array of shape `shape`.
pub open spec fn unravel(offset: int, shape: Seq<usize>) -> Seq<int> {
    Seq::new(shape.len(), |axis: int| coordinate(offset, shape, axis))
}

/// `coords` holds one index per axis of `shape`, each within its dimension.
pub open spec fn in_shape(coords: Seq<int>, shape: Seq<usize>) -> bool {
    &&& coords.len() == shape.len()
    &&& forall|axis: int| 0 <= axis < shape.len() ==> 0 <= #[trigger] coords[axis] < shape[axis]
}

/// Each coordinate times the stride of its axis.
pub open spec fn products(coords: Seq<int>, strides: Seq<usize>) -> Seq<int> {
    Seq::new(coords.len(), |axis: int| coords[axis] * (strides[axis] as int))
}

/// The offset that `coords` reach under `strides`: the sum of coordinate times stride.
pub open spec fn dot(coords: Seq<int>, strides: Seq<usize>) -> int {
    total(products(coords, strides))
}

/// Each coordinate times the row-major stride of its axis in `shape`.
pub open spec fn row_major_products(coords: Seq<int>, shape: Seq<usize>) -> Seq<int> {
    Seq::new(coords.len(), |axis: int| coords[axis] * (suffix_product(shape, axis + 1) as int))
}

/// The offset of the element at `coords` in a row-major array of shape `shape`.
pub open spec fn ravel(coords: Seq<int>, shape: Seq<usize>) -> int {
    total(row_major_products(coords, shape))
}

/// For each axis, the largest coordinate times the stride.
pub open spec fn spans(shape: Seq<usize>, strides: Seq<usize>) -> Seq<int> {
    Seq::new(shape.len(), |axis: int| (shape[axis] - 1) * (strides[axis] as int))
}

/// The largest offset that a view of shape `shape` reaches under `strides`.
pub open spec fn reach(shape: Seq<usize>, strides: Seq<usize>) -> int {
    total(spans(shape, strides))
}

/// The elements seen through a view of shape `shape` with `strides` over `source`:
/// the element at each offset is the source element that its coordinates reach.
pub open spec fn reordered<T>(source: Seq<T>, shape: Seq<usize>, strides: Seq<usize>) -> Seq<T> {
    Seq::new(size_of(shape), |offset: int| source[dot(unravel(offset, shape), strides)])
}

/// The sum of a list grows by the term that is taken next.
pub proof fn lemma_total_take(terms: Seq<int>, upto: int)
    requires
        0 <= upto < terms.len(),
    ensures
        total(terms.take(upto + 1)) == total(terms.take(upto)) + terms[upto],
{
    assert(terms.take(upto + 1).drop_last() =~= terms.take(upto));
}

/// Two lists that agree term by term have the same sum.
pub proof fn lemma_total_ext(a: Seq<int>, b: Seq<int>)
    requires
        a.len() == b.len(),
        forall|i: int| 0 <= i < a.len() ==> a[i] == b[i],
    ensures
        total(a) == total(b),
{
    assert(a =~= b);
}

/// A sum of terms that are each between two others lies between their sums.
pub proof fn lemma_total_between(low: Seq<int>, mid: Seq<int>, high: Seq<int>)
    requires
        low.len() == mid.len() == high.len(),
        forall|i: int| 0 <= i < mid.len() ==> low[i] <= #[trigger] mid[i] <= high[i],
    ensures
        total(low) <= total(mid) <= total(high),
    decreases mid.len(),
{
    if mid.len() > 0 {
        lemma_total_between(low.drop_last(), mid.drop_last(), high.drop_last());
    }
}

/// The sum of a list of zeros is zero.
pub proof fn lemma_total_zero(terms: Seq<int>)
    requires
        forall|i: int| 0 <= i < terms.len() ==> terms[i] == 0,
    ensures
        total(terms) == 0,
    decreases terms.len(),
{
    if terms.len() > 0 {
        lemma_total_zero(terms.drop_last());
    }
}

/// The sum of a list put together from two is the sum of their sums.
pub proof fn lemma_total_concat(a: Seq<int>, b: Seq<int>)
    ensures
        total(a + b) == total(a) + total(b),
    decreases b.len(),
{
    if b.len() == 0 {
        assert(a + b =~= a);
    } else {
        assert((a + b).drop_last() =~= a + b.drop_last());
        lemma_total_concat(a, b.drop_last());
    }
}

/// The sums of partial lists of non-negative terms grow with the length.
pub proof fn lemma_total_monotone(terms: Seq<int>, i: int, j: int)
    requires
        0 <= i <= j <= terms.len(),
        forall|k: int| 0 <= k < terms.len() ==> terms[k] >= 0,
    ensures
        0 <= total(terms.take(i)) <= total(terms.take(j)),
    decreases j,
{
    if j == 0 {
        assert(terms.take(0) =~= Seq::<int>::empty());
    } else if i == j {
        lemma_total_monotone(terms, i - 1, j - 1);
        lemma_total_take(terms, j - 1);
    } else {
        lemma_total_monotone(terms, i, j - 1);
        lemma_total_take(terms, j - 1);
    }
}

/// The coordinates of an offset lie within the shape.
pub proof fn lemma_unravel_in_shape(offset: int, shape: Seq<usize>)
    requires
        positive_dims(shape),
        0 <= offset,
    ensures
        in_shape(unravel(offset, shape), shape),
{
    assert forall|axis: int| 0 <= axis < shape.len() implies 0 <= #[trigger] unravel(
        offset,
        shape,
    )[axis] < shape[axis] by {
        lemma_mod_bound(offset / (suffix_product(shape, axis + 1) as int), shape[axis] as int);
    }
}

/// Within the shape, no offset under `strides` is negative or beyond the reach of the view.
pub proof fn lemma_dot_within_reach(coords: Seq<int>, shape: Seq<usize>, strides: Seq<usize>)
    requires
        in_shape(coords, shape),
        strides.len() == shape.len(),
    ensures
        0 <= dot(coords, strides) <= reach(shape, strides),
{
    let zeros = Seq::new(shape.len(), |axis: int| 0int);
    let mid = products(coords, strides);
    let high = spans(shape, strides);
    assert forall|i: int| 0 <= i < mid.len() implies zeros[i] <= #[trigger] mid[i] <= high[i] by {
        lemma_mul_nonnegative(coords[i], strides[i] as int);
        lemma_mul_inequality(coords[i], shape[i] - 1, strides[i] as int);
    }
    lemma_total_between(zeros, mid, high);
    lemma_total_zero(zeros);
}

/// The offset reached after the first `upto` axes is at most the reach of the whole view.
pub proof fn lemma_partial_dot_within_reach(
    coords: Seq<int>,
    shape: Seq<usize>,
    strides: Seq<usize>,
    upto: int,
)
    requires
        in_shape(coords, shape),
        strides.len() == shape.len(),
        0 <= upto <= shape.len(),
    ensures
        0 <= total(products(coords, strides).take(upto)) <= reach(shape, strides),
{
    let mid = products(coords, strides);
    assert forall|i: int| 0 <= i < mid.len() implies mid[i] >= 0 by {
        lemma_mul_nonnegative(coords[i], strides[i] as int);
    }
    lemma_total_monotone(mid, upto, mid.len() as int);
    assert(mid.take(mid.len() as int) =~= mid);
    lemma_dot_within_reach(coords, shape, strides);
}

/// Under canonical strides the coordinates reach the row-major offset.
pub proof fn lemma_dot_canonical(coords: Seq<int>, shape: Seq<usize>)
    requires
        valid_shape(shape),
        in_shape(coords, shape),
    ensures
        dot(coords, canonical_strides(shape, shape.len() as int)) == ravel(coords, shape),
{
    let strides = canonical_strides(shape, shape.len() as int);
    let a = products(coords, strides);
    let b = row_major_products(coords, shape);
    assert forall|i: int| 0 <= i < a.len() implies a[i] == b[i] by {
        lemma_suffix_product_monotone(shape, 0, i + 1);
        if shape[i] == 1 {
            assert(coords[i] == 0);
        } else {
            assert(strides[i] == suffix_product(shape, i + 1));
        }
    }
    lemma_total_ext(a, b);
}

/// The row-major offset of the first `upto` coordinates of an offset is the
/// offset less its remainder by the product of the remaining dimensions.
proof fn lemma_ravel_unravel_upto(offset: int, shape: Seq<usize>, upto: int)
    requires
        positive_dims(shape),
        0 <= offset < size_of(shape),
        0 <= upto <= shape.len(),
    ensures
        total(row_major_products(unravel(offset, shape), shape).take(upto)) == offset - offset % (
        suffix_product(shape, upto) as int),
    decreases upto,
{
    let terms = row_major_products(unravel(offset, shape), shape);
    if upto == 0 {
        assert(terms.take(0) =~= Seq::<int>::empty());
        lemma_small_mod(offset as nat, size_of(shape));
    } else {
        let k = upto - 1;
        lemma_ravel_unravel_upto(offset, shape, k);
        lemma_total_take(terms, k);
        let inner = suffix_product(shape, k + 1) as int;
        let dim = shape[k] as int;
        lemma_suffix_product_positive(shape, k + 1);
        lemma_mod_breakdown(offset, inner, dim);
        lemma_mul_is_commutative(inner, dim);
        lemma_mul_is_commutative(inner, (offset / inner) % dim);
        assert(suffix_product(shape, k) as int == dim * inner);
        assert(terms[k] == ((offset / inner) % dim) * inner);
    }
}

/// The row-major offset of the coordinates of an offset is that offset.
pub proof fn lemma_ravel_unravel(offset: int, shape: Seq<usize>)
    requires
        positive_dims(shape),
        0 <= offset < size_of(shape),
    ensures
        ravel(unravel(offset, shape), shape) == offset,
{
    let terms = row_major_products(unravel(offset, shape), shape);
    lemma_ravel_unravel_upto(offset, shape, shape.len() as int);
    assert(terms.take(shape.len() as int) =~= terms);
}

/// A view with canonical strides over a row-major array of its own shape shows the array itself.
pub proof fn lemma_reordered_canonical<T>(source: Seq<T>, shape: Seq<usize>)
    requires
        valid_shape(shape),
        source.len() == size_of(shape),
    ensures
        reordered(source, shape, canonical_strides(shape, shape.len() as int)) == source,
{
    let strides = canonical_strides(shape, shape.len() as int);
    let seen = reordered(source, shape, strides);
    assert forall|offset: int| 0 <= offset < seen.len() implies seen[offset] == source[offset] by {
        lemma_unravel_in_shape(offset, shape);
        lemma_dot_canonical(unravel(offset, shape), shape);
        lemma_ravel_unravel(offset, shape);
    }
    assert(seen =~= source);
}

/// The spans of a shape under its canonical strides are the differences of
/// consecutive suffix products, so that their sum telescopes.
proof fn lemma_canonical_reach_upto(shape: Seq<usize>, upto: int)
    requires
        valid_shape(shape),
        0 <= upto <= shape.len(),
    ensures
        total(spans(shape, canonical_strides(shape, shape.len() as int)).take(upto)) == size_of(
            shape,
        ) - suffix_product(shape, upto),
    decreases upto,
{
    let strides = canonical_strides(shape, shape.len() as int);
    let terms = spans(shape, strides);
    if upto == 0 {
        assert(terms.take(0) =~= Seq::<int>::empty());
    } else {
        let k = upto - 1;
        lemma_canonical_reach_upto(shape, k);
        lemma_total_take(terms, k);
        lemma_suffix_product_monotone(shape, 0, k + 1);
        let inner = suffix_product(shape, k + 1) as int;
        let dim = shape[k] as int;
        assert(suffix_product(shape, k) as int == dim * inner);
        if shape[k] == 1 {
            assert((shape[k] - 1) * (strides[k] as int) == 0) by (nonlinear_arith)
                requires
                    shape[k] - 1 == 0,
            ;
            assert(terms[k] == 0);
            assert(dim * inner == inner) by (nonlinear_arith)
                requires
                    dim == 1,
            ;
        } else {
            assert(strides[k] == inner);
            assert((dim - 1) * inner == dim * inner - inner) by (nonlinear_arith);
        }
    }
}

/// Under its canonical strides a shape reaches exactly its last element.
pub proof fn lemma_canonical_reach(shape: Seq<usize>)
    requires
        valid_shape(shape),
    ensures
        reach(shape, canonical_strides(shape, shape.len() as int)) == size_of(shape) - 1,
{
    let terms = spans(shape, canonical_strides(shape, shape.len() as int));
    lemma_canonical_reach_upto(shape, shape.len() as int);
    assert(terms.take(shape.len() as int) =~= terms);
}


/// The number that the first `upto` coordinates spell in the mixed radix of the shape.
pub open spec fn leading(coords: Seq<int>, shape: Seq<usize>, upto: int) -> int
    decreases upto,
{
    if upto <= 0 {
        0
    } else {
        leading(coords, shape, upto - 1) * (shape[upto - 1] as int) + coords[upto - 1]
    }
}

/// The row-major offset of the first `upto` coordinates is a multiple of the
/// product of the remaining dimensions.
pub proof fn lemma_ravel_head(coords: Seq<int>, shape: Seq<usize>, upto: int)
    requires
        in_shape(coords, shape),
        0 <= upto <= shape.len(),
    ensures
        total(row_major_products(coords, shape).take(upto)) == leading(coords, shape, upto) * (
        suffix_product(shape, upto) as int),
        leading(coords, shape, upto) >= 0,
    decreases upto,
{
    let terms = row_major_products(coords, shape);
    if upto == 0 {
        assert(terms.take(0) =~= Seq::<int>::empty());
    } else {
        let k = upto - 1;
        lemma_ravel_head(coords, shape, k);
        lemma_total_take(terms, k);
        let q = leading(coords, shape, k);
        let dim = shape[k] as int;
        let inner = suffix_product(shape, k + 1) as int;
        let c = coords[k];
        assert(suffix_product(shape, k) as int == dim * inner);
        assert(q * (dim * inner) + c * inner == (q * dim + c) * inner) by (nonlinear_arith);
        assert(q * dim + c >= 0) by (nonlinear_arith)
            requires
                q >= 0,
                dim >= 0,
                c >= 0,
        ;
    }
}

/// What the coordinates from axis `from` on add to the row-major offset is
/// less than the product of the dimensions from that axis on.
pub proof fn lemma_ravel_tail(coords: Seq<int>, shape: Seq<usize>, from: int)
    requires
        in_shape(coords, shape),
        0 <= from <= shape.len(),
    ensures
        0 <= ravel(coords, shape) - total(row_major_products(coords, shape).take(from))
            < suffix_product(shape, from),
    decreases shape.len() - from,
{
    let terms = row_major_products(coords, shape);
    if from == shape.len() {
        assert(terms.take(from) =~= terms);
    } else {
        lemma_ravel_tail(coords, shape, from + 1);
        lemma_total_take(terms, from);
        let dim = shape[from] as int;
        let inner = suffix_product(shape, from + 1) as int;
        let c = coords[from];
        assert(suffix_product(shape, from) as int == dim * inner);
        assert(0 <= c * inner <= dim * inner - inner) by (nonlinear_arith)
            requires
                0 <= c <= dim - 1,
                inner >= 0,
        ;
    }
}

/// Coordinates within the shape have a row-major offset within the array, and
/// the coordinates of that offset are the same coordinates again.
pub proof fn lemma_unravel_ravel(coords: Seq<int>, shape: Seq<usize>)
    requires
        positive_dims(shape),
        in_shape(coords, shape),
    ensures
        0 <= ravel(coords, shape) < size_of(shape),
        unravel(ravel(coords, shape), shape) == coords,
{
    let terms = row_major_products(coords, shape);
    let offset = ravel(coords, shape);
    lemma_ravel_tail(coords, shape, 0);
    assert(terms.take(0) =~= Seq::<int>::empty());
    assert forall|axis: int| 0 <= axis < shape.len() implies unravel(offset, shape)[axis]
        == coords[axis] by {
        lemma_ravel_head(coords, shape, axis + 1);
        lemma_ravel_tail(coords, shape, axis + 1);
        lemma_suffix_product_positive(shape, axis + 1);
        let inner = suffix_product(shape, axis + 1) as int;
        let q = leading(coords, shape, axis + 1);
        let rest = offset - total(terms.take(axis + 1));
        lemma_fundamental_div_mod_converse(offset, inner, q, rest);
        lemma_ravel_head(coords, shape, axis);
        lemma_fundamental_div_mod_converse(
            q,
            shape[axis] as int,
            leading(coords, shape, axis),
            coords[axis],
        );
    }
    assert(unravel(offset, shape) =~= coords);
}

/// What the coordinates from axis `from` on add to the row-major offset.
pub open spec fn trailing(coords: Seq<int>, shape: Seq<usize>, from: int) -> int {
    total(row_major_products(coords, shape).skip(from))
}

/// The row-major offset splits at an axis: into what the axes before it spell,
/// times the product of the dimensions from the axis on; the coordinate of the
/// axis, times the product of the dimensions after it; and what the axes
/// after it add, which is less than that product.
pub proof fn lemma_ravel_split(coords: Seq<int>, shape: Seq<usize>, axis: int)
    requires
        in_shape(coords, shape),
        0 <= axis < shape.len(),
    ensures
        ravel(coords, shape) == leading(coords, shape, axis) * ((shape[axis] as int) * (
        suffix_product(shape, axis + 1) as int)) + coords[axis] * (suffix_product(
            shape,
            axis + 1,
        ) as int) + trailing(coords, shape, axis + 1),
        0 <= trailing(coords, shape, axis + 1) < suffix_product(shape, axis + 1),
        0 <= leading(coords, shape, axis),
{
    let terms = row_major_products(coords, shape);
    lemma_ravel_head(coords, shape, axis);
    lemma_ravel_tail(coords, shape, axis + 1);
    lemma_total_take(terms, axis);
    assert(terms =~= terms.take(axis + 1) + terms.skip(axis + 1));
    lemma_total_concat(terms.take(axis + 1), terms.skip(axis + 1));
    assert(suffix_product(shape, axis) as int == (shape[axis] as int) * (suffix_product(
        shape,
        axis + 1,
    ) as int));
}

/// What the first axes spell depends on the first coordinates and dimensions alone.
pub proof fn lemma_leading_ext(
    a: Seq<int>,
    b: Seq<int>,
    shape: Seq<usize>,
    other: Seq<usize>,
    upto: int,
)
    requires
        0 <= upto <= shape.len(),
        a.len() == shape.len() == b.len() == other.len(),
        forall|j: int| 0 <= j < upto ==> a[j] == b[j] && shape[j] == other[j],
    ensures
        leading(a, shape, upto) == leading(b, other, upto),
    decreases upto,
{
    if upto > 0 {
        lemma_leading_ext(a, b, shape, other, upto - 1);
    }
}

/// What the last axes add depends on the last coordinates and dimensions alone.
pub proof fn lemma_trailing_ext(
    a: Seq<int>,
    b: Seq<int>,
    shape: Seq<usize>,
    other: Seq<usize>,
    from: int,
)
    requires
        0 <= from <= shape.len(),
        a.len() == shape.len() == b.len() == other.len(),
        forall|j: int| from <= j < shape.len() ==> a[j] == b[j] && shape[j] == other[j],
    ensures
        trailing(a, shape, from) == trailing(b, other, from),
        suffix_product(shape, from) == suffix_product(other, from),
{
    let x = row_major_products(a, shape).skip(from);
    let y = row_major_products(b, other).skip(from);
    assert forall|i: int| 0 <= i < x.len() implies x[i] == y[i] by {
        crate::shape::lemma_suffix_product_ext(shape, other, from + i + 1);
    }
    assert(x =~= y);
    crate::shape::lemma_suffix_product_ext(shape, other, from);
}

/// `terms` in the order of `axes`, with zero in place of every term whose axis is not below `below`.
spec fn masked(terms: Seq<int>, axes: Seq<usize>, below: int) -> Seq<int> {
    Seq::new(
        axes.len(),
        |i: int|
            if axes[i] < below {
                terms[axes[i] as int]
            } else {
                0
            },
    )
}

proof fn lemma_masked_step(terms: Seq<int>, axes: Seq<usize>, below: int, upto: int)
    requires
        is_permutation(axes, terms.len() as int),
        0 <= below < terms.len(),
        0 <= upto <= terms.len(),
    ensures
        total(masked(terms, axes, below + 1).take(upto)) == total(
            masked(terms, axes, below).take(upto),
        ) + if names_axis(axes.take(upto), below) {
            terms[below]
        } else {
            0
        },
    decreases upto,
{
    let wide = masked(terms, axes, below + 1);
    let narrow = masked(terms, axes, below);
    if upto == 0 {
        assert(wide.take(0) =~= Seq::<int>::empty());
        assert(narrow.take(0) =~= Seq::<int>::empty());
        assert(!names_axis(axes.take(0), below));
    } else {
        let k = upto - 1;
        lemma_masked_step(terms, axes, below, k);
        lemma_total_take(wide, k);
        lemma_total_take(narrow, k);
        let before = axes.take(k);
        let after = axes.take(upto);
        if axes[k] == below {
            if names_axis(before, below) {
                let i = choose|i: int| 0 <= i < before.len() && before[i] == below;
                assert(axes[i] == axes[k]);
            }
            assert(after[k] == below);
        } else {
            if names_axis(before, below) {
                let i = choose|i: int| 0 <= i < before.len() && before[i] == below;
                assert(after[i] == below);
            }
            if names_axis(after, below) {
                let i = choose|i: int| 0 <= i < after.len() && after[i] == below;
                assert(before[i] == below);
            }
        }
    }
}

proof fn lemma_masked_total(terms: Seq<int>, axes: Seq<usize>, below: int)
    requires
        is_permutation(axes, terms.len() as int),
        0 <= below <= terms.len(),
    ensures
        total(masked(terms, axes, below)) == total(terms.take(below)),
    decreases below,
{
    if below == 0 {
        lemma_total_zero(masked(terms, axes, 0));
        assert(terms.take(0) =~= Seq::<int>::empty());
    } else {
        let n = terms.len() as int;
        lemma_masked_total(terms, axes, below - 1);
        lemma_masked_step(terms, axes, below - 1, n);
        assert(masked(terms, axes, below).take(n) =~= masked(terms, axes, below));
        assert(masked(terms, axes, below - 1).take(n) =~= masked(terms, axes, below - 1));
        assert(axes.take(n) =~= axes);
        assert(names_axis(axes, below - 1));
        lemma_total_take(terms, below - 1);
    }
}

/// A sum does not depend on the order of its terms.
pub proof fn lemma_total_permuted(terms: Seq<int>, axes: Seq<usize>)
    requires
        is_permutation(axes, terms.len() as int),
    ensures
        total(permuted(terms, axes)) == total(terms),
{
    let n = terms.len() as int;
    lemma_masked_total(terms, axes, n);
    assert(masked(terms, axes, n) =~= permuted(terms, axes));
    assert(terms.take(n) =~= terms);
}

/// Permuting coordinates and strides alike leaves the offset they reach unchanged.
pub proof fn lemma_dot_permuted(coords: Seq<int>, strides: Seq<usize>, axes: Seq<usize>)
    requires
        is_permutation(axes, coords.len() as int),
        strides.len() == coords.len(),
    ensures
        dot(permuted(coords, axes), permuted(strides, axes)) == dot(coords, strides),
{
    assert(products(permuted(coords, axes), permuted(strides, axes)) =~= permuted(
        products(coords, strides),
        axes,
    ));
    lemma_total_permuted(products(coords, strides), axes);
}

/// Permuting dimensions and strides alike leaves the reach of a view unchanged.
pub proof fn lemma_reach_permuted(shape: Seq<usize>, strides: Seq<usize>, axes: Seq<usize>)
    requires
        is_permutation(axes, shape.len() as int),
        strides.len() == shape.len(),
    ensures
        reach(permuted(shape, axes), permuted(strides, axes)) == reach(shape, strides),
{
    assert(spans(permuted(shape, axes), permuted(strides, axes)) =~= permuted(
        spans(shape, strides),
        axes,
    ));
    lemma_total_permuted(spans(shape, strides), axes);
}

/// Coordinates permuted like the shape lie within the permuted shape.
pub proof fn lemma_in_shape_permuted(coords: Seq<int>, shape: Seq<usize>, axes: Seq<usize>)
    requires
        is_permutation(axes, shape.len() as int),
        in_shape(coords, shape),
    ensures
        in_shape(permuted(coords, axes), permuted(shape, axes)),
{
    let pc = permuted(coords, axes);
    let ps = permuted(shape, axes);
    assert forall|axis: int| 0 <= axis < ps.len() implies 0 <= #[trigger] pc[axis] < ps[axis] by {
        assert(0 <= coords[axes[axis] as int] < shape[axes[axis] as int]);
    }
}

/// The product of a list of integers.
pub open spec fn product(factors: Seq<int>) -> int
    decreases factors.len(),
{
    if factors.len() == 0 {
        1
    } else {
        product(factors.drop_last()) * factors.last()
    }
}

/// The dimensions of a shape as integers.
pub open spec fn dims_of(shape: Seq<usize>) -> Seq<int> {
    Seq::new(shape.len(), |axis: int| shape[axis] as int)
}

proof fn lemma_product_take(factors: Seq<int>, upto: int)
    requires
        0 <= upto < factors.len(),
    ensures
        product(factors.take(upto + 1)) == product(factors.take(upto)) * factors[upto],
{
    assert(factors.take(upto + 1).drop_last() =~= factors.take(upto));
}

proof fn lemma_product_ones(factors: Seq<int>)
    requires
        forall|i: int| 0 <= i < factors.len() ==> factors[i] == 1,
    ensures
        product(factors) == 1,
    decreases factors.len(),
{
    if factors.len() > 0 {
        lemma_product_ones(factors.drop_last());
    }
}

/// The product of the first dimensions times the product of the rest is the size.
proof fn lemma_size_split(shape: Seq<usize>, upto: int)
    requires
        0 <= upto <= shape.len(),
    ensures
        product(dims_of(shape).take(upto)) * (suffix_product(shape, upto) as int) == size_of(shape),
    decreases upto,
{
    let dims = dims_of(shape);
    if upto == 0 {
        assert(dims.take(0) =~= Seq::<int>::empty());
    } else {
        let k = upto - 1;
        lemma_size_split(shape, k);
        lemma_product_take(dims, k);
        let head = product(dims.take(k));
        let dim = shape[k] as int;
        let inner = suffix_product(shape, k + 1) as int;
        assert(suffix_product(shape, k) as int == dim * inner);
        assert((head * dim) * inner == head * (dim * inner)) by (nonlinear_arith);
    }
}

/// The size of a shape is the product of its dimensions.
pub proof fn lemma_size_is_product(shape: Seq<usize>)
    ensures
        size_of(shape) == product(dims_of(shape)),
{
    lemma_size_split(shape, shape.len() as int);
    assert(dims_of(shape).take(shape.len() as int) =~= dims_of(shape));
    let p = product(dims_of(shape));
    assert(suffix_product(shape, shape.len() as int) == 1);
    assert(p * 1 == p) by (nonlinear_arith);
}

/// `factors` in the order of `axes`, with one in place of every factor whose axis is not below `below`.
spec fn unmasked(factors: Seq<int>, axes: Seq<usize>, below: int) -> Seq<int> {
    Seq::new(
        axes.len(),
        |i: int|
            if axes[i] < below {
                factors[axes[i] as int]
            } else {
                1
            },
    )
}

proof fn lemma_unmasked_step(factors: Seq<int>, axes: Seq<usize>, below: int, upto: int)
    requires
        is_permutation(axes, factors.len() as int),
        0 <= below < factors.len(),
        0 <= upto <= factors.len(),
    ensures
        product(unmasked(factors, axes, below + 1).take(upto)) == product(
            unmasked(factors, axes, below).take(upto),
        ) * if names_axis(axes.take(upto), below) {
            factors[below]
        } else {
            1
        },
    decreases upto,
{
    let wide = unmasked(factors, axes, below + 1);
    let narrow = unmasked(factors, axes, below);
    if upto == 0 {
        assert(wide.take(0) =~= Seq::<int>::empty());
        assert(narrow.take(0) =~= Seq::<int>::empty());
        assert(!names_axis(axes.take(0), below));
    } else {
        let k = upto - 1;
        lemma_unmasked_step(factors, axes, below, k);
        lemma_product_take(wide, k);
        lemma_product_take(narrow, k);
        let before = axes.take(k);
        let after = axes.take(upto);
        let f = factors[below];
        let p = product(narrow.take(k));
        if axes[k] == below {
            if names_axis(before, below) {
                let i = choose|i: int| 0 <= i < before.len() && before[i] == below;
                assert(axes[i] == axes[k]);
            }
            assert(after[k] == below);
            assert(wide[k] == f);
            assert(narrow[k] == 1);
            assert((p * 1) * f == (p * 1) * f);
            assert(p * 1 == p) by (nonlinear_arith);
        } else {
            if names_axis(before, below) {
                let i = choose|i: int| 0 <= i < before.len() && before[i] == below;
                assert(after[i] == below);
            }
            if names_axis(after, below) {
                let i = choose|i: int| 0 <= i < after.len() && after[i] == below;
                assert(before[i] == below);
            }
            assert(wide[k] == narrow[k]);
            let g = narrow[k];
            if names_axis(before, below) {
                assert((p * f) * g == (p * g) * f) by (nonlinear_arith);
            } else {
                assert((p * 1) * g == (p * g) * 1) by (nonlinear_arith);
            }
        }
    }
}

proof fn lemma_unmasked_product(factors: Seq<int>, axes: Seq<usize>, below: int)
    requires
        is_permutation(axes, factors.len() as int),
        0 <= below <= factors.len(),
    ensures
        product(unmasked(factors, axes, below)) == product(factors.take(below)),
    decreases below,
{
    if below == 0 {
        lemma_product_ones(unmasked(factors, axes, 0));
        assert(factors.take(0) =~= Seq::<int>::empty());
    } else {
        let n = factors.len() as int;
        lemma_unmasked_product(factors, axes, below - 1);
        lemma_unmasked_step(factors, axes, below - 1, n);
        assert(unmasked(factors, axes, below).take(n) =~= unmasked(factors, axes, below));
        assert(unmasked(factors, axes, below - 1).take(n) =~= unmasked(factors, axes, below - 1));
        assert(axes.take(n) =~= axes);
        assert(names_axis(axes, below - 1));
        lemma_product_take(factors, below - 1);
    }
}

/// Permuting the axes of a shape leaves its size unchanged.
pub proof fn lemma_size_permuted(shape: Seq<usize>, axes: Seq<usize>)
    requires
        is_permutation(axes, shape.len() as int),
    ensures
        size_of(permuted(shape, axes)) == size_of(shape),
{
    let n = shape.len() as int;
    let dims = dims_of(shape);
    lemma_unmasked_product(dims, axes, n);
    assert(unmasked(dims, axes, n) =~= dims_of(permuted(shape, axes)));
    assert(dims.take(n) =~= dims);
    lemma_size_is_product(shape);
    lemma_size_is_product(permuted(shape, axes));
}

/// A permutation of a valid shape is a valid shape.
pub proof fn lemma_valid_shape_permuted(shape: Seq<usize>, axes: Seq<usize>)
    requires
        valid_shape(shape),
        is_permutation(axes, shape.len() as int),
    ensures
        valid_shape(permuted(shape, axes)),
{
    lemma_size_permuted(shape, axes);
    let p = permuted(shape, axes);
    assert forall|i: int| 0 <= i < p.len() implies p[i] >= 1 by {
        assert(shape[axes[i] as int] >= 1);
    }
}

/// A view that broadcasts a valid shape under its canonical strides reaches
/// exactly the last element of an array of that shape.
pub proof fn lemma_broadcast_reach(source: Seq<usize>, target: Seq<usize>)
    requires
        valid_shape(source),
        broadcasts_to(source, target),
    ensures
        reach(target, canonical_strides(source, target.len() as int)) == size_of(source) - 1,
{
    let n = target.len() as int;
    let lead = n - source.len();
    let wide = spans(target, canonical_strides(source, n));
    let narrow = spans(source, canonical_strides(source, source.len() as int));
    let zeros = Seq::new(lead as nat, |i: int| 0int);
    assert forall|i: int| 0 <= i < n implies wide[i] == (zeros + narrow)[i] by {
        if i >= lead {
            let j = i - lead;
            lemma_suffix_product_monotone(source, 0, j + 1);
            assert(source[j] == 1 || source[j] == target[target.len() - source.len() + j]);
            if source[j] == 1 {
                assert((target[i] - 1) * 0 == 0) by (nonlinear_arith);
                assert((source[j] - 1) * 0 == 0) by (nonlinear_arith);
            }
        } else {
            assert((target[i] - 1) * 0 == 0) by (nonlinear_arith);
        }
    }
    assert(wide =~= zeros + narrow);
    lemma_total_concat(zeros, narrow);
    lemma_total_zero(zeros);
    lemma_canonical_reach(source);
}

/// The offset that the element at `offset` of a view of shape `shape` has in the
/// source of the view, where `canon` holds the canonical strides of the shape
/// and `strides` those of the view.
pub fn offset_in(offset: usize, shape: &[usize], canon: &[usize], strides: &[usize]) -> (at: usize)
    requires
        valid_shape(shape@),
        canon@ == canonical_strides(shape@, shape@.len() as int),
        strides@.len() == shape@.len(),
        offset < size_of(shape@),
        reach(shape@, strides@) <= usize::MAX,
    ensures
        at == dot(unravel(offset as int, shape@), strides@),
{
    let ghost coords = unravel(offset as int, shape@);
    let ghost terms = products(coords, strides@);
    proof {
        lemma_unravel_in_shape(offset as int, shape@);
    }
    let n: usize = shape.len();
    let mut at: usize = 0;
    let mut axis: usize = 0;
    while axis < n
        invariant
            axis <= n,
            n == shape@.len(),
            valid_shape(shape@),
            canon@ == canonical_strides(shape@, shape@.len() as int),
            strides@.len() == shape@.len(),
            reach(shape@, strides@) <= usize::MAX,
            coords == unravel(offset as int, shape@),
            in_shape(coords, shape@),
            terms == products(coords, strides@),
            at == total(terms.take(axis as int)),
        decreases n - axis,
    {
        let coordinate: usize = if canon[axis] == 0 {
            0
        } else {
            (offset / canon[axis]) % shape[axis]
        };
        proof {
            lemma_suffix_product_monotone(shape@, 0, axis as int + 1);
            assert(coords[axis as int] == coordinate as int) by {
                if shape@[axis as int] == 1 {
                    assert(coords[axis as int] == 0);
                    assert(canon@[axis as int] == 0);
                } else {
                    lemma_suffix_product_positive(shape@, axis as int + 1);
                    assert(canon@[axis as int] == suffix_product(shape@, axis as int + 1));
                }
            }
            lemma_total_take(terms, axis as int);
            lemma_partial_dot_within_reach(coords, shape@, strides@, axis as int + 1);
            lemma_partial_dot_within_reach(coords, shape@, strides@, axis as int);
            assert(terms[axis as int] == coordinate * strides@[axis as int]);
        }
        at = at + coordinate * strides[axis];
        axis += 1;
    }
    assert(terms.take(n as int) =~= terms);
    at
}

} // verus!
