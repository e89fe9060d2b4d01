//! What holds of the operations taken together: the laws that relate one
//! operation to another, stated over the shapes and elements that the
//! operations promise.

use vstd::prelude::*;
use crate::array::NDArrayRead;
use crate::bounds::{
    cursor, lemma_full_ranges, padded, slice_coords, sliced, sliced_shape, Bound,
};
use crate::compose::lemma_dot_zero;
use crate::dtype::{lemma_wrapped_add, lemma_wrapped_range, wrapped, CDatatype};
use crate::reduce::{
    axis_lane, axis_reduced, lemma_scalar_value, lemma_values_ranged, values, ReduceOp,
};
use crate::layout::{
    in_shape, leading, lemma_dot_canonical, lemma_dot_permuted, lemma_in_shape_permuted,
    lemma_leading_ext, lemma_ravel_split, lemma_ravel_unravel, lemma_size_permuted,
    lemma_total_concat, lemma_total_zero, lemma_trailing_ext, lemma_unravel_in_shape,
    lemma_unravel_ravel, lemma_valid_shape_permuted, products, ravel, reordered, total, trailing,
    unravel,
};
use crate::shape::{
    axes_within, broadcasts_to, canonical_strides, expanded_shape, is_permutation,
    lemma_expanded_shape, lemma_filled_one, lemma_reduced_shape, lemma_size_around_axis,
    lemma_suffix_product_positive, names_axis, permuted, positive_dims, reduced_shape, size_of,
    suffix_product, valid_shape,
};

verus! {

/// `inverse` undoes the permutation `axes`: it names, for each axis, the
/// position at which `axes` names that axis.
pub open spec fn inverse_of(axes: Seq<usize>, inverse: Seq<usize>) -> bool {
    &&& inverse.len() == axes.len()
    &&& forall|j: int|
        0 <= j < axes.len() ==> (#[trigger] inverse[j]) < axes.len() && axes[inverse[j] as int]
            == j
}

/// What undoes a permutation is a permutation, and the permutation undoes it in turn.
pub proof fn lemma_inverse_permutation(axes: Seq<usize>, inverse: Seq<usize>)
    requires
        is_permutation(axes, axes.len() as int),
        inverse_of(axes, inverse),
    ensures
        is_permutation(inverse, axes.len() as int),
        forall|i: int| 0 <= i < axes.len() ==> inverse[#[trigger] axes[i] as int] == i,
{
    let n = axes.len() as int;
    assert forall|i: int| 0 <= i < n implies inverse[#[trigger] axes[i] as int] == i by {
        let j = axes[i] as int;
        let back = inverse[j] as int;
        assert(axes[back] == axes[i]);
        if back < i {
            assert(axes[back] != axes[i]);
        } else if back > i {
            assert(axes[i] != axes[back]);
        }
    }
    assert forall|a: int, b: int| 0 <= a < b < n implies inverse[a] != inverse[b] by {
        assert(axes[inverse[a] as int] == a);
        assert(axes[inverse[b] as int] == b);
    }
    assert forall|x: int| 0 <= x < n implies #[trigger] names_axis(inverse, x) by {
        assert(inverse[axes[x] as int] == x);
    }
}

/// A transpose by a permutation, followed by a transpose by what undoes the
/// permutation, gives back the shape and the elements.
pub proof fn law_transpose_roundtrip<T>(
    elements: Seq<T>,
    shape: Seq<usize>,
    axes: Seq<usize>,
    inverse: Seq<usize>,
)
    requires
        valid_shape(shape),
        elements.len() == size_of(shape),
        is_permutation(axes, shape.len() as int),
        inverse_of(axes, inverse),
    ensures
        is_permutation(inverse, shape.len() as int),
        permuted(permuted(shape, axes), inverse) == shape,
        reordered(
            reordered(
                elements,
                permuted(shape, axes),
                permuted(canonical_strides(shape, shape.len() as int), axes),
            ),
            permuted(permuted(shape, axes), inverse),
            permuted(canonical_strides(permuted(shape, axes), shape.len() as int), inverse),
        ) == elements,
{
    let n = shape.len() as int;
    let turned = permuted(shape, axes);
    let canon = canonical_strides(shape, n);
    let turned_canon = canonical_strides(turned, n);
    let once = reordered(elements, turned, permuted(canon, axes));
    let twice = reordered(once, permuted(turned, inverse), permuted(turned_canon, inverse));
    lemma_inverse_permutation(axes, inverse);
    lemma_valid_shape_permuted(shape, axes);
    lemma_size_permuted(shape, axes);
    assert(permuted(turned, inverse) =~= shape);
    assert forall|offset: int| 0 <= offset < size_of(shape) implies twice[offset]
        == elements[offset] by {
        let coords = unravel(offset, shape);
        lemma_unravel_in_shape(offset, shape);
        let turned_coords = permuted(coords, axes);
        lemma_in_shape_permuted(coords, shape, axes);
        assert(permuted(turned_coords, inverse) =~= coords);
        // in the transposed array the element lies at the transposed coordinates
        lemma_dot_permuted(turned_coords, turned_canon, inverse);
        lemma_dot_canonical(turned_coords, turned);
        lemma_unravel_ravel(turned_coords, turned);
        // and those are the coordinates of the element in the array itself
        lemma_dot_permuted(coords, canon, axes);
        lemma_dot_canonical(coords, shape);
        lemma_ravel_unravel(offset, shape);
    }
    assert(twice =~= elements);
}

/// A reshape followed by a reshape into the first shape gives back the shape
/// and the elements: `second` is what a reshape into `shape` promises of
/// `first`, and `third` what a reshape into the shape of `first` promises of
/// `second`.
pub proof fn law_reshape_roundtrip<A: NDArrayRead, B: NDArrayRead<DType = A::DType>, C: NDArrayRead<
    DType = A::DType,
>>(first: &A, second: &B, third: &C, shape: Seq<usize>)
    requires
        second.dims() == shape && second.elements() == first.elements(),
        third.dims() == first.dims() && third.elements() == second.elements(),
    ensures
        third.dims() == first.dims(),
        third.elements() == first.elements(),
{
}

/// The slice that keeps the full range of every axis has the shape and the
/// elements of its source.
pub proof fn law_slice_identity<T>(elements: Seq<T>, shape: Seq<usize>)
    requires
        valid_shape(shape),
        elements.len() == size_of(shape),
    ensures
        sliced_shape(padded(Seq::empty(), shape)) == shape,
        sliced(elements, shape, padded(Seq::empty(), shape)) == elements,
{
    let bounds = padded(Seq::<Bound>::empty(), shape);
    let n = shape.len() as int;
    lemma_full_ranges(shape, n);
    assert(bounds.take(n) =~= bounds);
    assert(shape.take(n) =~= shape);
    let kept = sliced(elements, shape, bounds);
    assert forall|offset: int| 0 <= offset < size_of(shape) implies kept[offset]
        == elements[offset] by {
        let coords = unravel(offset, shape);
        let picked = slice_coords(coords, bounds);
        assert forall|k: int| 0 <= k < n implies picked[k] == coords[k] by {
            lemma_full_ranges(shape, k);
            assert(cursor(bounds, k) == k);
            assert(bounds[k] == Bound::In(0, shape[k], 1));
            assert(0 + coords[k] * 1 == coords[k]) by (nonlinear_arith);
        }
        assert(picked =~= coords);
        lemma_ravel_unravel(offset, shape);
    }
    assert(kept =~= elements);
}

/// The broadcast of an array of shape `[1]` into any valid shape repeats the
/// one element: every element of the result is that element.
pub proof fn law_broadcast_scalar<T>(elements: Seq<T>, shape: Seq<usize>)
    requires
        elements.len() == 1,
        valid_shape(shape),
    ensures
        reordered(elements, shape, canonical_strides(seq![1usize], shape.len() as int)) == Seq::new(
            size_of(shape),
            |offset: int| elements[0],
        ),
{
    let strides = canonical_strides(seq![1usize], shape.len() as int);
    let wide = reordered(elements, shape, strides);
    assert forall|offset: int| 0 <= offset < size_of(shape) implies wide[offset]
        == elements[0] by {
        lemma_dot_zero(unravel(offset, shape), strides);
    }
    assert(wide =~= Seq::new(size_of(shape), |offset: int| elements[0]));
}

/// Reading is a function of the array: two buffers that a read of one array
/// may return hold the same elements.
pub proof fn law_read_pure<A: NDArrayRead>(array: &A, first: Seq<A::DType>, second: Seq<A::DType>)
    requires
        first == array.elements(),
        second == array.elements(),
    ensures
        first == second,
{
}


/// The sum of a list with one more term.
proof fn lemma_total_one_more(n: nat, f: spec_fn(int) -> int)
    ensures
        total(Seq::new(n + 1, f)) == total(Seq::new(n, f)) + f(n as int),
{
    assert(Seq::new(n + 1, f).drop_last() =~= Seq::new(n, f));
}

/// The sum of term-by-term sums is the sum of the sums.
proof fn lemma_total_of_sums(n: nat, f: spec_fn(int) -> int, g: spec_fn(int) -> int)
    ensures
        total(Seq::new(n, |i: int| f(i) + g(i))) == total(Seq::new(n, f)) + total(Seq::new(n, g)),
    decreases n,
{
    if n > 0 {
        let m = (n - 1) as nat;
        lemma_total_of_sums(m, f, g);
        lemma_total_one_more(m, f);
        lemma_total_one_more(m, g);
        lemma_total_one_more(m, |i: int| f(i) + g(i));
    }
}

/// The sums of the columns of a matrix, stored row by row with `inner`
/// entries in a row, add up to the sum of its entries.
proof fn lemma_columns(m: Seq<int>, rows: int, inner: int)
    requires
        rows >= 0,
        inner >= 1,
        m.len() >= rows * inner,
    ensures
        total(
            Seq::new(inner as nat, |r: int| total(Seq::new(rows as nat, |k: int| m[k * inner + r]))),
        ) == total(m.take(rows * inner)),
    decreases rows,
{
    let columns = Seq::new(
        inner as nat,
        |r: int| total(Seq::new(rows as nat, |k: int| m[k * inner + r])),
    );
    if rows == 0 {
        assert forall|r: int| 0 <= r < inner implies columns[r] == 0 by {
            assert(Seq::new(0nat, |k: int| m[k * inner + r]) =~= Seq::<int>::empty());
        }
        lemma_total_zero(columns);
        assert(0 * inner == 0) by (nonlinear_arith);
        assert(m.take(0) =~= Seq::<int>::empty());
    } else {
        let above = rows - 1;
        assert(above * inner + inner == rows * inner && above * inner >= 0) by (nonlinear_arith)
            requires
                above == rows - 1,
                above >= 0,
                inner >= 1,
        ;
        lemma_columns(m, above, inner);
        let f = |r: int| total(Seq::new(above as nat, |k: int| m[k * inner + r]));
        let g = |r: int| m[above * inner + r];
        assert forall|r: int| 0 <= r < inner implies columns[r] == f(r) + g(r) by {
            lemma_total_one_more(above as nat, |k: int| m[k * inner + r]);
        }
        assert(columns =~= Seq::new(inner as nat, |r: int| f(r) + g(r)));
        lemma_total_of_sums(inner as nat, f, g);
        let last_row = m.subrange(above * inner, rows * inner);
        assert(Seq::new(inner as nat, g) =~= last_row);
        assert(m.take(rows * inner) =~= m.take(above * inner) + last_row);
        lemma_total_concat(m.take(above * inner), last_row);
    }
}

/// The sums along the lanes of an array: for each position among the other
/// axes, the sum of the `dim` entries that lie `inner` apart.
pub open spec fn lane_totals(v: Seq<int>, dim: int, inner: int, count: int) -> Seq<int> {
    Seq::new(
        count as nat,
        |o: int| total(Seq::new(dim as nat, |k: int| v[(o / inner) * (dim * inner) + k * inner + o % inner])),
    )
}

/// The sums along the lanes of the first blocks of an array add up to the sum of those blocks.
proof fn lemma_lanes(v: Seq<int>, outer: int, dim: int, inner: int, upto: int)
    requires
        0 <= upto <= outer,
        dim >= 1,
        inner >= 1,
        v.len() == outer * dim * inner,
    ensures
        0 <= upto * inner <= outer * inner,
        0 <= upto * dim * inner <= outer * dim * inner,
        total(lane_totals(v, dim, inner, outer * inner).take(upto * inner)) == total(
            v.take(upto * dim * inner),
        ),
    decreases upto,
{
    let lanes = lane_totals(v, dim, inner, outer * inner);
    assert(0 <= upto * inner <= outer * inner && 0 <= upto * dim * inner <= outer * dim * inner)
        by (nonlinear_arith)
        requires
            0 <= upto <= outer,
            dim >= 1,
            inner >= 1,
    ;
    if upto == 0 {
        assert(0 * inner == 0 && 0 * dim * inner == 0) by (nonlinear_arith);
        assert(lanes.take(0) =~= Seq::<int>::empty());
        assert(v.take(0) =~= Seq::<int>::empty());
    } else {
        let q = upto - 1;
        lemma_lanes(v, outer, dim, inner, q);
        let span = dim * inner;
        assert(q * inner + inner == upto * inner && q * dim * inner + span == upto * dim * inner
            && q * dim * inner == q * span && span >= 1 && q * inner >= 0 && q * span >= 0)
            by (nonlinear_arith)
            requires
                q == upto - 1,
                q >= 0,
                span == dim * inner,
                dim >= 1,
                inner >= 1,
        ;
        let block = v.subrange(q * span, q * span + span);
        let chunk = lanes.subrange(q * inner, upto * inner);
        let columns = Seq::new(
            inner as nat,
            |r: int| total(Seq::new(dim as nat, |k: int| block[k * inner + r])),
        );
        assert forall|r: int| 0 <= r < inner implies chunk[r] == columns[r] by {
            let o = q * inner + r;
            vstd::arithmetic::div_mod::lemma_fundamental_div_mod_converse(o, inner, q, r);
            let a = Seq::new(
                dim as nat,
                |k: int| v[(o / inner) * (dim * inner) + k * inner + o % inner],
            );
            let b = Seq::new(dim as nat, |k: int| block[k * inner + r]);
            assert forall|k: int| 0 <= k < dim implies a[k] == b[k] by {
                assert(0 <= k * inner + r < span) by (nonlinear_arith)
                    requires
                        0 <= k <= dim - 1,
                        0 <= r <= inner - 1,
                        span == dim * inner,
                ;
            }
            assert(a =~= b);
        }
        assert(chunk =~= columns);
        lemma_columns(block, dim, inner);
        assert(block.take(dim * inner) =~= block);
        assert(lanes.take(upto * inner) =~= lanes.take(q * inner) + chunk);
        lemma_total_concat(lanes.take(q * inner), chunk);
        assert(v.take(upto * dim * inner) =~= v.take(q * dim * inner) + block);
        lemma_total_concat(v.take(q * dim * inner), block);
    }
}

/// The sum of integers that are wrapped beforehand wraps to what their sum wraps to.
proof fn lemma_total_wrapped(terms: Seq<int>, lo: int, hi: int)
    requires
        lo <= hi,
    ensures
        wrapped(total(Seq::new(terms.len(), |i: int| wrapped(terms[i], lo, hi))), lo, hi) == wrapped(
            total(terms),
            lo,
            hi,
        ),
    decreases terms.len(),
{
    let inside = Seq::new(terms.len(), |i: int| wrapped(terms[i], lo, hi));
    if terms.len() > 0 {
        let fewer = terms.drop_last();
        lemma_total_wrapped(fewer, lo, hi);
        let fewer_inside = Seq::new(fewer.len(), |i: int| wrapped(fewer[i], lo, hi));
        assert(inside.drop_last() =~= fewer_inside);
        let a = total(fewer_inside);
        let b = total(fewer);
        let x = terms.last();
        // wrapped(a + wrapped(x)) == wrapped(a + x) == wrapped(wrapped(a) + x)
        //   == wrapped(wrapped(b) + x) == wrapped(b + x)
        lemma_wrapped_add(a, x, lo, hi);
        lemma_wrapped_add(b, x, lo, hi);
    }
}

/// The sums along one axis add up to the sum of all elements: summing an
/// array along an axis and then summing what results gives the sum of the array.
pub proof fn law_sum_of_axis_sums<T: CDatatype>(elements: Seq<T>, shape: Seq<usize>, axis: int)
    requires
        valid_shape(shape),
        elements.len() == size_of(shape),
        0 <= axis < shape.len(),
    ensures
        ReduceOp::Sum.value(axis_reduced(ReduceOp::Sum, elements, shape, axis))
            == ReduceOp::Sum.value(elements),
{
    let lo = T::lowest();
    let hi = T::highest();
    let sums = axis_reduced(ReduceOp::Sum, elements, shape, axis);
    let v = values(elements);
    let dim = shape[axis] as int;
    let inner = suffix_product(shape, axis + 1) as int;
    let outer = size_of(shape.take(axis)) as int;
    let count = size_of(reduced_shape(shape, axis)) as int;
    lemma_reduced_shape(shape, axis);
    lemma_size_around_axis(shape, axis);
    lemma_suffix_product_positive(shape, axis + 1);
    assert(positive_dims(shape.take(axis)));
    lemma_suffix_product_positive(shape.take(axis), 0);
    lemma_values_ranged(elements);
    let lanes = lane_totals(v, dim, inner, count);
    // each sum along the axis stands for what the sum of its lane wraps to
    assert forall|o: int| 0 <= o < count implies (#[trigger] values(sums)[o]) == wrapped(
        lanes[o],
        lo,
        hi,
    ) by {
        let along = axis_lane(elements, shape, axis, o);
        let q = o / inner;
        let r = o % inner;
        vstd::arithmetic::div_mod::lemma_multiply_divide_lt(o, inner, outer);
        vstd::arithmetic::div_mod::lemma_div_pos_is_pos(o, inner);
        vstd::arithmetic::div_mod::lemma_mod_bound(o, inner);
        let a = values(along);
        let b = Seq::new(dim as nat, |k: int| v[(o / inner) * (dim * inner) + k * inner + o % inner]);
        assert forall|k: int| 0 <= k < dim implies a[k] == b[k] by {
            assert(0 <= q * (dim * inner) + k * inner + r < outer * dim * inner)
                by (nonlinear_arith)
                requires
                    0 <= q <= outer - 1,
                    0 <= k <= dim - 1,
                    0 <= r <= inner - 1,
            ;
        }
        assert(a =~= b);
        lemma_wrapped_range(total(a), lo, hi);
        lemma_scalar_value::<T>(wrapped(total(a), lo, hi));
    }
    let wrapped_lanes = Seq::new(lanes.len(), |i: int| wrapped(lanes[i], lo, hi));
    assert(values(sums) =~= wrapped_lanes);
    lemma_total_wrapped(lanes, lo, hi);
    assert(outer * dim * inner == size_of(shape)) by (nonlinear_arith)
        requires
            size_of(shape) == outer * dim * inner,
    ;
    lemma_lanes(v, outer, dim, inner, outer);
    assert(lanes.take(outer * inner) =~= lanes);
    assert(v.take(outer * dim * inner) =~= v);
}


/// The elements of a row-major array that lie along `axis` through the
/// position `coords`: those at the coordinates that differ from `coords`
/// along that axis only.
pub open spec fn line<T>(elements: Seq<T>, shape: Seq<usize>, axis: int, coords: Seq<int>) -> Seq<T> {
    Seq::new(shape[axis] as nat, |j: int| elements[ravel(coords.update(axis, j), shape)])
}

/// The reductions along an axis, seen again in the shape of the array: where
/// an array of two axes or more is reduced along an axis, an axis of size 1 is
/// put in the place of that axis, and the result is broadcast into the shape
/// of the array, every element is the reduction of the line through its
/// position along the axis. The expansion gives the shape of the array with 1
/// on the axis, which broadcasts into the shape of the array.
pub proof fn law_axis_reductions_broadcast<T: CDatatype>(
    op: ReduceOp,
    elements: Seq<T>,
    shape: Seq<usize>,
    axis: usize,
)
    requires
        valid_shape(shape),
        shape.len() >= 2,
        elements.len() == size_of(shape),
        axis < shape.len(),
    ensures
        axes_within(seq![axis], reduced_shape(shape, axis as int).len() as int),
        expanded_shape(reduced_shape(shape, axis as int), seq![axis]) == shape.update(
            axis as int,
            1usize,
        ),
        valid_shape(shape.update(axis as int, 1usize)),
        broadcasts_to(shape.update(axis as int, 1usize), shape),
        forall|offset: int|
            0 <= offset < size_of(shape) ==> (#[trigger] reordered(
                axis_reduced(op, elements, shape, axis as int),
                shape,
                canonical_strides(shape.update(axis as int, 1usize), shape.len() as int),
            )[offset]) == op.value(line(elements, shape, axis as int, unravel(offset, shape))),
{
    let n = shape.len() as int;
    let reduced = reduced_shape(shape, axis as int);
    let flat = shape.update(axis as int, 1usize);
    let sums = axis_reduced(op, elements, shape, axis as int);
    let strides = canonical_strides(flat, n);
    let dim = shape[axis as int] as int;
    let inner = suffix_product(shape, axis + 1) as int;
    lemma_reduced_shape(shape, axis as int);
    lemma_filled_one(reduced, axis, 1usize);
    assert(reduced.insert(axis as int, 1usize) =~= flat);
    lemma_expanded_shape(reduced, seq![axis]);
    lemma_suffix_product_positive(shape, axis + 1);
    assert forall|offset: int| 0 <= offset < size_of(shape) implies (#[trigger] reordered(
        sums,
        shape,
        strides,
    )[offset]) == op.value(line(elements, shape, axis as int, unravel(offset, shape))) by {
        let coords = unravel(offset, shape);
        lemma_unravel_in_shape(offset, shape);
        let low = coords.update(axis as int, 0);
        assert(in_shape(low, flat));
        // the stride along the axis is zero, so the coordinate along it does not count
        assert(products(coords, strides) =~= products(low, strides)) by {
            assert(strides[axis as int] == 0);
            assert(coords[axis as int] * 0 == 0 * 0) by (nonlinear_arith);
        }
        lemma_dot_canonical(low, flat);
        lemma_unravel_ravel(low, flat);
        let at = ravel(low, flat);
        lemma_ravel_split(low, flat, axis as int);
        lemma_trailing_ext(low, coords, flat, shape, axis + 1);
        lemma_leading_ext(low, coords, flat, shape, axis as int);
        let q = leading(coords, shape, axis as int);
        let rest = trailing(coords, shape, axis + 1);
        assert(at == q * inner + rest) by {
            assert(q * (1 * inner) + 0 * inner + rest == q * inner + rest) by (nonlinear_arith);
        }
        vstd::arithmetic::div_mod::lemma_fundamental_div_mod_converse(at, inner, q, rest);
        let along = axis_lane(elements, shape, axis as int, at);
        let through = line(elements, shape, axis as int, coords);
        assert forall|k: int| 0 <= k < dim implies along[k] == through[k] by {
            let moved = coords.update(axis as int, k);
            assert(in_shape(moved, shape));
            lemma_ravel_split(moved, shape, axis as int);
            lemma_trailing_ext(moved, coords, shape, shape, axis + 1);
            lemma_leading_ext(moved, coords, shape, shape, axis as int);
        }
        assert(along =~= through);
    }
}

} // verus!
