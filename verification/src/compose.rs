//! Views of views: a broadcast, a transpose or an expansion of a view is a
//! view of the same source, with strides made from those of the first view.

use vstd::prelude::*;
use vstd::arithmetic::div_mod::lemma_div_denominator;
use crate::layout::{
    dot, in_shape, lemma_dot_canonical, lemma_dot_permuted, lemma_total_concat, lemma_total_zero,
    lemma_unravel_in_shape, lemma_unravel_ravel, products, ravel, reach, reordered,
    row_major_products, spans, unravel,
};
use crate::shape::{
    broadcasts_to, canonical_strides, count_of, filled, filled_from, is_permutation,
    lemma_expanded_from_size, lemma_suffix_product_concat, lemma_suffix_product_monotone,
    lemma_suffix_product_positive, lemma_suffix_product_shift, names_axis, permuted, positive_dims,
    size_of, suffix_product, valid_shape,
};

verus! {

/// The strides of a broadcast of a view with `strides` over a shape `shape`
/// into `ndim` axes: zero on the leading axes and on the axes of size 1,
/// else the stride of the view.
pub open spec fn broadcast_strides(shape: Seq<usize>, strides: Seq<usize>, ndim: int) -> Seq<usize> {
    Seq::new(
        ndim as nat,
        |i: int|
            if i < ndim - shape.len() || shape[i - (ndim - shape.len())] == 1 {
                0usize
            } else {
                strides[i - (ndim - shape.len())]
            },
    )
}

/// The coordinates in a view of shape `shape` of what a broadcast of it into
/// a wider shape shows at `coords`.
pub open spec fn narrowed(coords: Seq<int>, shape: Seq<usize>) -> Seq<int> {
    Seq::new(
        shape.len(),
        |j: int|
            if shape[j] == 1 {
                0
            } else {
                coords[coords.len() - shape.len() + j]
            },
    )
}

/// A broadcast of a view reaches what the view reaches.
pub proof fn lemma_broadcast_view_reach(shape: Seq<usize>, strides: Seq<usize>, target: Seq<usize>)
    requires
        strides.len() == shape.len(),
        broadcasts_to(shape, target),
    ensures
        reach(target, broadcast_strides(shape, strides, target.len() as int)) == reach(
            shape,
            strides,
        ),
{
    let n = target.len() as int;
    let lead = n - shape.len();
    let wide = spans(target, broadcast_strides(shape, strides, n));
    let narrow = spans(shape, strides);
    let zeros = Seq::new(lead as nat, |i: int| 0int);
    assert forall|i: int| 0 <= i < n implies wide[i] == (zeros + narrow)[i] by {
        if i >= lead {
            let j = i - lead;
            assert(shape[j] == 1 || shape[j] == target[target.len() - shape.len() + j]);
            if shape[j] == 1 {
                assert((target[i] - 1) * 0 == 0) by (nonlinear_arith);
                assert((shape[j] - 1) * (strides[j] as int) == 0) by (nonlinear_arith)
                    requires
                        shape[j] - 1 == 0,
                ;
            }
        } else {
            assert((target[i] - 1) * 0 == 0) by (nonlinear_arith);
        }
    }
    assert(wide =~= zeros + narrow);
    lemma_total_concat(zeros, narrow);
    lemma_total_zero(zeros);
}

/// A broadcast of a view shows what a broadcast of its elements shows.
pub proof fn lemma_broadcast_view<T>(
    source: Seq<T>,
    shape: Seq<usize>,
    strides: Seq<usize>,
    target: Seq<usize>,
)
    requires
        valid_shape(shape),
        valid_shape(target),
        strides.len() == shape.len(),
        broadcasts_to(shape, target),
    ensures
        reordered(source, target, broadcast_strides(shape, strides, target.len() as int))
            == reordered(
            reordered(source, shape, strides),
            target,
            canonical_strides(shape, target.len() as int),
        ),
{
    let n = target.len() as int;
    let lead = n - shape.len();
    let wide = broadcast_strides(shape, strides, n);
    let canon = canonical_strides(shape, n);
    let direct = reordered(source, target, wide);
    let inner = reordered(source, shape, strides);
    let twice = reordered(inner, target, canon);
    assert forall|offset: int| 0 <= offset < size_of(target) implies direct[offset]
        == twice[offset] by {
        let outer = unravel(offset, target);
        lemma_unravel_in_shape(offset, target);
        let coords = narrowed(outer, shape);
        assert(in_shape(coords, shape)) by {
            assert forall|j: int| 0 <= j < shape.len() implies 0 <= #[trigger] coords[j]
                < shape[j] by {
                assert(shape[j] == 1 || shape[j] == target[target.len() - shape.len() + j]);
                assert(0 <= outer[lead + j] < target[lead + j]);
            }
        }
        let zeros = Seq::new(lead as nat, |i: int| 0int);
        // the offset among the elements of the view
        let a = products(outer, canon);
        let b = zeros + row_major_products(coords, shape);
        assert forall|i: int| 0 <= i < n implies a[i] == b[i] by {
            if i >= lead {
                let j = i - lead;
                lemma_suffix_product_monotone(shape, 0, j + 1);
                if shape[j] == 1 {
                    assert(outer[i] * 0 == 0) by (nonlinear_arith);
                    assert(0 * (suffix_product(shape, j + 1) as int) == 0) by (nonlinear_arith);
                }
            } else {
                assert(outer[i] * 0 == 0) by (nonlinear_arith);
            }
        }
        assert(a =~= b);
        lemma_total_concat(zeros, row_major_products(coords, shape));
        lemma_total_zero(zeros);
        assert(dot(outer, canon) == ravel(coords, shape));
        lemma_unravel_ravel(coords, shape);
        // the offset in the source
        let c = products(outer, wide);
        let d = zeros + products(coords, strides);
        assert forall|i: int| 0 <= i < n implies c[i] == d[i] by {
            if i >= lead {
                let j = i - lead;
                if shape[j] == 1 {
                    assert(outer[i] * 0 == 0) by (nonlinear_arith);
                    assert(0 * (strides[j] as int) == 0) by (nonlinear_arith);
                }
            } else {
                assert(outer[i] * 0 == 0) by (nonlinear_arith);
            }
        }
        assert(c =~= d);
        lemma_total_concat(zeros, products(coords, strides));
        assert(dot(outer, wide) == dot(coords, strides));
    }
    assert(direct =~= twice);
}

/// The position at which a permutation names the axis `x`.
pub open spec fn position_of(axes: Seq<usize>, x: int) -> int {
    choose|i: int| 0 <= i < axes.len() && axes[i] == x
}

/// The coordinates that, permuted by `axes`, give `coords`.
pub open spec fn unpermuted(coords: Seq<int>, axes: Seq<usize>) -> Seq<int> {
    Seq::new(axes.len(), |j: int| coords[position_of(axes, j)])
}

/// Permuting what was unpermuted gives the coordinates back, and these lie
/// within the shape whose permutation the coordinates lie within.
pub proof fn lemma_unpermuted(coords: Seq<int>, shape: Seq<usize>, axes: Seq<usize>)
    requires
        is_permutation(axes, shape.len() as int),
        in_shape(coords, permuted(shape, axes)),
    ensures
        permuted(unpermuted(coords, axes), axes) == coords,
        in_shape(unpermuted(coords, axes), shape),
{
    let back = unpermuted(coords, axes);
    assert forall|j: int| 0 <= j < shape.len() implies 0 <= #[trigger] back[j] < shape[j] by {
        assert(names_axis(axes, j));
        let i = position_of(axes, j);
        assert(0 <= coords[i] < permuted(shape, axes)[i]);
    }
    assert forall|i: int| 0 <= i < axes.len() implies permuted(back, axes)[i] == coords[i] by {
        let j = axes[i] as int;
        assert(names_axis(axes, j));
        let at = position_of(axes, j);
        if at != i {
            if at < i {
                assert(axes[at] != axes[i]);
            } else {
                assert(axes[i] != axes[at]);
            }
        }
    }
    assert(permuted(back, axes) =~= coords);
}

/// A transpose of a view shows what a transpose of its elements shows.
pub proof fn lemma_transpose_view<T>(
    source: Seq<T>,
    shape: Seq<usize>,
    strides: Seq<usize>,
    axes: Seq<usize>,
)
    requires
        valid_shape(shape),
        strides.len() == shape.len(),
        is_permutation(axes, shape.len() as int),
    ensures
        reordered(source, permuted(shape, axes), permuted(strides, axes)) == reordered(
            reordered(source, shape, strides),
            permuted(shape, axes),
            permuted(canonical_strides(shape, shape.len() as int), axes),
        ),
{
    let target = permuted(shape, axes);
    let canon = canonical_strides(shape, shape.len() as int);
    let direct = reordered(source, target, permuted(strides, axes));
    let inner = reordered(source, shape, strides);
    let twice = reordered(inner, target, permuted(canon, axes));
    crate::layout::lemma_valid_shape_permuted(shape, axes);
    crate::layout::lemma_size_permuted(shape, axes);
    assert forall|offset: int| 0 <= offset < size_of(target) implies direct[offset]
        == twice[offset] by {
        let outer = unravel(offset, target);
        lemma_unravel_in_shape(offset, target);
        lemma_unpermuted(outer, shape, axes);
        let coords = unpermuted(outer, axes);
        lemma_dot_permuted(coords, canon, axes);
        lemma_dot_canonical(coords, shape);
        lemma_unravel_ravel(coords, shape);
        lemma_dot_permuted(coords, strides, axes);
    }
    assert(direct =~= twice);
}

/// The coordinates of an offset in a shape put together from two are those of
/// the offset divided by the size of the second in the first, and those of the
/// offset in the second.
pub proof fn lemma_unravel_concat(offset: int, a: Seq<usize>, b: Seq<usize>)
    requires
        positive_dims(a),
        positive_dims(b),
        0 <= offset,
    ensures
        unravel(offset, a + b) == unravel(offset / (size_of(b) as int), a) + unravel(offset, b),
{
    let whole = unravel(offset, a + b);
    let parts = unravel(offset / (size_of(b) as int), a) + unravel(offset, b);
    lemma_suffix_product_positive(b, 0);
    assert forall|i: int| 0 <= i < a.len() + b.len() implies whole[i] == parts[i] by {
        if i < a.len() {
            lemma_suffix_product_concat(a, b, i + 1);
            lemma_suffix_product_positive(a, i + 1);
            let inner = suffix_product(a, i + 1) as int;
            let tail = size_of(b) as int;
            lemma_div_denominator(offset, tail, inner);
            assert(inner * tail == tail * inner) by (nonlinear_arith);
            assert((a + b)[i] == a[i]);
        } else {
            lemma_suffix_product_shift(a, b, i - a.len() + 1);
            assert((a + b)[i] == b[i - a.len()]);
        }
    }
    assert(whole =~= parts);
}

/// The offset that coordinates put together from two reach under strides put
/// together likewise is the sum of what the two reach.
pub proof fn lemma_dot_concat(ca: Seq<int>, cb: Seq<int>, sa: Seq<usize>, sb: Seq<usize>)
    requires
        ca.len() == sa.len(),
        cb.len() == sb.len(),
    ensures
        dot(ca + cb, sa + sb) == dot(ca, sa) + dot(cb, sb),
{
    assert(products(ca + cb, sa + sb) =~= products(ca, sa) + products(cb, sb));
    lemma_total_concat(products(ca, sa), products(cb, sb));
}

/// Under strides that are all zero every offset is zero.
pub proof fn lemma_dot_zero(coords: Seq<int>, strides: Seq<usize>)
    requires
        coords.len() == strides.len(),
        forall|i: int| 0 <= i < strides.len() ==> strides[i] == 0,
    ensures
        dot(coords, strides) == 0,
{
    assert forall|i: int| 0 <= i < coords.len() implies products(coords, strides)[i] == 0 by {
        assert(coords[i] * 0 == 0) by (nonlinear_arith);
    }
    lemma_total_zero(products(coords, strides));
}

/// What a view reaches under strides put together from two is the sum of what
/// its two parts reach.
pub proof fn lemma_reach_concat(a: Seq<usize>, b: Seq<usize>, sa: Seq<usize>, sb: Seq<usize>)
    requires
        a.len() == sa.len(),
        b.len() == sb.len(),
    ensures
        reach(a + b, sa + sb) == reach(a, sa) + reach(b, sb),
{
    assert(spans(a + b, sa + sb) =~= spans(a, sa) + spans(b, sb));
    lemma_total_concat(spans(a, sa), spans(b, sb));
}

/// From axis `from` on, a view with axes of size 1 and stride 0 inserted
/// reaches, for every offset, what the view without them reaches.
proof fn lemma_expand_from(
    offset: int,
    shape: Seq<usize>,
    strides: Seq<usize>,
    axes: Seq<usize>,
    from: int,
)
    requires
        positive_dims(shape),
        strides.len() == shape.len(),
        0 <= from <= shape.len(),
        0 <= offset,
    ensures
        filled_from(strides, axes, 0usize, from).len() == filled_from(
            shape,
            axes,
            1usize,
            from,
        ).len(),
        dot(
            unravel(offset, filled_from(shape, axes, 1usize, from)),
            filled_from(strides, axes, 0usize, from),
        ) == dot(unravel(offset, shape.skip(from)), strides.skip(from)),
        reach(filled_from(shape, axes, 1usize, from), filled_from(strides, axes, 0usize, from))
            == reach(shape.skip(from), strides.skip(from)),
    decreases shape.len() - from,
{
    let ones = Seq::new(count_of(axes, from), |i: int| 1usize);
    let zeros = Seq::new(count_of(axes, from), |i: int| 0usize);
    let wide = filled_from(shape, axes, 1usize, from);
    let wide_strides = filled_from(strides, axes, 0usize, from);
    if from == shape.len() {
        assert(shape.skip(from) =~= Seq::<usize>::empty());
        assert(strides.skip(from) =~= Seq::<usize>::empty());
        lemma_dot_zero(unravel(offset, ones), zeros);
        assert(spans(ones, zeros) =~= Seq::new(ones.len(), |i: int| 0int)) by {
            assert forall|i: int| 0 <= i < ones.len() implies spans(ones, zeros)[i] == 0 by {
                assert((1 - 1) * 0 == 0) by (nonlinear_arith);
            }
        }
        lemma_total_zero(spans(ones, zeros));
        assert(products(
            unravel(offset, shape.skip(from)),
            strides.skip(from),
        ) =~= Seq::<int>::empty());
        assert(spans(shape.skip(from), strides.skip(from)) =~= Seq::<int>::empty());
    } else {
        lemma_expand_from(offset, shape, strides, axes, from + 1);
        let rest = filled_from(shape, axes, 1usize, from + 1);
        let rest_strides = filled_from(strides, axes, 0usize, from + 1);
        let here = seq![shape[from]];
        let here_stride = seq![strides[from]];
        let tail = here + rest;
        let tail_strides = here_stride + rest_strides;
        assert(wide =~= ones + tail);
        assert(wide_strides =~= zeros + tail_strides);
        lemma_expanded_from_size(shape, axes, from + 1);
        assert(positive_dims(here));
        assert(positive_dims(ones));
        assert(positive_dims(tail));
        // the inserted axes add nothing
        lemma_unravel_concat(offset, ones, tail);
        lemma_dot_concat(
            unravel(offset / (size_of(tail) as int), ones),
            unravel(offset, tail),
            zeros,
            tail_strides,
        );
        lemma_dot_zero(unravel(offset / (size_of(tail) as int), ones), zeros);
        lemma_reach_concat(ones, tail, zeros, tail_strides);
        assert(spans(ones, zeros) =~= Seq::new(ones.len(), |i: int| 0int)) by {
            assert forall|i: int| 0 <= i < ones.len() implies spans(ones, zeros)[i] == 0 by {
                assert((1 - 1) * 0 == 0) by (nonlinear_arith);
            }
        }
        lemma_total_zero(spans(ones, zeros));
        // the axis itself and what follows it
        lemma_unravel_concat(offset, here, rest);
        lemma_dot_concat(
            unravel(offset / (size_of(rest) as int), here),
            unravel(offset, rest),
            here_stride,
            rest_strides,
        );
        lemma_reach_concat(here, rest, here_stride, rest_strides);
        let narrow = shape.skip(from);
        let narrow_strides = strides.skip(from);
        let after = shape.skip(from + 1);
        let after_strides = strides.skip(from + 1);
        assert(narrow =~= here + after);
        assert(narrow_strides =~= here_stride + after_strides);
        assert(positive_dims(after));
        lemma_unravel_concat(offset, here, after);
        lemma_dot_concat(
            unravel(offset / (size_of(after) as int), here),
            unravel(offset, after),
            here_stride,
            after_strides,
        );
        lemma_reach_concat(here, after, here_stride, after_strides);
        // both tails have the size of the axes after this one
        assert(shape =~= shape.take(from + 1) + after);
        lemma_suffix_product_shift(shape.take(from + 1), after, 0);
        assert(size_of(after) == suffix_product(shape, from + 1));
        assert(size_of(rest) == size_of(after));
    }
}

/// A view with axes of size 1 and stride 0 inserted shows what the view
/// shows, and reaches what it reaches.
pub proof fn lemma_expand_view<T>(
    source: Seq<T>,
    shape: Seq<usize>,
    strides: Seq<usize>,
    axes: Seq<usize>,
)
    requires
        valid_shape(shape),
        strides.len() == shape.len(),
    ensures
        filled(strides, axes, 0usize).len() == filled(shape, axes, 1usize).len(),
        reach(filled(shape, axes, 1usize), filled(strides, axes, 0usize)) == reach(shape, strides),
        reordered(source, filled(shape, axes, 1usize), filled(strides, axes, 0usize)) == reordered(
            source,
            shape,
            strides,
        ),
{
    let wide = filled(shape, axes, 1usize);
    let wide_strides = filled(strides, axes, 0usize);
    crate::shape::lemma_expanded_shape(shape, axes);
    assert(shape.skip(0) =~= shape);
    assert(strides.skip(0) =~= strides);
    lemma_expand_from(0, shape, strides, axes, 0);
    assert forall|offset: int| 0 <= offset < size_of(wide) implies reordered(
        source,
        wide,
        wide_strides,
    )[offset] == reordered(source, shape, strides)[offset] by {
        lemma_expand_from(offset, shape, strides, axes, 0);
    }
    assert(reordered(source, wide, wide_strides) =~= reordered(source, shape, strides));
}

} // verus!
