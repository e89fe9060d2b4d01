//! Shapes and the arithmetic on them: sizes, canonical strides, broadcasting,
//! axis removal, axis insertion and axis permutations.

use vstd::prelude::*;
use vstd::arithmetic::mul::*;
use crate::error::{
    bounds_about, bounds_between, bounds_index, message_about, message_between, message_index,
    Error,
};
use vstd::string::StringExecFns;

verus! {

/// The dimensions of an array, outermost axis first.
pub type Shape = Vec<usize>;

/// The product of the dimensions from axis `from` to the last one (1 past the end).
pub open spec fn suffix_product(shape: Seq<usize>, from: int) -> nat
    decreases shape.len() - from,
{
    if from < 0 || from >= shape.len() {
        1
    } else {
        (shape[from] as nat) * suffix_product(shape, from + 1)
    }
}

/// The number of elements of an array of the given shape.
pub open spec fn size_of(shape: Seq<usize>) -> nat {
    suffix_product(shape, 0)
}

/// Every dimension is at least 1.
pub open spec fn positive_dims(shape: Seq<usize>) -> bool {
    forall|i: int| 0 <= i < shape.len() ==> shape[i] >= 1
}

/// A shape that an array may have: not empty, every dimension at least 1,
/// and a number of elements that a `usize` can hold.
pub open spec fn valid_shape(shape: Seq<usize>) -> bool {
    &&& shape.len() > 0
    &&& positive_dims(shape)
    &&& size_of(shape) <= usize::MAX
}

pub proof fn lemma_suffix_product_positive(shape: Seq<usize>, from: int)
    requires
        positive_dims(shape),
    ensures
        suffix_product(shape, from) >= 1,
    decreases shape.len() - from,
{
    if 0 <= from < shape.len() {
        lemma_suffix_product_positive(shape, from + 1);
        lemma_mul_strictly_positive(shape[from] as int, suffix_product(shape, from + 1) as int);
    }
}

/// With positive dimensions a suffix product never exceeds one that starts earlier.
pub proof fn lemma_suffix_product_monotone(shape: Seq<usize>, i: int, j: int)
    requires
        positive_dims(shape),
        0 <= i <= j,
    ensures
        suffix_product(shape, j) <= suffix_product(shape, i),
    decreases j - i,
{
    if i < j {
        lemma_suffix_product_monotone(shape, i + 1, j);
        lemma_suffix_product_positive(shape, i + 1);
        if i < shape.len() {
            lemma_mul_increases(shape[i] as int, suffix_product(shape, i + 1) as int);
            lemma_mul_is_commutative(shape[i] as int, suffix_product(shape, i + 1) as int);
        }
    }
}

/// A zero dimension at or after `from` makes the suffix product zero.
pub proof fn lemma_suffix_product_zero(shape: Seq<usize>, from: int, at: int)
    requires
        0 <= from <= at < shape.len(),
        shape[at] == 0,
    ensures
        suffix_product(shape, from) == 0,
    decreases at - from,
{
    if from < at {
        lemma_suffix_product_zero(shape, from + 1, at);
    }
    assert(suffix_product(shape, from) == 0) by (nonlinear_arith)
        requires
            suffix_product(shape, from) == (shape[from] as nat) * suffix_product(shape, from + 1),
            shape[from] == 0 || suffix_product(shape, from + 1) == 0,
    ;
}

/// Suffix products depend only on the dimensions from `from` on.
pub proof fn lemma_suffix_product_ext(a: Seq<usize>, b: Seq<usize>, from: int)
    requires
        a.len() == b.len(),
        forall|i: int| from <= i < a.len() ==> a[i] == b[i],
    ensures
        suffix_product(a, from) == suffix_product(b, from),
    decreases a.len() - from,
{
    if 0 <= from < a.len() {
        lemma_suffix_product_ext(a, b, from + 1);
    } else if from < 0 {
    }
}

/// The number of elements of `shape`, or `None` where a `usize` cannot hold it.
pub fn checked_size(shape: &[usize]) -> (size: Option<usize>)
    ensures
        match size {
            Some(n) => n == size_of(shape@),
            None => size_of(shape@) > usize::MAX,
        },
{
    let n: usize = shape.len();
    let mut acc: usize = 1;
    let mut i: usize = n;
    while i > 0
        invariant
            i <= n,
            n == shape@.len(),
            acc == suffix_product(shape@, i as int),
        decreases i,
    {
        i -= 1;
        match shape[i].checked_mul(acc) {
            Some(next) => {
                acc = next;
            },
            None => {
                // the suffix is too large: the whole is too large unless a zero comes before it
                let mut j: usize = 0;
                while j < i
                    invariant
                        j <= i < n,
                        n == shape@.len(),
                        forall|k: int| 0 <= k < j ==> shape@[k] >= 1,
                    decreases i - j,
                {
                    if shape[j] == 0 {
                        proof {
                            lemma_suffix_product_zero(shape@, 0, j as int);
                        }
                        return Some(0);
                    }
                    j += 1;
                }
                proof {
                    lemma_prefix_positive_monotone(shape@, i as int);
                }
                return None;
            },
        }
    }
    Some(acc)
}

/// Where every dimension before `i` is positive, the whole product is at least the suffix from `i`.
proof fn lemma_prefix_positive_monotone(shape: Seq<usize>, i: int)
    requires
        0 <= i <= shape.len(),
        forall|k: int| 0 <= k < i ==> shape[k] >= 1,
    ensures
        suffix_product(shape, i) <= suffix_product(shape, 0),
    decreases i,
{
    if i > 0 {
        lemma_prefix_positive_monotone(shape, i - 1);
        assert(suffix_product(shape, i) <= suffix_product(shape, i - 1)) by (nonlinear_arith)
            requires
                suffix_product(shape, i - 1) == (shape[i - 1] as nat) * suffix_product(shape, i),
                shape[i - 1] >= 1,
        ;
    }
}

/// Whether `shape` is not empty and has no zero dimension.
pub fn has_positive_dims(shape: &[usize]) -> (ok: bool)
    ensures
        ok == (shape@.len() > 0 && positive_dims(shape@)),
{
    if shape.len() == 0 {
        return false;
    }
    let mut i: usize = 0;
    while i < shape.len()
        invariant
            i <= shape@.len(),
            forall|k: int| 0 <= k < i ==> shape@[k] >= 1,
        decreases shape@.len() - i,
    {
        if shape[i] == 0 {
            return false;
        }
        i += 1;
    }
    true
}

/// The number of elements of a valid shape; `None` where the shape is not valid.
pub fn valid_size(shape: &[usize]) -> (size: Option<usize>)
    ensures
        size is Some == valid_shape(shape@),
        size matches Some(n) ==> n == size_of(shape@),
{
    if has_positive_dims(shape) {
        checked_size(shape)
    } else {
        None
    }
}


/// The canonical stride of one axis of a view with `ndim` axes over an array of
/// shape `shape`, whose axes are aligned with the last axes of the view: zero on
/// the leading axes and on axes of size 1, else the product of the dimensions
/// to the right.
pub open spec fn canonical_stride(shape: Seq<usize>, ndim: int, axis: int) -> nat {
    let lead = ndim - shape.len();
    if axis < lead || shape[axis - lead] == 1 {
        0
    } else {
        suffix_product(shape, axis - lead + 1)
    }
}

/// The canonical (row-major) strides of `shape` seen through `ndim` axes.
pub open spec fn canonical_strides(shape: Seq<usize>, ndim: int) -> Seq<usize> {
    Seq::new(ndim as nat, |axis: int| canonical_stride(shape, ndim, axis) as usize)
}

/// The canonical strides of `shape`, preceded by zeros up to `ndim` axes.
pub fn strides_for(shape: &[usize], ndim: usize) -> (strides: Vec<usize>)
    requires
        valid_shape(shape@),
        ndim >= shape@.len(),
    ensures
        strides@ == canonical_strides(shape@, ndim as int),
{
    let n: usize = shape.len();
    let lead: usize = ndim - n;
    let mut strides: Vec<usize> = Vec::new();
    let mut i: usize = 0;
    while i < ndim
        invariant
            i <= ndim,
            strides@.len() == i,
            forall|k: int| 0 <= k < i ==> strides@[k] == 0,
        decreases ndim - i,
    {
        strides.push(0);
        i += 1;
    }
    let mut acc: usize = 1;
    let mut x: usize = n;
    while x > 0
        invariant
            x <= n,
            n == shape@.len(),
            lead + n == ndim,
            valid_shape(shape@),
            strides@.len() == ndim,
            acc == suffix_product(shape@, x as int),
            forall|k: int| 0 <= k < lead + x ==> strides@[k] == 0,
            forall|k: int|
                lead + x <= k < ndim ==> strides@[k] == canonical_stride(
                    shape@,
                    ndim as int,
                    k,
                ) as usize,
        decreases x,
    {
        x -= 1;
        proof {
            lemma_suffix_product_monotone(shape@, 0, x as int + 1);
            lemma_suffix_product_monotone(shape@, 0, x as int);
        }
        if shape[x] != 1 {
            strides.set(lead + x, acc);
        }
        acc = shape[x] * acc;
    }
    assert(strides@ =~= canonical_strides(shape@, ndim as int));
    strides
}

/// A copy of `items`.
pub fn copy_of(items: &[usize]) -> (copy: Vec<usize>)
    ensures
        copy@ == items@,
{
    let mut copy: Vec<usize> = Vec::new();
    let mut i: usize = 0;
    while i < items.len()
        invariant
            i <= items@.len(),
            copy@ == items@.take(i as int),
        decreases items@.len() - i,
    {
        copy.push(items[i]);
        i += 1;
    }
    assert(items@.take(items@.len() as int) =~= items@);
    copy
}

/// Whether two lists of dimensions are the same.
pub fn same_dims(left: &[usize], right: &[usize]) -> (same: bool)
    ensures
        same == (left@ == right@),
{
    if left.len() != right.len() {
        return false;
    }
    let mut i: usize = 0;
    while i < left.len()
        invariant
            i <= left@.len(),
            left@.len() == right@.len(),
            forall|k: int| 0 <= k < i ==> left@[k] == right@[k],
        decreases left@.len() - i,
    {
        if left[i] != right[i] {
            return false;
        }
        i += 1;
    }
    assert(left@ =~= right@);
    true
}

/// The message of the error that tells of two shapes that should be the same.
pub open spec fn shape_mismatch(left: Seq<usize>, right: Seq<usize>) -> Seq<char> {
    message_between(
        "this operation expects arrays of the same shape (consider calling broadcast() explicitly) but found "@,
        left,
        right,
    )
}

/// The common shape of two operands of an elementwise operation: they must agree exactly.
pub fn check_shape(left: &[usize], right: &[usize]) -> (shape: Result<Shape, Error>)
    ensures
        shape is Ok == (left@ == right@),
        shape matches Ok(s) ==> s@ == left@,
        shape matches Err(e) ==> e is Bounds && e.cause() == shape_mismatch(left@, right@),
{
    if same_dims(left, right) {
        Ok(copy_of(left))
    } else {
        Err(
            bounds_between(
                "this operation expects arrays of the same shape (consider calling broadcast() explicitly) but found ",
                left,
                right,
            ),
        )
    }
}

/// The dimension of `shape` that lines up with axis `axis` out of `ndim`, where
/// the shape's axes are aligned with the last ones; a missing axis counts as 1.
pub open spec fn aligned_dim(shape: Seq<usize>, ndim: int, axis: int) -> usize {
    let lead = ndim - shape.len();
    if axis < lead {
        1
    } else {
        shape[axis - lead]
    }
}

/// The larger of two ranks.
pub open spec fn max_rank(left: Seq<usize>, right: Seq<usize>) -> int {
    if left.len() >= right.len() {
        left.len() as int
    } else {
        right.len() as int
    }
}

/// On one aligned axis the dimensions of two shapes are equal, or one of them is 1.
pub open spec fn compatible_at(left: Seq<usize>, right: Seq<usize>, axis: int) -> bool {
    let l = aligned_dim(left, max_rank(left, right), axis);
    let r = aligned_dim(right, max_rank(left, right), axis);
    l == r || l == 1 || r == 1
}

/// The dimension that two shapes have in common on one aligned axis.
pub open spec fn broadcast_dim(left: Seq<usize>, right: Seq<usize>, axis: int) -> usize {
    let l = aligned_dim(left, max_rank(left, right), axis);
    let r = aligned_dim(right, max_rank(left, right), axis);
    if l == 1 {
        r
    } else {
        l
    }
}

/// Two shapes can be broadcast against each other: neither is empty, and on
/// every aligned axis the dimensions are equal or one of them is 1.
pub open spec fn broadcastable(left: Seq<usize>, right: Seq<usize>) -> bool {
    &&& left.len() > 0
    &&& right.len() > 0
    &&& forall|axis: int|
        0 <= axis < max_rank(left, right) ==> #[trigger] compatible_at(left, right, axis)
}

/// The shape that two broadcastable shapes have in common.
pub open spec fn broadcast_of(left: Seq<usize>, right: Seq<usize>) -> Seq<usize> {
    Seq::new(max_rank(left, right) as nat, |axis: int| broadcast_dim(left, right, axis))
}

/// The first aligned axis from `from` on at which two shapes cannot be
/// broadcast against each other; the larger rank where there is none.
pub open spec fn first_clash(left: Seq<usize>, right: Seq<usize>, from: int) -> int
    decreases max_rank(left, right) - from,
{
    if from >= max_rank(left, right) || !compatible_at(left, right, from) {
        from
    } else {
        first_clash(left, right, from + 1)
    }
}

/// The message of the error that tells why two shapes cannot be broadcast
/// against each other: that one is empty, or the two dimensions of the first
/// aligned axis at which they differ and neither is 1.
pub open spec fn broadcast_refusal(left: Seq<usize>, right: Seq<usize>) -> Seq<char> {
    if left.len() == 0 || right.len() == 0 {
        "cannot broadcast empty shape"@
    } else {
        message_index(
            "cannot broadcast dimension "@,
            aligned_dim(left, max_rank(left, right), first_clash(left, right, 0)),
            aligned_dim(right, max_rank(left, right), first_clash(left, right, 0)),
        )
    }
}

/// The shape that `left` and `right` broadcast to, or a bounds error where they do not.
pub fn broadcast_shape(left: &[usize], right: &[usize]) -> (shape: Result<Shape, Error>)
    ensures
        shape is Ok == broadcastable(left@, right@),
        shape matches Ok(s) ==> s@ == broadcast_of(left@, right@),
        shape matches Err(e) ==> e is Bounds && e.cause() == broadcast_refusal(left@, right@),
{
    if left.len() == 0 || right.len() == 0 {
        return Err(Error::Bounds(String::from_str("cannot broadcast empty shape")));
    }
    let ndim: usize = if left.len() >= right.len() {
        left.len()
    } else {
        right.len()
    };
    let left_lead: usize = ndim - left.len();
    let right_lead: usize = ndim - right.len();
    let mut shape: Vec<usize> = Vec::new();
    let mut x: usize = 0;
    while x < ndim
        invariant
            x <= ndim,
            ndim == max_rank(left@, right@),
            left_lead == ndim - left@.len(),
            right_lead == ndim - right@.len(),
            shape@.len() == x,
            forall|axis: int| 0 <= axis < x ==> #[trigger] compatible_at(left@, right@, axis),
            first_clash(left@, right@, 0) == first_clash(left@, right@, x as int),
            forall|axis: int|
                0 <= axis < x ==> #[trigger] shape@[axis] == broadcast_dim(left@, right@, axis),
        decreases ndim - x,
    {
        let l: usize = if x < left_lead {
            1
        } else {
            left[x - left_lead]
        };
        let r: usize = if x < right_lead {
            1
        } else {
            right[x - right_lead]
        };
        assert(l == aligned_dim(left@, ndim as int, x as int));
        assert(r == aligned_dim(right@, ndim as int, x as int));
        if l == 1 {
            shape.push(r);
        } else if r == 1 || r == l {
            shape.push(l);
        } else {
            assert(!compatible_at(left@, right@, x as int));
            return Err(bounds_index("cannot broadcast dimension ", l, r));
        }
        x += 1;
    }
    assert(shape@ =~= broadcast_of(left@, right@));
    Ok(shape)
}

/// The message of the error that tells why an array of shape `dims` cannot be
/// broadcast into `shape`: that the shape is no valid shape, or else the two shapes.
pub open spec fn broadcast_into_refusal(dims: Seq<usize>, shape: Seq<usize>) -> Seq<char> {
    if !valid_shape(shape) {
        message_about("cannot broadcast into "@, shape)
    } else {
        message_between("cannot broadcast between shapes "@, dims, shape)
    }
}

/// The message of the error that tells why an array of shape `dims` cannot be
/// reshaped into `shape`: that the shape is no valid shape, or else the two shapes.
pub open spec fn reshape_refusal(dims: Seq<usize>, shape: Seq<usize>) -> Seq<char> {
    if !valid_shape(shape) {
        message_about("cannot reshape into "@, shape)
    } else {
        message_between("cannot reshape between shapes "@, dims, shape)
    }
}

/// The message of the error that tells why no array of shape `shape` can hold
/// the data given: that the shape is no valid shape, or else that the number
/// of elements is not the size of the shape.
pub open spec fn shape_refusal(shape: Seq<usize>) -> Seq<char> {
    if !valid_shape(shape) {
        message_about("invalid shape "@, shape)
    } else {
        message_about("wrong number of elements for shape "@, shape)
    }
}

/// `source` can be broadcast into `target`: the target has at least as many
/// axes, and each source dimension equals the target dimension it is aligned
/// with or is 1.
pub open spec fn broadcasts_to(source: Seq<usize>, target: Seq<usize>) -> bool {
    &&& source.len() <= target.len()
    &&& forall|axis: int|
        0 <= axis < source.len() ==> {
            let dim = #[trigger] source[axis];
            dim == 1 || dim == target[target.len() - source.len() + axis]
        }
}

/// Whether `source` can be broadcast into `target`.
pub fn can_broadcast_to(source: &[usize], target: &[usize]) -> (ok: bool)
    ensures
        ok == broadcasts_to(source@, target@),
{
    if target.len() < source.len() {
        return false;
    }
    let lead: usize = target.len() - source.len();
    let mut x: usize = 0;
    while x < source.len()
        invariant
            x <= source@.len(),
            source@.len() <= target@.len() <= usize::MAX,
            lead == target@.len() - source@.len(),
            forall|axis: int|
                0 <= axis < x ==> {
                    let dim = #[trigger] source@[axis];
                    dim == 1 || dim == target@[target@.len() - source@.len() + axis]
                },
        decreases source@.len() - x,
    {
        if source[x] != 1 && source[x] != target[lead + x] {
            return false;
        }
        x += 1;
    }
    true
}

/// The shape left when one axis is reduced away: the axis is removed, and a
/// one-dimensional shape becomes `[1]`.
pub open spec fn reduced_shape(shape: Seq<usize>, axis: int) -> Seq<usize> {
    if shape.len() == 1 {
        seq![1usize]
    } else {
        shape.remove(axis)
    }
}

/// The shape of a reduction of `shape` along `axis`, or a bounds error where there is no such axis.
pub fn reduce_axis(shape: &[usize], axis: usize) -> (reduced: Result<Shape, Error>)
    ensures
        reduced is Ok == (axis < shape@.len()),
        reduced matches Ok(s) ==> s@ == reduced_shape(shape@, axis as int),
        reduced matches Err(e) ==> e is Bounds && e.cause() == message_about("axis is out of bounds for shape "@, shape@),
{
    if axis >= shape.len() {
        return Err(bounds_about("axis is out of bounds for shape ", shape));
    }
    let mut reduced: Vec<usize> = Vec::new();
    if shape.len() == 1 {
        reduced.push(1);
        assert(reduced@ =~= seq![1usize]);
        return Ok(reduced);
    }
    let mut x: usize = 0;
    while x < shape.len()
        invariant
            x <= shape@.len(),
            axis < shape@.len(),
            x <= axis ==> reduced@ == shape@.take(x as int),
            x > axis ==> reduced@ == shape@.take(x as int).remove(axis as int),
        decreases shape@.len() - x,
    {
        if x != axis {
            reduced.push(shape[x]);
        }
        proof {
            let before = shape@.take(x as int);
            let after = shape@.take(x as int + 1);
            if x < axis {
                assert(after =~= before.push(shape@[x as int]));
            } else if x == axis {
                assert(after.remove(axis as int) =~= before);
            } else {
                assert(after.remove(axis as int) =~= before.remove(axis as int).push(
                    shape@[x as int],
                ));
            }
        }
        x += 1;
    }
    assert(shape@.take(shape@.len() as int) =~= shape@);
    Ok(reduced)
}

/// How many of `axes` are equal to `at`.
pub open spec fn count_of(axes: Seq<usize>, at: int) -> nat
    decreases axes.len(),
{
    if axes.len() == 0 {
        0
    } else {
        count_of(axes.drop_last(), at) + if axes.last() == at {
            1nat
        } else {
            0nat
        }
    }
}

/// `items` from position `from` on, with `fill` put in once for each of `axes`
/// that names the position it is put in front of (the end of `items` included).
pub open spec fn filled_from<T>(items: Seq<T>, axes: Seq<usize>, fill: T, from: int) -> Seq<T>
    decreases items.len() - from,
{
    let here = Seq::new(count_of(axes, from), |i: int| fill);
    if from < 0 || from >= items.len() {
        here
    } else {
        here + seq![items[from]] + filled_from(items, axes, fill, from + 1)
    }
}

/// `items` with `fill` inserted at each of the positions `axes`, which are
/// positions of `items` itself (one past the end included). The order of
/// `axes` does not matter, and a position named twice is filled twice.
pub open spec fn filled<T>(items: Seq<T>, axes: Seq<usize>, fill: T) -> Seq<T> {
    filled_from(items, axes, fill, 0)
}

/// Every one of `axes` is a position of a list of `ndim` items, or the one past its end.
pub open spec fn axes_within(axes: Seq<usize>, ndim: int) -> bool {
    forall|i: int| 0 <= i < axes.len() ==> axes[i] <= ndim
}

/// Whether every one of `axes` is at most `ndim`.
pub fn check_axes_within(axes: &[usize], ndim: usize) -> (ok: bool)
    ensures
        ok == axes_within(axes@, ndim as int),
{
    let mut i: usize = 0;
    while i < axes.len()
        invariant
            i <= axes@.len(),
            forall|k: int| 0 <= k < i ==> axes@[k] <= ndim,
        decreases axes@.len() - i,
    {
        if axes[i] > ndim {
            return false;
        }
        i += 1;
    }
    true
}

/// The number of `axes` equal to `at`.
fn count_axes(axes: &[usize], at: usize) -> (count: usize)
    ensures
        count == count_of(axes@, at as int),
{
    let mut count: usize = 0;
    let mut i: usize = 0;
    while i < axes.len()
        invariant
            i <= axes@.len(),
            count <= i,
            count == count_of(axes@.take(i as int), at as int),
        decreases axes@.len() - i,
    {
        assert(axes@.take(i as int + 1).drop_last() =~= axes@.take(i as int));
        if axes[i] == at {
            count += 1;
        }
        i += 1;
    }
    assert(axes@.take(axes@.len() as int) =~= axes@);
    count
}

/// `items` with `fill` inserted at each of the positions `axes`.
pub fn insert_axes(items: &[usize], axes: &[usize], fill: usize) -> (out: Vec<usize>)
    requires
        axes_within(axes@, items@.len() as int),
    ensures
        out@ == filled(items@, axes@, fill),
{
    let n: usize = items.len();
    let mut tail: Vec<usize> = Vec::new();
    // built back to front, then turned round
    let mut from: usize = n;
    push_fill(&mut tail, count_axes(axes, n), fill);
    assert(tail@.reverse() =~= filled_from(items@, axes@, fill, n as int));
    while from > 0
        invariant
            from <= n,
            n == items@.len(),
            tail@.reverse() == filled_from(items@, axes@, fill, from as int),
        decreases from,
    {
        from -= 1;
        let ghost before = tail@;
        tail.push(items[from]);
        let ghost mid = tail@;
        push_fill(&mut tail, count_axes(axes, from), fill);
        proof {
            let here = Seq::new(count_of(axes@, from as int), |i: int| fill);
            assert(tail@ =~= before + seq![items@[from as int]] + here);
            assert(here.reverse() =~= here);
            assert(tail@.reverse() =~= here + seq![items@[from as int]] + before.reverse());
        }
    }
    let out = reversed(&tail);
    out
}

/// Appends `count` copies of `fill`.
fn push_fill(out: &mut Vec<usize>, count: usize, fill: usize)
    ensures
        final(out)@ == old(out)@ + Seq::new(count as nat, |i: int| fill),
{
    let mut i: usize = 0;
    while i < count
        invariant
            i <= count,
            out@ == old(out)@ + Seq::new(i as nat, |k: int| fill),
        decreases count - i,
    {
        out.push(fill);
        assert(out@ =~= old(out)@ + Seq::new((i + 1) as nat, |k: int| fill));
        i += 1;
    }
}

/// `items` back to front.
pub fn reversed(items: &[usize]) -> (out: Vec<usize>)
    ensures
        out@ == items@.reverse(),
{
    let n: usize = items.len();
    let mut out: Vec<usize> = Vec::new();
    let mut i: usize = n;
    while i > 0
        invariant
            i <= n,
            n == items@.len(),
            out@.len() == n - i,
            forall|k: int| 0 <= k < out@.len() ==> out@[k] == items@[n - 1 - k],
        decreases i,
    {
        i -= 1;
        out.push(items[i]);
    }
    assert(out@ =~= items@.reverse());
    out
}

/// With one position to fill, `items` from `from` on are the items up to that
/// position, the filling, and the items from the position on.
proof fn lemma_filled_one_from<T>(items: Seq<T>, at: usize, fill: T, from: int)
    requires
        0 <= from <= items.len(),
        at <= items.len(),
    ensures
        filled_from(items, seq![at], fill, from) == (if from <= at {
            items.subrange(from, at as int) + seq![fill] + items.skip(at as int)
        } else {
            items.skip(from)
        }),
    decreases items.len() - from,
{
    let axes = seq![at];
    assert(axes.drop_last() =~= Seq::<usize>::empty());
    assert(count_of(axes, from) == (if at == from {
        1nat
    } else {
        0nat
    })) by {
        reveal_with_fuel(count_of, 2);
    }
    let here = Seq::new(count_of(axes, from), |i: int| fill);
    if from < items.len() {
        lemma_filled_one_from(items, at, fill, from + 1);
        let rest = filled_from(items, axes, fill, from + 1);
        if from == at {
            assert(here =~= seq![fill]);
            assert(here + seq![items[from]] + rest =~= items.subrange(from, at as int) + seq![fill]
                + items.skip(at as int));
        } else if from < at {
            assert(here + seq![items[from]] + rest =~= items.subrange(from, at as int) + seq![fill]
                + items.skip(at as int));
        } else {
            assert(here + seq![items[from]] + rest =~= items.skip(from));
        }
    } else {
        if from == at {
            assert(here =~= items.subrange(from, at as int) + seq![fill] + items.skip(at as int));
        } else {
            assert(here =~= items.skip(from));
        }
    }
}

/// Filling one position inserts the filling there.
pub proof fn lemma_filled_one<T>(items: Seq<T>, at: usize, fill: T)
    requires
        at <= items.len(),
    ensures
        filled(items, seq![at], fill) == items.insert(at as int, fill),
{
    lemma_filled_one_from(items, at, fill, 0);
    assert(items.subrange(0, at as int) + seq![fill] + items.skip(at as int) =~= items.insert(
        at as int,
        fill,
    ));
}

/// The shape of `shape` with an axis of size 1 inserted at each of `axes`.
pub open spec fn expanded_shape(shape: Seq<usize>, axes: Seq<usize>) -> Seq<usize> {
    filled(shape, axes, 1usize)
}

/// The shape of an array of shape `shape` after axes of size 1 are inserted
/// at the positions `axes`; a bounds error where one of them is past the end.
pub fn expand_dims(shape: &[usize], axes: Vec<usize>) -> (expanded: Result<Shape, Error>)
    ensures
        expanded is Ok == axes_within(axes@, shape@.len() as int),
        expanded matches Ok(s) ==> s@ == expanded_shape(shape@, axes@),
        expanded matches Err(e) ==> e is Bounds && e.cause() == message_between("cannot expand axes and shape "@, axes@, shape@),
{
    if check_axes_within(axes.as_slice(), shape.len()) {
        Ok(insert_axes(shape, axes.as_slice(), 1))
    } else {
        Err(bounds_between("cannot expand axes and shape ", axes.as_slice(), shape))
    }
}

/// Suffix products of a shape put together from two.
pub proof fn lemma_suffix_product_concat(a: Seq<usize>, b: Seq<usize>, from: int)
    requires
        0 <= from <= a.len(),
    ensures
        suffix_product(a + b, from) == suffix_product(a, from) * size_of(b),
    decreases a.len() - from,
{
    if from == a.len() {
        lemma_suffix_product_shift(a, b, 0);
        assert(suffix_product(a, from) == 1);
        assert(1 * size_of(b) == size_of(b)) by (nonlinear_arith);
    } else {
        lemma_suffix_product_concat(a, b, from + 1);
        let dim = a[from] as int;
        let rest = suffix_product(a, from + 1) as int;
        let tail = size_of(b) as int;
        assert((a + b)[from] == a[from]);
        assert(dim * (rest * tail) == (dim * rest) * tail) by (nonlinear_arith);
    }
}

/// Past the first of two shapes put together, the suffix products are those of the second.
pub proof fn lemma_suffix_product_shift(a: Seq<usize>, b: Seq<usize>, from: int)
    requires
        0 <= from <= b.len(),
    ensures
        suffix_product(a + b, a.len() + from) == suffix_product(b, from),
    decreases b.len() - from,
{
    if from < b.len() {
        lemma_suffix_product_shift(a, b, from + 1);
        assert((a + b)[a.len() + from] == b[from]);
    }
}

/// The size of a shape put together from two is the product of their sizes.
pub proof fn lemma_size_concat(a: Seq<usize>, b: Seq<usize>)
    ensures
        size_of(a + b) == size_of(a) * size_of(b),
{
    lemma_suffix_product_concat(a, b, 0);
}

/// Axes of size 1 do not change the size.
pub proof fn lemma_size_of_ones(count: nat)
    ensures
        size_of(Seq::new(count, |i: int| 1usize)) == 1,
    decreases count,
{
    let ones = Seq::new(count, |i: int| 1usize);
    if count > 0 {
        let fewer = Seq::new((count - 1) as nat, |i: int| 1usize);
        lemma_size_of_ones((count - 1) as nat);
        assert(ones =~= seq![1usize] + fewer);
        lemma_size_concat(seq![1usize], fewer);
        assert(size_of(seq![1usize]) == 1) by {
            reveal_with_fuel(suffix_product, 3);
        }
    }
}

pub proof fn lemma_expanded_from_size(shape: Seq<usize>, axes: Seq<usize>, from: int)
    requires
        positive_dims(shape),
        0 <= from <= shape.len(),
    ensures
        positive_dims(filled_from(shape, axes, 1usize, from)),
        size_of(filled_from(shape, axes, 1usize, from)) == suffix_product(shape, from),
        filled_from(shape, axes, 1usize, from).len() >= shape.len() - from,
    decreases shape.len() - from,
{
    let here = Seq::new(count_of(axes, from), |i: int| 1usize);
    lemma_size_of_ones(count_of(axes, from));
    if from < shape.len() {
        lemma_expanded_from_size(shape, axes, from + 1);
        let rest = filled_from(shape, axes, 1usize, from + 1);
        let one = seq![shape[from]];
        assert(size_of(one) == shape[from]) by {
            reveal_with_fuel(suffix_product, 3);
            assert(one[0] == shape[from]);
            assert((shape[from] as nat) * 1 == shape[from]) by (nonlinear_arith);
        }
        lemma_size_concat(here, one);
        lemma_size_concat(here + one, rest);
        assert(1 * (shape[from] as nat) * size_of(rest) == (shape[from] as nat) * size_of(rest))
            by (nonlinear_arith);
    } else {
    }
}

/// Inserting axes of size 1 into a valid shape gives a valid shape of the same size.
pub proof fn lemma_expanded_shape(shape: Seq<usize>, axes: Seq<usize>)
    requires
        valid_shape(shape),
    ensures
        valid_shape(expanded_shape(shape, axes)),
        size_of(expanded_shape(shape, axes)) == size_of(shape),
{
    lemma_expanded_from_size(shape, axes, 0);
}

/// The size of a shape with one dimension is that dimension.
pub proof fn lemma_size_of_one(dim: usize)
    ensures
        size_of(seq![dim]) == dim,
{
    reveal_with_fuel(suffix_product, 3);
    assert(seq![dim][0] == dim);
    assert((dim as nat) * 1 == dim) by (nonlinear_arith);
}

/// The size of a shape is the product of the size of the axes before an axis,
/// of the dimension of that axis and of the size of the axes after it; without
/// the axis it is the product of the first and the last of these.
pub proof fn lemma_size_around_axis(shape: Seq<usize>, axis: int)
    requires
        0 <= axis < shape.len(),
    ensures
        size_of(shape) == size_of(shape.take(axis)) * (shape[axis] as nat) * suffix_product(
            shape,
            axis + 1,
        ),
        size_of(shape.remove(axis)) == size_of(shape.take(axis)) * suffix_product(shape, axis + 1),
{
    let before = shape.take(axis);
    let here = seq![shape[axis]];
    let after = shape.skip(axis + 1);
    assert(shape =~= before + here + after);
    assert(shape.remove(axis) =~= before + after);
    assert(shape =~= shape.take(axis + 1) + after);
    lemma_suffix_product_shift(shape.take(axis + 1), after, 0);
    lemma_size_of_one(shape[axis]);
    lemma_size_concat(before, here);
    lemma_size_concat(before + here, after);
    lemma_size_concat(before, after);
}

/// The shape left when an axis of a valid shape is reduced away is valid.
pub proof fn lemma_reduced_shape(shape: Seq<usize>, axis: int)
    requires
        valid_shape(shape),
        0 <= axis < shape.len(),
    ensures
        valid_shape(reduced_shape(shape, axis)),
        size_of(reduced_shape(shape, axis)) * shape[axis] == size_of(shape),
        size_of(reduced_shape(shape, axis)) == size_of(shape.take(axis)) * suffix_product(
            shape,
            axis + 1,
        ),
{
    lemma_size_around_axis(shape, axis);
    let outer = size_of(shape.take(axis)) as int;
    let dim = shape[axis] as int;
    let inner = suffix_product(shape, axis + 1) as int;
    lemma_suffix_product_positive(shape, axis + 1);
    assert(positive_dims(shape.take(axis)));
    lemma_suffix_product_positive(shape.take(axis), 0);
    assert(outer * inner <= outer * dim * inner && (outer * inner) * dim == outer * dim * inner)
        by (nonlinear_arith)
        requires
            outer >= 1,
            dim >= 1,
            inner >= 1,
    ;
    if shape.len() == 1 {
        lemma_size_of_one(1usize);
        assert(shape.take(0) =~= Seq::<usize>::empty());
        assert(inner == 1);
        assert(outer == 1);
    } else {
        let reduced = shape.remove(axis);
        assert forall|i: int| 0 <= i < reduced.len() implies reduced[i] >= 1 by {
            if i < axis {
                assert(reduced[i] == shape[i]);
            } else {
                assert(reduced[i] == shape[i + 1]);
            }
        }
    }
}

/// One of `axes` is the axis `x`.
pub open spec fn names_axis(axes: Seq<usize>, x: int) -> bool {
    exists|i: int| 0 <= i < axes.len() && axes[i] == x
}

/// `axes` names each of the axes `0..ndim` exactly once.
pub open spec fn is_permutation(axes: Seq<usize>, ndim: int) -> bool {
    &&& axes.len() == ndim
    &&& forall|i: int| 0 <= i < ndim ==> axes[i] < ndim
    &&& forall|i: int, j: int| 0 <= i < j < ndim ==> axes[i] != axes[j]
    &&& forall|x: int| 0 <= x < ndim ==> #[trigger] names_axis(axes, x)
}

/// The axes `ndim - 1` down to `0`: the order that a transpose without arguments uses.
pub open spec fn reversed_axes(ndim: int) -> Seq<usize> {
    Seq::new(ndim as nat, |i: int| (ndim - 1 - i) as usize)
}

pub proof fn lemma_reversed_axes_permutation(ndim: int)
    requires
        0 <= ndim <= usize::MAX,
    ensures
        is_permutation(reversed_axes(ndim), ndim),
{
    let axes = reversed_axes(ndim);
    assert forall|x: int| 0 <= x < ndim implies #[trigger] names_axis(axes, x) by {
        assert(axes[ndim - 1 - x] == x);
    }
}

/// Whether `axes` names each of the axes `0..ndim` exactly once.
pub fn check_permutation(axes: &[usize], ndim: usize) -> (ok: bool)
    ensures
        ok == is_permutation(axes@, ndim as int),
{
    if axes.len() != ndim {
        return false;
    }
    let mut seen: Vec<bool> = Vec::new();
    let mut k: usize = 0;
    while k < ndim
        invariant
            k <= ndim,
            seen@.len() == k,
            forall|x: int| 0 <= x < k ==> !seen@[x],
        decreases ndim - k,
    {
        seen.push(false);
        k += 1;
    }
    let mut i: usize = 0;
    while i < ndim
        invariant
            i <= ndim,
            axes@.len() == ndim,
            seen@.len() == ndim,
            forall|k: int| 0 <= k < i ==> axes@[k] < ndim,
            forall|a: int, b: int| 0 <= a < b < i ==> axes@[a] != axes@[b],
            forall|x: int|
                0 <= x < ndim ==> (#[trigger] seen@[x] <==> names_axis(axes@.take(i as int), x)),
        decreases ndim - i,
    {
        let x: usize = axes[i];
        if x >= ndim {
            return false;
        }
        if seen[x] {
            let ghost k = choose|k: int|
                0 <= k < axes@.take(i as int).len() && axes@.take(i as int)[k] == x;
            assert(axes@[k] == axes@[i as int]);
            return false;
        }
        assert forall|a: int| 0 <= a < i implies axes@[a] != x by {
            if axes@[a] == x {
                assert(axes@.take(i as int)[a] == x);
            }
        }
        let ghost old_seen = seen@;
        seen.set(x, true);
        assert forall|y: int| 0 <= y < ndim implies (#[trigger] seen@[y] <==> names_axis(
            axes@.take(i as int + 1),
            y,
        )) by {
            let before = axes@.take(i as int);
            let after = axes@.take(i as int + 1);
            if y == x {
                assert(after[i as int] == y);
            } else {
                if old_seen[y] {
                    let k = choose|k: int| 0 <= k < before.len() && before[k] == y;
                    assert(after[k] == y);
                }
                if names_axis(after, y) {
                    let k = choose|k: int| 0 <= k < after.len() && after[k] == y;
                    assert(before[k] == y);
                }
            }
        }
        i += 1;
    }
    assert(axes@.take(ndim as int) =~= axes@);
    let mut x: usize = 0;
    while x < ndim
        invariant
            x <= ndim,
            seen@.len() == ndim,
            axes@.len() == ndim,
            forall|y: int| 0 <= y < ndim ==> (#[trigger] seen@[y] <==> names_axis(axes@, y)),
            forall|y: int| 0 <= y < x ==> #[trigger] names_axis(axes@, y),
        decreases ndim - x,
    {
        if !seen[x] {
            assert(!names_axis(axes@, x as int));
            return false;
        }
        x += 1;
    }
    true
}

/// The order of axes that a transpose follows: the order given, which must be a
/// permutation of `0..ndim`, or the reverse order where none is given.
pub open spec fn resolved_axes(axes: Option<Vec<usize>>, ndim: int) -> Seq<usize> {
    match axes {
        Some(axes) => axes@,
        None => reversed_axes(ndim),
    }
}

/// The permutation of the `ndim` axes that `axes` stands for, or a bounds error
/// where the given order is no permutation.
pub fn permutation(ndim: usize, axes: Option<Vec<usize>>) -> (order: Result<Vec<usize>, Error>)
    ensures
        order is Ok == (axes is None || is_permutation(axes->Some_0@, ndim as int)),
        order matches Ok(p) ==> p@ == resolved_axes(axes, ndim as int) && is_permutation(
            p@,
            ndim as int,
        ),
        order matches Err(e) ==> e is Bounds && e.cause() == message_about("invalid permutation: "@, axes->Some_0@),
{
    match axes {
        Some(axes) => {
            if check_permutation(axes.as_slice(), ndim) {
                Ok(axes)
            } else {
                Err(bounds_about("invalid permutation: ", axes.as_slice()))
            }
        },
        None => {
            let mut order: Vec<usize> = Vec::new();
            let mut i: usize = ndim;
            while i > 0
                invariant
                    i <= ndim,
                    order@.len() == ndim - i,
                    forall|k: int| 0 <= k < order@.len() ==> order@[k] == ndim - 1 - k,
                decreases i,
            {
                i -= 1;
                order.push(i);
            }
            proof {
                assert(order@ =~= reversed_axes(ndim as int));
                lemma_reversed_axes_permutation(ndim as int);
            }
            Ok(order)
        },
    }
}

/// `items` rearranged so that position `i` holds the item that `axes[i]` names.
pub open spec fn permuted<T>(items: Seq<T>, axes: Seq<usize>) -> Seq<T> {
    Seq::new(axes.len(), |i: int| items[axes[i] as int])
}

/// `items` rearranged so that position `i` holds the item that `axes[i]` names.
pub fn permute(items: &[usize], axes: &[usize]) -> (out: Vec<usize>)
    requires
        forall|i: int| 0 <= i < axes@.len() ==> axes@[i] < items@.len(),
    ensures
        out@ == permuted(items@, axes@),
{
    let mut out: Vec<usize> = Vec::new();
    let mut i: usize = 0;
    while i < axes.len()
        invariant
            i <= axes@.len(),
            out@.len() == i,
            forall|k: int| 0 <= k < axes@.len() ==> axes@[k] < items@.len(),
            forall|k: int| 0 <= k < i ==> out@[k] == items@[axes@[k] as int],
        decreases axes@.len() - i,
    {
        out.push(items[axes[i]]);
        i += 1;
    }
    assert(out@ =~= permuted(items@, axes@));
    out
}

/// Whether `i` is within `dim`: strictly below it for an index, at most `dim` for the end of a range.
pub fn check_bound(i: usize, dim: usize, is_index: bool) -> (checked: Result<(), Error>)
    ensures
        checked is Ok == (i < dim || (i == dim && !is_index)),
        checked matches Err(e) ==> e is Bounds && e.cause() == message_index("index is out of bounds: "@, i, dim),
{
    if i < dim || (i == dim && !is_index) {
        Ok(())
    } else {
        Err(bounds_index("index is out of bounds: ", i, dim))
    }
}

/// `num / denom`, rounded up.
pub fn div_ceil(num: usize, denom: usize) -> (quotient: usize)
    requires
        denom > 0,
    ensures
        quotient == (if num % denom == 0 {
            num as int / denom as int
        } else {
            num as int / denom as int + 1
        }),
{
    if num % denom == 0 {
        num / denom
    } else {
        proof {
            vstd::arithmetic::div_mod::lemma_fundamental_div_mod(num as int, denom as int);
            assert((num as int / denom as int) < num) by (nonlinear_arith)
                requires
                    num as int == denom as int * (num as int / denom as int) + num as int % denom as int,
                    num as int % denom as int > 0,
                    denom > 0,
                    num as int / denom as int >= 0,
            ;
        }
        (num / denom) + 1
    }
}

} // verus!
