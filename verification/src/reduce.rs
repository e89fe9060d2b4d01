//! Reductions: the sum, product, greatest and least of the elements of a
//! buffer, and whether all or any of them are not zero. Sums and products
//! wrap around at the bounds of the element type.

use std::marker::PhantomData;
use vstd::prelude::*;
use crate::array::{ArrayOp, NDArray, NDArrayRead};
use crate::buffer::{Buffer, BufferConverter};
use crate::dtype::{
    lemma_wrapped_add, lemma_wrapped_mul, lemma_wrapped_range, lemma_wrapped_within, wrapped,
    CDatatype,
};
use crate::error::{message_about, zero_division_message, Error};
use crate::layout::{lemma_total_concat, product, total};
use crate::ops::{lemma_scalar, scalar, Op};
use crate::parallel::par_collect;
use crate::platform::{Context, Queue, Settings};
use crate::shape::{
    lemma_reduced_shape, lemma_size_around_axis, lemma_suffix_product_monotone,
    lemma_suffix_product_positive, positive_dims, reduce_axis, reduced_shape, size_of,
    suffix_product, valid_shape,
};

verus! {

/// The number of elements that one worker folds at a time.
pub const BLOCK: usize = 4096;

/// The integers that the scalars of a list stand for.
pub open spec fn values<T: CDatatype>(items: Seq<T>) -> Seq<int> {
    Seq::new(items.len(), |i: int| items[i].value())
}

/// The greatest of a list of integers and of `floor`.
pub open spec fn greatest(values: Seq<int>, floor: int) -> int
    decreases values.len(),
{
    if values.len() == 0 {
        floor
    } else if values.last() > greatest(values.drop_last(), floor) {
        values.last()
    } else {
        greatest(values.drop_last(), floor)
    }
}

/// The least of a list of integers and of `ceiling`.
pub open spec fn least(values: Seq<int>, ceiling: int) -> int
    decreases values.len(),
{
    if values.len() == 0 {
        ceiling
    } else if values.last() < least(values.drop_last(), ceiling) {
        values.last()
    } else {
        least(values.drop_last(), ceiling)
    }
}

/// The reductions of a list of scalars to one.
#[derive(Clone, Copy, Debug, PartialEq, Eq, Structural)]
pub enum ReduceOp {
    Sum,
    Product,
    Max,
    Min,
}

impl ReduceOp {
    /// What the reduction gives for a list of integers between `lo` and
    /// `hi`, before it is brought into that range: the sum, the product, the
    /// greatest (`lo` for an empty list) or the least (`hi` for an empty list).
    pub open spec fn of(self, values: Seq<int>, lo: int, hi: int) -> int {
        match self {
            ReduceOp::Sum => total(values),
            ReduceOp::Product => product(values),
            ReduceOp::Max => greatest(values, lo),
            ReduceOp::Min => least(values, hi),
        }
    }

    /// What the reduction makes of two integers.
    pub open spec fn join(self, a: int, b: int) -> int {
        match self {
            ReduceOp::Sum => a + b,
            ReduceOp::Product => a * b,
            ReduceOp::Max => if b > a {
                b
            } else {
                a
            },
            ReduceOp::Min => if b < a {
                b
            } else {
                a
            },
        }
    }

    /// The reduction joins what it takes to be in range.
    pub open spec fn ranged(self) -> bool {
        self == ReduceOp::Max || self == ReduceOp::Min
    }

    /// The scalar that the reduction gives for a list of scalars.
    pub open spec fn value<T: CDatatype>(self, items: Seq<T>) -> T {
        scalar::<T>(
            wrapped(self.of(values(items), T::lowest(), T::highest()), T::lowest(), T::highest()),
        )
    }

    /// The name of the reduction in kernel source text.
    pub open spec fn label(self) -> Seq<char> {
        match self {
            ReduceOp::Sum => "add"@,
            ReduceOp::Product => "mul"@,
            ReduceOp::Max => "max"@,
            ReduceOp::Min => "min"@,
        }
    }

    /// The name of the reduction in kernel source text.
    pub fn name(self) -> (name: &'static str)
        ensures
            name@ == self.label(),
    {
        match self {
            ReduceOp::Sum => "add",
            ReduceOp::Product => "mul",
            ReduceOp::Max => "max",
            ReduceOp::Min => "min",
        }
    }

    /// What the reduction gives for no scalar at all.
    pub fn identity<T: CDatatype>(self) -> (r: T)
        ensures
            r.value() == self.of(Seq::empty(), T::lowest(), T::highest()),
    {
        match self {
            ReduceOp::Sum => T::zero(),
            ReduceOp::Product => T::one(),
            ReduceOp::Max => T::min(),
            ReduceOp::Min => T::max(),
        }
    }

    /// What the reduction makes of two scalars.
    pub fn combine<T: CDatatype>(self, acc: T, x: T) -> (r: T)
        ensures
            r.value() == wrapped(self.join(acc.value(), x.value()), T::lowest(), T::highest()),
    {
        proof {
            acc.lemma_range();
            x.lemma_range();
            lemma_wrapped_within(acc.value(), T::lowest(), T::highest());
            lemma_wrapped_within(x.value(), T::lowest(), T::highest());
        }
        match self {
            ReduceOp::Sum => acc.add(x),
            ReduceOp::Product => acc.mul(x),
            ReduceOp::Max => if acc.less(x) {
                x
            } else {
                acc
            },
            ReduceOp::Min => if x.less(acc) {
                x
            } else {
                acc
            },
        }
    }
}

/// The reduction of a list with one more integer joins that integer to the reduction of the list.
pub proof fn lemma_of_push(op: ReduceOp, values: Seq<int>, x: int, lo: int, hi: int)
    ensures
        op.of(values.push(x), lo, hi) == op.join(op.of(values, lo, hi), x),
{
    assert(values.push(x).drop_last() =~= values);
}

/// Between the bounds, the greatest and the least of a list stay between the bounds.
pub proof fn lemma_of_ranged(op: ReduceOp, values: Seq<int>, lo: int, hi: int)
    requires
        lo <= hi,
        op.ranged(),
        forall|i: int| 0 <= i < values.len() ==> lo <= #[trigger] values[i] <= hi,
    ensures
        lo <= op.of(values, lo, hi) <= hi,
    decreases values.len(),
{
    if values.len() > 0 {
        lemma_of_ranged(op, values.drop_last(), lo, hi);
    }
}

/// The product of a list put together from two is the product of their products.
pub proof fn lemma_product_concat(a: Seq<int>, b: Seq<int>)
    ensures
        product(a + b) == product(a) * product(b),
    decreases b.len(),
{
    if b.len() == 0 {
        assert(a + b =~= a);
        assert(product(a) * 1 == product(a)) by (nonlinear_arith);
    } else {
        assert((a + b).drop_last() =~= a + b.drop_last());
        lemma_product_concat(a, b.drop_last());
        let x = product(a);
        let y = product(b.drop_last());
        let z = b.last();
        assert((x * y) * z == x * (y * z)) by (nonlinear_arith);
    }
}

/// The reduction of a list put together from two joins their reductions.
pub proof fn lemma_of_concat(op: ReduceOp, a: Seq<int>, b: Seq<int>, lo: int, hi: int)
    ensures
        op.of(a + b, lo, hi) == op.join(op.of(a, lo, hi), op.of(b, lo, hi)) || (op.ranged()
            && b.len() == 0),
        op.ranged() && b.len() == 0 ==> op.of(a + b, lo, hi) == op.of(a, lo, hi),
    decreases b.len(),
{
    match op {
        ReduceOp::Sum => {
            lemma_total_concat(a, b);
        },
        ReduceOp::Product => {
            lemma_product_concat(a, b);
        },
        _ => {
            if b.len() == 0 {
                assert(a + b =~= a);
            } else {
                assert((a + b).drop_last() =~= a + b.drop_last());
                lemma_of_concat(op, a, b.drop_last(), lo, hi);
                if b.len() == 1 {
                    assert(b.drop_last() =~= Seq::<int>::empty());
                    assert(a + b.drop_last() =~= a);
                }
                lemma_floor(op, b.drop_last(), lo, hi);
                lemma_floor(op, a, lo, hi);
            }
        },
    }
}

/// The greatest of a list is at least the floor, the least at most the ceiling.
pub proof fn lemma_floor(op: ReduceOp, values: Seq<int>, lo: int, hi: int)
    ensures
        op == ReduceOp::Max ==> op.of(values, lo, hi) >= lo,
        op == ReduceOp::Min ==> op.of(values, lo, hi) <= hi,
    decreases values.len(),
{
    if values.len() > 0 {
        lemma_floor(op, values.drop_last(), lo, hi);
    }
}

/// Wrapping what is joined beforehand does not change what the joined wraps to.
pub proof fn lemma_join_wrapped(op: ReduceOp, x: int, y: int, lo: int, hi: int)
    requires
        lo <= hi,
        op.ranged() ==> lo <= x <= hi && lo <= y <= hi,
    ensures
        wrapped(op.join(wrapped(x, lo, hi), y), lo, hi) == wrapped(op.join(x, y), lo, hi),
        wrapped(op.join(x, wrapped(y, lo, hi)), lo, hi) == wrapped(op.join(x, y), lo, hi),
{
    match op {
        ReduceOp::Sum => {
            lemma_wrapped_add(x, y, lo, hi);
        },
        ReduceOp::Product => {
            lemma_wrapped_mul(x, y, lo, hi);
        },
        _ => {
            lemma_wrapped_within(x, lo, hi);
            lemma_wrapped_within(y, lo, hi);
        },
    }
}

/// The values of scalars lie within the bounds of their type.
pub proof fn lemma_values_ranged<T: CDatatype>(items: Seq<T>)
    ensures
        T::lowest() <= T::highest(),
        forall|i: int|
            0 <= i < items.len() ==> T::lowest() <= #[trigger] values(items)[i] <= T::highest(),
{
    assert forall|i: int| 0 <= i < items.len() implies T::lowest() <= #[trigger] values(items)[i]
        <= T::highest() by {
        items[i].lemma_range();
    }
    if items.len() == 0 {
        let x = scalar::<T>(0);
        x.lemma_range();
    } else {
        items[0].lemma_range();
    }
}

/// The elements of `source` at `start`, `start + stride`, and so on, `count` of them.
pub open spec fn lane<T>(source: Seq<T>, start: int, stride: int, count: int) -> Seq<T> {
    Seq::new(count as nat, |k: int| source[start + k * stride])
}

/// The reduction of the `count` elements of `source` that lie `stride` apart from `start` on.
pub fn fold_lane<T: CDatatype>(
    op: ReduceOp,
    source: &[T],
    start: usize,
    stride: usize,
    count: usize,
) -> (r: T)
    requires
        count > 0 ==> start + (count - 1) * stride < source@.len(),
    ensures
        r == op.value(lane(source@, start as int, stride as int, count as int)),
{
    let ghost items = lane(source@, start as int, stride as int, count as int);
    let ghost lo = T::lowest();
    let ghost hi = T::highest();
    let mut acc: T = op.identity();
    let mut at: usize = start;
    let mut k: usize = 0;
    proof {
        lemma_values_ranged(items);
        assert(values(items.take(0)) =~= Seq::<int>::empty());
        if op.ranged() {
            lemma_of_ranged(op, Seq::<int>::empty(), lo, hi);
        }
        acc.lemma_range();
        lemma_wrapped_within(acc.value(), lo, hi);
    }
    while k < count
        invariant
            k <= count,
            lo == T::lowest(),
            hi == T::highest(),
            lo <= hi,
            items == lane(source@, start as int, stride as int, count as int),
            count > 0 ==> start + (count - 1) * stride < source@.len(),
            k < count ==> at == start + k * stride,
            acc.value() == wrapped(op.of(values(items.take(k as int)), lo, hi), lo, hi),
        decreases count - k,
    {
        let ghost before = values(items.take(k as int));
        proof {
            assert(start + k * stride <= start + (count - 1) * stride) by (nonlinear_arith)
                requires
                    k <= count - 1,
                    stride >= 0,
            ;
            assert(items[k as int] == source@[start + k * stride]);
            assert(values(items.take(k as int + 1)) =~= before.push(items[k as int].value()));
            lemma_of_push(op, before, items[k as int].value(), lo, hi);
            lemma_values_ranged(items.take(k as int));
            items[k as int].lemma_range();
            if op.ranged() {
                lemma_of_ranged(op, before, lo, hi);
            }
            lemma_join_wrapped(op, op.of(before, lo, hi), items[k as int].value(), lo, hi);
        }
        acc = op.combine(acc, source[at]);
        k += 1;
        if k < count {
            proof {
                assert(start + k * stride <= start + (count - 1) * stride) by (nonlinear_arith)
                    requires
                        k <= count - 1,
                        stride >= 0,
                ;
                assert(start + k * stride == start + (k - 1) * stride + stride)
                    by (nonlinear_arith);
            }
            at = at + stride;
        }
    }
    proof {
        assert(items.take(count as int) =~= items);
        lemma_scalar(acc, acc.value());
    }
    acc
}

/// The part of `items` that the block at `index` holds.
pub open spec fn block<T>(items: Seq<T>, index: int) -> Seq<T> {
    items.subrange(block_start(items.len(), index), block_start(items.len(), index + 1))
}

/// Where the block at `index` starts in a list of `len` items: at `index`
/// times the block size, or at the end of the list if that is earlier.
pub open spec fn block_start(len: nat, index: int) -> int {
    if index * BLOCK <= len {
        index * BLOCK
    } else {
        len as int
    }
}

/// The reduction of the reductions of the first blocks of a list is the
/// reduction of what those blocks hold.
proof fn lemma_blocks<T: CDatatype>(op: ReduceOp, items: Seq<T>, partial: Seq<T>, upto: int)
    requires
        0 <= upto <= partial.len(),
        forall|b: int| 0 <= b < partial.len() ==> #[trigger] partial[b] == op.value(block(items, b)),
    ensures
        wrapped(op.of(values(partial.take(upto)), T::lowest(), T::highest()), T::lowest(), T::highest())
            == wrapped(
            op.of(
                values(items.take(block_start(items.len(), upto))),
                T::lowest(),
                T::highest(),
            ),
            T::lowest(),
            T::highest(),
        ),
    decreases upto,
{
    let lo = T::lowest();
    let hi = T::highest();
    lemma_values_ranged(items);
    if upto == 0 {
        assert(partial.take(0) =~= Seq::<T>::empty());
        assert(items.take(0) =~= Seq::<T>::empty());
        assert(values(Seq::<T>::empty()) =~= Seq::<int>::empty());
    } else {
        let b = upto - 1;
        lemma_blocks(op, items, partial, b);
        let done = items.take(block_start(items.len(), b));
        let here = block(items, b);
        let more = items.take(block_start(items.len(), upto));
        assert(block_start(items.len(), b) <= block_start(items.len(), upto)) by {
            assert(b * BLOCK <= upto * BLOCK) by (nonlinear_arith)
                requires
                    b <= upto,
            ;
        }
        assert(more =~= done + here);
        assert(values(more) =~= values(done) + values(here));
        lemma_of_concat(op, values(done), values(here), lo, hi);
        let before = values(partial.take(b));
        let p = op.of(before, lo, hi);
        let d = op.of(values(done), lo, hi);
        let h = op.of(values(here), lo, hi);
        assert(values(partial.take(upto)) =~= before.push(partial[b].value()));
        lemma_of_push(op, before, partial[b].value(), lo, hi);
        // partial[b] stands for what the block reduces to
        let x = partial[b];
        assert(x == op.value(here));
        lemma_values_ranged(here);
        lemma_values_ranged(done);
        lemma_values_ranged(partial.take(b));
        if op.ranged() {
            lemma_of_ranged(op, values(here), lo, hi);
            lemma_of_ranged(op, values(done), lo, hi);
            lemma_of_ranged(op, before, lo, hi);
            lemma_wrapped_within(h, lo, hi);
            lemma_wrapped_within(p, lo, hi);
            lemma_wrapped_within(d, lo, hi);
        }
        lemma_wrapped_range(h, lo, hi);
        lemma_scalar_value::<T>(wrapped(h, lo, hi));
        assert(x.value() == wrapped(h, lo, hi));
        // wrapped(join(p, wrapped(h))) == wrapped(join(p, h)) == wrapped(join(d, h))
        lemma_join_wrapped(op, p, h, lo, hi);
        lemma_join_wrapped(op, d, h, lo, hi);
        lemma_wrapped_range(p, lo, hi);
        lemma_wrapped_range(d, lo, hi);
        if op.ranged() {
            if here.len() == 0 {
                assert(values(here) =~= Seq::<int>::empty());
            }
        } else {
            let wp = wrapped(p, lo, hi);
            assert(wrapped(op.join(wp, h), lo, hi) == wrapped(op.join(p, h), lo, hi));
            assert(wrapped(op.join(wp, h), lo, hi) == wrapped(op.join(d, h), lo, hi));
        }
    }
}

/// The scalar that stands for an integer within the bounds of the type has that integer as its value.
pub proof fn lemma_scalar_value<T: CDatatype>(v: int)
    requires
        T::lowest() <= v <= T::highest(),
    ensures
        scalar::<T>(v).value() == v,
{
    T::lemma_onto(v);
}


/// The number of blocks that `len` items fill.
pub fn block_count(len: usize) -> (count: usize)
    ensures
        block_start(len as nat, count as int) == len,
        count > 0 ==> (count - 1) * BLOCK < len,
        count * BLOCK < len + BLOCK,
{
    let whole: usize = len / BLOCK;
    if len % BLOCK == 0 {
        whole
    } else {
        whole + 1
    }
}

/// The reduction of all of `data`: the blocks are reduced on the worker pool,
/// and what they give is reduced in turn.
pub fn reduce_all<T: CDatatype>(op: ReduceOp, data: &[T]) -> (r: T)
    ensures
        r == op.value(data@),
{
    let len: usize = data.len();
    let count: usize = block_count(len);
    let partial = par_collect(
        count,
        |b: usize| -> (r: T)
            requires
                b < count,
                len == data@.len(),
                count > 0 ==> (count - 1) * BLOCK < len,
            ensures
                r == op.value(block(data@, b as int)),
            {
                let start: usize = b * BLOCK;
                let end: usize = if len - start < BLOCK {
                    len
                } else {
                    start + BLOCK
                };
                proof {
                    assert(block(data@, b as int) =~= lane(
                        data@,
                        start as int,
                        1,
                        (end - start) as int,
                    ));
                }
                fold_lane(op, data, start, 1, end - start)
            }
    );
    let r = fold_lane(op, partial.as_slice(), 0, 1, count);
    proof {
        assert(lane(partial@, 0, 1, count as int) =~= partial@);
        lemma_blocks(op, data@, partial@, count as int);
        assert(partial@.take(count as int) =~= partial@);
        assert(data@.take(len as int) =~= data@);
    }
    r
}

/// Every element of `items` is not zero.
pub open spec fn all_nonzero<T: CDatatype>(items: Seq<T>) -> bool {
    forall|i: int| 0 <= i < items.len() ==> (#[trigger] items[i]).value() != 0
}

/// Some element of `items` is not zero.
pub open spec fn any_nonzero<T: CDatatype>(items: Seq<T>) -> bool {
    exists|i: int| 0 <= i < items.len() && (#[trigger] items[i]).value() != 0
}

/// Whether every element from `from` up to `to` is not zero.
fn all_in<T: CDatatype>(data: &[T], from: usize, to: usize) -> (all: bool)
    requires
        from <= to <= data@.len(),
    ensures
        all == all_nonzero(data@.subrange(from as int, to as int)),
{
    let zero = T::zero();
    let mut i: usize = from;
    while i < to
        invariant
            from <= i <= to <= data@.len(),
            zero.value() == 0,
            forall|k: int| from <= k < i ==> (#[trigger] data@[k]).value() != 0,
        decreases to - i,
    {
        if data[i].same(zero) {
            assert(data@.subrange(from as int, to as int)[i - from] == data@[i as int]);
            return false;
        }
        i += 1;
    }
    assert forall|k: int| 0 <= k < to - from implies (#[trigger] data@.subrange(
        from as int,
        to as int,
    )[k]).value() != 0 by {
        assert(data@[from + k].value() != 0);
    }
    true
}

/// Whether some element from `from` up to `to` is not zero.
fn any_in<T: CDatatype>(data: &[T], from: usize, to: usize) -> (any: bool)
    requires
        from <= to <= data@.len(),
    ensures
        any == any_nonzero(data@.subrange(from as int, to as int)),
{
    let zero = T::zero();
    let mut i: usize = from;
    while i < to
        invariant
            from <= i <= to <= data@.len(),
            zero.value() == 0,
            forall|k: int| from <= k < i ==> (#[trigger] data@[k]).value() == 0,
        decreases to - i,
    {
        if !data[i].same(zero) {
            assert(data@.subrange(from as int, to as int)[i - from] == data@[i as int]);
            return true;
        }
        i += 1;
    }
    assert forall|k: int| 0 <= k < to - from implies (#[trigger] data@.subrange(
        from as int,
        to as int,
    )[k]).value() == 0 by {
        assert(data@[from + k].value() == 0);
    }
    false
}

/// Whether every element of `data` is not zero: the blocks are tested on the worker pool.
pub fn reduce_to_all<T: CDatatype>(data: &[T]) -> (all: bool)
    ensures
        all == all_nonzero(data@),
{
    let len: usize = data.len();
    let count: usize = block_count(len);
    let partial = par_collect(
        count,
        |b: usize| -> (r: bool)
            requires
                b < count,
                len == data@.len(),
                count > 0 ==> (count - 1) * BLOCK < len,
            ensures
                r == all_nonzero(block(data@, b as int)),
            {
                let start: usize = b * BLOCK;
                let end: usize = if len - start < BLOCK {
                    len
                } else {
                    start + BLOCK
                };
                all_in(data, start, end)
            }
    );
    let mut b: usize = 0;
    while b < count
        invariant
            b <= count,
            count == partial@.len(),
            block_start(len as nat, count as int) == len,
            len == data@.len(),
            forall|i: int|
                0 <= i < count ==> #[trigger] partial@[i] == all_nonzero(block(data@, i)),
            forall|k: int|
                0 <= k < block_start(len as nat, b as int) ==> (#[trigger] data@[k]).value() != 0,
        decreases count - b,
    {
        let ghost from = block_start(len as nat, b as int);
        let ghost to = block_start(len as nat, b as int + 1);
        proof {
            assert(b * BLOCK <= (b + 1) * BLOCK) by (nonlinear_arith);
        }
        if !partial[b] {
            proof {
                let here = block(data@, b as int);
                let k = choose|k: int| 0 <= k < here.len() && !((#[trigger] here[k]).value() != 0);
                assert(data@[from + k] == here[k]);
            }
            return false;
        }
        proof {
            let here = block(data@, b as int);
            assert forall|k: int| 0 <= k < to implies (#[trigger] data@[k]).value() != 0 by {
                if k >= from {
                    assert(here[k - from] == data@[k]);
                }
            }
        }
        b += 1;
    }
    true
}

/// Whether some element of `data` is not zero: the blocks are tested on the worker pool.
pub fn reduce_to_any<T: CDatatype>(data: &[T]) -> (any: bool)
    ensures
        any == any_nonzero(data@),
{
    let len: usize = data.len();
    let count: usize = block_count(len);
    let partial = par_collect(
        count,
        |b: usize| -> (r: bool)
            requires
                b < count,
                len == data@.len(),
                count > 0 ==> (count - 1) * BLOCK < len,
            ensures
                r == any_nonzero(block(data@, b as int)),
            {
                let start: usize = b * BLOCK;
                let end: usize = if len - start < BLOCK {
                    len
                } else {
                    start + BLOCK
                };
                any_in(data, start, end)
            }
    );
    let mut b: usize = 0;
    while b < count
        invariant
            b <= count,
            count == partial@.len(),
            block_start(len as nat, count as int) == len,
            len == data@.len(),
            forall|i: int|
                0 <= i < count ==> #[trigger] partial@[i] == any_nonzero(block(data@, i)),
            forall|k: int|
                0 <= k < block_start(len as nat, b as int) ==> (#[trigger] data@[k]).value() == 0,
        decreases count - b,
    {
        let ghost from = block_start(len as nat, b as int);
        let ghost to = block_start(len as nat, b as int + 1);
        proof {
            assert(b * BLOCK <= (b + 1) * BLOCK) by (nonlinear_arith);
        }
        if partial[b] {
            proof {
                let here = block(data@, b as int);
                let k = choose|k: int| 0 <= k < here.len() && (#[trigger] here[k]).value() != 0;
                assert(data@[from + k] == here[k]);
            }
            return true;
        }
        proof {
            let here = block(data@, b as int);
            assert forall|k: int| 0 <= k < to implies (#[trigger] data@[k]).value() == 0 by {
                if k >= from {
                    assert(here[k - from] == data@[k]);
                    assert(!((#[trigger] here[k - from]).value() != 0));
                }
            }
        }
        b += 1;
    }
    false
}

/// The reductions of a buffer to one scalar or truth value.
pub trait BufferReduce {
    /// The type of the elements.
    type DType: CDatatype;

    /// The elements, as a mathematical value.
    spec fn items(&self) -> Seq<Self::DType>;

    /// Whether every element is not zero.
    fn all(&self, queue: &Queue) -> (all: Result<bool, Error>)
        ensures
            all matches Ok(a) && a == all_nonzero(self.items()),
    ;

    /// Whether some element is not zero.
    fn any(&self, queue: &Queue) -> (any: Result<bool, Error>)
        ensures
            any matches Ok(a) && a == any_nonzero(self.items()),
    ;

    /// The greatest element; the least value of the type where there is no element.
    fn max(&self, queue: &Queue) -> (max: Result<Self::DType, Error>)
        ensures
            max matches Ok(m) && m == ReduceOp::Max.value(self.items()),
    ;

    /// The least element; the greatest value of the type where there is no element.
    fn min(&self, queue: &Queue) -> (min: Result<Self::DType, Error>)
        ensures
            min matches Ok(m) && m == ReduceOp::Min.value(self.items()),
    ;

    /// The product of the elements, which wraps around at the bounds of the type.
    fn product(&self, queue: &Queue) -> (product: Result<Self::DType, Error>)
        ensures
            product matches Ok(p) && p == ReduceOp::Product.value(self.items()),
    ;

    /// The sum of the elements, which wraps around at the bounds of the type.
    fn sum(&self, queue: &Queue) -> (sum: Result<Self::DType, Error>)
        ensures
            sum matches Ok(s) && s == ReduceOp::Sum.value(self.items()),
    ;
}

impl<T: CDatatype> BufferReduce for Vec<T> {
    type DType = T;

    open spec fn items(&self) -> Seq<T> {
        self@
    }

    fn all(&self, queue: &Queue) -> (all: Result<bool, Error>) {
        Ok(reduce_to_all(self.as_slice()))
    }

    fn any(&self, queue: &Queue) -> (any: Result<bool, Error>) {
        Ok(reduce_to_any(self.as_slice()))
    }

    fn max(&self, queue: &Queue) -> (max: Result<T, Error>) {
        Ok(reduce_all(ReduceOp::Max, self.as_slice()))
    }

    fn min(&self, queue: &Queue) -> (min: Result<T, Error>) {
        Ok(reduce_all(ReduceOp::Min, self.as_slice()))
    }

    fn product(&self, queue: &Queue) -> (product: Result<T, Error>) {
        Ok(reduce_all(ReduceOp::Product, self.as_slice()))
    }

    fn sum(&self, queue: &Queue) -> (sum: Result<T, Error>) {
        Ok(reduce_all(ReduceOp::Sum, self.as_slice()))
    }
}

impl<T: CDatatype> BufferReduce for Buffer<T> {
    type DType = T;

    open spec fn items(&self) -> Seq<T> {
        self@
    }

    fn all(&self, queue: &Queue) -> (all: Result<bool, Error>) {
        match self {
            Buffer::Host(data) => data.all(queue),
        }
    }

    fn any(&self, queue: &Queue) -> (any: Result<bool, Error>) {
        match self {
            Buffer::Host(data) => data.any(queue),
        }
    }

    fn max(&self, queue: &Queue) -> (max: Result<T, Error>) {
        match self {
            Buffer::Host(data) => data.max(queue),
        }
    }

    fn min(&self, queue: &Queue) -> (min: Result<T, Error>) {
        match self {
            Buffer::Host(data) => data.min(queue),
        }
    }

    fn product(&self, queue: &Queue) -> (product: Result<T, Error>) {
        match self {
            Buffer::Host(data) => data.product(queue),
        }
    }

    fn sum(&self, queue: &Queue) -> (sum: Result<T, Error>) {
        match self {
            Buffer::Host(data) => data.sum(queue),
        }
    }
}

impl<'a, T: CDatatype> BufferReduce for BufferConverter<'a, T> {
    type DType = T;

    open spec fn items(&self) -> Seq<T> {
        self@
    }

    fn all(&self, queue: &Queue) -> (all: Result<bool, Error>) {
        match self {
            BufferConverter::Host(data) => {
                let found: bool = reduce_to_all(data.as_ref());
                assert(found == all_nonzero(self@));
                assert(self.items() == self@);
                Ok(found)
            },
        }
    }

    fn any(&self, queue: &Queue) -> (any: Result<bool, Error>) {
        match self {
            BufferConverter::Host(data) => Ok(reduce_to_any(data.as_ref())),
        }
    }

    fn max(&self, queue: &Queue) -> (max: Result<T, Error>) {
        match self {
            BufferConverter::Host(data) => Ok(reduce_all(ReduceOp::Max, data.as_ref())),
        }
    }

    fn min(&self, queue: &Queue) -> (min: Result<T, Error>) {
        match self {
            BufferConverter::Host(data) => Ok(reduce_all(ReduceOp::Min, data.as_ref())),
        }
    }

    fn product(&self, queue: &Queue) -> (product: Result<T, Error>) {
        match self {
            BufferConverter::Host(data) => Ok(reduce_all(ReduceOp::Product, data.as_ref())),
        }
    }

    fn sum(&self, queue: &Queue) -> (sum: Result<T, Error>) {
        match self {
            BufferConverter::Host(data) => Ok(reduce_all(ReduceOp::Sum, data.as_ref())),
        }
    }
}


/// The reductions along one axis of a row-major array `source` of shape
/// `shape`: one for each position along the other axes, of the elements that
/// differ from it along the axis only.
pub open spec fn axis_reduced<T: CDatatype>(
    op: ReduceOp,
    source: Seq<T>,
    shape: Seq<usize>,
    axis: int,
) -> Seq<T> {
    Seq::new(
        size_of(reduced_shape(shape, axis)),
        |offset: int| op.value(axis_lane(source, shape, axis, offset)),
    )
}

/// The elements of a row-major array `source` of shape `shape` that lie
/// along `axis` at the position that `offset` has among the other axes.
pub open spec fn axis_lane<T>(source: Seq<T>, shape: Seq<usize>, axis: int, offset: int) -> Seq<T> {
    let inner = suffix_product(shape, axis + 1) as int;
    let dim = shape[axis] as int;
    lane(source, (offset / inner) * (dim * inner) + offset % inner, inner, dim)
}

/// What the reduction of one lane asks for.
pub open spec fn can_fold(
    offset: usize,
    count: usize,
    outer: int,
    dim: usize,
    inner: usize,
    span: usize,
    len: nat,
) -> bool {
    &&& offset < count
    &&& count == outer * inner
    &&& len == outer * dim * inner
    &&& span == dim * inner
    &&& inner >= 1
    &&& dim >= 1
    &&& outer >= 1
    &&& len <= usize::MAX
}

/// The reductions along `axis` of a row-major array `source` of shape `shape`,
/// computed on the worker pool.
pub fn reduce_along<T: CDatatype>(op: ReduceOp, source: &[T], shape: &[usize], axis: usize) -> (out:
    Vec<T>)
    requires
        valid_shape(shape@),
        axis < shape@.len(),
        source@.len() == size_of(shape@),
    ensures
        out@ == axis_reduced(op, source@, shape@, axis as int),
{
    let n: usize = shape.len();
    let dim: usize = shape[axis];
    let mut inner: usize = 1;
    let mut x: usize = n;
    while x > axis + 1
        invariant
            axis + 1 <= x <= n,
            n == shape@.len(),
            valid_shape(shape@),
            inner == suffix_product(shape@, x as int),
        decreases x,
    {
        x -= 1;
        proof {
            lemma_suffix_product_monotone(shape@, 0, x as int);
        }
        inner = shape[x] * inner;
    }
    let ghost outer = size_of(shape@.take(axis as int)) as int;
    proof {
        lemma_reduced_shape(shape@, axis as int);
        lemma_size_around_axis(shape@, axis as int);
        lemma_suffix_product_positive(shape@, axis as int + 1);
        lemma_suffix_product_monotone(shape@, 0, axis as int);
        assert(positive_dims(shape@.take(axis as int)));
        lemma_suffix_product_positive(shape@.take(axis as int), 0);
        assert(suffix_product(shape@, axis as int) == (dim as nat) * (inner as nat));
        assert((outer * inner) * dim == outer * dim * inner) by (nonlinear_arith);
        vstd::arithmetic::div_mod::lemma_div_by_multiple(outer * inner, dim as int);
    }
    let span: usize = dim * inner;
    let len: usize = source.len();
    let count: usize = len / dim;
    let out = par_collect(
        count,
        |offset: usize| -> (r: T)
            requires
                can_fold(offset, count, outer, dim, inner, span, source@.len()),
            ensures
                r == op.value(
                    lane(
                        source@,
                        (offset / inner) * span + offset % inner,
                        inner as int,
                        dim as int,
                    ),
                ),
            {
                proof {
                    let q = offset as int / inner as int;
                    let r = offset as int % inner as int;
                    vstd::arithmetic::div_mod::lemma_multiply_divide_lt(
                        offset as int,
                        inner as int,
                        outer,
                    );
                    vstd::arithmetic::div_mod::lemma_div_pos_is_pos(offset as int, inner as int);
                    vstd::arithmetic::div_mod::lemma_mod_bound(offset as int, inner as int);
                    assert(q * span + r + (dim - 1) * inner < outer * dim * inner && q * span
                        >= 0) by (nonlinear_arith)
                        requires
                            0 <= q <= outer - 1,
                            0 <= r <= inner - 1,
                            span == dim * inner,
                            dim >= 1,
                            inner >= 1,
                    ;
                    assert((dim - 1) * inner >= 0) by (nonlinear_arith)
                        requires
                            dim >= 1,
                            inner >= 1,
                    ;
                }
                fold_lane(op, source, (offset / inner) * span + offset % inner, inner, dim)
            }
    );
    assert(out@ =~= axis_reduced(op, source@, shape@, axis as int));
    out
}

/// A reduction along one axis of an array.
pub struct ArrayReduceAxis<T, A> {
    source: A,
    axis: usize,
    op: ReduceOp,
    dtype: PhantomData<T>,
}

impl<T: CDatatype, A: NDArrayRead<DType = T>> Clone for ArrayReduceAxis<T, A> {
    fn clone(&self) -> (copy: Self)
        ensures
            copy.valid() == self.valid(),
            copy.settings() == self.settings(),
            copy.size() == self.size(),
            copy.defined() == self.defined(),
            copy.output() == self.output(),
    {
        let source = self.source.clone();
        proof {
            self.source.lemma_clone(&source);
            self.source.lemma_clone_read(&source);
        }
        ArrayReduceAxis { source, axis: self.axis, op: self.op, dtype: PhantomData }
    }
}

impl<T: CDatatype, A: NDArrayRead<DType = T>> ArrayReduceAxis<T, A> {
    /// The reduction `op` of `source` along `axis`, which must be one of its axes.
    pub fn new(op: ReduceOp, source: A, axis: usize) -> (node: Self)
        requires
            source.valid(),
            axis < source.dims().len(),
        ensures
            node.valid(),
            node.settings() == source.settings(),
            node.size() == size_of(reduced_shape(source.dims(), axis as int)),
            node.defined() == source.defined(),
            node.output() == axis_reduced(op, source.elements(), source.dims(), axis as int),
    {
        ArrayReduceAxis { source, axis, op, dtype: PhantomData }
    }

    /// The greatest elements along `axis`.
    pub fn max(source: A, axis: usize) -> (node: Self)
        requires
            source.valid(),
            axis < source.dims().len(),
        ensures
            node.valid(),
            node.settings() == source.settings(),
            node.size() == size_of(reduced_shape(source.dims(), axis as int)),
            node.defined() == source.defined(),
            node.output() == axis_reduced(
                ReduceOp::Max,
                source.elements(),
                source.dims(),
                axis as int,
            ),
    {
        Self::new(ReduceOp::Max, source, axis)
    }

    /// The least elements along `axis`.
    pub fn min(source: A, axis: usize) -> (node: Self)
        requires
            source.valid(),
            axis < source.dims().len(),
        ensures
            node.valid(),
            node.settings() == source.settings(),
            node.size() == size_of(reduced_shape(source.dims(), axis as int)),
            node.defined() == source.defined(),
            node.output() == axis_reduced(
                ReduceOp::Min,
                source.elements(),
                source.dims(),
                axis as int,
            ),
    {
        Self::new(ReduceOp::Min, source, axis)
    }

    /// The products along `axis`.
    pub fn product(source: A, axis: usize) -> (node: Self)
        requires
            source.valid(),
            axis < source.dims().len(),
        ensures
            node.valid(),
            node.settings() == source.settings(),
            node.size() == size_of(reduced_shape(source.dims(), axis as int)),
            node.defined() == source.defined(),
            node.output() == axis_reduced(
                ReduceOp::Product,
                source.elements(),
                source.dims(),
                axis as int,
            ),
    {
        Self::new(ReduceOp::Product, source, axis)
    }

    /// The sums along `axis`.
    pub fn sum(source: A, axis: usize) -> (node: Self)
        requires
            source.valid(),
            axis < source.dims().len(),
        ensures
            node.valid(),
            node.settings() == source.settings(),
            node.size() == size_of(reduced_shape(source.dims(), axis as int)),
            node.defined() == source.defined(),
            node.output() == axis_reduced(
                ReduceOp::Sum,
                source.elements(),
                source.dims(),
                axis as int,
            ),
    {
        Self::new(ReduceOp::Sum, source, axis)
    }
}

impl<T: CDatatype, A: NDArrayRead<DType = T>> Op for ArrayReduceAxis<T, A> {
    type Out = T;

    closed spec fn settings(&self) -> Settings {
        self.source.settings()
    }

    closed spec fn valid(&self) -> bool {
        &&& self.source.valid()
        &&& self.axis < self.source.dims().len()
    }

    closed spec fn size(&self) -> nat {
        size_of(reduced_shape(self.source.dims(), self.axis as int))
    }

    closed spec fn defined(&self) -> bool {
        self.source.defined()
    }

    closed spec fn output(&self) -> Seq<T> {
        axis_reduced(self.op, self.source.elements(), self.source.dims(), self.axis as int)
    }

    proof fn lemma_output(&self) {
    }

    proof fn lemma_clone(&self, copy: &Self) {
    }

    fn context(&self) -> (context: &Context) {
        self.source.context()
    }

    fn enqueue(&self, queue: &Queue) -> (buffer: Result<Buffer<T>, Error>) {
        proof {
            self.source.lemma_valid();
            self.source.lemma_elements();
        }
        let source = match self.source.to_host(queue) {
            Ok(source) => source,
            Err(cause) => {
                return Err(cause);
            },
        };
        Ok(
            Buffer::from_vec(
                reduce_along(self.op, source.as_ref(), self.source.shape(), self.axis),
            ),
        )
    }
}

/// The reductions of an array: to one scalar or truth value, evaluated at
/// once, and along one axis, evaluated when the result is read.
pub trait NDArrayReduce: NDArrayRead {
    /// Whether every element is not zero.
    fn all(self) -> (all: Result<bool, Error>)
        requires
            self.valid(),
        ensures
            all is Ok == self.defined(),
            all matches Ok(a) ==> a == all_nonzero(self.elements()),
            all matches Err(e) ==> e is Interface && e.cause() == zero_division_message(),
    {
        let queue = match Queue::new(self.context().clone(), self.size()) {
            Ok(queue) => queue,
            Err(cause) => {
                return Err(Error::Interface(cause.message()));
            },
        };
        match self.read(&queue) {
            Ok(buffer) => buffer.all(&queue),
            Err(cause) => Err(cause),
        }
    }

    /// Whether some element is not zero.
    fn any(self) -> (any: Result<bool, Error>)
        requires
            self.valid(),
        ensures
            any is Ok == self.defined(),
            any matches Ok(a) ==> a == any_nonzero(self.elements()),
            any matches Err(e) ==> e is Interface && e.cause() == zero_division_message(),
    {
        let queue = match Queue::new(self.context().clone(), self.size()) {
            Ok(queue) => queue,
            Err(cause) => {
                return Err(Error::Interface(cause.message()));
            },
        };
        match self.read(&queue) {
            Ok(buffer) => buffer.any(&queue),
            Err(cause) => Err(cause),
        }
    }

    /// The greatest element.
    fn max(self) -> (max: Result<Self::DType, Error>)
        requires
            self.valid(),
        ensures
            max is Ok == self.defined(),
            max matches Ok(m) ==> m == ReduceOp::Max.value(self.elements()),
            max matches Err(e) ==> e is Interface && e.cause() == zero_division_message(),
    {
        let queue = match Queue::new(self.context().clone(), self.size()) {
            Ok(queue) => queue,
            Err(cause) => {
                return Err(Error::Interface(cause.message()));
            },
        };
        match self.read(&queue) {
            Ok(buffer) => buffer.max(&queue),
            Err(cause) => Err(cause),
        }
    }

    /// The greatest elements along `axis`, which must be one of the axes.
    fn max_axis(self, axis: usize) -> (array: Result<
        ArrayOp<ArrayReduceAxis<Self::DType, Self>>,
        Error,
    >)
        requires
            self.valid(),
        ensures
            array is Ok == (axis < self.dims().len()),
            array matches Ok(a) ==> a.valid() && a.settings() == self.settings()
                && a.dims() == reduced_shape(
                self.dims(),
                axis as int,
            ) && a.defined() == self.defined() && a.elements() == axis_reduced(
                ReduceOp::Max,
                self.elements(),
                self.dims(),
                axis as int,
            ),
            array matches Err(e) ==> e is Bounds && e.cause() == message_about(
                "axis is out of bounds for shape "@,
                self.dims(),
            ),
    {
        proof {
            self.lemma_valid();
        }
        match reduce_axis(self.shape(), axis) {
            Ok(shape) => {
                proof {
                    lemma_reduced_shape(self.dims(), axis as int);
                }
                Ok(ArrayOp::new(shape, ArrayReduceAxis::max(self, axis)))
            },
            Err(cause) => Err(cause),
        }
    }

    /// The least element.
    fn min(self) -> (min: Result<Self::DType, Error>)
        requires
            self.valid(),
        ensures
            min is Ok == self.defined(),
            min matches Ok(m) ==> m == ReduceOp::Min.value(self.elements()),
            min matches Err(e) ==> e is Interface && e.cause() == zero_division_message(),
    {
        let queue = match Queue::new(self.context().clone(), self.size()) {
            Ok(queue) => queue,
            Err(cause) => {
                return Err(Error::Interface(cause.message()));
            },
        };
        match self.read(&queue) {
            Ok(buffer) => buffer.min(&queue),
            Err(cause) => Err(cause),
        }
    }

    /// The least elements along `axis`, which must be one of the axes.
    fn min_axis(self, axis: usize) -> (array: Result<
        ArrayOp<ArrayReduceAxis<Self::DType, Self>>,
        Error,
    >)
        requires
            self.valid(),
        ensures
            array is Ok == (axis < self.dims().len()),
            array matches Ok(a) ==> a.valid() && a.settings() == self.settings()
                && a.dims() == reduced_shape(
                self.dims(),
                axis as int,
            ) && a.defined() == self.defined() && a.elements() == axis_reduced(
                ReduceOp::Min,
                self.elements(),
                self.dims(),
                axis as int,
            ),
            array matches Err(e) ==> e is Bounds && e.cause() == message_about(
                "axis is out of bounds for shape "@,
                self.dims(),
            ),
    {
        proof {
            self.lemma_valid();
        }
        match reduce_axis(self.shape(), axis) {
            Ok(shape) => {
                proof {
                    lemma_reduced_shape(self.dims(), axis as int);
                }
                Ok(ArrayOp::new(shape, ArrayReduceAxis::min(self, axis)))
            },
            Err(cause) => Err(cause),
        }
    }

    /// The product of the elements, which wraps around at the bounds of the element type.
    fn product(self) -> (product: Result<Self::DType, Error>)
        requires
            self.valid(),
        ensures
            product is Ok == self.defined(),
            product matches Ok(p) ==> p == ReduceOp::Product.value(self.elements()),
            product matches Err(e) ==> e is Interface && e.cause() == zero_division_message(),
    {
        let queue = match Queue::new(self.context().clone(), self.size()) {
            Ok(queue) => queue,
            Err(cause) => {
                return Err(Error::Interface(cause.message()));
            },
        };
        match self.read(&queue) {
            Ok(buffer) => buffer.product(&queue),
            Err(cause) => Err(cause),
        }
    }

    /// The products along `axis`, which must be one of the axes.
    fn product_axis(self, axis: usize) -> (array: Result<
        ArrayOp<ArrayReduceAxis<Self::DType, Self>>,
        Error,
    >)
        requires
            self.valid(),
        ensures
            array is Ok == (axis < self.dims().len()),
            array matches Ok(a) ==> a.valid() && a.settings() == self.settings()
                && a.dims() == reduced_shape(
                self.dims(),
                axis as int,
            ) && a.defined() == self.defined() && a.elements() == axis_reduced(
                ReduceOp::Product,
                self.elements(),
                self.dims(),
                axis as int,
            ),
            array matches Err(e) ==> e is Bounds && e.cause() == message_about(
                "axis is out of bounds for shape "@,
                self.dims(),
            ),
    {
        proof {
            self.lemma_valid();
        }
        match reduce_axis(self.shape(), axis) {
            Ok(shape) => {
                proof {
                    lemma_reduced_shape(self.dims(), axis as int);
                }
                Ok(ArrayOp::new(shape, ArrayReduceAxis::product(self, axis)))
            },
            Err(cause) => Err(cause),
        }
    }

    /// The sum of the elements, which wraps around at the bounds of the element type.
    fn sum(self) -> (sum: Result<Self::DType, Error>)
        requires
            self.valid(),
        ensures
            sum is Ok == self.defined(),
            sum matches Ok(s) ==> s == ReduceOp::Sum.value(self.elements()),
            sum matches Err(e) ==> e is Interface && e.cause() == zero_division_message(),
    {
        let queue = match Queue::new(self.context().clone(), self.size()) {
            Ok(queue) => queue,
            Err(cause) => {
                return Err(Error::Interface(cause.message()));
            },
        };
        match self.read(&queue) {
            Ok(buffer) => buffer.sum(&queue),
            Err(cause) => Err(cause),
        }
    }

    /// The sums along `axis`, which must be one of the axes.
    fn sum_axis(self, axis: usize) -> (array: Result<
        ArrayOp<ArrayReduceAxis<Self::DType, Self>>,
        Error,
    >)
        requires
            self.valid(),
        ensures
            array is Ok == (axis < self.dims().len()),
            array matches Ok(a) ==> a.valid() && a.settings() == self.settings()
                && a.dims() == reduced_shape(
                self.dims(),
                axis as int,
            ) && a.defined() == self.defined() && a.elements() == axis_reduced(
                ReduceOp::Sum,
                self.elements(),
                self.dims(),
                axis as int,
            ),
            array matches Err(e) ==> e is Bounds && e.cause() == message_about(
                "axis is out of bounds for shape "@,
                self.dims(),
            ),
    {
        proof {
            self.lemma_valid();
        }
        match reduce_axis(self.shape(), axis) {
            Ok(shape) => {
                proof {
                    lemma_reduced_shape(self.dims(), axis as int);
                }
                Ok(ArrayOp::new(shape, ArrayReduceAxis::sum(self, axis)))
            },
            Err(cause) => Err(cause),
        }
    }
}

impl<A: NDArrayRead> NDArrayReduce for A {

}

} // verus!
