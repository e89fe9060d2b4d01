//! Matrix operations on the last two axes of an array: the matrix product and
//! the diagonal. The axes before them count the matrices of a batch.

use std::marker::PhantomData;
use vstd::prelude::*;
use crate::array::{ArrayOp, NDArray, NDArrayRead};
use crate::buffer::Buffer;
use crate::dtype::{CDatatype, lemma_wrapped_add, lemma_wrapped_within, wrapped};
use crate::error::{bounds_about, bounds_between, message_about, message_between, Error};
use crate::layout::{lemma_total_take, total};
use crate::ops::{lemma_scalar, Op, scalar};
use crate::parallel::par_collect;
use crate::platform::{Context, Queue, Settings};
use crate::shape::{
    checked_size, lemma_size_concat, lemma_size_of_one, lemma_suffix_product_positive,
    positive_dims, same_dims, size_of, valid_shape, valid_size,
};

verus! {

/// Two shapes whose arrays can be multiplied as batches of matrices: both have
/// two axes at least and the same number of them, the axes before the last two
/// agree, and the last dimension of the first is the last but one of the second.
pub open spec fn matmul_compatible(left: Seq<usize>, right: Seq<usize>) -> bool {
    &&& left.len() >= 2
    &&& right.len() == left.len()
    &&& left.take(left.len() - 2) == right.take(left.len() - 2)
    &&& left[left.len() - 1] == right[left.len() - 2]
}

/// The shape of the matrix product of arrays of the shapes `left` and `right`.
pub open spec fn matmul_shape(left: Seq<usize>, right: Seq<usize>) -> Seq<usize> {
    left.take(left.len() - 2).push(left[left.len() - 2]).push(right[left.len() - 1])
}

/// The message of the error that tells why arrays of the shapes `left` and
/// `right` have no matrix product: that one has fewer than two axes, that the
/// numbers of axes differ, that the axes before the last two differ, that the
/// inner dimensions differ, or that the product would be too large.
pub open spec fn matmul_refusal(left: Seq<usize>, right: Seq<usize>) -> Seq<char> {
    if left.len() < 2 || right.len() < 2 {
        message_between("invalid matrices for matmul: "@, left, right)
    } else if right.len() != left.len() {
        message_between(
            "matrix multiply expects the same number of dimensions but found shapes "@,
            left,
            right,
        )
    } else if left.take(left.len() - 2) != right.take(left.len() - 2) {
        message_between(
            "matrix multiply requires the same batch shape, not "@,
            left.take(left.len() - 2),
            right.take(left.len() - 2),
        )
    } else if right[left.len() - 2] != left[left.len() - 1] {
        message_between("invalid dimensions for matrix multiply: "@, left, right)
    } else {
        message_about("matrix product too large: "@, matmul_shape(left, right))
    }
}

/// The products that add up to the element at `offset` of a batch of matrix
/// products: those of row `i` of the left matrix `b` with column `j` of the
/// right matrix `b`, where `offset` is that of `(b, i, j)` in the result. The
/// left matrices are `m` by `k` and the right matrices `k` by `n`.
pub open spec fn matmul_terms<T: CDatatype>(
    left: Seq<T>,
    right: Seq<T>,
    m: int,
    k: int,
    n: int,
    offset: int,
) -> Seq<int> {
    let b = offset / (m * n);
    let i = (offset / n) % m;
    let j = offset % n;
    Seq::new(
        k as nat,
        |x: int| left[b * (m * k) + i * k + x].value() * right[b * (k * n) + x * n + j].value(),
    )
}

/// One element of a batch of matrix products: the sum of its terms, wrapped into the type.
pub open spec fn matmul_item<T: CDatatype>(
    left: Seq<T>,
    right: Seq<T>,
    m: int,
    k: int,
    n: int,
    offset: int,
) -> T {
    scalar::<T>(wrapped(total(matmul_terms(left, right, m, k, n, offset)), T::lowest(), T::highest()))
}

/// The elements of `batch` matrix products.
pub open spec fn matmul_output<T: CDatatype>(
    left: Seq<T>,
    right: Seq<T>,
    batch: int,
    m: int,
    k: int,
    n: int,
) -> Seq<T> {
    Seq::new((batch * m * n) as nat, |offset: int| matmul_item(left, right, m, k, n, offset))
}

/// What the computation of one element of a batch of matrix products asks for.
pub open spec fn can_multiply(
    offset: usize,
    batch: usize,
    m: usize,
    k: usize,
    n: usize,
    left_len: nat,
    right_len: nat,
) -> bool {
    &&& batch >= 1 && m >= 1 && k >= 1 && n >= 1
    &&& offset < batch * m * n
    &&& left_len == batch * m * k
    &&& right_len == batch * k * n
    &&& batch * m * n <= usize::MAX
    &&& left_len <= usize::MAX
    &&& right_len <= usize::MAX
}

/// The element at `offset` of a batch of matrix products.
pub fn multiply_at<T: CDatatype>(
    left: &[T],
    right: &[T],
    batch: usize,
    m: usize,
    k: usize,
    n: usize,
    offset: usize,
) -> (item: T)
    requires
        can_multiply(offset, batch, m, k, n, left@.len(), right@.len()),
    ensures
        item == matmul_item(left@, right@, m as int, k as int, n as int, offset as int),
{
    let ghost terms = matmul_terms(left@, right@, m as int, k as int, n as int, offset as int);
    let ghost lo = T::lowest();
    let ghost hi = T::highest();
    proof {
        assert(m * n >= 1 && m * n <= batch * m * n && m * k <= batch * m * k && k * n <= batch
            * k * n && batch * m * n == batch * (m * n) && batch * m * k == batch * (m * k)
            && batch * k * n == batch * (k * n) && (m * n) * batch == batch * m * n)
            by (nonlinear_arith)
            requires
                batch >= 1,
                m >= 1,
                k >= 1,
                n >= 1,
        ;
    }
    let mn: usize = m * n;
    let b: usize = offset / mn;
    let i: usize = (offset / n) % m;
    let j: usize = offset % n;
    proof {
        vstd::arithmetic::div_mod::lemma_multiply_divide_lt(
            offset as int,
            mn as int,
            batch as int,
        );
        assert(b * (m * k) + i * k + (k - 1) < batch * m * k && b * (k * n) + (k - 1) * n + j
            < batch * k * n && b * (m * k) >= 0 && i * k >= 0 && b * (k * n) >= 0) by (nonlinear_arith)
            requires
                0 <= b <= batch - 1,
                0 <= i <= m - 1,
                0 <= j <= n - 1,
                k >= 1,
                m >= 1,
                n >= 1,
        ;
    }
    let left_base: usize = b * (m * k) + i * k;
    let right_base: usize = b * (k * n) + j;
    let zero = T::zero();
    let mut acc: T = zero;
    let mut x: usize = 0;
    proof {
        zero.lemma_range();
        lemma_wrapped_within(0, lo, hi);
        assert(terms.take(0) =~= Seq::<int>::empty());
    }
    while x < k
        invariant
            x <= k,
            k >= 1,
            n >= 1,
            lo == T::lowest(),
            hi == T::highest(),
            lo <= hi,
            left_base == b * (m * k) + i * k,
            right_base == b * (k * n) + j,
            left_base + (k - 1) < left@.len() <= usize::MAX,
            right_base + (k - 1) * n < right@.len() <= usize::MAX,
            b == offset as int / (m * n),
            i == (offset as int / n as int) % (m as int),
            j == offset as int % n as int,
            terms == matmul_terms(left@, right@, m as int, k as int, n as int, offset as int),
            acc.value() == wrapped(total(terms.take(x as int)), lo, hi),
        decreases k - x,
    {
        proof {
            assert(x * n <= (k - 1) * n && x * n >= 0) by (nonlinear_arith)
                requires
                    0 <= x <= k - 1,
                    n >= 1,
            ;
        }
        let l: T = left[left_base + x];
        let r: T = right[right_base + x * n];
        proof {
            assert(terms[x as int] == l.value() * r.value());
            lemma_total_take(terms, x as int);
            lemma_wrapped_add(total(terms.take(x as int)), l.value() * r.value(), lo, hi);
            lemma_wrapped_add(acc.value(), l.value() * r.value(), lo, hi);
        }
        acc = acc.add(l.mul(r));
        x += 1;
    }
    proof {
        assert(terms.take(k as int) =~= terms);
        lemma_scalar(acc, acc.value());
    }
    acc
}

/// The elements of `batch` matrix products, computed on the worker pool.
pub fn multiply<T: CDatatype>(
    left: &[T],
    right: &[T],
    batch: usize,
    m: usize,
    k: usize,
    n: usize,
) -> (out: Vec<T>)
    requires
        batch >= 1 && m >= 1 && k >= 1 && n >= 1,
        left@.len() == batch * m * k,
        right@.len() == batch * k * n,
        batch * m * n <= usize::MAX,
    ensures
        out@ == matmul_output(left@, right@, batch as int, m as int, k as int, n as int),
{
    proof {
        assert(batch * m >= 1 && batch * m <= batch * m * n) by (nonlinear_arith)
            requires
                batch >= 1,
                m >= 1,
                n >= 1,
        ;
    }
    let size: usize = batch * m * n;
    let left_len: usize = left.len();
    let right_len: usize = right.len();
    let out = par_collect(
        size,
        |offset: usize| -> (item: T)
            requires
                can_multiply(offset, batch, m, k, n, left@.len(), right@.len()),
            ensures
                item == matmul_item(left@, right@, m as int, k as int, n as int, offset as int),
            {
                multiply_at(left, right, batch, m, k, n, offset)
            }
    );
    assert(out@ =~= matmul_output(left@, right@, batch as int, m as int, k as int, n as int));
    out
}

/// The matrix product of two arrays, matrix by matrix of their batches.
pub struct MatMul<T, L, R> {
    left: L,
    right: R,
    batch: usize,
    m: usize,
    k: usize,
    n: usize,
    dtype: PhantomData<T>,
}

impl<T: CDatatype, L: NDArrayRead<DType = T>, R: NDArrayRead<DType = T>> Clone for MatMul<T, L, R> {
    fn clone(&self) -> (copy: Self)
        ensures
            copy.valid() == self.valid(),
            copy.settings() == self.settings(),
            copy.size() == self.size(),
            copy.defined() == self.defined(),
            copy.output() == self.output(),
    {
        let left = self.left.clone();
        let right = self.right.clone();
        proof {
            self.left.lemma_clone(&left);
            self.left.lemma_clone_read(&left);
            self.right.lemma_clone(&right);
            self.right.lemma_clone_read(&right);
        }
        MatMul {
            left,
            right,
            batch: self.batch,
            m: self.m,
            k: self.k,
            n: self.n,
            dtype: PhantomData,
        }
    }
}

/// The size of a shape whose last two dimensions are `a` and `b` is the size
/// of the axes before them times `a` times `b`.
pub proof fn lemma_matrix_size(shape: Seq<usize>)
    requires
        shape.len() >= 2,
    ensures
        size_of(shape) == size_of(shape.take(shape.len() - 2)) * shape[shape.len() - 2]
            * shape[shape.len() - 1],
{
    let n = shape.len() as int;
    let prefix = shape.take(n - 2);
    let a = seq![shape[n - 2]];
    let b = seq![shape[n - 1]];
    assert(shape =~= prefix + a + b);
    lemma_size_concat(prefix, a);
    lemma_size_concat(prefix + a, b);
    lemma_size_of_one(shape[n - 2]);
    lemma_size_of_one(shape[n - 1]);
}

impl<T: CDatatype, L: NDArrayRead<DType = T>, R: NDArrayRead<DType = T>> MatMul<T, L, R> {
    /// The matrix product of `left` and `right`, whose shapes must allow it
    /// and give a valid shape.
    pub fn new(left: L, right: R) -> (node: Result<Self, Error>)
        requires
            left.valid(),
            right.valid(),
            matmul_compatible(left.dims(), right.dims()),
            valid_shape(matmul_shape(left.dims(), right.dims())),
        ensures
            node matches Ok(n) && n.valid() && n.settings() == left.settings()
                && n.size() == size_of(
                matmul_shape(left.dims(), right.dims()),
            ) && n.defined() == (left.defined() && right.defined()) && n.output() == matmul_output(
                left.elements(),
                right.elements(),
                size_of(left.dims().take(left.dims().len() - 2)) as int,
                left.dims()[left.dims().len() - 2] as int,
                left.dims()[left.dims().len() - 1] as int,
                right.dims()[left.dims().len() - 1] as int,
            ),
    {
        let ndim: usize = left.ndim();
        proof {
            left.lemma_valid();
            lemma_matrix_size(left.dims());
            lemma_matrix_size(matmul_shape(left.dims(), right.dims()));
            let prefix = left.dims().take(ndim - 2);
            assert(positive_dims(prefix));
            lemma_suffix_product_positive(prefix, 0);
            assert(matmul_shape(left.dims(), right.dims()).take(ndim - 2) =~= prefix);
            let p = size_of(prefix) as int;
            let a = left.dims()[ndim - 2] as int;
            let b = left.dims()[ndim - 1] as int;
            assert(p <= p * a * b) by (nonlinear_arith)
                requires
                    p >= 1,
                    a >= 1,
                    b >= 1,
            ;
        }
        let m: usize = left.shape()[ndim - 2];
        let k: usize = left.shape()[ndim - 1];
        let n: usize = right.shape()[ndim - 1];
        let batch: usize = match checked_size(vstd::slice::slice_subrange(left.shape(), 0, ndim - 2)) {
            Some(batch) => batch,
            None => 1,
        };
        proof {
            assert(left.dims().subrange(0, ndim - 2) =~= left.dims().take(ndim - 2));
        }
        Ok(MatMul { left, right, batch, m, k, n, dtype: PhantomData })
    }
}

impl<T: CDatatype, L: NDArrayRead<DType = T>, R: NDArrayRead<DType = T>> Op for MatMul<T, L, R> {
    type Out = T;

    closed spec fn settings(&self) -> Settings {
        self.left.settings()
    }

    closed spec fn valid(&self) -> bool {
        &&& self.left.valid()
        &&& self.right.valid()
        &&& matmul_compatible(self.left.dims(), self.right.dims())
        &&& valid_shape(matmul_shape(self.left.dims(), self.right.dims()))
        &&& self.batch == size_of(self.left.dims().take(self.left.dims().len() - 2))
        &&& self.m == self.left.dims()[self.left.dims().len() - 2]
        &&& self.k == self.left.dims()[self.left.dims().len() - 1]
        &&& self.n == self.right.dims()[self.left.dims().len() - 1]
    }

    closed spec fn size(&self) -> nat {
        size_of(matmul_shape(self.left.dims(), self.right.dims()))
    }

    closed spec fn defined(&self) -> bool {
        self.left.defined() && self.right.defined()
    }

    closed spec fn output(&self) -> Seq<T> {
        matmul_output(
            self.left.elements(),
            self.right.elements(),
            self.batch as int,
            self.m as int,
            self.k as int,
            self.n as int,
        )
    }

    proof fn lemma_output(&self) {
        let out = matmul_shape(self.left.dims(), self.right.dims());
        lemma_matrix_size(out);
        assert(out.take(out.len() - 2) =~= self.left.dims().take(self.left.dims().len() - 2));
    }

    proof fn lemma_clone(&self, copy: &Self) {
    }

    fn context(&self) -> (context: &Context) {
        self.left.context()
    }

    fn enqueue(&self, queue: &Queue) -> (buffer: Result<Buffer<T>, Error>) {
        proof {
            self.left.lemma_valid();
            self.right.lemma_valid();
            self.left.lemma_elements();
            self.right.lemma_elements();
            let ld = self.left.dims();
            let rd = self.right.dims();
            let out = matmul_shape(ld, rd);
            lemma_matrix_size(ld);
            lemma_matrix_size(rd);
            lemma_matrix_size(out);
            assert(out.take(out.len() - 2) =~= ld.take(ld.len() - 2));
            assert(positive_dims(ld.take(ld.len() - 2)));
            lemma_suffix_product_positive(ld.take(ld.len() - 2), 0);
        }
        let left = match self.left.to_host(queue) {
            Ok(left) => left,
            Err(cause) => {
                return Err(cause);
            },
        };
        let right = match self.right.to_host(queue) {
            Ok(right) => right,
            Err(cause) => {
                return Err(cause);
            },
        };
        Ok(
            Buffer::from_vec(
                multiply(left.as_ref(), right.as_ref(), self.batch, self.m, self.k, self.n),
            ),
        )
    }
}

/// The diagonals of `count / m` square matrices of `m` rows, stored one after the other.
pub open spec fn diagonal_output<T>(source: Seq<T>, m: int, count: int) -> Seq<T> {
    Seq::new(count as nat, |offset: int| source[(offset / m) * (m * m) + (offset % m) * (m + 1)])
}

/// What reading one element of a diagonal asks for.
pub open spec fn on_diagonal(offset: usize, batch: usize, m: usize, len: nat) -> bool {
    &&& batch >= 1 && m >= 1
    &&& offset < batch * m
    &&& len == batch * m * m
    &&& len <= usize::MAX
}

/// The diagonals of `batch` square matrices of `m` rows, computed on the worker pool.
pub fn diagonals<T: CDatatype>(source: &[T], batch: usize, m: usize) -> (out: Vec<T>)
    requires
        batch >= 1 && m >= 1,
        source@.len() == batch * m * m,
    ensures
        out@ == diagonal_output(source@, m as int, batch * m),
{
    let len: usize = source.len();
    proof {
        assert(batch * m <= batch * m * m) by (nonlinear_arith)
            requires
                batch >= 1,
                m >= 1,
        ;
    }
    let count: usize = batch * m;
    let out = par_collect(
        count,
        |offset: usize| -> (item: T)
            requires
                on_diagonal(offset, batch, m, source@.len()),
            ensures
                item == source@.index((offset / m) * (m * m) + (offset % m) * (m + 1)),
            {
                proof {
                    let b = offset as int / m as int;
                    let i = offset as int % m as int;
                    vstd::arithmetic::div_mod::lemma_multiply_divide_lt(
                        offset as int,
                        m as int,
                        batch as int,
                    );
                    vstd::arithmetic::div_mod::lemma_div_pos_is_pos(offset as int, m as int);
                    assert(b * (m * m) + i * (m + 1) < batch * m * m && m * m <= batch * m * m && b
                        * (m * m) >= 0 && i * (m + 1) >= 0 && i * m >= 0 && i * (m + 1) == i * m
                        + i) by (nonlinear_arith)
                        requires
                            0 <= b <= batch - 1,
                            0 <= i <= m - 1,
                            m >= 1,
                    ;
                }
                let b: usize = offset / m;
                let i: usize = offset % m;
                source[b * (m * m) + (i * m + i)]
            }
    );
    assert(out@ =~= diagonal_output(source@, m as int, batch * m));
    out
}

/// The diagonals of the matrices of an array whose last two dimensions are equal.
pub struct MatDiag<A> {
    source: A,
    batch: usize,
    m: usize,
}

/// The last two dimensions of a shape are equal.
pub open spec fn is_square(shape: Seq<usize>) -> bool {
    shape.len() >= 2 && shape[shape.len() - 1] == shape[shape.len() - 2]
}

impl<A: NDArrayRead> Clone for MatDiag<A> {
    fn clone(&self) -> (copy: Self)
        ensures
            copy.valid() == self.valid(),
            copy.settings() == self.settings(),
            copy.size() == self.size(),
            copy.defined() == self.defined(),
            copy.output() == self.output(),
    {
        let source = self.source.clone();
        proof {
            self.source.lemma_clone(&source);
            self.source.lemma_clone_read(&source);
        }
        MatDiag { source, batch: self.batch, m: self.m }
    }
}

impl<A: NDArrayRead> MatDiag<A> {
    /// The diagonals of the matrices of `source`, which must be square.
    pub fn new(source: A) -> (node: Result<Self, Error>)
        requires
            source.valid(),
            is_square(source.dims()),
        ensures
            node matches Ok(n) && n.valid() && n.settings() == source.settings()
                && n.size() == size_of(source.dims().drop_last())
                && n.defined() == source.defined() && n.output() == diagonal_output(
                source.elements(),
                source.dims().last() as int,
                size_of(source.dims().drop_last()) as int,
            ),
    {
        let ndim: usize = source.ndim();
        proof {
            source.lemma_valid();
            lemma_matrix_size(source.dims());
            let prefix = source.dims().take(ndim - 2);
            assert(positive_dims(prefix));
            lemma_suffix_product_positive(prefix, 0);
            let p = size_of(prefix) as int;
            let a = source.dims()[ndim - 2] as int;
            let b = source.dims()[ndim - 1] as int;
            assert(p <= p * a * b) by (nonlinear_arith)
                requires
                    p >= 1,
                    a >= 1,
                    b >= 1,
            ;
            assert(source.dims().subrange(0, ndim - 2) =~= prefix);
        }
        let m: usize = source.shape()[ndim - 1];
        let batch: usize = match checked_size(
            vstd::slice::slice_subrange(source.shape(), 0, ndim - 2),
        ) {
            Some(batch) => batch,
            None => 1,
        };
        proof {
            lemma_diagonal_size(source.dims());
        }
        Ok(MatDiag { source, batch, m })
    }
}

/// Without its last axis, the size of a shape is the size of the axes before
/// the last two times the last dimension but one.
pub proof fn lemma_diagonal_size(shape: Seq<usize>)
    requires
        shape.len() >= 2,
    ensures
        size_of(shape.drop_last()) == size_of(shape.take(shape.len() - 2)) * shape[shape.len() - 2],
{
    let n = shape.len() as int;
    let prefix = shape.take(n - 2);
    let a = seq![shape[n - 2]];
    assert(shape.drop_last() =~= prefix + a);
    lemma_size_concat(prefix, a);
    lemma_size_of_one(shape[n - 2]);
}

impl<A: NDArrayRead> Op for MatDiag<A> {
    type Out = A::DType;

    closed spec fn settings(&self) -> Settings {
        self.source.settings()
    }

    closed spec fn valid(&self) -> bool {
        &&& self.source.valid()
        &&& is_square(self.source.dims())
        &&& self.batch == size_of(self.source.dims().take(self.source.dims().len() - 2))
        &&& self.m == self.source.dims().last()
    }

    closed spec fn size(&self) -> nat {
        size_of(self.source.dims().drop_last())
    }

    closed spec fn defined(&self) -> bool {
        self.source.defined()
    }

    closed spec fn output(&self) -> Seq<A::DType> {
        diagonal_output(
            self.source.elements(),
            self.source.dims().last() as int,
            size_of(self.source.dims().drop_last()) as int,
        )
    }

    proof fn lemma_output(&self) {
    }

    proof fn lemma_clone(&self, copy: &Self) {
    }

    fn context(&self) -> (context: &Context) {
        self.source.context()
    }

    fn enqueue(&self, queue: &Queue) -> (buffer: Result<Buffer<A::DType>, Error>) {
        proof {
            self.source.lemma_valid();
            self.source.lemma_elements();
            let dims = self.source.dims();
            lemma_matrix_size(dims);
            lemma_diagonal_size(dims);
            assert(positive_dims(dims.take(dims.len() - 2)));
            lemma_suffix_product_positive(dims.take(dims.len() - 2), 0);
        }
        let source = match self.source.to_host(queue) {
            Ok(source) => source,
            Err(cause) => {
                return Err(cause);
            },
        };
        Ok(Buffer::from_vec(diagonals(source.as_ref(), self.batch, self.m)))
    }
}

/// The matrix operations.
pub trait MatrixMath: NDArrayRead {
    /// The diagonals of the matrices of this array, which must have two axes
    /// at least and as many rows as columns.
    fn diagonal(self) -> (array: Result<ArrayOp<MatDiag<Self>>, Error>)
        requires
            self.valid(),
        ensures
            array is Ok == is_square(self.dims()),
            array matches Ok(a) ==> a.valid() && a.settings() == self.settings()
                && a.dims() == self.dims().drop_last() && a.defined()
                == self.defined() && a.elements() == diagonal_output(
                self.elements(),
                self.dims().last() as int,
                size_of(self.dims().drop_last()) as int,
            ),
            array matches Err(e) ==> e is Bounds && e.cause() == message_about(
                "diagonal requires a square matrix, not shape "@,
                self.dims(),
            ),
    {
        let ndim: usize = self.ndim();
        if ndim >= 2 && self.shape()[ndim - 1] == self.shape()[ndim - 2] {
            proof {
                self.lemma_valid();
                lemma_matrix_size(self.dims());
                lemma_diagonal_size(self.dims());
                let dims = self.dims();
                let p = size_of(dims.take(ndim - 2)) as int;
                let a = dims[ndim - 2] as int;
                let b = dims[ndim - 1] as int;
                assert(positive_dims(dims.take(ndim - 2)));
                lemma_suffix_product_positive(dims.take(ndim - 2), 0);
                assert(p * a <= p * a * b) by (nonlinear_arith)
                    requires
                        p >= 1,
                        a >= 1,
                        b >= 1,
                ;
                assert(positive_dims(dims.drop_last()));
            }
            let shape = crate::shape::copy_of(
                vstd::slice::slice_subrange(self.shape(), 0, ndim - 1),
            );
            assert(shape@ =~= self.dims().drop_last());
            match MatDiag::new(self) {
                Ok(op) => Ok(ArrayOp::new(shape, op)),
                Err(cause) => Err(cause),
            }
        } else {
            Err(bounds_about("diagonal requires a square matrix, not shape ", self.shape()))
        }
    }

    /// The matrix product of this array and `other`, matrix by matrix of
    /// their batches: the shapes must allow it and give a valid shape.
    fn matmul<O: NDArrayRead<DType = Self::DType>>(self, other: O) -> (array: Result<
        ArrayOp<MatMul<Self::DType, Self, O>>,
        Error,
    >)
        requires
            self.valid(),
            other.valid(),
        ensures
            array is Ok == (matmul_compatible(self.dims(), other.dims()) && valid_shape(
                matmul_shape(self.dims(), other.dims()),
            )),
            array matches Ok(a) ==> a.valid() && a.settings() == self.settings()
                && a.dims() == matmul_shape(self.dims(), other.dims())
                && a.defined() == (self.defined() && other.defined()) && a.elements()
                == matmul_output(
                self.elements(),
                other.elements(),
                size_of(self.dims().take(self.dims().len() - 2)) as int,
                self.dims()[self.dims().len() - 2] as int,
                self.dims()[self.dims().len() - 1] as int,
                other.dims()[self.dims().len() - 1] as int,
            ),
            array matches Err(e) ==> e is Bounds && e.cause() == matmul_refusal(self.dims(), other.dims()),
    {
        let ndim: usize = self.ndim();
        if ndim < 2 || other.ndim() < 2 {
            return Err(bounds_between("invalid matrices for matmul: ", self.shape(), other.shape()));
        }
        if other.ndim() != ndim {
            return Err(
                bounds_between(
                    "matrix multiply expects the same number of dimensions but found shapes ",
                    self.shape(),
                    other.shape(),
                ),
            );
        }
        let prefix: &[usize] = vstd::slice::slice_subrange(self.shape(), 0, ndim - 2);
        let other_prefix: &[usize] = vstd::slice::slice_subrange(other.shape(), 0, ndim - 2);
        proof {
            assert(self.dims().subrange(0, ndim - 2) =~= self.dims().take(ndim - 2));
            assert(other.dims().subrange(0, ndim - 2) =~= other.dims().take(ndim - 2));
        }
        if !same_dims(prefix, other_prefix) {
            return Err(
                bounds_between(
                    "matrix multiply requires the same batch shape, not ",
                    prefix,
                    other_prefix,
                ),
            );
        }
        let a: usize = self.shape()[ndim - 2];
        let b: usize = self.shape()[ndim - 1];
        let c: usize = other.shape()[ndim - 1];
        if other.shape()[ndim - 2] != b {
            return Err(
                bounds_between(
                    "invalid dimensions for matrix multiply: ",
                    self.shape(),
                    other.shape(),
                ),
            );
        }
        let mut shape: Vec<usize> = crate::shape::copy_of(prefix);
        shape.push(a);
        shape.push(c);
        assert(shape@ =~= matmul_shape(self.dims(), other.dims()));
        if valid_size(shape.as_slice()).is_none() {
            return Err(bounds_about("matrix product too large: ", shape.as_slice()));
        }
        match MatMul::new(self, other) {
            Ok(op) => Ok(ArrayOp::new(shape, op)),
            Err(cause) => Err(cause),
        }
    }
}

impl<A: NDArrayRead> MatrixMath for A {

}

} // verus!
