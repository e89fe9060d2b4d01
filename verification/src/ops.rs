//! Deferred operators: nodes that hold their inputs and compute their
//! elements when they are read.

use std::marker::PhantomData;
use vstd::prelude::*;
use vstd::string::StringExecFns;
use crate::array::{NDArray, NDArrayRead};
use crate::buffer::Buffer;
use crate::cl_programs::elementwise::{
    elementwise_boolean, elementwise_boolean_source, elementwise_cmp, elementwise_cmp_source,
    elementwise_dual, elementwise_dual_source, elementwise_scalar, elementwise_scalar_source,
    scalar_cmp, scalar_cmp_source,
};
use crate::dtype::{CDatatype, quotient, remainder, wrapped};
use crate::error::{zero_division_message, Error};
use crate::parallel::par_collect;
use crate::platform::{Context, Queue, Settings};
use crate::shape::size_of;

verus! {

/// A deferred operator: it holds its inputs and computes its output when it is
/// enqueued. The output depends on the inputs alone.
pub trait Op: Clone + Sized {
    /// The type of the elements of the output.
    type Out: CDatatype;

    /// The inputs are valid and fit together.
    spec fn valid(&self) -> bool;

    /// The number of elements of the output.
    spec fn size(&self) -> nat;

    /// The operator can be evaluated: no division in it or in its inputs meets a zero divisor.
    spec fn defined(&self) -> bool;

    /// The elements of the output in row-major order.
    spec fn output(&self) -> Seq<Self::Out>;

    /// The output of a valid operator has the size that the operator says.
    proof fn lemma_output(&self)
        requires
            self.valid(),
        ensures
            self.output().len() == self.size(),
    ;

    /// A clone is the same operator on the same inputs.
    proof fn lemma_clone(&self, copy: &Self)
        requires
            cloned(*self, *copy),
        ensures
            copy.valid() == self.valid(),
            copy.settings() == self.settings(),
            copy.size() == self.size(),
            copy.defined() == self.defined(),
            copy.output() == self.output(),
    ;

    /// What the context of the inputs is set to.
    spec fn settings(&self) -> Settings;

    /// The context of the inputs.
    fn context(&self) -> (context: &Context)
        ensures
            context.settings() == self.settings(),
    ;

    /// Computes the output.
    fn enqueue(&self, queue: &Queue) -> (buffer: Result<Buffer<Self::Out>, Error>)
        requires
            self.valid(),
        ensures
            buffer is Ok == self.defined(),
            buffer matches Ok(b) ==> b@ == self.output(),
            buffer matches Err(e) ==> e is Interface && e.cause() == zero_division_message(),
    ;
}

/// The scalar of type `T` that stands for the integer `v`.
pub open spec fn scalar<T: CDatatype>(v: int) -> T {
    choose|x: T| x.value() == v
}

/// A scalar is the scalar that stands for its value.
pub proof fn lemma_scalar<T: CDatatype>(x: T, v: int)
    requires
        x.value() == v,
    ensures
        x == scalar::<T>(v),
{
    x.lemma_unique(scalar::<T>(v));
}

/// An interface error that tells of a division by zero.
pub(crate) fn zero_division() -> (e: Error)
    ensures
        e is Interface,
        e.cause() == zero_division_message(),
{
    Error::Interface(String::from_str("division by zero"))
}

/// No element of `items` is zero.
pub open spec fn none_zero<T: CDatatype>(items: Seq<T>) -> bool {
    forall|i: int| 0 <= i < items.len() ==> (#[trigger] items[i]).value() != 0
}

/// Whether no element of `items` is zero.
pub fn has_no_zero<T: CDatatype>(items: &[T]) -> (ok: bool)
    ensures
        ok == none_zero(items@),
{
    let zero = T::zero();
    let mut i: usize = 0;
    while i < items.len()
        invariant
            i <= items@.len(),
            zero.value() == 0,
            forall|k: int| 0 <= k < i ==> (#[trigger] items@[k]).value() != 0,
        decreases items@.len() - i,
    {
        if items[i].same(zero) {
            return false;
        }
        i += 1;
    }
    true
}

/// The elementwise operations on two scalars of one type.
#[derive(Clone, Copy, Debug, PartialEq, Eq, Structural)]
pub enum DualOp {
    Add,
    Sub,
    Mul,
    Div,
    Rem,
}

impl DualOp {
    /// The operation divides by its right operand.
    pub open spec fn divides(self) -> bool {
        self == DualOp::Div || self == DualOp::Rem
    }

    /// The integer that the operation gives for two integers, before it is
    /// brought into the range of the type.
    pub open spec fn of(self, a: int, b: int) -> int {
        match self {
            DualOp::Add => a + b,
            DualOp::Sub => a - b,
            DualOp::Mul => a * b,
            DualOp::Div => quotient(a, b),
            DualOp::Rem => remainder(a, b),
        }
    }

    /// The scalar that the operation gives for two scalars.
    pub open spec fn value<T: CDatatype>(self, a: T, b: T) -> T {
        scalar::<T>(wrapped(self.of(a.value(), b.value()), T::lowest(), T::highest()))
    }

    /// The name of the function that stands for the operation in the source
    /// text of the elementwise kernels.
    pub open spec fn label(self) -> Seq<char> {
        match self {
            DualOp::Add => "add"@,
            DualOp::Sub => "sub"@,
            DualOp::Mul => "mul"@,
            DualOp::Div => "div"@,
            DualOp::Rem => "rem"@,
        }
    }

    /// The name of the function that stands for the operation in the source
    /// text of the elementwise kernels.
    pub fn name(self) -> (name: &'static str)
        ensures
            name@ == self.label(),
    {
        match self {
            DualOp::Add => "add",
            DualOp::Sub => "sub",
            DualOp::Mul => "mul",
            DualOp::Div => "div",
            DualOp::Rem => "rem",
        }
    }

    /// The source of the device kernel that applies the operation to two arrays of `T`.
    pub fn dual_source<T: CDatatype>(self) -> (source: String)
        ensures
            source@ == elementwise_dual_source(T::tag(), T::tag(), self.label(), false),
    {
        elementwise_dual::<T, T>(self.name())
    }

    /// The source of the device kernel that applies the operation to an array of `T` and a scalar.
    pub fn scalar_source<T: CDatatype>(self) -> (source: String)
        ensures
            source@ == elementwise_scalar_source(T::tag(), T::tag(), self.label(), false),
    {
        elementwise_scalar::<T, T>(self.name())
    }

    /// Applies the operation to two scalars.
    pub fn apply<T: CDatatype>(self, a: T, b: T) -> (r: T)
        requires
            self.divides() ==> b.value() != 0,
        ensures
            r == self.value(a, b),
    {
        let r = match self {
            DualOp::Add => a.add(b),
            DualOp::Sub => a.sub(b),
            DualOp::Mul => a.mul(b),
            DualOp::Div => a.div(b),
            DualOp::Rem => {
                proof {
                    lemma_remainder_in_range(a, b);
                }
                a.rem(b)
            },
        };
        proof {
            lemma_scalar(r, r.value());
        }
        r
    }
}

/// The remainder of a division of two scalars of one type lies within the type.
pub proof fn lemma_remainder_in_range<T: CDatatype>(a: T, b: T)
    requires
        b.value() != 0,
    ensures
        wrapped(remainder(a.value(), b.value()), T::lowest(), T::highest()) == remainder(
            a.value(),
            b.value(),
        ),
{
    a.lemma_range();
    b.lemma_range();
    let x = a.value();
    let y = b.value();
    let m = crate::dtype::magnitude(y);
    let r = remainder(x, y);
    vstd::arithmetic::div_mod::lemma_mod_bound(crate::dtype::magnitude(x), m);
    vstd::arithmetic::div_mod::lemma_mod_decreases(crate::dtype::magnitude(x) as nat, m as nat);
    crate::dtype::lemma_wrapped_within(r, T::lowest(), T::highest());
}

/// The elements that an operation gives for the elements of two arrays, pair by pair.
pub open spec fn dual_output<T: CDatatype>(op: DualOp, left: Seq<T>, right: Seq<T>) -> Seq<T> {
    Seq::new(left.len(), |i: int| op.value(left[i], right[i]))
}

/// Applies `op` to the elements of two buffers of one length, pair by pair, on the worker pool.
pub fn map_dual<T: CDatatype>(op: DualOp, left: &[T], right: &[T]) -> (out: Vec<T>)
    requires
        left@.len() == right@.len(),
        op.divides() ==> none_zero(right@),
    ensures
        out@ == dual_output(op, left@, right@),
{
    let out = par_collect(
        left.len(),
        |i: usize| -> (r: T)
            requires
                i < left@.len(),
                left@.len() == right@.len(),
                op.divides() ==> none_zero(right@),
            ensures
                r == op.value(left@.index(i as int), right@.index(i as int)),
            {
                op.apply(left[i], right[i])
            }
    );
    assert(out@ =~= dual_output(op, left@, right@));
    out
}

/// An elementwise operation on two arrays of one shape.
pub struct ArrayDual<T, L, R> {
    left: L,
    right: R,
    op: DualOp,
    dtype: PhantomData<T>,
}

impl<T: CDatatype, L: NDArrayRead<DType = T>, R: NDArrayRead<DType = T>> Clone for ArrayDual<
    T,
    L,
    R,
> {
    fn clone(&self) -> (copy: Self)
        ensures
            copy.valid() == self.valid(),
            copy.settings() == self.settings(),
            copy.size() == self.size(),
            copy.defined() == self.defined(),
            copy.output() == self.output(),
    {
        let left = self.left.clone();
        let right = self.right.clone();
        proof {
            self.left.lemma_clone(&left);
            self.left.lemma_clone_read(&left);
            self.right.lemma_clone(&right);
            self.right.lemma_clone_read(&right);
        }
        ArrayDual { left, right, op: self.op, dtype: PhantomData }
    }
}

impl<T: CDatatype, L: NDArrayRead<DType = T>, R: NDArrayRead<DType = T>> ArrayDual<T, L, R> {
    /// The operation `op` on `left` and `right`, which must have the same shape.
    pub fn new(op: DualOp, left: L, right: R) -> (node: Result<Self, Error>)
        requires
            left.valid(),
            right.valid(),
            left.dims() == right.dims(),
        ensures
            node matches Ok(n) && n.valid() && n.settings() == left.settings()
                && n.size() == size_of(left.dims()) && n.defined() == (
            left.defined() && right.defined() && (op.divides() ==> none_zero(right.elements())))
                && n.output() == dual_output(op, left.elements(), right.elements()),
    {
        Ok(ArrayDual { left, right, op, dtype: PhantomData })
    }

    /// The sum of `left` and `right`.
    pub fn add(left: L, right: R) -> (node: Result<Self, Error>)
        requires
            left.valid(),
            right.valid(),
            left.dims() == right.dims(),
        ensures
            node matches Ok(n) && n.valid() && n.settings() == left.settings()
                && n.size() == size_of(left.dims()) && n.defined() == (
            left.defined() && right.defined()) && n.output() == dual_output(
                DualOp::Add,
                left.elements(),
                right.elements(),
            ),
    {
        Self::new(DualOp::Add, left, right)
    }

    /// The difference of `left` and `right`.
    pub fn sub(left: L, right: R) -> (node: Result<Self, Error>)
        requires
            left.valid(),
            right.valid(),
            left.dims() == right.dims(),
        ensures
            node matches Ok(n) && n.valid() && n.settings() == left.settings()
                && n.size() == size_of(left.dims()) && n.defined() == (
            left.defined() && right.defined()) && n.output() == dual_output(
                DualOp::Sub,
                left.elements(),
                right.elements(),
            ),
    {
        Self::new(DualOp::Sub, left, right)
    }

    /// The product of `left` and `right`, element by element.
    pub fn mul(left: L, right: R) -> (node: Result<Self, Error>)
        requires
            left.valid(),
            right.valid(),
            left.dims() == right.dims(),
        ensures
            node matches Ok(n) && n.valid() && n.settings() == left.settings()
                && n.size() == size_of(left.dims()) && n.defined() == (
            left.defined() && right.defined()) && n.output() == dual_output(
                DualOp::Mul,
                left.elements(),
                right.elements(),
            ),
    {
        Self::new(DualOp::Mul, left, right)
    }

    /// The quotient of `left` by `right`, rounded towards zero. It is
    /// defined where no element of `right` is zero.
    pub fn div(left: L, right: R) -> (node: Result<Self, Error>)
        requires
            left.valid(),
            right.valid(),
            left.dims() == right.dims(),
        ensures
            node matches Ok(n) && n.valid() && n.settings() == left.settings()
                && n.size() == size_of(left.dims()) && n.defined() == (
            left.defined() && right.defined() && none_zero(right.elements())) && n.output()
                == dual_output(DualOp::Div, left.elements(), right.elements()),
    {
        Self::new(DualOp::Div, left, right)
    }

    /// The remainder of the division of `left` by `right`. It is defined
    /// where no element of `right` is zero.
    pub fn rem(left: L, right: R) -> (node: Result<Self, Error>)
        requires
            left.valid(),
            right.valid(),
            left.dims() == right.dims(),
        ensures
            node matches Ok(n) && n.valid() && n.settings() == left.settings()
                && n.size() == size_of(left.dims()) && n.defined() == (
            left.defined() && right.defined() && none_zero(right.elements())) && n.output()
                == dual_output(DualOp::Rem, left.elements(), right.elements()),
    {
        Self::new(DualOp::Rem, left, right)
    }
}

impl<T: CDatatype, L: NDArrayRead<DType = T>, R: NDArrayRead<DType = T>> Op for ArrayDual<T, L, R> {
    type Out = T;

    closed spec fn settings(&self) -> Settings {
        self.left.settings()
    }

    closed spec fn valid(&self) -> bool {
        &&& self.left.valid()
        &&& self.right.valid()
        &&& self.left.dims() == self.right.dims()
    }

    closed spec fn size(&self) -> nat {
        size_of(self.left.dims())
    }

    closed spec fn defined(&self) -> bool {
        &&& self.left.defined()
        &&& self.right.defined()
        &&& self.op.divides() ==> none_zero(self.right.elements())
    }

    closed spec fn output(&self) -> Seq<T> {
        dual_output(self.op, self.left.elements(), self.right.elements())
    }

    proof fn lemma_output(&self) {
        self.left.lemma_elements();
    }

    proof fn lemma_clone(&self, copy: &Self) {
    }

    fn context(&self) -> (context: &Context) {
        self.left.context()
    }

    fn enqueue(&self, queue: &Queue) -> (buffer: Result<Buffer<T>, Error>) {
        proof {
            self.left.lemma_elements();
            self.right.lemma_elements();
        }
        let left = match self.left.to_host(queue) {
            Ok(left) => left,
            Err(cause) => {
                return Err(cause);
            },
        };
        let right = match self.right.to_host(queue) {
            Ok(right) => right,
            Err(cause) => {
                return Err(cause);
            },
        };
        let divides: bool = match self.op {
            DualOp::Div => true,
            DualOp::Rem => true,
            _ => false,
        };
        if divides && !has_no_zero(right.as_ref()) {
            return Err(zero_division());
        }
        Ok(Buffer::from_vec(map_dual(self.op, left.as_ref(), right.as_ref())))
    }
}

/// The elements that an operation gives for the elements of an array and one scalar.
pub open spec fn scalar_output<T: CDatatype>(op: DualOp, left: Seq<T>, right: T) -> Seq<T> {
    Seq::new(left.len(), |i: int| op.value(left[i], right))
}

/// Applies `op` to each element of a buffer and to `right`, on the worker pool.
pub fn map_scalar<T: CDatatype>(op: DualOp, left: &[T], right: T) -> (out: Vec<T>)
    requires
        op.divides() ==> right.value() != 0,
    ensures
        out@ == scalar_output(op, left@, right),
{
    let out = par_collect(
        left.len(),
        |i: usize| -> (r: T)
            requires
                i < left@.len(),
                op.divides() ==> right.value() != 0,
            ensures
                r == op.value(left@.index(i as int), right),
            {
                op.apply(left[i], right)
            }
    );
    assert(out@ =~= scalar_output(op, left@, right));
    out
}

/// An elementwise operation on an array and a scalar.
pub struct ArrayScalar<T, A> {
    array: A,
    scalar: T,
    op: DualOp,
}

impl<T: CDatatype, A: NDArrayRead<DType = T>> Clone for ArrayScalar<T, A> {
    fn clone(&self) -> (copy: Self)
        ensures
            copy.valid() == self.valid(),
            copy.settings() == self.settings(),
            copy.size() == self.size(),
            copy.defined() == self.defined(),
            copy.output() == self.output(),
    {
        let array = self.array.clone();
        proof {
            self.array.lemma_clone(&array);
            self.array.lemma_clone_read(&array);
        }
        ArrayScalar { array, scalar: self.scalar, op: self.op }
    }
}

impl<T: CDatatype, A: NDArrayRead<DType = T>> ArrayScalar<T, A> {
    /// The operation `op` on each element of `array` and on `scalar`. It is
    /// defined unless it divides by a `scalar` that is zero.
    pub fn new(op: DualOp, array: A, scalar: T) -> (node: Result<Self, Error>)
        requires
            array.valid(),
        ensures
            node matches Ok(n) && n.valid() && n.settings() == array.settings()
                && n.size() == size_of(array.dims()) && n.defined() == (
            array.defined() && (op.divides() ==> scalar.value() != 0)) && n.output()
                == scalar_output(op, array.elements(), scalar),
    {
        Ok(ArrayScalar { array, scalar, op })
    }
}

impl<T: CDatatype, A: NDArrayRead<DType = T>> Op for ArrayScalar<T, A> {
    type Out = T;

    closed spec fn settings(&self) -> Settings {
        self.array.settings()
    }

    closed spec fn valid(&self) -> bool {
        self.array.valid()
    }

    closed spec fn size(&self) -> nat {
        size_of(self.array.dims())
    }

    closed spec fn defined(&self) -> bool {
        &&& self.array.defined()
        &&& self.op.divides() ==> self.scalar.value() != 0
    }

    closed spec fn output(&self) -> Seq<T> {
        scalar_output(self.op, self.array.elements(), self.scalar)
    }

    proof fn lemma_output(&self) {
        self.array.lemma_elements();
    }

    proof fn lemma_clone(&self, copy: &Self) {
    }

    fn context(&self) -> (context: &Context) {
        self.array.context()
    }

    fn enqueue(&self, queue: &Queue) -> (buffer: Result<Buffer<T>, Error>) {
        let left = match self.array.to_host(queue) {
            Ok(left) => left,
            Err(cause) => {
                return Err(cause);
            },
        };
        let divides: bool = match self.op {
            DualOp::Div => true,
            DualOp::Rem => true,
            _ => false,
        };
        if divides && self.scalar.same(T::zero()) {
            return Err(zero_division());
        }
        Ok(Buffer::from_vec(map_scalar(self.op, left.as_ref(), self.scalar)))
    }
}

/// The comparisons of two scalars.
#[derive(Clone, Copy, Debug, PartialEq, Eq, Structural)]
pub enum CompareOp {
    Eq,
    Ne,
    Lt,
    Le,
    Gt,
    Ge,
}

impl CompareOp {
    /// Whether the comparison holds of two integers.
    pub open spec fn holds(self, a: int, b: int) -> bool {
        match self {
            CompareOp::Eq => a == b,
            CompareOp::Ne => a != b,
            CompareOp::Lt => a < b,
            CompareOp::Le => a <= b,
            CompareOp::Gt => a > b,
            CompareOp::Ge => a >= b,
        }
    }

    /// 1 where the comparison holds of two scalars, else 0.
    pub open spec fn value<T: CDatatype>(self, a: T, b: T) -> u8 {
        if self.holds(a.value(), b.value()) {
            1u8
        } else {
            0u8
        }
    }

    /// The comparison as it is written in kernel source text.
    pub open spec fn sign(self) -> Seq<char> {
        match self {
            CompareOp::Eq => "=="@,
            CompareOp::Ne => "!="@,
            CompareOp::Lt => "<"@,
            CompareOp::Le => "<="@,
            CompareOp::Gt => ">"@,
            CompareOp::Ge => ">="@,
        }
    }

    /// The comparison as it is written in kernel source text.
    pub fn symbol(self) -> (symbol: &'static str)
        ensures
            symbol@ == self.sign(),
    {
        match self {
            CompareOp::Eq => "==",
            CompareOp::Ne => "!=",
            CompareOp::Lt => "<",
            CompareOp::Le => "<=",
            CompareOp::Gt => ">",
            CompareOp::Ge => ">=",
        }
    }

    /// The source of the device kernel that compares two arrays of `T`.
    pub fn compare_source<T: CDatatype>(self) -> (source: String)
        ensures
            source@ == elementwise_cmp_source(T::tag(), self.sign()),
    {
        elementwise_cmp::<T>(self.symbol())
    }

    /// The source of the device kernel that compares an array of `T` with a scalar.
    pub fn compare_scalar_source<T: CDatatype>(self) -> (source: String)
        ensures
            source@ == scalar_cmp_source(T::tag(), self.sign()),
    {
        scalar_cmp::<T>(self.symbol())
    }

    /// 1 where the comparison holds of two scalars, else 0.
    pub fn apply<T: CDatatype>(self, a: T, b: T) -> (r: u8)
        ensures
            r == self.value(a, b),
    {
        let holds: bool = match self {
            CompareOp::Eq => a.same(b),
            CompareOp::Ne => !a.same(b),
            CompareOp::Lt => a.less(b),
            CompareOp::Le => !b.less(a),
            CompareOp::Gt => b.less(a),
            CompareOp::Ge => !a.less(b),
        };
        if holds {
            1
        } else {
            0
        }
    }
}

/// What a comparison gives for the elements of two arrays, pair by pair.
pub open spec fn compare_output<T: CDatatype>(op: CompareOp, left: Seq<T>, right: Seq<T>) -> Seq<
    u8,
> {
    Seq::new(left.len(), |i: int| op.value(left[i], right[i]))
}

/// What a comparison gives for each element of an array and one scalar.
pub open spec fn compare_scalar_output<T: CDatatype>(op: CompareOp, left: Seq<T>, right: T) -> Seq<
    u8,
> {
    Seq::new(left.len(), |i: int| op.value(left[i], right))
}

/// Compares the elements of two buffers of one length, pair by pair, on the worker pool.
pub fn map_compare<T: CDatatype>(op: CompareOp, left: &[T], right: &[T]) -> (out: Vec<u8>)
    requires
        left@.len() == right@.len(),
    ensures
        out@ == compare_output(op, left@, right@),
{
    let out = par_collect(
        left.len(),
        |i: usize| -> (r: u8)
            requires
                i < left@.len(),
                left@.len() == right@.len(),
            ensures
                r == op.value(left@.index(i as int), right@.index(i as int)),
            {
                op.apply(left[i], right[i])
            }
    );
    assert(out@ =~= compare_output(op, left@, right@));
    out
}

/// Compares each element of a buffer with `right`, on the worker pool.
pub fn map_compare_scalar<T: CDatatype>(op: CompareOp, left: &[T], right: T) -> (out: Vec<u8>)
    ensures
        out@ == compare_scalar_output(op, left@, right),
{
    let out = par_collect(
        left.len(),
        |i: usize| -> (r: u8)
            requires
                i < left@.len(),
            ensures
                r == op.value(left@.index(i as int), right),
            {
                op.apply(left[i], right)
            }
    );
    assert(out@ =~= compare_scalar_output(op, left@, right));
    out
}

/// A comparison of two arrays of one shape, element by element: 1 where it holds, else 0.
pub struct ArrayCompare<T, L, R> {
    left: L,
    right: R,
    op: CompareOp,
    dtype: PhantomData<T>,
}

impl<T: CDatatype, L: NDArrayRead<DType = T>, R: NDArrayRead<DType = T>> Clone for ArrayCompare<
    T,
    L,
    R,
> {
    fn clone(&self) -> (copy: Self)
        ensures
            copy.valid() == self.valid(),
            copy.settings() == self.settings(),
            copy.size() == self.size(),
            copy.defined() == self.defined(),
            copy.output() == self.output(),
    {
        let left = self.left.clone();
        let right = self.right.clone();
        proof {
            self.left.lemma_clone(&left);
            self.left.lemma_clone_read(&left);
            self.right.lemma_clone(&right);
            self.right.lemma_clone_read(&right);
        }
        ArrayCompare { left, right, op: self.op, dtype: PhantomData }
    }
}

impl<T: CDatatype, L: NDArrayRead<DType = T>, R: NDArrayRead<DType = T>> ArrayCompare<T, L, R> {
    /// The comparison `op` of `left` and `right`, which must have the same shape.
    pub fn new(op: CompareOp, left: L, right: R) -> (node: Result<Self, Error>)
        requires
            left.valid(),
            right.valid(),
            left.dims() == right.dims(),
        ensures
            node matches Ok(n) && n.valid() && n.settings() == left.settings()
                && n.size() == size_of(left.dims()) && n.defined() == (
            left.defined() && right.defined()) && n.output() == compare_output(
                op,
                left.elements(),
                right.elements(),
            ),
    {
        Ok(ArrayCompare { left, right, op, dtype: PhantomData })
    }
}

impl<T: CDatatype, L: NDArrayRead<DType = T>, R: NDArrayRead<DType = T>> Op for ArrayCompare<
    T,
    L,
    R,
> {
    type Out = u8;

    closed spec fn settings(&self) -> Settings {
        self.left.settings()
    }

    closed spec fn valid(&self) -> bool {
        &&& self.left.valid()
        &&& self.right.valid()
        &&& self.left.dims() == self.right.dims()
    }

    closed spec fn size(&self) -> nat {
        size_of(self.left.dims())
    }

    closed spec fn defined(&self) -> bool {
        self.left.defined() && self.right.defined()
    }

    closed spec fn output(&self) -> Seq<u8> {
        compare_output(self.op, self.left.elements(), self.right.elements())
    }

    proof fn lemma_output(&self) {
        self.left.lemma_elements();
    }

    proof fn lemma_clone(&self, copy: &Self) {
    }

    fn context(&self) -> (context: &Context) {
        self.left.context()
    }

    fn enqueue(&self, queue: &Queue) -> (buffer: Result<Buffer<u8>, Error>) {
        proof {
            self.left.lemma_elements();
            self.right.lemma_elements();
        }
        let left = match self.left.to_host(queue) {
            Ok(left) => left,
            Err(cause) => {
                return Err(cause);
            },
        };
        let right = match self.right.to_host(queue) {
            Ok(right) => right,
            Err(cause) => {
                return Err(cause);
            },
        };
        Ok(Buffer::from_vec(map_compare(self.op, left.as_ref(), right.as_ref())))
    }
}

/// A comparison of each element of an array with a scalar: 1 where it holds, else 0.
pub struct ArrayCompareScalar<T, A> {
    array: A,
    scalar: T,
    op: CompareOp,
}

impl<T: CDatatype, A: NDArrayRead<DType = T>> Clone for ArrayCompareScalar<T, A> {
    fn clone(&self) -> (copy: Self)
        ensures
            copy.valid() == self.valid(),
            copy.settings() == self.settings(),
            copy.size() == self.size(),
            copy.defined() == self.defined(),
            copy.output() == self.output(),
    {
        let array = self.array.clone();
        proof {
            self.array.lemma_clone(&array);
            self.array.lemma_clone_read(&array);
        }
        ArrayCompareScalar { array, scalar: self.scalar, op: self.op }
    }
}

impl<T: CDatatype, A: NDArrayRead<DType = T>> ArrayCompareScalar<T, A> {
    /// The comparison `op` of each element of `array` with `scalar`.
    pub fn new(op: CompareOp, array: A, scalar: T) -> (node: Result<Self, Error>)
        requires
            array.valid(),
        ensures
            node matches Ok(n) && n.valid() && n.settings() == array.settings()
                && n.size() == size_of(array.dims()) && n.defined()
                == array.defined() && n.output() == compare_scalar_output(
                op,
                array.elements(),
                scalar,
            ),
    {
        Ok(ArrayCompareScalar { array, scalar, op })
    }
}

impl<T: CDatatype, A: NDArrayRead<DType = T>> Op for ArrayCompareScalar<T, A> {
    type Out = u8;

    closed spec fn settings(&self) -> Settings {
        self.array.settings()
    }

    closed spec fn valid(&self) -> bool {
        self.array.valid()
    }

    closed spec fn size(&self) -> nat {
        size_of(self.array.dims())
    }

    closed spec fn defined(&self) -> bool {
        self.array.defined()
    }

    closed spec fn output(&self) -> Seq<u8> {
        compare_scalar_output(self.op, self.array.elements(), self.scalar)
    }

    proof fn lemma_output(&self) {
        self.array.lemma_elements();
    }

    proof fn lemma_clone(&self, copy: &Self) {
    }

    fn context(&self) -> (context: &Context) {
        self.array.context()
    }

    fn enqueue(&self, queue: &Queue) -> (buffer: Result<Buffer<u8>, Error>) {
        let left = match self.array.to_host(queue) {
            Ok(left) => left,
            Err(cause) => {
                return Err(cause);
            },
        };
        Ok(Buffer::from_vec(map_compare_scalar(self.op, left.as_ref(), self.scalar)))
    }
}

/// The logical connectives of two scalars, of which each counts as true unless it is zero.
#[derive(Clone, Copy, Debug, PartialEq, Eq, Structural)]
pub enum BooleanOp {
    And,
    Or,
    Xor,
}

impl BooleanOp {
    /// What the connective gives for two truth values.
    pub open spec fn holds(self, a: bool, b: bool) -> bool {
        match self {
            BooleanOp::And => a && b,
            BooleanOp::Or => a || b,
            BooleanOp::Xor => a != b,
        }
    }

    /// 1 where the connective holds of two scalars, else 0.
    pub open spec fn value<T: CDatatype>(self, a: T, b: T) -> u8 {
        if self.holds(a.value() != 0, b.value() != 0) {
            1u8
        } else {
            0u8
        }
    }

    /// The connective as it is written in kernel source text.
    pub open spec fn sign(self) -> Seq<char> {
        match self {
            BooleanOp::And => "&&"@,
            BooleanOp::Or => "||"@,
            BooleanOp::Xor => "^"@,
        }
    }

    /// The connective as it is written in kernel source text.
    pub fn symbol(self) -> (symbol: &'static str)
        ensures
            symbol@ == self.sign(),
    {
        match self {
            BooleanOp::And => "&&",
            BooleanOp::Or => "||",
            BooleanOp::Xor => "^",
        }
    }

    /// The source of the device kernel that connects two arrays of `T`.
    pub fn boolean_source<T: CDatatype>(self) -> (source: String)
        ensures
            source@ == elementwise_boolean_source(T::tag(), self.sign()),
    {
        elementwise_boolean::<T>(self.symbol())
    }

    /// 1 where the connective holds of two scalars, else 0.
    pub fn apply<T: CDatatype>(self, a: T, b: T) -> (r: u8)
        ensures
            r == self.value(a, b),
    {
        let zero = T::zero();
        let x: bool = !a.same(zero);
        let y: bool = !b.same(zero);
        let holds: bool = match self {
            BooleanOp::And => x && y,
            BooleanOp::Or => x || y,
            BooleanOp::Xor => x != y,
        };
        if holds {
            1
        } else {
            0
        }
    }
}

/// What a connective gives for the elements of two arrays, pair by pair.
pub open spec fn boolean_output<T: CDatatype>(op: BooleanOp, left: Seq<T>, right: Seq<T>) -> Seq<
    u8,
> {
    Seq::new(left.len(), |i: int| op.value(left[i], right[i]))
}

/// Connects the elements of two buffers of one length, pair by pair, on the worker pool.
pub fn map_boolean<T: CDatatype>(op: BooleanOp, left: &[T], right: &[T]) -> (out: Vec<u8>)
    requires
        left@.len() == right@.len(),
    ensures
        out@ == boolean_output(op, left@, right@),
{
    let out = par_collect(
        left.len(),
        |i: usize| -> (r: u8)
            requires
                i < left@.len(),
                left@.len() == right@.len(),
            ensures
                r == op.value(left@.index(i as int), right@.index(i as int)),
            {
                op.apply(left[i], right[i])
            }
    );
    assert(out@ =~= boolean_output(op, left@, right@));
    out
}

/// A logical connective of two arrays of one shape, element by element: 1 where it holds, else 0.
pub struct ArrayBoolean<T, L, R> {
    left: L,
    right: R,
    op: BooleanOp,
    dtype: PhantomData<T>,
}

impl<T: CDatatype, L: NDArrayRead<DType = T>, R: NDArrayRead<DType = T>> Clone for ArrayBoolean<
    T,
    L,
    R,
> {
    fn clone(&self) -> (copy: Self)
        ensures
            copy.valid() == self.valid(),
            copy.settings() == self.settings(),
            copy.size() == self.size(),
            copy.defined() == self.defined(),
            copy.output() == self.output(),
    {
        let left = self.left.clone();
        let right = self.right.clone();
        proof {
            self.left.lemma_clone(&left);
            self.left.lemma_clone_read(&left);
            self.right.lemma_clone(&right);
            self.right.lemma_clone_read(&right);
        }
        ArrayBoolean { left, right, op: self.op, dtype: PhantomData }
    }
}

impl<T: CDatatype, L: NDArrayRead<DType = T>, R: NDArrayRead<DType = T>> ArrayBoolean<T, L, R> {
    /// The connective `op` of `left` and `right`, which must have the same shape.
    pub fn new(op: BooleanOp, left: L, right: R) -> (node: Result<Self, Error>)
        requires
            left.valid(),
            right.valid(),
            left.dims() == right.dims(),
        ensures
            node matches Ok(n) && n.valid() && n.settings() == left.settings()
                && n.size() == size_of(left.dims()) && n.defined() == (
            left.defined() && right.defined()) && n.output() == boolean_output(
                op,
                left.elements(),
                right.elements(),
            ),
    {
        Ok(ArrayBoolean { left, right, op, dtype: PhantomData })
    }
}

impl<T: CDatatype, L: NDArrayRead<DType = T>, R: NDArrayRead<DType = T>> Op for ArrayBoolean<
    T,
    L,
    R,
> {
    type Out = u8;

    closed spec fn settings(&self) -> Settings {
        self.left.settings()
    }

    closed spec fn valid(&self) -> bool {
        &&& self.left.valid()
        &&& self.right.valid()
        &&& self.left.dims() == self.right.dims()
    }

    closed spec fn size(&self) -> nat {
        size_of(self.left.dims())
    }

    closed spec fn defined(&self) -> bool {
        self.left.defined() && self.right.defined()
    }

    closed spec fn output(&self) -> Seq<u8> {
        boolean_output(self.op, self.left.elements(), self.right.elements())
    }

    proof fn lemma_output(&self) {
        self.left.lemma_elements();
    }

    proof fn lemma_clone(&self, copy: &Self) {
    }

    fn context(&self) -> (context: &Context) {
        self.left.context()
    }

    fn enqueue(&self, queue: &Queue) -> (buffer: Result<Buffer<u8>, Error>) {
        proof {
            self.left.lemma_elements();
            self.right.lemma_elements();
        }
        let left = match self.left.to_host(queue) {
            Ok(left) => left,
            Err(cause) => {
                return Err(cause);
            },
        };
        let right = match self.right.to_host(queue) {
            Ok(right) => right,
            Err(cause) => {
                return Err(cause);
            },
        };
        Ok(Buffer::from_vec(map_boolean(self.op, left.as_ref(), right.as_ref())))
    }
}

/// A function of one scalar, applied element by element.
pub trait Unary: Copy + Send + Sync {
    /// The type of the argument.
    type In: CDatatype;

    /// The type of the result.
    type Out: CDatatype;

    /// What the function gives for `x`.
    spec fn map(x: Self::In) -> Self::Out;

    /// Applies the function.
    fn apply(&self, x: Self::In) -> (y: Self::Out)
        ensures
            y == Self::map(x),
    ;
}

/// The absolute value.
pub struct Abs<T> {
    dtype: PhantomData<T>,
}

/// The negation.
pub struct Neg<T> {
    dtype: PhantomData<T>,
}

/// The logical negation: 1 for zero, else 0.
pub struct Not<T> {
    dtype: PhantomData<T>,
}

impl<T> Clone for Abs<T> {
    fn clone(&self) -> (copy: Self) {
        Abs { dtype: PhantomData }
    }
}

impl<T> Copy for Abs<T> {

}

impl<T> Clone for Neg<T> {
    fn clone(&self) -> (copy: Self) {
        Neg { dtype: PhantomData }
    }
}

impl<T> Copy for Neg<T> {

}

impl<T> Clone for Not<T> {
    fn clone(&self) -> (copy: Self) {
        Not { dtype: PhantomData }
    }
}

impl<T> Copy for Not<T> {

}

impl<T> Abs<T> {
    pub fn new() -> Self {
        Abs { dtype: PhantomData }
    }
}

impl<T> Neg<T> {
    pub fn new() -> Self {
        Neg { dtype: PhantomData }
    }
}

impl<T> Not<T> {
    pub fn new() -> Self {
        Not { dtype: PhantomData }
    }
}

impl<T: CDatatype> Unary for Abs<T> {
    type In = T;

    type Out = T;

    open spec fn map(x: T) -> T {
        scalar::<T>(wrapped(crate::dtype::magnitude(x.value()), T::lowest(), T::highest()))
    }

    fn apply(&self, x: T) -> (y: T) {
        let y = x.abs();
        proof {
            lemma_scalar(y, y.value());
        }
        y
    }
}

impl<T: crate::dtype::Negate> Unary for Neg<T> {
    type In = T;

    type Out = T::Neg;

    open spec fn map(x: T) -> T::Neg {
        scalar::<T::Neg>(
            wrapped(
                -x.value(),
                <T::Neg as CDatatype>::lowest(),
                <T::Neg as CDatatype>::highest(),
            ),
        )
    }

    fn apply(&self, x: T) -> (y: T::Neg) {
        let y = x.neg();
        proof {
            lemma_scalar(y, y.value());
        }
        y
    }
}

impl<T: CDatatype> Unary for Not<T> {
    type In = T;

    type Out = u8;

    open spec fn map(x: T) -> u8 {
        if x.value() == 0 {
            1u8
        } else {
            0u8
        }
    }

    fn apply(&self, x: T) -> (y: u8) {
        x.not()
    }
}

/// What a function gives for each element of an array.
pub open spec fn unary_output<F: Unary>(input: Seq<F::In>) -> Seq<F::Out> {
    Seq::new(input.len(), |i: int| F::map(input[i]))
}

/// Applies `f` to each element of a buffer, on the worker pool.
pub fn map_unary<F: Unary>(f: F, input: &[F::In]) -> (out: Vec<F::Out>)
    ensures
        out@ == unary_output::<F>(input@),
{
    let out = par_collect(input.len(), |i: usize| -> (r: F::Out)
        requires
            i < input@.len(),
        ensures
            r == F::map(input@.index(i as int)),
        {
            f.apply(input[i])
        });
    assert(out@ =~= unary_output::<F>(input@));
    out
}

/// A function of one scalar applied to each element of an array.
pub struct ArrayUnary<F, A> {
    array: A,
    f: F,
}

impl<F: Unary, A: NDArrayRead<DType = F::In>> Clone for ArrayUnary<F, A> {
    fn clone(&self) -> (copy: Self)
        ensures
            copy.valid() == self.valid(),
            copy.settings() == self.settings(),
            copy.size() == self.size(),
            copy.defined() == self.defined(),
            copy.output() == self.output(),
    {
        let array = self.array.clone();
        proof {
            self.array.lemma_clone(&array);
            self.array.lemma_clone_read(&array);
        }
        ArrayUnary { array, f: self.f }
    }
}

impl<F: Unary, A: NDArrayRead<DType = F::In>> ArrayUnary<F, A> {
    /// The function `f` of each element of `array`.
    pub fn new(f: F, array: A) -> (node: Result<Self, Error>)
        requires
            array.valid(),
        ensures
            node matches Ok(n) && n.valid() && n.settings() == array.settings()
                && n.size() == size_of(array.dims()) && n.defined()
                == array.defined() && n.output() == unary_output::<F>(array.elements()),
    {
        Ok(ArrayUnary { array, f })
    }
}

impl<F: Unary, A: NDArrayRead<DType = F::In>> Op for ArrayUnary<F, A> {
    type Out = F::Out;

    closed spec fn settings(&self) -> Settings {
        self.array.settings()
    }

    closed spec fn valid(&self) -> bool {
        self.array.valid()
    }

    closed spec fn size(&self) -> nat {
        size_of(self.array.dims())
    }

    closed spec fn defined(&self) -> bool {
        self.array.defined()
    }

    closed spec fn output(&self) -> Seq<F::Out> {
        unary_output::<F>(self.array.elements())
    }

    proof fn lemma_output(&self) {
        self.array.lemma_elements();
    }

    proof fn lemma_clone(&self, copy: &Self) {
    }

    fn context(&self) -> (context: &Context) {
        self.array.context()
    }

    fn enqueue(&self, queue: &Queue) -> (buffer: Result<Buffer<F::Out>, Error>) {
        let input = match self.array.to_host(queue) {
            Ok(input) => input,
            Err(cause) => {
                return Err(cause);
            },
        };
        Ok(Buffer::from_vec(map_unary(self.f, input.as_ref())))
    }
}

/// The elements chosen between two arrays by a third: where the condition is
/// not zero the element of `left`, else that of `right`.
pub open spec fn gather_output<T>(cond: Seq<u8>, left: Seq<T>, right: Seq<T>) -> Seq<T> {
    Seq::new(
        cond.len(),
        |i: int|
            if cond[i] != 0 {
                left[i]
            } else {
                right[i]
            },
    )
}

/// Chooses between the elements of two buffers by those of a third, all of one
/// length, on the worker pool.
pub fn map_gather<T: CDatatype>(cond: &[u8], left: &[T], right: &[T]) -> (out: Vec<T>)
    requires
        cond@.len() == left@.len(),
        cond@.len() == right@.len(),
    ensures
        out@ == gather_output(cond@, left@, right@),
{
    let out = par_collect(
        cond.len(),
        |i: usize| -> (r: T)
            requires
                i < cond@.len(),
                cond@.len() == left@.len(),
                cond@.len() == right@.len(),
            ensures
                r == gather_output(cond@, left@, right@).index(i as int),
            {
                if cond[i] != 0 {
                    left[i]
                } else {
                    right[i]
                }
            }
    );
    assert(out@ =~= gather_output(cond@, left@, right@));
    out
}

/// A choice between the elements of two arrays by those of a third, all of one shape.
pub struct GatherCond<C, T, L, R> {
    cond: C,
    left: L,
    right: R,
    dtype: PhantomData<T>,
}

impl<
    C: NDArrayRead<DType = u8>,
    T: CDatatype,
    L: NDArrayRead<DType = T>,
    R: NDArrayRead<DType = T>,
> Clone for GatherCond<C, T, L, R> {
    fn clone(&self) -> (copy: Self)
        ensures
            copy.valid() == self.valid(),
            copy.settings() == self.settings(),
            copy.size() == self.size(),
            copy.defined() == self.defined(),
            copy.output() == self.output(),
    {
        let cond = self.cond.clone();
        let left = self.left.clone();
        let right = self.right.clone();
        proof {
            self.cond.lemma_clone(&cond);
            self.cond.lemma_clone_read(&cond);
            self.left.lemma_clone(&left);
            self.left.lemma_clone_read(&left);
            self.right.lemma_clone(&right);
            self.right.lemma_clone_read(&right);
        }
        GatherCond { cond, left, right, dtype: PhantomData }
    }
}

impl<
    C: NDArrayRead<DType = u8>,
    T: CDatatype,
    L: NDArrayRead<DType = T>,
    R: NDArrayRead<DType = T>,
> GatherCond<C, T, L, R> {
    /// The choice by `cond` between `left` and `right`, all of one shape.
    pub fn new(cond: C, left: L, right: R) -> (node: Result<Self, Error>)
        requires
            cond.valid(),
            left.valid(),
            right.valid(),
            cond.dims() == left.dims(),
            cond.dims() == right.dims(),
        ensures
            node matches Ok(n) && n.valid() && n.settings() == cond.settings()
                && n.size() == size_of(cond.dims()) && n.defined() == (
            cond.defined() && left.defined() && right.defined()) && n.output() == gather_output(
                cond.elements(),
                left.elements(),
                right.elements(),
            ),
    {
        Ok(GatherCond { cond, left, right, dtype: PhantomData })
    }
}

impl<
    C: NDArrayRead<DType = u8>,
    T: CDatatype,
    L: NDArrayRead<DType = T>,
    R: NDArrayRead<DType = T>,
> Op for GatherCond<C, T, L, R> {
    type Out = T;

    closed spec fn settings(&self) -> Settings {
        self.cond.settings()
    }

    closed spec fn valid(&self) -> bool {
        &&& self.cond.valid()
        &&& self.left.valid()
        &&& self.right.valid()
        &&& self.cond.dims() == self.left.dims()
        &&& self.cond.dims() == self.right.dims()
    }

    closed spec fn size(&self) -> nat {
        size_of(self.cond.dims())
    }

    closed spec fn defined(&self) -> bool {
        self.cond.defined() && self.left.defined() && self.right.defined()
    }

    closed spec fn output(&self) -> Seq<T> {
        gather_output(self.cond.elements(), self.left.elements(), self.right.elements())
    }

    proof fn lemma_output(&self) {
        self.cond.lemma_elements();
    }

    proof fn lemma_clone(&self, copy: &Self) {
    }

    fn context(&self) -> (context: &Context) {
        self.cond.context()
    }

    fn enqueue(&self, queue: &Queue) -> (buffer: Result<Buffer<T>, Error>) {
        proof {
            self.cond.lemma_elements();
            self.left.lemma_elements();
            self.right.lemma_elements();
        }
        let cond = match self.cond.to_host(queue) {
            Ok(cond) => cond,
            Err(cause) => {
                return Err(cause);
            },
        };
        let left = match self.left.to_host(queue) {
            Ok(left) => left,
            Err(cause) => {
                return Err(cause);
            },
        };
        let right = match self.right.to_host(queue) {
            Ok(right) => right,
            Err(cause) => {
                return Err(cause);
            },
        };
        Ok(Buffer::from_vec(map_gather(cond.as_ref(), left.as_ref(), right.as_ref())))
    }
}

} // verus!
