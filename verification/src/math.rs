//! The operations that build deferred operators: each checks the shapes of
//! its arguments and returns an array that computes its elements when read.

use vstd::prelude::*;
use crate::array::{ArrayOp, NDArray, NDArrayRead};
use crate::dtype::{CDatatype, Negate};
use crate::error::{bounds_between, message_between, Error};
use crate::ops::{
    boolean_output, compare_output, compare_scalar_output, dual_output, gather_output, none_zero,
    scalar_output, unary_output, Abs, ArrayBoolean, ArrayCompare, ArrayCompareScalar, ArrayDual,
    ArrayScalar, ArrayUnary, BooleanOp, CompareOp, DualOp, GatherCond, Neg, Not,
};
use crate::shape::{check_shape, copy_of, same_dims, shape_mismatch};

verus! {

/// The logical connectives of two arrays of one shape, whose elements count as true unless zero.
pub trait NDArrayBoolean<O: NDArrayRead<DType = Self::DType>>: NDArrayRead {
    /// 1 where both elements are not zero, else 0.
    fn and(self, other: O) -> (array: Result<ArrayOp<ArrayBoolean<Self::DType, Self, O>>, Error>)
        requires
            self.valid(),
            other.valid(),
        ensures
            array is Ok == (self.dims() == other.dims()),
            array matches Ok(a) ==> a.valid() && a.settings() == self.settings()
                && a.dims() == self.dims() && a.defined() == (
            self.defined() && other.defined()) && a.elements() == boolean_output(
                BooleanOp::And,
                self.elements(),
                other.elements(),
            ),
            array matches Err(e) ==> e is Bounds && e.cause() == shape_mismatch(
                self.dims(),
                other.dims(),
            ),
    {
        proof {
            self.lemma_valid();
        }
        match check_shape(self.shape(), other.shape()) {
            Ok(shape) => match ArrayBoolean::new(BooleanOp::And, self, other) {
                Ok(op) => Ok(ArrayOp::new(shape, op)),
                Err(cause) => Err(cause),
            },
            Err(cause) => Err(cause),
        }
    }

    /// 1 where one of the elements is not zero, else 0.
    fn or(self, other: O) -> (array: Result<ArrayOp<ArrayBoolean<Self::DType, Self, O>>, Error>)
        requires
            self.valid(),
            other.valid(),
        ensures
            array is Ok == (self.dims() == other.dims()),
            array matches Ok(a) ==> a.valid() && a.settings() == self.settings()
                && a.dims() == self.dims() && a.defined() == (
            self.defined() && other.defined()) && a.elements() == boolean_output(
                BooleanOp::Or,
                self.elements(),
                other.elements(),
            ),
            array matches Err(e) ==> e is Bounds && e.cause() == shape_mismatch(
                self.dims(),
                other.dims(),
            ),
    {
        proof {
            self.lemma_valid();
        }
        match check_shape(self.shape(), other.shape()) {
            Ok(shape) => match ArrayBoolean::new(BooleanOp::Or, self, other) {
                Ok(op) => Ok(ArrayOp::new(shape, op)),
                Err(cause) => Err(cause),
            },
            Err(cause) => Err(cause),
        }
    }

    /// 1 where exactly one of the elements is not zero, else 0.
    fn xor(self, other: O) -> (array: Result<ArrayOp<ArrayBoolean<Self::DType, Self, O>>, Error>)
        requires
            self.valid(),
            other.valid(),
        ensures
            array is Ok == (self.dims() == other.dims()),
            array matches Ok(a) ==> a.valid() && a.settings() == self.settings()
                && a.dims() == self.dims() && a.defined() == (
            self.defined() && other.defined()) && a.elements() == boolean_output(
                BooleanOp::Xor,
                self.elements(),
                other.elements(),
            ),
            array matches Err(e) ==> e is Bounds && e.cause() == shape_mismatch(
                self.dims(),
                other.dims(),
            ),
    {
        proof {
            self.lemma_valid();
        }
        match check_shape(self.shape(), other.shape()) {
            Ok(shape) => match ArrayBoolean::new(BooleanOp::Xor, self, other) {
                Ok(op) => Ok(ArrayOp::new(shape, op)),
                Err(cause) => Err(cause),
            },
            Err(cause) => Err(cause),
        }
    }
}

impl<A: NDArrayRead, O: NDArrayRead<DType = A::DType>> NDArrayBoolean<O> for A {

}

/// The arithmetic of two arrays of one shape, element by element. It wraps
/// around at the bounds of the element type.
pub trait NDArrayMath: NDArrayRead {
    /// The sum.
    fn add<O: NDArrayRead<DType = Self::DType>>(self, other: O) -> (array: Result<ArrayOp<ArrayDual<Self::DType, Self, O>>, Error>)
        requires
            self.valid(),
            other.valid(),
        ensures
            array is Ok == (self.dims() == other.dims()),
            array matches Ok(a) ==> a.valid() && a.settings() == self.settings()
                && a.dims() == self.dims() && a.defined() == (
            self.defined() && other.defined()) && a.elements() == dual_output(
                DualOp::Add,
                self.elements(),
                other.elements(),
            ),
            array matches Err(e) ==> e is Bounds && e.cause() == shape_mismatch(
                self.dims(),
                other.dims(),
            ),
    {
        proof {
            self.lemma_valid();
        }
        match check_shape(self.shape(), other.shape()) {
            Ok(shape) => match ArrayDual::new(DualOp::Add, self, other) {
                Ok(op) => Ok(ArrayOp::new(shape, op)),
                Err(cause) => Err(cause),
            },
            Err(cause) => Err(cause),
        }
    }

    /// The quotient, rounded towards zero; it is defined where no element of `other` is zero.
    fn div<O: NDArrayRead<DType = Self::DType>>(self, other: O) -> (array: Result<ArrayOp<ArrayDual<Self::DType, Self, O>>, Error>)
        requires
            self.valid(),
            other.valid(),
        ensures
            array is Ok == (self.dims() == other.dims()),
            array matches Ok(a) ==> a.valid() && a.settings() == self.settings()
                && a.dims() == self.dims() && a.defined() == (
            self.defined() && other.defined() && none_zero(other.elements())) && a.elements() == dual_output(
                DualOp::Div,
                self.elements(),
                other.elements(),
            ),
            array matches Err(e) ==> e is Bounds && e.cause() == shape_mismatch(
                self.dims(),
                other.dims(),
            ),
    {
        proof {
            self.lemma_valid();
        }
        match check_shape(self.shape(), other.shape()) {
            Ok(shape) => match ArrayDual::new(DualOp::Div, self, other) {
                Ok(op) => Ok(ArrayOp::new(shape, op)),
                Err(cause) => Err(cause),
            },
            Err(cause) => Err(cause),
        }
    }

    /// The product.
    fn mul<O: NDArrayRead<DType = Self::DType>>(self, other: O) -> (array: Result<ArrayOp<ArrayDual<Self::DType, Self, O>>, Error>)
        requires
            self.valid(),
            other.valid(),
        ensures
            array is Ok == (self.dims() == other.dims()),
            array matches Ok(a) ==> a.valid() && a.settings() == self.settings()
                && a.dims() == self.dims() && a.defined() == (
            self.defined() && other.defined()) && a.elements() == dual_output(
                DualOp::Mul,
                self.elements(),
                other.elements(),
            ),
            array matches Err(e) ==> e is Bounds && e.cause() == shape_mismatch(
                self.dims(),
                other.dims(),
            ),
    {
        proof {
            self.lemma_valid();
        }
        match check_shape(self.shape(), other.shape()) {
            Ok(shape) => match ArrayDual::new(DualOp::Mul, self, other) {
                Ok(op) => Ok(ArrayOp::new(shape, op)),
                Err(cause) => Err(cause),
            },
            Err(cause) => Err(cause),
        }
    }

    /// The remainder of the division that rounds towards zero; it is defined where no element of `other` is zero.
    fn rem<O: NDArrayRead<DType = Self::DType>>(self, other: O) -> (array: Result<ArrayOp<ArrayDual<Self::DType, Self, O>>, Error>)
        requires
            self.valid(),
            other.valid(),
        ensures
            array is Ok == (self.dims() == other.dims()),
            array matches Ok(a) ==> a.valid() && a.settings() == self.settings()
                && a.dims() == self.dims() && a.defined() == (
            self.defined() && other.defined() && none_zero(other.elements())) && a.elements() == dual_output(
                DualOp::Rem,
                self.elements(),
                other.elements(),
            ),
            array matches Err(e) ==> e is Bounds && e.cause() == shape_mismatch(
                self.dims(),
                other.dims(),
            ),
    {
        proof {
            self.lemma_valid();
        }
        match check_shape(self.shape(), other.shape()) {
            Ok(shape) => match ArrayDual::new(DualOp::Rem, self, other) {
                Ok(op) => Ok(ArrayOp::new(shape, op)),
                Err(cause) => Err(cause),
            },
            Err(cause) => Err(cause),
        }
    }

    /// The difference.
    fn sub<O: NDArrayRead<DType = Self::DType>>(self, other: O) -> (array: Result<ArrayOp<ArrayDual<Self::DType, Self, O>>, Error>)
        requires
            self.valid(),
            other.valid(),
        ensures
            array is Ok == (self.dims() == other.dims()),
            array matches Ok(a) ==> a.valid() && a.settings() == self.settings()
                && a.dims() == self.dims() && a.defined() == (
            self.defined() && other.defined()) && a.elements() == dual_output(
                DualOp::Sub,
                self.elements(),
                other.elements(),
            ),
            array matches Err(e) ==> e is Bounds && e.cause() == shape_mismatch(
                self.dims(),
                other.dims(),
            ),
    {
        proof {
            self.lemma_valid();
        }
        match check_shape(self.shape(), other.shape()) {
            Ok(shape) => match ArrayDual::new(DualOp::Sub, self, other) {
                Ok(op) => Ok(ArrayOp::new(shape, op)),
                Err(cause) => Err(cause),
            },
            Err(cause) => Err(cause),
        }
    }
}

impl<A: NDArrayRead> NDArrayMath for A {

}

/// The arithmetic of an array and a scalar, element by element. It wraps
/// around at the bounds of the element type.
pub trait NDArrayMathScalar: NDArrayRead {
    /// The sum of each element and `other`.
    fn add_scalar(self, other: Self::DType) -> (array: Result<
        ArrayOp<ArrayScalar<Self::DType, Self>>,
        Error,
    >)
        requires
            self.valid(),
        ensures
            array matches Ok(a) && a.valid() && a.settings() == self.settings()
                && a.dims() == self.dims() && a.defined() == (
            self.defined()) && a.elements() == scalar_output(
                DualOp::Add,
                self.elements(),
                other,
            ),
    {
        proof {
            self.lemma_valid();
        }
        let shape = copy_of(self.shape());
        match ArrayScalar::new(DualOp::Add, self, other) {
            Ok(op) => Ok(ArrayOp::new(shape, op)),
            Err(cause) => Err(cause),
        }
    }

    /// The quotient of each element by `other`, rounded towards zero; it is defined unless `other` is zero.
    fn div_scalar(self, other: Self::DType) -> (array: Result<
        ArrayOp<ArrayScalar<Self::DType, Self>>,
        Error,
    >)
        requires
            self.valid(),
        ensures
            array matches Ok(a) && a.valid() && a.settings() == self.settings()
                && a.dims() == self.dims() && a.defined() == (
            self.defined() && other.value() != 0) && a.elements() == scalar_output(
                DualOp::Div,
                self.elements(),
                other,
            ),
    {
        proof {
            self.lemma_valid();
        }
        let shape = copy_of(self.shape());
        match ArrayScalar::new(DualOp::Div, self, other) {
            Ok(op) => Ok(ArrayOp::new(shape, op)),
            Err(cause) => Err(cause),
        }
    }

    /// The product of each element and `other`.
    fn mul_scalar(self, other: Self::DType) -> (array: Result<
        ArrayOp<ArrayScalar<Self::DType, Self>>,
        Error,
    >)
        requires
            self.valid(),
        ensures
            array matches Ok(a) && a.valid() && a.settings() == self.settings()
                && a.dims() == self.dims() && a.defined() == (
            self.defined()) && a.elements() == scalar_output(
                DualOp::Mul,
                self.elements(),
                other,
            ),
    {
        proof {
            self.lemma_valid();
        }
        let shape = copy_of(self.shape());
        match ArrayScalar::new(DualOp::Mul, self, other) {
            Ok(op) => Ok(ArrayOp::new(shape, op)),
            Err(cause) => Err(cause),
        }
    }

    /// The remainder of the division of each element by `other`; it is defined unless `other` is zero.
    fn rem_scalar(self, other: Self::DType) -> (array: Result<
        ArrayOp<ArrayScalar<Self::DType, Self>>,
        Error,
    >)
        requires
            self.valid(),
        ensures
            array matches Ok(a) && a.valid() && a.settings() == self.settings()
                && a.dims() == self.dims() && a.defined() == (
            self.defined() && other.value() != 0) && a.elements() == scalar_output(
                DualOp::Rem,
                self.elements(),
                other,
            ),
    {
        proof {
            self.lemma_valid();
        }
        let shape = copy_of(self.shape());
        match ArrayScalar::new(DualOp::Rem, self, other) {
            Ok(op) => Ok(ArrayOp::new(shape, op)),
            Err(cause) => Err(cause),
        }
    }

    /// The difference of each element and `other`.
    fn sub_scalar(self, other: Self::DType) -> (array: Result<
        ArrayOp<ArrayScalar<Self::DType, Self>>,
        Error,
    >)
        requires
            self.valid(),
        ensures
            array matches Ok(a) && a.valid() && a.settings() == self.settings()
                && a.dims() == self.dims() && a.defined() == (
            self.defined()) && a.elements() == scalar_output(
                DualOp::Sub,
                self.elements(),
                other,
            ),
    {
        proof {
            self.lemma_valid();
        }
        let shape = copy_of(self.shape());
        match ArrayScalar::new(DualOp::Sub, self, other) {
            Ok(op) => Ok(ArrayOp::new(shape, op)),
            Err(cause) => Err(cause),
        }
    }
}

impl<A: NDArrayRead> NDArrayMathScalar for A {

}

/// The comparisons of two arrays of one shape, element by element: 1 where the comparison holds, else 0.
pub trait NDArrayCompare<O: NDArrayRead<DType = Self::DType>>: NDArrayRead {
    /// Where the elements are equal.
    fn eq(self, other: O) -> (array: Result<ArrayOp<ArrayCompare<Self::DType, Self, O>>, Error>)
        requires
            self.valid(),
            other.valid(),
        ensures
            array is Ok == (self.dims() == other.dims()),
            array matches Ok(a) ==> a.valid() && a.settings() == self.settings()
                && a.dims() == self.dims() && a.defined() == (
            self.defined() && other.defined()) && a.elements() == compare_output(
                CompareOp::Eq,
                self.elements(),
                other.elements(),
            ),
            array matches Err(e) ==> e is Bounds && e.cause() == shape_mismatch(
                self.dims(),
                other.dims(),
            ),
    {
        proof {
            self.lemma_valid();
        }
        match check_shape(self.shape(), other.shape()) {
            Ok(shape) => match ArrayCompare::new(CompareOp::Eq, self, other) {
                Ok(op) => Ok(ArrayOp::new(shape, op)),
                Err(cause) => Err(cause),
            },
            Err(cause) => Err(cause),
        }
    }

    /// Where the element of this array is greater.
    fn gt(self, other: O) -> (array: Result<ArrayOp<ArrayCompare<Self::DType, Self, O>>, Error>)
        requires
            self.valid(),
            other.valid(),
        ensures
            array is Ok == (self.dims() == other.dims()),
            array matches Ok(a) ==> a.valid() && a.settings() == self.settings()
                && a.dims() == self.dims() && a.defined() == (
            self.defined() && other.defined()) && a.elements() == compare_output(
                CompareOp::Gt,
                self.elements(),
                other.elements(),
            ),
            array matches Err(e) ==> e is Bounds && e.cause() == shape_mismatch(
                self.dims(),
                other.dims(),
            ),
    {
        proof {
            self.lemma_valid();
        }
        match check_shape(self.shape(), other.shape()) {
            Ok(shape) => match ArrayCompare::new(CompareOp::Gt, self, other) {
                Ok(op) => Ok(ArrayOp::new(shape, op)),
                Err(cause) => Err(cause),
            },
            Err(cause) => Err(cause),
        }
    }

    /// Where the element of this array is greater or equal.
    fn ge(self, other: O) -> (array: Result<ArrayOp<ArrayCompare<Self::DType, Self, O>>, Error>)
        requires
            self.valid(),
            other.valid(),
        ensures
            array is Ok == (self.dims() == other.dims()),
            array matches Ok(a) ==> a.valid() && a.settings() == self.settings()
                && a.dims() == self.dims() && a.defined() == (
            self.defined() && other.defined()) && a.elements() == compare_output(
                CompareOp::Ge,
                self.elements(),
                other.elements(),
            ),
            array matches Err(e) ==> e is Bounds && e.cause() == shape_mismatch(
                self.dims(),
                other.dims(),
            ),
    {
        proof {
            self.lemma_valid();
        }
        match check_shape(self.shape(), other.shape()) {
            Ok(shape) => match ArrayCompare::new(CompareOp::Ge, self, other) {
                Ok(op) => Ok(ArrayOp::new(shape, op)),
                Err(cause) => Err(cause),
            },
            Err(cause) => Err(cause),
        }
    }

    /// Where the element of this array is less.
    fn lt(self, other: O) -> (array: Result<ArrayOp<ArrayCompare<Self::DType, Self, O>>, Error>)
        requires
            self.valid(),
            other.valid(),
        ensures
            array is Ok == (self.dims() == other.dims()),
            array matches Ok(a) ==> a.valid() && a.settings() == self.settings()
                && a.dims() == self.dims() && a.defined() == (
            self.defined() && other.defined()) && a.elements() == compare_output(
                CompareOp::Lt,
                self.elements(),
                other.elements(),
            ),
            array matches Err(e) ==> e is Bounds && e.cause() == shape_mismatch(
                self.dims(),
                other.dims(),
            ),
    {
        proof {
            self.lemma_valid();
        }
        match check_shape(self.shape(), other.shape()) {
            Ok(shape) => match ArrayCompare::new(CompareOp::Lt, self, other) {
                Ok(op) => Ok(ArrayOp::new(shape, op)),
                Err(cause) => Err(cause),
            },
            Err(cause) => Err(cause),
        }
    }

    /// Where the element of this array is less or equal.
    fn le(self, other: O) -> (array: Result<ArrayOp<ArrayCompare<Self::DType, Self, O>>, Error>)
        requires
            self.valid(),
            other.valid(),
        ensures
            array is Ok == (self.dims() == other.dims()),
            array matches Ok(a) ==> a.valid() && a.settings() == self.settings()
                && a.dims() == self.dims() && a.defined() == (
            self.defined() && other.defined()) && a.elements() == compare_output(
                CompareOp::Le,
                self.elements(),
                other.elements(),
            ),
            array matches Err(e) ==> e is Bounds && e.cause() == shape_mismatch(
                self.dims(),
                other.dims(),
            ),
    {
        proof {
            self.lemma_valid();
        }
        match check_shape(self.shape(), other.shape()) {
            Ok(shape) => match ArrayCompare::new(CompareOp::Le, self, other) {
                Ok(op) => Ok(ArrayOp::new(shape, op)),
                Err(cause) => Err(cause),
            },
            Err(cause) => Err(cause),
        }
    }

    /// Where the elements differ.
    fn ne(self, other: O) -> (array: Result<ArrayOp<ArrayCompare<Self::DType, Self, O>>, Error>)
        requires
            self.valid(),
            other.valid(),
        ensures
            array is Ok == (self.dims() == other.dims()),
            array matches Ok(a) ==> a.valid() && a.settings() == self.settings()
                && a.dims() == self.dims() && a.defined() == (
            self.defined() && other.defined()) && a.elements() == compare_output(
                CompareOp::Ne,
                self.elements(),
                other.elements(),
            ),
            array matches Err(e) ==> e is Bounds && e.cause() == shape_mismatch(
                self.dims(),
                other.dims(),
            ),
    {
        proof {
            self.lemma_valid();
        }
        match check_shape(self.shape(), other.shape()) {
            Ok(shape) => match ArrayCompare::new(CompareOp::Ne, self, other) {
                Ok(op) => Ok(ArrayOp::new(shape, op)),
                Err(cause) => Err(cause),
            },
            Err(cause) => Err(cause),
        }
    }
}

impl<A: NDArrayRead, O: NDArrayRead<DType = A::DType>> NDArrayCompare<O> for A {

}

/// The comparisons of each element of an array with a scalar: 1 where the comparison holds, else 0.
pub trait NDArrayCompareScalar: NDArrayRead {
    /// Where the element equals `other`.
    fn eq_scalar(self, other: Self::DType) -> (array: Result<
        ArrayOp<ArrayCompareScalar<Self::DType, Self>>,
        Error,
    >)
        requires
            self.valid(),
        ensures
            array matches Ok(a) && a.valid() && a.settings() == self.settings()
                && a.dims() == self.dims() && a.defined() == (
            self.defined()) && a.elements() == compare_scalar_output(
                CompareOp::Eq,
                self.elements(),
                other,
            ),
    {
        proof {
            self.lemma_valid();
        }
        let shape = copy_of(self.shape());
        match ArrayCompareScalar::new(CompareOp::Eq, self, other) {
            Ok(op) => Ok(ArrayOp::new(shape, op)),
            Err(cause) => Err(cause),
        }
    }

    /// Where the element is greater than `other`.
    fn gt_scalar(self, other: Self::DType) -> (array: Result<
        ArrayOp<ArrayCompareScalar<Self::DType, Self>>,
        Error,
    >)
        requires
            self.valid(),
        ensures
            array matches Ok(a) && a.valid() && a.settings() == self.settings()
                && a.dims() == self.dims() && a.defined() == (
            self.defined()) && a.elements() == compare_scalar_output(
                CompareOp::Gt,
                self.elements(),
                other,
            ),
    {
        proof {
            self.lemma_valid();
        }
        let shape = copy_of(self.shape());
        match ArrayCompareScalar::new(CompareOp::Gt, self, other) {
            Ok(op) => Ok(ArrayOp::new(shape, op)),
            Err(cause) => Err(cause),
        }
    }

    /// Where the element is greater than or equal to `other`.
    fn ge_scalar(self, other: Self::DType) -> (array: Result<
        ArrayOp<ArrayCompareScalar<Self::DType, Self>>,
        Error,
    >)
        requires
            self.valid(),
        ensures
            array matches Ok(a) && a.valid() && a.settings() == self.settings()
                && a.dims() == self.dims() && a.defined() == (
            self.defined()) && a.elements() == compare_scalar_output(
                CompareOp::Ge,
                self.elements(),
                other,
            ),
    {
        proof {
            self.lemma_valid();
        }
        let shape = copy_of(self.shape());
        match ArrayCompareScalar::new(CompareOp::Ge, self, other) {
            Ok(op) => Ok(ArrayOp::new(shape, op)),
            Err(cause) => Err(cause),
        }
    }

    /// Where the element is less than `other`.
    fn lt_scalar(self, other: Self::DType) -> (array: Result<
        ArrayOp<ArrayCompareScalar<Self::DType, Self>>,
        Error,
    >)
        requires
            self.valid(),
        ensures
            array matches Ok(a) && a.valid() && a.settings() == self.settings()
                && a.dims() == self.dims() && a.defined() == (
            self.defined()) && a.elements() == compare_scalar_output(
                CompareOp::Lt,
                self.elements(),
                other,
            ),
    {
        proof {
            self.lemma_valid();
        }
        let shape = copy_of(self.shape());
        match ArrayCompareScalar::new(CompareOp::Lt, self, other) {
            Ok(op) => Ok(ArrayOp::new(shape, op)),
            Err(cause) => Err(cause),
        }
    }

    /// Where the element is less than or equal to `other`.
    fn le_scalar(self, other: Self::DType) -> (array: Result<
        ArrayOp<ArrayCompareScalar<Self::DType, Self>>,
        Error,
    >)
        requires
            self.valid(),
        ensures
            array matches Ok(a) && a.valid() && a.settings() == self.settings()
                && a.dims() == self.dims() && a.defined() == (
            self.defined()) && a.elements() == compare_scalar_output(
                CompareOp::Le,
                self.elements(),
                other,
            ),
    {
        proof {
            self.lemma_valid();
        }
        let shape = copy_of(self.shape());
        match ArrayCompareScalar::new(CompareOp::Le, self, other) {
            Ok(op) => Ok(ArrayOp::new(shape, op)),
            Err(cause) => Err(cause),
        }
    }

    /// Where the element differs from `other`.
    fn ne_scalar(self, other: Self::DType) -> (array: Result<
        ArrayOp<ArrayCompareScalar<Self::DType, Self>>,
        Error,
    >)
        requires
            self.valid(),
        ensures
            array matches Ok(a) && a.valid() && a.settings() == self.settings()
                && a.dims() == self.dims() && a.defined() == (
            self.defined()) && a.elements() == compare_scalar_output(
                CompareOp::Ne,
                self.elements(),
                other,
            ),
    {
        proof {
            self.lemma_valid();
        }
        let shape = copy_of(self.shape());
        match ArrayCompareScalar::new(CompareOp::Ne, self, other) {
            Ok(op) => Ok(ArrayOp::new(shape, op)),
            Err(cause) => Err(cause),
        }
    }
}

impl<A: NDArrayRead> NDArrayCompareScalar for A {

}

/// The absolute value of each element.
pub trait NDArrayAbs: NDArrayRead {
    /// The absolute value of each element, which wraps around at the bounds of the element type.
    fn abs(self) -> (array: Result<ArrayOp<ArrayUnary<Abs<Self::DType>, Self>>, Error>)
        requires
            self.valid(),
        ensures
            array matches Ok(a) && a.valid() && a.settings() == self.settings()
                && a.dims() == self.dims() && a.defined()
                == self.defined() && a.elements() == unary_output::<Abs<Self::DType>>(
                self.elements(),
            ),
    {
        proof {
            self.lemma_valid();
        }
        let shape = copy_of(self.shape());
        match ArrayUnary::new(Abs::new(), self) {
            Ok(op) => Ok(ArrayOp::new(shape, op)),
            Err(cause) => Err(cause),
        }
    }
}

impl<A: NDArrayRead> NDArrayAbs for A {

}

/// The negations of each element.
pub trait NDArrayNegate: NDArrayRead {
    /// The negation of each element, in the type that the element type negates into.
    fn neg(self) -> (array: Result<ArrayOp<ArrayUnary<Neg<Self::DType>, Self>>, Error>)
        where Self::DType: Negate
        requires
            self.valid(),
        ensures
            array matches Ok(a) && a.valid() && a.settings() == self.settings()
                && a.dims() == self.dims() && a.defined()
                == self.defined() && a.elements() == unary_output::<Neg<Self::DType>>(
                self.elements(),
            ),
    {
        proof {
            self.lemma_valid();
        }
        let shape = copy_of(self.shape());
        match ArrayUnary::new(Neg::new(), self) {
            Ok(op) => Ok(ArrayOp::new(shape, op)),
            Err(cause) => Err(cause),
        }
    }

    /// 1 where the element is zero, else 0.
    fn not(self) -> (array: Result<ArrayOp<ArrayUnary<Not<Self::DType>, Self>>, Error>)
        requires
            self.valid(),
        ensures
            array matches Ok(a) && a.valid() && a.settings() == self.settings()
                && a.dims() == self.dims() && a.defined()
                == self.defined() && a.elements() == unary_output::<Not<Self::DType>>(
                self.elements(),
            ),
    {
        proof {
            self.lemma_valid();
        }
        let shape = copy_of(self.shape());
        match ArrayUnary::new(Not::new(), self) {
            Ok(op) => Ok(ArrayOp::new(shape, op)),
            Err(cause) => Err(cause),
        }
    }
}

impl<A: NDArrayRead> NDArrayNegate for A {

}

/// The choice between two arrays by the elements of this one.
pub trait NDArrayWhere: NDArrayRead<DType = u8> {
    /// The array that holds the element of `left` where the element of this
    /// array is not zero, and that of `right` where it is zero. All three
    /// must have the same shape.
    fn gather_cond<T: CDatatype, L: NDArrayRead<DType = T>, R: NDArrayRead<DType = T>>(
        self,
        left: L,
        right: R,
    ) -> (array: Result<ArrayOp<GatherCond<Self, T, L, R>>, Error>)
        requires
            self.valid(),
            left.valid(),
            right.valid(),
        ensures
            array is Ok == (self.dims() == left.dims() && self.dims() == right.dims()),
            array matches Ok(a) ==> a.valid() && a.settings() == self.settings()
                && a.dims() == self.dims() && a.defined() == (
            self.defined() && left.defined() && right.defined()) && a.elements() == gather_output(
                self.elements(),
                left.elements(),
                right.elements(),
            ),
            array matches Err(e) ==> e is Bounds && e.cause() == message_between(
                "cannot gather conditionally between shapes "@,
                left.dims(),
                right.dims(),
            ),
    {
        proof {
            self.lemma_valid();
        }
        if same_dims(self.shape(), left.shape()) && same_dims(self.shape(), right.shape()) {
            let shape = copy_of(self.shape());
            match GatherCond::new(self, left, right) {
                Ok(op) => Ok(ArrayOp::new(shape, op)),
                Err(cause) => Err(cause),
            }
        } else {
            Err(
                bounds_between(
                    "cannot gather conditionally between shapes ",
                    left.shape(),
                    right.shape(),
                ),
            )
        }
    }
}

impl<A: NDArrayRead<DType = u8>> NDArrayWhere for A {

}

} // verus!
