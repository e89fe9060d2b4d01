//! The source text of the device kernels.

pub mod elementwise;

pub use elementwise::{
    cast, cast_for, elementwise_boolean, elementwise_boolean_for, elementwise_cmp,
    elementwise_cmp_for, elementwise_dual, elementwise_dual_for, elementwise_scalar,
    elementwise_scalar_for, scalar_cmp, scalar_cmp_for, unary, unary_for,
};
