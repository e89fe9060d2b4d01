//! The source text of the device kernels for the elementwise operators: one
//! template for each family of operators, filled in with the names of the
//! element types in the kernel language and with the operation.

use vstd::prelude::*;
use vstd::string::StringExecFns;
use crate::dtype::CDatatype;

verus! {

/// The remainder of `left` by `right` as the kernel language writes it: with
/// `%` for the integer types, with `fmod` for the floating-point types.
pub open spec fn remainder_text(floating: bool) -> Seq<char> {
    if floating {
        "fmod(left, right)"@
    } else {
        "left % right"@
    }
}

/// The remainder of `left` by `right` as the kernel language writes it.
pub fn remainder(floating: bool) -> (text: &'static str)
    ensures
        text@ == remainder_text(floating),
{
    if floating {
        "fmod(left, right)"
    } else {
        "left % right"
    }
}

/// The text of the `cast` kernel with the given names filled in.
pub open spec fn cast_source(itype: Seq<char>, otype: Seq<char>) -> Seq<char> {
    "\n        __kernel void cast(\n            __global const "@ + itype + "* restrict input,\n            __global "@ + otype + "* restrict output)\n        {\n            const ulong offset = get_global_id(0);\n            output[offset] = ("@ + otype + ") input[offset];\n        }\n        "@
}

/// The source of the `cast` kernel for element types and an operation given by their names in the kernel language.
pub fn cast_for(itype: &str, otype: &str) -> (source: String)
    ensures
        source@ == cast_source(itype@, otype@),
{
    let source = String::from_str("\n        __kernel void cast(\n            __global const ");
    let source = source.concat(itype);
    let source = source.concat("* restrict input,\n            __global ");
    let source = source.concat(otype);
    let source = source.concat("* restrict output)\n        {\n            const ulong offset = get_global_id(0);\n            output[offset] = (");
    let source = source.concat(otype);
    let source = source.concat(") input[offset];\n        }\n        ");
    source
}

/// The source of the kernel that converts each element of an array of `IT` to `OT`.
pub fn cast<IT: CDatatype, OT: CDatatype>() -> (source: String)
    ensures
        source@ == cast_source(IT::tag(), OT::tag()),
{
    cast_for(IT::type_str(), OT::type_str())
}

/// The text of the `elementwise_boolean` kernel with the given names filled in.
pub open spec fn elementwise_boolean_source(dtype: Seq<char>, cmp: Seq<char>) -> Seq<char> {
    "\n        __kernel void elementwise_boolean(\n            __global const "@ + dtype + "* restrict left,\n            __global const "@ + dtype + "* restrict right,\n            __global uchar* output)\n        {\n            const ulong offset = get_global_id(0);\n            const bool left_bool = left[offset] != 0;\n            const bool right_bool = right[offset] != 0;\n\n            if (left_bool "@ + cmp + " right_bool) {\n                output[offset] = 1;\n            } else {\n                output[offset] = 0;\n            }\n        }\n        "@
}

/// The source of the `elementwise_boolean` kernel for element types and an operation given by their names in the kernel language.
pub fn elementwise_boolean_for(dtype: &str, cmp: &str) -> (source: String)
    ensures
        source@ == elementwise_boolean_source(dtype@, cmp@),
{
    let source = String::from_str("\n        __kernel void elementwise_boolean(\n            __global const ");
    let source = source.concat(dtype);
    let source = source.concat("* restrict left,\n            __global const ");
    let source = source.concat(dtype);
    let source = source.concat("* restrict right,\n            __global uchar* output)\n        {\n            const ulong offset = get_global_id(0);\n            const bool left_bool = left[offset] != 0;\n            const bool right_bool = right[offset] != 0;\n\n            if (left_bool ");
    let source = source.concat(cmp);
    let source = source.concat(" right_bool) {\n                output[offset] = 1;\n            } else {\n                output[offset] = 0;\n            }\n        }\n        ");
    source
}

/// The source of the kernel that connects two arrays of `T` element by element, where `cmp` is the connective as the kernel language writes it and each element counts as true unless it is zero.
pub fn elementwise_boolean<T: CDatatype>(cmp: &str) -> (source: String)
    ensures
        source@ == elementwise_boolean_source(T::tag(), cmp@),
{
    elementwise_boolean_for(T::type_str(), cmp)
}

/// The text of the `elementwise_cmp` kernel with the given names filled in.
pub open spec fn elementwise_cmp_source(dtype: Seq<char>, cmp: Seq<char>) -> Seq<char> {
    "\n        __kernel void elementwise_cmp(\n            __global const "@ + dtype + "* restrict left,\n            __global const "@ + dtype + "* restrict right,\n            __global uchar* output)\n        {\n            const ulong offset = get_global_id(0);\n\n            if (left[offset] "@ + cmp + " right[offset]) {\n                output[offset] = 1;\n            } else {\n                output[offset] = 0;\n            }\n        }\n        "@
}

/// The source of the `elementwise_cmp` kernel for element types and an operation given by their names in the kernel language.
pub fn elementwise_cmp_for(dtype: &str, cmp: &str) -> (source: String)
    ensures
        source@ == elementwise_cmp_source(dtype@, cmp@),
{
    let source = String::from_str("\n        __kernel void elementwise_cmp(\n            __global const ");
    let source = source.concat(dtype);
    let source = source.concat("* restrict left,\n            __global const ");
    let source = source.concat(dtype);
    let source = source.concat("* restrict right,\n            __global uchar* output)\n        {\n            const ulong offset = get_global_id(0);\n\n            if (left[offset] ");
    let source = source.concat(cmp);
    let source = source.concat(" right[offset]) {\n                output[offset] = 1;\n            } else {\n                output[offset] = 0;\n            }\n        }\n        ");
    source
}

/// The source of the kernel that compares two arrays of `T` element by element, where `cmp` is the comparison as the kernel language writes it.
pub fn elementwise_cmp<T: CDatatype>(cmp: &str) -> (source: String)
    ensures
        source@ == elementwise_cmp_source(T::tag(), cmp@),
{
    elementwise_cmp_for(T::type_str(), cmp)
}

/// The text of the `elementwise_dual` kernel with the given names filled in.
pub open spec fn elementwise_dual_source(ltype: Seq<char>, rtype: Seq<char>, op: Seq<char>, floating: bool) -> Seq<char> {
    "\n        inline "@ + ltype + " add(const "@ + ltype + " left, const "@ + rtype + " right) {\n            return left + right;\n        }\n\n        inline "@ + ltype + " log_(const "@ + ltype + " left, const double right) {\n            return log((double) left) / log(right);\n        }\n\n        inline "@ + ltype + " div(const "@ + ltype + " left, const "@ + rtype + " right) {\n            return left / right;\n        }\n\n        inline "@ + ltype + " mul(const "@ + ltype + " left, const "@ + rtype + " right) {\n            return left * right;\n        }\n\n        inline "@ + ltype + " pow_(const "@ + ltype + " left, const double right) {\n            return pow((double) left, right);\n        }\n\n        inline "@ + ltype + " rem(const "@ + ltype + " left, const "@ + rtype + " right) {\n            return "@ + remainder_text(floating) + ";\n        }\n\n        inline "@ + ltype + " sub(const "@ + ltype + " left, const "@ + rtype + " right) {\n            return left - right;\n        }\n\n        __kernel void elementwise_dual(\n            __global const "@ + ltype + "* restrict left,\n            __global const "@ + rtype + "* restrict right,\n            __global "@ + ltype + "* restrict output)\n        {\n            const ulong offset = get_global_id(0);\n            output[offset] = "@ + op + "(left[offset], right[offset]);\n        }\n        "@
}

/// The source of the `elementwise_dual` kernel for element types and an operation given by their names in the kernel language.
pub fn elementwise_dual_for(ltype: &str, rtype: &str, op: &str, floating: bool) -> (source: String)
    ensures
        source@ == elementwise_dual_source(ltype@, rtype@, op@, floating),
{
    let source = String::from_str("\n        inline ");
    let source = source.concat(ltype);
    let source = source.concat(" add(const ");
    let source = source.concat(ltype);
    let source = source.concat(" left, const ");
    let source = source.concat(rtype);
    let source = source.concat(" right) {\n            return left + right;\n        }\n\n        inline ");
    let source = source.concat(ltype);
    let source = source.concat(" log_(const ");
    let source = source.concat(ltype);
    let source = source.concat(" left, const double right) {\n            return log((double) left) / log(right);\n        }\n\n        inline ");
    let source = source.concat(ltype);
    let source = source.concat(" div(const ");
    let source = source.concat(ltype);
    let source = source.concat(" left, const ");
    let source = source.concat(rtype);
    let source = source.concat(" right) {\n            return left / right;\n        }\n\n        inline ");
    let source = source.concat(ltype);
    let source = source.concat(" mul(const ");
    let source = source.concat(ltype);
    let source = source.concat(" left, const ");
    let source = source.concat(rtype);
    let source = source.concat(" right) {\n            return left * right;\n        }\n\n        inline ");
    let source = source.concat(ltype);
    let source = source.concat(" pow_(const ");
    let source = source.concat(ltype);
    let source = source.concat(" left, const double right) {\n            return pow((double) left, right);\n        }\n\n        inline ");
    let source = source.concat(ltype);
    let source = source.concat(" rem(const ");
    let source = source.concat(ltype);
    let source = source.concat(" left, const ");
    let source = source.concat(rtype);
    let source = source.concat(" right) {\n            return ");
    let source = source.concat(remainder(floating));
    let source = source.concat(";\n        }\n\n        inline ");
    let source = source.concat(ltype);
    let source = source.concat(" sub(const ");
    let source = source.concat(ltype);
    let source = source.concat(" left, const ");
    let source = source.concat(rtype);
    let source = source.concat(" right) {\n            return left - right;\n        }\n\n        __kernel void elementwise_dual(\n            __global const ");
    let source = source.concat(ltype);
    let source = source.concat("* restrict left,\n            __global const ");
    let source = source.concat(rtype);
    let source = source.concat("* restrict right,\n            __global ");
    let source = source.concat(ltype);
    let source = source.concat("* restrict output)\n        {\n            const ulong offset = get_global_id(0);\n            output[offset] = ");
    let source = source.concat(op);
    let source = source.concat("(left[offset], right[offset]);\n        }\n        ");
    source
}

/// The source of the kernel that applies the operation named `op`, one of `add`, `sub`, `mul`, `div` and `rem`, to an array of `LT` and an array of `RT`, element by element.
pub fn elementwise_dual<LT: CDatatype, RT: CDatatype>(op: &str) -> (source: String)
    ensures
        source@ == elementwise_dual_source(LT::tag(), RT::tag(), op@, false),
{
    elementwise_dual_for(LT::type_str(), RT::type_str(), op, false)
}

/// The text of the `elementwise_scalar` kernel with the given names filled in.
pub open spec fn elementwise_scalar_source(otype: Seq<char>, itype: Seq<char>, op: Seq<char>, floating: bool) -> Seq<char> {
    "\n        inline "@ + otype + " add(const "@ + otype + " left, const "@ + itype + " right) {\n            return left + right;\n        }\n\n        inline "@ + otype + " div(const "@ + otype + " left, const "@ + itype + " right) {\n            return left / right;\n        }\n\n        inline "@ + otype + " mul(const "@ + otype + " left, const "@ + itype + " right) {\n            return left * right;\n        }\n\n        inline "@ + otype + " pow_(const "@ + otype + " left, const double right) {\n            return pow((double) left, right);\n        }\n\n        inline "@ + otype + " rem(const "@ + otype + " left, const "@ + itype + " right) {\n            return "@ + remainder_text(floating) + ";\n        }\n\n        inline "@ + otype + " sub(const "@ + otype + " left, const "@ + itype + " right) {\n            return left - right;\n        }\n\n        __kernel void elementwise_scalar(\n            __global const "@ + otype + "* left,\n            const "@ + itype + " right,\n            __global "@ + otype + "* output)\n        {\n            const ulong offset = get_global_id(0);\n            output[offset] = "@ + op + "(left[offset], right);\n        }\n        "@
}

/// The source of the `elementwise_scalar` kernel for element types and an operation given by their names in the kernel language.
pub fn elementwise_scalar_for(otype: &str, itype: &str, op: &str, floating: bool) -> (source: String)
    ensures
        source@ == elementwise_scalar_source(otype@, itype@, op@, floating),
{
    let source = String::from_str("\n        inline ");
    let source = source.concat(otype);
    let source = source.concat(" add(const ");
    let source = source.concat(otype);
    let source = source.concat(" left, const ");
    let source = source.concat(itype);
    let source = source.concat(" right) {\n            return left + right;\n        }\n\n        inline ");
    let source = source.concat(otype);
    let source = source.concat(" div(const ");
    let source = source.concat(otype);
    let source = source.concat(" left, const ");
    let source = source.concat(itype);
    let source = source.concat(" right) {\n            return left / right;\n        }\n\n        inline ");
    let source = source.concat(otype);
    let source = source.concat(" mul(const ");
    let source = source.concat(otype);
    let source = source.concat(" left, const ");
    let source = source.concat(itype);
    let source = source.concat(" right) {\n            return left * right;\n        }\n\n        inline ");
    let source = source.concat(otype);
    let source = source.concat(" pow_(const ");
    let source = source.concat(otype);
    let source = source.concat(" left, const double right) {\n            return pow((double) left, right);\n        }\n\n        inline ");
    let source = source.concat(otype);
    let source = source.concat(" rem(const ");
    let source = source.concat(otype);
    let source = source.concat(" left, const ");
    let source = source.concat(itype);
    let source = source.concat(" right) {\n            return ");
    let source = source.concat(remainder(floating));
    let source = source.concat(";\n        }\n\n        inline ");
    let source = source.concat(otype);
    let source = source.concat(" sub(const ");
    let source = source.concat(otype);
    let source = source.concat(" left, const ");
    let source = source.concat(itype);
    let source = source.concat(" right) {\n            return left - right;\n        }\n\n        __kernel void elementwise_scalar(\n            __global const ");
    let source = source.concat(otype);
    let source = source.concat("* left,\n            const ");
    let source = source.concat(itype);
    let source = source.concat(" right,\n            __global ");
    let source = source.concat(otype);
    let source = source.concat("* output)\n        {\n            const ulong offset = get_global_id(0);\n            output[offset] = ");
    let source = source.concat(op);
    let source = source.concat("(left[offset], right);\n        }\n        ");
    source
}

/// The source of the kernel that applies the operation named `op`, one of `add`, `sub`, `mul`, `div` and `rem`, to each element of an array of `OT` and to a scalar of `IT`.
pub fn elementwise_scalar<IT: CDatatype, OT: CDatatype>(op: &str) -> (source: String)
    ensures
        source@ == elementwise_scalar_source(OT::tag(), IT::tag(), op@, false),
{
    elementwise_scalar_for(OT::type_str(), IT::type_str(), op, false)
}

/// The text of the `scalar_cmp` kernel with the given names filled in.
pub open spec fn scalar_cmp_source(dtype: Seq<char>, cmp: Seq<char>) -> Seq<char> {
    "\n        __kernel void scalar_cmp(\n            __global const "@ + dtype + "* input,\n            const "@ + dtype + " right,\n            __global uchar* output)\n        {\n            const ulong offset = get_global_id(0);\n            if (input[offset] "@ + cmp + " right) {\n                output[offset] = 1;\n            } else {\n                output[offset] = 0;\n            }\n        }\n        "@
}

/// The source of the `scalar_cmp` kernel for element types and an operation given by their names in the kernel language.
pub fn scalar_cmp_for(dtype: &str, cmp: &str) -> (source: String)
    ensures
        source@ == scalar_cmp_source(dtype@, cmp@),
{
    let source = String::from_str("\n        __kernel void scalar_cmp(\n            __global const ");
    let source = source.concat(dtype);
    let source = source.concat("* input,\n            const ");
    let source = source.concat(dtype);
    let source = source.concat(" right,\n            __global uchar* output)\n        {\n            const ulong offset = get_global_id(0);\n            if (input[offset] ");
    let source = source.concat(cmp);
    let source = source.concat(" right) {\n                output[offset] = 1;\n            } else {\n                output[offset] = 0;\n            }\n        }\n        ");
    source
}

/// The source of the kernel that compares each element of an array of `T` with a scalar, where `cmp` is the comparison as the kernel language writes it.
pub fn scalar_cmp<T: CDatatype>(cmp: &str) -> (source: String)
    ensures
        source@ == scalar_cmp_source(T::tag(), cmp@),
{
    scalar_cmp_for(T::type_str(), cmp)
}

/// The text of the `unary` kernel with the given names filled in.
pub open spec fn unary_source(itype: Seq<char>, otype: Seq<char>, op: Seq<char>) -> Seq<char> {
    "\n        __kernel void unary(__global const "@ + itype + "* input, __global "@ + otype + "* output) {\n            const ulong offset = get_global_id(0);\n            output[offset] = "@ + op + "(input[offset]);\n        }\n        "@
}

/// The source of the `unary` kernel for element types and an operation given by their names in the kernel language.
pub fn unary_for(itype: &str, otype: &str, op: &str) -> (source: String)
    ensures
        source@ == unary_source(itype@, otype@, op@),
{
    let source = String::from_str("\n        __kernel void unary(__global const ");
    let source = source.concat(itype);
    let source = source.concat("* input, __global ");
    let source = source.concat(otype);
    let source = source.concat("* output) {\n            const ulong offset = get_global_id(0);\n            output[offset] = ");
    let source = source.concat(op);
    let source = source.concat("(input[offset]);\n        }\n        ");
    source
}

/// The source of the kernel that applies the function named `op` to each element of an array of `IT` and stores what it gives as `OT`.
pub fn unary<IT: CDatatype, OT: CDatatype>(op: &str) -> (source: String)
    ensures
        source@ == unary_source(IT::tag(), OT::tag(), op@),
{
    unary_for(IT::type_str(), OT::type_str(), op)
}

} // verus!
