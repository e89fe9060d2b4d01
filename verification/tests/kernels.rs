use ha_ndarray::cl_programs::{
    cast, elementwise_boolean, elementwise_cmp, elementwise_dual, elementwise_scalar, scalar_cmp,
    unary,
};
use ha_ndarray::cl_programs::{elementwise_dual_for, elementwise_scalar_for};
use ha_ndarray::dtype::CDatatype;
use ha_ndarray::ops::{BooleanOp, CompareOp, DualOp};

#[test]
fn type_tags() {
    assert_eq!(<u8 as CDatatype>::type_str(), "uchar");
    assert_eq!(<u16 as CDatatype>::type_str(), "ushort");
    assert_eq!(<u32 as CDatatype>::type_str(), "uint");
    assert_eq!(<u64 as CDatatype>::type_str(), "ulong");
    assert_eq!(<i8 as CDatatype>::type_str(), "char");
    assert_eq!(<i16 as CDatatype>::type_str(), "short");
    assert_eq!(<i32 as CDatatype>::type_str(), "int");
    assert_eq!(<i64 as CDatatype>::type_str(), "long");
}

#[test]
fn unary_kernel_source() {
    let expected = "
        __kernel void unary(__global const int* input, __global uchar* output) {
            const ulong offset = get_global_id(0);
            output[offset] = !(input[offset]);
        }
        ";
    assert_eq!(unary::<i32, u8>("!"), expected);
}

#[test]
fn cast_kernel_source() {
    let expected = "
        __kernel void cast(
            __global const uchar* restrict input,
            __global long* restrict output)
        {
            const ulong offset = get_global_id(0);
            output[offset] = (long) input[offset];
        }
        ";
    assert_eq!(cast::<u8, i64>(), expected);
}

#[test]
fn comparison_kernel_sources() {
    let cmp = elementwise_cmp::<u16>("<=");
    assert!(cmp.contains("__kernel void elementwise_cmp("));
    assert!(cmp.contains("__global const ushort* restrict left,"));
    assert!(cmp.contains("if (left[offset] <= right[offset]) {"));
    let scalar = scalar_cmp::<i8>("!=");
    assert!(scalar.contains("__kernel void scalar_cmp("));
    assert!(scalar.contains("const char right,"));
    assert!(scalar.contains("if (input[offset] != right) {"));
    let boolean = elementwise_boolean::<u32>("&&");
    assert!(boolean.contains("__kernel void elementwise_boolean("));
    assert!(boolean.contains("if (left_bool && right_bool) {"));
}

#[test]
fn arithmetic_kernel_sources() {
    let dual = elementwise_dual::<i32, i32>("add");
    assert!(dual.contains("inline int add(const int left, const int right) {"));
    assert!(dual.contains("__kernel void elementwise_dual("));
    assert!(dual.contains("output[offset] = add(left[offset], right[offset]);"));
    let scalar = elementwise_scalar::<u8, u64>("mul");
    assert!(scalar.contains("inline ulong mul(const ulong left, const uchar right) {"));
    assert!(scalar.contains("__kernel void elementwise_scalar("));
    assert!(scalar.contains("output[offset] = mul(left[offset], right);"));
}

#[test]
fn every_dual_operation_has_a_function_in_its_kernel() {
    for op in [DualOp::Add, DualOp::Sub, DualOp::Mul, DualOp::Div, DualOp::Rem] {
        let dual = op.dual_source::<i32>();
        let header = format!("inline int {}(const int left, const int right) {{", op.name());
        assert!(dual.contains(&header));
        let call = format!("output[offset] = {}(left[offset], right[offset]);", op.name());
        assert!(dual.contains(&call));
        let scalar = op.scalar_source::<u16>();
        let header = format!("inline ushort {}(const ushort left, const ushort right) {{", op.name());
        assert!(scalar.contains(&header));
        let call = format!("output[offset] = {}(left[offset], right);", op.name());
        assert!(scalar.contains(&call));
    }
}

#[test]
fn remainder_kernel_text() {
    let dual = elementwise_dual::<i64, i64>("rem");
    assert!(dual.contains(
        "inline long rem(const long left, const long right) {\n            return left % right;\n        }"
    ));
    let floating = elementwise_dual_for("float", "float", "rem", true);
    assert!(floating.contains(
        "inline float rem(const float left, const float right) {\n            return fmod(left, right);\n        }"
    ));
    let scalar = elementwise_scalar_for("double", "double", "rem", true);
    assert!(scalar.contains("return fmod(left, right);"));
    assert!(elementwise_scalar::<u8, u8>("rem").contains("return left % right;"));
}

#[test]
fn comparison_and_connective_kernels_of_the_operators() {
    assert!(CompareOp::Ge.compare_source::<i8>().contains("if (left[offset] >= right[offset]) {"));
    assert!(CompareOp::Lt.compare_scalar_source::<u32>().contains("if (input[offset] < right) {"));
    assert!(BooleanOp::Xor.boolean_source::<u8>().contains("if (left_bool ^ right_bool) {"));
}
