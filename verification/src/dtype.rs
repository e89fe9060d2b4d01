//! The scalar types that an array can hold: what each must provide, and the
//! integer types that do. Arithmetic wraps around at the bounds of the type.

use vstd::prelude::*;

verus! {

/// `v` brought into the range `lo..=hi` by adding or taking away a multiple of the size of the range.
pub open spec fn wrapped(v: int, lo: int, hi: int) -> int {
    lo + (v - lo) % (hi - lo + 1)
}

/// The absolute value of an integer.
pub open spec fn magnitude(v: int) -> int {
    if v < 0 {
        -v
    } else {
        v
    }
}

/// The quotient of an integer division that rounds towards zero.
pub open spec fn quotient(a: int, b: int) -> int {
    if (a < 0) == (b < 0) {
        magnitude(a) / magnitude(b)
    } else {
        -(magnitude(a) / magnitude(b))
    }
}

/// The remainder of an integer division that rounds towards zero: it has the sign of the dividend.
pub open spec fn remainder(a: int, b: int) -> int {
    if a < 0 {
        -(magnitude(a) % magnitude(b))
    } else {
        magnitude(a) % magnitude(b)
    }
}

/// What an integer wraps to lies within the range.
pub proof fn lemma_wrapped_range(v: int, lo: int, hi: int)
    requires
        lo <= hi,
    ensures
        lo <= wrapped(v, lo, hi) <= hi,
{
    vstd::arithmetic::div_mod::lemma_mod_bound(v - lo, hi - lo + 1);
}

/// An integer within the range wraps to itself.
pub proof fn lemma_wrapped_within(v: int, lo: int, hi: int)
    requires
        lo <= v <= hi,
    ensures
        wrapped(v, lo, hi) == v,
{
    vstd::arithmetic::div_mod::lemma_small_mod((v - lo) as nat, (hi - lo + 1) as nat);
}

/// Integers that differ by a multiple of the size of the range wrap to the same.
pub proof fn lemma_wrapped_congruent(v: int, k: int, lo: int, hi: int)
    requires
        lo <= hi,
    ensures
        wrapped(v + k * (hi - lo + 1), lo, hi) == wrapped(v, lo, hi),
{
    let m = hi - lo + 1;
    vstd::arithmetic::div_mod::lemma_mod_multiples_vanish(k, v - lo, m);
    assert(m * k + (v - lo) == v + k * m - lo) by (nonlinear_arith);
}

/// What an integer wraps to differs from it by a multiple of the size of the range.
pub proof fn lemma_wrapped_offset(v: int, lo: int, hi: int) -> (k: int)
    requires
        lo <= hi,
    ensures
        wrapped(v, lo, hi) == v + k * (hi - lo + 1),
{
    let m = hi - lo + 1;
    let q = (v - lo) / m;
    vstd::arithmetic::div_mod::lemma_fundamental_div_mod(v - lo, m);
    assert(m * q == q * m) by (nonlinear_arith);
    assert((-q) * m == -(q * m)) by (nonlinear_arith);
    -q
}

/// Wrapping a term of a sum beforehand does not change what the sum wraps to.
pub proof fn lemma_wrapped_add(a: int, b: int, lo: int, hi: int)
    requires
        lo <= hi,
    ensures
        wrapped(wrapped(a, lo, hi) + b, lo, hi) == wrapped(a + b, lo, hi),
        wrapped(a + wrapped(b, lo, hi), lo, hi) == wrapped(a + b, lo, hi),
{
    let ka = lemma_wrapped_offset(a, lo, hi);
    let kb = lemma_wrapped_offset(b, lo, hi);
    lemma_wrapped_congruent(a + b, ka, lo, hi);
    lemma_wrapped_congruent(a + b, kb, lo, hi);
}

/// Wrapping a factor of a product beforehand does not change what the product wraps to.
pub proof fn lemma_wrapped_mul(a: int, b: int, lo: int, hi: int)
    requires
        lo <= hi,
    ensures
        wrapped(wrapped(a, lo, hi) * b, lo, hi) == wrapped(a * b, lo, hi),
        wrapped(a * wrapped(b, lo, hi), lo, hi) == wrapped(a * b, lo, hi),
{
    let m = hi - lo + 1;
    let ka = lemma_wrapped_offset(a, lo, hi);
    let kb = lemma_wrapped_offset(b, lo, hi);
    assert((a + ka * m) * b == a * b + (ka * b) * m) by (nonlinear_arith);
    assert(a * (b + kb * m) == a * b + (a * kb) * m) by (nonlinear_arith);
    lemma_wrapped_congruent(a * b, ka * b, lo, hi);
    lemma_wrapped_congruent(a * b, a * kb, lo, hi);
}

/// A scalar type of array elements. Each value stands for an integer, its
/// `value`, between the `lowest` and the `highest` of the type, and the
/// arithmetic of the type is integer arithmetic that wraps around at those bounds.
pub trait CDatatype: Copy + Send + Sync + Sized {
    /// The integer that this scalar stands for.
    spec fn value(self) -> int;

    /// The least value of the type.
    spec fn lowest() -> int;

    /// The greatest value of the type.
    spec fn highest() -> int;

    /// Every value lies within the bounds of the type, which hold 0 and 1.
    proof fn lemma_range(self)
        ensures
            Self::lowest() <= self.value() <= Self::highest(),
            Self::lowest() <= 0,
            1 <= Self::highest(),
    ;

    /// Every integer within the bounds of the type is the value of a scalar.
    proof fn lemma_onto(v: int)
        requires
            Self::lowest() <= v <= Self::highest(),
        ensures
            exists|x: Self| x.value() == v,
    ;

    /// Two scalars that stand for the same integer are the same scalar.
    proof fn lemma_unique(self, other: Self)
        requires
            self.value() == other.value(),
        ensures
            self == other,
    ;

    /// The name of this type in kernel source text, as a mathematical value.
    spec fn tag() -> Seq<char>;

    /// The name of this type in kernel source text.
    fn type_str() -> (tag: &'static str)
        ensures
            tag@ == Self::tag(),
    ;

    /// The greatest value of the type.
    fn max() -> (r: Self)
        ensures
            r.value() == Self::highest(),
    ;

    /// The least value of the type.
    fn min() -> (r: Self)
        ensures
            r.value() == Self::lowest(),
    ;

    /// The multiplicative identity.
    fn one() -> (r: Self)
        ensures
            r.value() == 1,
    ;

    /// The additive identity.
    fn zero() -> (r: Self)
        ensures
            r.value() == 0,
    ;

    /// The absolute value.
    fn abs(self) -> (r: Self)
        ensures
            r.value() == wrapped(magnitude(self.value()), Self::lowest(), Self::highest()),
    ;

    /// 1 if this scalar is zero, else 0.
    fn not(self) -> (r: u8)
        ensures
            r == (if self.value() == 0 {
                1u8
            } else {
                0u8
            }),
    ;

    /// The sum.
    fn add(self, rhs: Self) -> (r: Self)
        ensures
            r.value() == wrapped(self.value() + rhs.value(), Self::lowest(), Self::highest()),
    ;

    /// The difference.
    fn sub(self, rhs: Self) -> (r: Self)
        ensures
            r.value() == wrapped(self.value() - rhs.value(), Self::lowest(), Self::highest()),
    ;

    /// The product.
    fn mul(self, rhs: Self) -> (r: Self)
        ensures
            r.value() == wrapped(self.value() * rhs.value(), Self::lowest(), Self::highest()),
    ;

    /// The quotient, rounded towards zero.
    fn div(self, rhs: Self) -> (r: Self)
        requires
            rhs.value() != 0,
        ensures
            r.value() == wrapped(
                quotient(self.value(), rhs.value()),
                Self::lowest(),
                Self::highest(),
            ),
    ;

    /// The remainder of the division that rounds towards zero.
    fn rem(self, rhs: Self) -> (r: Self)
        requires
            rhs.value() != 0,
        ensures
            r.value() == remainder(self.value(), rhs.value()),
    ;

    /// Whether the two scalars are equal.
    fn same(self, other: Self) -> (r: bool)
        ensures
            r == (self.value() == other.value()),
    ;

    /// Whether this scalar is less than the other.
    fn less(self, other: Self) -> (r: bool)
        ensures
            r == (self.value() < other.value()),
    ;
}

/// A scalar type with a negation, whose result may be of another type: an
/// unsigned type negates into the signed type of the same width.
pub trait Negate: CDatatype {
    /// The type of the negation.
    type Neg: CDatatype;

    /// The negation.
    fn neg(self) -> (r: Self::Neg)
        ensures
            r.value() == wrapped(
                -self.value(),
                <Self::Neg as CDatatype>::lowest(),
                <Self::Neg as CDatatype>::highest(),
            ),
    ;
}

impl CDatatype for u8 {
    open spec fn value(self) -> int {
        self as int
    }

    open spec fn lowest() -> int {
        0
    }

    open spec fn highest() -> int {
        255
    }

    proof fn lemma_range(self) {
    }

    proof fn lemma_onto(v: int) {
        assert((v as u8).value() == v);
    }

    proof fn lemma_unique(self, other: Self) {
    }

    open spec fn tag() -> Seq<char> {
        "uchar"@
    }

    fn type_str() -> (tag: &'static str) {
        "uchar"
    }

    fn max() -> (r: Self) {
        u8::MAX
    }

    fn min() -> (r: Self) {
        u8::MIN
    }

    fn one() -> (r: Self) {
        1
    }

    fn zero() -> (r: Self) {
        0
    }

    fn abs(self) -> (r: Self) {
        proof {
            assert(wrapped(magnitude(self as int), 0, 255) == 0 + ((magnitude(self as int)) - (0)) % 0x100int);
        }
        self
    }

    fn not(self) -> (r: u8) {
        if self == 0 {
            1
        } else {
            0
        }
    }

    fn add(self, rhs: Self) -> (r: Self) {
        proof {
            assert(wrapped(self as int + rhs as int, 0, 255) == 0 + ((self as int + rhs as int) - (0)) % 0x100int);
        }
        self.wrapping_add(rhs)
    }

    fn sub(self, rhs: Self) -> (r: Self) {
        proof {
            assert(wrapped(self as int - rhs as int, 0, 255) == 0 + ((self as int - rhs as int) - (0)) % 0x100int);
        }
        self.wrapping_sub(rhs)
    }

    fn mul(self, rhs: Self) -> (r: Self) {
        proof {
            assert(wrapped((self as int) * (rhs as int), 0, 255) == 0 + (((self as int) * (rhs as int)) - (0)) % 0x100int);
        }
        self.wrapping_mul(rhs)
    }

    fn div(self, rhs: Self) -> (r: Self) {
        proof {
            assert(wrapped(quotient(self as int, rhs as int), 0, 255) == 0 + ((quotient(self as int, rhs as int)) - (0)) % 0x100int);
        }
        self / rhs
    }

    fn rem(self, rhs: Self) -> (r: Self) {
        proof {
            assert(remainder(self as int, rhs as int) == (self as int) % (rhs as int));
        }
        self % rhs
    }

    fn same(self, other: Self) -> (r: bool) {
        self == other
    }

    fn less(self, other: Self) -> (r: bool) {
        self < other
    }
}

impl Negate for u8 {
    type Neg = i8;

    fn neg(self) -> (r: i8) {
        proof {
            assert(wrapped(-(self as int), -128, 127) == -128 + ((-(self as int)) - (-128)) % 0x100int);
        }
        if self <= 127 {
            (0 as i8).wrapping_sub(self as i8)
        } else if self == 128 {
            i8::MIN
        } else {
            ((u8::MAX - self) + 1) as i8
        }
    }
}

impl CDatatype for u16 {
    open spec fn value(self) -> int {
        self as int
    }

    open spec fn lowest() -> int {
        0
    }

    open spec fn highest() -> int {
        65535
    }

    proof fn lemma_range(self) {
    }

    proof fn lemma_onto(v: int) {
        assert((v as u16).value() == v);
    }

    proof fn lemma_unique(self, other: Self) {
    }

    open spec fn tag() -> Seq<char> {
        "ushort"@
    }

    fn type_str() -> (tag: &'static str) {
        "ushort"
    }

    fn max() -> (r: Self) {
        u16::MAX
    }

    fn min() -> (r: Self) {
        u16::MIN
    }

    fn one() -> (r: Self) {
        1
    }

    fn zero() -> (r: Self) {
        0
    }

    fn abs(self) -> (r: Self) {
        proof {
            assert(wrapped(magnitude(self as int), 0, 65535) == 0 + ((magnitude(self as int)) - (0)) % 0x1_0000int);
        }
        self
    }

    fn not(self) -> (r: u8) {
        if self == 0 {
            1
        } else {
            0
        }
    }

    fn add(self, rhs: Self) -> (r: Self) {
        proof {
            assert(wrapped(self as int + rhs as int, 0, 65535) == 0 + ((self as int + rhs as int) - (0)) % 0x1_0000int);
        }
        self.wrapping_add(rhs)
    }

    fn sub(self, rhs: Self) -> (r: Self) {
        proof {
            assert(wrapped(self as int - rhs as int, 0, 65535) == 0 + ((self as int - rhs as int) - (0)) % 0x1_0000int);
        }
        self.wrapping_sub(rhs)
    }

    fn mul(self, rhs: Self) -> (r: Self) {
        proof {
            assert(wrapped((self as int) * (rhs as int), 0, 65535) == 0 + (((self as int) * (rhs as int)) - (0)) % 0x1_0000int);
        }
        self.wrapping_mul(rhs)
    }

    fn div(self, rhs: Self) -> (r: Self) {
        proof {
            assert(wrapped(quotient(self as int, rhs as int), 0, 65535) == 0 + ((quotient(self as int, rhs as int)) - (0)) % 0x1_0000int);
        }
        self / rhs
    }

    fn rem(self, rhs: Self) -> (r: Self) {
        proof {
            assert(remainder(self as int, rhs as int) == (self as int) % (rhs as int));
        }
        self % rhs
    }

    fn same(self, other: Self) -> (r: bool) {
        self == other
    }

    fn less(self, other: Self) -> (r: bool) {
        self < other
    }
}

impl Negate for u16 {
    type Neg = i16;

    fn neg(self) -> (r: i16) {
        proof {
            assert(wrapped(-(self as int), -32768, 32767) == -32768 + ((-(self as int)) - (-32768)) % 0x1_0000int);
        }
        if self <= 32767 {
            (0 as i16).wrapping_sub(self as i16)
        } else if self == 32768 {
            i16::MIN
        } else {
            ((u16::MAX - self) + 1) as i16
        }
    }
}

impl CDatatype for u32 {
    open spec fn value(self) -> int {
        self as int
    }

    open spec fn lowest() -> int {
        0
    }

    open spec fn highest() -> int {
        4294967295
    }

    proof fn lemma_range(self) {
    }

    proof fn lemma_onto(v: int) {
        assert((v as u32).value() == v);
    }

    proof fn lemma_unique(self, other: Self) {
    }

    open spec fn tag() -> Seq<char> {
        "uint"@
    }

    fn type_str() -> (tag: &'static str) {
        "uint"
    }

    fn max() -> (r: Self) {
        u32::MAX
    }

    fn min() -> (r: Self) {
        u32::MIN
    }

    fn one() -> (r: Self) {
        1
    }

    fn zero() -> (r: Self) {
        0
    }

    fn abs(self) -> (r: Self) {
        proof {
            assert(wrapped(magnitude(self as int), 0, 4294967295) == 0 + ((magnitude(self as int)) - (0)) % 0x1_0000_0000int);
        }
        self
    }

    fn not(self) -> (r: u8) {
        if self == 0 {
            1
        } else {
            0
        }
    }

    fn add(self, rhs: Self) -> (r: Self) {
        proof {
            assert(wrapped(self as int + rhs as int, 0, 4294967295) == 0 + ((self as int + rhs as int) - (0)) % 0x1_0000_0000int);
        }
        self.wrapping_add(rhs)
    }

    fn sub(self, rhs: Self) -> (r: Self) {
        proof {
            assert(wrapped(self as int - rhs as int, 0, 4294967295) == 0 + ((self as int - rhs as int) - (0)) % 0x1_0000_0000int);
        }
        self.wrapping_sub(rhs)
    }

    fn mul(self, rhs: Self) -> (r: Self) {
        proof {
            assert(wrapped((self as int) * (rhs as int), 0, 4294967295) == 0 + (((self as int) * (rhs as int)) - (0)) % 0x1_0000_0000int);
        }
        self.wrapping_mul(rhs)
    }

    fn div(self, rhs: Self) -> (r: Self) {
        proof {
            assert(wrapped(quotient(self as int, rhs as int), 0, 4294967295) == 0 + ((quotient(self as int, rhs as int)) - (0)) % 0x1_0000_0000int);
        }
        self / rhs
    }

    fn rem(self, rhs: Self) -> (r: Self) {
        proof {
            assert(remainder(self as int, rhs as int) == (self as int) % (rhs as int));
        }
        self % rhs
    }

    fn same(self, other: Self) -> (r: bool) {
        self == other
    }

    fn less(self, other: Self) -> (r: bool) {
        self < other
    }
}

impl Negate for u32 {
    type Neg = i32;

    fn neg(self) -> (r: i32) {
        proof {
            assert(wrapped(-(self as int), -2147483648, 2147483647) == -2147483648 + ((-(self as int)) - (-2147483648)) % 0x1_0000_0000int);
        }
        if self <= 2147483647 {
            (0 as i32).wrapping_sub(self as i32)
        } else if self == 2147483648 {
            i32::MIN
        } else {
            ((u32::MAX - self) + 1) as i32
        }
    }
}

impl CDatatype for u64 {
    open spec fn value(self) -> int {
        self as int
    }

    open spec fn lowest() -> int {
        0
    }

    open spec fn highest() -> int {
        18446744073709551615
    }

    proof fn lemma_range(self) {
    }

    proof fn lemma_onto(v: int) {
        assert((v as u64).value() == v);
    }

    proof fn lemma_unique(self, other: Self) {
    }

    open spec fn tag() -> Seq<char> {
        "ulong"@
    }

    fn type_str() -> (tag: &'static str) {
        "ulong"
    }

    fn max() -> (r: Self) {
        u64::MAX
    }

    fn min() -> (r: Self) {
        u64::MIN
    }

    fn one() -> (r: Self) {
        1
    }

    fn zero() -> (r: Self) {
        0
    }

    fn abs(self) -> (r: Self) {
        proof {
            assert(wrapped(magnitude(self as int), 0, 18446744073709551615) == 0 + ((magnitude(self as int)) - (0)) % 0x1_0000_0000_0000_0000int);
        }
        self
    }

    fn not(self) -> (r: u8) {
        if self == 0 {
            1
        } else {
            0
        }
    }

    fn add(self, rhs: Self) -> (r: Self) {
        proof {
            assert(wrapped(self as int + rhs as int, 0, 18446744073709551615) == 0 + ((self as int + rhs as int) - (0)) % 0x1_0000_0000_0000_0000int);
        }
        self.wrapping_add(rhs)
    }

    fn sub(self, rhs: Self) -> (r: Self) {
        proof {
            assert(wrapped(self as int - rhs as int, 0, 18446744073709551615) == 0 + ((self as int - rhs as int) - (0)) % 0x1_0000_0000_0000_0000int);
        }
        self.wrapping_sub(rhs)
    }

    fn mul(self, rhs: Self) -> (r: Self) {
        proof {
            assert(wrapped((self as int) * (rhs as int), 0, 18446744073709551615) == 0 + (((self as int) * (rhs as int)) - (0)) % 0x1_0000_0000_0000_0000int);
        }
        self.wrapping_mul(rhs)
    }

    fn div(self, rhs: Self) -> (r: Self) {
        proof {
            assert(wrapped(quotient(self as int, rhs as int), 0, 18446744073709551615) == 0 + ((quotient(self as int, rhs as int)) - (0)) % 0x1_0000_0000_0000_0000int);
        }
        self / rhs
    }

    fn rem(self, rhs: Self) -> (r: Self) {
        proof {
            assert(remainder(self as int, rhs as int) == (self as int) % (rhs as int));
        }
        self % rhs
    }

    fn same(self, other: Self) -> (r: bool) {
        self == other
    }

    fn less(self, other: Self) -> (r: bool) {
        self < other
    }
}

impl Negate for u64 {
    type Neg = i64;

    fn neg(self) -> (r: i64) {
        proof {
            assert(wrapped(-(self as int), -9223372036854775808, 9223372036854775807) == -9223372036854775808 + ((-(self as int)) - (-9223372036854775808)) % 0x1_0000_0000_0000_0000int);
        }
        if self <= 9223372036854775807 {
            (0 as i64).wrapping_sub(self as i64)
        } else if self == 9223372036854775808 {
            i64::MIN
        } else {
            ((u64::MAX - self) + 1) as i64
        }
    }
}

impl CDatatype for i8 {
    open spec fn value(self) -> int {
        self as int
    }

    open spec fn lowest() -> int {
        -128
    }

    open spec fn highest() -> int {
        127
    }

    proof fn lemma_range(self) {
    }

    proof fn lemma_onto(v: int) {
        assert((v as i8).value() == v);
    }

    proof fn lemma_unique(self, other: Self) {
    }

    open spec fn tag() -> Seq<char> {
        "char"@
    }

    fn type_str() -> (tag: &'static str) {
        "char"
    }

    fn max() -> (r: Self) {
        i8::MAX
    }

    fn min() -> (r: Self) {
        i8::MIN
    }

    fn one() -> (r: Self) {
        1
    }

    fn zero() -> (r: Self) {
        0
    }

    fn abs(self) -> (r: Self) {
        proof {
            assert(wrapped(magnitude(self as int), -128, 127) == -128 + ((magnitude(self as int)) - (-128)) % 0x100int);
        }
        if self < 0 {
            (0 as i8).wrapping_sub(self)
        } else {
            self
        }
    }

    fn not(self) -> (r: u8) {
        if self == 0 {
            1
        } else {
            0
        }
    }

    fn add(self, rhs: Self) -> (r: Self) {
        proof {
            assert(wrapped(self as int + rhs as int, -128, 127) == -128 + ((self as int + rhs as int) - (-128)) % 0x100int);
        }
        self.wrapping_add(rhs)
    }

    fn sub(self, rhs: Self) -> (r: Self) {
        proof {
            assert(wrapped(self as int - rhs as int, -128, 127) == -128 + ((self as int - rhs as int) - (-128)) % 0x100int);
        }
        self.wrapping_sub(rhs)
    }

    fn mul(self, rhs: Self) -> (r: Self) {
        proof {
            assert(wrapped((self as int) * (rhs as int), -128, 127) == -128 + (((self as int) * (rhs as int)) - (-128)) % 0x100int);
        }
        self.wrapping_mul(rhs)
    }

    fn div(self, rhs: Self) -> (r: Self) {
        proof {
            let q = quotient(self as int, rhs as int);
            assert(wrapped(q, -128, 127) == -128 + ((q) - (-128)) % 0x100int);
            vstd::arithmetic::div_mod::lemma_div_basics_1(magnitude(rhs as int));
            vstd::arithmetic::div_mod::lemma_div_nonincreasing(
                magnitude(self as int),
                magnitude(rhs as int),
            );
            vstd::arithmetic::div_mod::lemma_div_pos_is_pos(
                magnitude(self as int),
                magnitude(rhs as int),
            );
            if rhs == -1 {
                vstd::arithmetic::div_mod::lemma_div_basics_3(magnitude(self as int));
            }
        }
        match self.checked_div(rhs) {
            Some(q) => q,
            None => self,
        }
    }

    fn rem(self, rhs: Self) -> (r: Self) {
        proof {
            let a = self as int;
            let b = rhs as int;
            assert(remainder(a, b) == if a < 0 {
                -(magnitude(a) % magnitude(b))
            } else {
                magnitude(a) % magnitude(b)
            });
            assert(magnitude(a) == if a < 0 {
                a * -1
            } else {
                a
            });
            assert(magnitude(b) == if b < 0 {
                b * -1
            } else {
                b
            });
            vstd::arithmetic::div_mod::lemma_mod_bound(magnitude(a), magnitude(b));
            vstd::arithmetic::div_mod::lemma_small_mod(0, magnitude(b) as nat);
            assert(magnitude(a) % 1 == 0);
        }
        match self.checked_rem(rhs) {
            Some(r) => r,
            None => 0,
        }
    }

    fn same(self, other: Self) -> (r: bool) {
        self == other
    }

    fn less(self, other: Self) -> (r: bool) {
        self < other
    }
}

impl Negate for i8 {
    type Neg = i8;

    fn neg(self) -> (r: i8) {
        proof {
            assert(wrapped(-(self as int), -128, 127) == -128 + ((-(self as int)) - (-128)) % 0x100int);
        }
        (0 as i8).wrapping_sub(self)
    }
}

impl CDatatype for i16 {
    open spec fn value(self) -> int {
        self as int
    }

    open spec fn lowest() -> int {
        -32768
    }

    open spec fn highest() -> int {
        32767
    }

    proof fn lemma_range(self) {
    }

    proof fn lemma_onto(v: int) {
        assert((v as i16).value() == v);
    }

    proof fn lemma_unique(self, other: Self) {
    }

    open spec fn tag() -> Seq<char> {
        "short"@
    }

    fn type_str() -> (tag: &'static str) {
        "short"
    }

    fn max() -> (r: Self) {
        i16::MAX
    }

    fn min() -> (r: Self) {
        i16::MIN
    }

    fn one() -> (r: Self) {
        1
    }

    fn zero() -> (r: Self) {
        0
    }

    fn abs(self) -> (r: Self) {
        proof {
            assert(wrapped(magnitude(self as int), -32768, 32767) == -32768 + ((magnitude(self as int)) - (-32768)) % 0x1_0000int);
        }
        if self < 0 {
            (0 as i16).wrapping_sub(self)
        } else {
            self
        }
    }

    fn not(self) -> (r: u8) {
        if self == 0 {
            1
        } else {
            0
        }
    }

    fn add(self, rhs: Self) -> (r: Self) {
        proof {
            assert(wrapped(self as int + rhs as int, -32768, 32767) == -32768 + ((self as int + rhs as int) - (-32768)) % 0x1_0000int);
        }
        self.wrapping_add(rhs)
    }

    fn sub(self, rhs: Self) -> (r: Self) {
        proof {
            assert(wrapped(self as int - rhs as int, -32768, 32767) == -32768 + ((self as int - rhs as int) - (-32768)) % 0x1_0000int);
        }
        self.wrapping_sub(rhs)
    }

    fn mul(self, rhs: Self) -> (r: Self) {
        proof {
            assert(wrapped((self as int) * (rhs as int), -32768, 32767) == -32768 + (((self as int) * (rhs as int)) - (-32768)) % 0x1_0000int);
        }
        self.wrapping_mul(rhs)
    }

    fn div(self, rhs: Self) -> (r: Self) {
        proof {
            let q = quotient(self as int, rhs as int);
            assert(wrapped(q, -32768, 32767) == -32768 + ((q) - (-32768)) % 0x1_0000int);
            vstd::arithmetic::div_mod::lemma_div_basics_1(magnitude(rhs as int));
            vstd::arithmetic::div_mod::lemma_div_nonincreasing(
                magnitude(self as int),
                magnitude(rhs as int),
            );
            vstd::arithmetic::div_mod::lemma_div_pos_is_pos(
                magnitude(self as int),
                magnitude(rhs as int),
            );
            if rhs == -1 {
                vstd::arithmetic::div_mod::lemma_div_basics_3(magnitude(self as int));
            }
        }
        match self.checked_div(rhs) {
            Some(q) => q,
            None => self,
        }
    }

    fn rem(self, rhs: Self) -> (r: Self) {
        proof {
            let a = self as int;
            let b = rhs as int;
            assert(remainder(a, b) == if a < 0 {
                -(magnitude(a) % magnitude(b))
            } else {
                magnitude(a) % magnitude(b)
            });
            assert(magnitude(a) == if a < 0 {
                a * -1
            } else {
                a
            });
            assert(magnitude(b) == if b < 0 {
                b * -1
            } else {
                b
            });
            vstd::arithmetic::div_mod::lemma_mod_bound(magnitude(a), magnitude(b));
            vstd::arithmetic::div_mod::lemma_small_mod(0, magnitude(b) as nat);
            assert(magnitude(a) % 1 == 0);
        }
        match self.checked_rem(rhs) {
            Some(r) => r,
            None => 0,
        }
    }

    fn same(self, other: Self) -> (r: bool) {
        self == other
    }

    fn less(self, other: Self) -> (r: bool) {
        self < other
    }
}

impl Negate for i16 {
    type Neg = i16;

    fn neg(self) -> (r: i16) {
        proof {
            assert(wrapped(-(self as int), -32768, 32767) == -32768 + ((-(self as int)) - (-32768)) % 0x1_0000int);
        }
        (0 as i16).wrapping_sub(self)
    }
}

impl CDatatype for i32 {
    open spec fn value(self) -> int {
        self as int
    }

    open spec fn lowest() -> int {
        -2147483648
    }

    open spec fn highest() -> int {
        2147483647
    }

    proof fn lemma_range(self) {
    }

    proof fn lemma_onto(v: int) {
        assert((v as i32).value() == v);
    }

    proof fn lemma_unique(self, other: Self) {
    }

    open spec fn tag() -> Seq<char> {
        "int"@
    }

    fn type_str() -> (tag: &'static str) {
        "int"
    }

    fn max() -> (r: Self) {
        i32::MAX
    }

    fn min() -> (r: Self) {
        i32::MIN
    }

    fn one() -> (r: Self) {
        1
    }

    fn zero() -> (r: Self) {
        0
    }

    fn abs(self) -> (r: Self) {
        proof {
            assert(wrapped(magnitude(self as int), -2147483648, 2147483647) == -2147483648 + ((magnitude(self as int)) - (-2147483648)) % 0x1_0000_0000int);
        }
        if self < 0 {
            (0 as i32).wrapping_sub(self)
        } else {
            self
        }
    }

    fn not(self) -> (r: u8) {
        if self == 0 {
            1
        } else {
            0
        }
    }

    fn add(self, rhs: Self) -> (r: Self) {
        proof {
            assert(wrapped(self as int + rhs as int, -2147483648, 2147483647) == -2147483648 + ((self as int + rhs as int) - (-2147483648)) % 0x1_0000_0000int);
        }
        self.wrapping_add(rhs)
    }

    fn sub(self, rhs: Self) -> (r: Self) {
        proof {
            assert(wrapped(self as int - rhs as int, -2147483648, 2147483647) == -2147483648 + ((self as int - rhs as int) - (-2147483648)) % 0x1_0000_0000int);
        }
        self.wrapping_sub(rhs)
    }

    fn mul(self, rhs: Self) -> (r: Self) {
        proof {
            assert(wrapped((self as int) * (rhs as int), -2147483648, 2147483647) == -2147483648 + (((self as int) * (rhs as int)) - (-2147483648)) % 0x1_0000_0000int);
        }
        self.wrapping_mul(rhs)
    }

    fn div(self, rhs: Self) -> (r: Self) {
        proof {
            let q = quotient(self as int, rhs as int);
            assert(wrapped(q, -2147483648, 2147483647) == -2147483648 + ((q) - (-2147483648)) % 0x1_0000_0000int);
            vstd::arithmetic::div_mod::lemma_div_basics_1(magnitude(rhs as int));
            vstd::arithmetic::div_mod::lemma_div_nonincreasing(
                magnitude(self as int),
                magnitude(rhs as int),
            );
            vstd::arithmetic::div_mod::lemma_div_pos_is_pos(
                magnitude(self as int),
                magnitude(rhs as int),
            );
            if rhs == -1 {
                vstd::arithmetic::div_mod::lemma_div_basics_3(magnitude(self as int));
            }
        }
        match self.checked_div(rhs) {
            Some(q) => q,
            None => self,
        }
    }

    fn rem(self, rhs: Self) -> (r: Self) {
        proof {
            let a = self as int;
            let b = rhs as int;
            assert(remainder(a, b) == if a < 0 {
                -(magnitude(a) % magnitude(b))
            } else {
                magnitude(a) % magnitude(b)
            });
            assert(magnitude(a) == if a < 0 {
                a * -1
            } else {
                a
            });
            assert(magnitude(b) == if b < 0 {
                b * -1
            } else {
                b
            });
            vstd::arithmetic::div_mod::lemma_mod_bound(magnitude(a), magnitude(b));
            vstd::arithmetic::div_mod::lemma_small_mod(0, magnitude(b) as nat);
            assert(magnitude(a) % 1 == 0);
        }
        match self.checked_rem(rhs) {
            Some(r) => r,
            None => 0,
        }
    }

    fn same(self, other: Self) -> (r: bool) {
        self == other
    }

    fn less(self, other: Self) -> (r: bool) {
        self < other
    }
}

impl Negate for i32 {
    type Neg = i32;

    fn neg(self) -> (r: i32) {
        proof {
            assert(wrapped(-(self as int), -2147483648, 2147483647) == -2147483648 + ((-(self as int)) - (-2147483648)) % 0x1_0000_0000int);
        }
        (0 as i32).wrapping_sub(self)
    }
}

impl CDatatype for i64 {
    open spec fn value(self) -> int {
        self as int
    }

    open spec fn lowest() -> int {
        -9223372036854775808
    }

    open spec fn highest() -> int {
        9223372036854775807
    }

    proof fn lemma_range(self) {
    }

    proof fn lemma_onto(v: int) {
        assert((v as i64).value() == v);
    }

    proof fn lemma_unique(self, other: Self) {
    }

    open spec fn tag() -> Seq<char> {
        "long"@
    }

    fn type_str() -> (tag: &'static str) {
        "long"
    }

    fn max() -> (r: Self) {
        i64::MAX
    }

    fn min() -> (r: Self) {
        i64::MIN
    }

    fn one() -> (r: Self) {
        1
    }

    fn zero() -> (r: Self) {
        0
    }

    fn abs(self) -> (r: Self) {
        proof {
            assert(wrapped(magnitude(self as int), -9223372036854775808, 9223372036854775807) == -9223372036854775808 + ((magnitude(self as int)) - (-9223372036854775808)) % 0x1_0000_0000_0000_0000int);
        }
        if self < 0 {
            (0 as i64).wrapping_sub(self)
        } else {
            self
        }
    }

    fn not(self) -> (r: u8) {
        if self == 0 {
            1
        } else {
            0
        }
    }

    fn add(self, rhs: Self) -> (r: Self) {
        proof {
            assert(wrapped(self as int + rhs as int, -9223372036854775808, 9223372036854775807) == -9223372036854775808 + ((self as int + rhs as int) - (-9223372036854775808)) % 0x1_0000_0000_0000_0000int);
        }
        self.wrapping_add(rhs)
    }

    fn sub(self, rhs: Self) -> (r: Self) {
        proof {
            assert(wrapped(self as int - rhs as int, -9223372036854775808, 9223372036854775807) == -9223372036854775808 + ((self as int - rhs as int) - (-9223372036854775808)) % 0x1_0000_0000_0000_0000int);
        }
        self.wrapping_sub(rhs)
    }

    fn mul(self, rhs: Self) -> (r: Self) {
        proof {
            assert(wrapped((self as int) * (rhs as int), -9223372036854775808, 9223372036854775807) == -9223372036854775808 + (((self as int) * (rhs as int)) - (-9223372036854775808)) % 0x1_0000_0000_0000_0000int);
        }
        self.wrapping_mul(rhs)
    }

    fn div(self, rhs: Self) -> (r: Self) {
        proof {
            let q = quotient(self as int, rhs as int);
            assert(wrapped(q, -9223372036854775808, 9223372036854775807) == -9223372036854775808 + ((q) - (-9223372036854775808)) % 0x1_0000_0000_0000_0000int);
            vstd::arithmetic::div_mod::lemma_div_basics_1(magnitude(rhs as int));
            vstd::arithmetic::div_mod::lemma_div_nonincreasing(
                magnitude(self as int),
                magnitude(rhs as int),
            );
            vstd::arithmetic::div_mod::lemma_div_pos_is_pos(
                magnitude(self as int),
                magnitude(rhs as int),
            );
            if rhs == -1 {
                vstd::arithmetic::div_mod::lemma_div_basics_3(magnitude(self as int));
            }
        }
        match self.checked_div(rhs) {
            Some(q) => q,
            None => self,
        }
    }

    fn rem(self, rhs: Self) -> (r: Self) {
        proof {
            let a = self as int;
            let b = rhs as int;
            assert(remainder(a, b) == if a < 0 {
                -(magnitude(a) % magnitude(b))
            } else {
                magnitude(a) % magnitude(b)
            });
            assert(magnitude(a) == if a < 0 {
                a * -1
            } else {
                a
            });
            assert(magnitude(b) == if b < 0 {
                b * -1
            } else {
                b
            });
            vstd::arithmetic::div_mod::lemma_mod_bound(magnitude(a), magnitude(b));
            vstd::arithmetic::div_mod::lemma_small_mod(0, magnitude(b) as nat);
            assert(magnitude(a) % 1 == 0);
        }
        match self.checked_rem(rhs) {
            Some(r) => r,
            None => 0,
        }
    }

    fn same(self, other: Self) -> (r: bool) {
        self == other
    }

    fn less(self, other: Self) -> (r: bool) {
        self < other
    }
}

impl Negate for i64 {
    type Neg = i64;

    fn neg(self) -> (r: i64) {
        proof {
            assert(wrapped(-(self as int), -9223372036854775808, 9223372036854775807) == -9223372036854775808 + ((-(self as int)) - (-9223372036854775808)) % 0x1_0000_0000_0000_0000int);
        }
        (0 as i64).wrapping_sub(self)
    }
}

} // verus!
