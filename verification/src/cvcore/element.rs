use vstd::prelude::*;

use crate::cvcore::arith_spec::{lemma_trunc_div, trunc_div};

verus! {

/// An integer matrix element.
///
/// Each element type is described by its mathematical value `val`, the range
/// `[lo, hi]` it can hold, and its own bit-wise operators.  The executable
/// operations compute the exact mathematical result; their `requires` leave
/// out the inputs on which Rust's operator would overflow.
pub trait Element: Copy + Sized {
    /// The mathematical value of the element.
    spec fn val(self) -> int;

    /// Smallest value of the type.
    spec fn lo() -> int;

    /// Largest value of the type.
    spec fn hi() -> int;

    /// The element whose value is `v`, for `v` within `[lo, hi]`.
    spec fn from_val(v: int) -> Self;

    /// The type's own `&`.
    spec fn and_spec(a: Self, b: Self) -> Self;

    /// The type's own `|`.
    spec fn or_spec(a: Self, b: Self) -> Self;

    /// The type's own `^`.
    spec fn xor_spec(a: Self, b: Self) -> Self;

    /// The type's own `!`.
    spec fn not_spec(a: Self) -> Self;

    /// Every value lies in the type's range, which sits inside that of `i32`.
    proof fn lemma_range(x: Self)
        ensures
            Self::lo() <= x.val() <= Self::hi(),
            -0x8000_0000 <= Self::lo() <= 0,
            0 < Self::hi() <= 0x7fff_ffff,
    ;

    /// `from_val` inverts `val` on the type's range.
    proof fn lemma_from_val(v: int)
        requires
            Self::lo() <= v <= Self::hi(),
        ensures
            Self::from_val(v).val() == v,
    ;

    /// Two elements with the same value are the same element.
    proof fn lemma_val_injective(x: Self, y: Self)
        ensures
            x.val() == y.val() ==> x == y,
    ;

    /// `!` undoes itself.
    proof fn lemma_not_involutive(x: Self)
        ensures
            Self::not_spec(Self::not_spec(x)) == x,
    ;

    /// `^ y` undoes itself.
    proof fn lemma_xor_cancel(x: Self, y: Self)
        ensures
            Self::xor_spec(Self::xor_spec(x, y), y) == x,
    ;

    /// `&`, `|` and `^` do not depend on the order of their operands.
    proof fn lemma_and_or_commute(x: Self, y: Self)
        ensures
            Self::and_spec(x, y) == Self::and_spec(y, x),
            Self::or_spec(x, y) == Self::or_spec(y, x),
            Self::xor_spec(x, y) == Self::xor_spec(y, x),
    ;

    /// The range is that of an unsigned type (starting at zero) or of a
    /// two's-complement signed one (`lo + hi == -1`).
    proof fn lemma_signed_range()
        ensures
            Self::lo() == 0 || Self::lo() + Self::hi() == -1,
    ;

    /// `&`, `|` and `^` act on the two's-complement bits of the values, the
    /// same as on the values widened to `i64`; `!` flips every bit, which maps
    /// a value `x` to `lo + hi - x` (`-1 - x` when signed, `hi - x` when not).
    proof fn lemma_bitwise_values(x: Self, y: Self)
        ensures
            Self::and_spec(x, y).val() == ((x.val() as i64) & (y.val() as i64)) as int,
            Self::or_spec(x, y).val() == ((x.val() as i64) | (y.val() as i64)) as int,
            Self::xor_spec(x, y).val() == ((x.val() as i64) ^ (y.val() as i64)) as int,
            Self::not_spec(x).val() == Self::lo() + Self::hi() - x.val(),
    ;

    /// The zero element.
    fn zero() -> (r: Self)
        ensures
            r.val() == 0,
    ;

    /// `a + b`.
    fn elem_add(a: Self, b: Self) -> (r: Self)
        requires
            Self::lo() <= a.val() + b.val() <= Self::hi(),
        ensures
            r.val() == a.val() + b.val(),
    ;

    /// `a - b`.
    fn elem_sub(a: Self, b: Self) -> (r: Self)
        requires
            Self::lo() <= a.val() - b.val() <= Self::hi(),
        ensures
            r.val() == a.val() - b.val(),
    ;

    /// `a * b`.
    fn elem_mul(a: Self, b: Self) -> (r: Self)
        requires
            Self::lo() <= a.val() * b.val() <= Self::hi(),
        ensures
            r.val() == a.val() * b.val(),
    ;

    /// `a / b`, rounding toward zero.
    fn elem_div(a: Self, b: Self) -> (r: Self)
        requires
            b.val() != 0,
            Self::lo() <= trunc_div(a.val(), b.val()) <= Self::hi(),
        ensures
            r.val() == trunc_div(a.val(), b.val()),
    ;

    /// `a > b`.
    fn elem_gt(a: Self, b: Self) -> (r: bool)
        ensures
            r == (a.val() > b.val()),
    ;

    /// `a == 0`.
    fn elem_is_zero(a: Self) -> (r: bool)
        ensures
            r == (a.val() == 0),
    ;

    /// `a & b`.
    fn elem_and(a: Self, b: Self) -> (r: Self)
        ensures
            r == Self::and_spec(a, b),
    ;

    /// `a | b`.
    fn elem_or(a: Self, b: Self) -> (r: Self)
        ensures
            r == Self::or_spec(a, b),
    ;

    /// `a ^ b`.
    fn elem_xor(a: Self, b: Self) -> (r: Self)
        ensures
            r == Self::xor_spec(a, b),
    ;

    /// `!a`.
    fn elem_not(a: Self) -> (r: Self)
        ensures
            r == Self::not_spec(a),
    ;

    /// The value widened to `i128`.
    fn to_wide(a: Self) -> (r: i128)
        ensures
            r as int == a.val(),
    ;

    /// The element holding `v`, or `None` when `v` is out of the type's range.
    fn from_wide(v: i128) -> (r: Option<Self>)
        ensures
            r is Some <==> Self::lo() <= v <= Self::hi(),
            r is Some ==> r->0.val() == v as int,
    ;
}

impl Element for u8 {
    open spec fn val(self) -> int {
        self as int
    }

    open spec fn lo() -> int {
        0
    }

    open spec fn hi() -> int {
        255
    }

    open spec fn from_val(v: int) -> u8 {
        v as u8
    }

    open spec fn and_spec(a: u8, b: u8) -> u8 {
        a & b
    }

    open spec fn or_spec(a: u8, b: u8) -> u8 {
        a | b
    }

    open spec fn xor_spec(a: u8, b: u8) -> u8 {
        a ^ b
    }

    open spec fn not_spec(a: u8) -> u8 {
        !a
    }

    proof fn lemma_range(x: u8) {
    }

    proof fn lemma_from_val(v: int) {
    }

    proof fn lemma_val_injective(x: u8, y: u8) {
    }

    proof fn lemma_not_involutive(x: u8) {
        assert(!(!x) == x) by (bit_vector);
    }

    proof fn lemma_xor_cancel(x: u8, y: u8) {
        assert((x ^ y) ^ y == x) by (bit_vector);
    }

    proof fn lemma_and_or_commute(x: u8, y: u8) {
        assert(x & y == y & x) by (bit_vector);
        assert(x | y == y | x) by (bit_vector);
        assert(x ^ y == y ^ x) by (bit_vector);
    }

    proof fn lemma_signed_range() {
    }

    proof fn lemma_bitwise_values(x: u8, y: u8) {
        assert(((x & y) as i64) == ((x as i64) & (y as i64)) && ((x | y) as i64) == ((x as i64)
            | (y as i64)) && ((x ^ y) as i64) == ((x as i64) ^ (y as i64)) && (!x) + x == 255)
            by (bit_vector);
    }

    fn zero() -> (r: u8) {
        0
    }

    fn elem_add(a: u8, b: u8) -> (r: u8) {
        a + b
    }

    fn elem_sub(a: u8, b: u8) -> (r: u8) {
        a - b
    }

    fn elem_mul(a: u8, b: u8) -> (r: u8) {
        a * b
    }

    fn elem_div(a: u8, b: u8) -> (r: u8) {
        proof {
            lemma_trunc_div(a as int, b as int);
        }
        a / b
    }

    fn elem_gt(a: u8, b: u8) -> (r: bool) {
        a > b
    }

    fn elem_is_zero(a: u8) -> (r: bool) {
        a == 0
    }

    fn elem_and(a: u8, b: u8) -> (r: u8) {
        a & b
    }

    fn elem_or(a: u8, b: u8) -> (r: u8) {
        a | b
    }

    fn elem_xor(a: u8, b: u8) -> (r: u8) {
        a ^ b
    }

    fn elem_not(a: u8) -> (r: u8) {
        !a
    }

    fn to_wide(a: u8) -> (r: i128) {
        a as i128
    }

    fn from_wide(v: i128) -> (r: Option<u8>) {
        if 0 <= v && v <= 255 {
            Some(v as u8)
        } else {
            None
        }
    }
}

impl Element for i8 {
    open spec fn val(self) -> int {
        self as int
    }

    open spec fn lo() -> int {
        -128
    }

    open spec fn hi() -> int {
        127
    }

    open spec fn from_val(v: int) -> i8 {
        v as i8
    }

    open spec fn and_spec(a: i8, b: i8) -> i8 {
        a & b
    }

    open spec fn or_spec(a: i8, b: i8) -> i8 {
        a | b
    }

    open spec fn xor_spec(a: i8, b: i8) -> i8 {
        a ^ b
    }

    open spec fn not_spec(a: i8) -> i8 {
        !a
    }

    proof fn lemma_range(x: i8) {
    }

    proof fn lemma_from_val(v: int) {
    }

    proof fn lemma_val_injective(x: i8, y: i8) {
    }

    proof fn lemma_not_involutive(x: i8) {
        assert(!(!x) == x) by (bit_vector);
    }

    proof fn lemma_xor_cancel(x: i8, y: i8) {
        assert((x ^ y) ^ y == x) by (bit_vector);
    }

    proof fn lemma_and_or_commute(x: i8, y: i8) {
        assert(x & y == y & x) by (bit_vector);
        assert(x | y == y | x) by (bit_vector);
        assert(x ^ y == y ^ x) by (bit_vector);
    }

    proof fn lemma_signed_range() {
    }

    proof fn lemma_bitwise_values(x: i8, y: i8) {
        assert(((x & y) as i64) == ((x as i64) & (y as i64)) && ((x | y) as i64) == ((x as i64)
            | (y as i64)) && ((x ^ y) as i64) == ((x as i64) ^ (y as i64)) && (!x) + x == -1)
            by (bit_vector);
    }

    fn zero() -> (r: i8) {
        0
    }

    fn elem_add(a: i8, b: i8) -> (r: i8) {
        a + b
    }

    fn elem_sub(a: i8, b: i8) -> (r: i8) {
        a - b
    }

    fn elem_mul(a: i8, b: i8) -> (r: i8) {
        a * b
    }

    fn elem_div(a: i8, b: i8) -> (r: i8) {
        proof {
            lemma_trunc_div(a as int, b as int);
        }
        a / b
    }

    fn elem_gt(a: i8, b: i8) -> (r: bool) {
        a > b
    }

    fn elem_is_zero(a: i8) -> (r: bool) {
        a == 0
    }

    fn elem_and(a: i8, b: i8) -> (r: i8) {
        a & b
    }

    fn elem_or(a: i8, b: i8) -> (r: i8) {
        a | b
    }

    fn elem_xor(a: i8, b: i8) -> (r: i8) {
        a ^ b
    }

    fn elem_not(a: i8) -> (r: i8) {
        !a
    }

    fn to_wide(a: i8) -> (r: i128) {
        a as i128
    }

    fn from_wide(v: i128) -> (r: Option<i8>) {
        if -128 <= v && v <= 127 {
            Some(v as i8)
        } else {
            None
        }
    }
}

impl Element for u16 {
    open spec fn val(self) -> int {
        self as int
    }

    open spec fn lo() -> int {
        0
    }

    open spec fn hi() -> int {
        65535
    }

    open spec fn from_val(v: int) -> u16 {
        v as u16
    }

    open spec fn and_spec(a: u16, b: u16) -> u16 {
        a & b
    }

    open spec fn or_spec(a: u16, b: u16) -> u16 {
        a | b
    }

    open spec fn xor_spec(a: u16, b: u16) -> u16 {
        a ^ b
    }

    open spec fn not_spec(a: u16) -> u16 {
        !a
    }

    proof fn lemma_range(x: u16) {
    }

    proof fn lemma_from_val(v: int) {
    }

    proof fn lemma_val_injective(x: u16, y: u16) {
    }

    proof fn lemma_not_involutive(x: u16) {
        assert(!(!x) == x) by (bit_vector);
    }

    proof fn lemma_xor_cancel(x: u16, y: u16) {
        assert((x ^ y) ^ y == x) by (bit_vector);
    }

    proof fn lemma_and_or_commute(x: u16, y: u16) {
        assert(x & y == y & x) by (bit_vector);
        assert(x | y == y | x) by (bit_vector);
        assert(x ^ y == y ^ x) by (bit_vector);
    }

    proof fn lemma_signed_range() {
    }

    proof fn lemma_bitwise_values(x: u16, y: u16) {
        assert(((x & y) as i64) == ((x as i64) & (y as i64)) && ((x | y) as i64) == ((x as i64)
            | (y as i64)) && ((x ^ y) as i64) == ((x as i64) ^ (y as i64)) && (!x) + x == 65535)
            by (bit_vector);
    }

    fn zero() -> (r: u16) {
        0
    }

    fn elem_add(a: u16, b: u16) -> (r: u16) {
        a + b
    }

    fn elem_sub(a: u16, b: u16) -> (r: u16) {
        a - b
    }

    fn elem_mul(a: u16, b: u16) -> (r: u16) {
        a * b
    }

    fn elem_div(a: u16, b: u16) -> (r: u16) {
        proof {
            lemma_trunc_div(a as int, b as int);
        }
        a / b
    }

    fn elem_gt(a: u16, b: u16) -> (r: bool) {
        a > b
    }

    fn elem_is_zero(a: u16) -> (r: bool) {
        a == 0
    }

    fn elem_and(a: u16, b: u16) -> (r: u16) {
        a & b
    }

    fn elem_or(a: u16, b: u16) -> (r: u16) {
        a | b
    }

    fn elem_xor(a: u16, b: u16) -> (r: u16) {
        a ^ b
    }

    fn elem_not(a: u16) -> (r: u16) {
        !a
    }

    fn to_wide(a: u16) -> (r: i128) {
        a as i128
    }

    fn from_wide(v: i128) -> (r: Option<u16>) {
        if 0 <= v && v <= 65535 {
            Some(v as u16)
        } else {
            None
        }
    }
}

impl Element for i16 {
    open spec fn val(self) -> int {
        self as int
    }

    open spec fn lo() -> int {
        -32768
    }

    open spec fn hi() -> int {
        32767
    }

    open spec fn from_val(v: int) -> i16 {
        v as i16
    }

    open spec fn and_spec(a: i16, b: i16) -> i16 {
        a & b
    }

    open spec fn or_spec(a: i16, b: i16) -> i16 {
        a | b
    }

    open spec fn xor_spec(a: i16, b: i16) -> i16 {
        a ^ b
    }

    open spec fn not_spec(a: i16) -> i16 {
        !a
    }

    proof fn lemma_range(x: i16) {
    }

    proof fn lemma_from_val(v: int) {
    }

    proof fn lemma_val_injective(x: i16, y: i16) {
    }

    proof fn lemma_not_involutive(x: i16) {
        assert(!(!x) == x) by (bit_vector);
    }

    proof fn lemma_xor_cancel(x: i16, y: i16) {
        assert((x ^ y) ^ y == x) by (bit_vector);
    }

    proof fn lemma_and_or_commute(x: i16, y: i16) {
        assert(x & y == y & x) by (bit_vector);
        assert(x | y == y | x) by (bit_vector);
        assert(x ^ y == y ^ x) by (bit_vector);
    }

    proof fn lemma_signed_range() {
    }

    proof fn lemma_bitwise_values(x: i16, y: i16) {
        assert(((x & y) as i64) == ((x as i64) & (y as i64)) && ((x | y) as i64) == ((x as i64)
            | (y as i64)) && ((x ^ y) as i64) == ((x as i64) ^ (y as i64)) && (!x) + x == -1)
            by (bit_vector);
    }

    fn zero() -> (r: i16) {
        0
    }

    fn elem_add(a: i16, b: i16) -> (r: i16) {
        a + b
    }

    fn elem_sub(a: i16, b: i16) -> (r: i16) {
        a - b
    }

    fn elem_mul(a: i16, b: i16) -> (r: i16) {
        a * b
    }

    fn elem_div(a: i16, b: i16) -> (r: i16) {
        proof {
            lemma_trunc_div(a as int, b as int);
        }
        a / b
    }

    fn elem_gt(a: i16, b: i16) -> (r: bool) {
        a > b
    }

    fn elem_is_zero(a: i16) -> (r: bool) {
        a == 0
    }

    fn elem_and(a: i16, b: i16) -> (r: i16) {
        a & b
    }

    fn elem_or(a: i16, b: i16) -> (r: i16) {
        a | b
    }

    fn elem_xor(a: i16, b: i16) -> (r: i16) {
        a ^ b
    }

    fn elem_not(a: i16) -> (r: i16) {
        !a
    }

    fn to_wide(a: i16) -> (r: i128) {
        a as i128
    }

    fn from_wide(v: i128) -> (r: Option<i16>) {
        if -32768 <= v && v <= 32767 {
            Some(v as i16)
        } else {
            None
        }
    }
}

impl Element for i32 {
    open spec fn val(self) -> int {
        self as int
    }

    open spec fn lo() -> int {
        -0x8000_0000
    }

    open spec fn hi() -> int {
        0x7fff_ffff
    }

    open spec fn from_val(v: int) -> i32 {
        v as i32
    }

    open spec fn and_spec(a: i32, b: i32) -> i32 {
        a & b
    }

    open spec fn or_spec(a: i32, b: i32) -> i32 {
        a | b
    }

    open spec fn xor_spec(a: i32, b: i32) -> i32 {
        a ^ b
    }

    open spec fn not_spec(a: i32) -> i32 {
        !a
    }

    proof fn lemma_range(x: i32) {
    }

    proof fn lemma_from_val(v: int) {
    }

    proof fn lemma_val_injective(x: i32, y: i32) {
    }

    proof fn lemma_not_involutive(x: i32) {
        assert(!(!x) == x) by (bit_vector);
    }

    proof fn lemma_xor_cancel(x: i32, y: i32) {
        assert((x ^ y) ^ y == x) by (bit_vector);
    }

    proof fn lemma_and_or_commute(x: i32, y: i32) {
        assert(x & y == y & x) by (bit_vector);
        assert(x | y == y | x) by (bit_vector);
        assert(x ^ y == y ^ x) by (bit_vector);
    }

    proof fn lemma_signed_range() {
    }

    proof fn lemma_bitwise_values(x: i32, y: i32) {
        assert(((x & y) as i64) == ((x as i64) & (y as i64)) && ((x | y) as i64) == ((x as i64)
            | (y as i64)) && ((x ^ y) as i64) == ((x as i64) ^ (y as i64)) && (!x) + x == -1)
            by (bit_vector);
    }

    fn zero() -> (r: i32) {
        0
    }

    fn elem_add(a: i32, b: i32) -> (r: i32) {
        a + b
    }

    fn elem_sub(a: i32, b: i32) -> (r: i32) {
        a - b
    }

    fn elem_mul(a: i32, b: i32) -> (r: i32) {
        a * b
    }

    fn elem_div(a: i32, b: i32) -> (r: i32) {
        proof {
            lemma_trunc_div(a as int, b as int);
        }
        a / b
    }

    fn elem_gt(a: i32, b: i32) -> (r: bool) {
        a > b
    }

    fn elem_is_zero(a: i32) -> (r: bool) {
        a == 0
    }

    fn elem_and(a: i32, b: i32) -> (r: i32) {
        a & b
    }

    fn elem_or(a: i32, b: i32) -> (r: i32) {
        a | b
    }

    fn elem_xor(a: i32, b: i32) -> (r: i32) {
        a ^ b
    }

    fn elem_not(a: i32) -> (r: i32) {
        !a
    }

    fn to_wide(a: i32) -> (r: i128) {
        a as i128
    }

    fn from_wide(v: i128) -> (r: Option<i32>) {
        if -0x8000_0000 <= v && v <= 0x7fff_ffff {
            Some(v as i32)
        } else {
            None
        }
    }
}

} // verus!
