use vstd::prelude::*;

use crate::cvcore::types::Depth;

verus! {

// ---------------------------------------------------------------------------
// Dispatch through pulp
// ---------------------------------------------------------------------------

/// Runs `f` once, inside the widest instruction set the running CPU offers.
///
/// Calls `pulp::Arch::new()`, which detects the instruction set, and then
/// `pulp::Arch::dispatch`, which wraps `f` as a `NullaryFnOnce` operation,
/// calls it exactly once and returns what it returned.  The contract claims
/// just that: the result is one that `f` can return.
#[verifier::external_body]
fn dispatch<R, F: FnOnce() -> R>(f: F) -> (r: R)
    requires
        f.requires(()),
    ensures
        f.ensures((), r),
{
    pulp::Arch::new().dispatch(f)
}

/// Overwrites `dst` with the elements of `src`.
fn copy_into(dst: &mut [u8], src: &Vec<u8>)
    requires
        src@.len() == old(dst)@.len(),
    ensures
        final(dst)@ == src@,
{
    let n = src.len();
    for i in 0..n
        invariant
            n == src@.len(),
            dst@.len() == n,
            forall|j: int| 0 <= j < i ==> #[trigger] dst@[j] == src@[j],
    {
        dst[i] = src[i];
    }
    assert(dst@ =~= src@);
}

// ---------------------------------------------------------------------------
// Element-wise u8 semantics
// ---------------------------------------------------------------------------

/// `x + y`, clamped to 255.
pub open spec fn sat_add(x: u8, y: u8) -> u8 {
    if x + y > 255 {
        255
    } else {
        (x + y) as u8
    }
}

/// `x - y`, clamped to 0.
pub open spec fn sat_sub(x: u8, y: u8) -> u8 {
    if x < y {
        0
    } else {
        (x - y) as u8
    }
}

/// The smaller of `x` and `y`.
pub open spec fn min_u8(x: u8, y: u8) -> u8 {
    if x <= y {
        x
    } else {
        y
    }
}

/// The larger of `x` and `y`.
pub open spec fn max_u8(x: u8, y: u8) -> u8 {
    if x >= y {
        x
    } else {
        y
    }
}

/// Saturating addition as a function of two elements.
pub open spec fn sat_add_fn() -> spec_fn(u8, u8) -> u8 {
    |x: u8, y: u8| sat_add(x, y)
}

/// Saturating subtraction as a function of two elements.
pub open spec fn sat_sub_fn() -> spec_fn(u8, u8) -> u8 {
    |x: u8, y: u8| sat_sub(x, y)
}

/// The minimum as a function of two elements.
pub open spec fn min_fn() -> spec_fn(u8, u8) -> u8 {
    |x: u8, y: u8| min_u8(x, y)
}

/// The maximum as a function of two elements.
pub open spec fn max_fn() -> spec_fn(u8, u8) -> u8 {
    |x: u8, y: u8| max_u8(x, y)
}

/// Binary threshold: `maxval` above `thresh`, else zero.
pub const THRESH_BINARY: u8 = 0;

/// Inverted binary threshold: zero above `thresh`, else `maxval`.
pub const THRESH_BINARY_INV: u8 = 1;

/// Truncation: `thresh` above `thresh`, else the value.
pub const THRESH_TRUNC: u8 = 2;

/// To zero: the value above `thresh`, else zero.
pub const THRESH_TOZERO: u8 = 3;

/// Inverted to zero: zero above `thresh`, else the value.
pub const THRESH_TOZERO_INV: u8 = 4;

/// The threshold operation `ty` applied to `x`.
pub open spec fn threshold_u8(x: u8, t: u8, m: u8, ty: u8) -> u8 {
    if ty == THRESH_BINARY {
        if x > t { m } else { 0 }
    } else if ty == THRESH_BINARY_INV {
        if x > t { 0 } else { m }
    } else if ty == THRESH_TRUNC {
        if x > t { t } else { x }
    } else if ty == THRESH_TOZERO {
        if x > t { x } else { 0 }
    } else {
        if x > t { 0 } else { x }
    }
}

/// `f` applied to the first `n` pairs of `a` and `b`.
pub open spec fn zip_u8(a: Seq<u8>, b: Seq<u8>, n: int, f: spec_fn(u8, u8) -> u8) -> Seq<u8> {
    Seq::new(n as nat, |i: int| f(a[i], b[i]))
}

/// Sum of the first `n` elements of `s`.
pub open spec fn sum_u8(s: Seq<u8>, n: int) -> int
    decreases n,
{
    if n <= 0 {
        0
    } else {
        sum_u8(s, n - 1) + s[n - 1]
    }
}

fn zip_kernel(a: &[u8], b: &[u8], n: usize, op: u8) -> (r: Vec<u8>)
    requires
        a@.len() >= n,
        b@.len() >= n,
    ensures
        r@ == zip_u8(a@, b@, n as int, zip_op(op)),
{
    let mut out: Vec<u8> = Vec::new();
    for i in 0..n
        invariant
            a@.len() >= n,
            b@.len() >= n,
            out@.len() == i,
            forall|j: int| 0 <= j < i ==> #[trigger] out@[j] == zip_op(op)(a@[j], b@[j]),
    {
        let x = a[i];
        let y = b[i];
        let v = if op == ZIP_ADD {
            x.saturating_add(y)
        } else if op == ZIP_SUB {
            x.saturating_sub(y)
        } else if op == ZIP_MIN {
            x.min(y)
        } else {
            x.max(y)
        };
        out.push(v);
    }
    assert(out@ =~= zip_u8(a@, b@, n as int, zip_op(op)));
    out
}

const ZIP_ADD: u8 = 0;

const ZIP_SUB: u8 = 1;

const ZIP_MIN: u8 = 2;

const ZIP_MAX: u8 = 3;

/// The element-wise operation a pass of `zip_kernel` applies.
spec fn zip_op(op: u8) -> spec_fn(u8, u8) -> u8 {
    if op == ZIP_ADD {
        sat_add_fn()
    } else if op == ZIP_SUB {
        sat_sub_fn()
    } else if op == ZIP_MIN {
        min_fn()
    } else {
        max_fn()
    }
}

fn threshold_kernel(src: &[u8], n: usize, t: u8, m: u8, ty: u8) -> (r: Vec<u8>)
    requires
        src@.len() >= n,
    ensures
        r@ == Seq::new(n as nat, |i: int| threshold_u8(src@[i], t, m, ty)),
{
    let mut out: Vec<u8> = Vec::new();
    for i in 0..n
        invariant
            src@.len() >= n,
            out@.len() == i,
            forall|j: int| 0 <= j < i ==> #[trigger] out@[j] == threshold_u8(src@[j], t, m, ty),
    {
        let x = src[i];
        let v = if ty == THRESH_BINARY {
            if x > t { m } else { 0 }
        } else if ty == THRESH_BINARY_INV {
            if x > t { 0 } else { m }
        } else if ty == THRESH_TRUNC {
            if x > t { t } else { x }
        } else if ty == THRESH_TOZERO {
            if x > t { x } else { 0 }
        } else {
            if x > t { 0 } else { x }
        };
        out.push(v);
    }
    assert(out@ =~= Seq::new(n as nat, |i: int| threshold_u8(src@[i], t, m, ty)));
    out
}

fn sum_kernel(src: &[u8]) -> (r: u64)
    requires
        sum_u8(src@, src@.len() as int) <= u64::MAX,
    ensures
        r == sum_u8(src@, src@.len() as int),
{
    let n = src.len();
    let mut acc: u64 = 0;
    for i in 0..n
        invariant
            n == src@.len(),
            sum_u8(src@, n as int) <= u64::MAX,
            acc == sum_u8(src@, i as int),
    {
        proof {
            lemma_sum_u8_monotone(src@, i + 1, n as int);
        }
        acc = acc + src[i] as u64;
    }
    acc
}

/// Sums of prefixes grow with the prefix.
proof fn lemma_sum_u8_monotone(s: Seq<u8>, i: int, j: int)
    requires
        0 <= i <= j <= s.len(),
    ensures
        0 <= sum_u8(s, i) <= sum_u8(s, j),
    decreases j - i,
{
    if i < j {
        lemma_sum_u8_monotone(s, i, j - 1);
    } else {
        lemma_sum_u8_nonneg(s, i);
    }
}

proof fn lemma_sum_u8_nonneg(s: Seq<u8>, i: int)
    requires
        0 <= i <= s.len(),
    ensures
        0 <= sum_u8(s, i),
    decreases i,
{
    if i > 0 {
        lemma_sum_u8_nonneg(s, i - 1);
    }
}

// ---------------------------------------------------------------------------
// SimdElement
// ---------------------------------------------------------------------------

/// Element types that may have SIMD kernels.
///
/// Every method but `depth` has a default that performs nothing and returns
/// `false` (or `None`), telling the caller to run its scalar loop instead;
/// `u8` overrides the operations it has kernels for.
pub trait SimdElement: Copy + Sized {
    /// The depth of this element type.
    spec fn spec_depth() -> Depth;

    /// The depth of this element type.
    fn depth() -> (d: Depth)
        ensures
            d == Self::spec_depth(),
    ;

    /// Whether this element type has SIMD kernels.
    fn has_simd() -> (r: bool)
        ensures
            r == Self::spec_depth().spec_has_simd(),
    {
        Self::depth().has_simd()
    }

    /// Element-wise `a + b` into `dst`.
    fn simd_add(dst: &mut [Self], a: &[Self], b: &[Self]) -> (r: bool)
        requires
            a@.len() >= old(dst)@.len(),
            b@.len() >= old(dst)@.len(),
        ensures
            final(dst)@.len() == old(dst)@.len(),
            !r ==> final(dst)@ == old(dst)@,
        default_ensures
            !r,
            final(dst)@ == old(dst)@,
    {
        false
    }

    /// Element-wise `a - b` into `dst`.
    fn simd_sub(dst: &mut [Self], a: &[Self], b: &[Self]) -> (r: bool)
        requires
            a@.len() >= old(dst)@.len(),
            b@.len() >= old(dst)@.len(),
        ensures
            final(dst)@.len() == old(dst)@.len(),
            !r ==> final(dst)@ == old(dst)@,
        default_ensures
            !r,
            final(dst)@ == old(dst)@,
    {
        false
    }

    /// Element-wise `a * b` into `dst`.
    fn simd_mul(dst: &mut [Self], a: &[Self], b: &[Self]) -> (r: bool)
        requires
            a@.len() >= old(dst)@.len(),
            b@.len() >= old(dst)@.len(),
        ensures
            final(dst)@.len() == old(dst)@.len(),
            !r ==> final(dst)@ == old(dst)@,
        default_ensures
            !r,
            final(dst)@ == old(dst)@,
    {
        false
    }

    /// Element-wise `a / b` into `dst`.
    fn simd_div(dst: &mut [Self], a: &[Self], b: &[Self]) -> (r: bool)
        requires
            a@.len() >= old(dst)@.len(),
            b@.len() >= old(dst)@.len(),
        ensures
            final(dst)@.len() == old(dst)@.len(),
            !r ==> final(dst)@ == old(dst)@,
        default_ensures
            !r,
            final(dst)@ == old(dst)@,
    {
        false
    }

    /// Element-wise minimum into `dst`.
    fn simd_min(dst: &mut [Self], a: &[Self], b: &[Self]) -> (r: bool)
        requires
            a@.len() >= old(dst)@.len(),
            b@.len() >= old(dst)@.len(),
        ensures
            final(dst)@.len() == old(dst)@.len(),
            !r ==> final(dst)@ == old(dst)@,
        default_ensures
            !r,
            final(dst)@ == old(dst)@,
    {
        false
    }

    /// Element-wise maximum into `dst`.
    fn simd_max(dst: &mut [Self], a: &[Self], b: &[Self]) -> (r: bool)
        requires
            a@.len() >= old(dst)@.len(),
            b@.len() >= old(dst)@.len(),
        ensures
            final(dst)@.len() == old(dst)@.len(),
            !r ==> final(dst)@ == old(dst)@,
        default_ensures
            !r,
            final(dst)@ == old(dst)@,
    {
        false
    }

    /// Element-wise square root into `dst`.
    fn simd_sqrt(dst: &mut [Self], src: &[Self]) -> (r: bool)
        requires
            src@.len() >= old(dst)@.len(),
        ensures
            final(dst)@.len() == old(dst)@.len(),
            !r ==> final(dst)@ == old(dst)@,
        default_ensures
            !r,
            final(dst)@ == old(dst)@,
    {
        false
    }

    /// Element-wise absolute value into `dst`.
    fn simd_abs(dst: &mut [Self], src: &[Self]) -> (r: bool)
        requires
            src@.len() >= old(dst)@.len(),
        ensures
            final(dst)@.len() == old(dst)@.len(),
            !r ==> final(dst)@ == old(dst)@,
        default_ensures
            !r,
            final(dst)@ == old(dst)@,
    {
        false
    }

    /// Element-wise `sqrt(x * x + y * y)` into `dst`.
    fn simd_magnitude(dst: &mut [Self], x: &[Self], y: &[Self]) -> (r: bool)
        requires
            x@.len() >= old(dst)@.len(),
            y@.len() >= old(dst)@.len(),
        ensures
            final(dst)@.len() == old(dst)@.len(),
            !r ==> final(dst)@ == old(dst)@,
        default_ensures
            !r,
            final(dst)@ == old(dst)@,
    {
        false
    }

    /// Sum of all elements, or `None` when there is no kernel.
    fn simd_sum(src: &[Self]) -> (r: Option<u64>)
        requires
            Self::sum_fits(src@),
        default_ensures
            r is None,
    {
        None
    }

    /// The sum `simd_sum` computes fits in its accumulator; it always holds
    /// for element types without a summing kernel.
    spec fn sum_fits(src: Seq<Self>) -> bool;

    /// Threshold operation `thresh_type` (`THRESH_BINARY` ...
    /// `THRESH_TOZERO_INV`) into `dst`; `false` for any other type.
    fn simd_threshold(dst: &mut [Self], src: &[Self], thresh: Self, maxval: Self, thresh_type: u8) -> (r: bool)
        requires
            thresh_type <= THRESH_TOZERO_INV ==> src@.len() >= old(dst)@.len(),
        ensures
            final(dst)@.len() == old(dst)@.len(),
            !r ==> final(dst)@ == old(dst)@,
        default_ensures
            !r,
            final(dst)@ == old(dst)@,
    {
        false
    }
}

impl SimdElement for i8 {
    open spec fn spec_depth() -> Depth {
        Depth::I8
    }

    fn depth() -> (d: Depth) {
        Depth::I8
    }

    open spec fn sum_fits(src: Seq<i8>) -> bool {
        true
    }
}

impl SimdElement for i16 {
    open spec fn spec_depth() -> Depth {
        Depth::I16
    }

    fn depth() -> (d: Depth) {
        Depth::I16
    }

    open spec fn sum_fits(src: Seq<i16>) -> bool {
        true
    }
}

impl SimdElement for u16 {
    open spec fn spec_depth() -> Depth {
        Depth::U16
    }

    fn depth() -> (d: Depth) {
        Depth::U16
    }

    open spec fn sum_fits(src: Seq<u16>) -> bool {
        true
    }
}

impl SimdElement for i32 {
    open spec fn spec_depth() -> Depth {
        Depth::I32
    }

    fn depth() -> (d: Depth) {
        Depth::I32
    }

    open spec fn sum_fits(src: Seq<i32>) -> bool {
        true
    }
}

impl SimdElement for u32 {
    open spec fn spec_depth() -> Depth {
        Depth::U32
    }

    fn depth() -> (d: Depth) {
        Depth::U32
    }

    open spec fn sum_fits(src: Seq<u32>) -> bool {
        true
    }
}

impl SimdElement for i64 {
    open spec fn spec_depth() -> Depth {
        Depth::I64
    }

    fn depth() -> (d: Depth) {
        Depth::I64
    }

    open spec fn sum_fits(src: Seq<i64>) -> bool {
        true
    }
}

impl SimdElement for u64 {
    open spec fn spec_depth() -> Depth {
        Depth::U64
    }

    fn depth() -> (d: Depth) {
        Depth::U64
    }

    open spec fn sum_fits(src: Seq<u64>) -> bool {
        true
    }
}

impl SimdElement for u8 {
    open spec fn spec_depth() -> Depth {
        Depth::U8
    }

    fn depth() -> (d: Depth) {
        Depth::U8
    }

    open spec fn sum_fits(src: Seq<u8>) -> bool {
        sum_u8(src, src.len() as int) <= u64::MAX
    }

    /// Saturating element-wise `a + b`.
    fn simd_add(dst: &mut [u8], a: &[u8], b: &[u8]) -> (r: bool)
        ensures
            r,
            final(dst)@ == zip_u8(a@, b@, old(dst)@.len() as int, sat_add_fn()),
    {
        let n = dst.len();
        let kernel = (|| -> (v: Vec<u8>)
                requires
                    a@.len() >= n,
                    b@.len() >= n,
                ensures
                    v@ == zip_u8(a@, b@, n as int, zip_op(ZIP_ADD)),
                { zip_kernel(a, b, n, ZIP_ADD) });
        let out = dispatch(kernel);
        copy_into(dst, &out);
        assert(zip_op(ZIP_ADD) == sat_add_fn());
        true
    }

    /// Saturating element-wise `a - b`.
    fn simd_sub(dst: &mut [u8], a: &[u8], b: &[u8]) -> (r: bool)
        ensures
            r,
            final(dst)@ == zip_u8(a@, b@, old(dst)@.len() as int, sat_sub_fn()),
    {
        let n = dst.len();
        let kernel = (|| -> (v: Vec<u8>)
                requires
                    a@.len() >= n,
                    b@.len() >= n,
                ensures
                    v@ == zip_u8(a@, b@, n as int, zip_op(ZIP_SUB)),
                { zip_kernel(a, b, n, ZIP_SUB) });
        let out = dispatch(kernel);
        copy_into(dst, &out);
        assert(zip_op(ZIP_SUB) == sat_sub_fn());
        true
    }

    /// Element-wise minimum.
    fn simd_min(dst: &mut [u8], a: &[u8], b: &[u8]) -> (r: bool)
        ensures
            r,
            final(dst)@ == zip_u8(a@, b@, old(dst)@.len() as int, min_fn()),
    {
        let n = dst.len();
        let kernel = (|| -> (v: Vec<u8>)
                requires
                    a@.len() >= n,
                    b@.len() >= n,
                ensures
                    v@ == zip_u8(a@, b@, n as int, zip_op(ZIP_MIN)),
                { zip_kernel(a, b, n, ZIP_MIN) });
        let out = dispatch(kernel);
        copy_into(dst, &out);
        assert(zip_op(ZIP_MIN) == min_fn());
        true
    }

    /// Element-wise maximum.
    fn simd_max(dst: &mut [u8], a: &[u8], b: &[u8]) -> (r: bool)
        ensures
            r,
            final(dst)@ == zip_u8(a@, b@, old(dst)@.len() as int, max_fn()),
    {
        let n = dst.len();
        let kernel = (|| -> (v: Vec<u8>)
                requires
                    a@.len() >= n,
                    b@.len() >= n,
                ensures
                    v@ == zip_u8(a@, b@, n as int, zip_op(ZIP_MAX)),
                { zip_kernel(a, b, n, ZIP_MAX) });
        let out = dispatch(kernel);
        copy_into(dst, &out);
        assert(zip_op(ZIP_MAX) == max_fn());
        true
    }

    /// Sum of all elements.
    fn simd_sum(src: &[u8]) -> (r: Option<u64>)
        ensures
            r == Some(sum_u8(src@, src@.len() as int) as u64),
    {
        Some(sum_kernel(src))
    }

    /// Threshold operation `thresh_type` into `dst`; `false`, leaving `dst`
    /// untouched, for a type above `THRESH_TOZERO_INV`.
    fn simd_threshold(dst: &mut [u8], src: &[u8], thresh: u8, maxval: u8, thresh_type: u8) -> (r: bool)
        ensures
            r == (thresh_type <= THRESH_TOZERO_INV),
            r ==> final(dst)@ == Seq::new(
                old(dst)@.len(),
                |i: int| threshold_u8(src@[i], thresh, maxval, thresh_type),
            ),
    {
        if thresh_type > THRESH_TOZERO_INV {
            return false;
        }
        let n = dst.len();
        let kernel = (|| -> (v: Vec<u8>)
                requires
                    src@.len() >= n,
                ensures
                    v@ == Seq::new(n as nat, |i: int| threshold_u8(src@[i], thresh, maxval, thresh_type)),
                { threshold_kernel(src, n, thresh, maxval, thresh_type) });
        let out = dispatch(kernel);
        copy_into(dst, &out);
        true
    }
}

// ---------------------------------------------------------------------------
// Colour to gray, u8 fixed point
// ---------------------------------------------------------------------------

/// Fixed-point luma: `(77 r + 150 g + 29 b + 128) >> 8`, the weights
/// `0.299, 0.587, 0.114` scaled by 256.
pub open spec fn gray_level(r: u8, g: u8, b: u8) -> u8 {
    ((77 * r + 150 * g + 29 * b + 128) / 256) as u8
}

/// Gray levels of the first `n` pixels of `src`, `stride` bytes apart; the
/// channel order is red, green, blue, or blue, green, red when `bgr` holds.
pub open spec fn gray_of(src: Seq<u8>, n: int, stride: int, bgr: bool) -> Seq<u8> {
    Seq::new(
        n as nat,
        |i: int|
            if bgr {
                gray_level(src[stride * i + 2], src[stride * i + 1], src[stride * i])
            } else {
                gray_level(src[stride * i], src[stride * i + 1], src[stride * i + 2])
            },
    )
}

proof fn lemma_shr8(x: u16)
    ensures
        x >> 8 == x / 256,
{
    assert(x >> 8 == x / 256) by (bit_vector);
}

fn luma(r: u8, g: u8, b: u8) -> (v: u8)
    ensures
        v == gray_level(r, g, b),
{
    let x: u16 = r as u16 * 77 + g as u16 * 150 + b as u16 * 29 + 128;
    proof {
        lemma_shr8(x);
    }
    (x >> 8) as u8
}

fn gray_kernel(src: &[u8], n: usize, stride: usize, bgr: bool) -> (r: Vec<u8>)
    requires
        3 <= stride,
        src@.len() == n * stride,
    ensures
        r@ == gray_of(src@, n as int, stride as int, bgr),
{
    let mut out: Vec<u8> = Vec::new();
    let len = src.len();
    for i in 0..n
        invariant
            3 <= stride,
            len == src@.len(),
            src@.len() == n * stride,
            out@.len() == i,
            forall|j: int| 0 <= j < i ==> #[trigger] out@[j] == gray_of(src@, n as int, stride as int, bgr)[j],
    {
        proof {
            assert(stride * i + stride <= n * stride) by (nonlinear_arith)
                requires
                    i < n,
                    stride >= 0,
            ;
            assert(0 <= stride * i) by (nonlinear_arith)
                requires
                    stride >= 0,
            ;
        }
        let base = stride * i;
        let v = if bgr {
            luma(src[base + 2], src[base + 1], src[base])
        } else {
            luma(src[base], src[base + 1], src[base + 2])
        };
        out.push(v);
    }
    assert(out@ =~= gray_of(src@, n as int, stride as int, bgr));
    out
}

fn gray_into(gray_data: &mut [u8], src: &[u8], stride: usize, bgr: bool)
    requires
        3 <= stride,
        src@.len() == old(gray_data)@.len() * stride,
    ensures
        final(gray_data)@ == gray_of(src@, old(gray_data)@.len() as int, stride as int, bgr),
{
    let n = gray_data.len();
    let kernel = (|| -> (v: Vec<u8>)
        requires
            3 <= stride,
            src@.len() == n * stride,
        ensures
            v@ == gray_of(src@, n as int, stride as int, bgr),
        { gray_kernel(src, n, stride, bgr) });
    let out = dispatch(kernel);
    copy_into(gray_data, &out);
}

/// Converts RGB pixels to gray levels; `rgb_data` holds three bytes per
/// pixel of `gray_data`.
pub fn simd_rgb_to_gray_u8(gray_data: &mut [u8], rgb_data: &[u8])
    requires
        rgb_data@.len() == old(gray_data)@.len() * 3,
    ensures
        final(gray_data)@ == gray_of(rgb_data@, old(gray_data)@.len() as int, 3, false),
{
    gray_into(gray_data, rgb_data, 3, false);
}

/// Converts BGR pixels to gray levels; `bgr_data` holds three bytes per
/// pixel of `gray_data`.
pub fn simd_bgr_to_gray_u8(gray_data: &mut [u8], bgr_data: &[u8])
    requires
        bgr_data@.len() == old(gray_data)@.len() * 3,
    ensures
        final(gray_data)@ == gray_of(bgr_data@, old(gray_data)@.len() as int, 3, true),
{
    gray_into(gray_data, bgr_data, 3, true);
}

/// Converts RGBA pixels to gray levels, ignoring alpha; `rgba_data` holds
/// four bytes per pixel of `gray_data`.
pub fn simd_rgba_to_gray_u8(gray_data: &mut [u8], rgba_data: &[u8])
    requires
        rgba_data@.len() == old(gray_data)@.len() * 4,
    ensures
        final(gray_data)@ == gray_of(rgba_data@, old(gray_data)@.len() as int, 4, false),
{
    gray_into(gray_data, rgba_data, 4, false);
}

/// Converts BGRA pixels to gray levels, ignoring alpha; `bgra_data` holds
/// four bytes per pixel of `gray_data`.
pub fn simd_bgra_to_gray_u8(gray_data: &mut [u8], bgra_data: &[u8])
    requires
        bgra_data@.len() == old(gray_data)@.len() * 4,
    ensures
        final(gray_data)@ == gray_of(bgra_data@, old(gray_data)@.len() as int, 4, true),
{
    gray_into(gray_data, bgra_data, 4, true);
}

// ---------------------------------------------------------------------------
// Laws of the u8 kernels
// ---------------------------------------------------------------------------

/// A gray pixel, whose three channels are equal, keeps its level: the
/// weights sum to 256.
pub proof fn law_gray_of_neutral_pixel(src: Seq<u8>, n: int, stride: int, bgr: bool, i: int)
    requires
        3 <= stride,
        0 <= i < n,
        src.len() == n * stride,
        src[stride * i] == src[stride * i + 1],
        src[stride * i + 1] == src[stride * i + 2],
    ensures
        gray_of(src, n, stride, bgr)[i] == src[stride * i],
{
    let v = src[stride * i];
    assert((77 * v + 150 * v + 29 * v + 128) / 256 == v) by (nonlinear_arith)
        requires
            0 <= v <= 255,
    ;
}

/// Reading pixels in blue, green, red order gives the levels that reading
/// the same pixels stored in red, green, blue order gives.
pub proof fn law_bgr_matches_rgb(rgb: Seq<u8>, bgr: Seq<u8>, n: int, stride: int)
    requires
        3 <= stride,
        0 <= n,
        rgb.len() == n * stride,
        bgr.len() == n * stride,
        forall|i: int|
            0 <= i < n ==> #[trigger] bgr[stride * i] == rgb[stride * i + 2] && bgr[stride * i + 1]
                == rgb[stride * i + 1] && bgr[stride * i + 2] == rgb[stride * i],
    ensures
        gray_of(bgr, n, stride, true) == gray_of(rgb, n, stride, false),
{
    assert(gray_of(bgr, n, stride, true) =~= gray_of(rgb, n, stride, false));
}

/// Element by element, the minimum and the maximum of two images add up to
/// the sum of the images, and the minimum never exceeds the maximum.
pub proof fn law_min_max_partition(a: Seq<u8>, b: Seq<u8>, n: int)
    requires
        0 <= n <= a.len(),
        n <= b.len(),
    ensures
        forall|i: int|
            0 <= i < n ==> #[trigger] zip_u8(a, b, n, min_fn())[i] + zip_u8(
                a,
                b,
                n,
                max_fn(),
            )[i] == a[i] + b[i],
        forall|i: int|
            0 <= i < n ==> #[trigger] zip_u8(a, b, n, min_fn())[i] <= zip_u8(
                a,
                b,
                n,
                max_fn(),
            )[i],
{
}

/// Saturating addition does not depend on the order of its operands and
/// never yields less than either operand.
pub proof fn law_sat_add(x: u8, y: u8)
    ensures
        sat_add(x, y) == sat_add(y, x),
        sat_add(x, y) >= x,
        sat_add(x, y) >= y,
        x + y <= 255 ==> sat_add(x, y) == x + y,
{
}

/// Saturating subtraction undoes saturating addition when the sum did not
/// saturate.
pub proof fn law_sat_sub_undoes_add(x: u8, y: u8)
    requires
        x + y <= 255,
    ensures
        sat_sub(sat_add(x, y), y) == x,
{
}

/// The binary threshold and its inverse split `maxval` between them: one
/// gives `maxval` exactly where the other gives zero.  Likewise the two
/// to-zero thresholds split the value, and truncation never exceeds either
/// the threshold or the value.
pub proof fn law_threshold_complements(x: u8, t: u8, m: u8)
    ensures
        threshold_u8(x, t, m, THRESH_BINARY) + threshold_u8(x, t, m, THRESH_BINARY_INV) == m,
        threshold_u8(x, t, m, THRESH_TOZERO) + threshold_u8(x, t, m, THRESH_TOZERO_INV) == x,
        threshold_u8(x, t, m, THRESH_TRUNC) <= t || threshold_u8(x, t, m, THRESH_TRUNC) == x,
        threshold_u8(x, t, m, THRESH_TRUNC) <= x,
        threshold_u8(x, t, m, THRESH_TRUNC) == min_u8(x, t),
{
}

} // verus!
