use vstd::prelude::*;

use crate::cvcore::element::Element;
use crate::cvcore::error::{PureCvError, Result};
use crate::cvcore::matrix::{dims_fit, flat_index, lemma_flat_index_bound, Matrix};
use vstd::arithmetic::div_mod::lemma_fundamental_div_mod_converse;

verus! {

/// Flag bit: use the transpose of the first operand.
pub const GEMM_1_T: i32 = 1;

/// Flag bit: use the transpose of the second operand.
pub const GEMM_2_T: i32 = 2;

/// Flag bit: use the transpose of the third operand.
pub const GEMM_3_T: i32 = 4;

/// Whether flag bit `bit` is set in `flags`.
pub open spec fn flag_set(flags: i32, bit: i32) -> bool {
    flags & bit != 0
}

/// Rows of `op(src1)`, the number of rows of the product.
pub open spec fn gemm_m<T>(src1: &Matrix<T>, flags: i32) -> int {
    if flag_set(flags, GEMM_1_T) { src1.cols as int } else { src1.rows as int }
}

/// Columns of `op(src1)`, the length of the inner product.
pub open spec fn gemm_k1<T>(src1: &Matrix<T>, flags: i32) -> int {
    if flag_set(flags, GEMM_1_T) { src1.rows as int } else { src1.cols as int }
}

/// Rows of `op(src2)`.
pub open spec fn gemm_k2<T>(src2: &Matrix<T>, flags: i32) -> int {
    if flag_set(flags, GEMM_2_T) { src2.cols as int } else { src2.rows as int }
}

/// Columns of `op(src2)`, the number of columns of the product.
pub open spec fn gemm_n<T>(src2: &Matrix<T>, flags: i32) -> int {
    if flag_set(flags, GEMM_2_T) { src2.rows as int } else { src2.cols as int }
}

/// `(r * cols + c) * ch + k` can be computed step by step in a `usize`.
pub open spec fn flat_fits(cols: int, ch: int, r: int, c: int, k: int) -> bool {
    r * cols + c <= usize::MAX && flat_index(cols, ch, r, c, k) <= usize::MAX
}

/// Flat position in `src1` of element `(i, l)` of `op(src1)`, channel `c`.
pub open spec fn gemm_idx1<T>(src1: &Matrix<T>, flags: i32, i: int, l: int, c: int) -> int {
    if flag_set(flags, GEMM_1_T) {
        flat_index(src1.cols as int, src1.channels as int, l, i, c)
    } else {
        flat_index(src1.cols as int, src1.channels as int, i, l, c)
    }
}

/// Flat position in `src2` of element `(l, j)` of `op(src2)`, channel `c`.
pub open spec fn gemm_idx2<T>(src2: &Matrix<T>, flags: i32, l: int, j: int, c: int) -> int {
    if flag_set(flags, GEMM_2_T) {
        flat_index(src2.cols as int, src2.channels as int, j, l, c)
    } else {
        flat_index(src2.cols as int, src2.channels as int, l, j, c)
    }
}

/// Flat position in `src3` of element `(i, j)` of `op(src3)`, channel `c`.
pub open spec fn gemm_idx3<T>(src3: &Matrix<T>, flags: i32, i: int, j: int, c: int) -> int {
    if flag_set(flags, GEMM_3_T) {
        flat_index(src3.cols as int, src3.channels as int, j, i, c)
    } else {
        flat_index(src3.cols as int, src3.channels as int, i, j, c)
    }
}

/// The position of element `(i, l)` of `op(src1)` can be computed in a `usize`.
pub open spec fn gemm_fits1<T>(src1: &Matrix<T>, flags: i32, i: int, l: int, c: int) -> bool {
    if flag_set(flags, GEMM_1_T) {
        flat_fits(src1.cols as int, src1.channels as int, l, i, c)
    } else {
        flat_fits(src1.cols as int, src1.channels as int, i, l, c)
    }
}

/// The position of element `(l, j)` of `op(src2)` can be computed in a `usize`.
pub open spec fn gemm_fits2<T>(src2: &Matrix<T>, flags: i32, l: int, j: int, c: int) -> bool {
    if flag_set(flags, GEMM_2_T) {
        flat_fits(src2.cols as int, src2.channels as int, j, l, c)
    } else {
        flat_fits(src2.cols as int, src2.channels as int, l, j, c)
    }
}

/// The position of element `(i, j)` of `op(src3)` can be computed in a `usize`.
pub open spec fn gemm_fits3<T>(src3: &Matrix<T>, flags: i32, i: int, j: int, c: int) -> bool {
    if flag_set(flags, GEMM_3_T) {
        flat_fits(src3.cols as int, src3.channels as int, j, i, c)
    } else {
        flat_fits(src3.cols as int, src3.channels as int, i, j, c)
    }
}

/// `sum over l < k of op(src1)[i][l] * op(src2)[l][j]`, in channel `c`.
pub open spec fn gemm_sum<T: Element>(
    src1: &Matrix<T>,
    src2: &Matrix<T>,
    flags: i32,
    i: int,
    j: int,
    c: int,
    k: int,
) -> int
    decreases k,
{
    if k <= 0 {
        0
    } else {
        gemm_sum(src1, src2, flags, i, j, c, k - 1) + src1.data@[gemm_idx1(
            src1,
            flags,
            i,
            k - 1,
            c,
        )].val() * src2.data@[gemm_idx2(src2, flags, k - 1, j, c)].val()
    }
}

/// Whether the third operand takes part: it must be asked for and have rows.
pub open spec fn gemm_reads_src3<T>(src3: &Matrix<T>, use_src3: bool) -> bool {
    use_src3 && src3.rows > 0
}

/// Element `(i, j)` of `op(src3)` in channel `c` when the third operand takes
/// part, zero otherwise.
pub open spec fn gemm_addend<T: Element>(
    src3: &Matrix<T>,
    flags: i32,
    use_src3: bool,
    i: int,
    j: int,
    c: int,
) -> int {
    if gemm_reads_src3(src3, use_src3) {
        src3.data@[gemm_idx3(src3, flags, i, j, c)].val()
    } else {
        0
    }
}

/// Every position of the first two operands the product reads can be
/// computed in a `usize` and lies inside that operand's data.  The positions
/// grow with each loop index, so it is enough that the last ones read do.
pub open spec fn gemm_reads12_in_bounds<T>(src1: &Matrix<T>, src2: &Matrix<T>, flags: i32) -> bool {
    let m = gemm_m(src1, flags);
    let n = gemm_n(src2, flags);
    let k = gemm_k1(src1, flags);
    let ch = src1.channels as int;
    (m > 0 && n > 0 && ch > 0 && k > 0) ==> {
        &&& gemm_fits1(src1, flags, m - 1, k - 1, ch - 1)
        &&& gemm_idx1(src1, flags, m - 1, k - 1, ch - 1) < src1.data@.len()
        &&& gemm_fits2(src2, flags, k - 1, n - 1, ch - 1)
        &&& gemm_idx2(src2, flags, k - 1, n - 1, ch - 1) < src2.data@.len()
    }
}

/// Every position of the third operand the product reads, if it reads it,
/// can be computed in a `usize` and lies inside its data.
pub open spec fn gemm_reads3_in_bounds<T>(
    src1: &Matrix<T>,
    src2: &Matrix<T>,
    src3: &Matrix<T>,
    flags: i32,
    use_src3: bool,
) -> bool {
    let m = gemm_m(src1, flags);
    let n = gemm_n(src2, flags);
    let ch = src1.channels as int;
    (m > 0 && n > 0 && ch > 0 && gemm_reads_src3(src3, use_src3)) ==> {
        &&& gemm_fits3(src3, flags, m - 1, n - 1, ch - 1)
        &&& gemm_idx3(src3, flags, m - 1, n - 1, ch - 1) < src3.data@.len()
    }
}

/// Every position the product reads can be computed and lies inside its
/// operand's data, so the product never reads out of bounds.
pub open spec fn gemm_reads_in_bounds<T>(
    src1: &Matrix<T>,
    src2: &Matrix<T>,
    src3: &Matrix<T>,
    flags: i32,
    use_src3: bool,
) -> bool {
    gemm_reads12_in_bounds(src1, src2, flags) && gemm_reads3_in_bounds(
        src1,
        src2,
        src3,
        flags,
        use_src3,
    )
}

/// `(a * x + b) * y + z` grows with `a`, `b` and `z`.
pub proof fn lemma_index_monotone(a: int, b: int, z: int, x: int, y: int, ma: int, mb: int, mz: int)
    requires
        0 <= a <= ma,
        0 <= b <= mb,
        0 <= z <= mz,
        x >= 0,
        y >= 0,
    ensures
        0 <= a * x <= a * x + b <= ma * x + mb,
        0 <= (a * x + b) * y <= (a * x + b) * y + z <= (ma * x + mb) * y + mz,
{
    assert(0 <= a * x <= ma * x) by (nonlinear_arith)
        requires
            0 <= a <= ma,
            x >= 0,
    ;
    let p = a * x + b;
    let q = ma * x + mb;
    assert(0 <= p * y <= q * y) by (nonlinear_arith)
        requires
            0 <= p <= q,
            y >= 0,
    ;
}

/// The integer part of a generalized matrix product
/// `alpha * op(src1) * op(src2) + beta * op(src3)`: for every cell and
/// channel of the `rows` x `cols` x `channels` result, the inner product
/// `op(src1) * op(src2)` and the matching element of `op(src3)`, in the
/// result's row-major, interleaved-channel order.
pub struct GemmTerms {
    pub rows: usize,
    pub cols: usize,
    pub channels: usize,
    pub products: Vec<i128>,
    pub addends: Vec<i128>,
}

/// Row `i` of flat position `p` in an `n`-column, `ch`-channel layout.
pub open spec fn cell_row(n: int, ch: int, p: int) -> int {
    (p / ch) / n
}

/// Column of flat position `p` in an `n`-column, `ch`-channel layout.
pub open spec fn cell_col(n: int, ch: int, p: int) -> int {
    (p / ch) % n
}

/// Channel of flat position `p` in a `ch`-channel layout.
pub open spec fn cell_channel(ch: int, p: int) -> int {
    p % ch
}

/// Reading back the row, column and channel of a flat position.
pub proof fn lemma_cell_decode(n: int, ch: int, i: int, j: int, c: int)
    requires
        0 <= i,
        0 <= j < n,
        0 <= c < ch,
    ensures
        cell_row(n, ch, flat_index(n, ch, i, j, c)) == i,
        cell_col(n, ch, flat_index(n, ch, i, j, c)) == j,
        cell_channel(ch, flat_index(n, ch, i, j, c)) == c,
{
    let q = i * n + j;
    assert(0 <= q) by (nonlinear_arith)
        requires
            0 <= i,
            0 <= j,
            n > 0,
            q == i * n + j,
    ;
    lemma_fundamental_div_mod_converse(flat_index(n, ch, i, j, c), ch, q, c);
    lemma_fundamental_div_mod_converse(q, n, i, j);
}

/// Computes the flat position `(r * cols + c) * ch + k`, or `None` when it
/// does not fit in a `usize`.
fn flat_checked(cols: usize, ch: usize, r: usize, c: usize, k: usize) -> (res: Option<usize>)
    ensures
        res matches Some(v) ==> v == flat_index(cols as int, ch as int, r as int, c as int, k as int),
        res is Some <==> flat_fits(cols as int, ch as int, r as int, c as int, k as int),
{
    proof {
        lemma_index_monotone(r as int, c as int, k as int, cols as int, ch as int, r as int, c as int, k as int);
    }
    match r.checked_mul(cols) {
        None => None,
        Some(a) => match a.checked_add(c) {
            None => None,
            Some(b) => match b.checked_mul(ch) {
                None => None,
                Some(d) => d.checked_add(k),
            },
        },
    }
}

/// Whether `flags` selects the transpose for the operand of flag bit `bit`.
fn flag(flags: i32, bit: i32) -> (r: bool)
    ensures
        r == flag_set(flags, bit),
{
    (flags & bit) != 0
}

/// Whether the product of the given operands reads only inside their data.
pub fn gemm_in_bounds<T>(
    src1: &Matrix<T>,
    src2: &Matrix<T>,
    src3: &Matrix<T>,
    flags: i32,
    use_src3: bool,
) -> (r: bool)
    ensures
        r == gemm_reads_in_bounds(src1, src2, src3, flags, use_src3),
{
    let trans1 = flag(flags, GEMM_1_T);
    let trans2 = flag(flags, GEMM_2_T);
    let trans3 = flag(flags, GEMM_3_T);
    let (m, k) = if trans1 {
        (src1.cols, src1.rows)
    } else {
        (src1.rows, src1.cols)
    };
    let n = if trans2 {
        src2.rows
    } else {
        src2.cols
    };
    let ch = src1.channels;
    if m == 0 || n == 0 || ch == 0 {
        return true;
    }
    if k > 0 {
        let i1 = if trans1 {
            flat_checked(src1.cols, src1.channels, k - 1, m - 1, ch - 1)
        } else {
            flat_checked(src1.cols, src1.channels, m - 1, k - 1, ch - 1)
        };
        match i1 {
            None => return false,
            Some(v) => if v >= src1.data.len() {
                return false;
            },
        }
        let i2 = if trans2 {
            flat_checked(src2.cols, src2.channels, n - 1, k - 1, ch - 1)
        } else {
            flat_checked(src2.cols, src2.channels, k - 1, n - 1, ch - 1)
        };
        match i2 {
            None => return false,
            Some(v) => if v >= src2.data.len() {
                return false;
            },
        }
    }
    if use_src3 && src3.rows > 0 {
        let i3 = if trans3 {
            flat_checked(src3.cols, src3.channels, n - 1, m - 1, ch - 1)
        } else {
            flat_checked(src3.cols, src3.channels, m - 1, n - 1, ch - 1)
        };
        match i3 {
            None => return false,
            Some(v) => if v >= src3.data.len() {
                return false;
            },
        }
    }
    true
}

/// Reads at indices no larger than the last ones stay computable and inside
/// the operands.
proof fn lemma_gemm_reads<T>(
    src1: &Matrix<T>,
    src2: &Matrix<T>,
    flags: i32,
    i: int,
    j: int,
    l: int,
    c: int,
)
    requires
        gemm_reads12_in_bounds(src1, src2, flags),
        0 <= i < gemm_m(src1, flags),
        0 <= j < gemm_n(src2, flags),
        0 <= l < gemm_k1(src1, flags),
        0 <= c < src1.channels,
    ensures
        gemm_fits1(src1, flags, i, l, c),
        gemm_idx1(src1, flags, i, l, c) < src1.data@.len(),
        gemm_fits2(src2, flags, l, j, c),
        gemm_idx2(src2, flags, l, j, c) < src2.data@.len(),
{
    let m = gemm_m(src1, flags);
    let n = gemm_n(src2, flags);
    let k = gemm_k1(src1, flags);
    let ch = src1.channels as int;
    if flag_set(flags, GEMM_1_T) {
        lemma_index_monotone(l, i, c, src1.cols as int, ch, k - 1, m - 1, ch - 1);
    } else {
        lemma_index_monotone(i, l, c, src1.cols as int, ch, m - 1, k - 1, ch - 1);
    }
    if flag_set(flags, GEMM_2_T) {
        lemma_index_monotone(j, l, c, src2.cols as int, src2.channels as int, n - 1, k - 1, ch - 1);
    } else {
        lemma_index_monotone(l, j, c, src2.cols as int, src2.channels as int, k - 1, n - 1, ch - 1);
    }
}

/// The read of the third operand stays computable and inside it.
proof fn lemma_gemm_read3<T>(
    src1: &Matrix<T>,
    src2: &Matrix<T>,
    src3: &Matrix<T>,
    flags: i32,
    use_src3: bool,
    i: int,
    j: int,
    c: int,
)
    requires
        gemm_reads_in_bounds(src1, src2, src3, flags, use_src3),
        gemm_reads_src3(src3, use_src3),
        0 <= i < gemm_m(src1, flags),
        0 <= j < gemm_n(src2, flags),
        0 <= c < src1.channels,
    ensures
        gemm_fits3(src3, flags, i, j, c),
        gemm_idx3(src3, flags, i, j, c) < src3.data@.len(),
{
    let m = gemm_m(src1, flags);
    let n = gemm_n(src2, flags);
    let ch = src1.channels as int;
    if flag_set(flags, GEMM_3_T) {
        lemma_index_monotone(j, i, c, src3.cols as int, src3.channels as int, n - 1, m - 1, ch - 1);
    } else {
        lemma_index_monotone(i, j, c, src3.cols as int, src3.channels as int, m - 1, n - 1, ch - 1);
    }
}

/// The inner product of the products and reads only inside the operands.
fn gemm_cell<T: Element>(
    src1: &Matrix<T>,
    src2: &Matrix<T>,
    flags: i32,
    i: usize,
    j: usize,
    c: usize,
    k: usize,
) -> (sum: i128)
    requires
        gemm_reads12_in_bounds(src1, src2, flags),
        i < gemm_m(src1, flags),
        j < gemm_n(src2, flags),
        c < src1.channels,
        k == gemm_k1(src1, flags),
        gemm_k1(src1, flags) == gemm_k2(src2, flags),
    ensures
        sum as int == gemm_sum(src1, src2, flags, i as int, j as int, c as int, k as int),
{
    let trans1 = flag(flags, GEMM_1_T);
    let trans2 = flag(flags, GEMM_2_T);
    let cols1 = src1.cols;
    let ch1 = src1.channels;
    let cols2 = src2.cols;
    let ch2 = src2.channels;
    let mut sum: i128 = 0;
    for l in 0..k
        invariant
            gemm_reads12_in_bounds(src1, src2, flags),
            i < gemm_m(src1, flags),
            j < gemm_n(src2, flags),
            c < src1.channels,
            k == gemm_k1(src1, flags),
            trans1 == flag_set(flags, GEMM_1_T),
            trans2 == flag_set(flags, GEMM_2_T),
            cols1 == src1.cols,
            ch1 == src1.channels,
            cols2 == src2.cols,
            ch2 == src2.channels,
            sum as int == gemm_sum(src1, src2, flags, i as int, j as int, c as int, l as int),
            -(l as int) * 0x4000_0000_0000_0000 <= sum <= (l as int) * 0x4000_0000_0000_0000,
    {
        proof {
            lemma_gemm_reads(src1, src2, flags, i as int, j as int, l as int, c as int);
            if trans1 {
                lemma_index_monotone(l as int, i as int, c as int, cols1 as int, ch1 as int, l as int, i as int, c as int);
            } else {
                lemma_index_monotone(i as int, l as int, c as int, cols1 as int, ch1 as int, i as int, l as int, c as int);
            }
            if trans2 {
                lemma_index_monotone(j as int, l as int, c as int, cols2 as int, ch2 as int, j as int, l as int, c as int);
            } else {
                lemma_index_monotone(l as int, j as int, c as int, cols2 as int, ch2 as int, l as int, j as int, c as int);
            }
        }
        let idx1 = if trans1 {
            (l * cols1 + i) * ch1 + c
        } else {
            (i * cols1 + l) * ch1 + c
        };
        let idx2 = if trans2 {
            (j * cols2 + l) * ch2 + c
        } else {
            (l * cols2 + j) * ch2 + c
        };
        let a = src1.data[idx1];
        let b = src2.data[idx2];
        proof {
            T::lemma_range(a);
            T::lemma_range(b);
            let x = a.val();
            let y = b.val();
            assert(-0x4000_0000_0000_0000 <= x * y <= 0x4000_0000_0000_0000) by (nonlinear_arith)
                requires
                    -0x8000_0000 <= x <= 0x7fff_ffff,
                    -0x8000_0000 <= y <= 0x7fff_ffff,
            ;
            assert((l as int) * 0x4000_0000_0000_0000 <= 0x1_0000_0000_0000_0000 * 0x4000_0000_0000_0000)
                by (nonlinear_arith)
                requires
                    0 <= l < 0x1_0000_0000_0000_0000,
            ;
            assert((l as int + 1) * 0x4000_0000_0000_0000 == (l as int) * 0x4000_0000_0000_0000 + 0x4000_0000_0000_0000) by (nonlinear_arith);
        }
        sum = sum + T::to_wide(a) * T::to_wide(b);
    }
    sum
}

/// Element `(i, j)` of `op(src3)` in channel `c`, or zero when the third
/// operand does not take part.
fn gemm_addend_at<T: Element>(
    src1: &Matrix<T>,
    src2: &Matrix<T>,
    src3: &Matrix<T>,
    flags: i32,
    use_src3: bool,
    i: usize,
    j: usize,
    c: usize,
) -> (v: i128)
    requires
        gemm_reads_in_bounds(src1, src2, src3, flags, use_src3),
        i < gemm_m(src1, flags),
        j < gemm_n(src2, flags),
        c < src1.channels,
    ensures
        v as int == gemm_addend(src3, flags, use_src3, i as int, j as int, c as int),
{
    if use_src3 && src3.rows > 0 {
        proof {
            lemma_gemm_read3(src1, src2, src3, flags, use_src3, i as int, j as int, c as int);
            if flag_set(flags, GEMM_3_T) {
                lemma_index_monotone(j as int, i as int, c as int, src3.cols as int, src3.channels as int, j as int, i as int, c as int);
            } else {
                lemma_index_monotone(i as int, j as int, c as int, src3.cols as int, src3.channels as int, i as int, j as int, c as int);
            }
        }
        let (r3, c3) = if flag(flags, GEMM_3_T) {
            (j, i)
        } else {
            (i, j)
        };
        let idx3 = (r3 * src3.cols + c3) * src3.channels + c;
        T::to_wide(src3.data[idx3])
    } else {
        0
    }
}

/// Every cell of the result holds, at its flat position, the inner product
/// and the matching element of `op(src3)`.
pub open spec fn gemm_terms_correct<T: Element>(
    t: &GemmTerms,
    src1: &Matrix<T>,
    src2: &Matrix<T>,
    src3: &Matrix<T>,
    flags: i32,
    use_src3: bool,
) -> bool {
    let m = gemm_m(src1, flags);
    let n = gemm_n(src2, flags);
    let k = gemm_k1(src1, flags);
    let ch = src1.channels as int;
    &&& t.rows == m
    &&& t.cols == n
    &&& t.channels == ch
    &&& t.products@.len() == m * n * ch
    &&& t.addends@.len() == m * n * ch
    &&& forall|i: int, j: int, c: int|
        0 <= i < m && 0 <= j < n && 0 <= c < ch ==> #[trigger] t.products@[flat_index(n, ch, i, j, c)]
            == gemm_sum(src1, src2, flags, i, j, c, k)
    &&& forall|i: int, j: int, c: int|
        0 <= i < m && 0 <= j < n && 0 <= c < ch ==> #[trigger] t.addends@[flat_index(n, ch, i, j, c)]
            == gemm_addend(src3, flags, use_src3, i, j, c)
}

/// Computes the integer terms of the generalized matrix product
/// `alpha * op(src1) * op(src2) + beta * op(src3)`, where `op(X)` is `X` or
/// its transpose as the flag bits `GEMM_1_T`, `GEMM_2_T` and `GEMM_3_T` of
/// `flags` select.  The third operand takes part only when `use_src3` holds
/// and it has rows.  The result has `src1.channels` channels.
///
/// Fails with `InvalidDimensions` when the columns of `op(src1)` differ from
/// the rows of `op(src2)`.
pub fn gemm_terms<T: Element>(
    src1: &Matrix<T>,
    src2: &Matrix<T>,
    src3: &Matrix<T>,
    flags: i32,
    use_src3: bool,
) -> (res: Result<GemmTerms>)
    requires
        gemm_k1(src1, flags) == gemm_k2(src2, flags) ==> dims_fit(
            gemm_m(src1, flags),
            gemm_n(src2, flags),
            src1.channels as int,
        ) && gemm_reads_in_bounds(src1, src2, src3, flags, use_src3),
    ensures
        res is Ok <==> gemm_k1(src1, flags) == gemm_k2(src2, flags),
        res is Err ==> res matches Err(PureCvError::InvalidDimensions(_)),
        res matches Ok(t) ==> gemm_terms_correct(&t, src1, src2, src3, flags, use_src3),
{
    let trans1 = flag(flags, GEMM_1_T);
    let trans2 = flag(flags, GEMM_2_T);
    let (m, k1) = if trans1 {
        (src1.cols, src1.rows)
    } else {
        (src1.rows, src1.cols)
    };
    let (k2, n) = if trans2 {
        (src2.cols, src2.rows)
    } else {
        (src2.rows, src2.cols)
    };
    if k1 != k2 {
        return Err(
            PureCvError::InvalidDimensions("Incompatible dimensions for GEMM".to_string()),
        );
    }
    let k = k1;
    let ch = src1.channels;
    let ghost gm = m as int;
    let ghost gn = n as int;
    let ghost gch = ch as int;
    let ghost gk = k as int;
    let mut products: Vec<i128> = Vec::new();
    let mut addends: Vec<i128> = Vec::new();
    proof {
        assert(0 <= m * n) by (nonlinear_arith);
        assert(0 <= m * n * ch) by (nonlinear_arith);
        assert(flat_index(gn, gch, 0, 0, 0) == 0) by (nonlinear_arith);
    }
    for i in 0..m
        invariant
            gm == gemm_m(src1, flags),
            gn == gemm_n(src2, flags),
            gk == gemm_k1(src1, flags),
            gk == gemm_k2(src2, flags),
            gch == src1.channels,
            m == gm,
            n == gn,
            k == gk,
            ch == gch,
            dims_fit(gm, gn, gch),
            gemm_reads_in_bounds(src1, src2, src3, flags, use_src3),
            products@.len() == flat_index(gn, gch, i as int, 0, 0),
            addends@.len() == products@.len(),
            forall|p: int|
                0 <= p < products@.len() ==> #[trigger] products@[p] == gemm_sum(
                    src1,
                    src2,
                    flags,
                    cell_row(gn, gch, p),
                    cell_col(gn, gch, p),
                    cell_channel(gch, p),
                    gk,
                ),
            forall|p: int|
                0 <= p < addends@.len() ==> #[trigger] addends@[p] == gemm_addend(
                    src3,
                    flags,
                    use_src3,
                    cell_row(gn, gch, p),
                    cell_col(gn, gch, p),
                    cell_channel(gch, p),
                ),
    {
        for j in 0..n
            invariant
                gm == gemm_m(src1, flags),
                gn == gemm_n(src2, flags),
                gk == gemm_k1(src1, flags),
                gk == gemm_k2(src2, flags),
                gch == src1.channels,
                i < m,
                m == gm,
                n == gn,
                k == gk,
                ch == gch,
                dims_fit(gm, gn, gch),
                gemm_reads_in_bounds(src1, src2, src3, flags, use_src3),
                products@.len() == flat_index(gn, gch, i as int, j as int, 0),
                addends@.len() == products@.len(),
                forall|p: int|
                    0 <= p < products@.len() ==> #[trigger] products@[p] == gemm_sum(
                        src1,
                        src2,
                        flags,
                        cell_row(gn, gch, p),
                        cell_col(gn, gch, p),
                        cell_channel(gch, p),
                        gk,
                    ),
                forall|p: int|
                    0 <= p < addends@.len() ==> #[trigger] addends@[p] == gemm_addend(
                        src3,
                        flags,
                        use_src3,
                        cell_row(gn, gch, p),
                        cell_col(gn, gch, p),
                        cell_channel(gch, p),
                    ),
        {
            for c in 0..ch
                invariant
                    gm == gemm_m(src1, flags),
                    gn == gemm_n(src2, flags),
                    gk == gemm_k1(src1, flags),
                    gk == gemm_k2(src2, flags),
                    gch == src1.channels,
                    i < m,
                    j < n,
                    m == gm,
                    n == gn,
                    k == gk,
                    ch == gch,
                    gemm_reads_in_bounds(src1, src2, src3, flags, use_src3),
                    products@.len() == flat_index(gn, gch, i as int, j as int, c as int),
                    addends@.len() == products@.len(),
                    forall|p: int|
                        0 <= p < products@.len() ==> #[trigger] products@[p] == gemm_sum(
                            src1,
                            src2,
                            flags,
                            cell_row(gn, gch, p),
                            cell_col(gn, gch, p),
                            cell_channel(gch, p),
                            gk,
                        ),
                    forall|p: int|
                        0 <= p < addends@.len() ==> #[trigger] addends@[p] == gemm_addend(
                            src3,
                            flags,
                            use_src3,
                            cell_row(gn, gch, p),
                            cell_col(gn, gch, p),
                            cell_channel(gch, p),
                        ),
            {
                let sum = gemm_cell(src1, src2, flags, i, j, c, k);
                let v3 = gemm_addend_at(src1, src2, src3, flags, use_src3, i, j, c);
                proof {
                    lemma_cell_decode(gn, gch, i as int, j as int, c as int);
                }
                products.push(sum);
                addends.push(v3);
                proof {
                    assert(flat_index(gn, gch, i as int, j as int, c as int) + 1 == flat_index(
                        gn,
                        gch,
                        i as int,
                        j as int,
                        c + 1,
                    ));
                }
            }
            proof {
                assert(flat_index(gn, gch, i as int, j as int, gch) == flat_index(
                    gn,
                    gch,
                    i as int,
                    j + 1,
                    0,
                )) by (nonlinear_arith);
            }
        }
        proof {
            assert(flat_index(gn, gch, i as int, gn, 0) == flat_index(gn, gch, i + 1, 0, 0))
                by (nonlinear_arith);
        }
    }
    proof {
        assert(flat_index(gn, gch, gm, 0, 0) == gm * gn * gch) by (nonlinear_arith);
        assert(products@.len() == gm * gn * gch);
        assert(addends@.len() == gm * gn * gch);
        assert forall|i: int, j: int, c: int|
            0 <= i < gm && 0 <= j < gn && 0 <= c < gch implies #[trigger] products@[flat_index(
            gn,
            gch,
            i,
            j,
            c,
        )] == gemm_sum(src1, src2, flags, i, j, c, gk) by {
            lemma_flat_index_bound(gm, gn, gch, i, j, c);
            lemma_cell_decode(gn, gch, i, j, c);
        }
        assert forall|i: int, j: int, c: int|
            0 <= i < gm && 0 <= j < gn && 0 <= c < gch implies #[trigger] addends@[flat_index(
            gn,
            gch,
            i,
            j,
            c,
        )] == gemm_addend(src3, flags, use_src3, i, j, c) by {
            lemma_flat_index_bound(gm, gn, gch, i, j, c);
            lemma_cell_decode(gn, gch, i, j, c);
        }
    }
    Ok(GemmTerms { rows: m, cols: n, channels: ch, products, addends })
}

/// `at` is the transpose of `a`: rows and columns swap, channels stay, and
/// every element moves from `(r, c)` to `(c, r)`.
pub open spec fn is_transpose<T>(at: &Matrix<T>, a: &Matrix<T>) -> bool {
    &&& at.rows == a.cols
    &&& at.cols == a.rows
    &&& at.channels == a.channels
    &&& forall|r: int, c: int, k: int|
        0 <= r < at.rows && 0 <= c < at.cols && 0 <= k < at.channels ==> #[trigger] at.data@[flat_index(
            at.cols as int,
            at.channels as int,
            r,
            c,
            k,
        )] == a.data@[flat_index(a.cols as int, a.channels as int, c, r, k)]
}

/// Asking for the transpose of the first operand by flag gives the product
/// that passing its transpose without the flag gives.
pub proof fn law_gemm_transposed_first_operand<T: Element>(
    a: &Matrix<T>,
    at: &Matrix<T>,
    b: &Matrix<T>,
    flags_t: i32,
    flags_n: i32,
    i: int,
    j: int,
    c: int,
)
    requires
        is_transpose(at, a),
        flag_set(flags_t, GEMM_1_T),
        !flag_set(flags_n, GEMM_1_T),
        flag_set(flags_t, GEMM_2_T) == flag_set(flags_n, GEMM_2_T),
        0 <= i < gemm_m(a, flags_t),
        0 <= c < a.channels,
    ensures
        gemm_m(a, flags_t) == gemm_m(at, flags_n),
        gemm_k1(a, flags_t) == gemm_k1(at, flags_n),
        gemm_sum(a, b, flags_t, i, j, c, gemm_k1(a, flags_t)) == gemm_sum(
            at,
            b,
            flags_n,
            i,
            j,
            c,
            gemm_k1(at, flags_n),
        ),
{
    lemma_gemm_sum_transposed(a, at, b, flags_t, flags_n, i, j, c, gemm_k1(a, flags_t));
}

proof fn lemma_gemm_sum_transposed<T: Element>(
    a: &Matrix<T>,
    at: &Matrix<T>,
    b: &Matrix<T>,
    flags_t: i32,
    flags_n: i32,
    i: int,
    j: int,
    c: int,
    l: int,
)
    requires
        is_transpose(at, a),
        flag_set(flags_t, GEMM_1_T),
        !flag_set(flags_n, GEMM_1_T),
        flag_set(flags_t, GEMM_2_T) == flag_set(flags_n, GEMM_2_T),
        0 <= i < gemm_m(a, flags_t),
        0 <= c < a.channels,
        0 <= l <= gemm_k1(a, flags_t),
    ensures
        gemm_sum(a, b, flags_t, i, j, c, l) == gemm_sum(at, b, flags_n, i, j, c, l),
    decreases l,
{
    if l > 0 {
        lemma_gemm_sum_transposed(a, at, b, flags_t, flags_n, i, j, c, l - 1);
        assert(at.data@[flat_index(at.cols as int, at.channels as int, i, l - 1, c)] == a.data@[flat_index(
            a.cols as int,
            a.channels as int,
            l - 1,
            i,
            c,
        )]);
    }
}

/// Asking for the transpose of the second operand by flag gives the product
/// that passing its transpose without the flag gives.
pub proof fn law_gemm_transposed_second_operand<T: Element>(
    a: &Matrix<T>,
    b: &Matrix<T>,
    bt: &Matrix<T>,
    flags_t: i32,
    flags_n: i32,
    i: int,
    j: int,
    c: int,
)
    requires
        is_transpose(bt, b),
        flag_set(flags_t, GEMM_2_T),
        !flag_set(flags_n, GEMM_2_T),
        flag_set(flags_t, GEMM_1_T) == flag_set(flags_n, GEMM_1_T),
        0 <= j < gemm_n(b, flags_t),
        0 <= c < b.channels,
    ensures
        gemm_n(b, flags_t) == gemm_n(bt, flags_n),
        gemm_k2(b, flags_t) == gemm_k2(bt, flags_n),
        gemm_sum(a, b, flags_t, i, j, c, gemm_k2(b, flags_t)) == gemm_sum(
            a,
            bt,
            flags_n,
            i,
            j,
            c,
            gemm_k2(bt, flags_n),
        ),
{
    lemma_gemm_sum_transposed2(a, b, bt, flags_t, flags_n, i, j, c, gemm_k2(b, flags_t));
}

proof fn lemma_gemm_sum_transposed2<T: Element>(
    a: &Matrix<T>,
    b: &Matrix<T>,
    bt: &Matrix<T>,
    flags_t: i32,
    flags_n: i32,
    i: int,
    j: int,
    c: int,
    l: int,
)
    requires
        is_transpose(bt, b),
        flag_set(flags_t, GEMM_2_T),
        !flag_set(flags_n, GEMM_2_T),
        flag_set(flags_t, GEMM_1_T) == flag_set(flags_n, GEMM_1_T),
        0 <= j < gemm_n(b, flags_t),
        0 <= c < b.channels,
        0 <= l <= gemm_k2(b, flags_t),
    ensures
        gemm_sum(a, b, flags_t, i, j, c, l) == gemm_sum(a, bt, flags_n, i, j, c, l),
    decreases l,
{
    if l > 0 {
        lemma_gemm_sum_transposed2(a, b, bt, flags_t, flags_n, i, j, c, l - 1);
        assert(bt.data@[flat_index(bt.cols as int, bt.channels as int, l - 1, j, c)] == b.data@[flat_index(
            b.cols as int,
            b.channels as int,
            j,
            l - 1,
            c,
        )]);
    }
}

/// Asking for the transpose of the third operand by flag adds element
/// `(j, i)` of it to cell `(i, j)`: the same addend that passing its
/// transpose without the flag gives.
pub proof fn law_gemm_transposed_third_operand_addend<T: Element>(
    c3: &Matrix<T>,
    c3t: &Matrix<T>,
    flags_t: i32,
    flags_n: i32,
    use_src3: bool,
    i: int,
    j: int,
    c: int,
)
    requires
        is_transpose(c3t, c3),
        flag_set(flags_t, GEMM_3_T),
        !flag_set(flags_n, GEMM_3_T),
        0 <= i < c3t.rows,
        0 <= j < c3t.cols,
        0 <= c < c3.channels,
    ensures
        gemm_addend(c3, flags_t, use_src3, i, j, c) == gemm_addend(c3t, flags_n, use_src3, i, j, c),
        gemm_reads_src3(c3, use_src3) ==> gemm_addend(c3, flags_t, use_src3, i, j, c) == c3.data@[flat_index(
            c3.cols as int,
            c3.channels as int,
            j,
            i,
            c,
        )].val(),
        gemm_reads_src3(c3t, use_src3) ==> gemm_addend(c3t, flags_n, use_src3, i, j, c) == c3t.data@[flat_index(
            c3t.cols as int,
            c3t.channels as int,
            i,
            j,
            c,
        )].val(),
{
    assert(c3t.data@[flat_index(c3t.cols as int, c3t.channels as int, i, j, c)] == c3.data@[flat_index(
        c3.cols as int,
        c3.channels as int,
        j,
        i,
        c,
    )]);
}

/// The terms of `gemm` with the third operand transposed by flag have the
/// addends that passing its transpose without the flag gives, in every
/// cell that `op(src3)` covers.
pub proof fn law_gemm_transposed_third_operand<T: Element>(
    src1: &Matrix<T>,
    src2: &Matrix<T>,
    c3: &Matrix<T>,
    c3t: &Matrix<T>,
    flags_t: i32,
    flags_n: i32,
    use_src3: bool,
    t_flag: &GemmTerms,
    t_plain: &GemmTerms,
)
    requires
        is_transpose(c3t, c3),
        flag_set(flags_t, GEMM_3_T),
        !flag_set(flags_n, GEMM_3_T),
        flag_set(flags_t, GEMM_1_T) == flag_set(flags_n, GEMM_1_T),
        flag_set(flags_t, GEMM_2_T) == flag_set(flags_n, GEMM_2_T),
        gemm_terms_correct(t_flag, src1, src2, c3, flags_t, use_src3),
        gemm_terms_correct(t_plain, src1, src2, c3t, flags_n, use_src3),
        src1.channels == c3.channels,
    ensures
        t_flag.rows == t_plain.rows && t_flag.cols == t_plain.cols && t_flag.channels == t_plain.channels,
        t_flag.products@ == t_plain.products@,
        forall|i: int, j: int, c: int|
            0 <= i < t_flag.rows && 0 <= j < t_flag.cols && 0 <= c < t_flag.channels && i < c3t.rows
                && j < c3t.cols ==> #[trigger] t_flag.addends@[flat_index(
                t_flag.cols as int,
                t_flag.channels as int,
                i,
                j,
                c,
            )] == t_plain.addends@[flat_index(t_plain.cols as int, t_plain.channels as int, i, j, c)],
{
    let m = gemm_m(src1, flags_t);
    let n = gemm_n(src2, flags_t);
    let ch = src1.channels as int;
    assert(gemm_m(src1, flags_t) == gemm_m(src1, flags_n));
    assert(gemm_n(src2, flags_t) == gemm_n(src2, flags_n));
    assert(gemm_k1(src1, flags_t) == gemm_k1(src1, flags_n));
    assert forall|i: int, j: int, c: int|
        0 <= i < t_flag.rows && 0 <= j < t_flag.cols && 0 <= c < t_flag.channels && i < c3t.rows
            && j < c3t.cols implies #[trigger] t_flag.addends@[flat_index(
        t_flag.cols as int,
        t_flag.channels as int,
        i,
        j,
        c,
    )] == t_plain.addends@[flat_index(t_plain.cols as int, t_plain.channels as int, i, j, c)] by {
        law_gemm_transposed_third_operand_addend(c3, c3t, flags_t, flags_n, use_src3, i, j, c);
    }
    assert forall|p: int| 0 <= p < t_flag.products@.len() implies t_flag.products@[p]
        == t_plain.products@[p] by {
        lemma_cell_position(n, ch, m, p);
        let i = cell_row(n, ch, p);
        let j = cell_col(n, ch, p);
        let c = cell_channel(ch, p);
        lemma_gemm_sum_same_operands(src1, src2, flags_t, flags_n, i, j, c, gemm_k1(src1, flags_t));
    }
    assert(t_flag.products@ =~= t_plain.products@);
}

/// Every flat position of an `m` x `n` x `ch` layout is that of the row,
/// column and channel read back from it.
proof fn lemma_cell_position(n: int, ch: int, m: int, p: int)
    requires
        0 <= m,
        0 <= n,
        0 <= ch,
        0 <= p < m * n * ch,
    ensures
        0 <= cell_row(n, ch, p) < m,
        0 <= cell_col(n, ch, p) < n,
        0 <= cell_channel(ch, p) < ch,
        p == flat_index(n, ch, cell_row(n, ch, p), cell_col(n, ch, p), cell_channel(ch, p)),
{
    assert(n > 0 && ch > 0 && m > 0) by (nonlinear_arith)
        requires
            0 <= m,
            0 <= n,
            0 <= ch,
            0 <= p < m * n * ch,
    ;
    let q = p / ch;
    let c = p % ch;
    assert(p == q * ch + c && 0 <= c < ch && 0 <= q) by (nonlinear_arith)
        requires
            ch > 0,
            p >= 0,
            q == p / ch,
            c == p % ch,
    ;
    assert(q < m * n) by (nonlinear_arith)
        requires
            p == q * ch + c,
            0 <= c < ch,
            p < m * n * ch,
            0 <= q,
    ;
    let r = q / n;
    let col = q % n;
    assert(q == r * n + col && 0 <= col < n && 0 <= r < m) by (nonlinear_arith)
        requires
            n > 0,
            0 <= q < m * n,
            r == q / n,
            col == q % n,
    ;
}

/// The inner products do not depend on the third operand's flag.
proof fn lemma_gemm_sum_same_operands<T: Element>(
    src1: &Matrix<T>,
    src2: &Matrix<T>,
    f1: i32,
    f2: i32,
    i: int,
    j: int,
    c: int,
    l: int,
)
    requires
        flag_set(f1, GEMM_1_T) == flag_set(f2, GEMM_1_T),
        flag_set(f1, GEMM_2_T) == flag_set(f2, GEMM_2_T),
    ensures
        gemm_sum(src1, src2, f1, i, j, c, l) == gemm_sum(src1, src2, f2, i, j, c, l),
    decreases l,
{
    if l > 0 {
        lemma_gemm_sum_same_operands(src1, src2, f1, f2, i, j, c, l - 1);
    }
}

} // verus!
