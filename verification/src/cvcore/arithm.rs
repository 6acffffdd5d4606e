use vstd::prelude::*;

use crate::cvcore::arith_spec::{abs_int, trunc_div};
use crate::cvcore::element::Element;
use crate::cvcore::error::{PureCvError, Result};
use crate::cvcore::matrix::{dims_fit, flat_index, lemma_flat_index_bound, Matrix};
use crate::cvcore::types::Scalar;
use vstd::arithmetic::div_mod::lemma_fundamental_div_mod_converse;

verus! {

/// Number of positions an element-wise pass over a destination of `n`
/// elements and sources of `a` and `b` elements reaches: the pass stops at
/// the shortest of the three.
pub open spec fn reach(n: int, a: int, b: int) -> int {
    if n <= a && n <= b {
        n
    } else if a <= b {
        a
    } else {
        b
    }
}

/// `dst` holds `n` elements whose values are `f` of the sources' elements at
/// every reached position, and zero past it.
pub open spec fn map2_val<T: Element>(
    dst: Seq<T>,
    a: Seq<T>,
    b: Seq<T>,
    n: int,
    f: spec_fn(T, T) -> int,
) -> bool {
    &&& dst.len() == n
    &&& forall|i: int|
        0 <= i < n ==> (#[trigger] dst[i]).val() == (if i < reach(n, a.len() as int, b.len() as int) {
            f(a[i], b[i])
        } else {
            0
        })
}

/// `dst` holds `n` elements that are `f` of the sources' elements at every
/// reached position, and zero past it.
pub open spec fn map2_elem<T: Element>(
    dst: Seq<T>,
    a: Seq<T>,
    b: Seq<T>,
    n: int,
    f: spec_fn(T, T) -> T,
) -> bool {
    &&& dst.len() == n
    &&& forall|i: int|
        0 <= i < n ==> if i < reach(n, a.len() as int, b.len() as int) {
            #[trigger] dst[i] == f(a[i], b[i])
        } else {
            dst[i].val() == 0
        }
}

/// `f` of the sources' elements fits the element type at every position a
/// pass over `n` elements reaches.
pub open spec fn map2_fits<T: Element>(a: Seq<T>, b: Seq<T>, n: int, f: spec_fn(T, T) -> int) -> bool {
    forall|i: int|
        0 <= i < reach(n, a.len() as int, b.len() as int) ==> T::lo() <= #[trigger] f(a[i], b[i])
            <= T::hi()
}

/// `src1 + src2`, element by element.
pub open spec fn sum_fn<T: Element>() -> spec_fn(T, T) -> int {
    |x: T, y: T| x.val() + y.val()
}

/// `src1 - src2`, element by element.
pub open spec fn diff_fn<T: Element>() -> spec_fn(T, T) -> int {
    |x: T, y: T| x.val() - y.val()
}

/// `|src1 - src2|`, element by element.
pub open spec fn absdiff_fn<T: Element>() -> spec_fn(T, T) -> int {
    |x: T, y: T| abs_int(x.val() - y.val())
}

/// `src1 * src2`, element by element.
pub open spec fn prod_fn<T: Element>() -> spec_fn(T, T) -> int {
    |x: T, y: T| x.val() * y.val()
}

/// `src1 / src2` rounded toward zero, element by element; zero where the
/// divisor is zero.
pub open spec fn quot_fn<T: Element>() -> spec_fn(T, T) -> int {
    |x: T, y: T|
        if y.val() == 0 {
            0
        } else {
            trunc_div(x.val(), y.val())
        }
}

/// The shape check shared by the binary operations: it succeeds exactly when
/// the shapes agree, and otherwise reports `InvalidDimensions`.
pub open spec fn shape_checked<T, U>(src1: &Matrix<T>, src2: &Matrix<T>, res: Result<U>) -> bool {
    &&& (res is Ok <==> src1.same_shape(src2))
    &&& (res is Err ==> res matches Err(PureCvError::InvalidDimensions(_)))
}

fn dims_error<U>() -> (res: Result<U>)
    ensures
        res matches Err(PureCvError::InvalidDimensions(_)),
{
    Err(PureCvError::InvalidDimensions("Matrices must have the same dimensions".to_string()))
}

fn pass_len(n: usize, a: usize, b: usize) -> (m: usize)
    ensures
        m == reach(n as int, a as int, b as int),
{
    if n <= a && n <= b {
        n
    } else if a <= b {
        a
    } else {
        b
    }
}

/// `src1 & src2`, element by element.
pub open spec fn and_fn<T: Element>() -> spec_fn(T, T) -> T {
    |x: T, y: T| T::and_spec(x, y)
}

/// `src1 | src2`, element by element.
pub open spec fn or_fn<T: Element>() -> spec_fn(T, T) -> T {
    |x: T, y: T| T::or_spec(x, y)
}

/// `src1 ^ src2`, element by element.
pub open spec fn xor_fn<T: Element>() -> spec_fn(T, T) -> T {
    |x: T, y: T| T::xor_spec(x, y)
}

/// Calculates the per-element sum of two matrices: `dst = src1 + src2`.
///
/// Fails with `InvalidDimensions` when the shapes differ.
pub fn add<T: Element>(src1: &Matrix<T>, src2: &Matrix<T>) -> (res: Result<Matrix<T>>)
    requires
        src1.same_shape(src2) ==> src1.fits() && map2_fits(
            src1.data@,
            src2.data@,
            src1.spec_total(),
            sum_fn::<T>(),
        ),
    ensures
        shape_checked(src1, src2, res),
        res matches Ok(dst) ==> dst.same_shape(src1) && map2_val(
            dst.data@,
            src1.data@,
            src2.data@,
            src1.spec_total(),
            sum_fn::<T>(),
        ),
{
    if src1.rows != src2.rows || src1.cols != src2.cols || src1.channels != src2.channels {
        return dims_error();
    }
    let mut dst = Matrix::<T>::new(src1.rows, src1.cols, src1.channels);
    let n = pass_len(dst.data.len(), src1.data.len(), src2.data.len());
    let ghost total = src1.spec_total();
    let ghost f = sum_fn::<T>();
    for i in 0..n
        invariant
            n == reach(total, src1.data@.len() as int, src2.data@.len() as int),
            f == sum_fn::<T>(),
            dst.same_shape(src1),
            dst.data@.len() == total,
            map2_fits(src1.data@, src2.data@, total, f),
            forall|j: int| 0 <= j < i ==> (#[trigger] dst.data@[j]).val() == f(src1.data@[j], src2.data@[j]),
            forall|j: int| i <= j < total ==> (#[trigger] dst.data@[j]).val() == 0,
    {
        let a = src1.data[i];
        let b = src2.data[i];
        assert(T::lo() <= f(a, b) <= T::hi());
        let v = T::elem_add(a, b);
        dst.data.set(i, v);
    }
    Ok(dst)
}

/// Calculates the per-element difference of two matrices: `dst = src1 - src2`.
///
/// Fails with `InvalidDimensions` when the shapes differ.
pub fn subtract<T: Element>(src1: &Matrix<T>, src2: &Matrix<T>) -> (res: Result<Matrix<T>>)
    requires
        src1.same_shape(src2) ==> src1.fits() && map2_fits(
            src1.data@,
            src2.data@,
            src1.spec_total(),
            diff_fn::<T>(),
        ),
    ensures
        shape_checked(src1, src2, res),
        res matches Ok(dst) ==> dst.same_shape(src1) && map2_val(
            dst.data@,
            src1.data@,
            src2.data@,
            src1.spec_total(),
            diff_fn::<T>(),
        ),
{
    if src1.rows != src2.rows || src1.cols != src2.cols || src1.channels != src2.channels {
        return dims_error();
    }
    let mut dst = Matrix::<T>::new(src1.rows, src1.cols, src1.channels);
    let n = pass_len(dst.data.len(), src1.data.len(), src2.data.len());
    let ghost total = src1.spec_total();
    let ghost f = diff_fn::<T>();
    for i in 0..n
        invariant
            n == reach(total, src1.data@.len() as int, src2.data@.len() as int),
            f == diff_fn::<T>(),
            dst.same_shape(src1),
            dst.data@.len() == total,
            map2_fits(src1.data@, src2.data@, total, f),
            forall|j: int| 0 <= j < i ==> (#[trigger] dst.data@[j]).val() == f(src1.data@[j], src2.data@[j]),
            forall|j: int| i <= j < total ==> (#[trigger] dst.data@[j]).val() == 0,
    {
        let a = src1.data[i];
        let b = src2.data[i];
        assert(T::lo() <= f(a, b) <= T::hi());
        let v = T::elem_sub(a, b);
        dst.data.set(i, v);
    }
    Ok(dst)
}

/// Calculates the per-element absolute difference of two matrices:
/// `dst = |src1 - src2|`.
///
/// Fails with `InvalidDimensions` when the shapes differ.
pub fn absdiff<T: Element>(src1: &Matrix<T>, src2: &Matrix<T>) -> (res: Result<Matrix<T>>)
    requires
        src1.same_shape(src2) ==> src1.fits() && map2_fits(
            src1.data@,
            src2.data@,
            src1.spec_total(),
            absdiff_fn::<T>(),
        ),
    ensures
        shape_checked(src1, src2, res),
        res matches Ok(dst) ==> dst.same_shape(src1) && map2_val(
            dst.data@,
            src1.data@,
            src2.data@,
            src1.spec_total(),
            absdiff_fn::<T>(),
        ),
{
    if src1.rows != src2.rows || src1.cols != src2.cols || src1.channels != src2.channels {
        return dims_error();
    }
    let mut dst = Matrix::<T>::new(src1.rows, src1.cols, src1.channels);
    let n = pass_len(dst.data.len(), src1.data.len(), src2.data.len());
    let ghost total = src1.spec_total();
    let ghost f = absdiff_fn::<T>();
    for i in 0..n
        invariant
            n == reach(total, src1.data@.len() as int, src2.data@.len() as int),
            f == absdiff_fn::<T>(),
            dst.same_shape(src1),
            dst.data@.len() == total,
            map2_fits(src1.data@, src2.data@, total, f),
            forall|j: int| 0 <= j < i ==> (#[trigger] dst.data@[j]).val() == f(src1.data@[j], src2.data@[j]),
            forall|j: int| i <= j < total ==> (#[trigger] dst.data@[j]).val() == 0,
    {
        let a = src1.data[i];
        let b = src2.data[i];
        assert(T::lo() <= f(a, b) <= T::hi());
        let v = if T::elem_gt(a, b) {
            T::elem_sub(a, b)
        } else {
            T::elem_sub(b, a)
        };
        dst.data.set(i, v);
    }
    Ok(dst)
}

/// Calculates the per-element product of two matrices: `dst = src1 * src2`.
///
/// Fails with `InvalidDimensions` when the shapes differ.
pub fn multiply<T: Element>(src1: &Matrix<T>, src2: &Matrix<T>) -> (res: Result<Matrix<T>>)
    requires
        src1.same_shape(src2) ==> src1.fits() && map2_fits(
            src1.data@,
            src2.data@,
            src1.spec_total(),
            prod_fn::<T>(),
        ),
    ensures
        shape_checked(src1, src2, res),
        res matches Ok(dst) ==> dst.same_shape(src1) && map2_val(
            dst.data@,
            src1.data@,
            src2.data@,
            src1.spec_total(),
            prod_fn::<T>(),
        ),
{
    if src1.rows != src2.rows || src1.cols != src2.cols || src1.channels != src2.channels {
        return dims_error();
    }
    let mut dst = Matrix::<T>::new(src1.rows, src1.cols, src1.channels);
    let n = pass_len(dst.data.len(), src1.data.len(), src2.data.len());
    let ghost total = src1.spec_total();
    let ghost f = prod_fn::<T>();
    for i in 0..n
        invariant
            n == reach(total, src1.data@.len() as int, src2.data@.len() as int),
            f == prod_fn::<T>(),
            dst.same_shape(src1),
            dst.data@.len() == total,
            map2_fits(src1.data@, src2.data@, total, f),
            forall|j: int| 0 <= j < i ==> (#[trigger] dst.data@[j]).val() == f(src1.data@[j], src2.data@[j]),
            forall|j: int| i <= j < total ==> (#[trigger] dst.data@[j]).val() == 0,
    {
        let a = src1.data[i];
        let b = src2.data[i];
        assert(T::lo() <= f(a, b) <= T::hi());
        let v = T::elem_mul(a, b);
        dst.data.set(i, v);
    }
    Ok(dst)
}

/// Calculates the per-element quotient of two matrices: `dst = src1 / src2`,
/// rounding toward zero; where `src2` is zero the result is zero.
///
/// Fails with `InvalidDimensions` when the shapes differ.
pub fn divide<T: Element>(src1: &Matrix<T>, src2: &Matrix<T>) -> (res: Result<Matrix<T>>)
    requires
        src1.same_shape(src2) ==> src1.fits() && map2_fits(
            src1.data@,
            src2.data@,
            src1.spec_total(),
            quot_fn::<T>(),
        ),
    ensures
        shape_checked(src1, src2, res),
        res matches Ok(dst) ==> dst.same_shape(src1) && map2_val(
            dst.data@,
            src1.data@,
            src2.data@,
            src1.spec_total(),
            quot_fn::<T>(),
        ),
{
    if src1.rows != src2.rows || src1.cols != src2.cols || src1.channels != src2.channels {
        return dims_error();
    }
    let mut dst = Matrix::<T>::new(src1.rows, src1.cols, src1.channels);
    let n = pass_len(dst.data.len(), src1.data.len(), src2.data.len());
    let ghost total = src1.spec_total();
    let ghost f = quot_fn::<T>();
    for i in 0..n
        invariant
            n == reach(total, src1.data@.len() as int, src2.data@.len() as int),
            f == quot_fn::<T>(),
            dst.same_shape(src1),
            dst.data@.len() == total,
            map2_fits(src1.data@, src2.data@, total, f),
            forall|j: int| 0 <= j < i ==> (#[trigger] dst.data@[j]).val() == f(src1.data@[j], src2.data@[j]),
            forall|j: int| i <= j < total ==> (#[trigger] dst.data@[j]).val() == 0,
    {
        let a = src1.data[i];
        let b = src2.data[i];
        assert(T::lo() <= f(a, b) <= T::hi());
        let v = if !T::elem_is_zero(b) {
            T::elem_div(a, b)
        } else {
            T::zero()
        };
        dst.data.set(i, v);
    }
    Ok(dst)
}

/// Calculates the per-element bit-wise conjunction of two matrices:
/// `dst = src1 & src2`.
///
/// Fails with `InvalidDimensions` when the shapes differ.
pub fn bitwise_and<T: Element>(src1: &Matrix<T>, src2: &Matrix<T>) -> (res: Result<Matrix<T>>)
    requires
        src1.same_shape(src2) ==> src1.fits(),
    ensures
        shape_checked(src1, src2, res),
        res matches Ok(dst) ==> dst.same_shape(src1) && map2_elem(
            dst.data@,
            src1.data@,
            src2.data@,
            src1.spec_total(),
            and_fn::<T>(),
        ),
{
    if src1.rows != src2.rows || src1.cols != src2.cols || src1.channels != src2.channels {
        return dims_error();
    }
    let mut dst = Matrix::<T>::new(src1.rows, src1.cols, src1.channels);
    let n = pass_len(dst.data.len(), src1.data.len(), src2.data.len());
    let ghost total = src1.spec_total();
    let ghost f = and_fn::<T>();
    for i in 0..n
        invariant
            n == reach(total, src1.data@.len() as int, src2.data@.len() as int),
            f == and_fn::<T>(),
            dst.same_shape(src1),
            dst.data@.len() == total,
            forall|j: int| 0 <= j < i ==> #[trigger] dst.data@[j] == f(src1.data@[j], src2.data@[j]),
            forall|j: int| i <= j < total ==> (#[trigger] dst.data@[j]).val() == 0,
    {
        let a = src1.data[i];
        let b = src2.data[i];
        let v = T::elem_and(a, b);
        dst.data.set(i, v);
    }
    Ok(dst)
}

/// Calculates the per-element bit-wise disjunction of two matrices:
/// `dst = src1 | src2`.
///
/// Fails with `InvalidDimensions` when the shapes differ.
pub fn bitwise_or<T: Element>(src1: &Matrix<T>, src2: &Matrix<T>) -> (res: Result<Matrix<T>>)
    requires
        src1.same_shape(src2) ==> src1.fits(),
    ensures
        shape_checked(src1, src2, res),
        res matches Ok(dst) ==> dst.same_shape(src1) && map2_elem(
            dst.data@,
            src1.data@,
            src2.data@,
            src1.spec_total(),
            or_fn::<T>(),
        ),
{
    if src1.rows != src2.rows || src1.cols != src2.cols || src1.channels != src2.channels {
        return dims_error();
    }
    let mut dst = Matrix::<T>::new(src1.rows, src1.cols, src1.channels);
    let n = pass_len(dst.data.len(), src1.data.len(), src2.data.len());
    let ghost total = src1.spec_total();
    let ghost f = or_fn::<T>();
    for i in 0..n
        invariant
            n == reach(total, src1.data@.len() as int, src2.data@.len() as int),
            f == or_fn::<T>(),
            dst.same_shape(src1),
            dst.data@.len() == total,
            forall|j: int| 0 <= j < i ==> #[trigger] dst.data@[j] == f(src1.data@[j], src2.data@[j]),
            forall|j: int| i <= j < total ==> (#[trigger] dst.data@[j]).val() == 0,
    {
        let a = src1.data[i];
        let b = src2.data[i];
        let v = T::elem_or(a, b);
        dst.data.set(i, v);
    }
    Ok(dst)
}

/// Calculates the per-element bit-wise exclusive or of two matrices:
/// `dst = src1 ^ src2`.
///
/// Fails with `InvalidDimensions` when the shapes differ.
pub fn bitwise_xor<T: Element>(src1: &Matrix<T>, src2: &Matrix<T>) -> (res: Result<Matrix<T>>)
    requires
        src1.same_shape(src2) ==> src1.fits(),
    ensures
        shape_checked(src1, src2, res),
        res matches Ok(dst) ==> dst.same_shape(src1) && map2_elem(
            dst.data@,
            src1.data@,
            src2.data@,
            src1.spec_total(),
            xor_fn::<T>(),
        ),
{
    if src1.rows != src2.rows || src1.cols != src2.cols || src1.channels != src2.channels {
        return dims_error();
    }
    let mut dst = Matrix::<T>::new(src1.rows, src1.cols, src1.channels);
    let n = pass_len(dst.data.len(), src1.data.len(), src2.data.len());
    let ghost total = src1.spec_total();
    let ghost f = xor_fn::<T>();
    for i in 0..n
        invariant
            n == reach(total, src1.data@.len() as int, src2.data@.len() as int),
            f == xor_fn::<T>(),
            dst.same_shape(src1),
            dst.data@.len() == total,
            forall|j: int| 0 <= j < i ==> #[trigger] dst.data@[j] == f(src1.data@[j], src2.data@[j]),
            forall|j: int| i <= j < total ==> (#[trigger] dst.data@[j]).val() == 0,
    {
        let a = src1.data[i];
        let b = src2.data[i];
        let v = T::elem_xor(a, b);
        dst.data.set(i, v);
    }
    Ok(dst)
}

/// `dst` holds `n` elements that are `f` of the source's element at every
/// position a pass over `n` elements reaches, and zero past it.
pub open spec fn map1_elem<T: Element>(dst: Seq<T>, a: Seq<T>, n: int, f: spec_fn(T) -> T) -> bool {
    &&& dst.len() == n
    &&& forall|i: int|
        0 <= i < n ==> if i < reach(n, a.len() as int, a.len() as int) {
            #[trigger] dst[i] == f(a[i])
        } else {
            dst[i].val() == 0
        }
}

/// `!src`, element by element.
pub open spec fn not_fn<T: Element>() -> spec_fn(T) -> T {
    |x: T| T::not_spec(x)
}

/// Inverts every bit of every element: `dst = !src`.  Never fails.
pub fn bitwise_not<T: Element>(src: &Matrix<T>) -> (res: Result<Matrix<T>>)
    requires
        src.fits(),
    ensures
        res matches Ok(dst) && dst.same_shape(src) && map1_elem(
            dst.data@,
            src.data@,
            src.spec_total(),
            not_fn::<T>(),
        ),
{
    let mut dst = Matrix::<T>::new(src.rows, src.cols, src.channels);
    let n = pass_len(dst.data.len(), src.data.len(), src.data.len());
    let ghost total = src.spec_total();
    let ghost f = not_fn::<T>();
    for i in 0..n
        invariant
            n == reach(total, src.data@.len() as int, src.data@.len() as int),
            f == not_fn::<T>(),
            dst.same_shape(src),
            dst.data@.len() == total,
            forall|j: int| 0 <= j < i ==> #[trigger] dst.data@[j] == f(src.data@[j]),
            forall|j: int| i <= j < total ==> (#[trigger] dst.data@[j]).val() == 0,
    {
        let v = T::elem_not(src.data[i]);
        dst.data.set(i, v);
    }
    Ok(dst)
}

// ---------------------------------------------------------------------------
// Laws of the element-wise operations
// ---------------------------------------------------------------------------

/// Subtracting `src2` from `add(src1, src2)` gives `src1` back.
pub proof fn law_subtract_undoes_add<T: Element>(
    a: Seq<T>,
    b: Seq<T>,
    sum: Seq<T>,
    back: Seq<T>,
    n: int,
)
    requires
        a.len() == n,
        b.len() == n,
        map2_val(sum, a, b, n, sum_fn::<T>()),
        map2_val(back, sum, b, n, diff_fn::<T>()),
    ensures
        back == a,
{
    assert forall|i: int| 0 <= i < n implies back[i] == a[i] by {
        assert(back[i].val() == sum[i].val() - b[i].val());
        T::lemma_val_injective(back[i], a[i]);
    }
    assert(back =~= a);
}

/// `add` does not depend on the order of its operands.
pub proof fn law_add_commutes<T: Element>(a: Seq<T>, b: Seq<T>, ab: Seq<T>, ba: Seq<T>, n: int)
    requires
        a.len() == n,
        b.len() == n,
        map2_val(ab, a, b, n, sum_fn::<T>()),
        map2_val(ba, b, a, n, sum_fn::<T>()),
    ensures
        ab == ba,
{
    assert forall|i: int| 0 <= i < n implies ab[i] == ba[i] by {
        assert(ab[i].val() == a[i].val() + b[i].val());
        assert(ba[i].val() == b[i].val() + a[i].val());
        T::lemma_val_injective(ab[i], ba[i]);
    }
    assert(ab =~= ba);
}

/// `absdiff` does not depend on the order of its operands.
pub proof fn law_absdiff_symmetric<T: Element>(a: Seq<T>, b: Seq<T>, ab: Seq<T>, ba: Seq<T>, n: int)
    requires
        a.len() == n,
        b.len() == n,
        map2_val(ab, a, b, n, absdiff_fn::<T>()),
        map2_val(ba, b, a, n, absdiff_fn::<T>()),
    ensures
        ab == ba,
{
    assert forall|i: int| 0 <= i < n implies ab[i] == ba[i] by {
        assert(ab[i].val() == abs_int(a[i].val() - b[i].val()));
        assert(ba[i].val() == abs_int(b[i].val() - a[i].val()));
        T::lemma_val_injective(ab[i], ba[i]);
    }
    assert(ab =~= ba);
}

/// Each element of `absdiff(src1, src2)` is how far apart the operands are:
/// the larger minus the smaller, whatever their signs.
pub proof fn law_absdiff_is_distance<T: Element>(a: Seq<T>, b: Seq<T>, d: Seq<T>, n: int)
    requires
        a.len() == n,
        b.len() == n,
        map2_val(d, a, b, n, absdiff_fn::<T>()),
    ensures
        forall|i: int|
            0 <= i < n ==> (a[i].val() >= b[i].val() ==> (#[trigger] d[i]).val() == a[i].val() - b[i].val())
                && (a[i].val() < b[i].val() ==> d[i].val() == b[i].val() - a[i].val()),
{
    assert forall|i: int| 0 <= i < n implies (a[i].val() >= b[i].val() ==> (#[trigger] d[i]).val()
        == a[i].val() - b[i].val()) && (a[i].val() < b[i].val() ==> d[i].val() == b[i].val()
        - a[i].val()) by {
        assert(d[i].val() == abs_int(a[i].val() - b[i].val()));
    }
}

/// `absdiff` agrees with `subtract`: where `src1 >= src2` it gives the
/// difference `subtract` gives, elsewhere that difference negated.
pub proof fn law_absdiff_matches_subtract<T: Element>(
    a: Seq<T>,
    b: Seq<T>,
    diff: Seq<T>,
    dist: Seq<T>,
    n: int,
)
    requires
        a.len() == n,
        b.len() == n,
        map2_val(diff, a, b, n, diff_fn::<T>()),
        map2_val(dist, a, b, n, absdiff_fn::<T>()),
    ensures
        forall|i: int|
            0 <= i < n ==> (a[i].val() >= b[i].val() ==> (#[trigger] dist[i]) == diff[i]) && (a[i].val()
                < b[i].val() ==> dist[i].val() == -diff[i].val()),
{
    law_absdiff_is_distance(a, b, dist, n);
    assert forall|i: int| 0 <= i < n implies (a[i].val() >= b[i].val() ==> (#[trigger] dist[i])
        == diff[i]) && (a[i].val() < b[i].val() ==> dist[i].val() == -diff[i].val()) by {
        assert(diff[i].val() == a[i].val() - b[i].val());
        assert(dist[i].val() == (if a[i].val() >= b[i].val() {
            a[i].val() - b[i].val()
        } else {
            b[i].val() - a[i].val()
        }));
        T::lemma_val_injective(dist[i], diff[i]);
    }
}

/// Dividing `multiply(src1, src2)` by `src2` gives `src1` back wherever
/// `src2` is non-zero.
pub proof fn law_divide_undoes_multiply<T: Element>(
    a: Seq<T>,
    b: Seq<T>,
    prod: Seq<T>,
    back: Seq<T>,
    n: int,
)
    requires
        a.len() == n,
        b.len() == n,
        forall|i: int| 0 <= i < n ==> (#[trigger] b[i]).val() != 0,
        map2_val(prod, a, b, n, prod_fn::<T>()),
        map2_val(back, prod, b, n, quot_fn::<T>()),
    ensures
        back == a,
{
    assert forall|i: int| 0 <= i < n implies back[i] == a[i] by {
        let x = a[i].val();
        let y = b[i].val();
        assert(prod[i].val() == x * y);
        lemma_trunc_div_product(x, y);
        assert(back[i].val() == trunc_div(x * y, y));
        T::lemma_val_injective(back[i], a[i]);
    }
    assert(back =~= a);
}

/// `(x * y) / y == x` under truncating division.
pub proof fn lemma_trunc_div_product(x: int, y: int)
    requires
        y != 0,
    ensures
        trunc_div(x * y, y) == x,
{
    let ax = abs_int(x);
    let ay = abs_int(y);
    assert(abs_int(x * y) == ax * ay) by (nonlinear_arith)
        requires
            ax == abs_int(x),
            ay == abs_int(y),
    ;
    assert((ax * ay) / ay == ax) by (nonlinear_arith)
        requires
            ay > 0,
            ax >= 0,
    ;
    if x > 0 {
        assert((x * y > 0) == (y > 0)) by (nonlinear_arith)
            requires
                x > 0,
                y != 0,
        ;
    } else if x < 0 {
        assert((x * y > 0) == (y < 0)) by (nonlinear_arith)
            requires
                x < 0,
                y != 0,
        ;
    }
}

/// `bitwise_and`, `bitwise_or` and `bitwise_xor` do not depend on the order
/// of their operands.
pub proof fn law_bitwise_commutes<T: Element>(
    a: Seq<T>,
    b: Seq<T>,
    ab: Seq<T>,
    ba: Seq<T>,
    n: int,
    f: spec_fn(T, T) -> T,
)
    requires
        f == and_fn::<T>() || f == or_fn::<T>() || f == xor_fn::<T>(),
        a.len() == n,
        b.len() == n,
        map2_elem(ab, a, b, n, f),
        map2_elem(ba, b, a, n, f),
    ensures
        ab == ba,
{
    assert forall|i: int| 0 <= i < n implies ab[i] == ba[i] by {
        T::lemma_and_or_commute(a[i], b[i]);
    }
    assert(ab =~= ba);
}

/// `bitwise_and`, `bitwise_or` and `bitwise_xor` work bit by bit on the
/// two's-complement bits of each pair of elements: every result element is
/// the `&`, `|` or `^` of the operands' values taken as `i64`.
pub proof fn law_bitwise_ops_on_bits<T: Element>(
    a: Seq<T>,
    b: Seq<T>,
    and: Seq<T>,
    or: Seq<T>,
    xor: Seq<T>,
    n: int,
)
    requires
        a.len() == n,
        b.len() == n,
        map2_elem(and, a, b, n, and_fn::<T>()),
        map2_elem(or, a, b, n, or_fn::<T>()),
        map2_elem(xor, a, b, n, xor_fn::<T>()),
    ensures
        forall|i: int|
            0 <= i < n ==> (#[trigger] and[i]).val() == ((a[i].val() as i64) & (b[i].val() as i64)) as int,
        forall|i: int|
            0 <= i < n ==> (#[trigger] or[i]).val() == ((a[i].val() as i64) | (b[i].val() as i64)) as int,
        forall|i: int|
            0 <= i < n ==> (#[trigger] xor[i]).val() == ((a[i].val() as i64) ^ (b[i].val() as i64)) as int,
{
    assert forall|i: int| 0 <= i < n implies (#[trigger] and[i]).val() == ((a[i].val() as i64) & (
    b[i].val() as i64)) as int by {
        assert(and[i] == T::and_spec(a[i], b[i]));
        T::lemma_bitwise_values(a[i], b[i]);
    }
    assert forall|i: int| 0 <= i < n implies (#[trigger] or[i]).val() == ((a[i].val() as i64) | (
    b[i].val() as i64)) as int by {
        assert(or[i] == T::or_spec(a[i], b[i]));
        T::lemma_bitwise_values(a[i], b[i]);
    }
    assert forall|i: int| 0 <= i < n implies (#[trigger] xor[i]).val() == ((a[i].val() as i64) ^ (
    b[i].val() as i64)) as int by {
        assert(xor[i] == T::xor_spec(a[i], b[i]));
        T::lemma_bitwise_values(a[i], b[i]);
    }
}

/// `bitwise_not` flips every bit, so each element and its result add up to
/// the all-ones value of the type: `!x == -1 - x` for signed elements and
/// `!x == max - x` for unsigned ones.
pub proof fn law_bitwise_not_flips_bits<T: Element>(a: Seq<T>, not: Seq<T>, n: int)
    requires
        a.len() == n,
        map1_elem(not, a, n, not_fn::<T>()),
    ensures
        forall|i: int|
            0 <= i < n ==> a[i].val() + (#[trigger] not[i]).val() == T::lo() + T::hi(),
        T::lo() < 0 ==> forall|i: int| 0 <= i < n ==> (#[trigger] not[i]).val() == -1 - a[i].val(),
        T::lo() == 0 ==> forall|i: int| 0 <= i < n ==> (#[trigger] not[i]).val() == T::hi() - a[i].val(),
{
    T::lemma_signed_range();
    assert forall|i: int| 0 <= i < n implies (#[trigger] not[i]) == T::not_spec(a[i]) by {}
    assert forall|i: int| 0 <= i < n implies a[i].val() + (#[trigger] not[i]).val() == T::lo()
        + T::hi() by {
        assert(not[i] == T::not_spec(a[i]));
        T::lemma_bitwise_values(a[i], a[i]);
    }
}

/// Applying `bitwise_not` twice gives the source back.
pub proof fn law_bitwise_not_involutive<T: Element>(a: Seq<T>, once: Seq<T>, twice: Seq<T>, n: int)
    requires
        a.len() == n,
        map1_elem(once, a, n, not_fn::<T>()),
        map1_elem(twice, once, n, not_fn::<T>()),
    ensures
        twice == a,
{
    assert forall|i: int| 0 <= i < n implies twice[i] == a[i] by {
        T::lemma_not_involutive(a[i]);
    }
    assert(twice =~= a);
}

/// Applying `bitwise_xor` with the same operand twice gives the source back.
pub proof fn law_bitwise_xor_cancels<T: Element>(
    a: Seq<T>,
    b: Seq<T>,
    once: Seq<T>,
    twice: Seq<T>,
    n: int,
)
    requires
        a.len() == n,
        b.len() == n,
        map2_elem(once, a, b, n, xor_fn::<T>()),
        map2_elem(twice, once, b, n, xor_fn::<T>()),
    ensures
        twice == a,
{
    assert forall|i: int| 0 <= i < n implies twice[i] == a[i] by {
        T::lemma_xor_cancel(a[i], b[i]);
    }
    assert(twice =~= a);
}

// ---------------------------------------------------------------------------
// Diagonal: set_identity and trace
// ---------------------------------------------------------------------------

/// Length of the main diagonal: `min(rows, cols)`.
pub open spec fn diag_len(rows: int, cols: int) -> int {
    if rows <= cols {
        rows
    } else {
        cols
    }
}

/// One past the last flat position the diagonal occupies; zero when the
/// diagonal is empty.
pub open spec fn diag_extent(rows: int, cols: int, channels: int) -> int {
    let n = diag_len(rows, cols);
    if n <= 0 {
        0
    } else {
        flat_index(cols, channels, n - 1, n - 1, channels - 1) + 1
    }
}

/// Diagonal row of flat position `k`, in a matrix with `cols` columns and
/// `ch` channels.
pub open spec fn diag_row(cols: int, ch: int, k: int) -> int {
    (k / ch) / (cols + 1)
}

/// Flat position `k` holds a channel of one of the first `n` diagonal cells.
pub open spec fn on_diagonal(cols: int, ch: int, n: int, k: int) -> bool {
    &&& ch > 0
    &&& 0 <= k
    &&& (k / ch) % (cols + 1) == 0
    &&& diag_row(cols, ch, k) < n
}

/// The flat position of channel `c` of diagonal cell `i` is on the diagonal,
/// in row `i` and channel `c`.
pub proof fn lemma_diag_position(cols: int, ch: int, i: int, c: int)
    requires
        cols >= 0,
        0 <= i,
        0 <= c < ch,
    ensures
        ({
            let k = flat_index(cols, ch, i, i, c);
            &&& k / ch == i * (cols + 1)
            &&& k % ch == c
            &&& (k / ch) % (cols + 1) == 0
            &&& diag_row(cols, ch, k) == i
            &&& 0 <= k
        }),
{
    let k = flat_index(cols, ch, i, i, c);
    assert(i * cols + i == i * (cols + 1)) by (nonlinear_arith);
    assert(0 <= i * (cols + 1)) by (nonlinear_arith)
        requires
            0 <= i,
            0 <= cols,
    ;
    assert(0 <= i * (cols + 1) * ch) by (nonlinear_arith)
        requires
            0 <= i * (cols + 1),
            0 < ch,
    ;
    lemma_fundamental_div_mod_converse(k, ch, i * (cols + 1), c);
    lemma_fundamental_div_mod_converse(i * (cols + 1), cols + 1, i, 0);
}

/// A flat position on the diagonal is the position of its row's cell in its
/// channel.
pub proof fn lemma_diag_unique(cols: int, ch: int, n: int, k: int)
    requires
        cols >= 0,
        on_diagonal(cols, ch, n, k),
    ensures
        k == flat_index(cols, ch, diag_row(cols, ch, k), diag_row(cols, ch, k), k % ch),
        0 <= diag_row(cols, ch, k),
        0 <= k % ch < ch,
{
    let p = k / ch;
    let i = diag_row(cols, ch, k);
    vstd::arithmetic::div_mod::lemma_fundamental_div_mod(k, ch);
    vstd::arithmetic::div_mod::lemma_fundamental_div_mod(p, cols + 1);
    assert(0 <= p) by (nonlinear_arith)
        requires
            0 <= k,
            0 < ch,
            p == k / ch,
    ;
    assert(0 <= i) by (nonlinear_arith)
        requires
            0 <= p,
            cols + 1 > 0,
            i == p / (cols + 1),
    ;
    assert(0 <= k % ch < ch) by (nonlinear_arith)
        requires
            0 < ch,
    ;
    assert(p == i * (cols + 1)) by (nonlinear_arith)
        requires
            p == (cols + 1) * (p / (cols + 1)) + p % (cols + 1),
            p % (cols + 1) == 0,
            i == p / (cols + 1),
    ;
    assert(i * cols + i == i * (cols + 1)) by (nonlinear_arith);
    assert(k == p * ch + k % ch) by (nonlinear_arith)
        requires
            k == ch * (k / ch) + k % ch,
            p == k / ch,
    ;
}

/// Whether the diagonal of `m` can be visited: it is empty, or `m` has at
/// most four channels and its data reaches the last diagonal element.
pub fn diag_in_bounds<T>(m: &Matrix<T>) -> (r: bool)
    requires
        m.fits(),
    ensures
        r == (diag_len(m.rows as int, m.cols as int) > 0 ==> m.channels <= 4 && diag_extent(
            m.rows as int,
            m.cols as int,
            m.channels as int,
        ) <= m.data@.len()),
{
    let n = if m.rows <= m.cols {
        m.rows
    } else {
        m.cols
    };
    if n == 0 {
        return true;
    }
    if m.channels > 4 {
        return false;
    }
    if m.channels == 0 {
        proof {
            assert(flat_index(m.cols as int, 0, n - 1, n - 1, -1) + 1 == 0) by (nonlinear_arith);
        }
        return true;
    }
    proof {
        lemma_flat_index_bound(
            m.rows as int,
            m.cols as int,
            m.channels as int,
            n - 1,
            n - 1,
            m.channels - 1,
        );
    }
    let extent = ((n - 1) * m.cols + (n - 1)) * m.channels + m.channels;
    extent <= m.data.len()
}

/// Sets every element to zero except the diagonal, whose cells are set to
/// `s`, channel by channel: `mtx = identity * s`.
pub fn set_identity<T: Element>(mtx: &mut Matrix<T>, s: Scalar<T>)
    requires
        old(mtx).fits(),
        diag_len(old(mtx).rows as int, old(mtx).cols as int) > 0 ==> old(mtx).channels <= 4
            && diag_extent(old(mtx).rows as int, old(mtx).cols as int, old(mtx).channels as int)
            <= old(mtx).data@.len(),
    ensures
        final(mtx).rows == old(mtx).rows,
        final(mtx).cols == old(mtx).cols,
        final(mtx).channels == old(mtx).channels,
        final(mtx).data@.len() == old(mtx).data@.len(),
        forall|k: int|
            0 <= k < final(mtx).data@.len() ==> if on_diagonal(
                final(mtx).cols as int,
                final(mtx).channels as int,
                diag_len(final(mtx).rows as int, final(mtx).cols as int),
                k,
            ) {
                #[trigger] final(mtx).data@[k] == s.v[k % final(mtx).channels as int]
            } else {
                final(mtx).data@[k].val() == 0
            },
{
    let len = mtx.data.len();
    let mut z: usize = 0;
    while z < len
        invariant
            z <= len,
            len == mtx.data@.len(),
            mtx.rows == old(mtx).rows,
            mtx.cols == old(mtx).cols,
            mtx.channels == old(mtx).channels,
            forall|j: int| 0 <= j < z ==> (#[trigger] mtx.data@[j]).val() == 0,
        decreases len - z,
    {
        mtx.data.set(z, T::zero());
        z += 1;
    }
    let n = if mtx.rows <= mtx.cols {
        mtx.rows
    } else {
        mtx.cols
    };
    let channels = mtx.channels;
    let cols = mtx.cols;
    let ghost rows = mtx.rows as int;
    for i in 0..n
        invariant
            n == diag_len(rows, cols as int),
            rows == mtx.rows,
            cols == mtx.cols,
            channels == mtx.channels,
            mtx.fits(),
            len == mtx.data@.len(),
            n > 0 ==> channels <= 4 && diag_extent(rows, cols as int, channels as int) <= len,
            forall|k: int|
                0 <= k < len ==> if on_diagonal(cols as int, channels as int, i as int, k) {
                    #[trigger] mtx.data@[k] == s.v[k % channels as int]
                } else {
                    mtx.data@[k].val() == 0
                },
    {
        proof {
            lemma_flat_index_bound(rows, cols as int, 1, i as int, i as int, 0);
            if channels > 0 {
                lemma_flat_index_bound(rows, cols as int, channels as int, i as int, i as int, 0);
                lemma_diag_last(rows, cols as int, channels as int, i as int);
            } else {
                assert((i * cols + i) * channels == 0) by (nonlinear_arith)
                    requires
                        channels == 0,
                ;
            }
        }
        let base = (i * cols + i) * channels;
        for c in 0..channels
            invariant
                0 <= i < n,
                n == diag_len(rows, cols as int),
                rows == mtx.rows,
                cols == mtx.cols,
                channels == mtx.channels,
                base == flat_index(cols as int, channels as int, i as int, i as int, 0),
                channels <= 4,
                flat_index(cols as int, channels as int, i as int, i as int, channels - 1) < len,
                len == mtx.data@.len(),
                forall|k: int|
                    0 <= k < len ==> if on_diagonal(cols as int, channels as int, i as int, k) || (
                    on_diagonal(cols as int, channels as int, i + 1, k) && k % (channels as int)
                        < c) {
                        #[trigger] mtx.data@[k] == s.v[k % channels as int]
                    } else {
                        mtx.data@[k].val() == 0
                    },
        {
            proof {
                lemma_diag_position(cols as int, channels as int, i as int, c as int);
                assert(base + c == flat_index(cols as int, channels as int, i as int, i as int, c as int)) by (nonlinear_arith)
                    requires
                        base == flat_index(cols as int, channels as int, i as int, i as int, 0),
                ;
                assert(flat_index(cols as int, channels as int, i as int, i as int, c as int) <= flat_index(cols as int, channels as int, i as int, i as int, channels - 1));
            }
            let idx = base + c;
            mtx.data.set(idx, s.v[c]);
            proof {
                assert forall|k: int| 0 <= k < len implies if on_diagonal(cols as int, channels as int, i as int, k) || (
                    on_diagonal(cols as int, channels as int, i + 1, k) && k % (channels as int)
                        < c + 1) {
                        #[trigger] mtx.data@[k] == s.v[k % channels as int]
                    } else {
                        mtx.data@[k].val() == 0
                    } by {
                    if k != idx {
                        if on_diagonal(cols as int, channels as int, i + 1, k) && k % (channels as int) == c as int
                            && !on_diagonal(cols as int, channels as int, i as int, k) {
                            lemma_diag_unique(cols as int, channels as int, i + 1, k);
                        }
                    }
                }
            }
        }
        proof {
            assert forall|k: int| 0 <= k < len implies if on_diagonal(cols as int, channels as int, i + 1, k) {
                    #[trigger] mtx.data@[k] == s.v[k % channels as int]
                } else {
                    mtx.data@[k].val() == 0
                } by {
                if on_diagonal(cols as int, channels as int, i + 1, k) {
                    lemma_diag_unique(cols as int, channels as int, i + 1, k);
                }
            }
        }
    }
}

/// The last cell of diagonal row `i` lies inside the diagonal extent.
proof fn lemma_diag_last(rows: int, cols: int, channels: int, i: int)
    requires
        0 <= i < diag_len(rows, cols),
        channels >= 1,
        cols >= 0,
    ensures
        flat_index(cols, channels, i, i, channels - 1) < diag_extent(rows, cols, channels),
{
    let n = diag_len(rows, cols);
    assert(i * cols + i <= (n - 1) * cols + (n - 1)) by (nonlinear_arith)
        requires
            0 <= i <= n - 1,
            cols >= 0,
    ;
    let p = i * cols + i;
    let q = (n - 1) * cols + (n - 1);
    assert(p * channels <= q * channels) by (nonlinear_arith)
        requires
            p <= q,
            channels >= 1,
    ;
}

/// Sum of channel `c` over the first `n` diagonal cells.
pub open spec fn diag_sum<T: Element>(data: Seq<T>, cols: int, ch: int, c: int, n: int) -> int
    decreases n,
{
    if n <= 0 {
        0
    } else {
        diag_sum(data, cols, ch, c, n - 1) + data[flat_index(cols, ch, n - 1, n - 1, c)].val()
    }
}

/// Each diagonal term lies in `i32`'s range, so `n` of them sum to at most
/// `n * 2^31` in magnitude.
proof fn lemma_diag_sum_bound<T: Element>(data: Seq<T>, cols: int, ch: int, c: int, n: int)
    requires
        n >= 0,
    ensures
        -n * 0x8000_0000 <= diag_sum(data, cols, ch, c, n) <= n * 0x8000_0000,
    decreases n,
{
    if n > 0 {
        lemma_diag_sum_bound(data, cols, ch, c, n - 1);
        T::lemma_range(data[flat_index(cols, ch, n - 1, n - 1, c)]);
    }
}

/// Returns the per-channel sum of the diagonal elements, computed exactly.
pub fn trace<T: Element>(src: &Matrix<T>) -> (r: Scalar<i128>)
    requires
        src.fits(),
        diag_len(src.rows as int, src.cols as int) > 0 ==> src.channels <= 4 && diag_extent(
            src.rows as int,
            src.cols as int,
            src.channels as int,
        ) <= src.data@.len(),
    ensures
        forall|c: int|
            0 <= c < 4 ==> #[trigger] r.v[c] == (if c < src.channels {
                diag_sum(
                    src.data@,
                    src.cols as int,
                    src.channels as int,
                    c,
                    diag_len(src.rows as int, src.cols as int),
                )
            } else {
                0
            }),
{
    let n = if src.rows <= src.cols {
        src.rows
    } else {
        src.cols
    };
    let channels = src.channels;
    let cols = src.cols;
    let ghost rows = src.rows as int;
    let ghost data = src.data@;
    let data_len = src.data.len();
    let mut sum: [i128; 4] = [0, 0, 0, 0];
    for i in 0..n
        invariant
            n == diag_len(rows, cols as int),
            rows == src.rows,
            cols == src.cols,
            channels == src.channels,
            data == src.data@,
            data_len == data.len(),
            src.fits(),
            n > 0 ==> channels <= 4 && diag_extent(rows, cols as int, channels as int) <= data.len(),
            forall|c: int|
                0 <= c < 4 ==> #[trigger] sum[c] == (if c < channels {
                    diag_sum(data, cols as int, channels as int, c, i as int)
                } else {
                    0
                }),
    {
        proof {
            lemma_flat_index_bound(rows, cols as int, 1, i as int, i as int, 0);
            if channels > 0 {
                lemma_flat_index_bound(rows, cols as int, channels as int, i as int, i as int, 0);
                lemma_diag_last(rows, cols as int, channels as int, i as int);
            } else {
                assert((i * cols + i) * channels == 0) by (nonlinear_arith)
                    requires
                        channels == 0,
                ;
            }
        }
        let base = (i * cols + i) * channels;
        for c in 0..channels
            invariant
                0 <= i < n,
                n == diag_len(rows, cols as int),
                cols == src.cols,
                channels == src.channels,
                data == src.data@,
                base == flat_index(cols as int, channels as int, i as int, i as int, 0),
                channels <= 4,
                data_len == data.len(),
                flat_index(cols as int, channels as int, i as int, i as int, channels - 1) < data.len(),
                forall|c2: int|
                    0 <= c2 < 4 ==> #[trigger] sum[c2] == (if c2 < c {
                        diag_sum(data, cols as int, channels as int, c2, i + 1)
                    } else if c2 < channels {
                        diag_sum(data, cols as int, channels as int, c2, i as int)
                    } else {
                        0
                    }),
        {
            proof {
                assert(base + c == flat_index(cols as int, channels as int, i as int, i as int, c as int)) by (nonlinear_arith)
                    requires
                        base == flat_index(cols as int, channels as int, i as int, i as int, 0),
                ;
                assert(flat_index(cols as int, channels as int, i as int, i as int, c as int) <= flat_index(cols as int, channels as int, i as int, i as int, channels - 1));
                lemma_diag_sum_bound(data, cols as int, channels as int, c as int, i as int);
                T::lemma_range(data[flat_index(cols as int, channels as int, i as int, i as int, c as int)]);
                assert(i < 0x1_0000_0000_0000_0000);
                assert(i * 0x8000_0000 <= 0x1_0000_0000_0000_0000 * 0x8000_0000) by (nonlinear_arith)
                    requires
                        0 <= i < 0x1_0000_0000_0000_0000,
                ;
            }
            let v = T::to_wide(src.data[base + c]);
            sum[c] = sum[c] + v;
        }
    }
    Scalar { v: sum }
}

/// The trace of `identity * s` is `min(rows, cols) * s`, channel by channel.
pub proof fn law_trace_of_identity<T: Element>(
    data: Seq<T>,
    rows: int,
    cols: int,
    ch: int,
    s: Scalar<T>,
    c: int,
)
    requires
        rows >= 0,
        cols >= 0,
        0 <= c < ch <= 4,
        diag_extent(rows, cols, ch) <= data.len(),
        forall|k: int|
            0 <= k < data.len() ==> if on_diagonal(cols, ch, diag_len(rows, cols), k) {
                #[trigger] data[k] == s.v[k % ch]
            } else {
                data[k].val() == 0
            },
    ensures
        diag_sum(data, cols, ch, c, diag_len(rows, cols)) == diag_len(rows, cols) * s.v[c].val(),
{
    lemma_diag_sum_identity(data, rows, cols, ch, s, c, diag_len(rows, cols));
}

proof fn lemma_diag_sum_identity<T: Element>(
    data: Seq<T>,
    rows: int,
    cols: int,
    ch: int,
    s: Scalar<T>,
    c: int,
    m: int,
)
    requires
        rows >= 0,
        cols >= 0,
        0 <= c < ch,
        0 <= m <= diag_len(rows, cols),
        diag_extent(rows, cols, ch) <= data.len(),
        forall|k: int|
            0 <= k < data.len() ==> if on_diagonal(cols, ch, diag_len(rows, cols), k) {
                #[trigger] data[k] == s.v[k % ch]
            } else {
                data[k].val() == 0
            },
    ensures
        diag_sum(data, cols, ch, c, m) == m * s.v[c].val(),
    decreases m,
{
    if m > 0 {
        lemma_diag_sum_identity(data, rows, cols, ch, s, c, m - 1);
        let i = m - 1;
        lemma_diag_position(cols, ch, i, c);
        lemma_diag_last(rows, cols, ch, i);
        let k = flat_index(cols, ch, i, i, c);
        assert(k <= flat_index(cols, ch, i, i, ch - 1));
        assert(on_diagonal(cols, ch, diag_len(rows, cols), k));
        assert(data[k] == s.v[c]);
        assert(diag_sum(data, cols, ch, c, m) == diag_sum(data, cols, ch, c, m - 1) + data[k].val());
        assert(m * s.v[c].val() == (m - 1) * s.v[c].val() + s.v[c].val()) by (nonlinear_arith);
    } else {
        assert(m * s.v[c].val() == 0) by (nonlinear_arith)
            requires
                m == 0,
        ;
    }
}

// ---------------------------------------------------------------------------
// Vector products and range check
// ---------------------------------------------------------------------------

/// Sum of `a[i] * b[i]` over the first `n` positions.
pub open spec fn dot_sum<T: Element>(a: Seq<T>, b: Seq<T>, n: int) -> int
    decreases n,
{
    if n <= 0 {
        0
    } else {
        dot_sum(a, b, n - 1) + a[n - 1].val() * b[n - 1].val()
    }
}

/// Each product of two elements is at most `2^62` in magnitude.
proof fn lemma_product_bound<T: Element>(x: T, y: T)
    ensures
        -0x4000_0000_0000_0000 <= x.val() * y.val() <= 0x4000_0000_0000_0000,
{
    T::lemma_range(x);
    T::lemma_range(y);
    let a = x.val();
    let b = y.val();
    assert(-0x4000_0000_0000_0000 <= a * b <= 0x4000_0000_0000_0000) by (nonlinear_arith)
        requires
            -0x8000_0000 <= a <= 0x7fff_ffff,
            -0x8000_0000 <= b <= 0x7fff_ffff,
    ;
}

proof fn lemma_dot_sum_bound<T: Element>(a: Seq<T>, b: Seq<T>, n: int)
    requires
        0 <= n <= a.len(),
        n <= b.len(),
    ensures
        -n * 0x4000_0000_0000_0000 <= dot_sum(a, b, n) <= n * 0x4000_0000_0000_0000,
    decreases n,
{
    if n > 0 {
        lemma_dot_sum_bound(a, b, n - 1);
        lemma_product_bound(a[n - 1], b[n - 1]);
    }
}

/// Computes the dot product of two matrices taken as flat vectors, exactly.
///
/// Fails with `InvalidDimensions` when the element counts differ.
pub fn dot<T: Element>(src1: &Matrix<T>, src2: &Matrix<T>) -> (res: Result<i128>)
    ensures
        res is Ok <==> src1.data@.len() == src2.data@.len(),
        res is Err ==> res matches Err(PureCvError::InvalidDimensions(_)),
        res matches Ok(v) ==> v as int == dot_sum(src1.data@, src2.data@, src1.data@.len() as int),
{
    let n = src1.data.len();
    if n != src2.data.len() {
        return Err(
            PureCvError::InvalidDimensions(
                "Matrices must have the same number of elements".to_string(),
            ),
        );
    }
    let mut sum: i128 = 0;
    for i in 0..n
        invariant
            n == src1.data@.len(),
            n == src2.data@.len(),
            sum as int == dot_sum(src1.data@, src2.data@, i as int),
    {
        proof {
            lemma_dot_sum_bound(src1.data@, src2.data@, i as int);
            lemma_product_bound(src1.data@[i as int], src2.data@[i as int]);
            assert(i * 0x4000_0000_0000_0000 <= 0x1_0000_0000_0000_0000 * 0x4000_0000_0000_0000)
                by (nonlinear_arith)
                requires
                    0 <= i < 0x1_0000_0000_0000_0000,
            ;
        }
        let p = T::to_wide(src1.data[i]) * T::to_wide(src2.data[i]);
        sum = sum + p;
    }
    Ok(sum)
}

/// Checks that every element lies in `[min_val, max_val]`.
pub fn check_range<T: Element>(src: &Matrix<T>, min_val: i128, max_val: i128) -> (r: bool)
    ensures
        r == (forall|i: int|
            0 <= i < src.data@.len() ==> min_val <= (#[trigger] src.data@[i]).val() <= max_val),
{
    let n = src.data.len();
    for i in 0..n
        invariant
            n == src.data@.len(),
            forall|j: int| 0 <= j < i ==> min_val <= (#[trigger] src.data@[j]).val() <= max_val,
    {
        let v = T::to_wide(src.data[i]);
        if v < min_val || v > max_val {
            return false;
        }
    }
    true
}

/// The three components of `a x b` for three-element `a` and `b`.
pub open spec fn cross_val<T: Element>(a: Seq<T>, b: Seq<T>, k: int) -> int {
    if k == 0 {
        a[1].val() * b[2].val() - a[2].val() * b[1].val()
    } else if k == 1 {
        a[2].val() * b[0].val() - a[0].val() * b[2].val()
    } else {
        a[0].val() * b[1].val() - a[1].val() * b[0].val()
    }
}

/// The products and differences `cross` forms fit the element type.
pub open spec fn cross_fits<T: Element>(a: Seq<T>, b: Seq<T>) -> bool {
    let fits = |v: int| T::lo() <= v <= T::hi();
    &&& fits(a[1].val() * b[2].val())
    &&& fits(a[2].val() * b[1].val())
    &&& fits(a[2].val() * b[0].val())
    &&& fits(a[0].val() * b[2].val())
    &&& fits(a[0].val() * b[1].val())
    &&& fits(a[1].val() * b[0].val())
    &&& fits(cross_val(a, b, 0))
    &&& fits(cross_val(a, b, 1))
    &&& fits(cross_val(a, b, 2))
}

/// Computes the cross product of two three-element vectors.
///
/// The result is a column (3x1) when `src1` has three rows, a row (1x3) when
/// it has three columns, and a single three-channel cell otherwise.  Fails
/// with `InvalidDimensions` unless both operands have exactly three
/// elements by shape.
pub fn cross<T: Element>(src1: &Matrix<T>, src2: &Matrix<T>) -> (res: Result<Matrix<T>>)
    requires
        src1.fits(),
        src2.fits(),
        src1.spec_total() == 3 && src2.spec_total() == 3 ==> src1.data@.len() >= 3
            && src2.data@.len() >= 3 && cross_fits(src1.data@, src2.data@),
    ensures
        res is Ok <==> src1.spec_total() == 3 && src2.spec_total() == 3,
        res is Err ==> res matches Err(PureCvError::InvalidDimensions(_)),
        res matches Ok(dst) ==> {
            &&& dst.rows == (if src1.rows == 3 { 3usize } else { 1usize })
            &&& dst.cols == (if src1.rows != 3 && src1.cols == 3 { 3usize } else { 1usize })
            &&& dst.channels == src1.channels
            &&& dst.data@.len() == 3
            &&& forall|k: int| 0 <= k < 3 ==> (#[trigger] dst.data@[k]).val() == cross_val(src1.data@, src2.data@, k)
        },
{
    let len1 = src1.rows * src1.cols * src1.channels;
    let len2 = src2.rows * src2.cols * src2.channels;
    if len1 != 3 || len2 != 3 {
        return Err(
            PureCvError::InvalidDimensions("Cross product requires 3-element vectors".to_string()),
        );
    }
    let (out_rows, out_cols): (usize, usize) = if src1.rows == 3 {
        (3, 1)
    } else if src1.cols == 3 {
        (1, 3)
    } else {
        (1, 1)
    };
    proof {
        lemma_cross_shape(src1.rows as int, src1.cols as int, src1.channels as int);
    }
    let a0 = src1.data[0];
    let a1 = src1.data[1];
    let a2 = src1.data[2];
    let b0 = src2.data[0];
    let b1 = src2.data[1];
    let b2 = src2.data[2];
    let mut dst = Matrix::<T>::new(out_rows, out_cols, src1.channels);
    let x = T::elem_sub(T::elem_mul(a1, b2), T::elem_mul(a2, b1));
    let y = T::elem_sub(T::elem_mul(a2, b0), T::elem_mul(a0, b2));
    let z = T::elem_sub(T::elem_mul(a0, b1), T::elem_mul(a1, b0));
    dst.data.set(0, x);
    dst.data.set(1, y);
    dst.data.set(2, z);
    Ok(dst)
}

/// A shape of three elements gives a three-element result shape.
proof fn lemma_cross_shape(rows: int, cols: int, channels: int)
    requires
        rows >= 0,
        cols >= 0,
        channels >= 0,
        rows * cols * channels == 3,
    ensures
        rows == 3 ==> cols * channels == 1 && channels == 1,
        rows != 3 && cols == 3 ==> rows * channels == 1 && channels == 1,
        rows != 3 && cols != 3 ==> channels == 3,
{
    assert(rows * cols * channels == 3 ==> (rows == 1 || rows == 3) && (cols == 1 || cols == 3)
        && (channels == 1 || channels == 3) && rows * cols * channels == 3) by (nonlinear_arith)
        requires
            rows >= 0,
            cols >= 0,
            channels >= 0,
    ;
}

/// Swapping the operands of `cross` negates the result.
pub proof fn law_cross_anticommutes<T: Element>(a: Seq<T>, b: Seq<T>, ab: Seq<T>, ba: Seq<T>)
    requires
        a.len() >= 3,
        b.len() >= 3,
        ab.len() == 3,
        ba.len() == 3,
        forall|k: int| 0 <= k < 3 ==> (#[trigger] ab[k]).val() == cross_val(a, b, k),
        forall|k: int| 0 <= k < 3 ==> (#[trigger] ba[k]).val() == cross_val(b, a, k),
    ensures
        forall|k: int| 0 <= k < 3 ==> (#[trigger] ab[k]).val() == -ba[k].val(),
{
    assert(ab[0].val() == -ba[0].val());
    assert(ab[1].val() == -ba[1].val());
    assert(ab[2].val() == -ba[2].val());
}

/// The cross product is orthogonal to both of its operands: its dot
/// product with either is zero.
pub proof fn law_cross_orthogonal<T: Element>(a: Seq<T>, b: Seq<T>, c: Seq<T>)
    requires
        a.len() == 3,
        b.len() == 3,
        c.len() == 3,
        forall|k: int| 0 <= k < 3 ==> (#[trigger] c[k]).val() == cross_val(a, b, k),
    ensures
        dot_sum(a, c, 3) == 0,
        dot_sum(b, c, 3) == 0,
{
    let (a0, a1, a2) = (a[0].val(), a[1].val(), a[2].val());
    let (b0, b1, b2) = (b[0].val(), b[1].val(), b[2].val());
    let (c0, c1, c2) = (c[0].val(), c[1].val(), c[2].val());
    assert(c0 == a1 * b2 - a2 * b1);
    assert(c1 == a2 * b0 - a0 * b2);
    assert(c2 == a0 * b1 - a1 * b0);
    reveal_with_fuel(dot_sum, 4);
    assert(dot_sum(a, c, 3) == a0 * c0 + a1 * c1 + a2 * c2);
    assert(dot_sum(b, c, 3) == b0 * c0 + b1 * c1 + b2 * c2);
    assert(a0 * c0 == a0 * (a1 * b2) - a0 * (a2 * b1)) by (nonlinear_arith)
        requires
            c0 == a1 * b2 - a2 * b1,
    ;
    assert(a1 * c1 == a1 * (a2 * b0) - a1 * (a0 * b2)) by (nonlinear_arith)
        requires
            c1 == a2 * b0 - a0 * b2,
    ;
    assert(a2 * c2 == a2 * (a0 * b1) - a2 * (a1 * b0)) by (nonlinear_arith)
        requires
            c2 == a0 * b1 - a1 * b0,
    ;
    assert(b0 * c0 == b0 * (a1 * b2) - b0 * (a2 * b1)) by (nonlinear_arith)
        requires
            c0 == a1 * b2 - a2 * b1,
    ;
    assert(b1 * c1 == b1 * (a2 * b0) - b1 * (a0 * b2)) by (nonlinear_arith)
        requires
            c1 == a2 * b0 - a0 * b2,
    ;
    assert(b2 * c2 == b2 * (a0 * b1) - b2 * (a1 * b0)) by (nonlinear_arith)
        requires
            c2 == a0 * b1 - a1 * b0,
    ;
    lemma_mul3_reorder(a0, a1, b2);
    lemma_mul3_reorder(a0, a2, b1);
    lemma_mul3_reorder(a1, a2, b0);
    lemma_mul3_reorder(b0, a1, b2);
    lemma_mul3_reorder(b1, a2, b0);
    lemma_mul3_reorder(b2, a0, b1);
}

/// Products of three factors do not depend on their order.
proof fn lemma_mul3_reorder(x: int, y: int, z: int)
    ensures
        x * (y * z) == y * (x * z),
        x * (y * z) == z * (x * y),
        x * (y * z) == y * (z * x),
        x * (y * z) == z * (y * x),
        x * (y * z) == x * (z * y),
{
    assert(x * (y * z) == y * (x * z)) by (nonlinear_arith);
    assert(x * (y * z) == z * (x * y)) by (nonlinear_arith);
    assert(x * (y * z) == y * (z * x)) by (nonlinear_arith);
    assert(x * (y * z) == z * (y * x)) by (nonlinear_arith);
    assert(x * (y * z) == x * (z * y)) by (nonlinear_arith);
}

/// The dot product does not depend on the order of its operands.
pub proof fn law_dot_commutes<T: Element>(a: Seq<T>, b: Seq<T>, n: int)
    requires
        0 <= n,
    ensures
        dot_sum(a, b, n) == dot_sum(b, a, n),
    decreases n,
{
    if n > 0 {
        law_dot_commutes(a, b, n - 1);
        assert(a[n - 1].val() * b[n - 1].val() == b[n - 1].val() * a[n - 1].val()) by (nonlinear_arith);
    }
}

/// The trace is additive: the trace of `add(src1, src2)` is the sum of the
/// traces, channel by channel.
pub proof fn law_trace_of_sum<T: Element>(
    a: Seq<T>,
    b: Seq<T>,
    sum: Seq<T>,
    rows: int,
    cols: int,
    ch: int,
    c: int,
)
    requires
        rows >= 0,
        cols >= 0,
        0 <= c < ch,
        a.len() == rows * cols * ch,
        b.len() == rows * cols * ch,
        diag_extent(rows, cols, ch) <= a.len(),
        map2_val(sum, a, b, rows * cols * ch, sum_fn::<T>()),
    ensures
        diag_sum(sum, cols, ch, c, diag_len(rows, cols)) == diag_sum(a, cols, ch, c, diag_len(rows, cols))
            + diag_sum(b, cols, ch, c, diag_len(rows, cols)),
{
    lemma_diag_sum_additive(a, b, sum, rows, cols, ch, c, diag_len(rows, cols));
}

proof fn lemma_diag_sum_additive<T: Element>(
    a: Seq<T>,
    b: Seq<T>,
    sum: Seq<T>,
    rows: int,
    cols: int,
    ch: int,
    c: int,
    m: int,
)
    requires
        rows >= 0,
        cols >= 0,
        0 <= c < ch,
        0 <= m <= diag_len(rows, cols),
        a.len() == rows * cols * ch,
        b.len() == rows * cols * ch,
        diag_extent(rows, cols, ch) <= a.len(),
        map2_val(sum, a, b, rows * cols * ch, sum_fn::<T>()),
    ensures
        diag_sum(sum, cols, ch, c, m) == diag_sum(a, cols, ch, c, m) + diag_sum(b, cols, ch, c, m),
    decreases m,
{
    if m > 0 {
        lemma_diag_sum_additive(a, b, sum, rows, cols, ch, c, m - 1);
        let i = m - 1;
        lemma_diag_last(rows, cols, ch, i);
        lemma_diag_position(cols, ch, i, c);
        let k = flat_index(cols, ch, i, i, c);
        assert(k <= flat_index(cols, ch, i, i, ch - 1));
        assert(sum[k].val() == a[k].val() + b[k].val());
    }
}

/// The dot product distributes over `add`: `dot(src1 + src2, v) ==
/// dot(src1, v) + dot(src2, v)`.
pub proof fn law_dot_distributes_over_add<T: Element>(
    a: Seq<T>,
    b: Seq<T>,
    sum: Seq<T>,
    v: Seq<T>,
    n: int,
)
    requires
        0 <= n,
        a.len() == n,
        b.len() == n,
        v.len() == n,
        map2_val(sum, a, b, n, sum_fn::<T>()),
    ensures
        dot_sum(sum, v, n) == dot_sum(a, v, n) + dot_sum(b, v, n),
{
    lemma_dot_sum_additive(a, b, sum, v, n, n);
}

proof fn lemma_dot_sum_additive<T: Element>(a: Seq<T>, b: Seq<T>, sum: Seq<T>, v: Seq<T>, n: int, m: int)
    requires
        0 <= m <= n,
        a.len() == n,
        b.len() == n,
        v.len() == n,
        map2_val(sum, a, b, n, sum_fn::<T>()),
    ensures
        dot_sum(sum, v, m) == dot_sum(a, v, m) + dot_sum(b, v, m),
    decreases m,
{
    if m > 0 {
        lemma_dot_sum_additive(a, b, sum, v, n, m - 1);
        let x = a[m - 1].val();
        let y = b[m - 1].val();
        let z = v[m - 1].val();
        assert(sum[m - 1].val() == x + y);
        assert((x + y) * z == x * z + y * z) by (nonlinear_arith);
    }
}

} // verus!
