use vstd::prelude::*;

verus! {

/// Absolute value of an integer.
pub open spec fn abs_int(x: int) -> int {
    if x < 0 { -x } else { x }
}

/// Division rounding toward zero, as Rust's `/` does on signed integers.
pub open spec fn trunc_div(a: int, b: int) -> int {
    if (a >= 0) == (b > 0) {
        abs_int(a) / abs_int(b)
    } else {
        -(abs_int(a) / abs_int(b))
    }
}

/// Links truncating division to the Euclidean division of the specification
/// language and bounds its magnitude.
pub proof fn lemma_trunc_div(x: int, d: int)
    requires
        d != 0,
    ensures
        trunc_div(x, d) == (if x >= 0 { x / d } else { -((-x) / d) }),
        abs_int(trunc_div(x, d)) <= abs_int(x),
        d == 1 ==> trunc_div(x, d) == x,
        d == -1 ==> trunc_div(x, d) == -x,
        abs_int(d) >= 2 ==> 2 * abs_int(trunc_div(x, d)) <= abs_int(x),
        x >= 0 && d > 0 ==> trunc_div(x, d) == x / d,
{
    if x >= 0 && d < 0 {
        assert(x / d == -(x / (-d))) by (nonlinear_arith)
            requires
                x >= 0,
                d < 0,
        ;
    }
    if x < 0 && d < 0 {
        assert((-x) / d == -((-x) / (-d))) by (nonlinear_arith)
            requires
                x < 0,
                d < 0,
        ;
    }
    let ax = abs_int(x);
    let ad = abs_int(d);
    assert(0 <= ax / ad <= ax) by (nonlinear_arith)
        requires
            ax >= 0,
            ad >= 1,
    ;
    if ad >= 2 {
        assert(2 * (ax / ad) <= ax) by (nonlinear_arith)
            requires
                ax >= 0,
                ad >= 2,
        ;
    }
    if ad == 1 {
        assert(ax / ad == ax) by (nonlinear_arith)
            requires
                ad == 1,
        ;
    }
}

} // verus!
