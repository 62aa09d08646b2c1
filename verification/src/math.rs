//! Integer line rasterisation.
//!
//! A line is walked along its longer axis, one point per unit step, while an
//! error accumulator decides when the shorter axis advances. The points are
//! described here in closed form, and the accumulator loop is proved to
//! produce exactly those points.

use vstd::prelude::*;
use vstd::arithmetic::div_mod::lemma_fundamental_div_mod;
use vstd::arithmetic::div_mod::lemma_fundamental_div_mod_converse;

verus! {

/// Absolute difference of two coordinates.
pub open spec fn span(a: int, b: int) -> int {
    if a <= b {
        b - a
    } else {
        a - b
    }
}

/// Whether the line is walked along the vertical axis: it is steeper than 45°.
pub open spec fn steep(x1: int, y1: int, x2: int, y2: int) -> bool {
    span(y1, y2) > span(x1, x2)
}

/// How far the secondary axis has moved when the walk reaches step `k` of a
/// line that covers `run` steps on the primary axis and `rise` on the other.
///
/// This is `k * rise / run` rounded to the nearest integer, a tie going to the
/// lower value when `run` is even.
pub open spec fn drift(k: int, run: int, rise: int) -> int {
    if run <= 0 {
        0
    } else {
        (k * rise + (run - 1 - run / 2)) / run
    }
}

/// The error accumulator before step `k`: it starts at `run / 2`, loses `rise`
/// at every step and gains `run` whenever it would go below zero.
pub open spec fn residue(k: int, run: int, rise: int) -> int {
    run / 2 - k * rise + drift(k, run, rise) * run
}

/// Point `k` of the walk from `(a1, b1)` towards `(a2, b2)`, as (primary,
/// secondary) coordinates, for `a1 <= a2`.
pub open spec fn walk(a1: int, b1: int, a2: int, b2: int, k: int) -> (int, int) {
    (
        a1 + k,
        if b1 <= b2 {
            b1 + drift(k, a2 - a1, b2 - b1)
        } else {
            b1 - drift(k, a2 - a1, b1 - b2)
        },
    )
}

/// Point `k` counted from the first endpoint given. The walk itself always
/// runs towards increasing primary coordinates, so when the first endpoint is
/// the far one its points are taken from the end.
pub open spec fn ordered(a1: int, b1: int, a2: int, b2: int, k: int) -> (int, int) {
    if a1 <= a2 {
        walk(a1, b1, a2, b2, k)
    } else {
        walk(a2, b2, a1, b1, (a1 - a2) - k)
    }
}

/// Number of points on the line between two pixels.
pub open spec fn line_len(x1: int, y1: int, x2: int, y2: int) -> nat {
    (if steep(x1, y1, x2, y2) {
        span(y1, y2)
    } else {
        span(x1, x2)
    } + 1) as nat
}

/// Point `k` of the line from `(x1, y1)` to `(x2, y2)`, as `(x, y)`.
pub open spec fn line_point(x1: int, y1: int, x2: int, y2: int, k: int) -> (int, int) {
    if steep(x1, y1, x2, y2) {
        let q = ordered(y1, x1, y2, x2, k);
        (q.1, q.0)
    } else {
        ordered(x1, y1, x2, y2, k)
    }
}

/// The pixels of the line from `(x1, y1)` to `(x2, y2)`, in the order in which
/// they are met when going from the first endpoint to the second.
pub open spec fn line_points(x1: int, y1: int, x2: int, y2: int) -> Seq<(int, int)> {
    Seq::new(line_len(x1, y1, x2, y2), |k: int| line_point(x1, y1, x2, y2, k))
}

/// A list of machine coordinates as mathematical points.
pub open spec fn coords(points: Seq<(usize, usize)>) -> Seq<(int, int)> {
    points.map_values(|p: (usize, usize)| (p.0 as int, p.1 as int))
}

/// The drift stays between zero and the whole rise.
pub proof fn lemma_drift_bounds(k: int, run: int, rise: int)
    requires
        0 <= rise <= run,
        0 <= k <= run,
    ensures
        0 <= drift(k, run, rise) <= rise,
        drift(0, run, rise) == 0,
        drift(run, run, rise) == rise,
{
    if run > 0 {
        let bias = run - 1 - run / 2;
        assert(0 <= bias < run);
        lemma_fundamental_div_mod_converse(bias, run, 0, bias);
        assert(0 * rise + bias == bias);
        assert(run * rise + bias == rise * run + bias) by (nonlinear_arith);
        lemma_fundamental_div_mod_converse(run * rise + bias, run, rise, bias);
        let n = k * rise + bias;
        let q = n / run;
        lemma_fundamental_div_mod(n, run);
        assert(0 <= n % run < run);
        assert(0 <= k * rise <= run * rise) by (nonlinear_arith)
            requires
                0 <= k <= run,
                0 <= rise,
        ;
        assert(0 <= q <= rise) by (nonlinear_arith)
            requires
                n == run * q + n % run,
                0 <= n % run < run,
                0 <= n < run * rise + run,
                0 < run,
        ;
    }
}

/// One step of the accumulator: the secondary axis advances exactly when the
/// accumulator holds less than `rise`.
pub proof fn lemma_drift_step(k: int, run: int, rise: int)
    requires
        0 < run,
        0 <= rise <= run,
        0 <= k,
    ensures
        0 <= residue(k, run, rise) < run,
        residue(k, run, rise) < rise ==> {
            &&& drift(k + 1, run, rise) == drift(k, run, rise) + 1
            &&& residue(k + 1, run, rise) == residue(k, run, rise) + (run - rise)
        },
        residue(k, run, rise) >= rise ==> {
            &&& drift(k + 1, run, rise) == drift(k, run, rise)
            &&& residue(k + 1, run, rise) == residue(k, run, rise) - rise
        },
{
    let bias = run - 1 - run / 2;
    let n = k * rise + bias;
    let q = n / run;
    let r = n % run;
    lemma_fundamental_div_mod(n, run);
    assert(0 <= r < run);
    assert(run * q == q * run) by (nonlinear_arith);
    let e = residue(k, run, rise);
    assert(e == run - 1 - r);
    let m = (k + 1) * rise + bias;
    assert(m == n + rise) by (nonlinear_arith)
        requires
            m == (k + 1) * rise + bias,
            n == k * rise + bias,
    ;
    if e < rise {
        assert(m == (q + 1) * run + (rise - 1 - e)) by (nonlinear_arith)
            requires
                m == n + rise,
                n == q * run + r,
                e == run - 1 - r,
        ;
        lemma_fundamental_div_mod_converse(m, run, q + 1, rise - 1 - e);
        assert((q + 1) * run == q * run + run) by (nonlinear_arith);
    } else {
        assert(m == q * run + (r + rise));
        lemma_fundamental_div_mod_converse(m, run, q, r + rise);
    }
}

/// A line starts at its first endpoint and ends at its second.
pub proof fn lemma_line_ends(x1: int, y1: int, x2: int, y2: int)
    ensures
        line_points(x1, y1, x2, y2).first() == (x1, y1),
        line_points(x1, y1, x2, y2).last() == (x2, y2),
{
    let n = line_len(x1, y1, x2, y2) as int - 1;
    if steep(x1, y1, x2, y2) {
        lemma_drift_bounds(0, span(y1, y2), span(x1, x2));
        lemma_drift_bounds(n, span(y1, y2), span(x1, x2));
    } else {
        lemma_drift_bounds(0, span(x1, x2), span(y1, y2));
        lemma_drift_bounds(n, span(x1, x2), span(y1, y2));
    }
}

/// Every point of a line lies in the rectangle spanned by its endpoints.
pub proof fn lemma_line_in_box(x1: int, y1: int, x2: int, y2: int, k: int)
    requires
        0 <= k < line_len(x1, y1, x2, y2),
    ensures
        x1 <= line_point(x1, y1, x2, y2, k).0 <= x2 || x2 <= line_point(x1, y1, x2, y2, k).0 <= x1,
        y1 <= line_point(x1, y1, x2, y2, k).1 <= y2 || y2 <= line_point(x1, y1, x2, y2, k).1 <= y1,
{
    let n = line_len(x1, y1, x2, y2) as int - 1;
    if steep(x1, y1, x2, y2) {
        lemma_drift_bounds(k, span(y1, y2), span(x1, x2));
        lemma_drift_bounds(n - k, span(y1, y2), span(x1, x2));
    } else {
        lemma_drift_bounds(k, span(x1, x2), span(y1, y2));
        lemma_drift_bounds(n - k, span(x1, x2), span(y1, y2));
    }
}

/// Drawing a line from the far end visits the same pixels in the opposite
/// order.
pub proof fn lemma_line_reversal(x1: int, y1: int, x2: int, y2: int)
    ensures
        line_points(x2, y2, x1, y1) == line_points(x1, y1, x2, y2).reverse(),
{
    let forward = line_points(x1, y1, x2, y2);
    let backward = line_points(x2, y2, x1, y1);
    assert(backward.len() == forward.len());
    assert forall|k: int| 0 <= k < backward.len() implies backward[k] == forward.reverse()[k] by {
        assert(forward.reverse()[k] == forward[forward.len() - 1 - k]);
    }
    assert(backward =~= forward.reverse());
}

/// Absolute difference of two machine coordinates.
pub fn distance(a: usize, b: usize) -> (d: usize)
    ensures
        d == span(a as int, b as int),
{
    if a <= b {
        b - a
    } else {
        a - b
    }
}

/// Reverses a list of points in place.
fn reverse_points(points: &mut Vec<(usize, usize)>)
    ensures
        final(points)@ == old(points)@.reverse(),
{
    let n = points.len();
    let mut i: usize = 0;
    while i < n / 2
        invariant
            n == points.len(),
            n == old(points).len(),
            i <= n / 2,
            forall|j: int| 0 <= j < i ==> points[j] == old(points)[n - 1 - j],
            forall|j: int| 0 <= j < i ==> points[n - 1 - j] == old(points)[j],
            forall|j: int| i <= j < n - i ==> points[j] == old(points)[j],
        decreases n / 2 - i,
    {
        let end = n - 1;
        let front = points[i];
        let back = points[end - i];
        points[i] = back;
        points[end - i] = front;
        i = i + 1;
    }
    assert(points@ =~= old(points)@.reverse());
}

/// Bresenham's line from `(x1, y1)` to `(x2, y2)`.
///
/// The walk runs along the longer axis, always towards increasing
/// coordinates; when that is against the direction asked for, the points are
/// reversed afterwards, so that the first point returned is `(x1, y1)` and
/// the last is `(x2, y2)`. The number of points must fit in a `usize`.
pub fn bresenham(x1: usize, y1: usize, x2: usize, y2: usize) -> (points: Vec<(usize, usize)>)
    requires
        line_len(x1 as int, y1 as int, x2 as int, y2 as int) <= usize::MAX,
    ensures
        coords(points@) == line_points(x1 as int, y1 as int, x2 as int, y2 as int),
{
    let is_steep = distance(y1, y2) > distance(x1, x2);
    let reversed = if is_steep {
        y1 > y2
    } else {
        x1 > x2
    };
    // The walk goes from (a1, b1) to (a2, b2), with a1 <= a2.
    let a1 = if is_steep {
        if reversed { y2 } else { y1 }
    } else {
        if reversed { x2 } else { x1 }
    };
    let a2 = if is_steep {
        if reversed { y1 } else { y2 }
    } else {
        if reversed { x1 } else { x2 }
    };
    let b1 = if is_steep {
        if reversed { x2 } else { x1 }
    } else {
        if reversed { y2 } else { y1 }
    };
    let b2 = if is_steep {
        if reversed { x1 } else { x2 }
    } else {
        if reversed { y1 } else { y2 }
    };
    let run = a2 - a1;
    let rise = distance(b1, b2);
    let rising = b1 < b2;
    let mut err = run / 2;
    let mut s = b1;
    let mut points: Vec<(usize, usize)> = Vec::new();
    let mut k: usize = 0;
    proof {
        lemma_drift_bounds(0, run as int, rise as int);
    }
    while k <= run
        invariant
            a1 + run == a2,
            run < usize::MAX,
            rise == span(b1 as int, b2 as int),
            rise <= run,
            rising == (b1 < b2),
            k <= run + 1,
            points.len() == k,
            k <= run ==> s == walk(a1 as int, b1 as int, a2 as int, b2 as int, k as int).1,
            k <= run && run > 0 ==> err == residue(k as int, run as int, rise as int),
            forall|j: int|
                0 <= j < k ==> (if is_steep {
                    (points[j].1 as int, points[j].0 as int)
                } else {
                    (points[j].0 as int, points[j].1 as int)
                }) == walk(a1 as int, b1 as int, a2 as int, b2 as int, j),
        decreases run + 1 - k,
    {
        let p = a1 + k;
        if is_steep {
            points.push((s, p));
        } else {
            points.push((p, s));
        }
        if k < run {
            proof {
                lemma_drift_step(k as int, run as int, rise as int);
                lemma_drift_bounds(k as int, run as int, rise as int);
                lemma_drift_bounds(k as int + 1, run as int, rise as int);
            }
            if err < rise {
                if rising {
                    s = s + 1;
                } else {
                    s = s - 1;
                }
                err = err + (run - rise);
            } else {
                err = err - rise;
            }
        }
        k = k + 1;
    }
    if reversed {
        reverse_points(&mut points);
    }
    proof {
        let wanted = line_points(x1 as int, y1 as int, x2 as int, y2 as int);
        assert(coords(points@).len() == wanted.len());
        assert forall|j: int| 0 <= j < wanted.len() implies coords(points@)[j] == wanted[j] by {
            lemma_drift_bounds(0, run as int, rise as int);
        }
        assert(coords(points@) =~= wanted);
    }
    points
}

} // verus!
