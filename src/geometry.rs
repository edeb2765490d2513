//! Points, rectangular regions and the axis-aligned proximity test.
use vstd::prelude::*;

verus! {

/// A point of the level's plane, in integer world units.
#[derive(Clone, Copy, Debug, PartialEq, Eq, Structural)]
pub struct Point {
    pub x: i64,
    pub y: i64,
}

/// An axis-aligned rectangle, bounds included on every side.
#[derive(Clone, Copy, Debug, PartialEq, Eq, Structural)]
pub struct Rect {
    pub min_x: i64,
    pub max_x: i64,
    pub min_y: i64,
    pub max_y: i64,
}

pub open spec fn abs_diff(a: int, b: int) -> int {
    if a <= b { b - a } else { a - b }
}

/// Two points are too close when they are nearer than `sep` on either axis.
pub open spec fn too_close(a: Point, b: Point, sep: int) -> bool {
    abs_diff(a.x as int, b.x as int) < sep || abs_diff(a.y as int, b.y as int) < sep
}

/// `p` may not stand beside `q`: it is too close to it, or on it.
pub open spec fn clashes(q: Point, p: Point, sep: int) -> bool {
    too_close(q, p, sep) || q == p
}

/// Whether `p` clashes with any of `spots`.
pub open spec fn blocked(spots: Seq<Point>, p: Point, sep: int) -> bool {
    exists|i: int| 0 <= i < spots.len() && #[trigger] clashes(spots[i], p, sep)
}

/// Axis-aligned proximity: the second point lies strictly within `sep` of the
/// first on the x axis, or on the y axis.
pub fn overlaps(fst: Point, snd: Point, sep: u32) -> (r: bool)
    ensures
        r == too_close(fst, snd, sep as int),
{
    let s = sep as i128;
    let (fx, fy, sx, sy) = (fst.x as i128, fst.y as i128, snd.x as i128, snd.y as i128);
    (fx - s < sx && sx < fx + s) || (fy - s < sy && sy < fy + s)
}

/// Whether a candidate point is too close to any point already taken, or
/// stands on one (which matters when `sep` is zero).
pub fn is_invalid_spot(spots: &Vec<Point>, new_spot: Point, sep: u32) -> (r: bool)
    ensures
        r == blocked(spots@, new_spot, sep as int),
{
    let mut i: usize = 0;
    while i < spots.len()
        invariant
            i <= spots.len(),
            forall|j: int| 0 <= j < i ==> !clashes(#[trigger] spots@[j], new_spot, sep as int),
        decreases spots.len() - i,
    {
        if overlaps(spots[i], new_spot, sep) || spots[i] == new_spot {
            assert(clashes(spots@[i as int], new_spot, sep as int));
            return true;
        }
        i += 1;
    }
    false
}

/// Whether `p` lies in `region` with a margin of `h` kept on every side.
pub open spec fn within(region: Rect, h: int, p: Point) -> bool {
    region.min_x + h <= p.x <= region.max_x - h && region.min_y + h <= p.y <= region.max_y - h
}

/// How many values pairwise at least `sep` apart fit in `[lo, hi]`.
pub open spec fn axis_capacity(lo: int, hi: int, sep: int) -> int
    recommends
        sep > 0,
{
    if hi < lo { 0 } else { (hi - lo) / sep + 1 }
}

/// How many points that are pairwise not too close fit in `region` with the
/// margin `h`: no more than fit on either axis alone.
pub open spec fn capacity(region: Rect, h: int, sep: int) -> int
    recommends
        sep > 0,
{
    let cx = axis_capacity(region.min_x + h, region.max_x - h, sep);
    let cy = axis_capacity(region.min_y + h, region.max_y - h, sep);
    if cx <= cy { cx } else { cy }
}

/// The closed interval `[lo + h, hi - h]`, or `None` when it is empty.
pub fn inner_interval(lo: i64, hi: i64, h: u32) -> (r: Option<(i64, i64)>)
    ensures
        r is Some <==> lo + h <= hi - h,
        r matches Some((a, b)) ==> a == lo + h && b == hi - h,
{
    let a = lo as i128 + h as i128;
    let b = hi as i128 - h as i128;
    if a <= b {
        Some((a as i64, b as i64))
    } else {
        None
    }
}

proof fn max_index(xs: Seq<int>) -> (m: int)
    requires
        xs.len() > 0,
    ensures
        0 <= m < xs.len(),
        forall|i: int| 0 <= i < xs.len() ==> xs[i] <= xs[m],
    decreases xs.len(),
{
    if xs.len() == 1 {
        0
    } else {
        let d = xs.drop_last();
        let k = max_index(d);
        let m = if xs[k] >= xs.last() { k } else { xs.len() - 1 };
        assert forall|i: int| 0 <= i < xs.len() implies xs[i] <= xs[m] by {
            if i < xs.len() - 1 {
                assert(xs[i] == d[i]);
            }
        }
        m
    }
}

/// Values in `[lo, hi]` that are pairwise at least `sep` apart number no more
/// than `axis_capacity(lo, hi, sep)`.
pub proof fn lemma_axis_capacity(xs: Seq<int>, lo: int, hi: int, sep: int)
    requires
        sep > 0,
        forall|i: int| 0 <= i < xs.len() ==> lo <= #[trigger] xs[i] <= hi,
        forall|i: int, j: int|
            0 <= i < xs.len() && 0 <= j < xs.len() && i != j ==> abs_diff(
                #[trigger] xs[i],
                #[trigger] xs[j],
            ) >= sep,
    ensures
        xs.len() <= axis_capacity(lo, hi, sep),
    decreases xs.len(),
{
    if xs.len() > 0 {
        let m = max_index(xs);
        let ys = xs.remove(m);
        assert forall|i: int| 0 <= i < ys.len() implies lo <= #[trigger] ys[i] <= hi - sep by {
            let k = if i < m { i } else { i + 1 };
            assert(ys[i] == xs[k]);
            assert(abs_diff(xs[k], xs[m]) >= sep);
        }
        assert forall|i: int, j: int|
            0 <= i < ys.len() && 0 <= j < ys.len() && i != j implies abs_diff(
                #[trigger] ys[i],
                #[trigger] ys[j],
            ) >= sep by {
            let ki = if i < m { i } else { i + 1 };
            let kj = if j < m { j } else { j + 1 };
            assert(ys[i] == xs[ki] && ys[j] == xs[kj]);
        }
        lemma_axis_capacity(ys, lo, hi - sep, sep);
        assert(lo <= xs[m] <= hi);
        if hi - sep >= lo {
            assert((hi - sep - lo) / sep == (hi - lo) / sep - 1) by (nonlinear_arith)
                requires
                    sep > 0,
                    hi - sep - lo >= 0,
            {
                assert(hi - sep - lo == (hi - lo) - sep);
                vstd::arithmetic::div_mod::lemma_div_minus_one(hi - lo, sep);
            }
        } else {
            assert(0 <= (hi - lo) / sep) by (nonlinear_arith)
                requires
                    sep > 0,
                    hi - lo >= 0,
            ;
        }
    }
}

/// Points of `region` (margin `h`) that are pairwise not too close number no
/// more than `capacity(region, h, sep)`.
pub proof fn lemma_capacity(ps: Seq<Point>, region: Rect, h: int, sep: int)
    requires
        sep > 0,
        forall|i: int| 0 <= i < ps.len() ==> within(region, h, #[trigger] ps[i]),
        forall|i: int, j: int|
            0 <= i < ps.len() && 0 <= j < ps.len() && i != j ==> !too_close(
                #[trigger] ps[i],
                #[trigger] ps[j],
                sep,
            ),
    ensures
        ps.len() <= capacity(region, h, sep),
{
    let xs = ps.map_values(|p: Point| p.x as int);
    let ys = ps.map_values(|p: Point| p.y as int);
    assert forall|i: int, j: int|
        0 <= i < xs.len() && 0 <= j < xs.len() && i != j implies abs_diff(
            #[trigger] xs[i],
            #[trigger] xs[j],
        ) >= sep by {
        assert(!too_close(ps[i], ps[j], sep));
    }
    assert forall|i: int, j: int|
        0 <= i < ys.len() && 0 <= j < ys.len() && i != j implies abs_diff(
            #[trigger] ys[i],
            #[trigger] ys[j],
        ) >= sep by {
        assert(!too_close(ps[i], ps[j], sep));
    }
    assert forall|i: int| 0 <= i < xs.len() implies region.min_x + h <= #[trigger] xs[i]
        <= region.max_x - h by {
        assert(within(region, h, ps[i]));
    }
    assert forall|i: int| 0 <= i < ys.len() implies region.min_y + h <= #[trigger] ys[i]
        <= region.max_y - h by {
        assert(within(region, h, ps[i]));
    }
    lemma_axis_capacity(xs, region.min_x + h, region.max_x - h, sep);
    lemma_axis_capacity(ys, region.min_y + h, region.max_y - h, sep);
}

} // verus!
