//! The capabilities a bound must offer, and an integer axis-aligned box that offers them.
use vstd::prelude::*;

verus! {

/// What a bound can do: an overlap test, a containment test, a surface-area measure and
/// a union that encloses two bounds.
pub trait Bound: Sized {
    /// Whether the two bounds overlap (discrete intersection).
    spec fn spec_intersects(&self, other: &Self) -> bool;

    /// Whether `other` lies entirely inside `self`.
    spec fn spec_contains(&self, other: &Self) -> bool;

    /// The surface-area measure of the bound.
    spec fn spec_surface_area(&self) -> nat;

    /// The smallest bound of this kind that encloses both bounds.
    spec fn spec_union(&self, other: &Self) -> Self;

    fn intersects(&self, other: &Self) -> (r: bool)
        ensures
            r == self.spec_intersects(other),
    ;

    fn contains(&self, other: &Self) -> (r: bool)
        ensures
            r == self.spec_contains(other),
    ;

    fn surface_area(&self) -> (r: u64)
        ensures
            r as nat == self.spec_surface_area(),
    ;

    fn union(&self, other: &Self) -> (r: Self)
        ensures
            r == self.spec_union(other),
    ;
}

/// A two-dimensional axis-aligned box with integer corners, closed on every side.
///
/// A box whose minimum exceeds its maximum on an axis is empty on that axis.
#[derive(Clone, Copy, Debug, PartialEq, Eq, Structural)]
pub struct Aabb2 {
    pub min_x: i32,
    pub min_y: i32,
    pub max_x: i32,
    pub max_y: i32,
}

/// The length of the closed interval `[lo, hi]`, zero when it is empty.
pub open spec fn span(lo: i32, hi: i32) -> nat {
    if lo <= hi {
        (hi - lo) as nat
    } else {
        0
    }
}

pub open spec fn min_i32(a: i32, b: i32) -> i32 {
    if a <= b {
        a
    } else {
        b
    }
}

pub open spec fn max_i32(a: i32, b: i32) -> i32 {
    if a >= b {
        a
    } else {
        b
    }
}

impl Aabb2 {
    /// The box spanned by two corner points, given in any order.
    pub fn new(x0: i32, y0: i32, x1: i32, y1: i32) -> (r: Aabb2)
        ensures
            r.min_x == min_i32(x0, x1),
            r.max_x == max_i32(x0, x1),
            r.min_y == min_i32(y0, y1),
            r.max_y == max_i32(y0, y1),
    {
        Aabb2 {
            min_x: if x0 <= x1 { x0 } else { x1 },
            min_y: if y0 <= y1 { y0 } else { y1 },
            max_x: if x0 >= x1 { x0 } else { x1 },
            max_y: if y0 >= y1 { y0 } else { y1 },
        }
    }
}

fn interval_span(lo: i32, hi: i32) -> (r: u64)
    ensures
        r as nat == span(lo, hi),
{
    if lo <= hi {
        (hi as i64 - lo as i64) as u64
    } else {
        0
    }
}

impl Bound for Aabb2 {
    open spec fn spec_intersects(&self, other: &Self) -> bool {
        &&& self.min_x <= other.max_x
        &&& other.min_x <= self.max_x
        &&& self.min_y <= other.max_y
        &&& other.min_y <= self.max_y
    }

    open spec fn spec_contains(&self, other: &Self) -> bool {
        &&& self.min_x <= other.min_x
        &&& other.max_x <= self.max_x
        &&& self.min_y <= other.min_y
        &&& other.max_y <= self.max_y
    }

    open spec fn spec_surface_area(&self) -> nat {
        span(self.min_x, self.max_x) * span(self.min_y, self.max_y)
    }

    open spec fn spec_union(&self, other: &Self) -> Self {
        Aabb2 {
            min_x: min_i32(self.min_x, other.min_x),
            min_y: min_i32(self.min_y, other.min_y),
            max_x: max_i32(self.max_x, other.max_x),
            max_y: max_i32(self.max_y, other.max_y),
        }
    }

    fn intersects(&self, other: &Self) -> (r: bool) {
        self.min_x <= other.max_x && other.min_x <= self.max_x && self.min_y <= other.max_y
            && other.min_y <= self.max_y
    }

    fn contains(&self, other: &Self) -> (r: bool) {
        self.min_x <= other.min_x && other.max_x <= self.max_x && self.min_y <= other.min_y
            && other.max_y <= self.max_y
    }

    fn surface_area(&self) -> (r: u64) {
        let w = interval_span(self.min_x, self.max_x);
        let h = interval_span(self.min_y, self.max_y);
        assert(w <= 0xffff_ffffu64 && h <= 0xffff_ffffu64);
        assert(w * h <= 0xffff_ffffu64 * 0xffff_ffffu64) by (nonlinear_arith)
            requires
                w <= 0xffff_ffffu64,
                h <= 0xffff_ffffu64,
        ;
        w * h
    }

    fn union(&self, other: &Self) -> (r: Self) {
        Aabb2 {
            min_x: if self.min_x <= other.min_x { self.min_x } else { other.min_x },
            min_y: if self.min_y <= other.min_y { self.min_y } else { other.min_y },
            max_x: if self.max_x >= other.max_x { self.max_x } else { other.max_x },
            max_y: if self.max_y >= other.max_y { self.max_y } else { other.max_y },
        }
    }
}

} // verus!
