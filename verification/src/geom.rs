//! Screen geometry: points, rectangles and the split of a line thickness.

use vstd::prelude::*;

verus! {

/// A point on the screen, in pixels.
#[derive(Clone, Copy, Debug, PartialEq, Eq, Structural)]
pub struct Point {
    pub x: i32,
    pub y: i32,
}

/// A rectangle of the screen: `min` is its top left corner, included, and
/// `max` its bottom right corner, excluded.
#[derive(Clone, Copy, Debug, PartialEq, Eq, Structural)]
pub struct Rectangle {
    pub min: Point,
    pub max: Point,
}

impl Rectangle {
    /// The point lies in the rectangle.
    pub open spec fn contains(self, pt: Point) -> bool {
        self.min.x <= pt.x < self.max.x && self.min.y <= pt.y < self.max.y
    }

    /// Whether `pt` lies in the rectangle.
    pub fn includes(&self, pt: Point) -> (r: bool)
        ensures
            r == self.contains(pt),
    {
        self.min.x <= pt.x && pt.x < self.max.x && self.min.y <= pt.y && pt.y < self.max.y
    }

    /// The width, in pixels: `max.x - min.x` as an `u32`, which wraps a
    /// negative difference.
    pub fn width(&self) -> (r: u32)
        requires
            i32::MIN <= self.max.x - self.min.x <= i32::MAX,
        ensures
            r == as_u32(self.max.x - self.min.x),
    {
        let w = self.max.x as i64 - self.min.x as i64;
        if w >= 0 {
            w as u32
        } else {
            (w + 0x1_0000_0000) as u32
        }
    }

    /// The height, in pixels: `max.y - min.y` as an `u32`, which wraps a
    /// negative difference.
    pub fn height(&self) -> (r: u32)
        requires
            i32::MIN <= self.max.y - self.min.y <= i32::MAX,
        ensures
            r == as_u32(self.max.y - self.min.y),
    {
        let h = self.max.y as i64 - self.min.y as i64;
        if h >= 0 {
            h as u32
        } else {
            (h + 0x1_0000_0000) as u32
        }
    }
}

/// An `i32` value read as an `u32`: a negative value wraps around.
pub open spec fn as_u32(v: int) -> int {
    if v >= 0 {
        v
    } else {
        v + 0x1_0000_0000
    }
}

/// The rectangle with the given corners.
pub fn rect(min_x: i32, min_y: i32, max_x: i32, max_y: i32) -> (r: Rectangle)
    ensures
        r.min.x == min_x,
        r.min.y == min_y,
        r.max.x == max_x,
        r.max.y == max_y,
{
    Rectangle { min: Point { x: min_x, y: min_y }, max: Point { x: max_x, y: max_y } }
}

/// `n / 2` rounded toward zero, as Rust's integer division rounds.
pub open spec fn half_toward_zero(n: int) -> int {
    if n >= 0 {
        n / 2
    } else {
        -((-n) / 2)
    }
}

/// Splits a thickness in two halves that add up to it: the smaller half
/// (`n / 2`, rounded toward zero) first, then the rest.
pub fn halves(n: i32) -> (r: (i32, i32))
    ensures
        r.0 == half_toward_zero(n as int),
        r.1 == n - half_toward_zero(n as int),
{
    let m = n as i64;
    let small = if m >= 0 {
        m / 2
    } else {
        -((-m) / 2)
    };
    (small as i32, (m - small) as i32)
}

/// The two halves of a thickness add up to it, differ by at most one, and the
/// smaller half comes first for a thickness that is not negative.
pub proof fn lemma_halves_split(n: int)
    ensures
        half_toward_zero(n) + (n - half_toward_zero(n)) == n,
        n >= 0 ==> 0 <= half_toward_zero(n) <= n - half_toward_zero(n) <= half_toward_zero(n) + 1,
        n < 0 ==> half_toward_zero(n) - 1 <= n - half_toward_zero(n) <= half_toward_zero(n) <= 0,
{
}

} // verus!
