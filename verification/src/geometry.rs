//! Points, sizes and rectangles on the logical integer grid.
//!
//! Coordinates are `i32`. Every sum the layout engine forms is clipped to the
//! `i32` range instead of overflowing, so that no geometry, however extreme,
//! makes an operation fail.

use vstd::prelude::*;

verus! {

/// `v` brought into the `i32` range: values beyond an end become that end.
pub open spec fn clip(v: int) -> int {
    if v < i32::MIN as int {
        i32::MIN as int
    } else if v > i32::MAX as int {
        i32::MAX as int
    } else {
        v
    }
}

pub open spec fn min_int(a: int, b: int) -> int {
    if a <= b {
        a
    } else {
        b
    }
}

pub open spec fn max_int(a: int, b: int) -> int {
    if a >= b {
        a
    } else {
        b
    }
}

/// Half of `v`, rounded towards zero.
pub open spec fn half(v: int) -> int {
    if v >= 0 {
        v / 2
    } else {
        -((-v) / 2)
    }
}

/// Where something `size` long starts when it is centred on a stretch that
/// starts at `start` and is `length` long.
pub open spec fn centre(start: int, length: int, size: int) -> int {
    clip(start + clip(half(length) - half(size)))
}

/// Half of `v`, rounded towards zero.
pub fn halve(v: i32) -> (r: i32)
    ensures
        r as int == half(v as int),
{
    if v >= 0 {
        v / 2
    } else {
        let n: i64 = -(v as i64);
        let h: i64 = n / 2;
        (-h) as i32
    }
}

/// Centres something `size` long on a stretch.
pub fn centre_on(start: i32, length: i32, size: i32) -> (r: i32)
    ensures
        r as int == centre(start as int, length as int, size as int),
{
    let gap = clip_to_i32(halve(length) as i64 - halve(size) as i64);
    clip_to_i32(start as i64 + gap as i64)
}

/// Clips a 64-bit value to the `i32` range.
pub fn clip_to_i32(v: i64) -> (r: i32)
    ensures
        r as int == clip(v as int),
{
    if v < -2147483648i64 {
        -2147483648i32
    } else if v > 2147483647i64 {
        2147483647i32
    } else {
        v as i32
    }
}

/// A point, by its horizontal and vertical coordinates.
#[derive(Clone, Copy, Debug, PartialEq, Eq, Structural)]
pub struct Point {
    pub x: i32,
    pub y: i32,
}

/// An extent: width and height. A rectangle with a width or height of zero
/// or less holds no point.
#[derive(Clone, Copy, Debug, PartialEq, Eq, Structural)]
pub struct Size {
    pub w: i32,
    pub h: i32,
}

/// A rectangle, by its top-left corner and its extent.
#[derive(Clone, Copy, Debug, PartialEq, Eq, Structural)]
pub struct Rectangle {
    pub loc: Point,
    pub size: Size,
}

impl Point {
    /// The point `self` moved by `by`, each coordinate clipped.
    pub open spec fn spec_offset(self, by: Point) -> Point {
        Point { x: clip(self.x + by.x) as i32, y: clip(self.y + by.y) as i32 }
    }

    /// The point `self` moved back by `by`, each coordinate clipped.
    pub open spec fn spec_back(self, by: Point) -> Point {
        Point { x: clip(self.x - by.x) as i32, y: clip(self.y - by.y) as i32 }
    }

    pub fn new(x: i32, y: i32) -> (p: Point)
        ensures
            p == (Point { x, y }),
    {
        Point { x, y }
    }

    /// The origin `(0, 0)`.
    pub fn origin() -> (p: Point)
        ensures
            p == (Point { x: 0, y: 0 }),
    {
        Point { x: 0, y: 0 }
    }

    /// Moves the point by `by`.
    pub fn offset(self, by: Point) -> (p: Point)
        ensures
            p == self.spec_offset(by),
    {
        Point {
            x: clip_to_i32(self.x as i64 + by.x as i64),
            y: clip_to_i32(self.y as i64 + by.y as i64),
        }
    }

    /// Moves the point back by `by`.
    pub fn back(self, by: Point) -> (p: Point)
        ensures
            p == self.spec_back(by),
    {
        Point {
            x: clip_to_i32(self.x as i64 - by.x as i64),
            y: clip_to_i32(self.y as i64 - by.y as i64),
        }
    }
}

impl Size {
    pub fn new(w: i32, h: i32) -> (s: Size)
        ensures
            s == (Size { w, h }),
    {
        Size { w, h }
    }

    /// The empty extent `(0, 0)`.
    pub fn zero() -> (s: Size)
        ensures
            s == (Size { w: 0, h: 0 }),
    {
        Size { w: 0, h: 0 }
    }

    /// An extent that is zero in width or in height.
    pub open spec fn spec_is_empty(self) -> bool {
        self.w == 0 || self.h == 0
    }

    #[verifier::when_used_as_spec(spec_is_empty)]
    pub fn is_empty(self) -> (b: bool)
        ensures
            b == self.spec_is_empty(),
    {
        self.w == 0 || self.h == 0
    }
}

impl Rectangle {
    /// Leftmost coordinate that one of the two corners has.
    pub open spec fn lo_x(self) -> int {
        min_int(self.loc.x as int, self.loc.x + self.size.w)
    }

    /// Rightmost coordinate that one of the two corners has.
    pub open spec fn hi_x(self) -> int {
        max_int(self.loc.x as int, self.loc.x + self.size.w)
    }

    /// Topmost coordinate that one of the two corners has.
    pub open spec fn lo_y(self) -> int {
        min_int(self.loc.y as int, self.loc.y + self.size.h)
    }

    /// Bottommost coordinate that one of the two corners has.
    pub open spec fn hi_y(self) -> int {
        max_int(self.loc.y as int, self.loc.y + self.size.h)
    }

    /// The point lies inside: at or after the top-left corner, and before the
    /// corner opposite to it.
    pub open spec fn spec_contains(self, p: Point) -> bool {
        &&& self.loc.x <= p.x < self.loc.x + self.size.w
        &&& self.loc.y <= p.y < self.loc.y + self.size.h
    }

    /// The smallest rectangle that holds the corners of both, its corner and
    /// its extent clipped.
    pub open spec fn spec_merge(self, other: Rectangle) -> Rectangle {
        let left = min_int(self.lo_x(), other.lo_x());
        let right = max_int(self.hi_x(), other.hi_x());
        let top = min_int(self.lo_y(), other.lo_y());
        let bottom = max_int(self.hi_y(), other.hi_y());
        Rectangle {
            loc: Point { x: clip(left) as i32, y: clip(top) as i32 },
            size: Size { w: clip(right - left) as i32, h: clip(bottom - top) as i32 },
        }
    }

    /// Where the corner of something of extent `size` is when it is centred
    /// on the rectangle.
    pub open spec fn spec_centred(self, size: Size) -> Point {
        Point {
            x: centre(self.loc.x as int, self.size.w as int, size.w as int) as i32,
            y: centre(self.loc.y as int, self.size.h as int, size.h as int) as i32,
        }
    }

    /// Every point of `inner` is a point of `self`.
    pub open spec fn encloses(self, inner: Rectangle) -> bool {
        forall|p: Point| #[trigger] inner.spec_contains(p) ==> self.spec_contains(p)
    }

    pub fn from_loc_and_size(loc: Point, size: Size) -> (r: Rectangle)
        ensures
            r == (Rectangle { loc, size }),
    {
        Rectangle { loc, size }
    }

    /// The rectangle of no extent at `loc`.
    pub fn at(loc: Point) -> (r: Rectangle)
        ensures
            r == (Rectangle { loc, size: Size { w: 0, h: 0 } }),
    {
        Rectangle { loc, size: Size { w: 0, h: 0 } }
    }

    /// Centres something of extent `size` on the rectangle.
    #[verifier::when_used_as_spec(spec_centred)]
    pub fn centred(self, size: Size) -> (p: Point)
        ensures
            p == self.spec_centred(size),
    {
        Point {
            x: centre_on(self.loc.x, self.size.w, size.w),
            y: centre_on(self.loc.y, self.size.h, size.h),
        }
    }

    /// Whether the point lies inside the rectangle.
    #[verifier::when_used_as_spec(spec_contains)]
    pub fn contains(self, p: Point) -> (b: bool)
        ensures
            b == self.spec_contains(p),
    {
        let px: i64 = p.x as i64;
        let py: i64 = p.y as i64;
        let x: i64 = self.loc.x as i64;
        let y: i64 = self.loc.y as i64;
        px >= x && px < x + self.size.w as i64 && py >= y && py < y + self.size.h as i64
    }

    /// Merges two rectangles into the smallest one that holds both.
    #[verifier::when_used_as_spec(spec_merge)]
    pub fn merge(self, other: Rectangle) -> (r: Rectangle)
        ensures
            r == self.spec_merge(other),
    {
        let ax0: i64 = self.loc.x as i64;
        let ax1: i64 = ax0 + self.size.w as i64;
        let bx0: i64 = other.loc.x as i64;
        let bx1: i64 = bx0 + other.size.w as i64;
        let ay0: i64 = self.loc.y as i64;
        let ay1: i64 = ay0 + self.size.h as i64;
        let by0: i64 = other.loc.y as i64;
        let by1: i64 = by0 + other.size.h as i64;
        let left: i64 = least(least(ax0, ax1), least(bx0, bx1));
        let right: i64 = greatest(greatest(ax0, ax1), greatest(bx0, bx1));
        let top: i64 = least(least(ay0, ay1), least(by0, by1));
        let bottom: i64 = greatest(greatest(ay0, ay1), greatest(by0, by1));
        Rectangle {
            loc: Point { x: clip_to_i32(left), y: clip_to_i32(top) },
            size: Size { w: clip_to_i32(right - left), h: clip_to_i32(bottom - top) },
        }
    }
}

fn least(a: i64, b: i64) -> (r: i64)
    ensures
        r as int == min_int(a as int, b as int),
{
    if a <= b {
        a
    } else {
        b
    }
}

fn greatest(a: i64, b: i64) -> (r: i64)
    ensures
        r as int == max_int(a as int, b as int),
{
    if a >= b {
        a
    } else {
        b
    }
}

/// A merged rectangle whose extent stayed below the end of the range holds
/// every point of both rectangles it was merged from.
pub proof fn lemma_merge_encloses(a: Rectangle, b: Rectangle)
    requires
        a.spec_merge(b).size.w < i32::MAX,
        a.spec_merge(b).size.h < i32::MAX,
    ensures
        a.spec_merge(b).encloses(a),
        a.spec_merge(b).encloses(b),
{
}

} // verus!
