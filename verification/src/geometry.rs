//! Integer pixel geometry: points, sizes, rectangles and side offsets.
//!
//! Every coordinate is an `i32`. Sums and differences saturate at the bounds
//! of `i32`, so every operation is total; wherever the exact result fits, the
//! saturated result is the exact result.

use vstd::prelude::*;

verus! {

/// Marks a quantity as measured in screen pixels.
#[derive(Clone, Copy, PartialEq, Eq, Structural, Debug)]
pub struct Pixel;

/// The nearest `i32` to `x`.
pub open spec fn saturate(x: int) -> int {
    if x < i32::MIN as int {
        i32::MIN as int
    } else if x > i32::MAX as int {
        i32::MAX as int
    } else {
        x
    }
}

/// The larger of two integers.
pub open spec fn spec_max(a: int, b: int) -> int {
    if a >= b {
        a
    } else {
        b
    }
}

/// The smaller of two integers.
pub open spec fn spec_min(a: int, b: int) -> int {
    if a <= b {
        a
    } else {
        b
    }
}

/// Half of `x`, rounded toward zero.
pub open spec fn spec_half(x: int) -> int {
    if x >= 0 {
        x / 2
    } else {
        -((-x) / 2)
    }
}

/// `a + b`, saturating at the bounds of `i32`.
pub fn sat_add(a: i32, b: i32) -> (r: i32)
    ensures
        r == saturate(a + b),
{
    let wide: i64 = a as i64 + b as i64;
    if wide < i32::MIN as i64 {
        i32::MIN
    } else if wide > i32::MAX as i64 {
        i32::MAX
    } else {
        wide as i32
    }
}

/// `a - b`, saturating at the bounds of `i32`.
pub fn sat_sub(a: i32, b: i32) -> (r: i32)
    ensures
        r == saturate(a - b),
{
    let wide: i64 = a as i64 - b as i64;
    if wide < i32::MIN as i64 {
        i32::MIN
    } else if wide > i32::MAX as i64 {
        i32::MAX
    } else {
        wide as i32
    }
}

/// `a * b`, saturating at the bounds of `i32`.
pub fn sat_mul(a: i32, b: i32) -> (r: i32)
    ensures
        r == saturate(a * b),
{
    assert(-0x4000_0000_0000_0000 <= a * b <= 0x4000_0000_0000_0000) by (nonlinear_arith)
        requires
            -0x8000_0000 <= a <= 0x7fff_ffff,
            -0x8000_0000 <= b <= 0x7fff_ffff,
    ;
    let wide: i64 = (a as i64) * (b as i64);
    if wide < i32::MIN as i64 {
        i32::MIN
    } else if wide > i32::MAX as i64 {
        i32::MAX
    } else {
        wide as i32
    }
}

/// Half of `a`, rounded toward zero.
pub fn half(a: i32) -> (r: i32)
    ensures
        r == spec_half(a as int),
{
    if a >= 0 {
        a / 2
    } else if a == i32::MIN {
        -0x4000_0000
    } else {
        -((-a) / 2)
    }
}

/// The larger of `a` and `b`.
pub fn max_i32(a: i32, b: i32) -> (r: i32)
    ensures
        r == spec_max(a as int, b as int),
{
    if a >= b {
        a
    } else {
        b
    }
}

/// The smaller of `a` and `b`.
pub fn min_i32(a: i32, b: i32) -> (r: i32)
    ensures
        r == spec_min(a as int, b as int),
{
    if a <= b {
        a
    } else {
        b
    }
}

/// A position in pixels.
#[derive(Clone, Copy, PartialEq, Eq, Structural, Debug)]
pub struct Point {
    pub x: i32,
    pub y: i32,
}

impl Point {
    pub fn new(x: i32, y: i32) -> (r: Point)
        ensures
            r == (Point { x, y }),
    {
        Point { x, y }
    }

    pub open spec fn spec_zero() -> Point {
        Point { x: 0, y: 0 }
    }

    /// The origin.
    pub fn zero() -> (r: Point)
        ensures
            r == Point::spec_zero(),
    {
        Point { x: 0, y: 0 }
    }
}

/// A width and a height in pixels.
#[derive(Clone, Copy, PartialEq, Eq, Structural, Debug)]
pub struct Size {
    pub width: i32,
    pub height: i32,
}

impl Size {
    pub fn new(width: i32, height: i32) -> (r: Size)
        ensures
            r == (Size { width, height }),
    {
        Size { width, height }
    }

    pub open spec fn spec_zero() -> Size {
        Size { width: 0, height: 0 }
    }

    /// The size with no extent.
    pub fn zero() -> (r: Size)
        ensures
            r == Size::spec_zero(),
    {
        Size { width: 0, height: 0 }
    }

    pub open spec fn spec_is_empty(self) -> bool {
        !(self.width > 0 && self.height > 0)
    }

    /// Whether the size covers no pixel: an extent is zero or negative.
    pub fn is_empty(self) -> (r: bool)
        ensures
            r == self.spec_is_empty(),
    {
        !(self.width > 0 && self.height > 0)
    }

    pub open spec fn spec_max(self, other: Size) -> Size {
        Size {
            width: spec_max(self.width as int, other.width as int) as i32,
            height: spec_max(self.height as int, other.height as int) as i32,
        }
    }

    /// The larger extent on each axis.
    pub fn max(self, other: Size) -> (r: Size)
        ensures
            r == self.spec_max(other),
    {
        Size { width: max_i32(self.width, other.width), height: max_i32(self.height, other.height) }
    }

    pub open spec fn spec_min(self, other: Size) -> Size {
        Size {
            width: spec_min(self.width as int, other.width as int) as i32,
            height: spec_min(self.height as int, other.height as int) as i32,
        }
    }

    /// The smaller extent on each axis.
    pub fn min(self, other: Size) -> (r: Size)
        ensures
            r == self.spec_min(other),
    {
        Size { width: min_i32(self.width, other.width), height: min_i32(self.height, other.height) }
    }

    pub open spec fn spec_plus(self, other: Size) -> Size {
        Size {
            width: saturate(self.width + other.width) as i32,
            height: saturate(self.height + other.height) as i32,
        }
    }

    /// The sum on each axis, saturating.
    pub fn plus(self, other: Size) -> (r: Size)
        ensures
            r == self.spec_plus(other),
    {
        Size {
            width: sat_add(self.width, other.width),
            height: sat_add(self.height, other.height),
        }
    }

    pub open spec fn spec_minus(self, other: Size) -> Size {
        Size {
            width: saturate(self.width - other.width) as i32,
            height: saturate(self.height - other.height) as i32,
        }
    }

    /// The difference on each axis, saturating.
    pub fn minus(self, other: Size) -> (r: Size)
        ensures
            r == self.spec_minus(other),
    {
        Size {
            width: sat_sub(self.width, other.width),
            height: sat_sub(self.height, other.height),
        }
    }

    pub open spec fn spec_halved(self) -> Size {
        Size { width: spec_half(self.width as int) as i32, height: spec_half(self.height as int) as i32 }
    }

    /// Half of each extent, rounded toward zero.
    pub fn halved(self) -> (r: Size)
        ensures
            r == self.spec_halved(),
    {
        Size { width: half(self.width), height: half(self.height) }
    }
}

/// Distances from the four edges of a rectangle, as in a margin or a padding.
#[derive(Clone, Copy, PartialEq, Eq, Structural, Debug)]
pub struct SideOffsets {
    pub top: i32,
    pub right: i32,
    pub bottom: i32,
    pub left: i32,
}

impl SideOffsets {
    pub fn new(top: i32, right: i32, bottom: i32, left: i32) -> (r: SideOffsets)
        ensures
            r == (SideOffsets { top, right, bottom, left }),
    {
        SideOffsets { top, right, bottom, left }
    }

    pub open spec fn spec_new_all_same(all: i32) -> SideOffsets {
        SideOffsets { top: all, right: all, bottom: all, left: all }
    }

    /// The same offset on all four sides.
    pub fn new_all_same(all: i32) -> (r: SideOffsets)
        ensures
            r == SideOffsets::spec_new_all_same(all),
    {
        SideOffsets { top: all, right: all, bottom: all, left: all }
    }

    pub open spec fn spec_zero() -> SideOffsets {
        SideOffsets { top: 0, right: 0, bottom: 0, left: 0 }
    }

    /// No offset on any side.
    pub fn zero() -> (r: SideOffsets)
        ensures
            r == SideOffsets::spec_zero(),
    {
        SideOffsets { top: 0, right: 0, bottom: 0, left: 0 }
    }

    pub open spec fn spec_horizontal(self) -> int {
        saturate(self.left + self.right)
    }

    /// Left plus right, saturating.
    pub fn horizontal(&self) -> (r: i32)
        ensures
            r == self.spec_horizontal(),
    {
        sat_add(self.left, self.right)
    }

    pub open spec fn spec_vertical(self) -> int {
        saturate(self.top + self.bottom)
    }

    /// Top plus bottom, saturating.
    pub fn vertical(&self) -> (r: i32)
        ensures
            r == self.spec_vertical(),
    {
        sat_add(self.top, self.bottom)
    }

    pub open spec fn spec_plus(self, other: SideOffsets) -> SideOffsets {
        SideOffsets {
            top: saturate(self.top + other.top) as i32,
            right: saturate(self.right + other.right) as i32,
            bottom: saturate(self.bottom + other.bottom) as i32,
            left: saturate(self.left + other.left) as i32,
        }
    }

    /// The sum side by side, saturating.
    pub fn plus(self, other: SideOffsets) -> (r: SideOffsets)
        ensures
            r == self.spec_plus(other),
    {
        SideOffsets {
            top: sat_add(self.top, other.top),
            right: sat_add(self.right, other.right),
            bottom: sat_add(self.bottom, other.bottom),
            left: sat_add(self.left, other.left),
        }
    }
}

/// An axis-aligned rectangle: its top-left corner and its size.
#[derive(Clone, Copy, PartialEq, Eq, Structural, Debug)]
pub struct Rect {
    pub origin: Point,
    pub size: Size,
}

impl Rect {
    pub fn new(origin: Point, size: Size) -> (r: Rect)
        ensures
            r == (Rect { origin, size }),
    {
        Rect { origin, size }
    }

    pub open spec fn spec_zero() -> Rect {
        Rect { origin: Point::spec_zero(), size: Size::spec_zero() }
    }

    /// The empty rectangle at the origin.
    pub fn zero() -> (r: Rect)
        ensures
            r == Rect::spec_zero(),
    {
        Rect { origin: Point::zero(), size: Size::zero() }
    }

    pub fn width(&self) -> (r: i32)
        ensures
            r == self.size.width,
    {
        self.size.width
    }

    pub fn height(&self) -> (r: i32)
        ensures
            r == self.size.height,
    {
        self.size.height
    }

    pub fn min_x(&self) -> (r: i32)
        ensures
            r == self.origin.x,
    {
        self.origin.x
    }

    pub fn min_y(&self) -> (r: i32)
        ensures
            r == self.origin.y,
    {
        self.origin.y
    }

    pub open spec fn spec_max_x(self) -> int {
        saturate(self.origin.x + self.size.width)
    }

    /// The right edge, saturating.
    pub fn max_x(&self) -> (r: i32)
        ensures
            r == self.spec_max_x(),
    {
        sat_add(self.origin.x, self.size.width)
    }

    pub open spec fn spec_max_y(self) -> int {
        saturate(self.origin.y + self.size.height)
    }

    /// The bottom edge, saturating.
    pub fn max_y(&self) -> (r: i32)
        ensures
            r == self.spec_max_y(),
    {
        sat_add(self.origin.y, self.size.height)
    }

    pub open spec fn spec_contains(self, p: Point) -> bool {
        &&& self.origin.x <= p.x
        &&& p.x < self.spec_max_x()
        &&& self.origin.y <= p.y
        &&& p.y < self.spec_max_y()
    }

    /// Whether `p` lies inside: the left and top edges count, the right and
    /// bottom edges do not.
    pub fn contains(&self, p: Point) -> (r: bool)
        ensures
            r == self.spec_contains(p),
    {
        self.origin.x <= p.x && p.x < self.max_x() && self.origin.y <= p.y && p.y < self.max_y()
    }

    pub open spec fn spec_inner_rect(self, offsets: SideOffsets) -> Rect {
        Rect {
            origin: Point {
                x: saturate(self.origin.x + offsets.left) as i32,
                y: saturate(self.origin.y + offsets.top) as i32,
            },
            size: Size {
                width: saturate(self.size.width - offsets.spec_horizontal()) as i32,
                height: saturate(self.size.height - offsets.spec_vertical()) as i32,
            },
        }
    }

    /// The rectangle that remains when `offsets` are taken off the four sides.
    pub fn inner_rect(&self, offsets: SideOffsets) -> (r: Rect)
        ensures
            r == self.spec_inner_rect(offsets),
    {
        Rect {
            origin: Point {
                x: sat_add(self.origin.x, offsets.left),
                y: sat_add(self.origin.y, offsets.top),
            },
            size: Size {
                width: sat_sub(self.size.width, offsets.horizontal()),
                height: sat_sub(self.size.height, offsets.vertical()),
            },
        }
    }

    pub open spec fn spec_outer_rect(self, offsets: SideOffsets) -> Rect {
        Rect {
            origin: Point {
                x: saturate(self.origin.x - offsets.left) as i32,
                y: saturate(self.origin.y - offsets.top) as i32,
            },
            size: Size {
                width: saturate(self.size.width + offsets.spec_horizontal()) as i32,
                height: saturate(self.size.height + offsets.spec_vertical()) as i32,
            },
        }
    }

    /// The rectangle grown by `offsets` on the four sides.
    pub fn outer_rect(&self, offsets: SideOffsets) -> (r: Rect)
        ensures
            r == self.spec_outer_rect(offsets),
    {
        Rect {
            origin: Point {
                x: sat_sub(self.origin.x, offsets.left),
                y: sat_sub(self.origin.y, offsets.top),
            },
            size: Size {
                width: sat_add(self.size.width, offsets.horizontal()),
                height: sat_add(self.size.height, offsets.vertical()),
            },
        }
    }
}

/// An axis-aligned rectangle given by two corners: the one at the top left
/// and the one at the bottom right.
#[derive(Clone, Copy, PartialEq, Eq, Structural, Debug)]
pub struct Box2 {
    pub min: Point,
    pub max: Point,
}

impl Box2 {
    pub fn new(min: Point, max: Point) -> (r: Box2)
        ensures
            r == (Box2 { min, max }),
    {
        Box2 { min, max }
    }

    pub open spec fn spec_inner_box(self, offsets: SideOffsets) -> Box2 {
        Box2 {
            min: Point {
                x: saturate(self.min.x + offsets.left) as i32,
                y: saturate(self.min.y + offsets.top) as i32,
            },
            max: Point {
                x: saturate(self.max.x - offsets.right) as i32,
                y: saturate(self.max.y - offsets.bottom) as i32,
            },
        }
    }

    /// The box that remains when `offsets` are taken off the four sides.
    pub fn inner_box(&self, offsets: SideOffsets) -> (r: Box2)
        ensures
            r == self.spec_inner_box(offsets),
    {
        Box2 {
            min: Point { x: sat_add(self.min.x, offsets.left), y: sat_add(self.min.y, offsets.top) },
            max: Point { x: sat_sub(self.max.x, offsets.right), y: sat_sub(self.max.y, offsets.bottom) },
        }
    }
}

impl Rect {
    pub open spec fn spec_to_box(self) -> Box2 {
        Box2 { min: self.origin, max: Point { x: self.spec_max_x() as i32, y: self.spec_max_y() as i32 } }
    }

    /// The rectangle as a box of two corners.
    pub fn to_box(&self) -> (r: Box2)
        ensures
            r == self.spec_to_box(),
    {
        Box2 { min: self.origin, max: Point { x: self.max_x(), y: self.max_y() } }
    }
}

} // verus!
