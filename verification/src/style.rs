//! What a node asks of the layout (`Style`) and what the layout gave it
//! (`Area`), with the box-model arithmetic that connects the two.

use vstd::prelude::*;
use crate::geometry::{Point, Rect, SideOffsets, Size, half, sat_add, sat_sub, saturate, spec_half};

verus! {

/// A colour of the theme, or a fixed one given as packed 8-bit RGBA.
#[derive(Clone, Copy, PartialEq, Eq, Structural, Debug)]
pub enum Color {
    Background,
    Border,
    Accent,
    Foreground,
    Custom(u32),
}

/// How a node arranges its children.
#[derive(Clone, Copy, PartialEq, Eq, Structural, Debug)]
pub enum Layout {
    /// No layout: the node is treated as hidden and its children are never
    /// measured or arranged.
    Inert,
    /// One after another along the main axis.
    Box,
    /// All in the same rectangle.
    Stack,
    /// In the given number of columns along the main axis.
    Grid(usize),
}

impl Default for Layout {
    fn default() -> (r: Layout)
        ensures
            r == Layout::Box,
    {
        Layout::Box
    }
}

/// The main axis of a container and the end from which it is filled.
#[derive(Clone, Copy, PartialEq, Eq, Structural, Debug)]
pub enum Direction {
    Row,
    Column,
    RowReverse,
    ColumnReverse,
}

impl Default for Direction {
    fn default() -> (r: Direction)
        ensures
            r == Direction::Row,
    {
        Direction::Row
    }
}

impl Direction {
    pub open spec fn spec_horizontal(self) -> bool {
        self == Direction::Row || self == Direction::RowReverse
    }

    /// Whether the main axis is the x axis.
    pub fn horizontal(&self) -> (r: bool)
        ensures
            r == self.spec_horizontal(),
    {
        match self {
            Direction::Row => true,
            Direction::RowReverse => true,
            Direction::Column => false,
            Direction::ColumnReverse => false,
        }
    }

    /// The slot cut off `rect` for an item of `size`, and what is left of
    /// `rect` after the slot and one `gap`.
    ///
    /// The slot has the item's extent along the main axis and the whole of
    /// `rect` across it. `Row` and `Column` cut it off the leading edge and
    /// move the origin of what is left past it; the reversed directions cut it
    /// off the trailing edge and leave the origin where it was.
    pub open spec fn spec_layout_area(self, rect: Rect, size: Size, gap: i32) -> (Rect, Rect) {
        match self {
            Direction::Row => {
                let step = saturate(size.width + gap);
                (
                    Rect { origin: rect.origin, size: Size { width: size.width, height: rect.size.height } },
                    Rect {
                        origin: Point { x: saturate(rect.origin.x + step) as i32, y: rect.origin.y },
                        size: Size { width: saturate(rect.size.width - step) as i32, height: rect.size.height },
                    },
                )
            },
            Direction::Column => {
                let step = saturate(size.height + gap);
                (
                    Rect { origin: rect.origin, size: Size { width: rect.size.width, height: size.height } },
                    Rect {
                        origin: Point { x: rect.origin.x, y: saturate(rect.origin.y + step) as i32 },
                        size: Size { width: rect.size.width, height: saturate(rect.size.height - step) as i32 },
                    },
                )
            },
            Direction::RowReverse => {
                let step = saturate(size.width + gap);
                let rest = Rect {
                    origin: rect.origin,
                    size: Size { width: saturate(rect.size.width - step) as i32, height: rect.size.height },
                };
                (
                    Rect {
                        origin: Point { x: saturate(rest.spec_max_x() + gap) as i32, y: rect.origin.y },
                        size: Size { width: size.width, height: rect.size.height },
                    },
                    rest,
                )
            },
            Direction::ColumnReverse => {
                let step = saturate(size.height + gap);
                let rest = Rect {
                    origin: rect.origin,
                    size: Size { width: rect.size.width, height: saturate(rect.size.height - step) as i32 },
                };
                (
                    Rect {
                        origin: Point { x: rect.origin.x, y: saturate(rest.spec_max_y() + gap) as i32 },
                        size: Size { width: rect.size.width, height: size.height },
                    },
                    rest,
                )
            },
        }
    }

    /// Cuts the slot for an item of `size` off `rect`, which shrinks by the
    /// slot and one `gap`, and returns the slot.
    pub fn layout_area(&self, rect: &mut Rect, size: Size, gap: i32) -> (area: Rect)
        ensures
            area == self.spec_layout_area(*old(rect), size, gap).0,
            *final(rect) == self.spec_layout_area(*old(rect), size, gap).1,
    {
        match self {
            Direction::Row => {
                let step = sat_add(size.width, gap);
                let area = Rect::new(rect.origin, Size::new(size.width, rect.height()));
                rect.origin.x = sat_add(rect.origin.x, step);
                rect.size.width = sat_sub(rect.size.width, step);
                area
            },
            Direction::Column => {
                let step = sat_add(size.height, gap);
                let area = Rect::new(rect.origin, Size::new(rect.width(), size.height));
                rect.origin.y = sat_add(rect.origin.y, step);
                rect.size.height = sat_sub(rect.size.height, step);
                area
            },
            Direction::RowReverse => {
                let step = sat_add(size.width, gap);
                rect.size.width = sat_sub(rect.size.width, step);
                Rect::new(
                    Point::new(sat_add(rect.max_x(), gap), rect.min_y()),
                    Size::new(size.width, rect.height()),
                )
            },
            Direction::ColumnReverse => {
                let step = sat_add(size.height, gap);
                rect.size.height = sat_sub(rect.size.height, step);
                Rect::new(
                    Point::new(rect.min_x(), sat_add(rect.max_y(), gap)),
                    Size::new(rect.width(), size.height),
                )
            },
        }
    }
}

/// Where an item sits in a slot that is larger than the item.
#[derive(Clone, Copy, PartialEq, Eq, Structural, Debug)]
pub enum Align {
    /// The item fills the slot.
    Stretch,
    Start,
    End,
    Center,
}

impl Default for Align {
    fn default() -> (r: Align)
        ensures
            r == Align::Stretch,
    {
        Align::Stretch
    }
}

impl Align {
    /// How far from the start of a slot of extent `outer` an item of extent
    /// `inner` is placed.
    pub open spec fn spec_offset(self, outer: i32, inner: i32) -> int {
        match self {
            Align::End => saturate(outer - inner),
            Align::Center => spec_half(saturate(outer - inner)),
            _ => 0,
        }
    }

    /// The part of `rect` that an item of `size` takes on one axis, the x
    /// axis if `horizontal`. `Stretch` leaves `rect` as it is; otherwise the
    /// extent on that axis becomes the item's and the origin moves by the
    /// alignment's offset. The other axis is untouched.
    pub open spec fn spec_align_area(self, horizontal: bool, rect: Rect, size: Size) -> Rect {
        if self == Align::Stretch {
            rect
        } else if horizontal {
            Rect {
                origin: Point {
                    x: saturate(rect.origin.x + self.spec_offset(rect.size.width, size.width)) as i32,
                    y: rect.origin.y,
                },
                size: Size { width: size.width, height: rect.size.height },
            }
        } else {
            Rect {
                origin: Point {
                    x: rect.origin.x,
                    y: saturate(rect.origin.y + self.spec_offset(rect.size.height, size.height)) as i32,
                },
                size: Size { width: rect.size.width, height: size.height },
            }
        }
    }

    /// Places an item of `size` in `rect` along one axis.
    pub fn align_area(&self, horizontal: bool, rect: Rect, size: Size) -> (r: Rect)
        ensures
            r == self.spec_align_area(horizontal, rect, size),
    {
        let mut rect = rect;
        match self {
            Align::Stretch => {},
            _ => {
                let inner_size = if horizontal {
                    size.width
                } else {
                    size.height
                };
                let outer_size = if horizontal {
                    rect.size.width
                } else {
                    rect.size.height
                };
                let offset = match self {
                    Align::End => sat_sub(outer_size, inner_size),
                    Align::Center => half(sat_sub(outer_size, inner_size)),
                    _ => 0,
                };
                if horizontal {
                    rect.size.width = inner_size;
                    rect.origin.x = sat_add(rect.origin.x, offset);
                } else {
                    rect.size.height = inner_size;
                    rect.origin.y = sat_add(rect.origin.y, offset);
                }
            },
        }
        rect
    }
}

/// The layout parameters of one node.
///
/// That `min_size` does not exceed `max_size` is up to whoever writes the
/// style: the layout clamps with both and checks neither.
#[derive(Clone, Copy, PartialEq, Eq, Structural, Debug)]
pub struct Style {
    pub hidden: bool,
    pub background_color: Option<Color>,
    pub border_color: Option<Color>,
    pub min_size: Size,
    pub max_size: Size,
    pub grow: bool,
    pub layout: Layout,
    pub direction: Direction,
    pub main_align: Align,
    pub cross_align: Align,
    pub gap: i32,
    pub margin: SideOffsets,
    pub border: SideOffsets,
    pub padding: SideOffsets,
}

impl Style {
    pub open spec fn spec_default() -> Style {
        Style {
            hidden: false,
            background_color: None,
            border_color: Some(Color::Border),
            min_size: Size::spec_zero(),
            max_size: Size { width: i32::MAX, height: i32::MAX },
            grow: false,
            layout: Layout::Box,
            direction: Direction::Row,
            main_align: Align::Stretch,
            cross_align: Align::Stretch,
            gap: 0,
            margin: SideOffsets::spec_zero(),
            border: SideOffsets::spec_zero(),
            padding: SideOffsets::spec_zero(),
        }
    }

    /// The default style: a visible row box with a themed border colour, no
    /// minimum, no maximum, no gap and no offsets.
    pub fn new() -> (r: Style)
        ensures
            r == Style::spec_default(),
    {
        Style {
            hidden: false,
            background_color: None,
            border_color: Some(Color::Border),
            min_size: Size::zero(),
            max_size: Size::new(i32::MAX, i32::MAX),
            grow: false,
            layout: Layout::Box,
            direction: Direction::Row,
            main_align: Align::Stretch,
            cross_align: Align::Stretch,
            gap: 0,
            margin: SideOffsets::zero(),
            border: SideOffsets::zero(),
            padding: SideOffsets::zero(),
        }
    }

    pub open spec fn spec_box_offsets(self) -> SideOffsets {
        self.margin.spec_plus(self.border).spec_plus(self.padding)
    }

    /// Margin plus border plus padding, side by side.
    pub fn box_offsets(&self) -> (r: SideOffsets)
        ensures
            r == self.spec_box_offsets(),
    {
        self.margin.plus(self.border).plus(self.padding)
    }

    pub open spec fn spec_box_size(self) -> Size {
        Size {
            width: self.spec_box_offsets().spec_horizontal() as i32,
            height: self.spec_box_offsets().spec_vertical() as i32,
        }
    }

    /// What the box offsets take on each axis.
    pub fn box_size(&self) -> (r: Size)
        ensures
            r == self.spec_box_size(),
    {
        let offsets = self.box_offsets();
        Size::new(offsets.horizontal(), offsets.vertical())
    }

    pub open spec fn spec_apply_min_max(self, size: Size) -> Size {
        size.spec_max(self.min_size).spec_min(self.max_size)
    }

    /// `size` raised to `min_size` and then lowered to `max_size`, on each
    /// axis.
    pub fn apply_min_max(&self, size: Size) -> (r: Size)
        ensures
            r == self.spec_apply_min_max(size),
    {
        size.max(self.min_size).min(self.max_size)
    }
}

impl Default for Style {
    fn default() -> (r: Style)
        ensures
            r == Style::spec_default(),
    {
        Style::new()
    }
}

/// What the last layout pass computed for one node.
#[derive(Clone, Copy, PartialEq, Eq, Structural, Debug)]
pub struct Area {
    /// The size the measure pass found, box offsets included.
    pub measured_size: Size,
    /// Whether the node is left out of arranging, drawing and input.
    pub hidden: bool,
    /// The rectangle inside margin, border and padding.
    pub content_rect: Rect,
    /// The rectangle inside margin and border.
    pub background_rect: Rect,
}

impl Area {
    pub open spec fn spec_new() -> Area {
        Area {
            measured_size: Size::spec_zero(),
            hidden: false,
            content_rect: Rect::spec_zero(),
            background_rect: Rect::spec_zero(),
        }
    }

    /// The area of a node that was never laid out: visible, with no extent.
    pub fn new() -> (r: Area)
        ensures
            r == Area::spec_new(),
    {
        Area {
            measured_size: Size::zero(),
            hidden: false,
            content_rect: Rect::zero(),
            background_rect: Rect::zero(),
        }
    }
}

impl Default for Area {
    fn default() -> (r: Area)
        ensures
            r == Area::spec_new(),
    {
        Area::new()
    }
}

} // verus!
