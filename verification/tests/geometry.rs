use silica::geometry::{half, sat_add, sat_mul, sat_sub, Point, Rect, SideOffsets, Size};
use silica::style::{Align, Area, Direction, Style};

fn geo_rect(x: i32, y: i32, w: i32, h: i32) -> Rect {
    Rect::new(Point::new(x, y), Size::new(w, h))
}

#[test]
fn saturating_sums_stop_at_the_bounds() {
    assert_eq!(sat_add(3, 4), 7);
    assert_eq!(sat_add(i32::MAX, 1), i32::MAX);
    assert_eq!(sat_add(i32::MIN, -1), i32::MIN);
    assert_eq!(sat_sub(3, 4), -1);
    assert_eq!(sat_sub(i32::MIN, 1), i32::MIN);
    assert_eq!(sat_sub(i32::MAX, -1), i32::MAX);
    assert_eq!(sat_mul(6, 7), 42);
    assert_eq!(sat_mul(i32::MAX, 2), i32::MAX);
    assert_eq!(sat_mul(i32::MIN, 2), i32::MIN);
    assert_eq!(sat_mul(i32::MIN, -1), i32::MAX);
}

#[test]
fn half_rounds_toward_zero() {
    assert_eq!(half(7), 3);
    assert_eq!(half(-7), -3);
    assert_eq!(half(-1), 0);
    assert_eq!(half(i32::MIN), -0x4000_0000);
}

#[test]
fn size_min_max_are_componentwise() {
    let a = Size::new(3, 10);
    let b = Size::new(7, 2);
    assert_eq!(a.max(b), Size::new(7, 10));
    assert_eq!(a.min(b), Size::new(3, 2));
    assert_eq!(a.plus(b), Size::new(10, 12));
    assert_eq!(a.minus(b), Size::new(-4, 8));
    assert_eq!(Size::new(9, -9).halved(), Size::new(4, -4));
    assert!(Size::new(0, 5).is_empty());
    assert!(Size::new(5, -1).is_empty());
    assert!(!Size::new(1, 1).is_empty());
}

#[test]
fn rect_contains_is_half_open() {
    let r = geo_rect(10, 20, 5, 5);
    assert!(r.contains(Point::new(10, 20)));
    assert!(r.contains(Point::new(14, 24)));
    assert!(!r.contains(Point::new(15, 20)));
    assert!(!r.contains(Point::new(10, 25)));
    assert!(!r.contains(Point::new(9, 20)));
    assert!(!geo_rect(0, 0, 0, 10).contains(Point::new(0, 0)));
}

#[test]
fn inner_and_outer_rect_undo_each_other() {
    let r = geo_rect(10, 20, 100, 50);
    let o = SideOffsets::new(1, 2, 3, 4);
    assert_eq!(o.horizontal(), 6);
    assert_eq!(o.vertical(), 4);
    let inner = r.inner_rect(o);
    assert_eq!(inner, geo_rect(14, 21, 94, 46));
    assert_eq!(inner.outer_rect(o), r);
    assert_eq!(SideOffsets::new_all_same(2).plus(o), SideOffsets::new(3, 4, 5, 6));
    assert_eq!(r.max_x(), 110);
    assert_eq!(r.max_y(), 70);
}

#[test]
fn layout_area_cuts_from_the_leading_edge() {
    let mut cursor = geo_rect(10, 20, 100, 50);
    let slot = Direction::Row.layout_area(&mut cursor, Size::new(30, 7), 5);
    assert_eq!(slot, geo_rect(10, 20, 30, 50));
    assert_eq!(cursor, geo_rect(45, 20, 65, 50));
    let mut cursor = geo_rect(10, 20, 100, 50);
    let slot = Direction::Column.layout_area(&mut cursor, Size::new(30, 7), 5);
    assert_eq!(slot, geo_rect(10, 20, 100, 7));
    assert_eq!(cursor, geo_rect(10, 32, 100, 38));
}

#[test]
fn layout_area_cuts_from_the_trailing_edge_when_reversed() {
    let mut cursor = geo_rect(10, 20, 100, 50);
    let slot = Direction::RowReverse.layout_area(&mut cursor, Size::new(30, 7), 5);
    assert_eq!(slot, geo_rect(80, 20, 30, 50));
    assert_eq!(cursor, geo_rect(10, 20, 65, 50));
    let mut cursor = geo_rect(10, 20, 100, 50);
    let slot = Direction::ColumnReverse.layout_area(&mut cursor, Size::new(30, 7), 5);
    assert_eq!(slot, geo_rect(10, 63, 100, 7));
    assert_eq!(cursor, geo_rect(10, 20, 100, 38));
}

#[test]
fn direction_knows_its_axis() {
    assert!(Direction::Row.horizontal());
    assert!(Direction::RowReverse.horizontal());
    assert!(!Direction::Column.horizontal());
    assert!(!Direction::ColumnReverse.horizontal());
}

#[test]
fn align_area_places_on_one_axis() {
    let r = geo_rect(10, 20, 100, 50);
    let s = Size::new(30, 7);
    assert_eq!(Align::Stretch.align_area(true, r, s), r);
    assert_eq!(Align::Start.align_area(true, r, s), geo_rect(10, 20, 30, 50));
    assert_eq!(Align::End.align_area(true, r, s), geo_rect(80, 20, 30, 50));
    assert_eq!(Align::Center.align_area(true, r, s), geo_rect(45, 20, 30, 50));
    assert_eq!(Align::End.align_area(false, r, s), geo_rect(10, 63, 100, 7));
    assert_eq!(Align::Center.align_area(false, r, s), geo_rect(10, 41, 100, 7));
    // an item larger than its slot is centred around it, rounding toward zero
    assert_eq!(Align::Center.align_area(true, geo_rect(0, 0, 10, 5), Size::new(15, 5)), geo_rect(-2, 0, 15, 5));
}

#[test]
fn style_defaults_and_box_model() {
    let style = Style::new();
    assert!(!style.hidden);
    assert_eq!(style.min_size, Size::zero());
    assert_eq!(style.max_size, Size::new(i32::MAX, i32::MAX));
    assert_eq!(style.gap, 0);
    assert_eq!(Style::default(), style);
    let boxed = Style {
        margin: SideOffsets::new(1, 2, 3, 4),
        border: SideOffsets::new_all_same(1),
        padding: SideOffsets::new(5, 6, 7, 8),
        min_size: Size::new(10, 10),
        max_size: Size::new(50, 20),
        ..Style::new()
    };
    assert_eq!(boxed.box_offsets(), SideOffsets::new(7, 9, 11, 13));
    assert_eq!(boxed.box_size(), Size::new(22, 18));
    assert_eq!(boxed.apply_min_max(Size::new(0, 100)), Size::new(10, 20));
    assert_eq!(boxed.apply_min_max(Size::new(30, 15)), Size::new(30, 15));
    assert_eq!(Area::new(), Area::default());
    assert!(!Area::new().hidden);
}
