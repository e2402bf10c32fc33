use silica::event::{EventExecutor, GuiInput, InputAction};
use silica::button::Button;
use silica::geometry::{Point, Rect, SideOffsets, Size};
use silica::gui::Gui;
use silica::store::NodeId;
use silica::style::{Align, Area, Color, Direction, Layout, Style};
use silica::widget::Widget;
use std::cell::RefCell;
use std::rc::Rc;

fn rect(x: i32, y: i32, w: i32, h: i32) -> Rect {
    Rect::new(Point::new(x, y), Size::new(w, h))
}

fn sized(w: i32, h: i32) -> Style {
    Style { min_size: Size::new(w, h), ..Style::new() }
}

struct Fixed {
    wants: Size,
    log: Rc<RefCell<Vec<String>>>,
    name: &'static str,
}

impl Widget for Fixed {
    fn as_button(&self) -> Option<&Button> {
        None
    }
    fn as_button_mut(&mut self) -> Option<&mut Button> {
        None
    }
    fn measure(&mut self, available_space: Size) -> Size {
        self.log.borrow_mut().push(format!("measure {} {}x{}", self.name, available_space.width, available_space.height));
        self.wants
    }
    fn layout(&mut self, area: &Area) {
        self.log.borrow_mut().push(format!("layout {} {}", self.name, area.content_rect.size.width));
    }
    fn input(&mut self, _input: &GuiInput, _executor: &mut EventExecutor, _area: &Area) -> InputAction {
        self.log.borrow_mut().push(format!("input {}", self.name));
        InputAction::Pass
    }
}

fn row_of_three(gui: &mut Gui, style: Style) -> (NodeId, NodeId, NodeId) {
    let root = gui.root();
    gui.set_style(root, style);
    let a = gui.create_node(sized(10, 5));
    let b = gui.create_node(sized(20, 8));
    let c = gui.create_node(sized(30, 3));
    gui.add_child(root, a);
    gui.add_child(root, b);
    gui.add_child(root, c);
    gui.set_area(rect(0, 0, 100, 20));
    gui.layout();
    (a, b, c)
}

#[test]
fn two_growers_split_evenly() {
    let mut gui = Gui::new();
    let root = gui.root();
    let grower = Style { grow: true, ..Style::new() };
    let a = gui.create_node(grower);
    let b = gui.create_node(grower);
    gui.add_child(root, a);
    gui.add_child(root, b);
    gui.set_area(rect(0, 0, 100, 40));
    gui.layout();
    assert_eq!(gui.get_area(a).measured_size, Size::zero());
    assert_eq!(gui.get_area(a).content_rect, rect(0, 0, 50, 40));
    assert_eq!(gui.get_area(b).content_rect, rect(50, 0, 50, 40));
    assert!(!gui.needs_layout());
}

#[test]
fn three_growers_drop_the_remainder() {
    let mut gui = Gui::new();
    let root = gui.root();
    gui.set_style(root, Style { direction: Direction::Column, ..Style::new() });
    let grower = Style { grow: true, ..Style::new() };
    let a = gui.create_node(grower);
    let b = gui.create_node(grower);
    let c = gui.create_node(grower);
    gui.add_child(root, a);
    gui.add_child(root, b);
    gui.add_child(root, c);
    gui.set_area(rect(0, 0, 10, 100));
    gui.layout();
    assert_eq!(gui.get_area(a).content_rect, rect(0, 0, 10, 33));
    assert_eq!(gui.get_area(b).content_rect, rect(0, 33, 10, 33));
    assert_eq!(gui.get_area(c).content_rect, rect(0, 66, 10, 33));
}

#[test]
fn growers_ignore_the_main_alignment() {
    let mut gui = Gui::new();
    let root = gui.root();
    gui.set_style(root, Style { main_align: Align::End, gap: 10, ..Style::new() });
    let a = gui.create_node(sized(20, 5));
    let b = gui.create_node(Style { grow: true, ..sized(20, 5) });
    gui.add_child(root, a);
    gui.add_child(root, b);
    gui.set_area(rect(0, 0, 100, 10));
    gui.layout();
    assert_eq!(gui.get_area(a).content_rect, rect(0, 0, 20, 10));
    assert_eq!(gui.get_area(b).content_rect, rect(30, 0, 70, 10));
}

#[test]
fn box_row_places_children_one_after_another() {
    let mut gui = Gui::new();
    let (a, b, c) = row_of_three(&mut gui, Style { gap: 5, ..Style::new() });
    assert_eq!(gui.get_area(a).measured_size, Size::new(10, 5));
    assert_eq!(gui.get_area(gui.root()).measured_size, Size::new(70, 8));
    assert_eq!(gui.get_area(a).content_rect, rect(0, 0, 10, 20));
    assert_eq!(gui.get_area(b).content_rect, rect(15, 0, 20, 20));
    assert_eq!(gui.get_area(c).content_rect, rect(40, 0, 30, 20));
    // sizes and gaps stay within the container, with exactly one gap between neighbours
    let (ra, rb, rc) = (gui.get_area(a).content_rect, gui.get_area(b).content_rect, gui.get_area(c).content_rect);
    assert_eq!(rb.origin.x - ra.max_x(), 5);
    assert_eq!(rc.origin.x - rb.max_x(), 5);
    assert!(ra.size.width + rb.size.width + rc.size.width + 2 * 5 <= 100);
}

#[test]
fn box_main_align_end_and_center() {
    let mut gui = Gui::new();
    let (a, b, c) = row_of_three(&mut gui, Style { gap: 5, main_align: Align::End, ..Style::new() });
    assert_eq!(gui.get_area(a).content_rect, rect(30, 0, 10, 20));
    assert_eq!(gui.get_area(b).content_rect, rect(45, 0, 20, 20));
    assert_eq!(gui.get_area(c).content_rect, rect(70, 0, 30, 20));
    let mut gui = Gui::new();
    let (a, b, c) = row_of_three(&mut gui, Style { gap: 5, main_align: Align::Center, ..Style::new() });
    assert_eq!(gui.get_area(a).content_rect, rect(15, 0, 10, 20));
    assert_eq!(gui.get_area(b).content_rect, rect(30, 0, 20, 20));
    assert_eq!(gui.get_area(c).content_rect, rect(55, 0, 30, 20));
}

#[test]
fn box_children_are_placed_across_by_their_own_cross_align() {
    let mut gui = Gui::new();
    let root = gui.root();
    gui.set_style(root, Style { cross_align: Align::Start, ..Style::new() });
    let a = gui.create_node(Style { cross_align: Align::Center, ..sized(10, 5) });
    let b = gui.create_node(Style { cross_align: Align::End, ..sized(20, 8) });
    let c = gui.create_node(Style { cross_align: Align::Start, ..sized(30, 3) });
    let d = gui.create_node(sized(5, 4));
    for child in [a, b, c, d] {
        gui.add_child(root, child);
    }
    gui.set_area(rect(0, 0, 100, 50));
    gui.layout();
    assert_eq!(gui.get_area(a).content_rect, rect(0, 22, 10, 5));
    assert_eq!(gui.get_area(b).content_rect, rect(10, 42, 20, 8));
    assert_eq!(gui.get_area(b).content_rect.max_y(), 50);
    assert_eq!(gui.get_area(c).content_rect, rect(30, 0, 30, 3));
    assert_eq!(gui.get_area(d).content_rect, rect(60, 0, 5, 50));
    // the alignment of the box itself moves none of them
    let mut gui = Gui::new();
    let (a, b, c) = row_of_three(&mut gui, Style { cross_align: Align::End, ..Style::new() });
    assert_eq!(gui.get_area(a).content_rect, rect(0, 0, 10, 20));
    assert_eq!(gui.get_area(b).content_rect, rect(10, 0, 20, 20));
    assert_eq!(gui.get_area(c).content_rect, rect(30, 0, 30, 20));
}

#[test]
fn box_reversed_directions_fill_from_the_far_edge() {
    let mut gui = Gui::new();
    let (a, b, c) = row_of_three(&mut gui, Style { gap: 5, direction: Direction::RowReverse, ..Style::new() });
    assert_eq!(gui.get_area(a).content_rect, rect(90, 0, 10, 20));
    assert_eq!(gui.get_area(b).content_rect, rect(65, 0, 20, 20));
    assert_eq!(gui.get_area(c).content_rect, rect(30, 0, 30, 20));
    let mut gui = Gui::new();
    let root = gui.root();
    gui.set_style(root, Style { gap: 2, direction: Direction::ColumnReverse, ..Style::new() });
    let a = gui.create_node(sized(10, 5));
    let b = gui.create_node(sized(20, 8));
    gui.add_child(root, a);
    gui.add_child(root, b);
    gui.set_area(rect(0, 0, 40, 50));
    gui.layout();
    assert_eq!(gui.get_area(gui.root()).measured_size, Size::new(20, 15));
    assert_eq!(gui.get_area(a).content_rect, rect(0, 45, 40, 5));
    assert_eq!(gui.get_area(b).content_rect, rect(0, 35, 40, 8));
}

#[test]
fn children_overflow_a_container_that_is_too_short() {
    let mut gui = Gui::new();
    let root = gui.root();
    let a = gui.create_node(sized(60, 5));
    let b = gui.create_node(sized(60, 5));
    gui.add_child(root, a);
    gui.add_child(root, b);
    gui.set_area(rect(0, 0, 100, 10));
    gui.layout();
    assert_eq!(gui.get_area(a).content_rect, rect(0, 0, 60, 10));
    assert_eq!(gui.get_area(b).content_rect, rect(60, 0, 60, 10));
}

#[test]
fn box_model_gives_content_and_background_rects() {
    let mut gui = Gui::new();
    let root = gui.root();
    gui.set_style(
        root,
        Style {
            margin: SideOffsets::new(1, 2, 3, 4),
            border: SideOffsets::new_all_same(1),
            padding: SideOffsets::new(5, 6, 7, 8),
            background_color: Some(Color::Background),
            ..Style::new()
        },
    );
    gui.set_area(rect(10, 10, 100, 50));
    gui.layout();
    let area = gui.get_area(gui.root());
    assert_eq!(area.content_rect, rect(23, 17, 78, 32));
    assert_eq!(area.background_rect, rect(15, 12, 92, 44));
    assert_eq!(area.measured_size, Size::new(22, 18));
    assert!(!area.hidden);
}

#[test]
fn negative_margin_lets_children_overlap() {
    let mut gui = Gui::new();
    let root = gui.root();
    let a = gui.create_node(sized(20, 5));
    let b = gui.create_node(Style { margin: SideOffsets::new(0, 0, 0, -5), ..sized(20, 5) });
    gui.add_child(root, a);
    gui.add_child(root, b);
    gui.set_area(rect(0, 0, 100, 10));
    gui.layout();
    assert_eq!(gui.get_area(b).measured_size, Size::new(15, 5));
    assert_eq!(gui.get_area(b).content_rect, rect(15, 0, 20, 10));
}

#[test]
fn min_and_max_clamp_the_measured_size() {
    let mut gui = Gui::new();
    let log = Rc::new(RefCell::new(Vec::new()));
    let root = gui.root();
    let style = Style { min_size: Size::new(10, 10), max_size: Size::new(40, 15), ..Style::new() };
    let w = gui.create_widget(style, Fixed { wants: Size::new(100, 2), log: log.clone(), name: "w" });
    gui.add_child(root, w.node());
    gui.set_area(rect(0, 0, 200, 200));
    gui.layout();
    assert_eq!(gui.get_area(w.node()).measured_size, Size::new(40, 10));
    // the widget is offered what its node can give: the available space within min and max
    assert_eq!(log.borrow()[0], "measure w 40x15");
    assert_eq!(log.borrow()[1], "layout w 40");
}

#[test]
fn widget_size_and_children_size_combine_by_maximum() {
    let mut gui = Gui::new();
    let log = Rc::new(RefCell::new(Vec::new()));
    let root = gui.root();
    let w = gui.create_widget(Style::new(), Fixed { wants: Size::new(5, 30), log: log.clone(), name: "w" });
    let child = gui.create_node(sized(25, 4));
    gui.add_child(root, w.node());
    gui.add_child(w.node(), child);
    gui.set_area(rect(0, 0, 200, 200));
    gui.layout();
    assert_eq!(gui.get_area(w.node()).measured_size, Size::new(25, 30));
}

#[test]
fn box_measure_reduces_what_later_siblings_are_offered() {
    let mut gui = Gui::new();
    let log = Rc::new(RefCell::new(Vec::new()));
    let root = gui.root();
    gui.set_style(root, Style { gap: 3, ..Style::new() });
    let a = gui.create_widget(Style::new(), Fixed { wants: Size::new(30, 5), log: log.clone(), name: "a" });
    let b = gui.create_widget(Style::new(), Fixed { wants: Size::new(10, 5), log: log.clone(), name: "b" });
    gui.add_child(root, a.node());
    gui.add_child(root, b.node());
    gui.set_area(rect(0, 0, 100, 50));
    gui.layout();
    assert_eq!(log.borrow()[0], "measure a 100x50");
    assert_eq!(log.borrow()[1], "measure b 67x50");
    assert_eq!(gui.get_area(gui.root()).measured_size, Size::new(43, 5));
}

#[test]
fn stack_places_each_child_on_its_own() {
    let mut gui = Gui::new();
    let log = Rc::new(RefCell::new(Vec::new()));
    let root = gui.root();
    gui.set_style(root, Style { layout: Layout::Stack, main_align: Align::End, ..Style::new() });
    let a = gui.create_node(Style { cross_align: Align::Center, ..sized(10, 5) });
    let b = gui.create_node(Style { grow: true, cross_align: Align::End, ..sized(20, 8) });
    let c = gui.create_widget(Style::new(), Fixed { wants: Size::new(1, 1), log: log.clone(), name: "c" });
    gui.add_child(root, a);
    gui.add_child(root, b);
    gui.add_child(root, c.node());
    gui.set_area(rect(0, 0, 100, 50));
    gui.layout();
    assert_eq!(gui.get_area(gui.root()).measured_size, Size::new(20, 8));
    assert_eq!(gui.get_area(a).content_rect, rect(90, 22, 10, 5));
    assert_eq!(gui.get_area(b).content_rect, rect(0, 42, 100, 8));
    assert_eq!(gui.get_area(c.node()).content_rect, rect(99, 0, 1, 50));
    // children of a stack do not compete: each is offered the whole
    assert_eq!(log.borrow()[0], "measure c 100x50");
}

#[test]
fn grid_rows_take_the_height_of_the_first_cell() {
    let mut gui = Gui::new();
    let root = gui.root();
    gui.set_style(root, Style { layout: Layout::Grid(2), gap: 2, ..Style::new() });
    let a = gui.create_node(sized(10, 5));
    let b = gui.create_node(sized(20, 8));
    let c = gui.create_node(sized(30, 3));
    let d = gui.create_node(sized(5, 12));
    for id in [a, b, c, d] {
        gui.add_child(root, id);
    }
    gui.set_area(rect(0, 0, 100, 60));
    gui.layout();
    // a column is as large as its largest child, and every child in it is told so
    assert_eq!(gui.get_area(a).measured_size, Size::new(30, 5));
    assert_eq!(gui.get_area(c).measured_size, Size::new(30, 5));
    assert_eq!(gui.get_area(b).measured_size, Size::new(20, 12));
    assert_eq!(gui.get_area(d).measured_size, Size::new(20, 12));
    assert_eq!(gui.get_area(gui.root()).measured_size, Size::new(52, 26));
    assert_eq!(gui.get_area(a).content_rect, rect(0, 0, 30, 5));
    assert_eq!(gui.get_area(c).content_rect, rect(0, 7, 30, 5));
    assert_eq!(gui.get_area(b).content_rect, rect(32, 0, 20, 5));
    assert_eq!(gui.get_area(d).content_rect, rect(32, 7, 20, 5));
}

#[test]
fn grid_cross_align_moves_the_whole_grid() {
    let mut gui = Gui::new();
    let root = gui.root();
    gui.set_style(root, Style { layout: Layout::Grid(2), gap: 2, cross_align: Align::End, ..Style::new() });
    let ids: Vec<NodeId> = (0..3).map(|_| gui.create_node(sized(10, 5))).collect();
    for id in ids.iter() {
        gui.add_child(root, *id);
    }
    gui.set_area(rect(0, 0, 100, 60));
    gui.layout();
    // two rows of 5 and one gap take 12 of 60
    assert_eq!(gui.get_area(ids[0]).content_rect, rect(0, 48, 10, 5));
    assert_eq!(gui.get_area(ids[1]).content_rect, rect(12, 48, 10, 5));
    assert_eq!(gui.get_area(ids[2]).content_rect, rect(0, 55, 10, 5));
    let mut gui = Gui::new();
    let root = gui.root();
    gui.set_style(root, Style { layout: Layout::Grid(2), gap: 2, cross_align: Align::Center, ..Style::new() });
    let only = gui.create_node(sized(10, 5));
    gui.add_child(root, only);
    gui.set_area(rect(0, 0, 100, 60));
    gui.layout();
    assert_eq!(gui.get_area(only).content_rect, rect(0, 27, 10, 5));
}

#[test]
fn grid_in_a_column_direction_runs_downward() {
    let mut gui = Gui::new();
    let root = gui.root();
    gui.set_style(
        root,
        Style { layout: Layout::Grid(2), gap: 1, direction: Direction::Column, ..Style::new() },
    );
    let ids: Vec<NodeId> = (0..4).map(|_| gui.create_node(sized(10, 5))).collect();
    for id in ids.iter() {
        gui.add_child(root, *id);
    }
    gui.set_area(rect(0, 0, 100, 60));
    gui.layout();
    assert_eq!(gui.get_area(gui.root()).measured_size, Size::new(21, 11));
    assert_eq!(gui.get_area(ids[0]).content_rect, rect(0, 0, 10, 5));
    assert_eq!(gui.get_area(ids[1]).content_rect, rect(0, 6, 10, 5));
    assert_eq!(gui.get_area(ids[2]).content_rect, rect(11, 0, 10, 5));
    assert_eq!(gui.get_area(ids[3]).content_rect, rect(11, 6, 10, 5));
}

#[test]
fn grid_without_columns_or_children_takes_nothing() {
    let mut gui = Gui::new();
    let root = gui.root();
    gui.set_style(root, Style { layout: Layout::Grid(0), ..Style::new() });
    let a = gui.create_node(sized(10, 5));
    gui.add_child(root, a);
    gui.set_area(rect(0, 0, 100, 60));
    gui.layout();
    assert_eq!(gui.get_area(gui.root()).measured_size, Size::zero());
    assert_eq!(*gui.get_area(a), Area::new());
    let mut gui = Gui::new();
    let root = gui.root();
    gui.set_style(root, Style { layout: Layout::Grid(3), ..Style::new() });
    gui.set_area(rect(0, 0, 100, 60));
    gui.layout();
    assert_eq!(gui.get_area(gui.root()).measured_size, Size::zero());
    assert!(!gui.get_area(gui.root()).hidden);
}

#[test]
fn empty_box_measures_zero() {
    let mut gui = Gui::new();
    gui.set_area(rect(0, 0, 100, 60));
    gui.layout();
    assert_eq!(gui.get_area(gui.root()).measured_size, Size::zero());
    assert_eq!(gui.get_area(gui.root()).content_rect, rect(0, 0, 100, 60));
}

#[test]
fn a_rect_smaller_than_the_box_offsets_hides_the_subtree() {
    let mut gui = Gui::new();
    let log = Rc::new(RefCell::new(Vec::new()));
    let root = gui.root();
    gui.set_style(root, Style { layout: Layout::Stack, ..Style::new() });
    let tight = gui.create_widget(
        Style { margin: SideOffsets::new_all_same(10), ..Style::new() },
        Fixed { wants: Size::zero(), log: log.clone(), name: "tight" },
    );
    let inside = gui.create_widget(Style::new(), Fixed { wants: Size::zero(), log: log.clone(), name: "inside" });
    gui.add_child(root, tight.node());
    gui.add_child(tight.node(), inside.node());
    gui.set_area(rect(0, 0, 15, 100));
    gui.layout();
    assert!(gui.get_area(tight.node()).hidden);
    assert!(!gui.get_area(gui.root()).hidden);
    // nothing under the hidden node was arranged or told its area
    assert_eq!(gui.get_area(inside.node()).content_rect, Rect::zero());
    assert!(log.borrow().iter().all(|line| !line.starts_with("layout")));
    // a rect of exactly the box offsets leaves an empty content, and is not hidden
    gui.set_area(rect(0, 0, 20, 20));
    gui.layout();
    assert!(!gui.get_area(tight.node()).hidden);
    assert_eq!(gui.get_area(tight.node()).content_rect, rect(10, 10, 0, 0));
}

#[test]
fn hidden_style_and_inert_layout_hide_the_node() {
    let mut gui = Gui::new();
    let root = gui.root();
    let hidden = gui.create_node(Style { hidden: true, ..sized(10, 10) });
    let inert = gui.create_node(Style { layout: Layout::Inert, ..sized(10, 10) });
    let under = gui.create_node(sized(10, 10));
    gui.add_child(root, hidden);
    gui.add_child(root, inert);
    gui.add_child(inert, under);
    gui.set_area(rect(0, 0, 100, 60));
    gui.layout();
    assert!(gui.get_area(hidden).hidden);
    assert_eq!(gui.get_area(hidden).content_rect, rect(0, 0, 10, 60));
    assert!(gui.get_area(inert).hidden);
    assert_eq!(gui.get_area(inert).measured_size, Size::new(10, 10));
    assert_eq!(*gui.get_area(under), Area::new());
}

#[test]
fn layout_runs_once_until_something_changes() {
    let mut gui = Gui::new();
    let log = Rc::new(RefCell::new(Vec::new()));
    let root = gui.root();
    let w = gui.create_widget(Style::new(), Fixed { wants: Size::new(5, 5), log: log.clone(), name: "w" });
    gui.add_child(root, w.node());
    gui.set_area(rect(0, 0, 100, 60));
    assert!(gui.needs_layout());
    gui.layout();
    let calls = log.borrow().len();
    let first = *gui.get_area(w.node());
    assert!(!gui.needs_layout());
    gui.layout();
    assert_eq!(log.borrow().len(), calls);
    assert_eq!(*gui.get_area(w.node()), first);
    assert!(!gui.needs_layout());
    // the same area again asks for nothing, another one does
    gui.set_area(rect(0, 0, 100, 60));
    assert!(!gui.needs_layout());
    gui.set_area(rect(0, 0, 90, 60));
    assert!(gui.needs_layout());
    gui.layout();
    assert!(log.borrow().len() > calls);
    gui.request_layout();
    assert!(gui.needs_layout());
}

#[test]
fn coordinates_saturate_instead_of_overflowing() {
    let mut gui = Gui::new();
    let root = gui.root();
    let a = gui.create_node(sized(i32::MAX, 5));
    let b = gui.create_node(sized(i32::MAX, 5));
    gui.add_child(root, a);
    gui.add_child(root, b);
    gui.set_area(rect(0, 0, 100, 10));
    gui.layout();
    assert_eq!(gui.get_area(gui.root()).measured_size, Size::new(i32::MAX, 5));
    assert_eq!(gui.get_area(b).content_rect.origin.x, i32::MAX);
}
