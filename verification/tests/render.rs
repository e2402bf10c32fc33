use silica::button::{Button, ButtonState, ButtonStyle};
use silica::geometry::{Point, Rect, SideOffsets, Size};
use silica::gui::Gui;
use silica::render::{Canvas, Renderer, draw_border};
use silica::style::{Area, Color, Layout, Style};
use silica::widget::Widget;
use std::cell::RefCell;
use std::rc::Rc;

type Trace = Rc<RefCell<Vec<String>>>;

struct Recorder {
    trace: Trace,
    open: usize,
}

impl Renderer for Recorder {
    fn draw_quad(&mut self, rect: Rect, color: Color) {
        self.trace.borrow_mut().push(format!("quad {} {:?}", rect.size.width, color));
    }
    fn draw_button(&mut self, rect: Rect, style: ButtonStyle, toggled: bool, state: ButtonState) {
        self.trace.borrow_mut().push(format!("button {} {:?} {} {:?}", rect.size.width, style, toggled, state));
    }
    fn draw_custom(&mut self, handle: u64, rect: Rect) {
        self.open += 1;
        self.trace.borrow_mut().push(format!("custom {} {}", handle, rect.size.width));
    }
    fn scroll_depth(&self) -> usize {
        self.open
    }
    fn restore_scroll(&mut self, depth: usize) {
        if self.open > depth {
            self.trace.borrow_mut().push(format!("close {}", self.open - depth));
            self.open = depth;
        }
    }
}

struct Custom(u64);

impl Widget for Custom {
    fn as_button(&self) -> Option<&Button> {
        None
    }
    fn as_button_mut(&mut self) -> Option<&mut Button> {
        None
    }
    fn draw(&mut self, renderer: &mut Canvas, area: &Area) {
        renderer.draw_custom(self.0, area.content_rect);
    }
}

fn recorder() -> (Canvas, Trace) {
    let trace: Trace = Rc::new(RefCell::new(Vec::new()));
    (Canvas::new(Box::new(Recorder { trace: trace.clone(), open: 0 })), trace)
}

#[test]
fn visible_nodes_are_drawn_parents_first() {
    let mut gui = Gui::new();
    let root = gui.root();
    gui.set_style(root, Style { background_color: Some(Color::Background), border_color: None, ..Style::new() });
    let frame = gui.create_widget(
        Style { border: SideOffsets::new_all_same(2), min_size: Size::new(40, 10), ..Style::new() },
        Custom(7),
    );
    let inner = gui.create_node(Style { min_size: Size::new(5, 5), border_color: None, ..Style::new() });
    let button = gui.create_widget(
        Style { min_size: Size::new(20, 10), border_color: None, ..Style::new() },
        Button::new_toggle(ButtonStyle::Flat, true, 1),
    );
    gui.add_child(root, frame.node());
    gui.add_child(frame.node(), inner);
    gui.add_child(root, button.node());
    gui.set_area(Rect::new(Point::new(0, 0), Size::new(200, 50)));
    let (mut renderer, trace) = recorder();
    let drawn = gui.render(&mut renderer);
    assert!(!gui.needs_layout());
    assert_eq!(drawn, vec![root, frame.node(), inner, button.node()]);
    assert_eq!(
        *trace.borrow(),
        vec![
            "quad 200 Background",
            "quad 39 Border",
            "quad 39 Border",
            "quad 2 Border",
            "quad 2 Border",
            "custom 7 40",
            "close 1",
            "button 20 Flat true Normal",
        ]
    );
}

#[test]
fn hidden_nodes_and_what_is_under_them_are_not_drawn() {
    let mut gui = Gui::new();
    let root = gui.root();
    gui.set_style(root, Style { layout: Layout::Stack, border_color: None, ..Style::new() });
    let tight = gui.create_widget(Style { margin: SideOffsets::new_all_same(30), ..Style::new() }, Custom(1));
    let under = gui.create_widget(Style::new(), Custom(2));
    let hidden = gui.create_widget(Style { hidden: true, ..Style::new() }, Custom(3));
    gui.add_child(root, tight.node());
    gui.add_child(tight.node(), under.node());
    gui.add_child(root, hidden.node());
    gui.set_area(Rect::new(Point::new(0, 0), Size::new(50, 50)));
    let (mut renderer, trace) = recorder();
    let drawn = gui.render(&mut renderer);
    assert_eq!(drawn, vec![root]);
    assert!(trace.borrow().is_empty());
}

#[test]
fn a_border_is_four_strips_inside_the_rect() {
    let rect = Rect::new(Point::new(10, 20), Size::new(100, 50));
    let strips = silica::render::border_rects(rect, SideOffsets::new(1, 2, 3, 4));
    assert_eq!(
        strips,
        vec![
            Rect::new(Point::new(10, 20), Size::new(99, 1)),
            Rect::new(Point::new(10, 66), Size::new(99, 3)),
            Rect::new(Point::new(10, 20), Size::new(4, 49)),
            Rect::new(Point::new(107, 20), Size::new(2, 49)),
        ]
    );
    assert_eq!(
        silica::render::border_rects(rect, SideOffsets::new(0, 5, 0, 0)),
        vec![Rect::new(Point::new(104, 20), Size::new(5, 49))]
    );
    assert!(silica::render::border_rects(rect, SideOffsets::zero()).is_empty());
    let thin = Rect::new(Point::new(0, 0), Size::new(1, 50));
    assert!(silica::render::border_rects(thin, SideOffsets::new_all_same(1)).is_empty());
}

#[test]
fn a_nine_slice_has_nine_cells_in_reading_order() {
    let rect = Rect::new(Point::new(10, 20), Size::new(100, 50)).to_box();
    assert_eq!(rect, silica::geometry::Box2::new(Point::new(10, 20), Point::new(110, 70)));
    let cells = silica::render::nine_slice(rect, SideOffsets::new(1, 2, 3, 4));
    let corners: Vec<(i32, i32, i32, i32)> = cells.iter().map(|c| (c.min.x, c.min.y, c.max.x, c.max.y)).collect();
    assert_eq!(
        corners,
        vec![
            (10, 20, 14, 21),
            (14, 20, 108, 21),
            (108, 20, 110, 21),
            (10, 21, 14, 67),
            (14, 21, 108, 67),
            (108, 21, 110, 67),
            (10, 67, 14, 70),
            (14, 67, 108, 70),
            (108, 67, 110, 70),
        ]
    );
    let top = silica::render::nine_slice_top(rect, SideOffsets::new(1, 2, 3, 4));
    let corners: Vec<(i32, i32, i32, i32)> = top.iter().map(|c| (c.min.x, c.min.y, c.max.x, c.max.y)).collect();
    assert_eq!(
        corners,
        vec![
            (10, 20, 14, 21),
            (14, 20, 108, 21),
            (108, 20, 110, 21),
            (10, 21, 14, 70),
            (14, 21, 108, 70),
            (108, 21, 110, 70),
        ]
    );
}

#[test]
fn a_border_is_drawn_strip_by_strip() {
    let (mut canvas, trace) = recorder();
    let rect = Rect::new(Point::new(10, 20), Size::new(100, 50));
    draw_border(&mut canvas, rect, SideOffsets::new(1, 0, 3, 4), Color::Accent);
    assert_eq!(*trace.borrow(), vec!["quad 99 Accent", "quad 99 Accent", "quad 4 Accent"]);
    draw_border(&mut canvas, Rect::new(Point::new(0, 0), Size::new(1, 50)), SideOffsets::new_all_same(1), Color::Border);
    assert_eq!(trace.borrow().len(), 3);
}

#[test]
fn a_button_draws_itself_as_it_is() {
    let (mut canvas, trace) = recorder();
    let mut button = Button::new_toggle(ButtonStyle::Flat, true, 1);
    let area = Area { content_rect: Rect::new(Point::new(0, 0), Size::new(30, 10)), ..Area::new() };
    button.draw(&mut canvas, &area);
    assert_eq!(*trace.borrow(), vec!["button 30 Flat true Normal"]);
    assert_eq!(button.measure(Size::new(500, 500)), Size::zero());
}

struct Plain;

impl Widget for Plain {
    fn as_button(&self) -> Option<&Button> {
        None
    }
    fn as_button_mut(&mut self) -> Option<&mut Button> {
        None
    }
}

#[test]
fn a_widget_that_says_nothing_needs_no_room_draws_nothing_and_passes() {
    let (mut canvas, trace) = recorder();
    let mut widget = Plain;
    let area = Area { content_rect: Rect::new(Point::new(0, 0), Size::new(30, 10)), ..Area::new() };
    assert_eq!(widget.measure(Size::new(500, 500)), Size::zero());
    widget.layout(&area);
    widget.draw(&mut canvas, &area);
    assert!(trace.borrow().is_empty());
    let mut executor = silica::event::EventExecutor::new();
    let mut input = silica::event::GuiInput::new();
    input.clicked = true;
    assert_eq!(widget.input(&input, &mut executor, &area), silica::event::InputAction::Pass);
    assert_eq!(executor.len(), 0);
    assert!(!executor.needs_redraw());
}

#[test]
fn what_was_never_laid_out_is_at_the_origin_with_no_extent() {
    assert_eq!(Rect::zero(), Rect::new(Point::new(0, 0), Size::new(0, 0)));
    let area = Area::new();
    assert_eq!(area.measured_size, Size::zero());
    assert!(!area.hidden);
    assert_eq!(area.content_rect, Rect::zero());
    assert_eq!(area.background_rect, Rect::zero());
    let input = silica::event::GuiInput::new();
    assert_eq!(input.pointer, Point::new(0, 0));
    assert!(!input.blocked && !input.grabbed && !input.button_pressed && !input.clicked && !input.double_clicked);
    assert_eq!(input.hotkey, None);
}

#[test]
fn a_node_is_decorated_with_its_background_and_then_its_border() {
    let (mut canvas, trace) = recorder();
    let mut node = silica::widget::Node::new(
        Style {
            background_color: Some(Color::Background),
            border_color: Some(Color::Accent),
            border: SideOffsets::new(1, 0, 0, 2),
            ..Style::new()
        },
        None,
    );
    node.area.background_rect = Rect::new(Point::new(0, 0), Size::new(50, 20));
    silica::render::decorate(&mut canvas, &node);
    assert_eq!(*trace.borrow(), vec!["quad 50 Background", "quad 49 Accent", "quad 2 Accent"]);
    node.style.background_color = None;
    node.style.border_color = None;
    silica::render::decorate(&mut canvas, &node);
    assert_eq!(trace.borrow().len(), 3);
}

#[test]
fn nothing_is_asked_of_the_renderer_for_a_hidden_root() {
    let mut gui = Gui::new();
    let root = gui.root();
    gui.set_style(
        root,
        Style {
            hidden: true,
            background_color: Some(Color::Background),
            border_color: Some(Color::Border),
            border: SideOffsets::new_all_same(1),
            ..Style::new()
        },
    );
    let child = gui.create_widget(Style { background_color: Some(Color::Accent), ..Style::new() }, Custom(4));
    gui.add_child(root, child.node());
    gui.set_area(Rect::new(Point::new(0, 0), Size::new(50, 50)));
    let (mut renderer, trace) = recorder();
    assert!(gui.render(&mut renderer).is_empty());
    assert!(trace.borrow().is_empty());
}
