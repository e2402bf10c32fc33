use silica::button::Button;
use silica::event::{
    Decoded, EventExecutor, EventFn, EventParam, GuiInput, Hotkey, InputAction, InputEvent, KeyboardEvent,
    MouseButtonEvent,
};
use silica::geometry::{Point, Rect, Size};
use silica::gui::Gui;
use silica::store::NodeId;
use silica::style::{Area, Color, Layout, Style};
use silica::widget::Widget;
use std::cell::RefCell;
use std::rc::Rc;

struct Key(Option<Hotkey>);

impl KeyboardEvent for Key {
    fn to_hotkey(&self) -> Option<Hotkey> {
        self.0
    }
}

struct Mouse {
    primary: bool,
    pressed: bool,
}

impl MouseButtonEvent for Mouse {
    fn is_primary_button(&self) -> bool {
        self.primary
    }
    fn is_pressed(&self) -> bool {
        self.pressed
    }
}

type Event = InputEvent<Key, Mouse>;

fn motion(x: i32, y: i32) -> Event {
    InputEvent::MouseMotion(Point::new(x, y))
}

type Log = Rc<RefCell<Vec<String>>>;

/// Answers from a script, one answer per event, and `Pass` when the script is
/// over. Records who was asked and what they saw.
struct Scripted {
    name: &'static str,
    log: Log,
    answers: Vec<InputAction>,
}

impl Widget for Scripted {
    fn as_button(&self) -> Option<&Button> {
        None
    }
    fn as_button_mut(&mut self) -> Option<&mut Button> {
        None
    }
    fn input(&mut self, input: &GuiInput, executor: &mut EventExecutor, _area: &Area) -> InputAction {
        let mut line = String::from(self.name);
        if input.grabbed {
            line.push_str(" grabbed");
        }
        if input.blocked {
            line.push_str(" blocked");
        }
        self.log.borrow_mut().push(line);
        if self.answers.is_empty() {
            InputAction::Pass
        } else {
            let answer = self.answers.remove(0);
            if answer == InputAction::Grab {
                executor.request_redraw();
            }
            answer
        }
    }
}

fn scripted(gui: &mut Gui, log: &Log, name: &'static str, answers: Vec<InputAction>) -> NodeId {
    gui.create_widget(Style::new(), Scripted { name, log: log.clone(), answers }).node()
}

fn stack_root(gui: &mut Gui, log: &Log, answers: Vec<InputAction>) -> NodeId {
    let root = gui.create_widget(
        Style { layout: Layout::Stack, ..Style::new() },
        Scripted { name: "root", log: log.clone(), answers },
    );
    gui.set_root(root.node());
    root.node()
}

fn laid_out(gui: &mut Gui) {
    gui.set_area(Rect::new(Point::new(0, 0), Size::new(100, 100)));
    gui.layout();
}

fn taken(log: &Log) -> Vec<String> {
    log.borrow_mut().drain(..).collect()
}

#[test]
fn children_are_asked_last_first_and_the_container_last() {
    let mut gui = Gui::new();
    let log: Log = Rc::new(RefCell::new(Vec::new()));
    let root = stack_root(&mut gui, &log, vec![]);
    for name in ["A", "B", "C"] {
        let id = scripted(&mut gui, &log, name, vec![]);
        gui.add_child(root, id);
    }
    laid_out(&mut gui);
    let (executor, unhandled) = gui.handle_input(motion(50, 50));
    assert_eq!(taken(&log), vec!["C", "B", "A", "root"]);
    assert!(unhandled.is_some());
    assert_eq!(executor.len(), 0);
    assert!(!executor.needs_redraw());
}

#[test]
fn nested_children_are_asked_before_their_parents() {
    let mut gui = Gui::new();
    let log: Log = Rc::new(RefCell::new(Vec::new()));
    let root = stack_root(&mut gui, &log, vec![]);
    let a = scripted(&mut gui, &log, "A", vec![]);
    let a1 = scripted(&mut gui, &log, "A1", vec![]);
    let a2 = scripted(&mut gui, &log, "A2", vec![]);
    let b = scripted(&mut gui, &log, "B", vec![]);
    gui.add_child(root, a);
    gui.add_child(root, b);
    gui.add_child(a, a1);
    gui.add_child(a, a2);
    laid_out(&mut gui);
    let _ = gui.handle_input(motion(1, 1));
    assert_eq!(taken(&log), vec!["B", "A2", "A1", "A", "root"]);
}

#[test]
fn block_is_a_signal_and_does_not_stop_the_traversal() {
    let mut gui = Gui::new();
    let log: Log = Rc::new(RefCell::new(Vec::new()));
    let root = stack_root(&mut gui, &log, vec![]);
    let a = scripted(&mut gui, &log, "A", vec![]);
    let b = scripted(&mut gui, &log, "B", vec![InputAction::Block]);
    gui.add_child(root, a);
    gui.add_child(root, b);
    laid_out(&mut gui);
    let (_, unhandled) = gui.handle_input(motion(1, 1));
    assert_eq!(taken(&log), vec!["B", "A blocked", "root blocked"]);
    assert!(unhandled.is_none());
    // the block lasts for one delivery
    let (_, unhandled) = gui.handle_input(motion(2, 2));
    assert_eq!(taken(&log), vec!["B", "A", "root"]);
    assert!(matches!(unhandled, Some(InputEvent::MouseMotion(p)) if p == Point::new(2, 2)));
}

#[test]
fn a_grab_lasts_for_one_event_unless_renewed() {
    let mut gui = Gui::new();
    let log: Log = Rc::new(RefCell::new(Vec::new()));
    let root = stack_root(&mut gui, &log, vec![]);
    let a = scripted(&mut gui, &log, "A", vec![]);
    let g = scripted(&mut gui, &log, "G", vec![InputAction::Grab, InputAction::Grab, InputAction::Block]);
    gui.add_child(root, a);
    gui.add_child(root, g);
    laid_out(&mut gui);
    // event N: G answers Grab during the ordinary traversal
    let (executor, unhandled) = gui.handle_input(motion(1, 1));
    assert_eq!(taken(&log), vec!["G", "A blocked", "root blocked"]);
    assert!(unhandled.is_none());
    assert!(executor.needs_redraw());
    // event N+1: G alone, as the grabbed target, and it renews the grab
    let _ = gui.handle_input(motion(2, 2));
    assert_eq!(taken(&log), vec!["G grabbed"]);
    // event N+2: G alone again; this time it does not answer Grab
    let (_, unhandled) = gui.handle_input(motion(3, 3));
    assert_eq!(taken(&log), vec!["G grabbed"]);
    assert!(unhandled.is_none());
    // event N+3: nobody holds the grab
    let (_, unhandled) = gui.handle_input(motion(4, 4));
    assert_eq!(taken(&log), vec!["G", "A", "root"]);
    assert!(unhandled.is_some());
}

#[test]
fn a_grab_released_by_pass_gives_the_event_back() {
    let mut gui = Gui::new();
    let log: Log = Rc::new(RefCell::new(Vec::new()));
    let root = stack_root(&mut gui, &log, vec![]);
    let g = scripted(&mut gui, &log, "G", vec![InputAction::Grab, InputAction::Pass]);
    let inside = scripted(&mut gui, &log, "inside", vec![]);
    gui.add_child(root, g);
    gui.add_child(g, inside);
    laid_out(&mut gui);
    let _ = gui.handle_input(motion(1, 1));
    assert_eq!(taken(&log), vec!["inside", "G", "root blocked"]);
    // the grabbed node is asked alone: not even what is under it
    let (_, unhandled) = gui.handle_input(motion(2, 2));
    assert_eq!(taken(&log), vec!["G grabbed"]);
    assert!(unhandled.is_some());
    let _ = gui.handle_input(motion(3, 3));
    assert_eq!(taken(&log), vec!["inside", "G", "root"]);
}

#[test]
fn a_grab_on_a_deleted_node_is_dropped() {
    let mut gui = Gui::new();
    let log: Log = Rc::new(RefCell::new(Vec::new()));
    let root = stack_root(&mut gui, &log, vec![]);
    let g = scripted(&mut gui, &log, "G", vec![InputAction::Grab]);
    gui.add_child(root, g);
    laid_out(&mut gui);
    let _ = gui.handle_input(motion(1, 1));
    taken(&log);
    gui.delete(g);
    let (executor, unhandled) = gui.handle_input(motion(2, 2));
    assert!(taken(&log).is_empty());
    assert!(unhandled.is_some());
    assert_eq!(executor.len(), 0);
    let _ = gui.handle_input(motion(3, 3));
    assert_eq!(taken(&log), vec!["root"]);
}

#[test]
fn hidden_nodes_and_what_is_under_them_get_no_input() {
    let mut gui = Gui::new();
    let log: Log = Rc::new(RefCell::new(Vec::new()));
    let root = stack_root(&mut gui, &log, vec![]);
    let hidden = gui
        .create_widget(Style { hidden: true, ..Style::new() }, Scripted { name: "hidden", log: log.clone(), answers: vec![] })
        .node();
    let under = scripted(&mut gui, &log, "under", vec![]);
    let seen = scripted(&mut gui, &log, "seen", vec![]);
    gui.add_child(root, hidden);
    gui.add_child(hidden, under);
    gui.add_child(root, seen);
    laid_out(&mut gui);
    let _ = gui.handle_input(motion(1, 1));
    assert_eq!(taken(&log), vec!["seen", "root"]);
}

#[test]
fn a_background_without_widget_blocks_the_pointer_on_it() {
    let mut gui = Gui::new();
    let log: Log = Rc::new(RefCell::new(Vec::new()));
    let root = stack_root(&mut gui, &log, vec![]);
    let panel = gui.create_node(Style {
        background_color: Some(Color::Background),
        min_size: Size::new(10, 10),
        main_align: silica::style::Align::Start,
        cross_align: silica::style::Align::Start,
        ..Style::new()
    });
    gui.add_child(root, panel);
    gui.set_style(
        root,
        Style { layout: Layout::Stack, main_align: silica::style::Align::Start, ..Style::new() },
    );
    laid_out(&mut gui);
    assert_eq!(gui.get_area(panel).background_rect, Rect::new(Point::new(0, 0), Size::new(10, 10)));
    let (_, unhandled) = gui.handle_input(motion(5, 5));
    assert_eq!(taken(&log), vec!["root blocked"]);
    assert!(unhandled.is_none());
    let (_, unhandled) = gui.handle_input(motion(50, 50));
    assert_eq!(taken(&log), vec!["root"]);
    assert!(unhandled.is_some());
}

#[test]
fn input_state_follows_the_events() {
    let mut input = GuiInput::new();
    input.process(&motion(3, 4));
    assert_eq!(input.pointer, Point::new(3, 4));
    let press: Event = InputEvent::MouseButton(Mouse { primary: true, pressed: true });
    input.process(&press);
    assert!(input.button_pressed && input.clicked);
    input.reset();
    assert!(input.button_pressed && !input.clicked);
    assert_eq!(input.pointer, Point::new(3, 4));
    // held down: no new click
    input.process(&press);
    assert!(input.button_pressed && !input.clicked);
    let release: Event = InputEvent::MouseButton(Mouse { primary: true, pressed: false });
    input.process(&release);
    assert!(!input.button_pressed && !input.clicked);
    let other: Event = InputEvent::MouseButton(Mouse { primary: false, pressed: true });
    input.process(&other);
    assert!(!input.button_pressed && !input.clicked);
    let key: Event = InputEvent::Keyboard(Key(Some(Hotkey::new('q'))));
    input.process(&key);
    assert_eq!(input.hotkey, Some(Hotkey { key: 'q', mod1: false, mod2: false }));
    let wheel: Event = InputEvent::MouseWheel(3);
    assert_eq!(wheel.decode(), Decoded::Wheel(3));
    input.process(&wheel);
    assert_eq!(input.hotkey, Some(Hotkey::new('q')));
    input.blocked = true;
    input.grabbed = true;
    input.double_clicked = true;
    input.reset();
    assert_eq!(input, GuiInput { pointer: Point::new(3, 4), ..GuiInput::new() });
    let mut applied = GuiInput::new();
    applied.apply(Decoded::Button { primary: true, pressed: true });
    assert!(applied.clicked);
}

#[test]
fn the_queue_keeps_the_order_of_queuing() {
    let mut executor = EventExecutor::new();
    assert_eq!(executor.len(), 0);
    assert!(!executor.needs_redraw());
    executor.queue(EventFn::new(1), None);
    executor.queue(EventFn::new_param(2), Some(EventParam::Bool(true)));
    executor.queue(EventFn::new(3), Some(EventParam::Bits(9)));
    assert_eq!(executor.len(), 3);
    assert_eq!(executor.get(0), Some((EventFn::Callback { handler: 1, with_param: false }, None)));
    assert_eq!(
        executor.get(1),
        Some((EventFn::Callback { handler: 2, with_param: true }, Some(EventParam::Bool(true))))
    );
    assert_eq!(executor.get(3), None);
    assert!(!executor.needs_redraw());
    executor.request_redraw();
    assert!(executor.needs_redraw());
    assert_eq!(executor.len(), 3);
    assert!(!EventExecutor::default().needs_redraw());
}

#[test]
fn a_key_press_that_types_stands_for_a_hotkey() {
    assert_eq!(Hotkey::from_key(true, Some('a'), true, false), Some(Hotkey { key: 'a', mod1: true, mod2: false }));
    assert_eq!(Hotkey::from_key(false, Some('a'), false, false), None);
    assert_eq!(Hotkey::from_key(true, None, false, true), None);
}

#[test]
fn the_reaction_follows_exit_redraw_and_layout() {
    let mut gui = Gui::new();
    assert_eq!(gui.reaction(false), silica::gui::Reaction::Idle);
    assert_eq!(gui.reaction(true), silica::gui::Reaction::Redraw);
    gui.request_layout();
    assert_eq!(gui.reaction(false), silica::gui::Reaction::Redraw);
    gui.request_exit();
    assert_eq!(gui.reaction(true), silica::gui::Reaction::Exit);
}
