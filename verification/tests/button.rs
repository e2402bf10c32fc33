use silica::button::{Button, ButtonEvent, ButtonState, ButtonStyle, ExclusiveGroup};
use silica::event::{
    EventContext, EventExecutor, EventFn, EventParam, GuiInput, Hotkey, InputAction, InputEvent, KeyboardEvent,
    MouseButtonEvent,
};
use silica::geometry::{Point, Rect, Size};
use silica::gui::{Gui, WidgetId};
use silica::style::{Area, Style};
use silica::widget::Widget;

struct NoKey(Option<Hotkey>);

impl KeyboardEvent for NoKey {
    fn to_hotkey(&self) -> Option<Hotkey> {
        self.0
    }
}

struct Primary(bool);

impl MouseButtonEvent for Primary {
    fn is_primary_button(&self) -> bool {
        true
    }
    fn is_pressed(&self) -> bool {
        self.0
    }
}

type Raw = InputEvent<NoKey, Primary>;

fn button_rect() -> Rect {
    Rect::new(Point::new(10, 10), Size::new(20, 10))
}

fn over() -> GuiInput {
    GuiInput { pointer: Point::new(15, 15), ..GuiInput::new() }
}

fn away() -> GuiInput {
    GuiInput { pointer: Point::new(50, 50), ..GuiInput::new() }
}

fn area_at(rect: Rect) -> Area {
    Area { content_rect: rect, ..Area::new() }
}

#[test]
fn a_button_hovers_presses_and_clicks() {
    let mut state = ButtonState::Normal;
    let r = state.handle_input(&over(), None, button_rect());
    assert_eq!(state, ButtonState::Hover);
    assert_eq!((r.action, r.changed, r.clicked), (InputAction::Block, true, false));
    let r = state.handle_input(&over(), None, button_rect());
    assert_eq!((r.action, r.changed, r.clicked), (InputAction::Block, false, false));
    let down = GuiInput { button_pressed: true, clicked: true, ..over() };
    let r = state.handle_input(&down, None, button_rect());
    assert_eq!(state, ButtonState::Press);
    assert_eq!((r.action, r.changed, r.clicked), (InputAction::Block, true, true));
    // held: pressed, no second click
    let held = GuiInput { button_pressed: true, ..over() };
    let r = state.handle_input(&held, None, button_rect());
    assert_eq!(state, ButtonState::Press);
    assert_eq!((r.changed, r.clicked), (false, false));
    let r = state.handle_input(&away(), None, button_rect());
    assert_eq!(state, ButtonState::Normal);
    assert_eq!((r.action, r.changed, r.clicked), (InputAction::Pass, true, false));
    let r = state.handle_input(&away(), None, button_rect());
    assert_eq!((r.action, r.changed, r.clicked), (InputAction::Pass, false, false));
}

#[test]
fn a_blocked_pointer_does_not_hover() {
    let mut state = ButtonState::Hover;
    let blocked = GuiInput { blocked: true, ..over() };
    let r = state.handle_input(&blocked, None, button_rect());
    assert_eq!(state, ButtonState::Normal);
    assert_eq!((r.action, r.changed, r.clicked), (InputAction::Pass, true, false));
}

#[test]
fn a_hotkey_clicks_wherever_the_pointer_is() {
    let key = Hotkey::new('s');
    let mut state = ButtonState::Normal;
    let pressed = GuiInput { hotkey: Some(key), ..away() };
    let r = state.handle_input(&pressed, Some(key), button_rect());
    assert_eq!(state, ButtonState::Press);
    assert_eq!((r.action, r.changed, r.clicked), (InputAction::Pass, true, true));
    // another key, or a button without hotkey, is not concerned
    let mut state = ButtonState::Normal;
    let other = GuiInput { hotkey: Some(Hotkey { key: 's', mod1: true, mod2: false }), ..away() };
    let r = state.handle_input(&other, Some(key), button_rect());
    assert_eq!((state, r.clicked), (ButtonState::Normal, false));
    let r = state.handle_input(&pressed, None, button_rect());
    assert_eq!((state, r.clicked), (ButtonState::Normal, false));
}

#[test]
fn a_grabbed_button_follows_the_pointer_button_anywhere() {
    let mut state = ButtonState::Normal;
    let grabbed = GuiInput { grabbed: true, button_pressed: true, ..away() };
    let r = state.handle_input(&grabbed, None, button_rect());
    assert_eq!(state, ButtonState::Press);
    assert_eq!((r.action, r.changed, r.clicked), (InputAction::Pass, true, false));
    let released = GuiInput { grabbed: true, ..away() };
    let r = state.handle_input(&released, None, button_rect());
    assert_eq!(state, ButtonState::Normal);
    assert_eq!((r.action, r.changed), (InputAction::Pass, true));
}

#[test]
fn a_disabled_button_blocks_but_never_clicks() {
    let mut state = ButtonState::Disable;
    let down = GuiInput { button_pressed: true, clicked: true, hotkey: Some(Hotkey::new('x')), ..over() };
    let r = state.handle_input(&down, Some(Hotkey::new('x')), button_rect());
    assert_eq!(state, ButtonState::Disable);
    assert_eq!((r.action, r.changed, r.clicked), (InputAction::Block, false, false));
    let r = state.handle_input(&away(), None, button_rect());
    assert_eq!((r.action, r.changed, r.clicked), (InputAction::Pass, false, false));
}

#[test]
fn enabling_and_toggling() {
    let mut button = Button::new(ButtonStyle::Confirm, 1);
    assert!(button.enabled());
    assert!(!button.toggled());
    assert_eq!(button.button_style, ButtonStyle::Confirm);
    assert_eq!(button.state, ButtonState::Normal);
    assert_eq!(button.hotkey, None);
    button.set_enabled(false);
    assert!(!button.enabled());
    assert_eq!(button.state, ButtonState::Disable);
    button.set_enabled(true);
    assert_eq!(button.state, ButtonState::Normal);
    button.set_toggled(true);
    assert!(button.toggled());
    button.hotkey = Some(Hotkey::new('a'));
    assert_eq!(button.hotkey, Some(Hotkey::new('a')));
    assert!(Button::new_toggle(ButtonStyle::default(), true, 2).toggled());
    assert_eq!(ButtonStyle::default(), ButtonStyle::Normal);
}

#[test]
fn a_plain_click_queues_the_callback() {
    let mut button = Button::new(ButtonStyle::Normal, 41);
    let mut executor = EventExecutor::new();
    let down = GuiInput { button_pressed: true, clicked: true, ..over() };
    let action = button.input(&down, &mut executor, &area_at(button_rect()));
    assert_eq!(action, InputAction::Block);
    assert!(executor.needs_redraw());
    assert_eq!(executor.len(), 1);
    assert_eq!(executor.get(0), Some((EventFn::new(41), None)));
    assert!(!button.toggled());
    // no click, no event; no change, no redraw
    let mut executor = EventExecutor::new();
    let held = GuiInput { button_pressed: true, ..over() };
    button.input(&held, &mut executor, &area_at(button_rect()));
    assert_eq!(executor.len(), 0);
    assert!(!executor.needs_redraw());
}

#[test]
fn a_toggle_click_flips_and_reports_the_new_state() {
    let mut button = Button::new_toggle(ButtonStyle::Normal, false, 5);
    let down = GuiInput { button_pressed: true, clicked: true, ..over() };
    let mut executor = EventExecutor::new();
    button.input(&down, &mut executor, &area_at(button_rect()));
    assert!(button.toggled());
    assert_eq!(executor.get(0), Some((EventFn::new_param(5), Some(EventParam::Bool(true)))));
    let mut button = Button::new_toggle(ButtonStyle::Normal, true, 5);
    let mut executor = EventExecutor::new();
    button.input(&down, &mut executor, &area_at(button_rect()));
    assert!(!button.toggled());
    assert_eq!(executor.get(0), Some((EventFn::new_param(5), Some(EventParam::Bool(false)))));
}

struct Calls(Vec<(u64, Option<EventParam>)>);

impl EventContext for Calls {
    fn call(&mut self, _gui: &mut Gui, handler: u64, param: Option<EventParam>) {
        self.0.push((handler, param));
    }
}

struct App {
    gui: Gui,
    calls: Vec<(u64, Option<EventParam>)>,
}

fn run(app: &mut App, executor: EventExecutor) {
    let mut calls = Calls(std::mem::take(&mut app.calls));
    executor.execute(&mut app.gui, &mut calls);
    app.calls = calls.0;
}

/// Toggles the first button of the tree, whatever it is asked to run.
struct Meddler(WidgetId<Button>);

impl EventContext for Meddler {
    fn call(&mut self, gui: &mut Gui, _handler: u64, _param: Option<EventParam>) {
        self.0.set_toggled(gui, true);
    }
}

fn exclusive_app(allow_deselect: bool, count: usize) -> (App, Vec<WidgetId<Button>>) {
    let mut gui = Gui::new();
    let group = gui.add_group(ExclusiveGroup::new(allow_deselect, 77));
    let root = gui.root();
    let mut buttons = Vec::new();
    for _ in 0..count {
        let button = Button::new_exclusive(ButtonStyle::Tab, false, group, gui.get_group(group).unwrap());
        let id = gui.create_widget(Style { min_size: Size::new(20, 10), ..Style::new() }, button);
        gui.join_group(group, id.node());
        gui.add_child(root, id.node());
        buttons.push(id);
    }
    gui.set_area(Rect::new(Point::new(0, 0), Size::new(100, 10)));
    gui.layout();
    (App { gui, calls: Vec::new() }, buttons)
}

/// Moves the pointer onto button `index`, presses and releases, and runs the queue.
fn click(app: &mut App, index: i32) {
    for event in [
        InputEvent::MouseMotion(Point::new(20 * index + 5, 5)),
        InputEvent::MouseButton(Primary(true)),
        InputEvent::MouseButton(Primary(false)),
    ] {
        let event: Raw = event;
        let (executor, _) = app.gui.handle_input(event);
        run(app, executor);
    }
}

fn toggles(app: &App, buttons: &[WidgetId<Button>]) -> Vec<bool> {
    buttons.iter().map(|id| id.toggled(&app.gui)).collect()
}

#[test]
fn an_exclusive_group_keeps_one_member_selected() {
    let (mut app, buttons) = exclusive_app(false, 3);
    assert_eq!(app.gui.get_area(buttons[1].node()).content_rect, Rect::new(Point::new(20, 0), Size::new(20, 10)));
    click(&mut app, 1);
    assert_eq!(toggles(&app, &buttons), vec![false, true, false]);
    assert_eq!(app.calls, vec![(77, Some(EventParam::Index(Some(1))))]);
    click(&mut app, 2);
    assert_eq!(toggles(&app, &buttons), vec![false, false, true]);
    assert_eq!(
        app.calls,
        vec![(77, Some(EventParam::Index(Some(1)))), (77, Some(EventParam::Index(Some(2))))]
    );
    // clicking the selected member of a group that does not allow deselecting does nothing
    click(&mut app, 2);
    assert_eq!(toggles(&app, &buttons), vec![false, false, true]);
    assert_eq!(app.calls.len(), 2);
}

#[test]
fn an_exclusive_group_that_allows_it_can_be_left_empty() {
    let (mut app, buttons) = exclusive_app(true, 2);
    click(&mut app, 0);
    assert_eq!(toggles(&app, &buttons), vec![true, false]);
    click(&mut app, 0);
    assert_eq!(toggles(&app, &buttons), vec![false, false]);
    assert_eq!(
        app.calls,
        vec![(77, Some(EventParam::Index(Some(0)))), (77, Some(EventParam::Index(None)))]
    );
}

#[test]
fn an_exclusive_click_queues_deselection_before_the_notification() {
    let mut gui = Gui::new();
    let group = gui.add_group(ExclusiveGroup::new(false, 9));
    gui.join_group(group, gui.root());
    let mut button = Button::new_exclusive(ButtonStyle::Normal, false, group, gui.get_group(group).unwrap());
    let down = GuiInput { button_pressed: true, clicked: true, ..over() };
    let mut executor = EventExecutor::new();
    button.input(&down, &mut executor, &area_at(button_rect()));
    assert!(button.toggled());
    assert_eq!(executor.len(), 2);
    assert_eq!(executor.get(0), Some((EventFn::DeselectOthers, Some(EventParam::Member(group, 1)))));
    assert_eq!(executor.get(1), Some((EventFn::new_param(9), Some(EventParam::Index(Some(1))))));
    assert_eq!(gui.get_group(group).unwrap().len(), 1);
    assert!(!gui.get_group(group).unwrap().allow_deselect());
}

#[test]
fn deselect_others_spares_the_chosen_member_and_what_is_no_button() {
    let (mut app, buttons) = exclusive_app(false, 3);
    for id in buttons.iter() {
        id.set_toggled(&mut app.gui, true);
    }
    let plain = app.gui.create_node(Style::new());
    let group = silica::event::GroupId { index: 0 };
    app.gui.join_group(group, plain);
    app.gui.deselect_others(group, 0);
    assert_eq!(toggles(&app, &buttons), vec![true, false, false]);
    // a group that is not there deselects nobody
    app.gui.deselect_others(silica::event::GroupId { index: 5 }, 0);
    assert_eq!(toggles(&app, &buttons), vec![true, false, false]);
}

#[test]
fn widget_handles_reach_the_button_in_the_tree() {
    let mut gui = Gui::new();
    let id = gui.create_widget(Style::new(), Button::new_toggle(ButtonStyle::Flat, true, 3));
    assert!(id.toggled(&gui));
    assert!(id.enabled(&gui));
    id.set_enabled(&mut gui, false);
    assert!(!id.enabled(&gui));
    id.set_toggled(&mut gui, false);
    assert!(!id.toggled(&gui));
    assert_eq!(gui.get_button(id.node()).unwrap().button_style, ButtonStyle::Flat);
    assert!(gui.get_widget(id.node()).is_some());
    // a handle to a node that is gone, or that is no button, reads as a plain enabled button
    let node = gui.create_node(Style::new());
    let not_a_button: WidgetId<Button> = WidgetId::new(node);
    assert!(!not_a_button.toggled(&gui));
    assert!(not_a_button.enabled(&gui));
    gui.delete(id.node());
    assert!(!id.toggled(&gui));
    assert!(id.enabled(&gui));
    assert!(gui.get_button(id.node()).is_none());
    let copy = id;
    assert_eq!(copy.node(), id.clone().node());
}

#[test]
fn library_events_run_between_the_callbacks() {
    let (mut app, buttons) = exclusive_app(false, 2);
    buttons[0].set_toggled(&mut app.gui, true);
    buttons[1].set_toggled(&mut app.gui, true);
    let mut executor = EventExecutor::new();
    executor.queue(EventFn::new(1), None);
    executor.queue(EventFn::DeselectOthers, Some(EventParam::Member(silica::event::GroupId { index: 0 }, 1)));
    executor.queue(EventFn::new(2), None);
    run(&mut app, executor);
    assert_eq!(toggles(&app, &buttons), vec![false, true]);
    assert_eq!(app.calls, vec![(1, None), (2, None)]);
}

#[test]
fn a_callback_that_runs_later_sees_and_changes_the_tree() {
    let (mut app, buttons) = exclusive_app(false, 2);
    buttons[1].set_toggled(&mut app.gui, true);
    let group = silica::event::GroupId { index: 0 };
    let mut executor = EventExecutor::new();
    executor.queue(EventFn::new(1), None);
    executor.queue(EventFn::DeselectOthers, Some(EventParam::Member(group, 1)));
    executor.execute(&mut app.gui, &mut Meddler(buttons[0]));
    assert_eq!(toggles(&app, &buttons), vec![false, true]);
    let mut executor = EventExecutor::new();
    executor.queue(EventFn::DeselectOthers, Some(EventParam::Member(group, 1)));
    executor.queue(EventFn::new(1), None);
    executor.execute(&mut app.gui, &mut Meddler(buttons[0]));
    assert_eq!(toggles(&app, &buttons), vec![true, true]);
}

#[test]
fn an_event_without_what_it_needs_changes_nothing() {
    let (mut app, buttons) = exclusive_app(false, 2);
    buttons[0].set_toggled(&mut app.gui, true);
    buttons[1].set_toggled(&mut app.gui, true);
    let mut executor = EventExecutor::new();
    executor.queue(EventFn::DeselectOthers, Some(EventParam::Member(silica::event::GroupId { index: 9 }, 1)));
    run(&mut app, executor);
    assert_eq!(toggles(&app, &buttons), vec![true, true]);
    assert!(app.calls.is_empty());
}

#[test]
fn callbacks_without_parameter_are_not_handed_one() {
    let (mut app, _) = exclusive_app(false, 1);
    let mut executor = EventExecutor::new();
    executor.queue(EventFn::new(4), Some(EventParam::Bits(1)));
    executor.queue(EventFn::new_param(5), Some(EventParam::Bits(2)));
    run(&mut app, executor);
    assert_eq!(app.calls, vec![(4, None), (5, Some(EventParam::Bits(2)))]);
}

#[test]
fn button_events_are_plain_data() {
    let event = ButtonEvent::Toggle(3);
    assert_eq!(event, ButtonEvent::Toggle(3));
    assert_ne!(event, ButtonEvent::Normal(3));
}

#[test]
fn a_button_measures_nothing_of_its_own() {
    let mut button = Button::new(ButtonStyle::Normal, 0);
    assert_eq!(button.measure(Size::new(100, 100)), Size::zero());
    assert!(button.as_button().is_some());
    assert!(button.as_button_mut().is_some());
}

#[test]
fn resolving_an_event_says_what_is_to_be_done() {
    let group = silica::event::GroupId { index: 2 };
    assert_eq!(EventFn::new(1).resolve(Some(EventParam::Bool(true))), silica::event::Task::Call { handler: 1, param: None });
    assert_eq!(
        EventFn::new_param(1).resolve(Some(EventParam::Bool(true))),
        silica::event::Task::Call { handler: 1, param: Some(EventParam::Bool(true)) }
    );
    assert_eq!(
        EventFn::DeselectOthers.resolve(Some(EventParam::Member(group, 3))),
        silica::event::Task::Deselect { group, index: 3 }
    );
    assert_eq!(EventFn::DeselectOthers.resolve(None), silica::event::Task::Nothing);
    assert_eq!(EventFn::DeselectOthers.resolve(Some(EventParam::Bits(0))), silica::event::Task::Nothing);
}

#[test]
fn a_hotkey_clicks_a_button_in_the_tree() {
    let mut gui = Gui::new();
    let root = gui.root();
    let mut button = Button::new_toggle(ButtonStyle::Normal, false, 8);
    button.hotkey = Some(Hotkey::new('t'));
    let id = gui.create_widget(Style { min_size: Size::new(10, 10), ..Style::new() }, button);
    gui.add_child(root, id.node());
    gui.set_area(Rect::new(Point::new(0, 0), Size::new(100, 100)));
    gui.layout();
    let key: Raw = InputEvent::Keyboard(NoKey(Some(Hotkey::new('t'))));
    let (executor, unhandled) = gui.handle_input(key);
    assert!(id.toggled(&gui));
    assert_eq!(executor.get(0), Some((EventFn::new_param(8), Some(EventParam::Bool(true)))));
    assert!(executor.needs_redraw());
    // the pointer at the origin is over the button, so the button blocks
    assert!(unhandled.is_none());
    // the hotkey belongs to one delivery
    let (executor, _) = gui.handle_input(InputEvent::MouseMotion(Point::new(50, 50)) as Raw);
    assert_eq!(executor.len(), 0);
    assert!(id.toggled(&gui));
}

#[test]
fn widgets_can_be_changed_in_place() {
    let mut gui = Gui::new();
    let id = gui.create_widget(Style::new(), Button::new(ButtonStyle::Normal, 1));
    match gui.get_widget_mut(id.node()) {
        Some(widget) => widget.as_button_mut().unwrap().toggled = true,
        None => panic!("the widget is there"),
    }
    assert!(id.toggled(&gui));
    let plain = gui.create_node(Style::new());
    assert!(gui.get_widget_mut(plain).is_none());
    assert!(gui.get_widget(plain).is_none());
    gui.modify_style(plain, |style| Style { gap: 11, ..style });
    assert_eq!(gui.get_style(plain).gap, 11);
    assert!(gui.needs_layout());
}

#[test]
fn a_queue_without_callbacks_leaves_the_context_alone() {
    let (mut app, buttons) = exclusive_app(false, 2);
    buttons[0].set_toggled(&mut app.gui, true);
    buttons[1].set_toggled(&mut app.gui, true);
    app.calls.push((1, None));
    let mut executor = EventExecutor::new();
    executor.queue(EventFn::DeselectOthers, Some(EventParam::Member(silica::event::GroupId { index: 0 }, 0)));
    executor.queue(EventFn::DeselectOthers, Some(EventParam::Member(silica::event::GroupId { index: 5 }, 0)));
    run(&mut app, executor);
    assert_eq!(toggles(&app, &buttons), vec![true, false]);
    assert_eq!(app.calls, vec![(1, None)]);
}
