use silica::builder::{ButtonBuilder, NodeBuilder, TabsBuilder};
use silica::button::{Button, ButtonState, ButtonStyle, ExclusiveGroup};
use silica::event::{GroupId, Hotkey};
use silica::geometry::{Point, Rect, SideOffsets, Size};
use silica::gui::Gui;
use silica::store::NodeId;
use silica::style::{Align, Color, Direction, Style};

fn list(gui: &Gui, node: NodeId) -> Vec<NodeId> {
    gui.children(node).cloned().unwrap_or_default()
}

#[test]
fn node_builder_attaches_children_and_parent() {
    let mut gui = Gui::new();
    let root = gui.root();
    let a = NodeBuilder::new().build(&mut gui);
    let b = NodeBuilder::default().style(Style { gap: 2, ..Style::new() }).build(&mut gui);
    assert!(!gui.needs_layout());
    let c = NodeBuilder::new().build(&mut gui);
    let p = NodeBuilder::new()
        .modify_style(|style| Style { gap: 7, ..style })
        .parent(root)
        .child(a)
        .children(vec![b, c])
        .build(&mut gui);
    assert!(gui.needs_layout());
    assert_eq!(gui.get_style(p).gap, 7);
    assert_eq!(gui.get_style(b).gap, 2);
    assert_eq!(list(&gui, p), vec![a, b, c]);
    assert_eq!(list(&gui, root), vec![p]);
    assert_eq!(gui.parent(a), Some(p));
    assert_eq!(gui.parent(p), Some(root));
    // a plain node without parent and children changes nothing but the nodes
    let alone = NodeBuilder::new().build(&mut gui);
    assert_eq!(gui.parent(alone), None);
}

#[test]
fn button_builder_makes_the_button_it_was_told() {
    let mut gui = Gui::new();
    let root = gui.root();
    let label = gui.create_node(Style::new());
    let id = ButtonBuilder::new()
        .parent(root)
        .child(label)
        .button_style(ButtonStyle::Delete)
        .enabled(false)
        .hotkey(Hotkey::new('d'))
        .modify_style(|style| Style { gap: 1, ..style })
        .build(&mut gui, 12);
    let button = *gui.get_button(id.node()).unwrap();
    assert_eq!(button.button_style, ButtonStyle::Delete);
    assert_eq!(button.state, ButtonState::Disable);
    assert_eq!(button.hotkey, Some(Hotkey::new('d')));
    assert!(!button.toggled());
    let style = *gui.get_style(id.node());
    assert_eq!(style.min_size, Size::new(128, 32));
    assert_eq!(style.cross_align, Align::Center);
    assert_eq!(style.gap, 1);
    assert_eq!(style, Style { gap: 1, ..Button::default_style() });
    assert_eq!(list(&gui, root), vec![id.node()]);
    assert_eq!(list(&gui, id.node()), vec![label]);
    let toggle = ButtonBuilder::default().toggled(true).build_toggle(&mut gui, 13);
    assert!(toggle.toggled(&gui));
    assert!(toggle.enabled(&gui));
}

#[test]
fn exclusive_buttons_join_their_group_in_order() {
    let mut gui = Gui::new();
    let group = gui.add_group(ExclusiveGroup::new(true, 3));
    let first = ButtonBuilder::new().build_exclusive(&mut gui, group).unwrap();
    let second = ButtonBuilder::new().toggled(true).build_exclusive(&mut gui, group).unwrap();
    let members = gui.get_group(group).unwrap();
    assert_eq!(members.len(), 2);
    assert_eq!(members.member(0), first.node());
    assert_eq!(members.member(1), second.node());
    assert!(members.allow_deselect());
    assert!(second.toggled(&gui));
    let nodes = gui.len();
    assert!(ButtonBuilder::new().build_exclusive(&mut gui, GroupId { index: 4 }).is_none());
    assert_eq!(gui.len(), nodes);
}

#[test]
fn tabs_sit_above_the_content() {
    let mut gui = Gui::new();
    let root = gui.root();
    let group = gui.add_group(ExclusiveGroup::new(false, 1));
    let content = gui.create_node(Style { min_size: Size::new(50, 30), ..Style::new() });
    let label = gui.create_node(Style::new());
    let builder = TabsBuilder::new(&mut gui, group).parent(root).content(content);
    let tabs = builder.tabs_node();
    let (builder, one) = builder.tab(&mut gui, Some(label), true);
    let (builder, two) = builder.tab(&mut gui, None, false);
    let (one, two) = (one.unwrap(), two.unwrap());
    let container = builder.build(&mut gui);
    assert_eq!(list(&gui, root), vec![container]);
    assert_eq!(list(&gui, container), vec![content, tabs]);
    assert_eq!(list(&gui, tabs), vec![one.node(), two.node()]);
    assert_eq!(list(&gui, one.node()), vec![label]);
    assert_eq!(gui.get_style(container).direction, Direction::ColumnReverse);
    assert_eq!(gui.get_style(container).gap, -1);
    assert_eq!(gui.get_style(tabs).gap, 4);
    assert_eq!(gui.get_style(tabs).main_align, Align::Start);
    assert_eq!(gui.get_style(content).border, SideOffsets::new_all_same(1));
    assert_eq!(gui.get_style(content).border_color, Some(Color::Border));
    assert_eq!(gui.get_style(content).min_size, Size::new(50, 30));
    assert!(one.toggled(&gui) && !two.toggled(&gui));
    assert_eq!(gui.get_button(two.node()).unwrap().button_style, ButtonStyle::Tab);
    gui.set_area(Rect::new(Point::new(0, 0), Size::new(300, 100)));
    gui.layout();
    // the container is as wide as the tabs; the content is at the bottom, and the tabs
    // above it overlap its border by one
    assert_eq!(gui.get_area(container).measured_size, Size::new(260, 63));
    assert_eq!(gui.get_area(content).background_rect, Rect::new(Point::new(1, 69), Size::new(258, 30)));
    assert_eq!(gui.get_area(tabs).content_rect, Rect::new(Point::new(0, 37), Size::new(260, 32)));
    assert_eq!(gui.get_area(two.node()).content_rect, Rect::new(Point::new(132, 37), Size::new(128, 32)));
}

#[test]
fn tabs_without_content_or_parent() {
    let mut gui = Gui::new();
    let group = gui.add_group(ExclusiveGroup::new(false, 1));
    let builder = TabsBuilder::new(&mut gui, group);
    let tabs = builder.tabs_node();
    let container = builder.build(&mut gui);
    assert_eq!(list(&gui, container), vec![tabs]);
    assert_eq!(gui.parent(container), None);
    let (_, none) = TabsBuilder::new(&mut gui, GroupId { index: 3 }).tab(&mut gui, None, false);
    assert!(none.is_none());
}

#[test]
fn button_shortcuts_use_the_default_style() {
    let mut gui = Gui::new();
    let label = gui.create_node(Style::new());
    let plain = Button::create(&mut gui, Some(label), 1);
    let toggle = Button::create_toggle(&mut gui, None, 2);
    assert_eq!(*gui.get_style(plain.node()), Button::default_style());
    assert_eq!(list(&gui, plain.node()), vec![label]);
    assert_eq!(gui.parent(label), Some(plain.node()));
    assert!(gui.children(toggle.node()).is_none());
    assert!(!toggle.toggled(&gui));
    assert_eq!(gui.get_button(toggle.node()).unwrap().on_clicked, silica::button::ButtonEvent::Toggle(2));
    assert_eq!(gui.get_button(plain.node()).unwrap().on_clicked, silica::button::ButtonEvent::Normal(1));
}

#[test]
fn several_tabs_at_once() {
    let mut gui = Gui::new();
    let group = gui.add_group(ExclusiveGroup::new(false, 1));
    let label = gui.create_node(Style::new());
    let builder = TabsBuilder::new(&mut gui, group);
    let tabs = builder.tabs_node();
    let builder = builder.tabs(&mut gui, &vec![None, Some(label), None], 1);
    let made = list(&gui, tabs);
    assert_eq!(made.len(), 3);
    let on: Vec<bool> = made.iter().map(|id| gui.get_button(*id).unwrap().toggled).collect();
    assert_eq!(on, vec![false, true, false]);
    assert_eq!(list(&gui, made[1]), vec![label]);
    assert_eq!(gui.get_group(group).unwrap().len(), 3);
    assert_eq!(gui.get_group(group).unwrap().member(2), made[2]);
    let container = builder.build(&mut gui);
    assert_eq!(list(&gui, container), vec![tabs]);
    // without the group nothing is made
    let nodes = gui.len();
    let _ = TabsBuilder::new(&mut gui, GroupId { index: 9 }).tabs(&mut gui, &vec![None, None], 0);
    assert_eq!(gui.len(), nodes + 1);
}

#[test]
fn a_built_button_is_the_button_that_was_asked_for() {
    let mut gui = Gui::new();
    let plain = ButtonBuilder::new().button_style(ButtonStyle::Flat).hotkey(Hotkey::new('q')).build(&mut gui, 3);
    assert_eq!(
        gui.get_button(plain.node()),
        Some(&Button { hotkey: Some(Hotkey::new('q')), ..Button::new(ButtonStyle::Flat, 3) })
    );
    let toggle = ButtonBuilder::new().toggled(true).enabled(false).build_toggle(&mut gui, 4);
    assert_eq!(
        gui.get_button(toggle.node()),
        Some(&Button { state: ButtonState::Disable, ..Button::new_toggle(ButtonStyle::Normal, true, 4) })
    );
    let group = gui.add_group(ExclusiveGroup::new(true, 9));
    let first = ButtonBuilder::new().build_exclusive(&mut gui, group).unwrap();
    let second = ButtonBuilder::new().toggled(true).build_exclusive(&mut gui, group).unwrap();
    let empty = ExclusiveGroup::new(true, 9);
    assert_eq!(gui.get_button(first.node()), Some(&Button::new_exclusive(ButtonStyle::Normal, false, group, &empty)));
    let second_button = *gui.get_button(second.node()).unwrap();
    assert!(second_button.toggled());
    assert_ne!(second_button, Button::new_exclusive(ButtonStyle::Normal, true, group, &empty));
    let made = Button::create(&mut gui, None, 7);
    assert_eq!(gui.get_button(made.node()), Some(&Button::new(ButtonStyle::Normal, 7)));
    let made = Button::create_toggle(&mut gui, None, 8);
    assert_eq!(gui.get_button(made.node()), Some(&Button::new_toggle(ButtonStyle::Normal, false, 8)));
}

#[test]
fn a_node_can_be_built_with_any_widget_or_none() {
    let mut gui = Gui::new();
    let root = gui.root();
    let button = Button::new_toggle(ButtonStyle::Tab, true, 2);
    let with = NodeBuilder::new().parent(root).build_button(&mut gui, button);
    assert_eq!(gui.get_button(with.node()), Some(&button));
    let boxed: Box<dyn silica::widget::Widget> = Box::new(Button::new(ButtonStyle::Flat, 1));
    let held = NodeBuilder::new().parent(root).build_with(&mut gui, Some(boxed));
    assert_eq!(gui.get_button(held), Some(&Button::new(ButtonStyle::Flat, 1)));
    let bare = NodeBuilder::new().parent(root).build_with(&mut gui, None);
    assert!(gui.get_widget(bare).is_none());
    assert_eq!(list(&gui, root), vec![with.node(), held, bare]);
    let inserted = gui.insert(Style { gap: 3, ..Style::new() }, Some(Box::new(button)));
    assert_eq!(gui.get_button(inserted), Some(&button));
    assert_eq!(gui.get_style(inserted).gap, 3);
    assert_eq!(gui.parent(inserted), None);
    let plain = gui.insert(Style::new(), None);
    assert!(gui.get_widget(plain).is_none());
    assert_eq!(gui.len(), 6);
}

#[test]
fn each_of_several_tabs_is_the_next_member_of_the_group() {
    let mut gui = Gui::new();
    let group = gui.add_group(ExclusiveGroup::new(false, 11));
    let first = ButtonBuilder::new().build_exclusive(&mut gui, group).unwrap();
    let builder = TabsBuilder::new(&mut gui, group);
    let builder = builder.tabs(&mut gui, &vec![None, None, None], 1);
    let members: Vec<NodeId> = (0..4).map(|i| gui.get_group(group).unwrap().member(i)).collect();
    assert_eq!(members[0], first.node());
    assert!(!gui.get_group(group).unwrap().allow_deselect());
    let joined = ExclusiveGroup::new(false, 11);
    for (i, member) in members.iter().enumerate().skip(1) {
        let button = *gui.get_button(*member).unwrap();
        assert_eq!(button.button_style, ButtonStyle::Tab);
        assert_eq!(button.toggled(), i == 2);
        assert_eq!(gui.parent(*member), Some(builder.tabs_node()));
        let mut as_first = Button::new_exclusive(ButtonStyle::Tab, i == 2, group, &joined);
        assert_ne!(button, as_first);
        as_first.on_clicked = button.on_clicked;
        assert_eq!(button, as_first);
    }
    assert_ne!(gui.get_button(members[1]).unwrap().on_clicked, gui.get_button(members[2]).unwrap().on_clicked);
}
