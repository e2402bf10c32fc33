//! Builders that put nodes into a tree: a plain node with its children and
//! its parent, a button, and a row of tabs over a content node.

use vstd::prelude::*;
use crate::button::{Button, ButtonEvent, ButtonState, ButtonStyle, ExclusiveGroup};
use crate::event::{GroupId, Hotkey};
use crate::geometry::{SideOffsets, Size};
use crate::gui::{Gui, MAX_NODES, WidgetId, adopted, attached, moved};
use crate::store::NodeId;
use crate::style::{Align, Area, Color, Direction, Style};
use crate::widget::{Node, Widget};

verus! {

/// The parent entries after a node `node` has been built with the children
/// `children` under the parent `parent`.
pub open spec fn built_parents(
    parents: Map<NodeId, NodeId>,
    node: NodeId,
    children: Seq<NodeId>,
    parent: Option<NodeId>,
) -> Map<NodeId, NodeId> {
    let with_children = if children.len() > 0 {
        adopted(parents, node, children)
    } else {
        parents
    };
    match parent {
        Some(p) => with_children.insert(node, p),
        None => with_children,
    }
}

/// The child lists after a node `node` has been built with the children
/// `children` under the parent `parent`: `children` is its list, if there
/// are any, and it is the last child of `parent`, if there is one.
pub open spec fn built_children(
    lists: Map<NodeId, Seq<NodeId>>,
    node: NodeId,
    children: Seq<NodeId>,
    parent: Option<NodeId>,
) -> Map<NodeId, Seq<NodeId>> {
    let with_children = if children.len() > 0 {
        lists.insert(node, children)
    } else {
        lists
    };
    match parent {
        Some(p) => attached(with_children, p, node),
        None => with_children,
    }
}

/// Whether a node can be built in `gui` with the children `children` under
/// the parent `parent`: there is room for it, and they are nodes of `gui`.
pub open spec fn can_build(gui: &Gui, children: Seq<NodeId>, parent: Option<NodeId>) -> bool {
    &&& gui.wf()
    &&& gui.nodes().dom().len() < MAX_NODES
    &&& forall|i: int| 0 <= i < children.len() ==> gui.nodes().contains_key(#[trigger] children[i])
    &&& match parent {
        Some(p) => gui.nodes().contains_key(p),
        None => true,
    }
}

/// Collects what a node is to be made of.
pub struct NodeBuilder {
    style: Style,
    parent: Option<NodeId>,
    children: Vec<NodeId>,
}

impl NodeBuilder {
    pub closed spec fn spec_style(&self) -> Style {
        self.style
    }

    pub closed spec fn spec_parent(&self) -> Option<NodeId> {
        self.parent
    }

    pub closed spec fn spec_children(&self) -> Seq<NodeId> {
        self.children@
    }

    /// A builder for a node in the default style, without parent and
    /// without children.
    pub fn new() -> (r: NodeBuilder)
        ensures
            r.spec_style() == Style::spec_default(),
            r.spec_parent() is None,
            r.spec_children() == Seq::<NodeId>::empty(),
    {
        NodeBuilder { style: Style::new(), parent: None, children: Vec::new() }
    }

    /// With `style` as the style.
    pub fn style(self, style: Style) -> (r: NodeBuilder)
        ensures
            r.spec_style() == style,
            r.spec_parent() == self.spec_parent(),
            r.spec_children() == self.spec_children(),
    {
        let mut builder = self;
        builder.style = style;
        builder
    }

    /// With the style that `f` makes of the present one.
    pub fn modify_style<F: FnOnce(Style) -> Style>(self, f: F) -> (r: NodeBuilder)
        requires
            call_requires(f, (self.spec_style(),)),
        ensures
            call_ensures(f, (self.spec_style(),), r.spec_style()),
            r.spec_parent() == self.spec_parent(),
            r.spec_children() == self.spec_children(),
    {
        let mut builder = self;
        builder.style = f(builder.style);
        builder
    }

    /// With `parent` as the parent.
    pub fn parent(self, parent: NodeId) -> (r: NodeBuilder)
        ensures
            r.spec_style() == self.spec_style(),
            r.spec_parent() == Some(parent),
            r.spec_children() == self.spec_children(),
    {
        let mut builder = self;
        builder.parent = Some(parent);
        builder
    }

    /// With `child` as one more child, after those there are.
    pub fn child(self, child: NodeId) -> (r: NodeBuilder)
        ensures
            r.spec_style() == self.spec_style(),
            r.spec_parent() == self.spec_parent(),
            r.spec_children() == self.spec_children().push(child),
    {
        let mut builder = self;
        builder.children.push(child);
        builder
    }

    /// With every handle in `list` as one more child, in the order of
    /// `list`.
    pub fn children(self, list: Vec<NodeId>) -> (r: NodeBuilder)
        ensures
            r.spec_style() == self.spec_style(),
            r.spec_parent() == self.spec_parent(),
            r.spec_children() == self.spec_children() + list@,
    {
        let mut builder = self;
        let mut list = list;
        builder.children.append(&mut list);
        builder
    }

    /// Gives the node `node`, which was just made, its children and its
    /// parent.
    #[verifier::rlimit(40)]
    fn attach(gui: &mut Gui, node: NodeId, children: Vec<NodeId>, parent: Option<NodeId>)
        requires
            old(gui).wf(),
            old(gui).nodes().contains_key(node),
            !old(gui).parent_map().contains_key(node),
            forall|i: int|
                0 <= i < children@.len() ==> old(gui).nodes().contains_key(#[trigger] children@[i])
                    && children@[i] != node,
            match parent {
                Some(p) => old(gui).nodes().contains_key(p),
                None => true,
            },
        ensures
            final(gui).wf(),
            final(gui).nodes() == old(gui).nodes(),
            old(gui).same_state(final(gui)),
            final(gui).parent_map() == built_parents(old(gui).parent_map(), node, children@, parent),
            final(gui).child_map() == built_children(old(gui).child_map(), node, children@, parent),
            final(gui).spec_needs_layout() == (old(gui).spec_needs_layout() || children@.len() > 0
                || parent is Some),
            old(gui).spec_linked() && !old(gui).child_map().contains_key(node) && (forall|i: int|
                0 <= i < children@.len() ==> !old(gui).parent_map().contains_key(#[trigger] children@[i]))
                ==> final(gui).spec_linked(),
    {
        let ghost list = children@;
        gui.set_node_children(node, children);
        proof {
            if list.len() > 0 && gui.parent_map().contains_key(node) {
                assert(list.contains(node));
                let k = choose|k: int| 0 <= k < list.len() && list[k] == node;
                assert(list[k] != node);
            }
        }
        match parent {
            Some(p) => {
                gui.add_child(p, node);
            },
            None => {},
        }
    }

    /// Makes the node in `gui`, with the children as its child list, and as
    /// the last child of the parent, if there is one. Returns its handle.
    #[verifier::rlimit(40)]
    pub fn build(self, gui: &mut Gui) -> (r: NodeId)
        requires
            can_build(old(gui), self.spec_children(), self.spec_parent()),
        ensures
            final(gui).wf(),
            !old(gui).nodes().contains_key(r),
            final(gui).nodes() == old(gui).nodes().insert(
                r,
                Node { style: self.spec_style(), area: Area::spec_new(), widget: None },
            ),
            old(gui).same_state(final(gui)),
            final(gui).parent_map() == built_parents(
                old(gui).parent_map(),
                r,
                self.spec_children(),
                self.spec_parent(),
            ),
            final(gui).child_map() == built_children(
                old(gui).child_map(),
                r,
                self.spec_children(),
                self.spec_parent(),
            ),
            final(gui).spec_needs_layout() == (old(gui).spec_needs_layout() || self.spec_children().len() > 0
                || self.spec_parent() is Some),
            old(gui).spec_linked() && (forall|i: int|
                0 <= i < self.spec_children().len() ==> !old(gui).parent_map().contains_key(
                    #[trigger] self.spec_children()[i],
                )) ==> final(gui).spec_linked(),
    {
        let node = gui.create_node(self.style);
        Self::attach(gui, node, self.children, self.parent);
        node
    }

    /// Makes the node in `gui` with the widget `widget`, if there is one, as
    /// `build` does without one. Returns its handle.
    #[verifier::rlimit(40)]
    pub fn build_with(self, gui: &mut Gui, widget: Option<Box<dyn Widget>>) -> (r: NodeId)
        requires
            can_build(old(gui), self.spec_children(), self.spec_parent()),
        ensures
            final(gui).wf(),
            !old(gui).nodes().contains_key(r),
            final(gui).nodes().dom() =~= old(gui).nodes().dom().insert(r),
            forall|other: NodeId| #[trigger]
                old(gui).nodes().contains_key(other) ==> final(gui).nodes()[other] == old(gui).nodes()[other],
            final(gui).nodes()[r].style == self.spec_style(),
            final(gui).nodes()[r].area == Area::spec_new(),
            final(gui).nodes()[r].widget == widget,
            old(gui).same_state(final(gui)),
            final(gui).parent_map() == built_parents(
                old(gui).parent_map(),
                r,
                self.spec_children(),
                self.spec_parent(),
            ),
            final(gui).child_map() == built_children(
                old(gui).child_map(),
                r,
                self.spec_children(),
                self.spec_parent(),
            ),
            final(gui).spec_needs_layout() == (old(gui).spec_needs_layout() || self.spec_children().len() > 0
                || self.spec_parent() is Some),
            old(gui).spec_linked() && (forall|i: int|
                0 <= i < self.spec_children().len() ==> !old(gui).parent_map().contains_key(
                    #[trigger] self.spec_children()[i],
                )) ==> final(gui).spec_linked(),
    {
        let node = gui.insert(self.style, widget);
        Self::attach(gui, node, self.children, self.parent);
        node
    }

    /// Makes the node in `gui` with the widget `widget`, as `build` does
    /// without one. Returns its handle, which remembers the kind of the
    /// widget.
    pub fn build_widget<W: Widget + 'static>(self, gui: &mut Gui, widget: W) -> (r: WidgetId<W>)
        requires
            can_build(old(gui), self.spec_children(), self.spec_parent()),
        ensures
            final(gui).wf(),
            !old(gui).nodes().contains_key(r.id()),
            final(gui).nodes().dom() =~= old(gui).nodes().dom().insert(r.id()),
            forall|other: NodeId| #[trigger]
                old(gui).nodes().contains_key(other) ==> final(gui).nodes()[other] == old(gui).nodes()[other],
            final(gui).nodes()[r.id()].style == self.spec_style(),
            final(gui).nodes()[r.id()].area == Area::spec_new(),
            final(gui).nodes()[r.id()].widget is Some,
            old(gui).same_state(final(gui)),
            final(gui).parent_map() == built_parents(
                old(gui).parent_map(),
                r.id(),
                self.spec_children(),
                self.spec_parent(),
            ),
            final(gui).child_map() == built_children(
                old(gui).child_map(),
                r.id(),
                self.spec_children(),
                self.spec_parent(),
            ),
            old(gui).spec_linked() && (forall|i: int|
                0 <= i < self.spec_children().len() ==> !old(gui).parent_map().contains_key(
                    #[trigger] self.spec_children()[i],
                )) ==> final(gui).spec_linked(),
    {
        let boxed: Box<dyn Widget> = Box::new(widget);
        let held = Some(boxed);
        let node = self.build_with(gui, held);
        WidgetId::new(node)
    }

    /// Makes the node in `gui` with the button `button`, as `build` does
    /// without a widget. Returns its handle.
    pub fn build_button(self, gui: &mut Gui, button: Button) -> (r: WidgetId<Button>)
        requires
            can_build(old(gui), self.spec_children(), self.spec_parent()),
        ensures
            final(gui).wf(),
            !old(gui).nodes().contains_key(r.id()),
            final(gui).nodes().dom() =~= old(gui).nodes().dom().insert(r.id()),
            forall|other: NodeId| #[trigger]
                old(gui).nodes().contains_key(other) ==> final(gui).nodes()[other] == old(gui).nodes()[other],
            final(gui).nodes()[r.id()].style == self.spec_style(),
            final(gui).nodes()[r.id()].area == Area::spec_new(),
            final(gui).nodes()[r.id()].widget is Some,
            final(gui).button_at(r.id()) == Some(button),
            old(gui).same_state(final(gui)),
            final(gui).parent_map() == built_parents(
                old(gui).parent_map(),
                r.id(),
                self.spec_children(),
                self.spec_parent(),
            ),
            final(gui).child_map() == built_children(
                old(gui).child_map(),
                r.id(),
                self.spec_children(),
                self.spec_parent(),
            ),
            old(gui).spec_linked() && (forall|i: int|
                0 <= i < self.spec_children().len() ==> !old(gui).parent_map().contains_key(
                    #[trigger] self.spec_children()[i],
                )) ==> final(gui).spec_linked(),
    {
        let boxed: Box<dyn Widget> = Box::new(button);
        let held = Some(boxed);
        let node = self.build_with(gui, held);
        WidgetId::new(node)
    }
}

impl Default for NodeBuilder {
    fn default() -> (r: NodeBuilder)
        ensures
            r.spec_style() == Style::spec_default(),
            r.spec_parent() is None,
            r.spec_children() == Seq::<NodeId>::empty(),
    {
        NodeBuilder::new()
    }
}

impl Button {
    pub open spec fn spec_default_style() -> Style {
        Style {
            min_size: Size { width: 128, height: 32 },
            cross_align: Align::Center,
            ..Style::spec_default()
        }
    }

    /// The style of a button unless it is given another: at least 128 by
    /// 32, the content centred across the main axis.
    pub fn default_style() -> (r: Style)
        ensures
            r == Button::spec_default_style(),
    {
        let mut style = Style::new();
        style.min_size = Size::new(128, 32);
        style.cross_align = Align::Center;
        style
    }
}

impl Button {
    /// Makes a button in the default style that runs the callback
    /// `on_clicked`, with the node `label` as its child if there is one.
    /// Returns its handle.
    pub fn create(gui: &mut Gui, label: Option<NodeId>, on_clicked: u64) -> (r: WidgetId<Button>)
        requires
            can_build(old(gui), label_list(label), None),
        ensures
            final(gui).wf(),
            !old(gui).nodes().contains_key(r.id()),
            final(gui).nodes().dom() =~= old(gui).nodes().dom().insert(r.id()),
            forall|other: NodeId| #[trigger]
                old(gui).nodes().contains_key(other) ==> final(gui).nodes()[other] == old(gui).nodes()[other],
            final(gui).nodes()[r.id()].style == Button::spec_default_style(),
            final(gui).nodes()[r.id()].widget is Some,
            final(gui).button_at(r.id()) == Some(
                Button {
                    button_style: ButtonStyle::Normal,
                    state: ButtonState::Normal,
                    hotkey: None,
                    toggled: false,
                    on_clicked: ButtonEvent::Normal(on_clicked),
                },
            ),
            old(gui).same_state(final(gui)),
            final(gui).parent_map() == built_parents(old(gui).parent_map(), r.id(), label_list(label), None),
            final(gui).child_map() == built_children(old(gui).child_map(), r.id(), label_list(label), None),
    {
        match label {
            Some(node) => ButtonBuilder::new().child(node).build(gui, on_clicked),
            None => ButtonBuilder::new().build(gui, on_clicked),
        }
    }

    /// Makes a toggle button in the default style that tells the callback
    /// `on_clicked` its new state, with the node `label` as its child if
    /// there is one. Returns its handle.
    pub fn create_toggle(gui: &mut Gui, label: Option<NodeId>, on_clicked: u64) -> (r: WidgetId<Button>)
        requires
            can_build(old(gui), label_list(label), None),
        ensures
            final(gui).wf(),
            !old(gui).nodes().contains_key(r.id()),
            final(gui).nodes().dom() =~= old(gui).nodes().dom().insert(r.id()),
            forall|other: NodeId| #[trigger]
                old(gui).nodes().contains_key(other) ==> final(gui).nodes()[other] == old(gui).nodes()[other],
            final(gui).nodes()[r.id()].style == Button::spec_default_style(),
            final(gui).nodes()[r.id()].widget is Some,
            final(gui).button_at(r.id()) == Some(
                Button {
                    button_style: ButtonStyle::Normal,
                    state: ButtonState::Normal,
                    hotkey: None,
                    toggled: false,
                    on_clicked: ButtonEvent::Toggle(on_clicked),
                },
            ),
            old(gui).same_state(final(gui)),
            final(gui).parent_map() == built_parents(old(gui).parent_map(), r.id(), label_list(label), None),
            final(gui).child_map() == built_children(old(gui).child_map(), r.id(), label_list(label), None),
    {
        match label {
            Some(node) => ButtonBuilder::new().child(node).build_toggle(gui, on_clicked),
            None => ButtonBuilder::new().build_toggle(gui, on_clicked),
        }
    }
}

/// The children of a button with the label `label`: the label, if there is
/// one.
pub open spec fn label_list(label: Option<NodeId>) -> Seq<NodeId> {
    match label {
        Some(node) => seq![node],
        None => Seq::empty(),
    }
}

/// Collects what a button is to be made of.
pub struct ButtonBuilder {
    node: NodeBuilder,
    button_style: ButtonStyle,
    enabled: bool,
    toggled: bool,
    hotkey: Option<Hotkey>,
}

impl ButtonBuilder {
    /// The builder of the button's node.
    pub closed spec fn spec_node(&self) -> NodeBuilder {
        self.node
    }

    pub closed spec fn spec_button_style(&self) -> ButtonStyle {
        self.button_style
    }

    pub closed spec fn spec_enabled(&self) -> bool {
        self.enabled
    }

    pub closed spec fn spec_toggled(&self) -> bool {
        self.toggled
    }

    pub closed spec fn spec_hotkey(&self) -> Option<Hotkey> {
        self.hotkey
    }

    /// Whether `after` differs from `self` in the node at most.
    pub open spec fn same_button(&self, after: &ButtonBuilder) -> bool {
        &&& after.spec_button_style() == self.spec_button_style()
        &&& after.spec_enabled() == self.spec_enabled()
        &&& after.spec_toggled() == self.spec_toggled()
        &&& after.spec_hotkey() == self.spec_hotkey()
    }

    /// A builder for an enabled button in the normal look and the default
    /// button style, not toggled, without hotkey, parent or children.
    pub fn new() -> (r: ButtonBuilder)
        ensures
            r.spec_node().spec_style() == Button::spec_default_style(),
            r.spec_node().spec_parent() is None,
            r.spec_node().spec_children() == Seq::<NodeId>::empty(),
            r.spec_button_style() == ButtonStyle::Normal,
            r.spec_enabled(),
            !r.spec_toggled(),
            r.spec_hotkey() is None,
    {
        ButtonBuilder {
            node: NodeBuilder::new().style(Button::default_style()),
            button_style: ButtonStyle::Normal,
            enabled: true,
            toggled: false,
            hotkey: None,
        }
    }

    /// With the style that `f` makes of the present one.
    pub fn modify_style<F: FnOnce(Style) -> Style>(self, f: F) -> (r: ButtonBuilder)
        requires
            call_requires(f, (self.spec_node().spec_style(),)),
        ensures
            call_ensures(f, (self.spec_node().spec_style(),), r.spec_node().spec_style()),
            r.spec_node().spec_parent() == self.spec_node().spec_parent(),
            r.spec_node().spec_children() == self.spec_node().spec_children(),
            self.same_button(&r),
    {
        ButtonBuilder {
            node: self.node.modify_style(f),
            button_style: self.button_style,
            enabled: self.enabled,
            toggled: self.toggled,
            hotkey: self.hotkey,
        }
    }

    /// With `parent` as the parent.
    pub fn parent(self, parent: NodeId) -> (r: ButtonBuilder)
        ensures
            r.spec_node().spec_style() == self.spec_node().spec_style(),
            r.spec_node().spec_parent() == Some(parent),
            r.spec_node().spec_children() == self.spec_node().spec_children(),
            self.same_button(&r),
    {
        ButtonBuilder {
            node: self.node.parent(parent),
            button_style: self.button_style,
            enabled: self.enabled,
            toggled: self.toggled,
            hotkey: self.hotkey,
        }
    }

    /// With `child` as one more child: the node of a label, for one.
    pub fn child(self, child: NodeId) -> (r: ButtonBuilder)
        ensures
            r.spec_node().spec_style() == self.spec_node().spec_style(),
            r.spec_node().spec_parent() == self.spec_node().spec_parent(),
            r.spec_node().spec_children() == self.spec_node().spec_children().push(child),
            self.same_button(&r),
    {
        ButtonBuilder {
            node: self.node.child(child),
            button_style: self.button_style,
            enabled: self.enabled,
            toggled: self.toggled,
            hotkey: self.hotkey,
        }
    }

    /// With `button_style` as the look.
    pub fn button_style(self, button_style: ButtonStyle) -> (r: ButtonBuilder)
        ensures
            r.spec_node() == self.spec_node(),
            r.spec_button_style() == button_style,
            r.spec_enabled() == self.spec_enabled(),
            r.spec_toggled() == self.spec_toggled(),
            r.spec_hotkey() == self.spec_hotkey(),
    {
        let mut builder = self;
        builder.button_style = button_style;
        builder
    }

    /// Enabled or not.
    pub fn enabled(self, enabled: bool) -> (r: ButtonBuilder)
        ensures
            r.spec_node() == self.spec_node(),
            r.spec_button_style() == self.spec_button_style(),
            r.spec_enabled() == enabled,
            r.spec_toggled() == self.spec_toggled(),
            r.spec_hotkey() == self.spec_hotkey(),
    {
        let mut builder = self;
        builder.enabled = enabled;
        builder
    }

    /// Toggled on or not.
    pub fn toggled(self, toggled: bool) -> (r: ButtonBuilder)
        ensures
            r.spec_node() == self.spec_node(),
            r.spec_button_style() == self.spec_button_style(),
            r.spec_enabled() == self.spec_enabled(),
            r.spec_toggled() == toggled,
            r.spec_hotkey() == self.spec_hotkey(),
    {
        let mut builder = self;
        builder.toggled = toggled;
        builder
    }

    /// With `hotkey` as the key that clicks the button.
    pub fn hotkey(self, hotkey: Hotkey) -> (r: ButtonBuilder)
        ensures
            r.spec_node() == self.spec_node(),
            r.spec_button_style() == self.spec_button_style(),
            r.spec_enabled() == self.spec_enabled(),
            r.spec_toggled() == self.spec_toggled(),
            r.spec_hotkey() == Some(hotkey),
    {
        let mut builder = self;
        builder.hotkey = Some(hotkey);
        builder
    }

    /// The button `button` as the builder wants it enabled and keyed.
    pub open spec fn finished(&self, button: Button) -> Button {
        Button { hotkey: self.spec_hotkey(), ..button.spec_set_enabled(self.spec_enabled()) }
    }

    /// The button that `build` makes for the callback `on_clicked`.
    pub open spec fn built(&self, on_clicked: u64) -> Button {
        self.finished(
            Button {
                button_style: self.spec_button_style(),
                state: ButtonState::Normal,
                hotkey: None,
                toggled: false,
                on_clicked: ButtonEvent::Normal(on_clicked),
            },
        )
    }

    /// The button that `build_toggle` makes for the callback `on_clicked`.
    pub open spec fn built_toggle(&self, on_clicked: u64) -> Button {
        self.finished(
            Button {
                button_style: self.spec_button_style(),
                state: ButtonState::Normal,
                hotkey: None,
                toggled: self.spec_toggled(),
                on_clicked: ButtonEvent::Toggle(on_clicked),
            },
        )
    }

    /// The button that `build_exclusive` makes as the next member of
    /// `group`, which is registered as `id`.
    pub open spec fn built_exclusive(&self, id: GroupId, group: ExclusiveGroup) -> Button {
        self.finished(
            Button {
                button_style: self.spec_button_style(),
                state: ButtonState::Normal,
                hotkey: None,
                toggled: self.spec_toggled(),
                on_clicked: ButtonEvent::Exclusive {
                    group: id,
                    index: group.members().len() as usize,
                    allow_deselect: group.spec_allow_deselect(),
                    on_selected: group.spec_on_selected(),
                },
            },
        )
    }

    /// Applies what the builder holds to `button`.
    fn finish(&self, button: Button) -> (r: Button)
        ensures
            r == self.finished(button),
    {
        let mut button = button;
        button.set_enabled(self.enabled);
        button.hotkey = self.hotkey;
        button
    }

    /// Makes a button that runs the callback `on_clicked`. Returns its
    /// handle.
    pub fn build(self, gui: &mut Gui, on_clicked: u64) -> (r: WidgetId<Button>)
        requires
            can_build(old(gui), self.spec_node().spec_children(), self.spec_node().spec_parent()),
        ensures
            final(gui).wf(),
            !old(gui).nodes().contains_key(r.id()),
            final(gui).nodes().dom() =~= old(gui).nodes().dom().insert(r.id()),
            forall|other: NodeId| #[trigger]
                old(gui).nodes().contains_key(other) ==> final(gui).nodes()[other] == old(gui).nodes()[other],
            final(gui).nodes()[r.id()].style == self.spec_node().spec_style(),
            final(gui).nodes()[r.id()].widget is Some,
            final(gui).button_at(r.id()) == Some(self.built(on_clicked)),
            old(gui).same_state(final(gui)),
            final(gui).parent_map() == built_parents(
                old(gui).parent_map(),
                r.id(),
                self.spec_node().spec_children(),
                self.spec_node().spec_parent(),
            ),
            final(gui).child_map() == built_children(
                old(gui).child_map(),
                r.id(),
                self.spec_node().spec_children(),
                self.spec_node().spec_parent(),
            ),
    {
        let button = self.finish(Button::new(self.button_style, on_clicked));
        self.node.build_button(gui, button)
    }

    /// Makes a button that toggles and tells the callback `on_clicked` its
    /// new state. Returns its handle.
    pub fn build_toggle(self, gui: &mut Gui, on_clicked: u64) -> (r: WidgetId<Button>)
        requires
            can_build(old(gui), self.spec_node().spec_children(), self.spec_node().spec_parent()),
        ensures
            final(gui).wf(),
            !old(gui).nodes().contains_key(r.id()),
            final(gui).nodes().dom() =~= old(gui).nodes().dom().insert(r.id()),
            forall|other: NodeId| #[trigger]
                old(gui).nodes().contains_key(other) ==> final(gui).nodes()[other] == old(gui).nodes()[other],
            final(gui).nodes()[r.id()].style == self.spec_node().spec_style(),
            final(gui).nodes()[r.id()].widget is Some,
            final(gui).button_at(r.id()) == Some(self.built_toggle(on_clicked)),
            old(gui).same_state(final(gui)),
            final(gui).parent_map() == built_parents(
                old(gui).parent_map(),
                r.id(),
                self.spec_node().spec_children(),
                self.spec_node().spec_parent(),
            ),
            final(gui).child_map() == built_children(
                old(gui).child_map(),
                r.id(),
                self.spec_node().spec_children(),
                self.spec_node().spec_parent(),
            ),
    {
        let button = self.finish(Button::new_toggle(self.button_style, self.toggled, on_clicked));
        self.node.build_button(gui, button)
    }

    /// Makes a button that is the next member of the exclusive group
    /// `group`. Returns its handle, or nothing, with `gui` unchanged, if
    /// there is no such group.
    pub fn build_exclusive(self, gui: &mut Gui, group: GroupId) -> (r: Option<WidgetId<Button>>)
        requires
            can_build(old(gui), self.spec_node().spec_children(), self.spec_node().spec_parent()),
        ensures
            r is Some <==> group.index < old(gui).spec_groups().len(),
            r is None ==> *final(gui) == *old(gui),
            match r {
                Some(id) => {
                    &&& final(gui).wf()
                    &&& !old(gui).nodes().contains_key(id.id())
                    &&& final(gui).nodes().dom() =~= old(gui).nodes().dom().insert(id.id())
                    &&& forall|other: NodeId| #[trigger]
                        old(gui).nodes().contains_key(other) ==> final(gui).nodes()[other] == old(gui).nodes()[other]
                    &&& final(gui).nodes()[id.id()].style == self.spec_node().spec_style()
                    &&& final(gui).nodes()[id.id()].widget is Some
                    &&& final(gui).button_at(id.id()) == Some(
                        self.built_exclusive(group, old(gui).spec_groups()[group.index as int]),
                    )
                    &&& final(gui).parent_map() == built_parents(
                        old(gui).parent_map(),
                        id.id(),
                        self.spec_node().spec_children(),
                        self.spec_node().spec_parent(),
                    )
                    &&& final(gui).child_map() == built_children(
                        old(gui).child_map(),
                        id.id(),
                        self.spec_node().spec_children(),
                        self.spec_node().spec_parent(),
                    )
                    &&& final(gui).spec_groups().len() == old(gui).spec_groups().len()
                    &&& final(gui).spec_groups()[group.index as int].members() == old(gui).spec_groups()[group.index as int].members().push(id.id())
                    &&& final(gui).spec_groups()[group.index as int].spec_allow_deselect() == old(gui).spec_groups()[group.index as int].spec_allow_deselect()
                    &&& final(gui).spec_groups()[group.index as int].spec_on_selected() == old(gui).spec_groups()[group.index as int].spec_on_selected()
                    &&& forall|i: int|
                        0 <= i < old(gui).spec_groups().len() && i != group.index ==> final(gui).spec_groups()[i]
                            == #[trigger] old(gui).spec_groups()[i]
                },
                None => true,
            },
    {
        let made = match gui.get_group(group) {
            Some(found) => Some(Button::new_exclusive(self.button_style, self.toggled, group, found)),
            None => None,
        };
        match made {
            Some(button) => {
                let button = self.finish(button);
                let id = self.node.build_button(gui, button);
                gui.join_group(group, id.node());
                Some(id)
            },
            None => None,
        }
    }
}

impl Default for ButtonBuilder {
    fn default() -> (r: ButtonBuilder)
        ensures
            r.spec_node().spec_style() == Button::spec_default_style(),
            r.spec_button_style() == ButtonStyle::Normal,
            r.spec_enabled(),
            !r.spec_toggled(),
            r.spec_hotkey() is None,
    {
        ButtonBuilder::new()
    }
}

/// Collects what a row of tabs over a content node is to be made of.
pub struct TabsBuilder {
    parent: Option<NodeId>,
    group: GroupId,
    tabs: NodeId,
    content: Option<NodeId>,
}

impl TabsBuilder {
    pub closed spec fn spec_parent(&self) -> Option<NodeId> {
        self.parent
    }

    /// The exclusive group that the tabs are members of.
    pub closed spec fn spec_group(&self) -> GroupId {
        self.group
    }

    /// The node that holds the tabs.
    pub closed spec fn spec_tabs(&self) -> NodeId {
        self.tabs
    }

    pub closed spec fn spec_content(&self) -> Option<NodeId> {
        self.content
    }

    /// The style of the node that holds the tabs: a row from the start, four
    /// apart.
    pub open spec fn tabs_style() -> Style {
        Style { main_align: Align::Start, gap: 4, ..Style::spec_default() }
    }

    /// The style of the node that holds tabs and content: a column from the
    /// bottom, the tabs overlapping the content by one.
    pub open spec fn container_style() -> Style {
        Style { direction: Direction::ColumnReverse, gap: -1i32, ..Style::spec_default() }
    }

    /// The style of the content: its own, with a border of one all around in
    /// the border colour of the theme.
    pub open spec fn content_style(style: Style) -> Style {
        Style { border: SideOffsets::spec_new_all_same(1), border_color: Some(Color::Border), ..style }
    }

    /// The parent entries and the child lists after the whole has been
    /// built: the content, if there is one, and then the node that holds the
    /// tabs are made children of `container`, and `container` a child of
    /// the parent, if there is one.
    pub open spec fn built(
        parents: Map<NodeId, NodeId>,
        children: Map<NodeId, Seq<NodeId>>,
        container: NodeId,
        tabs: NodeId,
        content: Option<NodeId>,
        parent: Option<NodeId>,
    ) -> (Map<NodeId, NodeId>, Map<NodeId, Seq<NodeId>>) {
        let with_content = match content {
            Some(node) => moved(parents, children, container, node),
            None => (parents, children),
        };
        let with_tabs = moved(with_content.0, with_content.1, container, tabs);
        match parent {
            Some(node) => moved(with_tabs.0, with_tabs.1, node, container),
            None => with_tabs,
        }
    }

    /// A builder for tabs that are members of `group`. The node that will
    /// hold the tabs is made at once.
    pub fn new(gui: &mut Gui, group: GroupId) -> (r: TabsBuilder)
        requires
            old(gui).wf(),
            old(gui).nodes().dom().len() < MAX_NODES,
        ensures
            final(gui).wf(),
            !old(gui).nodes().contains_key(r.spec_tabs()),
            final(gui).nodes() == old(gui).nodes().insert(
                r.spec_tabs(),
                Node { style: TabsBuilder::tabs_style(), area: Area::spec_new(), widget: None },
            ),
            old(gui).same_shape(final(gui)),
            final(gui).spec_needs_layout() == old(gui).spec_needs_layout(),
            r.spec_parent() is None,
            r.spec_content() is None,
            r.spec_group() == group,
    {
        let mut style = Style::new();
        style.main_align = Align::Start;
        style.gap = 4;
        let tabs = gui.create_node(style);
        TabsBuilder { parent: None, group, tabs, content: None }
    }

    /// With `parent` as the parent of the whole.
    pub fn parent(self, parent: NodeId) -> (r: TabsBuilder)
        ensures
            r.spec_parent() == Some(parent),
            r.spec_group() == self.spec_group(),
            r.spec_tabs() == self.spec_tabs(),
            r.spec_content() == self.spec_content(),
    {
        let mut builder = self;
        builder.parent = Some(parent);
        builder
    }

    /// With `content` as the node under the tabs.
    pub fn content(self, content: NodeId) -> (r: TabsBuilder)
        ensures
            r.spec_parent() == self.spec_parent(),
            r.spec_group() == self.spec_group(),
            r.spec_tabs() == self.spec_tabs(),
            r.spec_content() == Some(content),
    {
        let mut builder = self;
        builder.content = Some(content);
        builder
    }

    /// The node that holds the tabs.
    pub fn tabs_node(&self) -> (r: NodeId)
        ensures
            r == self.spec_tabs(),
    {
        self.tabs
    }

    /// The button of a tab that joins `group`, which is registered as `id`,
    /// as its member `index`, toggled on if `active`.
    pub open spec fn tab_button(id: GroupId, group: ExclusiveGroup, index: nat, active: bool) -> Button {
        Button {
            button_style: ButtonStyle::Tab,
            state: ButtonState::Normal,
            hotkey: None,
            toggled: active,
            on_clicked: ButtonEvent::Exclusive {
                group: id,
                index: index as usize,
                allow_deselect: group.spec_allow_deselect(),
                on_selected: group.spec_on_selected(),
            },
        }
    }

    /// Adds a tab: a button in the tab look that is the next member of the
    /// group and the last child of the node that holds the tabs, toggled on
    /// if `active`, with the node `label` as its child if there is one.
    /// Returns the builder and the handle of the tab, or no handle, with
    /// `gui` unchanged, if the group is not registered.
    pub fn tab(self, gui: &mut Gui, label: Option<NodeId>, active: bool) -> (r: (
        TabsBuilder,
        Option<WidgetId<Button>>,
    ))
        requires
            old(gui).wf(),
            old(gui).nodes().dom().len() < MAX_NODES,
            old(gui).nodes().contains_key(self.spec_tabs()),
            match label {
                Some(node) => old(gui).nodes().contains_key(node),
                None => true,
            },
        ensures
            r.0.spec_parent() == self.spec_parent(),
            r.0.spec_group() == self.spec_group(),
            r.0.spec_tabs() == self.spec_tabs(),
            r.0.spec_content() == self.spec_content(),
            r.1 is Some <==> self.spec_group().index < old(gui).spec_groups().len(),
            r.1 is None ==> *final(gui) == *old(gui),
            match r.1 {
                Some(id) => {
                    &&& final(gui).wf()
                    &&& !old(gui).nodes().contains_key(id.id())
                    &&& final(gui).nodes().dom() =~= old(gui).nodes().dom().insert(id.id())
                    &&& forall|other: NodeId| #[trigger]
                        old(gui).nodes().contains_key(other) ==> final(gui).nodes()[other] == old(gui).nodes()[other]
                    &&& final(gui).spec_groups().len() == old(gui).spec_groups().len()
                    &&& final(gui).nodes()[id.id()].style == Button::spec_default_style()
                    &&& final(gui).nodes()[id.id()].widget is Some
                    &&& final(gui).button_at(id.id()) == Some(
                        Self::tab_button(
                            self.spec_group(),
                            old(gui).spec_groups()[self.spec_group().index as int],
                            old(gui).spec_groups()[self.spec_group().index as int].members().len(),
                            active,
                        ),
                    )
                    &&& final(gui).parent_map() == built_parents(
                        old(gui).parent_map(),
                        id.id(),
                        label_list(label),
                        Some(self.spec_tabs()),
                    )
                    &&& final(gui).child_map() == built_children(
                        old(gui).child_map(),
                        id.id(),
                        label_list(label),
                        Some(self.spec_tabs()),
                    )
                    &&& final(gui).spec_groups()[self.spec_group().index as int].members() == old(gui).spec_groups()[self.spec_group().index as int].members().push(id.id())
                    &&& final(gui).spec_groups()[self.spec_group().index as int].spec_allow_deselect() == old(gui).spec_groups()[self.spec_group().index as int].spec_allow_deselect()
                    &&& final(gui).spec_groups()[self.spec_group().index as int].spec_on_selected() == old(gui).spec_groups()[self.spec_group().index as int].spec_on_selected()
                    &&& forall|i: int|
                        0 <= i < old(gui).spec_groups().len() && i != self.spec_group().index ==> final(gui).spec_groups()[i] == #[trigger] old(gui).spec_groups()[i]
                },
                None => true,
            },
    {
        let mut button = ButtonBuilder::new().parent(self.tabs).button_style(ButtonStyle::Tab).toggled(active);
        match label {
            Some(node) => {
                button = button.child(node);
            },
            None => {},
        }
        let id = button.build_exclusive(gui, self.group);
        (self, id)
    }

    /// Whether `after` is `before` with `count` tabs more in the group
    /// registered as `id`, the one at position `active_index` of them toggled
    /// on: the group has `count` members more, after those it had, and each
    /// of them is a new node with the button of a tab that joined at its
    /// position.
    pub open spec fn tabbed(before: &Gui, after: &Gui, id: GroupId, count: nat, active_index: usize) -> bool {
        let was = before.spec_groups()[id.index as int];
        let now = after.spec_groups()[id.index as int];
        &&& now.members().len() == was.members().len() + count
        &&& now.spec_allow_deselect() == was.spec_allow_deselect()
        &&& now.spec_on_selected() == was.spec_on_selected()
        &&& forall|j: int| 0 <= j < was.members().len() ==> #[trigger] now.members()[j] == was.members()[j]
        &&& forall|i: int|
            0 <= i < count ==> {
                &&& !before.nodes().contains_key(#[trigger] now.members()[was.members().len() + i])
                &&& after.button_at(now.members()[was.members().len() + i]) == Some(
                    Self::tab_button(id, was, (was.members().len() + i) as nat, i == active_index),
                )
            }
    }

    /// Adds a tab for each of `labels`, in their order, the one at position
    /// `active_index` toggled on, as `tabbed` says. Without the group in
    /// `gui`, nothing happens.
    #[verifier::rlimit(40)]
    pub fn tabs(self, gui: &mut Gui, labels: &Vec<Option<NodeId>>, active_index: usize) -> (r: TabsBuilder)
        requires
            old(gui).wf(),
            old(gui).nodes().dom().len() + labels@.len() < MAX_NODES,
            old(gui).nodes().contains_key(self.spec_tabs()),
            forall|i: int|
                0 <= i < labels@.len() ==> match #[trigger] labels@[i] {
                    Some(node) => old(gui).nodes().contains_key(node),
                    None => true,
                },
        ensures
            r.spec_parent() == self.spec_parent(),
            r.spec_group() == self.spec_group(),
            r.spec_tabs() == self.spec_tabs(),
            r.spec_content() == self.spec_content(),
            final(gui).wf(),
            forall|other: NodeId| #[trigger]
                old(gui).nodes().contains_key(other) ==> final(gui).nodes().contains_key(other) && final(gui).nodes()[other] == old(gui).nodes()[other],
            final(gui).spec_groups().len() == old(gui).spec_groups().len(),
            self.spec_group().index >= old(gui).spec_groups().len() ==> *final(gui) == *old(gui),
            self.spec_group().index < old(gui).spec_groups().len() ==> final(gui).nodes().dom().len() == old(gui).nodes().dom().len() + labels@.len() && final(gui).spec_groups()[self.spec_group().index as int].members().len()
                == old(gui).spec_groups()[self.spec_group().index as int].members().len() + labels@.len(),
            self.spec_group().index < old(gui).spec_groups().len() ==> Self::tabbed(
                old(gui),
                final(gui),
                self.spec_group(),
                labels@.len(),
                active_index,
            ),
    {
        let mut builder = self;
        let mut i: usize = 0;
        let ghost tabs = self.spec_tabs();
        let ghost group = self.spec_group();
        while i < labels.len()
            invariant
                i <= labels.len(),
                builder.spec_parent() == self.spec_parent(),
                builder.spec_group() == group,
                builder.spec_tabs() == tabs,
                builder.spec_content() == self.spec_content(),
                gui.wf(),
                old(gui).wf(),
                old(gui).nodes().dom().len() + labels@.len() < MAX_NODES,
                forall|k: int|
                    0 <= k < labels@.len() ==> match #[trigger] labels@[k] {
                        Some(node) => old(gui).nodes().contains_key(node),
                        None => true,
                    },
                old(gui).nodes().contains_key(tabs),
                forall|other: NodeId| #[trigger]
                    old(gui).nodes().contains_key(other) ==> gui.nodes().contains_key(other) && gui.nodes()[other]
                        == old(gui).nodes()[other],
                gui.spec_groups().len() == old(gui).spec_groups().len(),
                group.index >= old(gui).spec_groups().len() ==> *gui == *old(gui),
                group.index < old(gui).spec_groups().len() ==> gui.nodes().dom().len() == old(gui).nodes().dom().len() + i && gui.spec_groups()[group.index as int].members().len() == old(gui).spec_groups()[group.index as int].members().len() + i,
                group.index < old(gui).spec_groups().len() ==> Self::tabbed(old(gui), gui, group, i as nat, active_index),
            decreases labels.len() - i,
        {
            let label = labels[i];
            let ghost before = gui.nodes();
            assert(match labels@[i as int] {
                Some(node) => old(gui).nodes().contains_key(node),
                None => true,
            });
            let ghost earlier = gui.spec_groups()[group.index as int].members();
            let (next, made) = builder.tab(gui, label, i == active_index);
            builder = next;
            proof {
                if group.index < old(gui).spec_groups().len() {
                    assert(gui.nodes().dom().len() == before.dom().len() + 1);
                    let was = old(gui).spec_groups()[group.index as int];
                    let now = gui.spec_groups()[group.index as int];
                    assert(now.members() == earlier.push(made->0.id()));
                    assert forall|k: int| 0 <= k < i + 1 implies {
                        &&& !old(gui).nodes().contains_key(#[trigger] now.members()[was.members().len() + k])
                        &&& gui.button_at(now.members()[was.members().len() + k]) == Some(
                            Self::tab_button(group, was, (was.members().len() + k) as nat, k == active_index),
                        )
                    } by {
                        if k < i {
                            let member = earlier[was.members().len() + k];
                            assert(now.members()[was.members().len() + k] == member);
                            assert(before.contains_key(member));
                        } else {
                            assert(now.members()[was.members().len() + k] == made->0.id());
                        }
                    }
                }
                assert forall|other: NodeId| #[trigger] old(gui).nodes().contains_key(other) implies gui.nodes().contains_key(
                    other,
                ) && gui.nodes()[other] == old(gui).nodes()[other] by {
                    assert(before.contains_key(other));
                }
            }
            i = i + 1;
        }
        builder
    }

    /// Makes the whole in `gui`: a container with the content, if there is
    /// one, and above it the node that holds the tabs. The content gets a
    /// border. The container becomes the last child of the parent, if there
    /// is one. Returns the handle of the container.
    #[verifier::rlimit(40)]
    pub fn build(self, gui: &mut Gui) -> (r: NodeId)
        requires
            old(gui).wf(),
            old(gui).nodes().dom().len() < MAX_NODES,
            old(gui).nodes().contains_key(self.spec_tabs()),
            match self.spec_content() {
                Some(content) => old(gui).nodes().contains_key(content) && content != self.spec_tabs(),
                None => true,
            },
            match self.spec_parent() {
                Some(parent) => old(gui).nodes().contains_key(parent),
                None => true,
            },
        ensures
            final(gui).wf(),
            old(gui).same_state(final(gui)),
            final(gui).spec_needs_layout(),
            !old(gui).nodes().contains_key(r),
            final(gui).nodes().dom() =~= old(gui).nodes().dom().insert(r),
            final(gui).nodes()[r] == (Node {
                style: TabsBuilder::container_style(),
                area: Area::spec_new(),
                widget: None,
            }),
            forall|other: NodeId|
                #![trigger old(gui).nodes()[other]]
                old(gui).nodes().contains_key(other) && Some(other) != self.spec_content() ==> final(gui).nodes()[other] == old(gui).nodes()[other],
            match self.spec_content() {
                Some(content) => final(gui).nodes()[content] == (Node {
                    style: TabsBuilder::content_style(old(gui).nodes()[content].style),
                    ..old(gui).nodes()[content]
                }) && final(gui).parent_map().contains_key(content) && final(gui).parent_map()[content] == r,
                None => true,
            },
            (final(gui).parent_map(), final(gui).child_map()) == TabsBuilder::built(
                old(gui).parent_map(),
                old(gui).child_map(),
                r,
                self.spec_tabs(),
                self.spec_content(),
                self.spec_parent(),
            ),
            final(gui).child_map().contains_key(r),
            final(gui).child_map()[r] == match self.spec_content() {
                Some(content) => seq![content, self.spec_tabs()],
                None => seq![self.spec_tabs()],
            },
            final(gui).parent_map().contains_key(self.spec_tabs()),
            final(gui).parent_map()[self.spec_tabs()] == r,
            match self.spec_parent() {
                Some(parent) => final(gui).parent_map().contains_key(r) && final(gui).parent_map()[r] == parent
                    && final(gui).child_map().contains_key(parent) && final(gui).child_map()[parent].last() == r,
                None => !final(gui).parent_map().contains_key(r),
            },
            old(gui).spec_linked() ==> final(gui).spec_linked(),
    {
        let mut style = Style::new();
        style.direction = Direction::ColumnReverse;
        style.gap = -1;
        let container = gui.create_node(style);
        assert(!gui.child_map().contains_key(container) && !gui.parent_map().contains_key(container)) by {
            if gui.child_map().dom().contains(container) {
                assert(old(gui).nodes().dom().contains(container));
            }
            if gui.parent_map().dom().contains(container) {
                assert(old(gui).nodes().dom().contains(container));
            }
        }
        match self.content {
            Some(content) => {
                let mut bordered = *gui.get_style(content);
                bordered.border = SideOffsets::new_all_same(1);
                bordered.border_color = Some(Color::Border);
                gui.set_style(content, bordered);
                gui.add_child(container, content);
                assert(gui.child_map()[container] == seq![content]);
            },
            None => {},
        }
        let ghost before_tabs = gui.child_map();
        let ghost tabs_parents = gui.parent_map();
        gui.add_child(container, self.tabs);
        proof {
            if self.content is Some {
                let list = seq![self.content->0];
                assert(list.drop_last() == Seq::<NodeId>::empty());
                assert(crate::gui::without(list.drop_last(), self.tabs) == Seq::<NodeId>::empty());
                assert(crate::gui::without(list, self.tabs) == list);
            }
            if self.content is Some {
                assert(gui.child_map()[container] == seq![self.content->0, self.tabs]);
            } else {
                assert(gui.child_map()[container] == seq![self.tabs]);
            }
        }
        match self.parent {
            Some(parent) => {
                gui.add_child(parent, container);
            },
            None => {},
        }
        proof {
            if self.content is Some {
                assert(gui.parent_map()[self.content->0] == container);
            }
        }
        container
    }
}

} // verus!
