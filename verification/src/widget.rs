//! The capability that the layout and the input dispatch ask of a widget, and
//! the node that carries one.

use vstd::prelude::*;
use crate::button::Button;
use crate::event::{EventExecutor, GuiInput, InputAction};
use crate::geometry::Size;
use crate::render::Canvas;
use crate::style::{Area, Style};

verus! {

/// The behaviour attached to a node.
///
/// Nothing is promised of what an implementation returns: the layout and the
/// dispatch are specified for every answer.
pub trait Widget {
    /// The button that this widget is, if it is one. Unless a widget says
    /// otherwise, it is none.
    open spec fn button(&self) -> Option<Button> {
        None
    }

    /// The widget as a button, if it is one.
    fn as_button(&self) -> (r: Option<&Button>)
        ensures
            match r {
                Some(button) => self.button() == Some(*button),
                None => self.button() is None,
            },
    ;

    /// The widget as a button, if it is one, to be changed in place.
    fn as_button_mut(&mut self) -> (r: Option<&mut Button>)
        ensures
            match r {
                Some(button) => old(self).button() == Some(*button) && final(self).button() == Some(
                    *final(button),
                ),
                None => old(self).button() is None && final(self).button() is None,
            },
    ;

    /// The size that the widget's own content needs when `available_space`
    /// is on offer. Unless a widget says otherwise, it needs none.
    fn measure(&mut self, available_space: Size) -> (size: Size)
        default_ensures
            size == Size::spec_zero(),
            final(self).button() == old(self).button(),
    {
        Size::zero()
    }

    /// Tells the widget where the finished layout put it.
    fn layout(&mut self, area: &Area)
        default_ensures
            final(self).button() == old(self).button(),
    {
    }

    /// Draws the widget into `renderer`. Unless a widget says otherwise, it
    /// draws nothing.
    fn draw(&mut self, renderer: &mut Canvas, area: &Area)
        default_ensures
            final(self).button() == old(self).button(),
            final(renderer).drawn() == old(renderer).drawn(),
    {
    }

    /// Offers the widget the input of the delivery under way. What the
    /// widget wants done about it goes into `executor`. Unless a widget says
    /// otherwise, it passes.
    fn input(&mut self, input: &GuiInput, executor: &mut EventExecutor, area: &Area) -> (action: InputAction)
        default_ensures
            action == InputAction::Pass,
            final(self).button() == old(self).button(),
            *final(executor) == *old(executor),
    {
        InputAction::Pass
    }
}

/// One node of the tree: its style, its computed area and, unless it is a
/// pure container, its widget.
pub struct Node {
    pub style: Style,
    pub area: Area,
    pub widget: Option<Box<dyn Widget>>,
}

impl Node {
    /// A node that was not laid out yet.
    pub fn new(style: Style, widget: Option<Box<dyn Widget>>) -> (r: Node)
        ensures
            r.style == style,
            r.area == Area::spec_new(),
            r.widget == widget,
    {
        Node { style, area: Area::new(), widget }
    }
}

impl Default for Node {
    fn default() -> (r: Node)
        ensures
            r.style == Style::spec_default(),
            r.area == Area::spec_new(),
            r.widget is None,
    {
        Node { style: Style::new(), area: Area::new(), widget: None }
    }
}

} // verus!
