//! The push button: how its state follows the input, and what a click puts
//! into the queue.

use vstd::prelude::*;
use crate::event::{EventExecutor, EventFn, EventParam, GroupId, GuiInput, Hotkey, InputAction};
use crate::geometry::{Rect, Size};
use crate::render::{Canvas, Draw};
use crate::style::Area;
use crate::widget::Widget;

verus! {

/// How a button is drawn.
#[derive(Clone, Copy, PartialEq, Eq, Structural, Debug)]
pub enum ButtonStyle {
    Normal,
    Confirm,
    Delete,
    Flat,
    Tab,
}

impl Default for ButtonStyle {
    fn default() -> (r: ButtonStyle)
        ensures
            r == ButtonStyle::Normal,
    {
        ButtonStyle::Normal
    }
}

/// What the pointer and the keys are doing to a button.
#[derive(Clone, Copy, PartialEq, Eq, Structural, Debug)]
pub enum ButtonState {
    Normal,
    /// The pointer is over the button.
    Hover,
    /// The button is held down.
    Press,
    /// The button takes no input.
    Disable,
}

/// What one input event did to a button.
#[derive(Clone, Copy, PartialEq, Eq, Structural, Debug)]
pub struct ButtonStateInput {
    /// The answer to the dispatcher.
    pub action: InputAction,
    /// The state is another than before.
    pub changed: bool,
    /// The button was clicked.
    pub clicked: bool,
}

/// Whether two optional hotkeys are the same.
pub fn same_hotkey(a: Option<Hotkey>, b: Option<Hotkey>) -> (r: bool)
    ensures
        r == (a == b),
{
    match a {
        Some(x) => match b {
            Some(y) => x.key == y.key && x.mod1 == y.mod1 && x.mod2 == y.mod2,
            None => false,
        },
        None => b.is_none(),
    }
}

impl ButtonState {
    /// Whether the pointer counts as over `rect`: it is inside, and no
    /// widget asked before has claimed it.
    pub open spec fn pointer_over(input: GuiInput, rect: Rect) -> bool {
        !input.blocked && rect.spec_contains(input.pointer)
    }

    /// Whether the event is a press of `hotkey`.
    pub open spec fn hotkey_pressed(input: GuiInput, hotkey: Option<Hotkey>) -> bool {
        input.hotkey is Some && input.hotkey == hotkey
    }

    /// The state after an input event, for a button in `rect` with `hotkey`.
    ///
    /// A disabled button stays disabled. A button that the event does not
    /// concern (the pointer is not over it, its hotkey was not pressed and it
    /// has not grabbed the input) goes back to `Normal`. Otherwise it is
    /// pressed while its hotkey or the pointer button is down, and else
    /// hovered if the pointer is over it.
    pub open spec fn next_state(self, input: GuiInput, hotkey: Option<Hotkey>, rect: Rect) -> ButtonState {
        let over = Self::pointer_over(input, rect);
        let hot = Self::hotkey_pressed(input, hotkey);
        if self == ButtonState::Disable {
            ButtonState::Disable
        } else if hot || input.button_pressed && (input.grabbed || over) {
            ButtonState::Press
        } else if over {
            ButtonState::Hover
        } else {
            ButtonState::Normal
        }
    }

    /// What an input event does to a button in `rect` with `hotkey`.
    ///
    /// The button blocks the pointer when it is over it, except that a
    /// button which the event does not concern passes. A click is a press
    /// of the hotkey, or the pointer button going down while the event
    /// concerns the button. A disabled button is never clicked.
    pub open spec fn outcome(self, input: GuiInput, hotkey: Option<Hotkey>, rect: Rect) -> ButtonStateInput {
        let over = Self::pointer_over(input, rect);
        let hot = Self::hotkey_pressed(input, hotkey);
        let next = self.next_state(input, hotkey, rect);
        ButtonStateInput {
            action: if over {
                InputAction::Block
            } else {
                InputAction::Pass
            },
            changed: next != self,
            clicked: self != ButtonState::Disable && (hot || input.clicked && input.button_pressed && (
            input.grabbed || over)),
        }
    }

    /// Takes one input event: moves to the `next_state` and reports the
    /// `outcome`.
    pub fn handle_input(&mut self, input: &GuiInput, hotkey: Option<Hotkey>, rect: Rect) -> (r:
        ButtonStateInput)
        ensures
            *final(self) == old(self).next_state(*input, hotkey, rect),
            r == old(self).outcome(*input, hotkey, rect),
    {
        let pointer_over = !input.blocked && rect.contains(input.pointer);
        let action = if pointer_over {
            InputAction::Block
        } else {
            InputAction::Pass
        };
        if *self == ButtonState::Disable {
            return ButtonStateInput { action, changed: false, clicked: false };
        }
        let mut changed = false;
        let hotkey_pressed = input.hotkey.is_some() && same_hotkey(input.hotkey, hotkey);
        if !hotkey_pressed && !input.grabbed && !pointer_over {
            if *self != ButtonState::Normal {
                *self = ButtonState::Normal;
                changed = true;
            }
            return ButtonStateInput { action: InputAction::Pass, changed, clicked: false };
        }
        let state = if hotkey_pressed || input.button_pressed {
            ButtonState::Press
        } else if pointer_over {
            ButtonState::Hover
        } else {
            ButtonState::Normal
        };
        if *self != state {
            *self = state;
            changed = true;
        }
        let clicked = *self == ButtonState::Press && (hotkey_pressed || input.clicked);
        ButtonStateInput { action, changed, clicked }
    }
}

/// What a click on a button sets off.
#[derive(Clone, Copy, PartialEq, Eq, Structural, Debug)]
pub enum ButtonEvent {
    /// A callback without parameter.
    Normal(u64),
    /// The button toggles, and a callback is told the new state.
    Toggle(u64),
    /// The button is member `index` of the exclusive group `group`.
    Exclusive { group: GroupId, index: usize, allow_deselect: bool, on_selected: u64 },
}

/// A push button.
#[derive(Clone, Copy, PartialEq, Eq, Structural, Debug)]
pub struct Button {
    /// How the button is drawn.
    pub button_style: ButtonStyle,
    /// What the pointer and the keys are doing to the button.
    pub state: ButtonState,
    /// The key that clicks the button.
    pub hotkey: Option<Hotkey>,
    /// Whether the button is toggled on.
    pub toggled: bool,
    /// What a click sets off.
    pub on_clicked: ButtonEvent,
}

impl Button {
    /// A button that runs the callback `on_clicked` when it is clicked.
    pub fn new(button_style: ButtonStyle, on_clicked: u64) -> (r: Button)
        ensures
            r == (Button {
                button_style,
                state: ButtonState::Normal,
                hotkey: None,
                toggled: false,
                on_clicked: ButtonEvent::Normal(on_clicked),
            }),
    {
        Button {
            button_style,
            state: ButtonState::Normal,
            hotkey: None,
            toggled: false,
            on_clicked: ButtonEvent::Normal(on_clicked),
        }
    }

    /// A button that toggles when it is clicked and tells the callback
    /// `on_clicked` its new state.
    pub fn new_toggle(button_style: ButtonStyle, toggled: bool, on_clicked: u64) -> (r: Button)
        ensures
            r == (Button {
                button_style,
                state: ButtonState::Normal,
                hotkey: None,
                toggled,
                on_clicked: ButtonEvent::Toggle(on_clicked),
            }),
    {
        Button {
            button_style,
            state: ButtonState::Normal,
            hotkey: None,
            toggled,
            on_clicked: ButtonEvent::Toggle(on_clicked),
        }
    }

    /// The button that becomes the next member of `group`, which is
    /// registered as `id`.
    pub fn new_exclusive(button_style: ButtonStyle, toggled: bool, id: GroupId, group: &ExclusiveGroup) -> (r:
        Button)
        ensures
            r == (Button {
                button_style,
                state: ButtonState::Normal,
                hotkey: None,
                toggled,
                on_clicked: ButtonEvent::Exclusive {
                    group: id,
                    index: group.members().len() as usize,
                    allow_deselect: group.spec_allow_deselect(),
                    on_selected: group.spec_on_selected(),
                },
            }),
    {
        Button {
            button_style,
            state: ButtonState::Normal,
            hotkey: None,
            toggled,
            on_clicked: ButtonEvent::Exclusive {
                group: id,
                index: group.buttons.len(),
                allow_deselect: group.allow_deselect,
                on_selected: group.on_selected,
            },
        }
    }

    pub open spec fn spec_enabled(self) -> bool {
        self.state != ButtonState::Disable
    }

    /// Whether the button takes input.
    pub fn enabled(&self) -> (r: bool)
        ensures
            r == self.spec_enabled(),
    {
        self.state != ButtonState::Disable
    }

    /// The button after `set_enabled`: disabling makes the state `Disable`,
    /// enabling makes a disabled button `Normal` and leaves another as it is.
    pub open spec fn spec_set_enabled(self, enabled: bool) -> Button {
        Button {
            state: if !enabled {
                ButtonState::Disable
            } else if self.state == ButtonState::Disable {
                ButtonState::Normal
            } else {
                self.state
            },
            ..self
        }
    }

    /// Enables or disables the button.
    pub fn set_enabled(&mut self, enabled: bool)
        ensures
            *final(self) == old(self).spec_set_enabled(enabled),
    {
        if enabled {
            if self.state == ButtonState::Disable {
                self.state = ButtonState::Normal;
            }
        } else {
            self.state = ButtonState::Disable;
        }
    }

    /// Whether the button is toggled on.
    pub fn toggled(&self) -> (r: bool)
        ensures
            r == self.toggled,
    {
        self.toggled
    }

    /// Sets the toggle.
    pub fn set_toggled(&mut self, toggled: bool)
        ensures
            *final(self) == (Button { toggled, ..*old(self) }),
    {
        self.toggled = toggled;
    }

    /// Whether a click changes the toggle: always for a toggle button, never
    /// for a plain one, and for a member of an exclusive group unless it is
    /// selected and the group does not allow deselecting.
    pub open spec fn click_toggles(self) -> bool {
        match self.on_clicked {
            ButtonEvent::Normal(_) => false,
            ButtonEvent::Toggle(_) => true,
            ButtonEvent::Exclusive { allow_deselect, .. } => !self.toggled || allow_deselect,
        }
    }

    /// What a click puts into the queue.
    ///
    /// A plain button queues its callback. A toggle button queues its
    /// callback with the new state. A member of an exclusive group whose
    /// click counts queues, if it became selected, the deselection of the
    /// other members, and in any case the group's callback with the selected
    /// index, or with none if the member was deselected.
    pub open spec fn click_events(self) -> Seq<(EventFn, Option<EventParam>)> {
        match self.on_clicked {
            ButtonEvent::Normal(handler) => seq![(EventFn::Callback { handler, with_param: false }, None)],
            ButtonEvent::Toggle(handler) => seq![
                (EventFn::Callback { handler, with_param: true }, Some(EventParam::Bool(!self.toggled))),
            ],
            ButtonEvent::Exclusive { group, index, allow_deselect, on_selected } => if !self.click_toggles() {
                seq![]
            } else if !self.toggled {
                seq![
                    (EventFn::DeselectOthers, Some(EventParam::Member(group, index))),
                    (
                        EventFn::Callback { handler: on_selected, with_param: true },
                        Some(EventParam::Index(Some(index))),
                    ),
                ]
            } else {
                seq![
                    (
                        EventFn::Callback { handler: on_selected, with_param: true },
                        Some(EventParam::Index(None)),
                    ),
                ]
            },
        }
    }

    /// The button after an input event has been offered to it in `rect`: its
    /// state follows the input, and a click toggles it where `click_toggles`
    /// says so.
    pub open spec fn after_input(self, input: GuiInput, rect: Rect) -> Button {
        let clicked = self.state.outcome(input, self.hotkey, rect).clicked;
        Button {
            state: self.state.next_state(input, self.hotkey, rect),
            toggled: if clicked && self.click_toggles() {
                !self.toggled
            } else {
                self.toggled
            },
            ..self
        }
    }
}

/// A click on a member of an exclusive group selects it, or does nothing.
///
/// A member that is not selected becomes selected, and queues first the
/// deselection of the other members and then the group's callback with its
/// own index. A selected member of a group that does not allow deselecting
/// stays selected and queues nothing.
pub proof fn lemma_exclusive_click(button: Button, input: GuiInput, rect: Rect)
    requires
        button.on_clicked is Exclusive,
        button.state.outcome(input, button.hotkey, rect).clicked,
        !(button.toggled && button.on_clicked->allow_deselect),
    ensures
        button.after_input(input, rect).toggled,
        !button.toggled ==> button.click_events() == seq![
            (
                EventFn::DeselectOthers,
                Some(EventParam::Member(button.on_clicked->group, button.on_clicked->index)),
            ),
            (
                EventFn::Callback { handler: button.on_clicked->on_selected, with_param: true },
                Some(EventParam::Index(Some(button.on_clicked->index))),
            ),
        ],
        button.toggled ==> button.click_events() == Seq::<(EventFn, Option<EventParam>)>::empty(),
{
}

impl Widget for Button {
    open spec fn button(&self) -> Option<Button> {
        Some(*self)
    }

    fn as_button(&self) -> (r: Option<&Button>) {
        Some(self)
    }

    fn as_button_mut(&mut self) -> (r: Option<&mut Button>) {
        Some(self)
    }

    /// A button asks for nothing of its own: its size is its style's minimum.
    fn measure(&mut self, available_space: Size) -> (r: Size)
        ensures
            r == Size::spec_zero(),
            *final(self) == *old(self),
    {
        Size::zero()
    }

    fn layout(&mut self, area: &Area)
        ensures
            *final(self) == *old(self),
    {
    }

    /// Draws the button as the theme has it for its style, toggle and
    /// state.
    fn draw(&mut self, renderer: &mut Canvas, area: &Area)
        ensures
            *final(self) == *old(self),
            final(renderer).drawn() == old(renderer).drawn().push(
                Draw::Button {
                    rect: area.content_rect,
                    style: old(self).button_style,
                    toggled: old(self).toggled,
                    state: old(self).state,
                },
            ),
    {
        renderer.draw_button(area.content_rect, self.button_style, self.toggled, self.state);
    }

    /// Offers the button an input event.
    ///
    /// The state follows the input as `ButtonState::next_state` says, and a
    /// redraw is asked for when it changed. A click toggles the button where
    /// `click_toggles` says so and appends the `click_events` to the queue.
    /// The answer is that of `ButtonState::outcome`.
    fn input(&mut self, input: &GuiInput, executor: &mut EventExecutor, area: &Area) -> (action: InputAction)
        ensures
            *final(self) == old(self).after_input(*input, area.content_rect),
            action == old(self).state.outcome(*input, old(self).hotkey, area.content_rect).action,
            final(executor).redraw_requested() == (old(executor).redraw_requested() || old(self).state.outcome(*input, old(self).hotkey, area.content_rect).changed),
            final(executor).events() == if old(self).state.outcome(
                *input,
                old(self).hotkey,
                area.content_rect,
            ).clicked {
                old(executor).events() + old(self).click_events()
            } else {
                old(executor).events()
            },
    {
        let state_input = self.state.handle_input(input, self.hotkey, area.content_rect);
        if state_input.changed {
            executor.request_redraw();
        }
        if state_input.clicked {
            match self.on_clicked {
                ButtonEvent::Normal(handler) => {
                    executor.queue(EventFn::new(handler), None);
                },
                ButtonEvent::Toggle(handler) => {
                    self.toggled = !self.toggled;
                    executor.queue(EventFn::new_param(handler), Some(EventParam::Bool(self.toggled)));
                },
                ButtonEvent::Exclusive { group, index, allow_deselect, on_selected } => {
                    if !self.toggled || allow_deselect {
                        self.toggled = !self.toggled;
                        let param = if self.toggled {
                            executor.queue(EventFn::DeselectOthers, Some(EventParam::Member(group, index)));
                            Some(index)
                        } else {
                            None
                        };
                        executor.queue(EventFn::new_param(on_selected), Some(EventParam::Index(param)));
                    }
                },
            }
        }
        state_input.action
    }
}

/// A set of buttons of which at most one is selected.
pub struct ExclusiveGroup {
    pub(crate) allow_deselect: bool,
    pub(crate) on_selected: u64,
    pub(crate) buttons: Vec<crate::store::NodeId>,
}

impl ExclusiveGroup {
    /// Whether a click on the selected member deselects it.
    pub closed spec fn spec_allow_deselect(self) -> bool {
        self.allow_deselect
    }

    /// The callback that is told the selected index.
    pub closed spec fn spec_on_selected(self) -> u64 {
        self.on_selected
    }

    /// The members, in the order in which they joined.
    pub closed spec fn members(self) -> Seq<crate::store::NodeId> {
        self.buttons@
    }

    /// How many members the group has.
    pub fn len(&self) -> (r: usize)
        ensures
            r == self.members().len(),
    {
        self.buttons.len()
    }

    /// The member at position `index`.
    pub fn member(&self, index: usize) -> (r: crate::store::NodeId)
        requires
            index < self.members().len(),
        ensures
            r == self.members()[index as int],
    {
        self.buttons[index]
    }

    /// Whether a click on the selected member deselects it.
    pub fn allow_deselect(&self) -> (r: bool)
        ensures
            r == self.spec_allow_deselect(),
    {
        self.allow_deselect
    }

    /// Makes `button` the next member of the group.
    pub fn join(&mut self, button: crate::store::NodeId)
        ensures
            final(self).members() == old(self).members().push(button),
            final(self).spec_allow_deselect() == old(self).spec_allow_deselect(),
            final(self).spec_on_selected() == old(self).spec_on_selected(),
    {
        self.buttons.push(button);
    }

    /// A group without members. The callback `on_selected` is told the index
    /// of the selected member whenever the selection changes.
    pub fn new(allow_deselect: bool, on_selected: u64) -> (r: ExclusiveGroup)
        ensures
            r.spec_allow_deselect() == allow_deselect,
            r.spec_on_selected() == on_selected,
            r.members() == Seq::<crate::store::NodeId>::empty(),
    {
        ExclusiveGroup { allow_deselect, on_selected, buttons: Vec::new() }
    }
}

} // verus!
