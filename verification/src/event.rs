//! Input as the widgets see it, and the queue of what they ask for in return.
//!
//! A widget never changes the tree while an input event is being delivered.
//! What it wants done it puts into the `EventExecutor` of that delivery, and
//! the owner of the tree runs the queue when the delivery is over.

use vstd::prelude::*;
use crate::geometry::Point;
use crate::gui::Gui;

verus! {

/// A key together with the state of two modifier keys.
#[derive(Clone, Copy, PartialEq, Eq, Structural, Debug)]
pub struct Hotkey {
    pub key: char,
    pub mod1: bool,
    pub mod2: bool,
}

impl Hotkey {
    /// The key without modifiers.
    pub fn new(key: char) -> (r: Hotkey)
        ensures
            r == (Hotkey { key, mod1: false, mod2: false }),
    {
        Hotkey { key, mod1: false, mod2: false }
    }

    /// The hotkey that a key event stands for: the character that the key
    /// types, with the modifiers held, if the key went down and types a
    /// character.
    pub fn from_key(pressed: bool, typed: Option<char>, mod1: bool, mod2: bool) -> (r: Option<Hotkey>)
        ensures
            r == match typed {
                Some(key) if pressed => Some(Hotkey { key, mod1, mod2 }),
                _ => None,
            },
    {
        if pressed {
            match typed {
                Some(key) => Some(Hotkey { key, mod1, mod2 }),
                None => None,
            }
        } else {
            None
        }
    }
}

/// A keyboard event of some windowing system.
pub trait KeyboardEvent {
    /// The hotkey that this event stands for, if it is a key press that
    /// stands for one.
    fn to_hotkey(&self) -> Option<Hotkey>;
}

/// A mouse button event of some windowing system.
pub trait MouseButtonEvent {
    /// Whether the event is about the primary button.
    fn is_primary_button(&self) -> bool;

    /// Whether the button went down, rather than up.
    fn is_pressed(&self) -> bool;
}

/// One raw input event.
pub enum InputEvent<Keyboard, MouseButton> {
    Keyboard(Keyboard),
    /// The pointer moved to this position.
    MouseMotion(Point),
    MouseButton(MouseButton),
    /// The wheel turned by this many steps.
    MouseWheel(i32),
}

/// What a raw input event says, once the windowing system's event has been
/// asked.
#[derive(Clone, Copy, PartialEq, Eq, Structural, Debug)]
pub enum Decoded {
    /// A keyboard event, and the hotkey that it stands for.
    Key(Option<Hotkey>),
    /// The pointer moved to this position.
    Pointer(Point),
    /// A mouse button went down or up.
    Button { primary: bool, pressed: bool },
    /// The wheel turned.
    Wheel(i32),
}

impl<K: KeyboardEvent, M: MouseButtonEvent> InputEvent<K, M> {
    /// Whether `decoded` is something that the event can say: of the same
    /// kind, and with the same position or the same number of steps.
    pub open spec fn decodes_to(self, decoded: Decoded) -> bool {
        match self {
            InputEvent::Keyboard(_) => decoded is Key,
            InputEvent::MouseMotion(point) => decoded == Decoded::Pointer(point),
            InputEvent::MouseButton(_) => decoded is Button,
            InputEvent::MouseWheel(steps) => decoded == Decoded::Wheel(steps),
        }
    }

    /// Asks the event what it says.
    pub fn decode(&self) -> (r: Decoded)
        ensures
            self.decodes_to(r),
    {
        match self {
            InputEvent::Keyboard(keyboard_event) => Decoded::Key(keyboard_event.to_hotkey()),
            InputEvent::MouseMotion(point) => Decoded::Pointer(*point),
            InputEvent::MouseButton(mouse_button_event) => Decoded::Button {
                primary: mouse_button_event.is_primary_button(),
                pressed: mouse_button_event.is_pressed(),
            },
            InputEvent::MouseWheel(steps) => Decoded::Wheel(*steps),
        }
    }
}

/// The state of the input devices as one delivery presents it to the widgets.
///
/// `pointer` and `button_pressed` are levels and last from one delivery to
/// the next. The other fields describe the delivery under way.
#[derive(Clone, Copy, PartialEq, Eq, Structural, Debug)]
pub struct GuiInput {
    /// A widget has claimed the pointer: the others should behave as if it
    /// were not over them.
    pub blocked: bool,
    /// The delivery goes to the widget that grabbed the input, and to no
    /// other.
    pub grabbed: bool,
    pub pointer: Point,
    pub button_pressed: bool,
    /// The primary button went down in this delivery.
    pub clicked: bool,
    pub double_clicked: bool,
    pub hotkey: Option<Hotkey>,
}

impl GuiInput {
    pub open spec fn spec_new() -> GuiInput {
        GuiInput {
            blocked: false,
            grabbed: false,
            pointer: Point::spec_zero(),
            button_pressed: false,
            clicked: false,
            double_clicked: false,
            hotkey: None,
        }
    }

    /// The state before any input: pointer at the origin, nothing pressed.
    pub fn new() -> (r: GuiInput)
        ensures
            r == GuiInput::spec_new(),
    {
        GuiInput {
            blocked: false,
            grabbed: false,
            pointer: Point::zero(),
            button_pressed: false,
            clicked: false,
            double_clicked: false,
            hotkey: None,
        }
    }

    /// The state after an event has been taken in: a key press sets the
    /// hotkey, a motion the pointer, an event of the primary button the
    /// level and, on the edge from released to pressed, `clicked`. Other
    /// buttons and the wheel change nothing.
    pub open spec fn spec_apply(self, decoded: Decoded) -> GuiInput {
        match decoded {
            Decoded::Key(hotkey) => GuiInput { hotkey, ..self },
            Decoded::Pointer(pointer) => GuiInput { pointer, ..self },
            Decoded::Button { primary, pressed } => if primary {
                GuiInput {
                    clicked: self.clicked || (!self.button_pressed && pressed),
                    button_pressed: pressed,
                    ..self
                }
            } else {
                self
            },
            Decoded::Wheel(_) => self,
        }
    }

    /// Takes what an event says into the state.
    pub fn apply(&mut self, decoded: Decoded)
        ensures
            *final(self) == old(self).spec_apply(decoded),
    {
        match decoded {
            Decoded::Key(hotkey) => {
                self.hotkey = hotkey;
            },
            Decoded::Pointer(pointer) => {
                self.pointer = pointer;
            },
            Decoded::Button { primary, pressed } => {
                if primary {
                    if !self.button_pressed && pressed {
                        self.clicked = true;
                    }
                    self.button_pressed = pressed;
                }
            },
            Decoded::Wheel(_) => {},
        }
    }

    /// Takes one raw event into the state: asks it what it says, and
    /// applies that.
    pub fn process<K: KeyboardEvent, M: MouseButtonEvent>(&mut self, event: &InputEvent<K, M>)
        ensures
            exists|decoded: Decoded| #[trigger]
                event.decodes_to(decoded) && *final(self) == old(self).spec_apply(decoded),
    {
        let decoded = event.decode();
        self.apply(decoded);
    }

    pub open spec fn spec_reset(self) -> GuiInput {
        GuiInput {
            blocked: false,
            grabbed: false,
            clicked: false,
            double_clicked: false,
            hotkey: None,
            ..self
        }
    }

    /// Clears what belongs to one delivery. The pointer and the button level
    /// stay.
    pub fn reset(&mut self)
        ensures
            *final(self) == old(self).spec_reset(),
    {
        self.blocked = false;
        self.grabbed = false;
        self.clicked = false;
        self.double_clicked = false;
        self.hotkey = None;
    }
}

/// What a widget answers to an input event.
#[derive(Clone, Copy, PartialEq, Eq, Structural, Debug)]
pub enum InputAction {
    /// Nothing.
    Pass,
    /// The pointer is taken: widgets asked later should not treat it as over
    /// them.
    Block,
    /// As `Block`, and the next event goes to this widget alone.
    Grab,
}

/// Names one exclusive group of a tree.
#[derive(Clone, Copy, PartialEq, Eq, Structural, Debug)]
pub struct GroupId {
    pub index: usize,
}

/// What is handed to a queued event when it runs.
#[derive(Clone, Copy, PartialEq, Eq, Structural, Debug)]
pub enum EventParam {
    /// The new state of a toggle.
    Bool(bool),
    /// The selected member of a group, if any.
    Index(Option<usize>),
    /// A member of an exclusive group.
    Member(GroupId, usize),
    /// A value that only the sender and the receiver understand.
    Bits(u64),
}

/// Something to be done once the delivery of an input event is over.
#[derive(Clone, Copy, PartialEq, Eq, Structural, Debug)]
pub enum EventFn {
    /// A callback of the application, by the handle under which the
    /// application keeps it.
    Callback { handler: u64, with_param: bool },
    /// Clears the toggle of every member of an exclusive group but one.
    DeselectOthers,
}

impl EventFn {
    /// The callback `handler`, which takes no parameter: one that is queued
    /// with it is not passed on.
    pub fn new(handler: u64) -> (r: EventFn)
        ensures
            r == (EventFn::Callback { handler, with_param: false }),
    {
        EventFn::Callback { handler, with_param: false }
    }

    /// The callback `handler`, which takes a parameter.
    pub fn new_param(handler: u64) -> (r: EventFn)
        ensures
            r == (EventFn::Callback { handler, with_param: true }),
    {
        EventFn::Callback { handler, with_param: true }
    }

    /// What running the event with `param` comes to. A callback that takes
    /// no parameter is run without it, whatever was queued with it.
    pub open spec fn spec_resolve(self, param: Option<EventParam>) -> Task {
        match self {
            EventFn::Callback { handler, with_param } => Task::Call {
                handler,
                param: if with_param {
                    param
                } else {
                    None
                },
            },
            EventFn::DeselectOthers => match param {
                Some(EventParam::Member(group, index)) => Task::Deselect { group, index },
                _ => Task::Nothing,
            },
        }
    }

    /// What is to be done to run the event with `param`.
    pub fn resolve(self, param: Option<EventParam>) -> (r: Task)
        ensures
            r == self.spec_resolve(param),
    {
        match self {
            EventFn::Callback { handler, with_param } => {
                if with_param {
                    Task::Call { handler, param }
                } else {
                    Task::Call { handler, param: None }
                }
            },
            EventFn::DeselectOthers => match param {
                Some(EventParam::Member(group, index)) => Task::Deselect { group, index },
                _ => Task::Nothing,
            },
        }
    }

    /// Whether the event cannot run without a parameter.
    pub open spec fn takes_param(self) -> bool {
        match self {
            EventFn::Callback { with_param, .. } => with_param,
            EventFn::DeselectOthers => true,
        }
    }

    /// Whether `param` is what the event can run with: a member of a group
    /// for `DeselectOthers`, anything at all for a callback that takes a
    /// parameter, and anything or nothing for one that takes none.
    pub open spec fn accepts(self, param: Option<EventParam>) -> bool {
        match self {
            EventFn::Callback { with_param, .. } => with_param ==> param is Some,
            EventFn::DeselectOthers => param matches Some(EventParam::Member(_, _)),
        }
    }
}

/// What running a queued event comes to.
#[derive(Clone, Copy, PartialEq, Eq, Structural, Debug)]
pub enum Task {
    /// The application's callback `handler` is run with `param`.
    Call { handler: u64, param: Option<EventParam> },
    /// The toggles of the members of `group` other than `index` are
    /// cleared.
    Deselect { group: GroupId, index: usize },
    /// Nothing is done: the event did not get what it needs.
    Nothing,
}

/// What the callbacks of the application run against: whatever the
/// application keeps beside the tree.
///
/// Nothing is promised of what a callback does: it may leave the tree in
/// any state.
pub trait EventContext {
    /// Runs the callback that the application keeps under `handler`, with
    /// the tree at hand.
    fn call(&mut self, gui: &mut Gui, handler: u64, param: Option<EventParam>);
}

/// Whether `after` is a tree that running `event` with `param` can leave of
/// the tree `before`. A callback can leave any tree. `DeselectOthers` leaves
/// the tree as `Gui::deselected` says, and an event that did not get what it
/// needs leaves it as it was.
pub open spec fn leaves(before: Gui, event: EventFn, param: Option<EventParam>, after: Gui) -> bool {
    match event.spec_resolve(param) {
        Task::Call { .. } => true,
        Task::Deselect { group, index } => before.deselected(&after, group, index),
        Task::Nothing => after == before,
    }
}

/// Whether none of the first `n` of `events` is a callback of the
/// application.
pub open spec fn no_callback(events: Seq<(EventFn, Option<EventParam>)>, n: int) -> bool {
    forall|i: int|
        0 <= i < n && i < events.len() ==> !((#[trigger] events[i]).0.spec_resolve(events[i].1) is Call)
}

/// Whether event `i` of `events` leads from tree `i` of `trees` to the
/// next.
pub open spec fn leads(events: Seq<(EventFn, Option<EventParam>)>, trees: Seq<Gui>, i: int) -> bool {
    leaves(trees[i], events[i].0, events[i].1, trees[i + 1])
}

/// Whether `trees` are the trees that a run of `events`, oldest first, goes
/// through from `before` to `after`: one before each event, and one after
/// the last.
pub open spec fn runs(
    events: Seq<(EventFn, Option<EventParam>)>,
    before: Gui,
    after: Gui,
    trees: Seq<Gui>,
) -> bool {
    &&& trees.len() == events.len() + 1
    &&& trees[0] == before
    &&& trees[events.len() as int] == after
    &&& forall|i: int| 0 <= i < events.len() ==> #[trigger] leads(events, trees, i)
}

/// The queue of one delivery: events in the order in which they were queued,
/// and whether anyone asked for a redraw.
#[derive(Debug)]
pub struct EventExecutor {
    funcs: Vec<(EventFn, Option<EventParam>)>,
    redraw: bool,
}

impl EventExecutor {
    /// The queued events, oldest first.
    pub closed spec fn events(&self) -> Seq<(EventFn, Option<EventParam>)> {
        self.funcs@
    }

    /// Whether a redraw was asked for.
    pub closed spec fn redraw_requested(&self) -> bool {
        self.redraw
    }

    /// An empty queue with no redraw asked for.
    pub fn new() -> (r: EventExecutor)
        ensures
            r.events() == Seq::<(EventFn, Option<EventParam>)>::empty(),
            !r.redraw_requested(),
    {
        EventExecutor { funcs: Vec::new(), redraw: false }
    }

    /// Puts `event` at the end of the queue, to run with `param`.
    pub fn queue(&mut self, event: EventFn, param: Option<EventParam>)
        requires
            event.accepts(param),
        ensures
            final(self).events() == old(self).events().push((event, param)),
            final(self).redraw_requested() == old(self).redraw_requested(),
    {
        self.funcs.push((event, param));
    }

    /// Asks for a redraw.
    pub fn request_redraw(&mut self)
        ensures
            final(self).events() == old(self).events(),
            final(self).redraw_requested(),
    {
        self.redraw = true;
    }

    pub fn needs_redraw(&self) -> (r: bool)
        ensures
            r == self.redraw_requested(),
    {
        self.redraw
    }

    /// Runs the queued events, oldest first, each as `EventFn::resolve`
    /// says: a callback is handed to `context` together with the tree, and
    /// `DeselectOthers` clears, in the tree, the toggle of the other members
    /// of the group.
    ///
    /// The tree goes from event to event as `runs` says: between two
    /// callbacks, which may leave it in any state, it changes as the events
    /// of the library say and not otherwise. Where no callback is queued,
    /// `context` stays as it was.
    pub fn execute<C: EventContext>(self, gui: &mut Gui, context: &mut C)
        ensures
            exists|trees: Seq<Gui>| #[trigger] runs(self.events(), *old(gui), *final(gui), trees),
            no_callback(self.events(), self.events().len() as int) ==> *final(context) == *old(context),
    {
        let ghost mut trees: Seq<Gui> = seq![*gui];
        let mut i: usize = 0;
        while i < self.funcs.len()
            invariant
                i <= self.funcs.len(),
                runs(self.events().take(i as int), *old(gui), *gui, trees),
                no_callback(self.events(), i as int) ==> *context == *old(context),
            decreases self.funcs.len() - i,
        {
            let ghost before = trees;
            let (event, param) = self.funcs[i];
            match event.resolve(param) {
                Task::Call { handler, param } => {
                    context.call(gui, handler, param);
                },
                Task::Deselect { group, index } => {
                    gui.deselect_others(group, index);
                },
                Task::Nothing => {},
            }
            proof {
                trees = before.push(*gui);
                let done = self.events().take(i + 1);
                assert forall|k: int| 0 <= k < done.len() implies #[trigger] leads(done, trees, k) by {
                    if k < i {
                        assert(leads(self.events().take(i as int), before, k));
                    }
                }
            }
            i = i + 1;
        }
        assert(self.events().take(i as int) =~= self.events());
    }

    /// How many events are queued.
    pub fn len(&self) -> (r: usize)
        ensures
            r == self.events().len(),
    {
        self.funcs.len()
    }

    /// The event at position `index` of the queue, with its parameter.
    pub fn get(&self, index: usize) -> (r: Option<(EventFn, Option<EventParam>)>)
        ensures
            r == if index < self.events().len() {
                Some(self.events()[index as int])
            } else {
                None
            },
    {
        if index < self.funcs.len() {
            Some(self.funcs[index])
        } else {
            None
        }
    }
}

impl Default for EventExecutor {
    fn default() -> (r: EventExecutor)
        ensures
            r.events() == Seq::<(EventFn, Option<EventParam>)>::empty(),
            !r.redraw_requested(),
    {
        EventExecutor::new()
    }
}

} // verus!
