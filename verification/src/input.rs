//! Input state: what the window system reported since the last frame, the
//! click-and-drag state of every mouse button, and which widget holds the
//! focus and the drags.

use vstd::prelude::*;
use crate::geometry::Pos2;
use crate::geometry::Vec2;
use crate::linear_map::lemma_map_values;
use crate::linear_map::Key;
use crate::linear_map::LinearMap;
use crate::transform::TranslateScale;
use crate::widget_id::WidgetId;

verus! {

/// How far the pointer must move from where a button went down before the
/// press counts as a drag: four pixels, in layout units.
pub const DRAG_THRESHOLD: i32 = 256;

/// By how much a wheel movement that is reported in pixels is multiplied.
pub const PIXELS_PER_LINE: i32 = 50;

#[derive(Copy, Clone, Debug, PartialEq, Eq, Hash, Structural)]
pub enum MouseButton {
    Primary,
    Secondary,
    Middle,
    Other(u16),
}

impl Key for MouseButton {
    fn same(&self, other: &Self) -> (r: bool) {
        *self == *other
    }
}

/// A key of the keyboard, by the number that the window system gives it.
#[derive(Copy, Clone, Debug, PartialEq, Eq, Hash, Structural)]
pub struct KeyCode(pub u32);

/// One input event, as widgets see it.
#[derive(Copy, Clone, Debug, PartialEq, Eq, Structural)]
pub enum Event {
    MousePressed(MouseButton),
    MouseReleased(MouseButton),
    MouseWheel(Vec2),
    MouseMoved(Pos2),
    Text(char),
    KeyPressed(KeyCode),
    KeyReleased(KeyCode),
}

/// Whether a batch of events has been acted upon.
#[derive(Copy, Clone, Debug, PartialEq, Eq, Structural)]
pub enum EventStatus {
    Ignored,
    Consumed,
}

impl EventStatus {
    /// Whether the events have been acted upon.
    pub fn is_consumed(&self) -> (b: bool)
        ensures
            b == (*self == EventStatus::Consumed),
    {
        match self {
            EventStatus::Ignored => false,
            EventStatus::Consumed => true,
        }
    }

    /// Marks the events as acted upon.
    pub fn consume_event(&mut self)
        ensures
            *final(self) == EventStatus::Consumed,
    {
        *self = EventStatus::Consumed;
    }

    /// This status if it is `Consumed`, and else whatever `f` gives. `f` is
    /// called only where nothing has consumed the events yet.
    pub fn or_else<F: FnOnce() -> EventStatus>(&self, f: F) -> (r: EventStatus)
        requires
            *self == EventStatus::Ignored ==> f.requires(()),
        ensures
            *self == EventStatus::Consumed ==> r == EventStatus::Consumed,
            *self == EventStatus::Ignored ==> f.ensures((), r),
    {
        match self {
            EventStatus::Ignored => f(),
            EventStatus::Consumed => EventStatus::Consumed,
        }
    }
}

/// Where one mouse button stands between press and release.
#[derive(Copy, Clone, Debug, PartialEq, Eq, Structural)]
pub enum ClickDragState {
    /// The button is not pressed.
    Idle,
    /// The button went down at this position and the pointer has not yet
    /// moved far enough for a drag.
    Clicked(Pos2),
    /// As `Dragged`, during the frame in which the drag started.
    DragJustStarted(Pos2),
    /// The pointer moved far enough with the button held; the position is
    /// where the button went down.
    Dragged(Pos2),
}

impl Default for ClickDragState {
    fn default() -> (s: ClickDragState)
        ensures
            s == ClickDragState::Idle,
    {
        ClickDragState::Idle
    }
}

#[derive(Copy, Clone, Debug, PartialEq, Eq, Structural)]
pub struct ButtonState {
    pub down: bool,
    pub drag_state: ClickDragState,
    pub just_pressed: bool,
    pub just_released: bool,
    /// True during the frame in which the button was released without the
    /// pointer having moved far from where it was pressed: a click.
    pub just_clicked: bool,
}

impl ButtonState {
    /// The state of a button of which nothing was heard yet.
    pub open spec fn idle() -> ButtonState {
        ButtonState {
            down: false,
            drag_state: ClickDragState::Idle,
            just_pressed: false,
            just_released: false,
            just_clicked: false,
        }
    }

    /// The state after the button went down at `cursor_pos`.
    pub open spec fn pressed(self, cursor_pos: Pos2) -> ButtonState {
        ButtonState {
            just_pressed: true,
            down: true,
            drag_state: ClickDragState::Clicked(cursor_pos),
            ..self
        }
    }

    /// The state after the button went up. A release that ends a press
    /// which never became a drag is a click.
    pub open spec fn released(self) -> ButtonState {
        ButtonState {
            just_released: true,
            down: false,
            just_clicked: self.just_clicked || self.drag_state is Clicked,
            drag_state: ClickDragState::Idle,
            ..self
        }
    }

    /// The state after the pointer moved to `cursor_pos`: a press becomes a
    /// drag once the pointer is more than the threshold away from where the
    /// button went down.
    pub open spec fn moved(self, cursor_pos: Pos2) -> ButtonState {
        match self.drag_state {
            ClickDragState::Clicked(pos) => if pos.distance_sq_spec(cursor_pos) > DRAG_THRESHOLD
                * DRAG_THRESHOLD {
                ButtonState { drag_state: ClickDragState::DragJustStarted(pos), ..self }
            } else {
                self
            },
            _ => self,
        }
    }

    /// The state at the start of the next frame: what was true of one frame
    /// only is forgotten, and a drag that had just started is under way.
    pub open spec fn aged(self) -> ButtonState {
        ButtonState {
            just_pressed: false,
            just_released: false,
            just_clicked: false,
            drag_state: match self.drag_state {
                ClickDragState::DragJustStarted(pos) => ClickDragState::Dragged(pos),
                other => other,
            },
            ..self
        }
    }

    /// Where the drag started, while one is under way.
    pub open spec fn drag_origin(self) -> Option<Pos2> {
        match self.drag_state {
            ClickDragState::Idle => None,
            ClickDragState::Clicked(_) => None,
            ClickDragState::DragJustStarted(pos) => Some(pos),
            ClickDragState::Dragged(pos) => Some(pos),
        }
    }

    pub fn new() -> (s: ButtonState)
        ensures
            s == ButtonState::idle(),
    {
        ButtonState {
            down: false,
            drag_state: ClickDragState::Idle,
            just_pressed: false,
            just_released: false,
            just_clicked: false,
        }
    }

    pub fn on_pressed(self, cursor_pos: Pos2) -> (s: ButtonState)
        ensures
            s == self.pressed(cursor_pos),
    {
        ButtonState {
            just_pressed: true,
            down: true,
            drag_state: ClickDragState::Clicked(cursor_pos),
            just_released: self.just_released,
            just_clicked: self.just_clicked,
        }
    }

    pub fn on_released(self) -> (s: ButtonState)
        ensures
            s == self.released(),
    {
        let clicked = match self.drag_state {
            ClickDragState::Clicked(_) => true,
            ClickDragState::Idle => self.just_clicked,
            ClickDragState::Dragged(_) => self.just_clicked,
            ClickDragState::DragJustStarted(_) => self.just_clicked,
        };
        ButtonState {
            just_released: true,
            down: false,
            just_clicked: clicked,
            drag_state: ClickDragState::Idle,
            just_pressed: self.just_pressed,
        }
    }

    pub fn on_moved(self, cursor_pos: Pos2) -> (s: ButtonState)
        ensures
            s == self.moved(cursor_pos),
    {
        match self.drag_state {
            ClickDragState::Idle => self,
            ClickDragState::Dragged(_) => self,
            ClickDragState::DragJustStarted(_) => self,
            ClickDragState::Clicked(pos) => {
                assert(DRAG_THRESHOLD * DRAG_THRESHOLD == 256 * 256);
                let threshold: i128 = DRAG_THRESHOLD as i128 * DRAG_THRESHOLD as i128;
                if pos.distance_sq(cursor_pos) > threshold {
                    ButtonState {
                        drag_state: ClickDragState::DragJustStarted(pos),
                        down: self.down,
                        just_pressed: self.just_pressed,
                        just_released: self.just_released,
                        just_clicked: self.just_clicked,
                    }
                } else {
                    self
                }
            },
        }
    }

    pub fn on_end_frame(self) -> (s: ButtonState)
        ensures
            s == self.aged(),
    {
        ButtonState {
            just_pressed: false,
            just_released: false,
            just_clicked: false,
            drag_state: match self.drag_state {
                ClickDragState::DragJustStarted(pos) => ClickDragState::Dragged(pos),
                ClickDragState::Idle => ClickDragState::Idle,
                ClickDragState::Clicked(pos) => ClickDragState::Clicked(pos),
                ClickDragState::Dragged(pos) => ClickDragState::Dragged(pos),
            },
            down: self.down,
        }
    }
}

/// A press that is released before the pointer has moved beyond the
/// threshold is a click, and leaves the button idle.
pub proof fn lemma_press_and_release_is_a_click(state: ButtonState, pressed_at: Pos2, moved_to: Pos2)
    requires
        pressed_at.distance_sq_spec(moved_to) <= DRAG_THRESHOLD * DRAG_THRESHOLD,
    ensures
        state.pressed(pressed_at).moved(moved_to).released().just_clicked,
        state.pressed(pressed_at).moved(moved_to).released().drag_state == ClickDragState::Idle,
        state.pressed(pressed_at).released().just_clicked,
{
}

/// A press becomes a drag once the pointer has moved beyond the threshold,
/// and a release that ends a drag is no click.
pub proof fn lemma_press_and_move_is_a_drag(state: ButtonState, pressed_at: Pos2, moved_to: Pos2)
    requires
        pressed_at.distance_sq_spec(moved_to) > DRAG_THRESHOLD * DRAG_THRESHOLD,
        !state.just_clicked,
    ensures
        state.pressed(pressed_at).moved(moved_to).drag_state == ClickDragState::DragJustStarted(
            pressed_at,
        ),
        state.pressed(pressed_at).moved(moved_to).aged().drag_state == ClickDragState::Dragged(
            pressed_at,
        ),
        !state.pressed(pressed_at).moved(moved_to).released().just_clicked,
{
}

/// A drag that is under way remembers where it started, wherever the
/// pointer moves and however many frames go by, until the button is
/// released.
pub proof fn lemma_drag_keeps_its_origin(state: ButtonState, origin: Pos2, moved_to: Pos2)
    requires
        state.drag_origin() == Some(origin),
    ensures
        state.moved(moved_to).drag_origin() == Some(origin),
        state.aged().drag_origin() == Some(origin),
        state.released().drag_origin() is None,
{
}

impl Default for ButtonState {
    fn default() -> (s: ButtonState)
        ensures
            s == ButtonState::idle(),
    {
        ButtonState::new()
    }
}

#[derive(Copy, Clone, Debug, PartialEq, Eq, Structural)]
pub struct ModifierState {
    /// The Alt key.
    pub alt: bool,
    /// The Control key.
    pub ctrl: bool,
    /// The Shift key.
    pub shift: bool,
    /// The Command key of a Mac. Always false on other systems.
    pub mac_cmd: bool,
    /// The Command key on a Mac, the Control key on every other system.
    pub ctrl_or_command: bool,
}

impl ModifierState {
    pub open spec fn none() -> ModifierState {
        ModifierState { alt: false, ctrl: false, shift: false, mac_cmd: false, ctrl_or_command: false }
    }
}

impl Default for ModifierState {
    fn default() -> (s: ModifierState)
        ensures
            s == ModifierState::none(),
    {
        ModifierState { alt: false, ctrl: false, shift: false, mac_cmd: false, ctrl_or_command: false }
    }
}

/// The state of every mouse button that was ever pressed or released.
pub struct ButtonStateMap {
    state: LinearMap<MouseButton, ButtonState>,
}

impl ButtonStateMap {
    /// The buttons that were heard of, each with its state.
    pub closed spec fn view(&self) -> Map<MouseButton, ButtonState> {
        self.state@
    }

    /// The state of `button`; that of a button never heard of is idle.
    pub open spec fn button(&self, button: MouseButton) -> ButtonState {
        if self@.contains_key(button) {
            self@[button]
        } else {
            ButtonState::idle()
        }
    }

    pub fn new() -> (m: ButtonStateMap)
        ensures
            m@ == Map::<MouseButton, ButtonState>::empty(),
    {
        ButtonStateMap { state: LinearMap::new() }
    }

    /// The state of `button`, computed.
    pub fn get(&self, button: MouseButton) -> (s: ButtonState)
        ensures
            s == self.button(button),
    {
        match self.state.get(&button) {
            Some(s) => *s,
            None => ButtonState::new(),
        }
    }

    /// Whether the button is down.
    pub fn is_down(&self, button: MouseButton) -> (b: bool)
        ensures
            b == self.button(button).down,
    {
        self.get(button).down
    }

    /// Whether the button went down during this frame.
    pub fn is_pressed(&self, button: MouseButton) -> (b: bool)
        ensures
            b == self.button(button).just_pressed,
    {
        self.get(button).just_pressed
    }

    /// Whether the button went up during this frame.
    pub fn is_released(&self, button: MouseButton) -> (b: bool)
        ensures
            b == self.button(button).just_released,
    {
        self.get(button).just_released
    }

    /// Whether the button was clicked during this frame.
    pub fn is_clicked(&self, button: MouseButton) -> (b: bool)
        ensures
            b == self.button(button).just_clicked,
    {
        self.get(button).just_clicked
    }

    /// Where the drag with `button` started, while one is under way.
    pub fn is_dragging(&self, button: MouseButton) -> (origin: Option<Pos2>)
        ensures
            origin == self.button(button).drag_origin(),
    {
        match self.get(button).drag_state {
            ClickDragState::Idle => None,
            ClickDragState::Clicked(_) => None,
            ClickDragState::DragJustStarted(pos) => Some(pos),
            ClickDragState::Dragged(pos) => Some(pos),
        }
    }

    /// Whether a drag with `button` started during this frame.
    pub fn dragging_just_started(&self, button: MouseButton) -> (b: bool)
        ensures
            b == (self.button(button).drag_state is DragJustStarted),
    {
        match self.get(button).drag_state {
            ClickDragState::Idle => false,
            ClickDragState::Clicked(_) => false,
            ClickDragState::DragJustStarted(_) => true,
            ClickDragState::Dragged(_) => false,
        }
    }

    /// Applies `aged` to every button: the flags of the frame that ends are
    /// cleared.
    pub fn end_frame(&mut self)
        ensures
            final(self)@ == old(self)@.map_values(|s: ButtonState| s.aged()),
    {
        let ghost before = self.state.entries();
        let n = self.state.len();
        let mut i: usize = 0;
        while i < n
            invariant
                i <= n,
                n == before.len(),
                self.state.entries().len() == n,
                forall|j: int|
                    0 <= j < i ==> #[trigger] self.state.entries()[j] == (
                        before[j].0,
                        before[j].1.aged(),
                    ),
                forall|j: int| i <= j < n ==> #[trigger] self.state.entries()[j] == before[j],
            decreases n - i,
        {
            let aged = self.state.value_at(i).on_end_frame();
            self.state.set_value_at(i, aged);
            i += 1;
        }
        proof {
            lemma_map_values(before, self.state.entries(), |s: ButtonState| s.aged());
        }
    }

    pub fn on_mouse_pressed(&mut self, button: MouseButton, cursor_pos: Pos2)
        ensures
            final(self)@ == old(self)@.insert(button, old(self).button(button).pressed(cursor_pos)),
    {
        let next = self.get(button).on_pressed(cursor_pos);
        self.state.insert(button, next);
    }

    pub fn on_mouse_released(&mut self, button: MouseButton)
        ensures
            final(self)@ == old(self)@.insert(button, old(self).button(button).released()),
    {
        let next = self.get(button).on_released();
        self.state.insert(button, next);
    }

    /// Applies `moved` to every button.
    pub fn on_mouse_moved(&mut self, cursor_pos: Pos2)
        ensures
            final(self)@ == old(self)@.map_values(|s: ButtonState| s.moved(cursor_pos)),
    {
        let ghost before = self.state.entries();
        let n = self.state.len();
        let mut i: usize = 0;
        while i < n
            invariant
                i <= n,
                n == before.len(),
                self.state.entries().len() == n,
                forall|j: int|
                    0 <= j < i ==> #[trigger] self.state.entries()[j] == (
                        before[j].0,
                        before[j].1.moved(cursor_pos),
                    ),
                forall|j: int| i <= j < n ==> #[trigger] self.state.entries()[j] == before[j],
            decreases n - i,
        {
            let moved = self.state.value_at(i).on_moved(cursor_pos);
            self.state.set_value_at(i, moved);
            i += 1;
        }
        proof {
            lemma_map_values(before, self.state.entries(), |s: ButtonState| s.moved(cursor_pos));
        }
    }
}

pub struct MouseState {
    pub position: Pos2,
    pub prev_position: Pos2,
    pub button_state: ButtonStateMap,
    /// Where an ongoing drag started, for widgets that keep track of one.
    pub ongoing_drag: ClickDragState,
}

impl MouseState {
    pub fn new() -> (m: MouseState)
        ensures
            m.position == Pos2::zero_spec(),
            m.prev_position == Pos2::zero_spec(),
            m.button_state@ == Map::<MouseButton, ButtonState>::empty(),
            m.ongoing_drag == ClickDragState::Idle,
    {
        MouseState {
            position: Pos2::zero(),
            prev_position: Pos2::zero(),
            button_state: ButtonStateMap::new(),
            ongoing_drag: ClickDragState::Idle,
        }
    }

    /// How far the pointer moved since the last frame.
    pub fn delta(&self) -> (d: Vec2)
        ensures
            d == self.position.minus_spec(self.prev_position),
    {
        self.position.minus(self.prev_position)
    }
}

/// What the window system reports, in the library's own terms.
#[derive(Copy, Clone, Debug, PartialEq, Eq, Structural)]
pub enum WindowInput {
    CursorMoved(Pos2),
    MouseInput { pressed: bool, button: MouseButton },
    /// The wheel turned; the amount is counted in lines.
    MouseWheelLines(Vec2),
    /// The wheel turned; the amount is counted in pixels.
    MouseWheelPixels(Vec2),
    /// A key went down or up. Keys that the window system has no code for
    /// come without one.
    KeyboardInput { key: Option<KeyCode>, pressed: bool },
    ReceivedCharacter(char),
    Resized(Vec2),
    /// The modifier keys changed. `logo` is the key with the system's logo;
    /// `mac` says whether the program runs on a Mac.
    ModifiersChanged { alt: bool, ctrl: bool, shift: bool, logo: bool, mac: bool },
    /// Anything else. It is ignored.
    Other,
}

/// Whether `chr` is text that a user typed. Window systems also send keys
/// such as backspace or the function keys as characters; those, and the
/// code points of the private use areas, are not text.
pub open spec fn printable(chr: char) -> bool {
    let c = chr as u32;
    let private_use = (0xe000 <= c <= 0xf8ff) || (0xf0000 <= c <= 0xffffd) || (0x100000 <= c
        <= 0x10fffd);
    let ascii_control = c <= 0x1f || c == 0x7f;
    !private_use && !ascii_control
}

pub fn is_printable_char(chr: char) -> (b: bool)
    ensures
        b == printable(chr),
{
    let c = chr as u32;
    let private_use = (0xe000 <= c && c <= 0xf8ff) || (0xf0000 <= c && c <= 0xffffd) || (0x100000
        <= c && c <= 0x10fffd);
    let ascii_control = c <= 0x1f || c == 0x7f;
    !private_use && !ascii_control
}

/// The wheel movement that widgets are told of when the window system
/// reports `pixels`.
pub open spec fn wheel_from_pixels(pixels: Vec2) -> Vec2 {
    Vec2 {
        x: crate::geometry::clamp_unit(pixels.x * PIXELS_PER_LINE) as i32,
        y: crate::geometry::clamp_unit(pixels.y * PIXELS_PER_LINE) as i32,
    }
}

/// The modifier state after the window system reported a change.
pub open spec fn modifiers_from(alt: bool, ctrl: bool, shift: bool, logo: bool, mac: bool) -> ModifierState {
    ModifierState {
        alt,
        ctrl,
        shift,
        mac_cmd: mac && logo,
        ctrl_or_command: if mac {
            logo
        } else {
            ctrl
        },
    }
}

/// Everything that one frame knows of the input.
pub struct InputState {
    pub screen_size: Vec2,
    pub mouse: MouseState,
    pub modifiers: ModifierState,
    /// The events since the last frame, oldest first.
    pub ev_buffer: Vec<Event>,
}

/// The mathematical value of an [`InputState`].
pub struct InputModel {
    pub screen_size: Vec2,
    pub position: Pos2,
    pub prev_position: Pos2,
    pub buttons: Map<MouseButton, ButtonState>,
    pub ongoing_drag: ClickDragState,
    pub modifiers: ModifierState,
    pub events: Seq<Event>,
}

impl InputModel {
    /// The state of `button`; that of a button never heard of is idle.
    pub open spec fn button(self, button: MouseButton) -> ButtonState {
        if self.buttons.contains_key(button) {
            self.buttons[button]
        } else {
            ButtonState::idle()
        }
    }

    /// The same state with `event` behind the events already held.
    pub open spec fn with_event(self, event: Event) -> InputModel {
        InputModel { events: self.events.push(event), ..self }
    }

    /// The state after the window system reported `input`.
    pub open spec fn on_input(self, input: WindowInput) -> InputModel {
        match input {
            WindowInput::CursorMoved(pos) => InputModel {
                position: pos,
                buttons: self.buttons.map_values(|s: ButtonState| s.moved(pos)),
                ..self.with_event(Event::MouseMoved(pos))
            },
            WindowInput::MouseInput { pressed, button } => if pressed {
                InputModel {
                    buttons: self.buttons.insert(button, self.button(button).pressed(self.position)),
                    ..self.with_event(Event::MousePressed(button))
                }
            } else {
                InputModel {
                    buttons: self.buttons.insert(button, self.button(button).released()),
                    ..self.with_event(Event::MouseReleased(button))
                }
            },
            WindowInput::MouseWheelLines(lines) => self.with_event(Event::MouseWheel(lines)),
            WindowInput::MouseWheelPixels(pixels) => self.with_event(
                Event::MouseWheel(wheel_from_pixels(pixels)),
            ),
            WindowInput::KeyboardInput { key, pressed } => match key {
                Some(code) => self.with_event(
                    if pressed {
                        Event::KeyPressed(code)
                    } else {
                        Event::KeyReleased(code)
                    },
                ),
                None => self,
            },
            WindowInput::ReceivedCharacter(chr) => if printable(chr) {
                self.with_event(Event::Text(chr))
            } else {
                self
            },
            WindowInput::Resized(size) => InputModel { screen_size: size, ..self },
            WindowInput::ModifiersChanged { alt, ctrl, shift, logo, mac } => InputModel {
                modifiers: modifiers_from(alt, ctrl, shift, logo, mac),
                ..self
            },
            WindowInput::Other => self,
        }
    }

    /// The state at the start of the next frame. The events stay: the frame
    /// driver takes them out when it hands them to the widgets.
    pub open spec fn aged(self) -> InputModel {
        InputModel {
            prev_position: self.position,
            buttons: self.buttons.map_values(|s: ButtonState| s.aged()),
            ..self
        }
    }
}

impl View for InputState {
    type V = InputModel;

    open spec fn view(&self) -> InputModel {
        InputModel {
            screen_size: self.screen_size,
            position: self.mouse.position,
            prev_position: self.mouse.prev_position,
            buttons: self.mouse.button_state@,
            ongoing_drag: self.mouse.ongoing_drag,
            modifiers: self.modifiers,
            events: self.ev_buffer@,
        }
    }
}

/// Which widget has the focus, and which widget holds the drag of each
/// mouse button.
pub struct InputWidgetState {
    pub focus: Option<WidgetId>,
    /// For each button whose drag a widget has claimed, that widget.
    pub drag: LinearMap<MouseButton, WidgetId>,
    /// What parents have done to the coordinates in which their children
    /// report rectangles, so that pointer positions can be compared with them.
    pub cursor_transform: TranslateScale,
}

/// The mathematical value of an [`InputWidgetState`].
pub struct InputWidgetModel {
    pub focus: Option<WidgetId>,
    pub drag: Map<MouseButton, WidgetId>,
    pub cursor_transform: TranslateScale,
}

impl InputWidgetModel {
    /// No focus, no drag, and coordinates as they are.
    pub open spec fn initial() -> InputWidgetModel {
        InputWidgetModel {
            focus: None,
            drag: Map::empty(),
            cursor_transform: TranslateScale::identity_spec(),
        }
    }

    /// The state after the window system reported `input`: the release of
    /// a button ends the drag that was claimed for it.
    pub open spec fn on_input(self, input: WindowInput) -> InputWidgetModel {
        match input {
            WindowInput::MouseInput { pressed: false, button } => InputWidgetModel {
                drag: self.drag.remove(button),
                ..self
            },
            _ => self,
        }
    }

    /// The widget that holds the drag of `button`.
    pub open spec fn holder(self, button: MouseButton) -> Option<WidgetId> {
        if self.drag.contains_key(button) {
            Some(self.drag[button])
        } else {
            None
        }
    }
}

impl View for InputWidgetState {
    type V = InputWidgetModel;

    open spec fn view(&self) -> InputWidgetModel {
        InputWidgetModel {
            focus: self.focus,
            drag: self.drag@,
            cursor_transform: self.cursor_transform,
        }
    }
}

impl InputWidgetState {
    pub fn new() -> (s: InputWidgetState)
        ensures
            s@ == InputWidgetModel::initial(),
    {
        InputWidgetState {
            focus: None,
            drag: LinearMap::new(),
            cursor_transform: TranslateScale::identity(),
        }
    }
}

impl InputState {
    /// The input of a screen of the given size before anything happened.
    pub open spec fn new_spec(screen_size: Vec2) -> InputModel {
        InputModel {
            screen_size,
            position: Pos2::zero_spec(),
            prev_position: Pos2::zero_spec(),
            buttons: Map::empty(),
            ongoing_drag: ClickDragState::Idle,
            modifiers: ModifierState::none(),
            events: Seq::empty(),
        }
    }

    pub fn new(screen_size: Vec2) -> (s: InputState)
        ensures
            s@ == InputState::new_spec(screen_size),
    {
        InputState {
            screen_size,
            mouse: MouseState::new(),
            modifiers: ModifierState::default(),
            ev_buffer: Vec::new(),
        }
    }

    /// Ends the frame: the pointer's position becomes the previous one, and
    /// every button forgets what was true of this frame only.
    pub fn end_frame(&mut self)
        ensures
            final(self)@ == old(self)@.aged(),
    {
        self.mouse.prev_position = self.mouse.position;
        self.mouse.button_state.end_frame();
    }

    /// Takes in one report of the window system: the event that widgets
    /// will see is put behind those already held, and the state of pointer,
    /// buttons, modifiers and screen follows the report. The release of a
    /// button also ends the drag that a widget had claimed for it.
    pub fn on_winit_event(&mut self, widget_state: &mut InputWidgetState, ev: &WindowInput)
        ensures
            final(self)@ == old(self)@.on_input(*ev),
            final(widget_state)@ == old(widget_state)@.on_input(*ev),
    {
        match *ev {
            WindowInput::CursorMoved(pos) => {
                self.ev_buffer.push(Event::MouseMoved(pos));
                self.mouse.position = pos;
                self.mouse.button_state.on_mouse_moved(pos);
            },
            WindowInput::MouseInput { pressed, button } => {
                if pressed {
                    self.ev_buffer.push(Event::MousePressed(button));
                    let position = self.mouse.position;
                    self.mouse.button_state.on_mouse_pressed(button, position);
                } else {
                    self.ev_buffer.push(Event::MouseReleased(button));
                    self.mouse.button_state.on_mouse_released(button);
                    widget_state.drag.remove(&button);
                }
            },
            WindowInput::MouseWheelLines(lines) => {
                self.ev_buffer.push(Event::MouseWheel(lines));
            },
            WindowInput::MouseWheelPixels(pixels) => {
                assert(-0x8000_0000 * 50 <= pixels.x * PIXELS_PER_LINE <= 0x8000_0000 * 50);
                assert(-0x8000_0000 * 50 <= pixels.y * PIXELS_PER_LINE <= 0x8000_0000 * 50);
                let x = crate::geometry::saturate(pixels.x as i128 * PIXELS_PER_LINE as i128);
                let y = crate::geometry::saturate(pixels.y as i128 * PIXELS_PER_LINE as i128);
                self.ev_buffer.push(Event::MouseWheel(Vec2 { x, y }));
            },
            WindowInput::KeyboardInput { key, pressed } => {
                match key {
                    Some(code) => {
                        if pressed {
                            self.ev_buffer.push(Event::KeyPressed(code));
                        } else {
                            self.ev_buffer.push(Event::KeyReleased(code));
                        }
                    },
                    None => {},
                }
            },
            WindowInput::ReceivedCharacter(chr) => {
                if is_printable_char(chr) {
                    self.ev_buffer.push(Event::Text(chr));
                }
            },
            WindowInput::Resized(size) => {
                self.screen_size = size;
            },
            WindowInput::ModifiersChanged { alt, ctrl, shift, logo, mac } => {
                self.modifiers.alt = alt;
                self.modifiers.ctrl = ctrl;
                self.modifiers.shift = shift;
                self.modifiers.mac_cmd = mac && logo;
                self.modifiers.ctrl_or_command = if mac {
                    logo
                } else {
                    ctrl
                };
            },
            WindowInput::Other => {},
        }
    }
}

} // verus!
