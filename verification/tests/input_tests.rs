use guee::geometry::Pos2;
use guee::geometry::Vec2;
use guee::input::is_printable_char;
use guee::input::ButtonState;
use guee::input::ButtonStateMap;
use guee::input::ClickDragState;
use guee::input::Event;
use guee::input::EventStatus;
use guee::input::InputState;
use guee::input::InputWidgetState;
use guee::input::KeyCode;
use guee::input::ModifierState;
use guee::input::MouseButton;
use guee::input::MouseState;
use guee::input::WindowInput;
use guee::input::DRAG_THRESHOLD;
use guee::input::PIXELS_PER_LINE;
use guee::widget_id::WidgetId;

fn press(button: MouseButton) -> WindowInput {
    WindowInput::MouseInput { pressed: true, button }
}

fn release(button: MouseButton) -> WindowInput {
    WindowInput::MouseInput { pressed: false, button }
}

fn fresh() -> (InputState, InputWidgetState) {
    (InputState::new(Vec2::new(800, 600)), InputWidgetState::new())
}

#[test]
fn or_else_asks_only_where_the_events_are_unconsumed() {
    assert_eq!(EventStatus::Ignored.or_else(|| EventStatus::Consumed), EventStatus::Consumed);
    assert_eq!(EventStatus::Ignored.or_else(|| EventStatus::Ignored), EventStatus::Ignored);
    let mut asked = false;
    let status = EventStatus::Consumed.or_else(|| {
        asked = true;
        EventStatus::Ignored
    });
    assert_eq!(status, EventStatus::Consumed);
    assert!(!asked);
}

#[test]
fn a_button_goes_from_idle_to_clicked_to_dragged_and_back() {
    let mut buttons = ButtonStateMap::new();
    let button = MouseButton::Primary;
    assert_eq!(buttons.get(button), ButtonState::default());
    assert_eq!(buttons.get(button).drag_state, ClickDragState::Idle);
    assert!(!buttons.is_down(button));

    buttons.on_mouse_pressed(button, Pos2::new(100, 100));
    assert!(buttons.is_down(button));
    assert!(buttons.is_pressed(button));
    assert_eq!(buttons.get(button).drag_state, ClickDragState::Clicked(Pos2::new(100, 100)));
    assert_eq!(buttons.is_dragging(button), None);

    // Exactly the threshold away is not yet a drag.
    buttons.on_mouse_moved(Pos2::new(100 + DRAG_THRESHOLD, 100));
    assert_eq!(buttons.get(button).drag_state, ClickDragState::Clicked(Pos2::new(100, 100)));

    buttons.on_mouse_moved(Pos2::new(100 + DRAG_THRESHOLD, 101));
    assert_eq!(buttons.get(button).drag_state, ClickDragState::DragJustStarted(Pos2::new(100, 100)));
    assert!(buttons.dragging_just_started(button));
    assert_eq!(buttons.is_dragging(button), Some(Pos2::new(100, 100)));

    buttons.end_frame();
    assert_eq!(buttons.get(button).drag_state, ClickDragState::Dragged(Pos2::new(100, 100)));
    assert!(!buttons.dragging_just_started(button));
    assert!(!buttons.is_pressed(button));
    assert!(buttons.is_down(button));
    assert_eq!(buttons.is_dragging(button), Some(Pos2::new(100, 100)));

    buttons.on_mouse_moved(Pos2::new(0, 0));
    assert_eq!(buttons.get(button).drag_state, ClickDragState::Dragged(Pos2::new(100, 100)));

    buttons.on_mouse_released(button);
    assert_eq!(buttons.get(button).drag_state, ClickDragState::Idle);
    assert!(buttons.is_released(button));
    assert!(!buttons.is_clicked(button));
    assert!(!buttons.is_down(button));

    buttons.end_frame();
    assert_eq!(buttons.get(button), ButtonState::default());
}

#[test]
fn the_threshold_is_four_pixels() {
    assert_eq!(DRAG_THRESHOLD, 4 * guee::geometry::UNITS_PER_PIXEL);
    let origin = Pos2::new(0, 0);
    let pressed = ButtonState::new().on_pressed(origin);
    // 3-4-5 triangles: 150, 200 is 250 away, 156, 208 is 260 away.
    assert_eq!(pressed.on_moved(Pos2::new(150, 200)).drag_state, ClickDragState::Clicked(origin));
    assert_eq!(pressed.on_moved(Pos2::new(156, 208)).drag_state, ClickDragState::DragJustStarted(origin));
    assert_eq!(pressed.on_moved(Pos2::new(-156, -208)).drag_state, ClickDragState::DragJustStarted(origin));
    let far = ButtonState::new().on_pressed(Pos2::new(i32::MIN, i32::MIN));
    assert_eq!(
        far.on_moved(Pos2::new(i32::MAX, i32::MAX)).drag_state,
        ClickDragState::DragJustStarted(Pos2::new(i32::MIN, i32::MIN))
    );
}

#[test]
fn a_release_without_a_drag_is_a_click() {
    let mut buttons = ButtonStateMap::new();
    buttons.on_mouse_pressed(MouseButton::Secondary, Pos2::new(5, 5));
    buttons.on_mouse_moved(Pos2::new(6, 6));
    buttons.on_mouse_released(MouseButton::Secondary);
    assert!(buttons.is_clicked(MouseButton::Secondary));
    assert!(buttons.is_released(MouseButton::Secondary));
    assert!(!buttons.is_clicked(MouseButton::Primary));
    assert!(!buttons.is_released(MouseButton::Primary));
    buttons.end_frame();
    assert!(!buttons.is_clicked(MouseButton::Secondary));
    assert!(!buttons.is_released(MouseButton::Secondary));
}

#[test]
fn buttons_are_kept_apart() {
    let mut buttons = ButtonStateMap::new();
    buttons.on_mouse_pressed(MouseButton::Other(7), Pos2::new(0, 0));
    buttons.on_mouse_pressed(MouseButton::Middle, Pos2::new(1000, 1000));
    buttons.on_mouse_moved(Pos2::new(1000, 1000));
    assert_eq!(buttons.is_dragging(MouseButton::Other(7)), Some(Pos2::new(0, 0)));
    assert_eq!(buttons.is_dragging(MouseButton::Middle), None);
    assert_eq!(buttons.is_dragging(MouseButton::Other(8)), None);
    buttons.on_mouse_released(MouseButton::Other(7));
    assert!(buttons.is_down(MouseButton::Middle));
    assert!(!buttons.is_down(MouseButton::Other(7)));
}

#[test]
fn a_released_button_that_was_never_pressed_is_just_released() {
    let mut buttons = ButtonStateMap::new();
    buttons.on_mouse_released(MouseButton::Primary);
    let state = buttons.get(MouseButton::Primary);
    assert!(state.just_released);
    assert!(!state.just_clicked);
    assert!(!state.down);
}

#[test]
fn printable_characters() {
    assert!(is_printable_char('a'));
    assert!(is_printable_char(' '));
    assert!(is_printable_char('é'));
    assert!(is_printable_char('\u{d7ff}'));
    assert!(!is_printable_char('\r'));
    assert!(!is_printable_char('\n'));
    assert!(!is_printable_char('\t'));
    assert!(!is_printable_char('\u{8}'));
    assert!(!is_printable_char('\u{7f}'));
    assert!(is_printable_char('\u{80}'));
    assert!(!is_printable_char('\u{e000}'));
    assert!(!is_printable_char('\u{f8ff}'));
    assert!(is_printable_char('\u{f900}'));
    assert!(!is_printable_char('\u{f0000}'));
    assert!(!is_printable_char('\u{ffffd}'));
    assert!(is_printable_char('\u{ffffe}'));
    assert!(!is_printable_char('\u{100000}'));
    assert!(!is_printable_char('\u{10fffd}'));
    assert!(is_printable_char('\u{10fffe}'));
}

#[test]
fn a_new_input_state_is_empty() {
    let (input, widgets) = fresh();
    assert_eq!(input.screen_size, Vec2::new(800, 600));
    assert_eq!(input.mouse.position, Pos2::new(0, 0));
    assert_eq!(input.mouse.prev_position, Pos2::new(0, 0));
    assert_eq!(input.mouse.ongoing_drag, ClickDragState::Idle);
    assert_eq!(input.modifiers, ModifierState::default());
    assert!(input.ev_buffer.is_empty());
    assert_eq!(widgets.focus, None);
    assert_eq!(widgets.drag.len(), 0);
}

#[test]
fn window_input_becomes_events_in_order() {
    let (mut input, mut widgets) = fresh();
    input.on_winit_event(&mut widgets, &WindowInput::CursorMoved(Pos2::new(10, 20)));
    input.on_winit_event(&mut widgets, &press(MouseButton::Primary));
    input.on_winit_event(&mut widgets, &WindowInput::MouseWheelLines(Vec2::new(0, -3)));
    input.on_winit_event(&mut widgets, &WindowInput::MouseWheelPixels(Vec2::new(2, -1)));
    input.on_winit_event(&mut widgets, &WindowInput::KeyboardInput { key: Some(KeyCode(30)), pressed: true });
    input.on_winit_event(&mut widgets, &WindowInput::KeyboardInput { key: None, pressed: true });
    input.on_winit_event(&mut widgets, &WindowInput::KeyboardInput { key: Some(KeyCode(30)), pressed: false });
    input.on_winit_event(&mut widgets, &WindowInput::ReceivedCharacter('x'));
    input.on_winit_event(&mut widgets, &WindowInput::ReceivedCharacter('\u{8}'));
    input.on_winit_event(&mut widgets, &WindowInput::Other);
    input.on_winit_event(&mut widgets, &release(MouseButton::Primary));

    assert_eq!(
        input.ev_buffer,
        vec![
            Event::MouseMoved(Pos2::new(10, 20)),
            Event::MousePressed(MouseButton::Primary),
            Event::MouseWheel(Vec2::new(0, -3)),
            Event::MouseWheel(Vec2::new(2 * PIXELS_PER_LINE, -PIXELS_PER_LINE)),
            Event::KeyPressed(KeyCode(30)),
            Event::KeyReleased(KeyCode(30)),
            Event::Text('x'),
            Event::MouseReleased(MouseButton::Primary),
        ]
    );
    assert_eq!(input.mouse.position, Pos2::new(10, 20));
    assert!(input.mouse.button_state.is_clicked(MouseButton::Primary));
}

#[test]
fn a_wheel_movement_in_pixels_saturates() {
    let (mut input, mut widgets) = fresh();
    input.on_winit_event(&mut widgets, &WindowInput::MouseWheelPixels(Vec2::new(i32::MAX, i32::MIN)));
    assert_eq!(input.ev_buffer, vec![Event::MouseWheel(Vec2::new(i32::MAX, i32::MIN))]);
}

#[test]
fn a_press_is_where_the_pointer_was_last_seen() {
    let (mut input, mut widgets) = fresh();
    input.on_winit_event(&mut widgets, &WindowInput::CursorMoved(Pos2::new(70, 80)));
    input.on_winit_event(&mut widgets, &press(MouseButton::Middle));
    assert_eq!(
        input.mouse.button_state.get(MouseButton::Middle).drag_state,
        ClickDragState::Clicked(Pos2::new(70, 80))
    );
    input.on_winit_event(&mut widgets, &WindowInput::CursorMoved(Pos2::new(70, 80 + 257)));
    assert_eq!(input.mouse.button_state.is_dragging(MouseButton::Middle), Some(Pos2::new(70, 80)));
}

#[test]
fn resizing_and_modifiers() {
    let (mut input, mut widgets) = fresh();
    input.on_winit_event(&mut widgets, &WindowInput::Resized(Vec2::new(1024, 768)));
    assert_eq!(input.screen_size, Vec2::new(1024, 768));
    assert!(input.ev_buffer.is_empty());

    let change = |mac: bool| WindowInput::ModifiersChanged { alt: true, ctrl: false, shift: true, logo: true, mac };
    input.on_winit_event(&mut widgets, &change(false));
    assert_eq!(
        input.modifiers,
        ModifierState { alt: true, ctrl: false, shift: true, mac_cmd: false, ctrl_or_command: false }
    );
    input.on_winit_event(&mut widgets, &change(true));
    assert_eq!(
        input.modifiers,
        ModifierState { alt: true, ctrl: false, shift: true, mac_cmd: true, ctrl_or_command: true }
    );
    input.on_winit_event(
        &mut widgets,
        &WindowInput::ModifiersChanged { alt: false, ctrl: true, shift: false, logo: false, mac: false },
    );
    assert_eq!(
        input.modifiers,
        ModifierState { alt: false, ctrl: true, shift: false, mac_cmd: false, ctrl_or_command: true }
    );
}

#[test]
fn a_release_ends_the_drag_claimed_for_that_button() {
    let (mut input, mut widgets) = fresh();
    widgets.drag.insert(MouseButton::Primary, WidgetId::new("a"));
    widgets.drag.insert(MouseButton::Secondary, WidgetId::new("b"));
    widgets.focus = Some(WidgetId::new("a"));
    input.on_winit_event(&mut widgets, &press(MouseButton::Primary));
    assert_eq!(widgets.drag.get(&MouseButton::Primary), Some(&WidgetId::new("a")));
    input.on_winit_event(&mut widgets, &release(MouseButton::Primary));
    assert_eq!(widgets.drag.get(&MouseButton::Primary), None);
    assert_eq!(widgets.drag.get(&MouseButton::Secondary), Some(&WidgetId::new("b")));
    assert_eq!(widgets.focus, Some(WidgetId::new("a")));
}

#[test]
fn ending_the_frame_ages_the_input() {
    let (mut input, mut widgets) = fresh();
    input.on_winit_event(&mut widgets, &WindowInput::CursorMoved(Pos2::new(10, 20)));
    input.on_winit_event(&mut widgets, &press(MouseButton::Primary));
    assert_eq!(input.mouse.delta(), Vec2::new(10, 20));
    input.end_frame();
    assert_eq!(input.mouse.prev_position, Pos2::new(10, 20));
    assert_eq!(input.mouse.delta(), Vec2::new(0, 0));
    assert!(!input.mouse.button_state.is_pressed(MouseButton::Primary));
    assert!(input.mouse.button_state.is_down(MouseButton::Primary));
    assert_eq!(input.ev_buffer.len(), 2);
}

#[test]
fn the_pointer_delta_saturates() {
    let mut mouse = MouseState::new();
    mouse.position = Pos2::new(i32::MAX, 0);
    mouse.prev_position = Pos2::new(-1, 5);
    assert_eq!(mouse.delta(), Vec2::new(i32::MAX, -5));
}
