use guee::context::Context;
use guee::geometry::Pos2;
use guee::geometry::Rect;
use guee::geometry::Vec2;
use guee::input::MouseButton;
use guee::input::WindowInput;
use guee::transform::TranslateScale;
use guee::transform::SCALE_ONE;
use guee::widget_id::WidgetId;

type Ctx = Context<(), u32, fn(&mut (), ()), ()>;

fn ctx() -> Ctx {
    Context::new(Vec2::new(800, 600), ())
}

fn rect(x: i32, y: i32, w: i32, h: i32) -> Rect {
    Rect::from_min_size(Pos2::new(x, y), Vec2::new(w, h))
}

fn start_drag(ctx: &mut Ctx, button: MouseButton, from: Pos2, to: Pos2) {
    ctx.on_winit_event(&WindowInput::CursorMoved(from));
    ctx.on_winit_event(&WindowInput::MouseInput { pressed: true, button });
    ctx.on_winit_event(&WindowInput::CursorMoved(to));
}

fn a() -> WidgetId {
    WidgetId::new("a")
}

fn b() -> WidgetId {
    WidgetId::new("b")
}

#[test]
fn the_first_claim_wins_and_keeps_the_drag() {
    let mut ctx = ctx();
    start_drag(&mut ctx, MouseButton::Primary, Pos2::new(500, 500), Pos2::new(1500, 500));
    let rect_a = rect(0, 0, 1000, 1000);
    let rect_b = rect(400, 400, 1000, 1000);

    assert!(ctx.claim_drag_event(a(), rect_a, MouseButton::Primary));
    assert!(!ctx.claim_drag_event(b(), rect_b, MouseButton::Primary));

    // For the rest of the drag, wherever the pointer goes.
    ctx.on_winit_event(&WindowInput::CursorMoved(Pos2::new(1300, 1300)));
    ctx.input_state.end_frame();
    assert!(!ctx.claim_drag_event(b(), rect_b, MouseButton::Primary));
    assert!(ctx.claim_drag_event(a(), rect(0, 0, 1, 1), MouseButton::Primary));
    assert!(!ctx.claim_drag_event(b(), rect_b, MouseButton::Primary));
}

#[test]
fn a_claim_needs_a_drag_that_started_inside_the_rectangle() {
    let mut ctx = ctx();
    assert!(!ctx.claim_drag_event(a(), rect(0, 0, 1000, 1000), MouseButton::Primary));

    ctx.on_winit_event(&WindowInput::CursorMoved(Pos2::new(500, 500)));
    ctx.on_winit_event(&WindowInput::MouseInput { pressed: true, button: MouseButton::Primary });
    // Pressed, but not moved far enough yet.
    assert!(!ctx.claim_drag_event(a(), rect(0, 0, 1000, 1000), MouseButton::Primary));

    ctx.on_winit_event(&WindowInput::CursorMoved(Pos2::new(5000, 500)));
    // The drag started at 500, 500: the pointer's place now does not count.
    assert!(!ctx.claim_drag_event(a(), rect(4000, 0, 2000, 1000), MouseButton::Primary));
    assert!(!ctx.claim_drag_event(a(), rect(0, 0, 1000, 1000), MouseButton::Secondary));
    assert!(ctx.claim_drag_event(b(), rect(500, 500, 0, 0), MouseButton::Primary));
    assert!(!ctx.claim_drag_event(a(), rect(0, 0, 1000, 1000), MouseButton::Primary));
}

#[test]
fn the_release_frees_the_drag() {
    let mut ctx = ctx();
    start_drag(&mut ctx, MouseButton::Primary, Pos2::new(500, 500), Pos2::new(1500, 500));
    assert!(ctx.claim_drag_event(a(), rect(0, 0, 1000, 1000), MouseButton::Primary));
    ctx.on_winit_event(&WindowInput::MouseInput { pressed: false, button: MouseButton::Primary });
    assert!(!ctx.claim_drag_event(a(), rect(0, 0, 1000, 1000), MouseButton::Primary));

    start_drag(&mut ctx, MouseButton::Primary, Pos2::new(500, 500), Pos2::new(1500, 500));
    assert!(ctx.claim_drag_event(b(), rect(0, 0, 1000, 1000), MouseButton::Primary));
    assert!(!ctx.claim_drag_event(a(), rect(0, 0, 1000, 1000), MouseButton::Primary));
}

#[test]
fn each_button_has_a_drag_of_its_own() {
    let mut ctx = ctx();
    start_drag(&mut ctx, MouseButton::Primary, Pos2::new(500, 500), Pos2::new(1500, 500));
    ctx.on_winit_event(&WindowInput::MouseInput { pressed: true, button: MouseButton::Secondary });
    ctx.on_winit_event(&WindowInput::CursorMoved(Pos2::new(500, 500)));
    assert!(ctx.claim_drag_event(a(), rect(0, 0, 1000, 1000), MouseButton::Primary));
    assert!(ctx.claim_drag_event(b(), rect(1400, 400, 200, 200), MouseButton::Secondary));
    ctx.on_winit_event(&WindowInput::MouseInput { pressed: false, button: MouseButton::Primary });
    assert!(ctx.claim_drag_event(b(), rect(0, 0, 0, 0), MouseButton::Secondary));
    assert!(!ctx.claim_drag_event(a(), rect(1400, 400, 200, 200), MouseButton::Secondary));
}

#[test]
fn the_cursor_transform_is_applied_to_where_the_drag_started() {
    let mut ctx = ctx();
    start_drag(&mut ctx, MouseButton::Primary, Pos2::new(100, 100), Pos2::new(1500, 500));
    ctx.input_widget_state.cursor_transform =
        TranslateScale::identity().scaled(2 * SCALE_ONE).translated(Vec2::new(1000, 0));
    assert!(!ctx.claim_drag_event(a(), rect(0, 0, 500, 500), MouseButton::Primary));
    assert!(ctx.claim_drag_event(a(), rect(1200, 200, 0, 0), MouseButton::Primary));
}

#[test]
fn focus_is_taken_by_asking_and_given_up_only_by_the_holder() {
    let mut ctx = ctx();
    assert_eq!(ctx.get_focus(), None);
    assert!(!ctx.is_focused(a()));

    ctx.request_focus(a());
    assert_eq!(ctx.get_focus(), Some(a()));
    assert!(ctx.is_focused(a()));
    assert!(!ctx.is_focused(b()));

    ctx.request_focus(b());
    assert_eq!(ctx.get_focus(), Some(b()));

    // A late release by the widget that lost the focus changes nothing.
    ctx.release_focus(a());
    assert_eq!(ctx.get_focus(), Some(b()));

    ctx.release_focus(b());
    assert_eq!(ctx.get_focus(), None);
    ctx.release_focus(b());
    assert_eq!(ctx.get_focus(), None);
}
