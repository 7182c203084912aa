use std::any::Any;
use std::cell::RefCell;
use std::rc::Rc;

use guee::accessor::AccessError;
use guee::accessor::AccessorRegistry;
use guee::base_widgets::box_container::BoxContainer;
use guee::base_widgets::margin_container::MarginContainer;
use guee::base_widgets::sized_container::SizedContainer;
use guee::base_widgets::spacer::Spacer;
use guee::base_widgets::stack_container::StackContainer;
use guee::callback::Callback;
use guee::context::Context;
use guee::geometry::Pos2;
use guee::geometry::Rect;
use guee::geometry::Vec2;
use guee::input::Event;
use guee::input::EventStatus;
use guee::input::MouseButton;
use guee::input::WindowInput;
use guee::layout::Layout;
use guee::layout::LayoutHints;
use guee::transform::TranslateScale;
use guee::type_tag::TypeTag;
use guee::widget::DynWidget;
use guee::widget::ToDynWidget;
use guee::widget::Widget;
use guee::widget_id::IdGen;
use guee::widget_id::WidgetId;

type Accessor = Box<dyn for<'a> Fn(&'a mut dyn Any) -> &'a mut dyn Any>;
type Handler = Box<dyn FnOnce(&mut dyn Any, u32)>;
type Painter = Vec<Rect>;
type Ctx = Context<Painter, u32, Handler, u32>;
type Dyn = DynWidget<Painter, u32, Handler, u32>;

const COUNTER: TypeTag = TypeTag(1);
const CLICKS: TypeTag = TypeTag(2);

/// What a pad saw, for the test to look at afterwards.
#[derive(Default)]
struct Seen {
    events: Vec<Vec<Event>>,
    statuses: Vec<EventStatus>,
    bounds: Vec<Rect>,
}

/// A square that counts the presses it sees in memory, and tells the
/// application of each.
struct Pad {
    name: &'static str,
    side: i32,
    consume: bool,
    seen: Rc<RefCell<Seen>>,
}

impl Widget<Painter, u32, Handler, u32> for Pad {
    fn layout(&mut self, ctx: &mut Ctx, parent_id: WidgetId, _available: Vec2, _force_shrink: bool) -> Layout {
        let id = parent_id.with(self.name);
        ctx.memory.ensure(id, CLICKS, 0);
        Layout::leaf(id, Vec2::new(self.side, self.side))
    }

    fn draw(&mut self, ctx: &mut Ctx, layout: &Layout) {
        ctx.painter().push(layout.bounds);
    }

    fn layout_hints(&self) -> LayoutHints {
        LayoutHints::shrink()
    }

    fn on_event(
        &mut self,
        ctx: &mut Ctx,
        layout: &Layout,
        cursor_position: Pos2,
        events: &[Event],
        status: &mut EventStatus,
    ) {
        let mut seen = self.seen.borrow_mut();
        seen.events.push(events.to_vec());
        seen.statuses.push(*status);
        seen.bounds.push(layout.bounds);
        if *status == EventStatus::Consumed || !layout.bounds.contains(cursor_position) {
            return;
        }
        let presses = events.iter().filter(|e| matches!(e, Event::MousePressed(_))).count() as u32;
        if presses > 0 {
            *ctx.memory.get_mut(layout.widget_id, CLICKS) += presses;
            let add: Handler = Box::new(|state, amount| {
                *state.downcast_mut::<u32>().expect("Failed downcast") += amount;
            });
            ctx.dispatch_callback(Callback::from_fn(COUNTER, add), presses);
            if self.consume {
                *status = EventStatus::Consumed;
            }
        }
    }
}

fn pad(name: &'static str, side: i32, consume: bool, seen: &Rc<RefCell<Seen>>) -> Dyn {
    DynWidget::new(Pad { name, side, consume, seen: seen.clone() })
}

fn click_at(ctx: &mut Ctx, at: Pos2) {
    ctx.on_winit_event(&WindowInput::CursorMoved(at));
    ctx.on_winit_event(&WindowInput::MouseInput { pressed: true, button: MouseButton::Primary });
    ctx.on_winit_event(&WindowInput::MouseInput { pressed: false, button: MouseButton::Primary });
}

#[test]
fn one_frame_lays_out_routes_paints_and_runs_callbacks() {
    let first = Rc::new(RefCell::new(Seen::default()));
    let second = Rc::new(RefCell::new(Seen::default()));
    let mut tree: Dyn = DynWidget::new(
        BoxContainer::vertical(
            IdGen::key("column"),
            vec![pad("first", 100, true, &first), DynWidget::new(Spacer::v(50)), pad("second", 200, true, &second)],
        )
        .separation(10),
    );
    let mut ctx: Ctx = Context::new(Vec2::new(1000, 1000), Vec::new());
    let registry: AccessorRegistry<Accessor> = AccessorRegistry::new();
    let mut counter: u32 = 0;

    click_at(&mut ctx, Pos2::new(150, 250));
    let result = ctx.run(&mut tree, &mut counter as &mut dyn Any, COUNTER, &registry);

    assert_eq!(result, Ok(()));
    // The second pad starts at 100 + 10 + 50 + 10 and was hit.
    assert_eq!(second.borrow().bounds, vec![Rect::from_min_size(Pos2::new(0, 170), Vec2::new(200, 200))]);
    assert_eq!(first.borrow().statuses, vec![EventStatus::Ignored]);
    assert_eq!(second.borrow().statuses, vec![EventStatus::Ignored]);
    assert_eq!(
        second.borrow().events[0],
        vec![
            Event::MouseMoved(Pos2::new(150, 250)),
            Event::MousePressed(MouseButton::Primary),
            Event::MouseReleased(MouseButton::Primary),
        ]
    );
    assert_eq!(counter, 1);
    // Painted in order, with absolute bounds.
    assert_eq!(
        ctx.painter,
        vec![
            Rect::from_min_size(Pos2::new(0, 0), Vec2::new(100, 100)),
            Rect::from_min_size(Pos2::new(0, 170), Vec2::new(200, 200)),
        ]
    );
    // Nothing of the frame is left behind.
    assert!(ctx.input_state.ev_buffer.is_empty());
    assert!(ctx.dispatched_callbacks.external.is_empty());
    assert_eq!(ctx.dispatched_callbacks.next_token, 0);
    assert!(!ctx.input_state.mouse.button_state.is_clicked(MouseButton::Primary));
    assert_eq!(ctx.input_state.mouse.prev_position, Pos2::new(150, 250));
    // What the widget remembers is found again in the next frame.
    let id = WidgetId::new("__ROOT__").with("column").with("second");
    assert_eq!(*ctx.memory.get(id, CLICKS), 1);

    click_at(&mut ctx, Pos2::new(150, 250));
    click_at(&mut ctx, Pos2::new(150, 251));
    assert_eq!(ctx.run(&mut tree, &mut counter as &mut dyn Any, COUNTER, &registry), Ok(()));
    assert_eq!(counter, 3);
    assert_eq!(*ctx.memory.get(id, CLICKS), 3);
}

#[test]
fn a_widget_that_consumes_the_events_stops_those_behind_it() {
    let first = Rc::new(RefCell::new(Seen::default()));
    let second = Rc::new(RefCell::new(Seen::default()));
    // Both pads lie under the pointer: the second is laid over the first.
    let stacked = |consume: bool, first: &Rc<RefCell<Seen>>, second: &Rc<RefCell<Seen>>| -> Dyn {
        DynWidget::new(
            BoxContainer::horizontal(
                IdGen::key("row"),
                vec![pad("first", 100, consume, first), pad("second", 100, true, second)],
            )
            .separation(-100),
        )
    };
    let registry: AccessorRegistry<Accessor> = AccessorRegistry::new();

    let mut ctx: Ctx = Context::new(Vec2::new(1000, 1000), Vec::new());
    let mut counter: u32 = 0;
    click_at(&mut ctx, Pos2::new(50, 50));
    let mut tree = stacked(true, &first, &second);
    assert_eq!(ctx.run(&mut tree, &mut counter as &mut dyn Any, COUNTER, &registry), Ok(()));
    assert_eq!(first.borrow().statuses, vec![EventStatus::Ignored]);
    assert!(second.borrow().statuses.is_empty());
    assert_eq!(counter, 1);

    let mut ctx: Ctx = Context::new(Vec2::new(1000, 1000), Vec::new());
    let mut counter: u32 = 0;
    click_at(&mut ctx, Pos2::new(50, 50));
    let mut tree = stacked(false, &first, &second);
    assert_eq!(ctx.run(&mut tree, &mut counter as &mut dyn Any, COUNTER, &registry), Ok(()));
    assert_eq!(second.borrow().statuses, vec![EventStatus::Ignored]);
    assert_eq!(counter, 2);
}

#[test]
fn a_frame_fails_where_a_callback_finds_no_state() {
    let seen = Rc::new(RefCell::new(Seen::default()));
    let mut tree = pad("only", 100, true, &seen);
    let mut ctx: Ctx = Context::new(Vec2::new(1000, 1000), Vec::new());
    let registry: AccessorRegistry<Accessor> = AccessorRegistry::new();
    let mut state: u32 = 0;
    click_at(&mut ctx, Pos2::new(50, 50));

    // The callback asks for the counter, but the root is said to be of another type.
    let result = ctx.run(&mut tree, &mut state as &mut dyn Any, TypeTag(99), &registry);

    assert_eq!(result, Err(AccessError::NoPath));
    assert_eq!(state, 0);
    assert!(ctx.dispatched_callbacks.external.is_empty());
    assert!(ctx.input_state.ev_buffer.is_empty());
}

#[test]
fn a_sized_container_offers_its_own_size() {
    let mut sized = SizedContainer::new(DynWidget::new(Spacer::fill_h(1)), Vec2::new(70, 80));
    let mut ctx: Ctx = Context::new(Vec2::new(1000, 1000), Vec::new());
    let node = sized.layout(&mut ctx, WidgetId::new("root"), Vec2::new(500, 500), false);
    assert_eq!(node.bounds.size(), Vec2::new(70, 0));
    assert_eq!(node.widget_id, WidgetId::new("root").with("spacer"));
    assert_eq!(Widget::<Painter, u32, Handler, u32>::layout_hints(&sized), LayoutHints::fill_horizontal());
}

#[test]
fn a_spacer_fills_or_keeps_its_minimum() {
    let mut ctx: Ctx = Context::new(Vec2::new(1000, 1000), Vec::new());
    let parent = WidgetId::new("root");
    let available = Vec2::new(500, 400);
    let size = |mut spacer: Spacer, ctx: &mut Ctx, force: bool| -> Vec2 {
        spacer.layout(ctx, parent, available, force).bounds.size()
    };
    assert_eq!(size(Spacer::v(30), &mut ctx, false), Vec2::new(0, 30));
    assert_eq!(size(Spacer::h(30), &mut ctx, false), Vec2::new(30, 0));
    assert_eq!(size(Spacer::fill_h(2), &mut ctx, false), Vec2::new(500, 0));
    assert_eq!(size(Spacer::fill_v(2), &mut ctx, false), Vec2::new(0, 400));
    assert_eq!(size(Spacer::fill_v(2), &mut ctx, true), Vec2::new(0, 0));
    assert_eq!(size(Spacer::new(Vec2::new(5, 6), LayoutHints::fill()), &mut ctx, false), available);
    assert_eq!(size(Spacer::new(Vec2::new(5, 6), LayoutHints::fill()), &mut ctx, true), Vec2::new(5, 6));
    assert_eq!(Spacer::fill_h(2).layout_hints.weight, 2);
    assert_eq!(Spacer::v(30).layout_hints.weight, 1);
}

#[test]
fn internal_callbacks_are_polled_through_the_context() {
    let mut ctx: Ctx = Context::new(Vec2::new(1000, 1000), Vec::new());
    assert!(ctx.can_create_internal_callback());
    let (callback, token) = ctx.create_internal_callback();
    assert_eq!(ctx.poll_callback_result(token), None);
    ctx.dispatch_callback(callback, 12);
    assert_eq!(ctx.poll_callback_result(token), Some(12));
    assert_eq!(ctx.poll_callback_result(token), None);
    ctx.dispatched_callbacks.next_token = usize::MAX;
    assert!(!ctx.can_create_internal_callback());
}

#[test]
fn a_margin_container_holds_its_child_in_the_middle() {
    let mut ctx: Ctx = Context::new(Vec2::new(1000, 1000), Vec::new());
    let mut container =
        MarginContainer::new(IdGen::key("margin"), DynWidget::new(Spacer::fill_h(1))).margin(Vec2::new(20, 7));
    let node = container.layout(&mut ctx, WidgetId::new("root"), Vec2::new(500, 400), false);
    // The child is offered what the margin leaves, and moved by half the margin, rounded down.
    assert_eq!(node.children.len(), 1);
    assert_eq!(node.children[0].bounds, Rect::from_min_size(Pos2::new(10, 3), Vec2::new(480, 0)));
    assert_eq!(node.bounds, Rect::from_min_size(Pos2::new(0, 0), Vec2::new(500, 7)));
    assert_eq!(node.widget_id, WidgetId::new("root").with("margin"));
    assert_eq!(node.children[0].widget_id, WidgetId::new("root").with("margin").with("spacer"));
    assert_eq!(Widget::<Painter, u32, Handler, u32>::layout_hints(&container), LayoutHints::fill_horizontal());
}

#[test]
fn a_stack_container_covers_its_children() {
    let mut ctx: Ctx = Context::new(Vec2::new(1000, 1000), Vec::new());
    let mut stack = StackContainer::new(
        IdGen::key("stack"),
        vec![
            (Vec2::new(10, 20), DynWidget::new(Spacer::new(Vec2::new(30, 30), LayoutHints::shrink()))),
            (Vec2::new(100, 0), DynWidget::new(Spacer::fill_v(1))),
            (Vec2::new(0, 0), DynWidget::new(Spacer::new(Vec2::new(5, 5), LayoutHints::shrink()))),
        ],
    );
    // Told to shrink, it lays its children out as ever.
    let node = stack.layout(&mut ctx, WidgetId::new("root"), Vec2::new(500, 400), true);
    let bounds: Vec<Rect> = node.children.iter().map(|c| c.bounds).collect();
    assert_eq!(
        bounds,
        vec![
            Rect::from_min_size(Pos2::new(10, 20), Vec2::new(30, 30)),
            Rect::from_min_size(Pos2::new(100, 0), Vec2::new(0, 400)),
            Rect::from_min_size(Pos2::new(0, 0), Vec2::new(5, 5)),
        ]
    );
    assert_eq!(node.bounds, Rect::from_min_size(Pos2::new(0, 0), Vec2::new(100, 400)));
    assert_eq!(Widget::<Painter, u32, Handler, u32>::layout_hints(&stack), LayoutHints::fill());

    let mut empty: StackContainer<Painter, u32, Handler, u32> = StackContainer::new(IdGen::key("stack"), Vec::new());
    let node = empty.layout(&mut ctx, WidgetId::new("root"), Vec2::new(500, 400), false);
    assert_eq!(node.bounds.size(), Vec2::new(0, 0));
    assert!(node.children.is_empty());
}

#[test]
fn setting_the_cursor_transform_gives_the_old_one_back() {
    let mut ctx: Ctx = Context::new(Vec2::new(1000, 1000), Vec::new());
    let moved = TranslateScale::identity().translated(Vec2::new(5, 5));
    assert_eq!(ctx.set_cursor_transform(moved), TranslateScale::identity());
    assert_eq!(ctx.set_cursor_transform(TranslateScale::identity()), moved);
    assert_eq!(ctx.input_widget_state.cursor_transform, TranslateScale::identity());
}

#[test]
fn the_status_is_consumed_once_and_for_all() {
    let mut status = EventStatus::Ignored;
    assert!(!status.is_consumed());
    status.consume_event();
    assert!(status.is_consumed());
    status.consume_event();
    assert_eq!(status, EventStatus::Consumed);

    // A consumed batch is not handed on by a container.
    let seen = Rc::new(RefCell::new(Seen::default()));
    let child: Dyn = Pad { name: "pad", side: 10, consume: true, seen: seen.clone() }.to_dyn();
    let mut column = BoxContainer::vertical(IdGen::key("column"), vec![child]);
    let mut ctx: Ctx = Context::new(Vec2::new(1000, 1000), Vec::new());
    let node = column.layout(&mut ctx, WidgetId::new("root"), Vec2::new(100, 100), false);
    column.on_event(&mut ctx, &node, Pos2::new(1, 1), &[Event::MousePressed(MouseButton::Primary)], &mut status);
    assert!(seen.borrow().statuses.is_empty());
    assert!(ctx.dispatched_callbacks.external.is_empty());
}
