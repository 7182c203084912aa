use guee::base_widgets::box_container::BoxContainer;
use guee::base_widgets::box_container::DEFAULT_SEPARATION;
use guee::base_widgets::spacer::Spacer;
use guee::box_layout::compute_fill_share;
use guee::box_layout::BoxConfig;
use guee::box_layout::BoxPlan;
use guee::box_layout::ChildMeasure;
use guee::context::Context;
use guee::geometry::Pos2;
use guee::geometry::Rect;
use guee::geometry::Vec2;
use guee::geometry::UNITS_PER_PIXEL;
use guee::layout::Align;
use guee::layout::Axis;
use guee::layout::Layout;
use guee::layout::LayoutHints;
use guee::layout::SizeHint;
use guee::layout::SizeHints;
use guee::widget::DynWidget;
use guee::widget::Widget;
use guee::widget_id::IdGen;
use guee::widget_id::WidgetId;

type Handler = fn(&mut (), ());
type Ctx = Context<(), u32, Handler, ()>;
type Dyn = DynWidget<(), u32, Handler, ()>;
type TestBox = BoxContainer<(), u32, Handler, ()>;

const PX: i32 = UNITS_PER_PIXEL;

fn ctx() -> Ctx {
    Context::new(Vec2::new(800 * PX, 600 * PX), ())
}

fn spacers(widgets: Vec<Spacer>) -> Vec<Dyn> {
    widgets.into_iter().map(DynWidget::new).collect()
}

fn root() -> WidgetId {
    WidgetId::new("root")
}

fn config(axis: Axis) -> BoxConfig {
    BoxConfig {
        axis,
        separation: 0,
        layout_hints: LayoutHints::shrink(),
        main_align: Align::Start,
        cross_align: Align::Start,
    }
}

fn shrinking(width: i32, height: i32) -> ChildMeasure {
    ChildMeasure { hints: LayoutHints::shrink(), shrink_size: Vec2::new(width, height) }
}

fn filling_main(axis: Axis, weight: u32, width: i32, height: i32) -> ChildMeasure {
    let size_hints = match axis {
        Axis::Vertical => SizeHints { width: SizeHint::Shrink, height: SizeHint::Fill },
        Axis::Horizontal => SizeHints { width: SizeHint::Fill, height: SizeHint::Shrink },
    };
    ChildMeasure { hints: LayoutHints { size_hints, weight }, shrink_size: Vec2::new(width, height) }
}

fn leaf(width: i32, height: i32) -> Layout {
    Layout::leaf(WidgetId::new("leaf"), Vec2::new(width, height))
}

#[test]
fn three_shrinking_children_centred_in_a_column() {
    let mut column = TestBox::vertical(
        IdGen::key("column"),
        spacers(vec![Spacer::v(20 * PX), Spacer::v(30 * PX), Spacer::v(40 * PX)]),
    )
    .separation(5 * PX)
    .main_align(Align::Center);

    let node = column.layout(&mut ctx(), root(), Vec2::new(300 * PX, 200 * PX), false);

    // 47.5, 72.5 and 107.5 pixels from the container's top.
    let tops: Vec<i32> = node.children.iter().map(|c| c.bounds.min.y).collect();
    assert_eq!(tops, vec![3040, 4640, 6880]);
    let heights: Vec<i32> = node.children.iter().map(|c| c.bounds.height()).collect();
    assert_eq!(heights, vec![20 * PX, 30 * PX, 40 * PX]);
    assert_eq!(node.bounds.height(), 100 * PX);
    assert_eq!(node.bounds.min, Pos2::new(0, 0));
    assert_eq!(node.widget_id, root().with("column"));
}

#[test]
fn shrinking_children_make_a_container_as_long_as_their_sum_and_gaps() {
    for align in [Align::Start, Align::Center, Align::End] {
        let mut row = TestBox::horizontal(
            IdGen::key("row"),
            spacers(vec![Spacer::h(100), Spacer::h(250), Spacer::h(7), Spacer::h(0)]),
        )
        .separation(11)
        .main_align(align);
        let node = row.layout(&mut ctx(), root(), Vec2::new(100_000, 500), false);
        assert_eq!(node.bounds.width(), 100 + 250 + 7 + 0 + 3 * 11);
        assert_eq!(node.children.len(), 4);
    }
}

#[test]
fn alignment_at_the_end_moves_children_by_the_leftover() {
    let mut row = TestBox::horizontal(IdGen::key("row"), spacers(vec![Spacer::h(100), Spacer::h(50)]))
        .separation(10)
        .main_align(Align::End);
    let node = row.layout(&mut ctx(), root(), Vec2::new(1000, 500), false);
    // The content counts one gap behind each child: 100 + 10 + 50 + 10.
    let lefts: Vec<i32> = node.children.iter().map(|c| c.bounds.min.x).collect();
    assert_eq!(lefts, vec![830, 940]);
}

#[test]
fn filling_children_share_the_wiggle_room_by_weight() {
    assert_eq!(compute_fill_share(400, 1, 4), 100);
    assert_eq!(compute_fill_share(400, 3, 4), 300);

    let mut column =
        TestBox::vertical(IdGen::key("column"), spacers(vec![Spacer::fill_v(1), Spacer::fill_v(3)]))
            .separation(0);
    let node = column.layout(&mut ctx(), root(), Vec2::new(50, 400), false);
    let heights: Vec<i32> = node.children.iter().map(|c| c.bounds.height()).collect();
    assert_eq!(heights, vec![100, 300]);
    let tops: Vec<i32> = node.children.iter().map(|c| c.bounds.min.y).collect();
    assert_eq!(tops, vec![0, 100]);
}

#[test]
fn children_and_gaps_stay_within_the_offer_where_a_child_fills() {
    let mut column = TestBox::vertical(
        IdGen::key("column"),
        spacers(vec![Spacer::v(20 * PX), Spacer::fill_v(1), Spacer::v(30 * PX), Spacer::fill_v(3)]),
    )
    .separation(5 * PX);
    let available = Vec2::new(100 * PX, 200 * PX);
    let node = column.layout(&mut ctx(), root(), available, false);

    let heights: Vec<i32> = node.children.iter().map(|c| c.bounds.height()).collect();
    assert_eq!(heights, vec![1280, 2160, 1920, 6480]);
    let used: i32 = heights.iter().sum::<i32>() + 3 * 5 * PX;
    assert!(used <= available.y);
    assert_eq!(used, 200 * PX);
    // Main alignment plays no part where a child fills.
    let tops: Vec<i32> = node.children.iter().map(|c| c.bounds.min.y).collect();
    assert_eq!(tops, vec![0, 1600, 4080, 6320]);
}

#[test]
fn shares_are_rounded_down() {
    assert_eq!(compute_fill_share(100, 1, 3), 33);
    assert_eq!(compute_fill_share(100, 2, 3), 66);
    assert_eq!(compute_fill_share(-100, 1, 3), -34);
    assert_eq!(compute_fill_share(0, 5, 7), 0);
    assert_eq!(compute_fill_share(7, 1, u128::MAX), 0);
    assert_eq!(compute_fill_share(-7, 1, u128::MAX), -1);
    assert_eq!(compute_fill_share(i32::MAX, u32::MAX, 1), i32::MAX);
    assert_eq!(compute_fill_share(i32::MIN, u32::MAX, 1), i32::MIN);
}

#[test]
fn weights_that_sum_to_zero_give_no_share() {
    assert_eq!(compute_fill_share(400, 0, 0), 0);
    assert_eq!(compute_fill_share(400, 5, 0), 0);

    let mut column =
        TestBox::vertical(IdGen::key("column"), spacers(vec![Spacer::fill_v(0), Spacer::fill_v(0)]))
            .separation(10);
    let node = column.layout(&mut ctx(), root(), Vec2::new(50, 400), false);
    let heights: Vec<i32> = node.children.iter().map(|c| c.bounds.height()).collect();
    assert_eq!(heights, vec![0, 0]);
    assert_eq!(node.bounds.height(), 10);
}

#[test]
fn a_container_without_children_is_a_leaf_of_no_size() {
    let mut column = TestBox::vertical(IdGen::key("column"), Vec::new());
    let node = column.layout(&mut ctx(), root(), Vec2::new(300, 200), false);
    assert_eq!(node.bounds, Rect::from_min_max(Pos2::new(0, 0), Pos2::new(0, 0)));
    assert!(node.children.is_empty());
    assert_eq!(node.widget_id, root().with("column"));
}

#[test]
fn a_new_container_has_the_default_settings() {
    let column = TestBox::vertical(IdGen::key("column"), Vec::new());
    assert_eq!(column.axis, Axis::Vertical);
    assert_eq!(column.separation, DEFAULT_SEPARATION);
    assert_eq!(DEFAULT_SEPARATION, 3 * PX);
    assert_eq!(column.layout_hints, LayoutHints::default());
    assert_eq!(column.main_align, Align::Start);
    assert_eq!(column.cross_align, Align::Start);
    let row = TestBox::horizontal(IdGen::key("row"), Vec::new());
    assert_eq!(row.axis, Axis::Horizontal);
    assert_eq!(Widget::<(), u32, Handler, ()>::layout_hints(&row), LayoutHints::default());
}

#[test]
fn forced_to_shrink_a_filling_child_takes_its_natural_size() {
    let mut column = TestBox::vertical(
        IdGen::key("column"),
        spacers(vec![Spacer::fill_v(1), Spacer::v(40)]),
    )
    .separation(0)
    .layout_hints(LayoutHints::fill());
    let node = column.layout(&mut ctx(), root(), Vec2::new(300, 200), true);
    let heights: Vec<i32> = node.children.iter().map(|c| c.bounds.height()).collect();
    assert_eq!(heights, vec![0, 40]);
    // The container does not fill across either: it is as wide as its widest child.
    assert_eq!(node.bounds.width(), 0);
    assert_eq!(node.bounds.height(), 40);
}

#[test]
fn a_container_that_fills_across_takes_all_that_is_offered() {
    let mut column = TestBox::vertical(
        IdGen::key("column"),
        spacers(vec![Spacer::new(Vec2::new(30, 10), LayoutHints::shrink())]),
    )
    .layout_hints(LayoutHints::fill_horizontal());
    let node = column.layout(&mut ctx(), root(), Vec2::new(300, 200), false);
    assert_eq!(node.bounds.width(), 300);

    let mut narrow = TestBox::vertical(
        IdGen::key("column"),
        spacers(vec![
            Spacer::new(Vec2::new(30, 10), LayoutHints::shrink()),
            Spacer::new(Vec2::new(80, 10), LayoutHints::shrink()),
        ]),
    );
    let node = narrow.layout(&mut ctx(), root(), Vec2::new(300, 200), false);
    assert_eq!(node.bounds.width(), 80);
}

#[test]
fn children_are_aligned_across_the_main_axis() {
    let children = || {
        spacers(vec![
            Spacer::new(Vec2::new(30, 10), LayoutHints::shrink()),
            Spacer::new(Vec2::new(81, 10), LayoutHints::shrink()),
            Spacer::new(Vec2::new(0, 10), LayoutHints::fill_horizontal()),
        ])
    };
    let lefts = |align: Align| -> Vec<i32> {
        let mut column =
            TestBox::vertical(IdGen::key("column"), children()).separation(0).cross_align(align);
        let node = column.layout(&mut ctx(), root(), Vec2::new(300, 200), false);
        assert_eq!(node.bounds.width(), 81);
        node.children.iter().map(|c| c.bounds.min.x).collect()
    };
    assert_eq!(lefts(Align::Start), vec![0, 0, 0]);
    assert_eq!(lefts(Align::End), vec![51, 0, 0]);
    assert_eq!(lefts(Align::Center), vec![25, 0, 0]);
}

#[test]
fn the_plan_follows_the_measures() {
    let children = vec![
        shrinking(30, 100),
        filling_main(Axis::Vertical, 2, 50, 0),
        shrinking(40, 60),
        filling_main(Axis::Vertical, 5, 10, 0),
    ];
    let mut settings = config(Axis::Vertical);
    settings.separation = 10;
    let plan = BoxPlan::measure(settings, Vec2::new(500, 1000), false, &children);
    assert_eq!(plan.cross_space, 50);
    assert_eq!(plan.wiggle_room, 1000 - (100 + 60 + 3 * 10));
    assert_eq!(plan.total_filled_weight, 7);
    assert_eq!(plan.fill_child_count, 2);

    let forced = BoxPlan::measure(settings, Vec2::new(500, 1000), true, &children);
    assert_eq!(forced.wiggle_room, 1000 - (100 + 0 + 60 + 0 + 3 * 10));
    assert_eq!(forced.total_filled_weight, 0);
    assert_eq!(forced.fill_child_count, 0);

    let none = BoxPlan::measure(settings, Vec2::new(500, 1000), false, &Vec::new());
    assert_eq!(none.cross_space, 0);
    assert_eq!(none.wiggle_room, 1010);
}

#[test]
fn wiggle_room_is_negative_where_shrinking_children_overflow() {
    let children = vec![shrinking(300, 10), filling_main(Axis::Horizontal, 1, 0, 10)];
    let plan = BoxPlan::measure(config(Axis::Horizontal), Vec2::new(200, 50), false, &children);
    assert_eq!(plan.wiggle_room, -100);
    assert_eq!(plan.child_available(children[1].hints, 300), Vec2::new(-100, 10));
    assert_eq!(plan.child_available(children[0].hints, 0), Vec2::new(200, 10));
    assert_eq!(plan.child_available(children[0].hints, 250), Vec2::new(-50, 10));
}

#[test]
fn a_shrinking_child_is_offered_what_is_left_behind_those_before_it() {
    let children = vec![shrinking(10, 10), shrinking(10, 10)];
    let plan = BoxPlan::measure(config(Axis::Vertical), Vec2::new(100, 400), false, &children);
    assert_eq!(plan.child_available(children[0].hints, 0), Vec2::new(10, 400));
    assert_eq!(plan.child_available(children[1].hints, 150), Vec2::new(10, 250));
    assert_eq!(plan.child_available(children[1].hints, i128::MAX), Vec2::new(10, i32::MIN));
    assert_eq!(plan.child_available(children[1].hints, i128::MIN), Vec2::new(10, i32::MAX));
}

#[test]
fn arranging_moves_children_that_had_moved_themselves() {
    let children = vec![shrinking(10, 20), shrinking(10, 30)];
    let plan = BoxPlan::measure(config(Axis::Vertical), Vec2::new(100, 400), false, &children);
    let raw = vec![leaf(10, 20).translated(Vec2::new(5, 5)), leaf(10, 30).translated(Vec2::new(-3, 9))];
    let node = plan.arrange(WidgetId::new("box"), &children, raw);
    assert_eq!(node.children[0].bounds, Rect::from_min_size(Pos2::new(0, 0), Vec2::new(10, 20)));
    assert_eq!(node.children[1].bounds, Rect::from_min_size(Pos2::new(0, 20), Vec2::new(10, 30)));
    assert_eq!(node.bounds, Rect::from_min_size(Pos2::new(0, 0), Vec2::new(10, 50)));
    assert_eq!(node.widget_id, WidgetId::new("box"));
}

#[test]
fn positions_saturate_at_the_end_of_the_coordinate_range() {
    let children = vec![shrinking(10, i32::MAX), shrinking(10, i32::MAX), shrinking(10, 5)];
    let plan = BoxPlan::measure(config(Axis::Vertical), Vec2::new(100, 400), false, &children);
    let raw = vec![leaf(10, i32::MAX), leaf(10, i32::MAX), leaf(10, 5)];
    let node = plan.arrange(WidgetId::new("box"), &children, raw);
    assert_eq!(node.children[1].bounds.min.y, i32::MAX);
    assert_eq!(node.children[2].bounds.min.y, i32::MAX);
    assert_eq!(node.bounds.height(), i32::MAX);
}

#[test]
fn nested_containers_report_their_content_to_their_parent() {
    let inner: Dyn = DynWidget::new(
        TestBox::horizontal(IdGen::key("inner"), spacers(vec![Spacer::h(40), Spacer::h(60)]))
            .separation(10)
            .main_align(Align::End),
    );
    let mut outer =
        TestBox::vertical(IdGen::key("outer"), vec![inner, DynWidget::new(Spacer::v(25))]).separation(0);
    let node = outer.layout(&mut ctx(), root(), Vec2::new(1000, 1000), false);
    assert_eq!(node.bounds.size(), Vec2::new(110, 25));
    assert_eq!(node.children[0].children.len(), 2);
    assert_eq!(node.children[0].widget_id, root().with("outer").with("inner"));
    assert_eq!(node.children[1].widget_id, root().with("outer").with("spacer"));
}
