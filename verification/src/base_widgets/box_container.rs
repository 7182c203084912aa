//! The box container: a row or a column of widgets.

use vstd::prelude::*;
use crate::box_layout::BoxConfig;
use crate::box_layout::BoxPlan;
use crate::box_layout::main_offset_upto;
use crate::box_layout::ChildMeasure;
use crate::context::Context;
use crate::context::ContextModel;
use crate::geometry::Pos2;
use crate::geometry::Vec2;
use crate::input::Event;
use crate::input::EventStatus;
use crate::layout::layout_views;
use crate::layout::Align;
use crate::layout::Axis;
use crate::layout::AxisDirections;
use crate::layout::Layout;
use crate::layout::LayoutHints;
use crate::layout::LayoutModel;
use crate::layout::SizeHint;
use crate::layout::SizeHints;
use crate::widget::conduct_of;
use crate::widget::conducts;
use crate::widget::draws;
use crate::widget::drawn_upto;
use crate::widget::lays;
use crate::widget::Conduct;
use crate::widget::forwarded;
use crate::widget::handled_or_passed;
use crate::widget::handled_upto;
use crate::widget::lemma_consumed_stays;
use crate::widget::DynWidget;
use crate::widget::Widget;
use crate::widget_id::IdGen;
use crate::widget_id::WidgetId;

verus! {

/// The gap between neighbouring children unless another is asked for:
/// three pixels.
pub const DEFAULT_SEPARATION: i32 = 192;

/// A container that places its children one after another along an axis.
#[verifier::reject_recursive_types(R)]
#[verifier::reject_recursive_types(V)]
#[verifier::reject_recursive_types(F)]
#[verifier::reject_recursive_types(P)]
pub struct BoxContainer<R, V, F, P> {
    pub id: IdGen,
    pub axis: Axis,
    pub contents: Vec<DynWidget<R, V, F, P>>,
    pub separation: i32,
    pub layout_hints: LayoutHints,
    pub main_align: Align,
    pub cross_align: Align,
}

impl<R, V, F, P> BoxContainer<R, V, F, P> {
    /// The settings that the layout depends on.
    pub open spec fn config(&self) -> BoxConfig {
        BoxConfig {
            axis: self.axis,
            separation: self.separation,
            layout_hints: self.layout_hints,
            main_align: self.main_align,
            cross_align: self.cross_align,
        }
    }

    /// The hints of the children, in order.
    pub open spec fn child_hints(&self) -> Seq<LayoutHints> {
        Seq::new(self.contents@.len(), |i: int| self.contents@[i].widget.hints())
    }

    /// A container along `axis` with the default gap, default hints, and
    /// its children aligned at the start both ways.
    pub fn new(id: IdGen, axis: Axis, contents: Vec<DynWidget<R, V, F, P>>) -> (b: Self)
        ensures
            b.id == id,
            b.contents == contents,
            b.config() == (BoxConfig {
                axis,
                separation: DEFAULT_SEPARATION,
                layout_hints: LayoutHints {
                    size_hints: SizeHints { width: SizeHint::Shrink, height: SizeHint::Shrink },
                    weight: 1,
                },
                main_align: Align::Start,
                cross_align: Align::Start,
            }),
    {
        BoxContainer {
            id,
            axis,
            contents,
            separation: DEFAULT_SEPARATION,
            layout_hints: LayoutHints::default(),
            main_align: Align::Start,
            cross_align: Align::Start,
        }
    }

    pub fn vertical(id_gen: IdGen, contents: Vec<DynWidget<R, V, F, P>>) -> (b: Self)
        ensures
            b.id == id_gen,
            b.contents == contents,
            b.axis == Axis::Vertical,
            b.config() == (BoxConfig { axis: Axis::Vertical, ..b.config() }),
    {
        Self::new(id_gen, Axis::Vertical, contents)
    }

    pub fn horizontal(id_gen: IdGen, contents: Vec<DynWidget<R, V, F, P>>) -> (b: Self)
        ensures
            b.id == id_gen,
            b.contents == contents,
            b.axis == Axis::Horizontal,
    {
        Self::new(id_gen, Axis::Horizontal, contents)
    }

    pub fn separation(self, separation: i32) -> (b: Self)
        ensures
            b == (BoxContainer { separation, ..self }),
    {
        let mut this = self;
        this.separation = separation;
        this
    }

    pub fn layout_hints(self, layout_hints: LayoutHints) -> (b: Self)
        ensures
            b == (BoxContainer { layout_hints, ..self }),
    {
        let mut this = self;
        this.layout_hints = layout_hints;
        this
    }

    pub fn main_align(self, main_align: Align) -> (b: Self)
        ensures
            b == (BoxContainer { main_align, ..self }),
    {
        let mut this = self;
        this.main_align = main_align;
        this
    }

    pub fn cross_align(self, cross_align: Align) -> (b: Self)
        ensures
            b == (BoxContainer { cross_align, ..self }),
    {
        let mut this = self;
        this.cross_align = cross_align;
        this
    }
}

/// A map that extends an extension of a map extends that map.
pub proof fn lemma_submap_transitive<K, T>(a: Map<K, T>, b: Map<K, T>, c: Map<K, T>)
    requires
        a.submap_of(b),
        b.submap_of(c),
    ensures
        a.submap_of(c),
{
    assert forall|k: K| #[trigger] a.dom().contains(k) implies c.dom().contains(k) && a[k] == c[k] by {
        assert(b.dom().contains(k));
    }
}

/// Whether the measuring pass over the first `k` children can lead from the
/// context `before` to the context `after` and measure them as `measured`:
/// every child is laid out below `id` in `available` and told to shrink, and
/// is measured by its hints and the size of the node it returns.
pub open spec fn measured_upto<R, V, F, P>(
    children: Seq<Conduct<R, V, F, P>>,
    id: WidgetId,
    available: Vec2,
    measured: Seq<ChildMeasure>,
    k: int,
    before: ContextModel<R, V, F, P>,
    after: ContextModel<R, V, F, P>,
) -> bool
    decreases k,
{
    if k <= 0 {
        after == before
    } else {
        exists|mid: ContextModel<R, V, F, P>, node: LayoutModel|
            {
                &&& measured_upto(children, id, available, measured, k - 1, before, mid)
                &&& #[trigger] lays(children[k - 1], mid, id, available, true, after, node)
                &&& measured[k - 1] == (ChildMeasure {
                    hints: children[k - 1].hints,
                    shrink_size: node.bounds.size_spec(),
                })
            }
    }
}

/// Whether the real pass over the first `k` children can lead from the
/// context `before` to the context `after` with the children returning
/// `raw`: child `i` is laid out below `id`, offered what `plan` gives it
/// behind the children before it, and told to shrink only if the container
/// was.
pub open spec fn placed_upto<R, V, F, P>(
    children: Seq<Conduct<R, V, F, P>>,
    id: WidgetId,
    plan: BoxPlan,
    measured: Seq<ChildMeasure>,
    raw: Seq<LayoutModel>,
    k: int,
    before: ContextModel<R, V, F, P>,
    after: ContextModel<R, V, F, P>,
) -> bool
    decreases k,
{
    if k <= 0 {
        after == before
    } else {
        exists|mid: ContextModel<R, V, F, P>|
            {
                &&& placed_upto(children, id, plan, measured, raw, k - 1, before, mid)
                &&& #[trigger] lays(
                    children[k - 1],
                    mid,
                    id,
                    plan.child_available_spec(
                        measured[k - 1].hints,
                        main_offset_upto(
                            plan.config.axis,
                            plan.config.separation as int,
                            raw,
                            k - 1,
                        ),
                    ),
                    plan.force_shrink,
                    after,
                    raw[k - 1],
                )
            }
    }
}

/// Whether a box container with settings `config` and children of the
/// conducts `children` can return `node` and lead from `before` to `after`.
/// Without children the node is a leaf of no size and nothing happens. Else
/// the children are measured, then laid out for real, and the node is
/// [`BoxPlan::arrange_spec`] of what they measured and returned.
pub open spec fn box_laid_out<R, V, F, P>(
    children: Seq<Conduct<R, V, F, P>>,
    config: BoxConfig,
    id: WidgetId,
    available: Vec2,
    force_shrink: bool,
    before: ContextModel<R, V, F, P>,
    after: ContextModel<R, V, F, P>,
    node: LayoutModel,
) -> bool {
    let n = children.len() as int;
    if n == 0 {
        after == before && node == LayoutModel::leaf(id, Vec2::zero_spec())
    } else {
        exists|measured: Seq<ChildMeasure>, raw: Seq<LayoutModel>, mid: ContextModel<R, V, F, P>|
            #![trigger measured_upto(children, id, available, measured, n, before, mid), placed_upto(children, id, BoxPlan::measure_spec(config, available, force_shrink, measured), measured, raw, n, mid, after)]
            {
                &&& measured.len() == n
                &&& raw.len() == n
                &&& measured_upto(children, id, available, measured, n, before, mid)
                &&& placed_upto(
                    children,
                    id,
                    BoxPlan::measure_spec(config, available, force_shrink, measured),
                    measured,
                    raw,
                    n,
                    mid,
                    after,
                )
                &&& node == BoxPlan::measure_spec(
                    config,
                    available,
                    force_shrink,
                    measured,
                ).arrange_spec(id, measured, raw)
            }
    }
}

/// The measuring pass over the first `k` children does not depend on what
/// is measured of the children behind them.
pub proof fn lemma_measured_prefix<R, V, F, P>(
    children: Seq<Conduct<R, V, F, P>>,
    id: WidgetId,
    available: Vec2,
    shorter: Seq<ChildMeasure>,
    longer: Seq<ChildMeasure>,
    k: int,
    before: ContextModel<R, V, F, P>,
    after: ContextModel<R, V, F, P>,
)
    requires
        forall|j: int| 0 <= j < k ==> shorter[j] == longer[j],
        measured_upto(children, id, available, shorter, k, before, after),
    ensures
        measured_upto(children, id, available, longer, k, before, after),
    decreases k,
{
    if k > 0 {
        let (mid, node) = choose|mid: ContextModel<R, V, F, P>, node: LayoutModel|
            {
                &&& measured_upto(children, id, available, shorter, k - 1, before, mid)
                &&& #[trigger] lays(children[k - 1], mid, id, available, true, after, node)
                &&& shorter[k - 1] == (ChildMeasure {
                    hints: children[k - 1].hints,
                    shrink_size: node.bounds.size_spec(),
                })
            };
        lemma_measured_prefix(children, id, available, shorter, longer, k - 1, before, mid);
        assert(lays(children[k - 1], mid, id, available, true, after, node));
    }
}

/// Where child `k` starts does not depend on the children behind it.
pub proof fn lemma_offset_prefix(
    axis: Axis,
    separation: int,
    shorter: Seq<LayoutModel>,
    longer: Seq<LayoutModel>,
    k: int,
)
    requires
        forall|j: int| 0 <= j < k ==> shorter[j] == longer[j],
    ensures
        main_offset_upto(axis, separation, shorter, k) == main_offset_upto(
            axis,
            separation,
            longer,
            k,
        ),
    decreases k,
{
    if k > 0 {
        lemma_offset_prefix(axis, separation, shorter, longer, k - 1);
    }
}

/// The real pass over the first `k` children does not depend on what the
/// children behind them return.
pub proof fn lemma_placed_prefix<R, V, F, P>(
    children: Seq<Conduct<R, V, F, P>>,
    id: WidgetId,
    plan: BoxPlan,
    measured: Seq<ChildMeasure>,
    shorter: Seq<LayoutModel>,
    longer: Seq<LayoutModel>,
    k: int,
    before: ContextModel<R, V, F, P>,
    after: ContextModel<R, V, F, P>,
)
    requires
        forall|j: int| 0 <= j < k ==> shorter[j] == longer[j],
        placed_upto(children, id, plan, measured, shorter, k, before, after),
    ensures
        placed_upto(children, id, plan, measured, longer, k, before, after),
    decreases k,
{
    if k > 0 {
        let mid = choose|mid: ContextModel<R, V, F, P>|
            {
                &&& placed_upto(children, id, plan, measured, shorter, k - 1, before, mid)
                &&& #[trigger] lays(
                    children[k - 1],
                    mid,
                    id,
                    plan.child_available_spec(
                        measured[k - 1].hints,
                        main_offset_upto(
                            plan.config.axis,
                            plan.config.separation as int,
                            shorter,
                            k - 1,
                        ),
                    ),
                    plan.force_shrink,
                    after,
                    shorter[k - 1],
                )
            };
        lemma_placed_prefix(children, id, plan, measured, shorter, longer, k - 1, before, mid);
        lemma_offset_prefix(
            plan.config.axis,
            plan.config.separation as int,
            shorter,
            longer,
            k - 1,
        );
        assert(lays(
            children[k - 1],
            mid,
            id,
            plan.child_available_spec(
                measured[k - 1].hints,
                main_offset_upto(plan.config.axis, plan.config.separation as int, longer, k - 1),
            ),
            plan.force_shrink,
            after,
            longer[k - 1],
        ));
    }
}

impl<R, V, F, P> Widget<R, V, F, P> for BoxContainer<R, V, F, P> {
    open spec fn hints(&self) -> LayoutHints {
        self.layout_hints
    }

    /// See [`box_laid_out`].
    open spec fn laid_out(
        &self,
        before: ContextModel<R, V, F, P>,
        parent_id: WidgetId,
        available: Vec2,
        force_shrink: bool,
        after: ContextModel<R, V, F, P>,
        node: LayoutModel,
    ) -> bool {
        box_laid_out(
            conducts(self.contents@),
            self.config(),
            self.id.resolve_spec(parent_id),
            available,
            force_shrink,
            before,
            after,
            node,
        )
    }

    /// The children are painted in order, each with the child node of the
    /// same index, as far as there are both.
    open spec fn drawn(
        &self,
        before: ContextModel<R, V, F, P>,
        layout: LayoutModel,
        after: ContextModel<R, V, F, P>,
    ) -> bool {
        drawn_upto(
            conducts(self.contents@),
            layout.children,
            forwarded(self.contents@.len(), layout.children.len()),
            before,
            after,
        )
    }

    /// The children are handed the events in order, each with the child
    /// node of the same index, until one of them has consumed them.
    open spec fn handled(
        &self,
        before: ContextModel<R, V, F, P>,
        layout: LayoutModel,
        cursor_position: Pos2,
        events: Seq<Event>,
        status_before: EventStatus,
        after: ContextModel<R, V, F, P>,
        status_after: EventStatus,
    ) -> bool {
        handled_upto(
            conducts(self.contents@),
            layout.children,
            cursor_position,
            events,
            forwarded(self.contents@.len(), layout.children.len()),
            before,
            status_before,
            after,
            status_after,
        )
    }

    /// Lays the children out twice, below the container's own identifier:
    /// once told to shrink, to learn their natural sizes, and once for real,
    /// each child being offered what [`BoxPlan::child_available_spec`] gives
    /// it. The node returned is [`BoxPlan::arrange_spec`] of what the
    /// children returned. A container without children is a leaf of no
    /// size.
    fn layout(
        &mut self,
        ctx: &mut Context<R, V, F, P>,
        parent_id: WidgetId,
        available: Vec2,
        force_shrink: bool,
    ) -> (node: Layout)
        ensures
            final(self).id == old(self).id,
            final(self).config() == old(self).config(),
            final(self).child_hints() == old(self).child_hints(),
            conducts(final(self).contents@) == conducts(old(self).contents@),
    {
        let widget_id = self.id.resolve(parent_id);
        let n = self.contents.len();
        let ghost children = conducts(self.contents@);
        if n == 0 {
            let node = Layout::leaf(widget_id, Vec2::zero());
            proof {
            }
            return node;
        }
        let config = BoxConfig {
            axis: self.axis,
            separation: self.separation,
            layout_hints: self.layout_hints,
            main_align: self.main_align,
            cross_align: self.cross_align,
        };
        let axis = self.axis;
        let ghost hints = self.child_hints();

        // The measurement pass: every child is laid out as if it shrank.
        let mut measured: Vec<ChildMeasure> = Vec::new();
        let mut i: usize = 0;
        while i < n
            invariant
                i <= n,
                n == self.contents@.len(),
                measured@.len() == i,
                self.id == old(self).id,
                self.config() == old(self).config(),
                config == self.config(),
                self.child_hints() == hints,
                hints.len() == n,
                widget_id == self.id.resolve_spec(parent_id),
                children == conducts(old(self).contents@),
                conducts(self.contents@) == children,
                forall|j: int| 0 <= j < i ==> (#[trigger] measured@[j]).hints == hints[j],
                measured_upto(children, widget_id, available, measured@, i as int, old(ctx)@, ctx@),
                ctx@.input == old(ctx)@.input,
                ctx@.widgets == old(ctx)@.widgets,
                ctx@.external == old(ctx)@.external,
                ctx@.internal == old(ctx)@.internal,
                old(ctx)@.memory.submap_of(ctx@.memory),
            decreases n - i,
        {
            let ghost before = self.contents@;
            let ghost memory_before = ctx@.memory;
            let ghost ctx_before = ctx@;
            let ghost measured_before = measured@;
            let child_hints = self.contents[i].widget.layout_hints();
            assert(child_hints == hints[i as int]);
            assert(conduct_of(&*before[i as int].widget) == children[i as int]);
            let shrunk = self.contents[i].widget.layout(ctx, widget_id, available, true);
            proof {
                shrunk.lemma_view();
            }
            measured.push(ChildMeasure { hints: child_hints, shrink_size: shrunk.bounds.size() });
            proof {
                assert(forall|j: int| 0 <= j < n && j != i ==> self.contents@[j] == before[j]);
                assert(self.child_hints() =~= hints);
                assert(conduct_of(&*self.contents@[i as int].widget).laid_out =~= conduct_of(
                    &*before[i as int].widget,
                ).laid_out);
                assert(conduct_of(&*self.contents@[i as int].widget).drawn =~= conduct_of(
                    &*before[i as int].widget,
                ).drawn);
                assert(conduct_of(&*self.contents@[i as int].widget).handled =~= conduct_of(
                    &*before[i as int].widget,
                ).handled);
                assert(conduct_of(&*self.contents@[i as int].widget) == conduct_of(
                    &*before[i as int].widget,
                ));
                assert(conducts(self.contents@) =~= children);
                lemma_submap_transitive(old(ctx)@.memory, memory_before, ctx@.memory);
                let k = i + 1;
                lemma_measured_prefix(
                    children,
                    widget_id,
                    available,
                    measured_before,
                    measured@,
                    i as int,
                    old(ctx)@,
                    ctx_before,
                );
                assert(lays(children[k - 1], ctx_before, widget_id, available, true, ctx@, shrunk@));
                assert(measured@[k - 1] == (ChildMeasure {
                    hints: children[k - 1].hints,
                    shrink_size: shrunk@.bounds.size_spec(),
                }));
                assert(measured_upto(
                    children,
                    widget_id,
                    available,
                    measured@,
                    k,
                    old(ctx)@,
                    ctx@,
                ));
            }
            i += 1;
        }
        let plan = BoxPlan::measure(config, available, force_shrink, &measured);
        let ghost measured_ctx = ctx@;

        // The real pass: every child is offered its room.
        let mut raw: Vec<Layout> = Vec::new();
        let mut main_offset: i128 = 0;
        let mut i: usize = 0;
        while i < n
            invariant
                i <= n,
                n == self.contents@.len(),
                raw@.len() == i,
                measured@.len() == n,
                self.id == old(self).id,
                self.config() == old(self).config(),
                config == self.config(),
                axis == config.axis,
                self.child_hints() == hints,
                hints.len() == n,
                widget_id == self.id.resolve_spec(parent_id),
                children == conducts(old(self).contents@),
                conducts(self.contents@) == children,
                plan == BoxPlan::measure_spec(config, available, force_shrink, measured@),
                forall|j: int| 0 <= j < n ==> (#[trigger] measured@[j]).hints == hints[j],
                main_offset == main_offset_upto(
                    axis,
                    config.separation as int,
                    layout_views(raw@),
                    i as int,
                ),
                -0x1_0000_0000 * i <= main_offset <= 0x1_0000_0000 * i,
                placed_upto(
                    children,
                    widget_id,
                    plan,
                    measured@,
                    layout_views(raw@),
                    i as int,
                    measured_ctx,
                    ctx@,
                ),
                ctx@.input == old(ctx)@.input,
                ctx@.widgets == old(ctx)@.widgets,
                ctx@.external == old(ctx)@.external,
                ctx@.internal == old(ctx)@.internal,
                old(ctx)@.memory.submap_of(ctx@.memory),
            decreases n - i,
        {
            let ghost before = self.contents@;
            let ghost memory_before = ctx@.memory;
            let ghost ctx_before = ctx@;
            let ghost raw_before = layout_views(raw@);
            let offered = plan.child_available(measured[i].hints, main_offset);
            assert(conduct_of(&*before[i as int].widget) == children[i as int]);
            let node = self.contents[i].widget.layout(ctx, widget_id, offered, force_shrink);
            proof {
                node.lemma_view();
            }
            let ghost node_view = node@;
            main_offset = main_offset + node.bounds.size().main_dir(axis) as i128
                + config.separation as i128;
            raw.push(node);
            proof {
                assert(forall|j: int| 0 <= j < n && j != i ==> self.contents@[j] == before[j]);
                assert(self.child_hints() =~= hints);
                assert(conduct_of(&*self.contents@[i as int].widget).laid_out =~= conduct_of(
                    &*before[i as int].widget,
                ).laid_out);
                assert(conduct_of(&*self.contents@[i as int].widget).drawn =~= conduct_of(
                    &*before[i as int].widget,
                ).drawn);
                assert(conduct_of(&*self.contents@[i as int].widget).handled =~= conduct_of(
                    &*before[i as int].widget,
                ).handled);
                assert(conduct_of(&*self.contents@[i as int].widget) == conduct_of(
                    &*before[i as int].widget,
                ));
                assert(conducts(self.contents@) =~= children);
                lemma_submap_transitive(old(ctx)@.memory, memory_before, ctx@.memory);
                let k = i + 1;
                let raw_now = layout_views(raw@);
                assert(raw_now[k - 1] == node_view);
                assert(forall|j: int| 0 <= j < i ==> raw_before[j] == raw_now[j]);
                lemma_placed_prefix(
                    children,
                    widget_id,
                    plan,
                    measured@,
                    raw_before,
                    raw_now,
                    i as int,
                    measured_ctx,
                    ctx_before,
                );
                lemma_offset_prefix(axis, config.separation as int, raw_before, raw_now, i as int);
                assert(lays(
                    children[k - 1],
                    ctx_before,
                    widget_id,
                    plan.child_available_spec(
                        measured@[k - 1].hints,
                        main_offset_upto(
                            plan.config.axis,
                            plan.config.separation as int,
                            raw_now,
                            k - 1,
                        ),
                    ),
                    plan.force_shrink,
                    ctx@,
                    raw_now[k - 1],
                ));
                assert(placed_upto(
                    children,
                    widget_id,
                    plan,
                    measured@,
                    raw_now,
                    k,
                    measured_ctx,
                    ctx@,
                ));
                assert(main_offset == main_offset_upto(
                    axis,
                    config.separation as int,
                    raw_now,
                    k,
                ));
            }
            i += 1;
        }
        let ghost raw_views = layout_views(raw@);
        let node = plan.arrange(widget_id, &measured, raw);
        proof {
            assert(box_laid_out(
                children,
                old(self).config(),
                widget_id,
                available,
                force_shrink,
                old(ctx)@,
                ctx@,
                node@,
            ));
        }
        node
    }

    /// Paints the children in order, each with the node of the same index.
    fn draw(&mut self, ctx: &mut Context<R, V, F, P>, layout: &Layout)
        ensures
            final(self).child_hints() == old(self).child_hints(),
            conducts(final(self).contents@) == conducts(old(self).contents@),
    {
        let ghost hints = self.child_hints();
        let ghost widgets = conducts(self.contents@);
        let ghost nodes = layout@.children;
        proof {
            layout.lemma_view();
        }
        let n = if self.contents.len() < layout.children.len() {
            self.contents.len()
        } else {
            layout.children.len()
        };
        let mut i: usize = 0;
        while i < n
            invariant
                i <= n,
                n <= self.contents@.len(),
                n <= layout.children@.len(),
                self.id == old(self).id,
                self.config() == old(self).config(),
                self.child_hints() == hints,
                ctx@.input == old(ctx)@.input,
                widgets == conducts(old(self).contents@),
                conducts(self.contents@) == widgets,
                nodes == layout_views(layout.children@),
                self.contents@.len() == old(self).contents@.len(),
                drawn_upto(widgets, nodes, i as int, old(ctx)@, ctx@),
            decreases n - i,
        {
            let ghost before = self.contents@;
            let ghost ctx_before = ctx@;
            assert(conduct_of(&*before[i as int].widget) == widgets[i as int]);
            self.contents[i].widget.draw(ctx, &layout.children[i]);
            proof {
                assert(forall|j: int|
                    0 <= j < self.contents@.len() && j != i ==> self.contents@[j] == before[j]);
                assert(self.child_hints() =~= hints);
                assert(conduct_of(&*self.contents@[i as int].widget).laid_out =~= conduct_of(
                    &*before[i as int].widget,
                ).laid_out);
                assert(conduct_of(&*self.contents@[i as int].widget).drawn =~= conduct_of(
                    &*before[i as int].widget,
                ).drawn);
                assert(conduct_of(&*self.contents@[i as int].widget).handled =~= conduct_of(
                    &*before[i as int].widget,
                ).handled);
                assert(conduct_of(&*self.contents@[i as int].widget) == conduct_of(
                    &*before[i as int].widget,
                ));
                assert(conducts(self.contents@) =~= widgets);
                let k = i + 1;
                assert(draws(widgets[k - 1], ctx_before, nodes[k - 1], ctx@));
                assert(drawn_upto(widgets, nodes, k, old(ctx)@, ctx@));
            }
            i += 1;
        }
        proof {
        }
    }

    fn layout_hints(&self) -> (hints: LayoutHints) {
        self.layout_hints
    }

    /// Hands the events to the children in order, each with the node of
    /// the same index, until one of them has consumed them. Children behind
    /// that one are not called.
    fn on_event(
        &mut self,
        ctx: &mut Context<R, V, F, P>,
        layout: &Layout,
        cursor_position: Pos2,
        events: &[Event],
        status: &mut EventStatus,
    )
        ensures
            final(self).child_hints() == old(self).child_hints(),
            conducts(final(self).contents@) == conducts(old(self).contents@),
    {
        let ghost hints = self.child_hints();
        let ghost widgets = conducts(self.contents@);
        let ghost nodes = layout@.children;
        proof {
            layout.lemma_view();
        }
        let n = if self.contents.len() < layout.children.len() {
            self.contents.len()
        } else {
            layout.children.len()
        };
        let mut i: usize = 0;
        while i < n && *status == EventStatus::Ignored
            invariant
                i <= n,
                n <= self.contents@.len(),
                n <= layout.children@.len(),
                self.id == old(self).id,
                self.config() == old(self).config(),
                self.child_hints() == hints,
                ctx@.input == old(ctx)@.input,
                *old(status) == EventStatus::Consumed ==> *status == EventStatus::Consumed && ctx@
                    == old(ctx)@,
                widgets == conducts(old(self).contents@),
                conducts(self.contents@) == widgets,
                nodes == layout_views(layout.children@),
                self.contents@.len() == old(self).contents@.len(),
                handled_upto(
                    widgets,
                    nodes,
                    cursor_position,
                    events@,
                    i as int,
                    old(ctx)@,
                    *old(status),
                    ctx@,
                    *status,
                ),
            decreases n - i,
        {
            let ghost before = self.contents@;
            let ghost ctx_before = ctx@;
            let ghost status_before = *status;
            assert(conduct_of(&*before[i as int].widget) == widgets[i as int]);
            self.contents[i].widget.on_event(ctx, &layout.children[i], cursor_position, events, status);
            proof {
                assert(forall|j: int|
                    0 <= j < self.contents@.len() && j != i ==> self.contents@[j] == before[j]);
                assert(self.child_hints() =~= hints);
                assert(conduct_of(&*self.contents@[i as int].widget).laid_out =~= conduct_of(
                    &*before[i as int].widget,
                ).laid_out);
                assert(conduct_of(&*self.contents@[i as int].widget).drawn =~= conduct_of(
                    &*before[i as int].widget,
                ).drawn);
                assert(conduct_of(&*self.contents@[i as int].widget).handled =~= conduct_of(
                    &*before[i as int].widget,
                ).handled);
                assert(conduct_of(&*self.contents@[i as int].widget) == conduct_of(
                    &*before[i as int].widget,
                ));
                assert(conducts(self.contents@) =~= widgets);
                let k = i + 1;
                assert(handled_or_passed(
                    widgets[k - 1],
                    nodes[k - 1],
                    cursor_position,
                    events@,
                    ctx_before,
                    status_before,
                    ctx@,
                    *status,
                ));
                assert(handled_upto(
                    widgets,
                    nodes,
                    cursor_position,
                    events@,
                    k,
                    old(ctx)@,
                    *old(status),
                    ctx@,
                    *status,
                ));
            }
            i += 1;
        }
        proof {
            if i < n {
                lemma_consumed_stays(
                    widgets,
                    nodes,
                    cursor_position,
                    events@,
                    i as int,
                    n as int,
                    old(ctx)@,
                    *old(status),
                    ctx@,
                );
            }
        }
    }
}

} // verus!
