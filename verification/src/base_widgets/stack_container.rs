//! The stack container: widgets laid one over another.

use vstd::prelude::*;
use crate::base_widgets::box_container::lemma_submap_transitive;
use crate::context::Context;
use crate::context::ContextModel;
use crate::geometry::Pos2;
use crate::geometry::Rect;
use crate::geometry::Vec2;
use crate::input::Event;
use crate::input::EventStatus;
use crate::layout::layout_views;
use crate::layout::Layout;
use crate::layout::LayoutHints;
use crate::layout::LayoutModel;
use crate::layout::SizeHint;
use crate::layout::SizeHints;
use crate::widget::conduct_of;
use crate::widget::conducts;
use crate::widget::draws;
use crate::widget::drawn_upto;
use crate::widget::lays;
use crate::widget::Conduct;
use crate::widget::forwarded;
use crate::widget::handled_or_passed;
use crate::widget::handled_upto;
use crate::widget::lemma_consumed_stays;
use crate::widget::DynWidget;
use crate::widget::Widget;
use crate::widget_id::IdGen;
use crate::widget_id::WidgetId;

verus! {

/// A container whose children all start from its own corner, each moved by
/// an offset of its own. It is as large as it must be to hold them all, and
/// it never shrinks its children.
#[verifier::reject_recursive_types(R)]
#[verifier::reject_recursive_types(V)]
#[verifier::reject_recursive_types(F)]
#[verifier::reject_recursive_types(P)]
pub struct StackContainer<R, V, F, P> {
    pub id: IdGen,
    pub contents: Vec<(Vec2, DynWidget<R, V, F, P>)>,
}

/// The rectangle that covers the origin and the first `k` children, each
/// moved by its offset.
pub open spec fn stack_bounds_upto(offsets: Seq<Vec2>, raw: Seq<LayoutModel>, k: int) -> Rect
    decreases k,
{
    if k <= 0 {
        Rect { min: Pos2::zero_spec(), max: Pos2::zero_spec() }
    } else {
        stack_bounds_upto(offsets, raw, k - 1).union_spec(
            raw[k - 1].translated(offsets[k - 1]).bounds,
        )
    }
}

/// The node of a stack container, given what its children returned.
pub open spec fn stack_arrange(widget_id: WidgetId, offsets: Seq<Vec2>, raw: Seq<LayoutModel>) -> LayoutModel {
    LayoutModel::with_children(
        widget_id,
        stack_bounds_upto(offsets, raw, raw.len() as int).size_spec(),
        Seq::new(raw.len(), |i: int| raw[i].translated(offsets[i])),
    )
}

impl<R, V, F, P> StackContainer<R, V, F, P> {
    /// The children, in order, without their offsets.
    pub open spec fn widgets(&self) -> Seq<DynWidget<R, V, F, P>> {
        Seq::new(self.contents@.len(), |i: int| self.contents@[i].1)
    }

    /// The offsets of the children, in order.
    pub open spec fn offsets(&self) -> Seq<Vec2> {
        Seq::new(self.contents@.len(), |i: int| self.contents@[i].0)
    }

    pub fn new(id: IdGen, contents: Vec<(Vec2, DynWidget<R, V, F, P>)>) -> (c: Self)
        ensures
            c.id == id,
            c.contents == contents,
    {
        StackContainer { id, contents }
    }
}

/// Whether laying out the first `k` children can lead from the context
/// `before` to the context `after` with the children returning `raw`: child
/// `i` is laid out below `id` in what its offset leaves of `available`, and
/// is never told to shrink.
pub open spec fn stacked_upto<R, V, F, P>(
    children: Seq<Conduct<R, V, F, P>>,
    offsets: Seq<Vec2>,
    id: WidgetId,
    available: Vec2,
    raw: Seq<LayoutModel>,
    k: int,
    before: ContextModel<R, V, F, P>,
    after: ContextModel<R, V, F, P>,
) -> bool
    decreases k,
{
    if k <= 0 {
        after == before
    } else {
        exists|mid: ContextModel<R, V, F, P>|
            {
                &&& stacked_upto(children, offsets, id, available, raw, k - 1, before, mid)
                &&& #[trigger] lays(
                    children[k - 1],
                    mid,
                    id,
                    available.minus_spec(offsets[k - 1]),
                    false,
                    after,
                    raw[k - 1],
                )
            }
    }
}

/// Whether a stack container can return `node` and lead from `before` to
/// `after`: its children are laid out in order, and the node is
/// [`stack_arrange`] of what they returned.
pub open spec fn stack_laid_out<R, V, F, P>(
    children: Seq<Conduct<R, V, F, P>>,
    offsets: Seq<Vec2>,
    id: WidgetId,
    available: Vec2,
    before: ContextModel<R, V, F, P>,
    after: ContextModel<R, V, F, P>,
    node: LayoutModel,
) -> bool {
    exists|raw: Seq<LayoutModel>|
        {
            &&& raw.len() == children.len()
            &&& #[trigger] stacked_upto(
                children,
                offsets,
                id,
                available,
                raw,
                children.len() as int,
                before,
                after,
            )
            &&& node == stack_arrange(id, offsets, raw)
        }
}

/// Laying out the first `k` children does not depend on what the children
/// behind them return.
pub proof fn lemma_stacked_prefix<R, V, F, P>(
    children: Seq<Conduct<R, V, F, P>>,
    offsets: Seq<Vec2>,
    id: WidgetId,
    available: Vec2,
    shorter: Seq<LayoutModel>,
    longer: Seq<LayoutModel>,
    k: int,
    before: ContextModel<R, V, F, P>,
    after: ContextModel<R, V, F, P>,
)
    requires
        forall|j: int| 0 <= j < k ==> shorter[j] == longer[j],
        stacked_upto(children, offsets, id, available, shorter, k, before, after),
    ensures
        stacked_upto(children, offsets, id, available, longer, k, before, after),
    decreases k,
{
    if k > 0 {
        let mid = choose|mid: ContextModel<R, V, F, P>|
            {
                &&& stacked_upto(children, offsets, id, available, shorter, k - 1, before, mid)
                &&& #[trigger] lays(
                    children[k - 1],
                    mid,
                    id,
                    available.minus_spec(offsets[k - 1]),
                    false,
                    after,
                    shorter[k - 1],
                )
            };
        lemma_stacked_prefix(children, offsets, id, available, shorter, longer, k - 1, before, mid);
        assert(lays(
            children[k - 1],
            mid,
            id,
            available.minus_spec(offsets[k - 1]),
            false,
            after,
            longer[k - 1],
        ));
    }
}

impl<R, V, F, P> Widget<R, V, F, P> for StackContainer<R, V, F, P> {
    open spec fn hints(&self) -> LayoutHints {
        LayoutHints {
            size_hints: SizeHints { width: SizeHint::Fill, height: SizeHint::Fill },
            weight: 1,
        }
    }

    /// See [`stack_laid_out`].
    open spec fn laid_out(
        &self,
        before: ContextModel<R, V, F, P>,
        parent_id: WidgetId,
        available: Vec2,
        force_shrink: bool,
        after: ContextModel<R, V, F, P>,
        node: LayoutModel,
    ) -> bool {
        stack_laid_out(
            conducts(self.widgets()),
            self.offsets(),
            self.id.resolve_spec(parent_id),
            available,
            before,
            after,
            node,
        )
    }

    /// The children are painted in order, each with the child node of the
    /// same index, as far as there are both.
    open spec fn drawn(
        &self,
        before: ContextModel<R, V, F, P>,
        layout: LayoutModel,
        after: ContextModel<R, V, F, P>,
    ) -> bool {
        drawn_upto(
            conducts(self.widgets()),
            layout.children,
            forwarded(self.contents@.len(), layout.children.len()),
            before,
            after,
        )
    }

    /// The children are handed the events in order, each with the child
    /// node of the same index, until one of them has consumed them.
    open spec fn handled(
        &self,
        before: ContextModel<R, V, F, P>,
        layout: LayoutModel,
        cursor_position: Pos2,
        events: Seq<Event>,
        status_before: EventStatus,
        after: ContextModel<R, V, F, P>,
        status_after: EventStatus,
    ) -> bool {
        handled_upto(
            conducts(self.widgets()),
            layout.children,
            cursor_position,
            events,
            forwarded(self.contents@.len(), layout.children.len()),
            before,
            status_before,
            after,
            status_after,
        )
    }

    /// Lays every child out below the container's own identifier, in what
    /// its offset leaves of the offer, and moves it by its offset.
    /// `force_shrink` is not heeded.
    fn layout(
        &mut self,
        ctx: &mut Context<R, V, F, P>,
        parent_id: WidgetId,
        available: Vec2,
        force_shrink: bool,
    ) -> (node: Layout)
        ensures
            final(self).id == old(self).id,
            final(self).offsets() == old(self).offsets(),
    {
        let widget_id = self.id.resolve(parent_id);
        let n = self.contents.len();
        let ghost offsets = self.offsets();
        let ghost children = conducts(self.widgets());
        let ghost mut raw: Seq<LayoutModel> = Seq::empty();
        let mut children_layouts: Vec<Layout> = Vec::new();
        let mut current_rect = Rect::from_min_max(Pos2::zero(), Pos2::zero());
        let mut i: usize = 0;
        while i < n
            invariant
                i <= n,
                n == self.contents@.len(),
                n == old(self).contents@.len(),
                self.id == old(self).id,
                self.offsets() == offsets,
                offsets == old(self).offsets(),
                offsets.len() == n,
                widget_id == self.id.resolve_spec(parent_id),
                children == conducts(old(self).widgets()),
                conducts(self.widgets()) == children,
                raw.len() == i,
                children_layouts@.len() == i,
                current_rect == stack_bounds_upto(offsets, raw, i as int),
                forall|j: int| 0 <= j < i ==> (#[trigger] children_layouts@[j])@ == raw[j].translated(offsets[j]),
                stacked_upto(children, offsets, widget_id, available, raw, i as int, old(ctx)@, ctx@),
                ctx@.input == old(ctx)@.input,
                ctx@.widgets == old(ctx)@.widgets,
                ctx@.external == old(ctx)@.external,
                ctx@.internal == old(ctx)@.internal,
                old(ctx)@.memory.submap_of(ctx@.memory),
            decreases n - i,
        {
            let ghost before = self.contents@;
            let ghost memory_before = ctx@.memory;
            let ghost ctx_before = ctx@;
            let ghost raw_before = raw;
            let offset = self.contents[i].0;
            assert(offset == offsets[i as int]);
            let offered = available.minus(offset);
            assert(conduct_of(&*before[i as int].1.widget) == children[i as int]);
            let node = self.contents[i].1.widget.layout(ctx, widget_id, offered, false);
            proof {
                raw = raw.push(node@);
            }
            let placed = node.translated(offset);
            current_rect = current_rect.union(placed.bounds);
            children_layouts.push(placed);
            proof {
                assert(forall|j: int| 0 <= j < n && j != i ==> self.contents@[j] == before[j]);
                assert(self.offsets() =~= offsets);
                assert(conduct_of(&*self.contents@[i as int].1.widget).laid_out =~= conduct_of(
                    &*before[i as int].1.widget,
                ).laid_out);
                assert(conduct_of(&*self.contents@[i as int].1.widget).drawn =~= conduct_of(
                    &*before[i as int].1.widget,
                ).drawn);
                assert(conduct_of(&*self.contents@[i as int].1.widget).handled =~= conduct_of(
                    &*before[i as int].1.widget,
                ).handled);
                assert(conduct_of(&*self.contents@[i as int].1.widget) == conduct_of(
                    &*before[i as int].1.widget,
                ));
                assert(conducts(self.widgets()) =~= children);
                lemma_submap_transitive(old(ctx)@.memory, memory_before, ctx@.memory);
                lemma_stack_bounds_prefix(offsets, raw_before, raw, i as int);
                let k = i + 1;
                lemma_stacked_prefix(
                    children,
                    offsets,
                    widget_id,
                    available,
                    raw_before,
                    raw,
                    i as int,
                    old(ctx)@,
                    ctx_before,
                );
                assert(lays(
                    children[k - 1],
                    ctx_before,
                    widget_id,
                    available.minus_spec(offsets[k - 1]),
                    false,
                    ctx@,
                    raw[k - 1],
                ));
                assert(stacked_upto(
                    children,
                    offsets,
                    widget_id,
                    available,
                    raw,
                    k,
                    old(ctx)@,
                    ctx@,
                ));
            }
            i += 1;
        }
        proof {
            assert(layout_views(children_layouts@) =~= Seq::new(
                raw.len(),
                |i: int| raw[i].translated(offsets[i]),
            ));
        }
        let node = Layout::with_children(widget_id, current_rect.size(), children_layouts);
        proof {
            assert(node@ == stack_arrange(widget_id, offsets, raw));
            assert(stack_laid_out(
                children,
                offsets,
                widget_id,
                available,
                old(ctx)@,
                ctx@,
                node@,
            ));
        }
        node
    }

    /// Paints the children in order, each with the node of the same index.
    fn draw(&mut self, ctx: &mut Context<R, V, F, P>, layout: &Layout) {
        let ghost widgets = conducts(self.widgets());
        let ghost offsets = self.offsets();
        let ghost nodes = layout@.children;
        proof {
            layout.lemma_view();
        }
        let n = if self.contents.len() < layout.children.len() {
            self.contents.len()
        } else {
            layout.children.len()
        };
        let mut i: usize = 0;
        while i < n
            invariant
                i <= n,
                n <= self.contents@.len(),
                n <= layout.children@.len(),
                ctx@.input == old(ctx)@.input,
                self.id == old(self).id,
                self.offsets() == offsets,
                offsets == old(self).offsets(),
                widgets == conducts(old(self).widgets()),
                conducts(self.widgets()) == widgets,
                nodes == layout_views(layout.children@),
                self.contents@.len() == old(self).contents@.len(),
                drawn_upto(widgets, nodes, i as int, old(ctx)@, ctx@),
            decreases n - i,
        {
            let ghost before = self.contents@;
            let ghost ctx_before = ctx@;
            assert(conduct_of(&*before[i as int].1.widget) == widgets[i as int]);
            self.contents[i].1.widget.draw(ctx, &layout.children[i]);
            proof {
                assert(forall|j: int|
                    0 <= j < self.contents@.len() && j != i ==> self.contents@[j] == before[j]);
                assert(self.offsets() =~= offsets);
                assert(conduct_of(&*self.contents@[i as int].1.widget).laid_out =~= conduct_of(
                    &*before[i as int].1.widget,
                ).laid_out);
                assert(conduct_of(&*self.contents@[i as int].1.widget).drawn =~= conduct_of(
                    &*before[i as int].1.widget,
                ).drawn);
                assert(conduct_of(&*self.contents@[i as int].1.widget).handled =~= conduct_of(
                    &*before[i as int].1.widget,
                ).handled);
                assert(conduct_of(&*self.contents@[i as int].1.widget) == conduct_of(
                    &*before[i as int].1.widget,
                ));
                assert(conducts(self.widgets()) =~= widgets);
                let k = i + 1;
                assert(draws(widgets[k - 1], ctx_before, nodes[k - 1], ctx@));
                assert(drawn_upto(widgets, nodes, k, old(ctx)@, ctx@));
            }
            i += 1;
        }
    }

    fn layout_hints(&self) -> (hints: LayoutHints) {
        LayoutHints::fill()
    }

    /// Hands the events to the children in order until one of them has
    /// consumed them.
    fn on_event(
        &mut self,
        ctx: &mut Context<R, V, F, P>,
        layout: &Layout,
        cursor_position: Pos2,
        events: &[Event],
        status: &mut EventStatus,
    ) {
        let ghost widgets = conducts(self.widgets());
        let ghost offsets = self.offsets();
        let ghost nodes = layout@.children;
        proof {
            layout.lemma_view();
        }
        let n = if self.contents.len() < layout.children.len() {
            self.contents.len()
        } else {
            layout.children.len()
        };
        let mut i: usize = 0;
        while i < n && *status == EventStatus::Ignored
            invariant
                i <= n,
                n <= self.contents@.len(),
                n <= layout.children@.len(),
                ctx@.input == old(ctx)@.input,
                *old(status) == EventStatus::Consumed ==> *status == EventStatus::Consumed && ctx@
                    == old(ctx)@,
                self.id == old(self).id,
                self.offsets() == offsets,
                offsets == old(self).offsets(),
                widgets == conducts(old(self).widgets()),
                conducts(self.widgets()) == widgets,
                nodes == layout_views(layout.children@),
                self.contents@.len() == old(self).contents@.len(),
                handled_upto(
                    widgets,
                    nodes,
                    cursor_position,
                    events@,
                    i as int,
                    old(ctx)@,
                    *old(status),
                    ctx@,
                    *status,
                ),
            decreases n - i,
        {
            let ghost before = self.contents@;
            let ghost ctx_before = ctx@;
            let ghost status_before = *status;
            assert(conduct_of(&*before[i as int].1.widget) == widgets[i as int]);
            self.contents[i].1.widget.on_event(ctx, &layout.children[i], cursor_position, events, status);
            proof {
                assert(forall|j: int|
                    0 <= j < self.contents@.len() && j != i ==> self.contents@[j] == before[j]);
                assert(self.offsets() =~= offsets);
                assert(conduct_of(&*self.contents@[i as int].1.widget).laid_out =~= conduct_of(
                    &*before[i as int].1.widget,
                ).laid_out);
                assert(conduct_of(&*self.contents@[i as int].1.widget).drawn =~= conduct_of(
                    &*before[i as int].1.widget,
                ).drawn);
                assert(conduct_of(&*self.contents@[i as int].1.widget).handled =~= conduct_of(
                    &*before[i as int].1.widget,
                ).handled);
                assert(conduct_of(&*self.contents@[i as int].1.widget) == conduct_of(
                    &*before[i as int].1.widget,
                ));
                assert(conducts(self.widgets()) =~= widgets);
                let k = i + 1;
                assert(handled_or_passed(
                    widgets[k - 1],
                    nodes[k - 1],
                    cursor_position,
                    events@,
                    ctx_before,
                    status_before,
                    ctx@,
                    *status,
                ));
                assert(handled_upto(
                    widgets,
                    nodes,
                    cursor_position,
                    events@,
                    k,
                    old(ctx)@,
                    *old(status),
                    ctx@,
                    *status,
                ));
            }
            i += 1;
        }
        proof {
            if i < n {
                lemma_consumed_stays(
                    widgets,
                    nodes,
                    cursor_position,
                    events@,
                    i as int,
                    n as int,
                    old(ctx)@,
                    *old(status),
                    ctx@,
                );
            }
        }
    }
}

/// The bounds of the first `k` children do not depend on the children behind
/// them.
proof fn lemma_stack_bounds_prefix(
    offsets: Seq<Vec2>,
    shorter: Seq<LayoutModel>,
    longer: Seq<LayoutModel>,
    k: int,
)
    requires
        0 <= k <= shorter.len() <= longer.len(),
        forall|j: int| 0 <= j < shorter.len() ==> shorter[j] == longer[j],
    ensures
        stack_bounds_upto(offsets, shorter, k) == stack_bounds_upto(offsets, longer, k),
    decreases k,
{
    if k > 0 {
        lemma_stack_bounds_prefix(offsets, shorter, longer, k - 1);
    }
}

} // verus!
