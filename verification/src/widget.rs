//! The contract between the tree driver and every widget.

use vstd::prelude::*;
use crate::context::Context;
use crate::context::ContextModel;
use crate::geometry::Pos2;
use crate::geometry::Vec2;
use crate::input::Event;
use crate::input::EventStatus;
use crate::layout::Layout;
use crate::layout::LayoutHints;
use crate::layout::LayoutModel;
use crate::widget_id::WidgetId;

verus! {

/// What every widget, leaf or container, can do. The three phases are run
/// in this order once per frame: `layout`, `on_event`, `draw`.
///
/// A container hands every phase on to its children, in the order of the
/// children of the layout node that its own `layout` returned.
///
/// Beside each phase stands a relation (`laid_out`, `drawn`, `handled`) in
/// which a widget says what the phase comes to for it. The phase promises
/// that relation, so that a container can say what it does in terms of what
/// its children do, whatever they are. The relations and the hints are the
/// widget's [`Conduct`]. No phase changes it: what a widget does follows
/// from how it was declared, not from what it has done before.
pub trait Widget<R, V, F, P> {
    /// The widget's layout hints. A widget that says nothing shrinks both
    /// ways.
    open spec fn hints(&self) -> LayoutHints {
        LayoutHints {
            size_hints: crate::layout::SizeHints {
                width: crate::layout::SizeHint::Shrink,
                height: crate::layout::SizeHint::Shrink,
            },
            weight: 0,
        }
    }

    /// What laying out comes to, in the widget's own terms: whether this
    /// widget, laid out below `parent_id` in `available` with the context as
    /// `before`, can return `node` and leave the context as `after`. A
    /// widget that says nothing allows everything.
    open spec fn laid_out(
        &self,
        before: ContextModel<R, V, F, P>,
        parent_id: WidgetId,
        available: Vec2,
        force_shrink: bool,
        after: ContextModel<R, V, F, P>,
        node: LayoutModel,
    ) -> bool {
        true
    }

    /// What painting comes to: whether this widget, painted with the node
    /// `layout` and the context as `before`, can leave the context as
    /// `after`.
    open spec fn drawn(
        &self,
        before: ContextModel<R, V, F, P>,
        layout: LayoutModel,
        after: ContextModel<R, V, F, P>,
    ) -> bool {
        true
    }

    /// What handling events comes to: whether this widget, handed `events`
    /// with the node `layout`, the pointer at `cursor_position`, the context
    /// as `before` and the status as `status_before`, can leave the context
    /// as `after` and the status as `status_after`.
    open spec fn handled(
        &self,
        before: ContextModel<R, V, F, P>,
        layout: LayoutModel,
        cursor_position: Pos2,
        events: Seq<Event>,
        status_before: EventStatus,
        after: ContextModel<R, V, F, P>,
        status_after: EventStatus,
    ) -> bool {
        true
    }

    /// Computes the widget's layout node for the frame, with bounds
    /// relative to its parent, given the identifier of the parent and the
    /// size on offer. With `force_shrink` the widget takes its natural size
    /// whatever its hints say.
    ///
    /// Laying out has no effect outside the widget but these: the painter
    /// may be asked to measure text, tokens for internal callbacks may be
    /// made, and the widget may set up what it keeps in memory, where values
    /// that are there stay as they are. The hints stay too.
    fn layout(
        &mut self,
        ctx: &mut Context<R, V, F, P>,
        parent_id: WidgetId,
        available: Vec2,
        force_shrink: bool,
    ) -> (node: Layout)
        ensures
            final(self).hints() == old(self).hints(),
            final(ctx)@.input == old(ctx)@.input,
            final(ctx)@.widgets == old(ctx)@.widgets,
            final(ctx)@.external == old(ctx)@.external,
            final(ctx)@.internal == old(ctx)@.internal,
            old(ctx)@.memory.submap_of(final(ctx)@.memory),
            old(self).laid_out(
                old(ctx)@,
                parent_id,
                available,
                force_shrink,
                final(ctx)@,
                node@,
            ),
            forall|
                b: ContextModel<R, V, F, P>,
                p: WidgetId,
                a: Vec2,
                f: bool,
                c: ContextModel<R, V, F, P>,
                n: LayoutModel,
            |
                #![trigger final(self).laid_out(b, p, a, f, c, n)]
                #![trigger old(self).laid_out(b, p, a, f, c, n)]
                final(self).laid_out(b, p, a, f, c, n) == old(self).laid_out(b, p, a, f, c, n),
            forall|b: ContextModel<R, V, F, P>, l: LayoutModel, c: ContextModel<R, V, F, P>|
                #![trigger final(self).drawn(b, l, c)]
                #![trigger old(self).drawn(b, l, c)]
                final(self).drawn(b, l, c) == old(self).drawn(b, l, c),
            forall|
                b: ContextModel<R, V, F, P>,
                l: LayoutModel,
                at: Pos2,
                e: Seq<Event>,
                s: EventStatus,
                c: ContextModel<R, V, F, P>,
                t: EventStatus,
            |
                #![trigger final(self).handled(b, l, at, e, s, c, t)]
                #![trigger old(self).handled(b, l, at, e, s, c, t)]
                final(self).handled(b, l, at, e, s, c, t) == old(self).handled(
                    b,
                    l,
                    at,
                    e,
                    s,
                    c,
                    t,
                ),
    ;

    /// Paints the widget, given the layout node that `layout` returned for
    /// it, its bounds made absolute. Painting changes neither the hints nor
    /// the input.
    fn draw(&mut self, ctx: &mut Context<R, V, F, P>, layout: &Layout)
        ensures
            final(self).hints() == old(self).hints(),
            final(ctx)@.input == old(ctx)@.input,
            old(self).drawn(old(ctx)@, layout@, final(ctx)@),
            forall|
                b: ContextModel<R, V, F, P>,
                p: WidgetId,
                a: Vec2,
                f: bool,
                c: ContextModel<R, V, F, P>,
                n: LayoutModel,
            |
                #![trigger final(self).laid_out(b, p, a, f, c, n)]
                #![trigger old(self).laid_out(b, p, a, f, c, n)]
                final(self).laid_out(b, p, a, f, c, n) == old(self).laid_out(b, p, a, f, c, n),
            forall|b: ContextModel<R, V, F, P>, l: LayoutModel, c: ContextModel<R, V, F, P>|
                #![trigger final(self).drawn(b, l, c)]
                #![trigger old(self).drawn(b, l, c)]
                final(self).drawn(b, l, c) == old(self).drawn(b, l, c),
            forall|
                b: ContextModel<R, V, F, P>,
                l: LayoutModel,
                at: Pos2,
                e: Seq<Event>,
                s: EventStatus,
                c: ContextModel<R, V, F, P>,
                t: EventStatus,
            |
                #![trigger final(self).handled(b, l, at, e, s, c, t)]
                #![trigger old(self).handled(b, l, at, e, s, c, t)]
                final(self).handled(b, l, at, e, s, c, t) == old(self).handled(
                    b,
                    l,
                    at,
                    e,
                    s,
                    c,
                    t,
                ),
    ;

    fn layout_hints(&self) -> (hints: LayoutHints)
        ensures
            hints == self.hints(),
    ;

    /// Lets the widget act on the events of the frame, which come oldest
    /// first. `status` says whether another widget has consumed them
    /// already: then this widget does not act on them, and the context stays
    /// as it is. A widget that acts on them sets the status to `Consumed`,
    /// and none ever sets it back. The widget may ask for the focus, claim
    /// drags, change the memory and dispatch callbacks; the input itself it
    /// leaves alone.
    fn on_event(
        &mut self,
        ctx: &mut Context<R, V, F, P>,
        layout: &Layout,
        cursor_position: Pos2,
        events: &[Event],
        status: &mut EventStatus,
    )
        ensures
            final(self).hints() == old(self).hints(),
            final(ctx)@.input == old(ctx)@.input,
            *old(status) == EventStatus::Consumed ==> *final(status) == EventStatus::Consumed
                && final(ctx)@ == old(ctx)@,
            old(self).handled(
                old(ctx)@,
                layout@,
                cursor_position,
                events@,
                *old(status),
                final(ctx)@,
                *final(status),
            ),
            forall|
                b: ContextModel<R, V, F, P>,
                p: WidgetId,
                a: Vec2,
                f: bool,
                c: ContextModel<R, V, F, P>,
                n: LayoutModel,
            |
                #![trigger final(self).laid_out(b, p, a, f, c, n)]
                #![trigger old(self).laid_out(b, p, a, f, c, n)]
                final(self).laid_out(b, p, a, f, c, n) == old(self).laid_out(b, p, a, f, c, n),
            forall|b: ContextModel<R, V, F, P>, l: LayoutModel, c: ContextModel<R, V, F, P>|
                #![trigger final(self).drawn(b, l, c)]
                #![trigger old(self).drawn(b, l, c)]
                final(self).drawn(b, l, c) == old(self).drawn(b, l, c),
            forall|
                b: ContextModel<R, V, F, P>,
                l: LayoutModel,
                at: Pos2,
                e: Seq<Event>,
                s: EventStatus,
                c: ContextModel<R, V, F, P>,
                t: EventStatus,
            |
                #![trigger final(self).handled(b, l, at, e, s, c, t)]
                #![trigger old(self).handled(b, l, at, e, s, c, t)]
                final(self).handled(b, l, at, e, s, c, t) == old(self).handled(
                    b,
                    l,
                    at,
                    e,
                    s,
                    c,
                    t,
                ),
    ;
}

/// A widget of any kind.
#[verifier::reject_recursive_types(R)]
#[verifier::reject_recursive_types(V)]
#[verifier::reject_recursive_types(F)]
#[verifier::reject_recursive_types(P)]
pub struct DynWidget<R, V, F, P> {
    pub widget: Box<dyn Widget<R, V, F, P>>,
}

impl<R, V, F, P> DynWidget<R, V, F, P> {
    /// Boxes the widget `w`. What a boxed widget does is known where the
    /// box is made of a widget of a known type; where that matters, write the
    /// struct out with `Box::new` of the widget as its field.
    pub fn new<T: Widget<R, V, F, P> + 'static>(w: T) -> Self {
        DynWidget { widget: Box::new(w) }
    }
}

/// What a widget does in each phase, as far as the widget itself says: its
/// hints and its three relations.
#[verifier::reject_recursive_types(R)]
#[verifier::reject_recursive_types(V)]
#[verifier::reject_recursive_types(F)]
#[verifier::reject_recursive_types(P)]
pub struct Conduct<R, V, F, P> {
    pub hints: LayoutHints,
    pub laid_out: spec_fn(
        ContextModel<R, V, F, P>,
        WidgetId,
        Vec2,
        bool,
        ContextModel<R, V, F, P>,
        LayoutModel,
    ) -> bool,
    pub drawn: spec_fn(ContextModel<R, V, F, P>, LayoutModel, ContextModel<R, V, F, P>) -> bool,
    pub handled: spec_fn(
        ContextModel<R, V, F, P>,
        LayoutModel,
        Pos2,
        Seq<Event>,
        EventStatus,
        ContextModel<R, V, F, P>,
        EventStatus,
    ) -> bool,
}

/// The conduct of the widget `w`.
pub open spec fn conduct_of<R, V, F, P, W: Widget<R, V, F, P> + ?Sized>(w: &W) -> Conduct<
    R,
    V,
    F,
    P,
> {
    Conduct {
        hints: w.hints(),
        laid_out: |
            before: ContextModel<R, V, F, P>,
            parent_id: WidgetId,
            available: Vec2,
            force_shrink: bool,
            after: ContextModel<R, V, F, P>,
            node: LayoutModel,
        |
            w.laid_out(before, parent_id, available, force_shrink, after, node),
        drawn: |
            before: ContextModel<R, V, F, P>,
            layout: LayoutModel,
            after: ContextModel<R, V, F, P>,
        |
            w.drawn(before, layout, after),
        handled: |
            before: ContextModel<R, V, F, P>,
            layout: LayoutModel,
            cursor_position: Pos2,
            events: Seq<Event>,
            status_before: EventStatus,
            after: ContextModel<R, V, F, P>,
            status_after: EventStatus,
        |
            w.handled(
                before,
                layout,
                cursor_position,
                events,
                status_before,
                after,
                status_after,
            ),
    }
}

/// The conducts of a list of widgets, in order.
pub open spec fn conducts<R, V, F, P>(widgets: Seq<DynWidget<R, V, F, P>>) -> Seq<
    Conduct<R, V, F, P>,
> {
    Seq::new(widgets.len(), |i: int| conduct_of(&*widgets[i].widget))
}

/// Whether a widget of conduct `conduct`, laid out below `parent_id` in
/// `available` with the context as `before`, can return `node` and leave the
/// context as `after`.
pub open spec fn lays<R, V, F, P>(
    conduct: Conduct<R, V, F, P>,
    before: ContextModel<R, V, F, P>,
    parent_id: WidgetId,
    available: Vec2,
    force_shrink: bool,
    after: ContextModel<R, V, F, P>,
    node: LayoutModel,
) -> bool {
    (conduct.laid_out)(before, parent_id, available, force_shrink, after, node)
}

/// Whether a widget of conduct `conduct`, painted with the node `layout`
/// and the context as `before`, can leave the context as `after`.
pub open spec fn draws<R, V, F, P>(
    conduct: Conduct<R, V, F, P>,
    before: ContextModel<R, V, F, P>,
    layout: LayoutModel,
    after: ContextModel<R, V, F, P>,
) -> bool {
    (conduct.drawn)(before, layout, after)
}

/// Whether a widget of conduct `conduct`, handed `events`, can lead from
/// `before` and `status_before` to `after` and `status_after`.
pub open spec fn handles<R, V, F, P>(
    conduct: Conduct<R, V, F, P>,
    before: ContextModel<R, V, F, P>,
    layout: LayoutModel,
    cursor_position: Pos2,
    events: Seq<Event>,
    status_before: EventStatus,
    after: ContextModel<R, V, F, P>,
    status_after: EventStatus,
) -> bool {
    (conduct.handled)(
        before,
        layout,
        cursor_position,
        events,
        status_before,
        after,
        status_after,
    )
}

/// The number of children that a container hands a phase on to: as many as
/// it has, and no more than the layout node has nodes for them.
pub open spec fn forwarded(widgets: nat, nodes: nat) -> int {
    if widgets < nodes {
        widgets as int
    } else {
        nodes as int
    }
}

/// Whether painting the first `k` widgets of the conducts `widgets` in
/// order, each with the node of the same index, can lead from the context
/// `before` to the context `after`.
pub open spec fn drawn_upto<R, V, F, P>(
    widgets: Seq<Conduct<R, V, F, P>>,
    nodes: Seq<LayoutModel>,
    k: int,
    before: ContextModel<R, V, F, P>,
    after: ContextModel<R, V, F, P>,
) -> bool
    decreases k,
{
    if k <= 0 {
        after == before
    } else {
        exists|mid: ContextModel<R, V, F, P>|
            drawn_upto(widgets, nodes, k - 1, before, mid) && #[trigger] draws(
                widgets[k - 1],
                mid,
                nodes[k - 1],
                after,
            )
    }
}

/// Whether one widget of a container can lead from `before` and
/// `status_before` to `after` and `status_after`: by handling the events
/// where they are unconsumed, and else by not being called at all.
pub open spec fn handled_or_passed<R, V, F, P>(
    widget: Conduct<R, V, F, P>,
    node: LayoutModel,
    cursor_position: Pos2,
    events: Seq<Event>,
    before: ContextModel<R, V, F, P>,
    status_before: EventStatus,
    after: ContextModel<R, V, F, P>,
    status_after: EventStatus,
) -> bool {
    if status_before == EventStatus::Consumed {
        after == before && status_after == status_before
    } else {
        handles(
            widget,
            before,
            node,
            cursor_position,
            events,
            status_before,
            after,
            status_after,
        )
    }
}

/// Whether handing `events` to the first `k` widgets of the conducts
/// `widgets` in order, each with the node of the same index, can lead from
/// `before` and `status_before` to `after` and `status_after`. A widget
/// behind one that has consumed the events is not called.
pub open spec fn handled_upto<R, V, F, P>(
    widgets: Seq<Conduct<R, V, F, P>>,
    nodes: Seq<LayoutModel>,
    cursor_position: Pos2,
    events: Seq<Event>,
    k: int,
    before: ContextModel<R, V, F, P>,
    status_before: EventStatus,
    after: ContextModel<R, V, F, P>,
    status_after: EventStatus,
) -> bool
    decreases k,
{
    if k <= 0 {
        after == before && status_after == status_before
    } else {
        exists|mid: ContextModel<R, V, F, P>, status_mid: EventStatus|
            handled_upto(
                widgets,
                nodes,
                cursor_position,
                events,
                k - 1,
                before,
                status_before,
                mid,
                status_mid,
            ) && #[trigger] handled_or_passed(
                widgets[k - 1],
                nodes[k - 1],
                cursor_position,
                events,
                mid,
                status_mid,
                after,
                status_after,
            )
    }
}

/// Once the events are consumed, the widgets that follow change nothing.
pub proof fn lemma_consumed_stays<R, V, F, P>(
    widgets: Seq<Conduct<R, V, F, P>>,
    nodes: Seq<LayoutModel>,
    cursor_position: Pos2,
    events: Seq<Event>,
    k: int,
    m: int,
    before: ContextModel<R, V, F, P>,
    status_before: EventStatus,
    after: ContextModel<R, V, F, P>,
)
    requires
        0 <= k <= m,
        handled_upto(
            widgets,
            nodes,
            cursor_position,
            events,
            k,
            before,
            status_before,
            after,
            EventStatus::Consumed,
        ),
    ensures
        handled_upto(
            widgets,
            nodes,
            cursor_position,
            events,
            m,
            before,
            status_before,
            after,
            EventStatus::Consumed,
        ),
    decreases m - k,
{
    if k < m {
        lemma_consumed_stays(
            widgets,
            nodes,
            cursor_position,
            events,
            k,
            m - 1,
            before,
            status_before,
            after,
        );
        assert(handled_or_passed(
            widgets[m - 1],
            nodes[m - 1],
            cursor_position,
            events,
            after,
            EventStatus::Consumed,
            after,
            EventStatus::Consumed,
        ));
    }
}

/// Turning a widget into a widget of any kind.
pub trait ToDynWidget<R, V, F, P> {
    fn to_dyn(self) -> DynWidget<R, V, F, P>;
}

impl<R, V, F, P, T: Widget<R, V, F, P> + 'static> ToDynWidget<R, V, F, P> for T {
    fn to_dyn(self) -> DynWidget<R, V, F, P> {
        DynWidget::new(self)
    }
}

} // verus!
