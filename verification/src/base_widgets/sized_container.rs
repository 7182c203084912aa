//! The sized container: a widget that offers its child a size of its own
//! choosing.

use vstd::prelude::*;
use crate::context::Context;
use crate::context::ContextModel;
use crate::geometry::Pos2;
use crate::geometry::Vec2;
use crate::input::Event;
use crate::input::EventStatus;
use crate::layout::Layout;
use crate::layout::LayoutHints;
use crate::layout::LayoutModel;
use crate::widget::conduct_of;
use crate::widget::draws;
use crate::widget::handles;
use crate::widget::lays;
use crate::widget::DynWidget;
use crate::widget::Widget;
use crate::widget_id::WidgetId;

verus! {

/// A container that lays its child out in `size`, whatever it is offered
/// itself. In every other respect it is its child.
#[verifier::reject_recursive_types(R)]
#[verifier::reject_recursive_types(V)]
#[verifier::reject_recursive_types(F)]
#[verifier::reject_recursive_types(P)]
pub struct SizedContainer<R, V, F, P> {
    pub contents: DynWidget<R, V, F, P>,
    pub size: Vec2,
}

impl<R, V, F, P> SizedContainer<R, V, F, P> {
    pub fn new(contents: DynWidget<R, V, F, P>, size: Vec2) -> (c: Self)
        ensures
            c.contents == contents,
            c.size == size,
    {
        SizedContainer { contents, size }
    }
}

impl<R, V, F, P> Widget<R, V, F, P> for SizedContainer<R, V, F, P> {
    open spec fn hints(&self) -> LayoutHints {
        self.contents.widget.hints()
    }

    /// The node is what the child returns when it is offered `size` in
    /// place of `available`.
    open spec fn laid_out(
        &self,
        before: ContextModel<R, V, F, P>,
        parent_id: WidgetId,
        available: Vec2,
        force_shrink: bool,
        after: ContextModel<R, V, F, P>,
        node: LayoutModel,
    ) -> bool {
        lays(
            conduct_of(&*self.contents.widget),
            before,
            parent_id,
            self.size,
            force_shrink,
            after,
            node,
        )
    }

    /// The child is painted with the node that the container was given.
    open spec fn drawn(
        &self,
        before: ContextModel<R, V, F, P>,
        layout: LayoutModel,
        after: ContextModel<R, V, F, P>,
    ) -> bool {
        draws(conduct_of(&*self.contents.widget), before, layout, after)
    }

    /// The child is handed the events with the node that the container was
    /// given.
    open spec fn handled(
        &self,
        before: ContextModel<R, V, F, P>,
        layout: LayoutModel,
        cursor_position: Pos2,
        events: Seq<Event>,
        status_before: EventStatus,
        after: ContextModel<R, V, F, P>,
        status_after: EventStatus,
    ) -> bool {
        handles(
            conduct_of(&*self.contents.widget),
            before,
            layout,
            cursor_position,
            events,
            status_before,
            after,
            status_after,
        )
    }

    fn layout(
        &mut self,
        ctx: &mut Context<R, V, F, P>,
        parent_id: WidgetId,
        available: Vec2,
        force_shrink: bool,
    ) -> (node: Layout)
        ensures
            final(self).size == old(self).size,
    {
        self.contents.widget.layout(ctx, parent_id, self.size, force_shrink)
    }

    fn draw(&mut self, ctx: &mut Context<R, V, F, P>, layout: &Layout)
        ensures
            final(self).size == old(self).size,
    {
        self.contents.widget.draw(ctx, layout)
    }

    fn layout_hints(&self) -> (hints: LayoutHints) {
        self.contents.widget.layout_hints()
    }

    fn on_event(
        &mut self,
        ctx: &mut Context<R, V, F, P>,
        layout: &Layout,
        cursor_position: Pos2,
        events: &[Event],
        status: &mut EventStatus,
    )
        ensures
            final(self).size == old(self).size,
    {
        self.contents.widget.on_event(ctx, layout, cursor_position, events, status)
    }
}

} // verus!
