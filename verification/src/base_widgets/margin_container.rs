//! The margin container: room around a widget.

use vstd::prelude::*;
use crate::context::Context;
use crate::context::ContextModel;
use crate::geometry::Pos2;
use crate::geometry::Vec2;
use crate::input::Event;
use crate::input::EventStatus;
use crate::layout::layout_views;
use crate::layout::Layout;
use crate::layout::LayoutHints;
use crate::layout::LayoutModel;
use crate::widget::conduct_of;
use crate::widget::draws;
use crate::widget::handles;
use crate::widget::lays;
use crate::widget::DynWidget;
use crate::widget::Widget;
use crate::widget_id::IdGen;
use crate::widget_id::WidgetId;

verus! {

/// A container that is larger than its child by `margin` and holds the
/// child in its middle: half of the margin lies before the child and half
/// behind it, on each axis. It paints nothing of its own.
#[verifier::reject_recursive_types(R)]
#[verifier::reject_recursive_types(V)]
#[verifier::reject_recursive_types(F)]
#[verifier::reject_recursive_types(P)]
pub struct MarginContainer<R, V, F, P> {
    pub id: IdGen,
    /// The sum of the margins on both sides, for each axis.
    pub margin: Vec2,
    pub contents: DynWidget<R, V, F, P>,
}

/// The node of a margin container, given what its child returned.
pub open spec fn margin_arrange(widget_id: WidgetId, margin: Vec2, raw: LayoutModel) -> LayoutModel {
    let child = raw.translated(margin.halved_spec());
    LayoutModel::with_children(widget_id, child.bounds.size_spec().plus_spec(margin), seq![child])
}

impl<R, V, F, P> MarginContainer<R, V, F, P> {
    pub fn new(id: IdGen, contents: DynWidget<R, V, F, P>) -> (c: Self)
        ensures
            c.id == id,
            c.margin == Vec2::zero_spec(),
            c.contents == contents,
    {
        MarginContainer { id, margin: Vec2::zero(), contents }
    }

    pub fn margin(self, margin: Vec2) -> (c: Self)
        ensures
            c == (MarginContainer { margin, ..self }),
    {
        let mut this = self;
        this.margin = margin;
        this
    }
}

impl<R, V, F, P> Widget<R, V, F, P> for MarginContainer<R, V, F, P> {
    open spec fn hints(&self) -> LayoutHints {
        self.contents.widget.hints()
    }

    /// The node is [`margin_arrange`] of what the child returns when it is
    /// laid out below the container in what the margin leaves of
    /// `available`.
    open spec fn laid_out(
        &self,
        before: ContextModel<R, V, F, P>,
        parent_id: WidgetId,
        available: Vec2,
        force_shrink: bool,
        after: ContextModel<R, V, F, P>,
        node: LayoutModel,
    ) -> bool {
        exists|raw: LayoutModel|
            lays(
                conduct_of(&*self.contents.widget),
                before,
                self.id.resolve_spec(parent_id),
                available.minus_spec(self.margin),
                force_shrink,
                after,
                raw,
            ) && node == #[trigger] margin_arrange(self.id.resolve_spec(parent_id), self.margin, raw)
    }

    /// The child is painted with the first child node of `layout`. Where
    /// there is none, nothing is painted.
    open spec fn drawn(
        &self,
        before: ContextModel<R, V, F, P>,
        layout: LayoutModel,
        after: ContextModel<R, V, F, P>,
    ) -> bool {
        if layout.children.len() > 0 {
            draws(conduct_of(&*self.contents.widget), before, layout.children[0], after)
        } else {
            after == before
        }
    }

    /// The child is handed the events with the first child node of
    /// `layout`. Where there is none, nothing happens.
    open spec fn handled(
        &self,
        before: ContextModel<R, V, F, P>,
        layout: LayoutModel,
        cursor_position: Pos2,
        events: Seq<Event>,
        status_before: EventStatus,
        after: ContextModel<R, V, F, P>,
        status_after: EventStatus,
    ) -> bool {
        if layout.children.len() > 0 {
            handles(
                conduct_of(&*self.contents.widget),
                before,
                layout.children[0],
                cursor_position,
                events,
                status_before,
                after,
                status_after,
            )
        } else {
            after == before && status_after == status_before
        }
    }

    /// Offers the child what the margin leaves of the offer.
    fn layout(
        &mut self,
        ctx: &mut Context<R, V, F, P>,
        parent_id: WidgetId,
        available: Vec2,
        force_shrink: bool,
    ) -> (node: Layout)
        ensures
            final(self).id == old(self).id,
            final(self).margin == old(self).margin,
            exists|raw: LayoutModel|
                node@ == #[trigger] margin_arrange(
                    old(self).id.resolve_spec(parent_id),
                    old(self).margin,
                    raw,
                ),
    {
        let widget_id = self.id.resolve(parent_id);
        let content = self.contents.widget.layout(
            ctx,
            widget_id,
            available.minus(self.margin),
            force_shrink,
        );
        let ghost raw = content@;
        let placed = content.translated(self.margin.halved());
        let size = placed.bounds.size().plus(self.margin);
        let mut children: Vec<Layout> = Vec::new();
        children.push(placed);
        proof {
            assert(layout_views(children@) =~= seq![raw.translated(self.margin.halved_spec())]);
        }
        let node = Layout::with_children(widget_id, size, children);
        proof {
            assert(node@ == margin_arrange(widget_id, self.margin, raw));
        }
        node
    }

    /// Paints the child, with the one child node of `layout`.
    fn draw(&mut self, ctx: &mut Context<R, V, F, P>, layout: &Layout)
        ensures
            final(self).margin == old(self).margin,
    {
        if layout.children.len() > 0 {
            self.contents.widget.draw(ctx, &layout.children[0]);
        }
        proof {
            assert(conduct_of(&*self.contents.widget).laid_out =~= conduct_of(
                &*old(self).contents.widget,
            ).laid_out);
            assert(conduct_of(&*self.contents.widget).drawn =~= conduct_of(
                &*old(self).contents.widget,
            ).drawn);
            assert(conduct_of(&*self.contents.widget).handled =~= conduct_of(
                &*old(self).contents.widget,
            ).handled);
            assert(conduct_of(&*self.contents.widget) == conduct_of(&*old(self).contents.widget));
            assert(self.id == old(self).id);
            assert(self.margin == old(self).margin);
            assert forall|
                b: ContextModel<R, V, F, P>,
                p: WidgetId,
                a: Vec2,
                f: bool,
                c: ContextModel<R, V, F, P>,
                n: LayoutModel,
            |
                #![trigger self.laid_out(b, p, a, f, c, n)]
                #![trigger old(self).laid_out(b, p, a, f, c, n)]
                self.laid_out(b, p, a, f, c, n) == old(self).laid_out(b, p, a, f, c, n) by {
                if self.laid_out(b, p, a, f, c, n) {
                    let raw = choose|raw: LayoutModel|
                        lays(
                            conduct_of(&*self.contents.widget),
                            b,
                            self.id.resolve_spec(p),
                            a.minus_spec(self.margin),
                            f,
                            c,
                            raw,
                        ) && n == #[trigger] margin_arrange(self.id.resolve_spec(p), self.margin, raw);
                    assert(n == margin_arrange(old(self).id.resolve_spec(p), old(self).margin, raw));
                }
                if old(self).laid_out(b, p, a, f, c, n) {
                    let raw = choose|raw: LayoutModel|
                        lays(
                            conduct_of(&*old(self).contents.widget),
                            b,
                            old(self).id.resolve_spec(p),
                            a.minus_spec(old(self).margin),
                            f,
                            c,
                            raw,
                        ) && n == #[trigger] margin_arrange(
                            old(self).id.resolve_spec(p),
                            old(self).margin,
                            raw,
                        );
                    assert(n == margin_arrange(self.id.resolve_spec(p), self.margin, raw));
                }
            }
        }
    }

    fn layout_hints(&self) -> (hints: LayoutHints) {
        self.contents.widget.layout_hints()
    }

    /// Hands the events to the child, with the one child node of `layout`.
    fn on_event(
        &mut self,
        ctx: &mut Context<R, V, F, P>,
        layout: &Layout,
        cursor_position: Pos2,
        events: &[Event],
        status: &mut EventStatus,
    )
        ensures
            final(self).margin == old(self).margin,
    {
        if layout.children.len() > 0 {
            self.contents.widget.on_event(ctx, &layout.children[0], cursor_position, events, status);
        }
        proof {
            assert(conduct_of(&*self.contents.widget).laid_out =~= conduct_of(
                &*old(self).contents.widget,
            ).laid_out);
            assert(conduct_of(&*self.contents.widget).drawn =~= conduct_of(
                &*old(self).contents.widget,
            ).drawn);
            assert(conduct_of(&*self.contents.widget).handled =~= conduct_of(
                &*old(self).contents.widget,
            ).handled);
            assert(conduct_of(&*self.contents.widget) == conduct_of(&*old(self).contents.widget));
            assert(self.id == old(self).id);
            assert(self.margin == old(self).margin);
            assert forall|
                b: ContextModel<R, V, F, P>,
                p: WidgetId,
                a: Vec2,
                f: bool,
                c: ContextModel<R, V, F, P>,
                n: LayoutModel,
            |
                #![trigger self.laid_out(b, p, a, f, c, n)]
                #![trigger old(self).laid_out(b, p, a, f, c, n)]
                self.laid_out(b, p, a, f, c, n) == old(self).laid_out(b, p, a, f, c, n) by {
                if self.laid_out(b, p, a, f, c, n) {
                    let raw = choose|raw: LayoutModel|
                        lays(
                            conduct_of(&*self.contents.widget),
                            b,
                            self.id.resolve_spec(p),
                            a.minus_spec(self.margin),
                            f,
                            c,
                            raw,
                        ) && n == #[trigger] margin_arrange(self.id.resolve_spec(p), self.margin, raw);
                    assert(n == margin_arrange(old(self).id.resolve_spec(p), old(self).margin, raw));
                }
                if old(self).laid_out(b, p, a, f, c, n) {
                    let raw = choose|raw: LayoutModel|
                        lays(
                            conduct_of(&*old(self).contents.widget),
                            b,
                            old(self).id.resolve_spec(p),
                            a.minus_spec(old(self).margin),
                            f,
                            c,
                            raw,
                        ) && n == #[trigger] margin_arrange(
                            old(self).id.resolve_spec(p),
                            old(self).margin,
                            raw,
                        );
                    assert(n == margin_arrange(self.id.resolve_spec(p), self.margin, raw));
                }
            }
        }
    }
}

} // verus!
