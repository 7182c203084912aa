//! The spacer: a widget that shows nothing and takes room.

use vstd::prelude::*;
use vstd::string::StringSliceAdditionalSpecFns;
use crate::context::Context;
use crate::context::ContextModel;
use crate::geometry::Pos2;
use crate::geometry::Vec2;
use crate::input::Event;
use crate::input::EventStatus;
use crate::layout::Layout;
use crate::layout::LayoutHints;
use crate::layout::LayoutModel;
use crate::layout::SizeHint;
use crate::layout::SizeHints;
use crate::widget::Widget;
use crate::widget_id::WidgetId;

verus! {

/// An empty widget. Along an axis on which it shrinks it is as long as its
/// minimum size; along one on which it fills it takes what is on offer.
#[derive(Copy, Clone, Debug, PartialEq, Eq, Structural)]
pub struct Spacer {
    pub min_size: Vec2,
    pub layout_hints: LayoutHints,
}

impl Spacer {
    /// The size that the spacer takes when it is offered `available`.
    pub open spec fn size_spec(self, available: Vec2, force_shrink: bool) -> Vec2 {
        Vec2 {
            x: match self.layout_hints.size_hints.width.or_force_spec(force_shrink) {
                SizeHint::Shrink => self.min_size.x,
                SizeHint::Fill => available.x,
            },
            y: match self.layout_hints.size_hints.height.or_force_spec(force_shrink) {
                SizeHint::Shrink => self.min_size.y,
                SizeHint::Fill => available.y,
            },
        }
    }

    /// The size that the spacer takes when it is offered `available`,
    /// computed. It serves every widget that is sized by a minimum and by
    /// hints.
    pub fn size(&self, available: Vec2, force_shrink: bool) -> (size: Vec2)
        ensures
            size == self.size_spec(available, force_shrink),
    {
        let width = match self.layout_hints.size_hints.width.or_force(force_shrink) {
            SizeHint::Shrink => self.min_size.x,
            SizeHint::Fill => available.x,
        };
        let height = match self.layout_hints.size_hints.height.or_force(force_shrink) {
            SizeHint::Shrink => self.min_size.y,
            SizeHint::Fill => available.y,
        };
        Vec2::new(width, height)
    }

    pub fn new(min_size: Vec2, layout_hints: LayoutHints) -> (s: Spacer)
        ensures
            s == (Spacer { min_size, layout_hints }),
    {
        Spacer { min_size, layout_hints }
    }

    /// A spacer that fills horizontally with the given weight.
    pub fn fill_h(weight: u32) -> (s: Spacer)
        ensures
            s == (Spacer {
                min_size: Vec2::zero_spec(),
                layout_hints: LayoutHints {
                    size_hints: SizeHints { width: SizeHint::Fill, height: SizeHint::Shrink },
                    weight,
                },
            }),
    {
        Spacer {
            min_size: Vec2::zero(),
            layout_hints: LayoutHints {
                size_hints: SizeHints { width: SizeHint::Fill, height: SizeHint::Shrink },
                weight,
            },
        }
    }

    /// A spacer that fills vertically with the given weight.
    pub fn fill_v(weight: u32) -> (s: Spacer)
        ensures
            s == (Spacer {
                min_size: Vec2::zero_spec(),
                layout_hints: LayoutHints {
                    size_hints: SizeHints { width: SizeHint::Shrink, height: SizeHint::Fill },
                    weight,
                },
            }),
    {
        Spacer {
            min_size: Vec2::zero(),
            layout_hints: LayoutHints {
                size_hints: SizeHints { width: SizeHint::Shrink, height: SizeHint::Fill },
                weight,
            },
        }
    }

    /// A spacer of height `len` and no width.
    pub fn v(len: i32) -> (s: Spacer)
        ensures
            s == (Spacer {
                min_size: Vec2 { x: 0, y: len },
                layout_hints: LayoutHints {
                    size_hints: SizeHints { width: SizeHint::Shrink, height: SizeHint::Shrink },
                    weight: 1,
                },
            }),
    {
        Spacer {
            min_size: Vec2::new(0, len),
            layout_hints: LayoutHints {
                size_hints: SizeHints { width: SizeHint::Shrink, height: SizeHint::Shrink },
                weight: 1,
            },
        }
    }

    /// A spacer of width `len` and no height.
    pub fn h(len: i32) -> (s: Spacer)
        ensures
            s == (Spacer {
                min_size: Vec2 { x: len, y: 0 },
                layout_hints: LayoutHints {
                    size_hints: SizeHints { width: SizeHint::Shrink, height: SizeHint::Shrink },
                    weight: 1,
                },
            }),
    {
        Spacer {
            min_size: Vec2::new(len, 0),
            layout_hints: LayoutHints {
                size_hints: SizeHints { width: SizeHint::Shrink, height: SizeHint::Shrink },
                weight: 1,
            },
        }
    }
}

impl<R, V, F, P> Widget<R, V, F, P> for Spacer {
    open spec fn hints(&self) -> LayoutHints {
        self.layout_hints
    }

    /// The node is a leaf of the spacer's size, and the context stays as it
    /// is.
    open spec fn laid_out(
        &self,
        before: ContextModel<R, V, F, P>,
        parent_id: WidgetId,
        available: Vec2,
        force_shrink: bool,
        after: ContextModel<R, V, F, P>,
        node: LayoutModel,
    ) -> bool {
        &&& after == before
        &&& node == LayoutModel::leaf(
            parent_id.child("spacer".spec_bytes()),
            self.size_spec(available, force_shrink),
        )
    }

    /// Nothing is painted.
    open spec fn drawn(
        &self,
        before: ContextModel<R, V, F, P>,
        layout: LayoutModel,
        after: ContextModel<R, V, F, P>,
    ) -> bool {
        after == before
    }

    /// No event is acted upon.
    open spec fn handled(
        &self,
        before: ContextModel<R, V, F, P>,
        layout: LayoutModel,
        cursor_position: Pos2,
        events: Seq<Event>,
        status_before: EventStatus,
        after: ContextModel<R, V, F, P>,
        status_after: EventStatus,
    ) -> bool {
        after == before && status_after == status_before
    }

    fn layout(
        &mut self,
        ctx: &mut Context<R, V, F, P>,
        parent_id: WidgetId,
        available: Vec2,
        force_shrink: bool,
    ) -> (node: Layout)
        ensures
            *final(self) == *old(self),
            final(ctx)@ == old(ctx)@,
            node@ == LayoutModel::leaf(
                parent_id.child("spacer".spec_bytes()),
                old(self).size_spec(available, force_shrink),
            ),
    {
        let widget_id = parent_id.with("spacer");
        Layout::leaf(widget_id, self.size(available, force_shrink))
    }

    /// There is nothing to paint.
    fn draw(&mut self, ctx: &mut Context<R, V, F, P>, layout: &Layout)
        ensures
            *final(self) == *old(self),
            final(ctx)@ == old(ctx)@,
    {
    }

    fn layout_hints(&self) -> (hints: LayoutHints) {
        self.layout_hints
    }

    /// A spacer acts on no event.
    fn on_event(
        &mut self,
        ctx: &mut Context<R, V, F, P>,
        layout: &Layout,
        cursor_position: Pos2,
        events: &[Event],
        status: &mut EventStatus,
    )
        ensures
            *final(self) == *old(self),
            final(ctx)@ == old(ctx)@,
            *final(status) == *old(status),
    {
    }
}

} // verus!
