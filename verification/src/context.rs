//! The context that every phase of a frame is handed: the input, the focus
//! and drag arbiter, the callbacks that were dispatched, the persistent
//! memory, and the painter that the application brought.

use vstd::prelude::*;
use vstd::string::StringSliceAdditionalSpecFns;
use crate::accessor::AccessError;
use crate::accessor::AccessorRegistry;
use crate::callback::Callback;
use crate::callback::DispatchedCallbackStorage;
use crate::callback::DispatchedExternalCallback;
use crate::callback::PollToken;
use crate::geometry::Rect;
use crate::geometry::Vec2;
use crate::input::Event;
use crate::input::EventStatus;
use crate::input::InputModel;
use crate::input::InputState;
use crate::input::InputWidgetModel;
use crate::input::InputWidgetState;
use crate::input::MouseButton;
use crate::input::WindowInput;
use crate::memory::Memory;
use crate::memory::MemoryKey;
use crate::transform::TranslateScale;
use crate::type_tag::TypeTag;
use crate::callback::first_failure;
use crate::callback::ran_in_turn;
use crate::callback::run_count;
use crate::layout::LayoutModel;
use crate::widget::conduct_of;
use crate::widget::Conduct;
use crate::widget::draws;
use crate::widget::handles;
use crate::widget::lays;
use crate::widget::DynWidget;
use crate::widget::Widget;
use crate::widget_id::WidgetId;

verus! {

/// What a claim for the drag of `button` by `widget_id` over `rect` comes
/// to: who holds the drags afterwards, and whether the claim is granted.
///
/// A drag that a widget holds stays with it: the holder's claim is granted
/// wherever the pointer is, and nobody else's is. A drag that nobody holds
/// goes to the first widget that claims it over a rectangle which contains
/// the place where the drag started, seen through the cursor transform.
pub open spec fn claim_outcome(
    widgets: InputWidgetModel,
    input: InputModel,
    widget_id: WidgetId,
    rect: Rect,
    button: MouseButton,
) -> (InputWidgetModel, bool) {
    match widgets.holder(button) {
        Some(holder) => (widgets, holder == widget_id),
        None => match input.button(button).drag_origin() {
            Some(origin) => if rect.contains_spec(
                widgets.cursor_transform.transform_point_spec(origin),
            ) {
                (InputWidgetModel { drag: widgets.drag.insert(button, widget_id), ..widgets }, true)
            } else {
                (widgets, false)
            },
            None => (widgets, false),
        },
    }
}

/// The focus after `widget_id` gave it up: it goes only if `widget_id` had
/// it, so that a late release does not take the focus from a widget that
/// asked for it since.
pub open spec fn focus_after_release(focus: Option<WidgetId>, widget_id: WidgetId) -> Option<
    WidgetId,
> {
    if focus == Some(widget_id) {
        None
    } else {
        focus
    }
}

/// Once a widget holds the drag of a button, the claim of any other widget
/// for that button is refused and changes nothing, wherever the pointer is
/// and whatever rectangle is claimed, for as long as the drag is held.
pub proof fn lemma_drag_is_exclusive(
    widgets: InputWidgetModel,
    input: InputModel,
    holder: WidgetId,
    other: WidgetId,
    rect: Rect,
    button: MouseButton,
)
    requires
        widgets.holder(button) == Some(holder),
        other != holder,
    ensures
        claim_outcome(widgets, input, other, rect, button) == (widgets, false),
        claim_outcome(widgets, input, holder, rect, button) == (widgets, true),
{
}

/// Of two widgets that claim a drag which nobody holds, over rectangles
/// that both contain the place where it started, the one that claims first
/// gets it and the other is refused.
pub proof fn lemma_first_claim_wins(
    widgets: InputWidgetModel,
    input: InputModel,
    first: WidgetId,
    second: WidgetId,
    first_rect: Rect,
    second_rect: Rect,
    button: MouseButton,
)
    requires
        first != second,
        widgets.holder(button) is None,
        input.button(button).drag_origin() matches Some(origin) && first_rect.contains_spec(
            widgets.cursor_transform.transform_point_spec(origin),
        ) && second_rect.contains_spec(widgets.cursor_transform.transform_point_spec(origin)),
    ensures
        claim_outcome(widgets, input, first, first_rect, button).1,
        !claim_outcome(
            claim_outcome(widgets, input, first, first_rect, button).0,
            input,
            second,
            second_rect,
            button,
        ).1,
{
    let after = claim_outcome(widgets, input, first, first_rect, button).0;
    assert(after.holder(button) == Some(first));
}

/// The release of a button frees its drag: whoever claims it next over the
/// place where the next drag starts gets it.
pub proof fn lemma_release_frees_the_drag(widgets: InputWidgetModel, button: MouseButton)
    ensures
        widgets.on_input(WindowInput::MouseInput { pressed: false, button }).holder(button) is None,
        forall|other: MouseButton|
            other != button ==> widgets.on_input(
                WindowInput::MouseInput { pressed: false, button },
            ).holder(other) == #[trigger] widgets.holder(other),
{
}

/// Everything that the phases of a frame share. `R` is the painter, `V`
/// what widgets keep in memory, `F` the functions of external callbacks and
/// `P` the payloads that callbacks are dispatched with.
pub struct Context<R, V, F, P> {
    pub painter: R,
    pub input_state: InputState,
    pub input_widget_state: InputWidgetState,
    pub dispatched_callbacks: DispatchedCallbackStorage<F, P>,
    pub memory: Memory<V>,
}

/// The mathematical value of a [`Context`].
pub struct ContextModel<R, V, F, P> {
    pub painter: R,
    pub input: InputModel,
    pub widgets: InputWidgetModel,
    pub external: Seq<DispatchedExternalCallback<F, P>>,
    pub internal: Map<usize, P>,
    pub next_token: usize,
    pub memory: Map<MemoryKey, V>,
}

impl<R, V, F, P> View for Context<R, V, F, P> {
    type V = ContextModel<R, V, F, P>;

    open spec fn view(&self) -> ContextModel<R, V, F, P> {
        ContextModel {
            painter: self.painter,
            input: self.input_state@,
            widgets: self.input_widget_state@,
            external: self.dispatched_callbacks.external@,
            internal: self.dispatched_callbacks.internal@,
            next_token: self.dispatched_callbacks.next_token,
            memory: self.memory@,
        }
    }
}

impl<R, V, F, P> Context<R, V, F, P> {
    /// A context for a screen of the given size, with nothing in it yet.
    pub fn new(screen_size: Vec2, painter: R) -> (ctx: Self)
        ensures
            ctx@.painter == painter,
            ctx@.input == InputState::new_spec(screen_size),
            ctx@.widgets == InputWidgetModel::initial(),
            ctx@.external == Seq::<DispatchedExternalCallback<F, P>>::empty(),
            ctx@.internal == Map::<usize, P>::empty(),
            ctx@.next_token == 0,
            ctx@.memory == Map::<MemoryKey, V>::empty(),
    {
        Context {
            painter,
            input_state: InputState::new(screen_size),
            input_widget_state: InputWidgetState::new(),
            dispatched_callbacks: DispatchedCallbackStorage::new(),
            memory: Memory::new(),
        }
    }

    /// Takes in one report of the window system.
    pub fn on_winit_event(&mut self, event: &WindowInput)
        ensures
            final(self)@ == (ContextModel {
                input: old(self)@.input.on_input(*event),
                widgets: old(self)@.widgets.on_input(*event),
                ..old(self)@
            }),
    {
        self.input_state.on_winit_event(&mut self.input_widget_state, event);
    }

    /// Called by widgets: the callback `c` has fired with `payload`.
    pub fn dispatch_callback(&mut self, c: Callback<F, P>, payload: P)
        ensures
            final(self)@ == (match c {
                Callback::External(ext) => ContextModel {
                    external: old(self)@.external.push(
                        DispatchedExternalCallback {
                            input_type: ext.input_type,
                            callback: ext.f,
                            payload,
                        },
                    ),
                    ..old(self)@
                },
                Callback::Internal { token } => ContextModel {
                    internal: old(self)@.internal.insert(token.number(), payload),
                    ..old(self)@
                },
            }),
    {
        self.dispatched_callbacks.dispatch_callback(c, payload);
    }

    /// Called by widgets: makes an internal callback and the token that
    /// redeems its payload.
    pub fn create_internal_callback(&mut self) -> (made: (Callback<F, P>, PollToken<P>))
        requires
            old(self)@.next_token < usize::MAX,
        ensures
            made.1.number() == old(self)@.next_token,
            made.0 matches Callback::Internal { token } && token.number() == old(self)@.next_token,
            final(self)@ == (ContextModel {
                next_token: (old(self)@.next_token + 1) as usize,
                ..old(self)@
            }),
    {
        self.dispatched_callbacks.create_internal_callback()
    }

    /// Whether another token can be handed out in this frame.
    pub fn can_create_internal_callback(&self) -> (b: bool)
        ensures
            b == (self@.next_token < usize::MAX),
    {
        self.dispatched_callbacks.next_token < usize::MAX
    }

    /// Called by widgets: takes the payload that was dispatched under `tk`,
    /// if one was and it has not been taken yet.
    pub fn poll_callback_result(&mut self, tk: PollToken<P>) -> (r: Option<P>)
        ensures
            r == if old(self)@.internal.contains_key(tk.number()) {
                Some(old(self)@.internal[tk.number()])
            } else {
                None
            },
            final(self)@ == (ContextModel {
                internal: old(self)@.internal.remove(tk.number()),
                ..old(self)@
            }),
    {
        self.dispatched_callbacks.poll_callback_result(tk)
    }

    /// Gives the focus to `widget_id`, whoever had it.
    pub fn request_focus(&mut self, widget_id: WidgetId)
        ensures
            final(self)@ == (ContextModel {
                widgets: InputWidgetModel { focus: Some(widget_id), ..old(self)@.widgets },
                ..old(self)@
            }),
    {
        self.input_widget_state.focus = Some(widget_id);
    }

    /// Gives up the focus of `widget_id`. Where another widget has the
    /// focus, or none, nothing changes.
    pub fn release_focus(&mut self, widget_id: WidgetId)
        ensures
            final(self)@ == (ContextModel {
                widgets: InputWidgetModel {
                    focus: focus_after_release(old(self)@.widgets.focus, widget_id),
                    ..old(self)@.widgets
                },
                ..old(self)@
            }),
    {
        match self.input_widget_state.focus {
            Some(id) => {
                if id == widget_id {
                    self.input_widget_state.focus = None;
                }
            },
            None => {},
        }
    }

    /// The widget that has the focus.
    pub fn get_focus(&self) -> (focus: Option<WidgetId>)
        ensures
            focus == self@.widgets.focus,
    {
        self.input_widget_state.focus
    }

    /// Whether `widget_id` has the focus.
    pub fn is_focused(&self, widget_id: WidgetId) -> (b: bool)
        ensures
            b == (self@.widgets.focus == Some(widget_id)),
    {
        match self.input_widget_state.focus {
            Some(id) => id == widget_id,
            None => false,
        }
    }

    /// Claims the drag of `mouse_button` for `widget_id`, which shows
    /// itself in `rect`. See [`claim_outcome`] for when the claim is
    /// granted. A drag that was granted is held until the button is
    /// released.
    pub fn claim_drag_event(&mut self, widget_id: WidgetId, rect: Rect, mouse_button: MouseButton) -> (granted:
        bool)
        ensures
            granted == claim_outcome(
                old(self)@.widgets,
                old(self)@.input,
                widget_id,
                rect,
                mouse_button,
            ).1,
            final(self)@ == (ContextModel {
                widgets: claim_outcome(
                    old(self)@.widgets,
                    old(self)@.input,
                    widget_id,
                    rect,
                    mouse_button,
                ).0,
                ..old(self)@
            }),
    {
        let drag = self.input_state.mouse.button_state.is_dragging(mouse_button);
        match self.input_widget_state.drag.get(&mouse_button) {
            Some(holder) => *holder == widget_id,
            None => match drag {
                Some(origin) => {
                    let transformed = self.input_widget_state.cursor_transform.transform_point(
                        origin,
                    );
                    if rect.contains(transformed) {
                        self.input_widget_state.drag.insert(mouse_button, widget_id);
                        true
                    } else {
                        false
                    }
                },
                None => false,
            },
        }
    }

    /// Sets what is applied to pointer positions before they are compared
    /// with the rectangles that widgets claim, and gives what was set before,
    /// so that a container can set a transform for its children and put the
    /// old one back behind them.
    pub fn set_cursor_transform(&mut self, transform: TranslateScale) -> (before: TranslateScale)
        ensures
            before == old(self)@.widgets.cursor_transform,
            final(self)@ == (ContextModel {
                widgets: InputWidgetModel { cursor_transform: transform, ..old(self)@.widgets },
                ..old(self)@
            }),
    {
        let before = self.input_widget_state.cursor_transform;
        self.input_widget_state.cursor_transform = transform;
        before
    }

    /// The painter.
    pub fn painter(&mut self) -> (painter: &mut R)
        ensures
            *painter == old(self).painter,
            final(self)@ == (ContextModel { painter: *final(painter), ..old(self)@ }),
    {
        &mut self.painter
    }
}

/// The context `ctx` with the events of the frame taken out.
pub open spec fn without_events<R, V, F, P>(ctx: ContextModel<R, V, F, P>) -> ContextModel<
    R,
    V,
    F,
    P,
> {
    ContextModel { input: InputModel { events: Seq::empty(), ..ctx.input }, ..ctx }
}

/// The types of state that the callbacks `external` ask for, in order.
pub open spec fn targets_of<F, P>(external: Seq<DispatchedExternalCallback<F, P>>) -> Seq<TypeTag> {
    external.map_values(|d: DispatchedExternalCallback<F, P>| d.input_type)
}

/// Whether every callback that can stand in the queue when a frame on the
/// tree `tree` has been drawn, the frame having begun in `ctx`, may be called
/// with its payload on every handle to a state of type `S`. It speaks of the
/// callbacks that wait in `ctx` and of those that the tree dispatches while
/// it is laid out, handed the events and drawn.
pub open spec fn frame_callable<S: ?Sized, R, V, F, P>(
    tree: Conduct<R, V, F, P>,
    ctx: ContextModel<R, V, F, P>,
) -> bool where F: FnOnce(&mut S, P) {
    forall|
        node: LayoutModel,
        laid: ContextModel<R, V, F, P>,
        handled: ContextModel<R, V, F, P>,
        status: EventStatus,
        drawn: ContextModel<R, V, F, P>,
    |
        #![trigger lays(tree, ctx, WidgetId::named("__ROOT__".spec_bytes()), ctx.input.screen_size, false, laid, node), handles(tree, without_events(laid), node.to_absolute(Vec2::zero_spec()), ctx.input.position, ctx.input.events, EventStatus::Ignored, handled, status), draws(tree, handled, node.to_absolute(Vec2::zero_spec()), drawn)]
        lays(
            tree,
            ctx,
            WidgetId::named("__ROOT__".spec_bytes()),
            ctx.input.screen_size,
            false,
            laid,
            node,
        ) && handles(
            tree,
            without_events(laid),
            node.to_absolute(Vec2::zero_spec()),
            ctx.input.position,
            ctx.input.events,
            EventStatus::Ignored,
            handled,
            status,
        ) && draws(tree, handled, node.to_absolute(Vec2::zero_spec()), drawn) ==> forall|j: int|
            0 <= j < drawn.external.len() ==> (#[trigger] drawn.external[j]).can_run::<S>()
}

impl<R, V, F, P> Context<R, V, F, P> {
    /// Runs one frame on the widget tree `widget`.
    ///
    /// The tree is laid out in the screen, under the root identifier and not
    /// told to shrink, and its layout is made absolute. The events of the
    /// frame are taken out of the input and handed to the tree, oldest
    /// first, together with where the pointer is and the status `Ignored`.
    /// The tree is painted. Then the frame ends: the callbacks that were
    /// dispatched are run on `state`, which is of type `state_type`, as
    /// [`DispatchedCallbackStorage::end_frame`] says, and the input ages.
    ///
    /// Whatever the widgets did, the frame leaves no event, no dispatched
    /// callback and no token behind. An error says that a callback could
    /// not get at the state it asked for.
    ///
    /// The callbacks that the frame can end with must be such as can run
    /// on the state: those that wait already, and those that the tree
    /// dispatches, as far as its widgets say what they dispatch.
    pub fn run<S: ?Sized, A>(
        &mut self,
        widget: &mut DynWidget<R, V, F, P>,
        state: &mut S,
        state_type: TypeTag,
        accessor_registry: &AccessorRegistry<A>,
    ) -> (r: Result<(), AccessError>) where
        A: for <'b>Fn(&'b mut S) -> &'b mut S,
        F: FnOnce(&mut S, P),

        requires
            accessor_registry.callable::<S>(),
            frame_callable::<S, R, V, F, P>(conduct_of(&*old(widget).widget), old(self)@),
        ensures
            final(self)@.input == (InputModel {
                events: Seq::<Event>::empty(),
                ..old(self)@.input
            }).aged(),
            final(self)@.external == Seq::<DispatchedExternalCallback<F, P>>::empty(),
            final(self)@.internal == Map::<usize, P>::empty(),
            final(self)@.next_token == 0,
            exists|
                node: LayoutModel,
                laid: ContextModel<R, V, F, P>,
                handled: ContextModel<R, V, F, P>,
                status: EventStatus,
                drawn: ContextModel<R, V, F, P>,
                states: Seq<&S>,
                argss: Seq<Seq<&mut S>>,
                arg_endss: Seq<Seq<&S>>,
                outss: Seq<Seq<&mut S>>,
                out_endss: Seq<Seq<&S>>,
                ends: Seq<&S>,
                end_ends: Seq<&S>,
                ss: Seq<&mut S>,
            |
                #![trigger lays(conduct_of(&*old(widget).widget), old(self)@, WidgetId::named("__ROOT__".spec_bytes()), old(self)@.input.screen_size, false, laid, node), handles(conduct_of(&*old(widget).widget), without_events(laid), node.to_absolute(Vec2::zero_spec()), old(self)@.input.position, old(self)@.input.events, EventStatus::Ignored, handled, status), draws(conduct_of(&*old(widget).widget), handled, node.to_absolute(Vec2::zero_spec()), drawn), ran_in_turn(accessor_registry, state_type, drawn.external, run_count(accessor_registry.hops(), state_type, targets_of(drawn.external)), states, argss, arg_endss, outss, out_endss, ends, end_ends, ss)]
                {
                    &&& lays(
                        conduct_of(&*old(widget).widget),
                        old(self)@,
                        WidgetId::named("__ROOT__".spec_bytes()),
                        old(self)@.input.screen_size,
                        false,
                        laid,
                        node,
                    )
                    &&& handles(
                        conduct_of(&*old(widget).widget),
                        without_events(laid),
                        node.to_absolute(Vec2::zero_spec()),
                        old(self)@.input.position,
                        old(self)@.input.events,
                        EventStatus::Ignored,
                        handled,
                        status,
                    )
                    &&& draws(
                        conduct_of(&*old(widget).widget),
                        handled,
                        node.to_absolute(Vec2::zero_spec()),
                        drawn,
                    )
                    &&& final(self)@.painter == drawn.painter
                    &&& final(self)@.memory == drawn.memory
                    &&& final(self)@.widgets == drawn.widgets
                    &&& match first_failure(
                        accessor_registry.hops(),
                        state_type,
                        targets_of(drawn.external),
                    ) {
                        None => r is Ok,
                        Some(failure) => r matches Err(e) && e == failure,
                    }
                    &&& ran_in_turn(
                        accessor_registry,
                        state_type,
                        drawn.external,
                        run_count(accessor_registry.hops(), state_type, targets_of(drawn.external)),
                        states,
                        argss,
                        arg_endss,
                        outss,
                        out_endss,
                        ends,
                        end_ends,
                        ss,
                    )
                    &&& states[0] == &*old(state)
                    &&& states[states.len() - 1] == &*final(state)
                    &&& forall|j: int|
                        #![trigger end_ends[j]]
                        0 <= j < ss.len() ==> end_ends[j] == &*final(ss[j])
                    &&& forall|j: int, i: int|
                        #![trigger arg_endss[j][i]]
                        0 <= j < argss.len() && 0 <= i < argss[j].len() ==> arg_endss[j][i]
                            == &*final(argss[j][i]) && out_endss[j][i] == &*final(outss[j][i])
                },
            conduct_of(&*final(widget).widget) == conduct_of(&*old(widget).widget),
    {
        let ghost tree = conduct_of(&*widget.widget);
        let ghost before = widget.widget;
        let screen_size = self.input_state.screen_size;
        let mut layout = widget.widget.layout(self, WidgetId::new("__ROOT__"), screen_size, false);
        let ghost node = layout@;
        let ghost laid = self@;
        proof {
            assert(conduct_of(&*widget.widget).laid_out =~= tree.laid_out);
            assert(conduct_of(&*widget.widget).drawn =~= tree.drawn);
            assert(conduct_of(&*widget.widget).handled =~= tree.handled);
            assert(conduct_of(&*widget.widget) == tree);
        }
        layout.to_absolute(Vec2::zero());

        let mut events: Vec<Event> = Vec::new();
        core::mem::swap(&mut self.input_state.ev_buffer, &mut events);
        let cursor_position = self.input_state.mouse.position;
        let mut status = EventStatus::Ignored;
        proof {
            assert(self@ == without_events(laid));
        }
        let ghost middle = widget.widget;
        widget.widget.on_event(self, &layout, cursor_position, events.as_slice(), &mut status);
        let ghost handled = self@;
        proof {
            assert(conduct_of(&*widget.widget).laid_out =~= tree.laid_out);
            assert(conduct_of(&*widget.widget).drawn =~= tree.drawn);
            assert(conduct_of(&*widget.widget).handled =~= tree.handled);
            assert(conduct_of(&*widget.widget) == tree);
        }

        widget.widget.draw(self, &layout);
        let ghost drawn = self@;
        proof {
            assert(conduct_of(&*widget.widget).laid_out =~= tree.laid_out);
            assert(conduct_of(&*widget.widget).drawn =~= tree.drawn);
            assert(conduct_of(&*widget.widget).handled =~= tree.handled);
            assert(conduct_of(&*widget.widget) == tree);
            assert(self.dispatched_callbacks.targets() == targets_of(drawn.external));
            assert(lays(
                tree,
                old(self)@,
                WidgetId::named("__ROOT__".spec_bytes()),
                old(self)@.input.screen_size,
                false,
                laid,
                node,
            ));
            assert(handles(
                tree,
                without_events(laid),
                node.to_absolute(Vec2::zero_spec()),
                old(self)@.input.position,
                old(self)@.input.events,
                EventStatus::Ignored,
                handled,
                status,
            ));
            assert(draws(tree, handled, node.to_absolute(Vec2::zero_spec()), drawn));
            assert(self.dispatched_callbacks.external@ == drawn.external);
        }

        let r = self.dispatched_callbacks.end_frame(state, state_type, accessor_registry);
        self.input_state.end_frame();
        proof {
            let m = run_count(accessor_registry.hops(), state_type, targets_of(drawn.external));
            let (states, argss, arg_endss, outss, out_endss, ends, end_ends, ss) = choose|
                states: Seq<&S>,
                argss: Seq<Seq<&mut S>>,
                arg_endss: Seq<Seq<&S>>,
                outss: Seq<Seq<&mut S>>,
                out_endss: Seq<Seq<&S>>,
                ends: Seq<&S>,
                end_ends: Seq<&S>,
                ss: Seq<&mut S>,
            |
                {
                    &&& #[trigger] ran_in_turn(
                        accessor_registry,
                        state_type,
                        drawn.external,
                        m,
                        states,
                        argss,
                        arg_endss,
                        outss,
                        out_endss,
                        ends,
                        end_ends,
                        ss,
                    )
                    &&& states[0] == &*old(state)
                    &&& states[m] == &*state
                    &&& forall|j: int|
                        #![trigger end_ends[j]]
                        0 <= j < m ==> end_ends[j] == &*final(ss[j])
                    &&& forall|j: int, i: int|
                        #![trigger arg_endss[j][i]]
                        0 <= j < m && 0 <= i < argss[j].len() ==> arg_endss[j][i] == &*final(argss[j][i]) && out_endss[j][i] == &*final(outss[j][i])
                };
            assert(ran_in_turn(
                accessor_registry,
                state_type,
                drawn.external,
                m,
                states,
                argss,
                arg_endss,
                outss,
                out_endss,
                ends,
                end_ends,
                ss,
            ));
            assert(lays(
                tree,
                old(self)@,
                WidgetId::named("__ROOT__".spec_bytes()),
                old(self)@.input.screen_size,
                false,
                laid,
                node,
            ));
            assert(handles(
                tree,
                without_events(laid),
                node.to_absolute(Vec2::zero_spec()),
                old(self)@.input.position,
                old(self)@.input.events,
                EventStatus::Ignored,
                handled,
                status,
            ));
            assert(draws(tree, handled, node.to_absolute(Vec2::zero_spec()), drawn));
        }
        r
    }
}

} // verus!
