//! Callbacks.
//!
//! A widget that wants to tell the application of something does not reach
//! into the application's state. It dispatches a callback with a payload.
//! An external callback is put in a queue and run against the application's
//! state once the frame is over. An internal callback is a token under which
//! the payload is kept until the widget that made the token polls it, in the
//! same frame.

use vstd::prelude::*;
use std::collections::HashMap;
use std::marker::PhantomData;
use crate::accessor::chained;
use crate::accessor::route_failure;
use crate::accessor::AccessError;
use crate::accessor::AccessorRegistry;
use crate::accessor::Hop;
use crate::type_tag::TypeTag;

verus! {

/// The token of an internal callback whose payload is of type `P`. It is
/// handed out when the callback is made, and redeems the payload once the
/// callback was dispatched. Tokens are numbered anew every frame, so one
/// must not be kept from one frame to the next.
pub struct PollToken<P> {
    token: usize,
    _phantom: PhantomData<P>,
}

impl<P> PollToken<P> {
    /// The number of the token.
    pub closed spec fn number(&self) -> usize {
        self.token
    }

    pub fn as_raw(&self) -> (raw: RawPollToken)
        ensures
            raw.number() == self.number(),
    {
        RawPollToken { token: self.token }
    }
}

impl<P> Clone for PollToken<P> {
    fn clone(&self) -> (c: Self)
        ensures
            c.number() == self.number(),
    {
        PollToken { token: self.token, _phantom: PhantomData }
    }
}

impl<P> Copy for PollToken<P> {

}

/// A [`PollToken`] without the type of its payload.
#[derive(Clone, Copy, Hash, PartialEq, Eq, Structural)]
pub struct RawPollToken {
    token: usize,
}

impl RawPollToken {
    /// The number of the token.
    pub closed spec fn number(&self) -> usize {
        self.token
    }
}

/// Two raw tokens are the same exactly if their numbers are.
pub proof fn lemma_raw_tokens_by_number(a: RawPollToken, b: RawPollToken)
    ensures
        a == b <==> a.number() == b.number(),
{
}

/// An external callback: a function `f` that is to be run on the part of
/// the application's state that has type `input_type`.
pub struct ExternalCallback<F> {
    pub input_type: TypeTag,
    pub f: F,
}

/// A callback, external or internal.
pub enum Callback<F, P> {
    /// Given by the application. It is run after the frame, on the part of
    /// the application's state that it names, with the payload that the
    /// widget dispatched.
    External(ExternalCallback<F>),
    /// Made by a widget that wants to hear of what another widget
    /// dispatches. The payload is kept under the token until it is polled.
    Internal { token: PollToken<P> },
}

impl<F, P> Callback<F, P> {
    /// The external callback that runs `f` on the state of type
    /// `input_type`.
    pub fn from_fn(input_type: TypeTag, f: F) -> (c: Self)
        ensures
            c matches Callback::External(ext) && ext.input_type == input_type && ext.f == f,
    {
        Callback::External(ExternalCallback { input_type, f })
    }
}

/// An external callback together with the payload it was dispatched with,
/// waiting for the end of the frame.
pub struct DispatchedExternalCallback<F, P> {
    /// The type of state that the callback is to be run on.
    pub input_type: TypeTag,
    pub callback: F,
    pub payload: P,
}

impl<F, P> DispatchedExternalCallback<F, P> {
    pub fn new(c: ExternalCallback<F>, payload: P) -> (d: Self)
        ensures
            d.input_type == c.input_type,
            d.callback == c.f,
            d.payload == payload,
    {
        DispatchedExternalCallback { input_type: c.input_type, callback: c.f, payload }
    }

    /// Whether the callback may be run with its payload on every handle.
    pub open spec fn can_run<S: ?Sized>(self) -> bool where F: FnOnce(&mut S, P) {
        forall|s: &mut S| #[trigger] call_requires(self.callback, (s, self.payload))
    }

    /// Runs the callback with its payload on a handle to `state`: what the
    /// callback writes through that handle is written into `state`.
    pub fn invoke<S: ?Sized>(self, state: &mut S) where F: FnOnce(&mut S, P)
        requires
            self.can_run::<S>(),
        ensures
            exists|s: &mut S|
                {
                    &&& #[trigger] call_ensures(self.callback, (s, self.payload), ())
                    &&& &*s == &*old(state)
                    &&& &*final(s) == &*final(state)
                },
    {
        (self.callback)(state, self.payload)
    }
}

impl<A> AccessorRegistry<A> {
    /// Runs a dispatched callback on the part of `state` that it asks for.
    /// `state` is of type `state_type`. Where the callback asks for that
    /// type it is run on `state` itself, and else on what
    /// [`AccessorRegistry::access`] leads to: the callback is called once,
    /// with its payload, on a handle to what the projections of
    /// [`AccessorRegistry::route`] lead to from `state`, as [`chained`]
    /// says. Where no part of that type can be got at, the callback is not
    /// run and `state` stays as it is.
    pub fn invoke_callback<S: ?Sized, F, P>(
        &self,
        state: &mut S,
        state_type: TypeTag,
        cd: DispatchedExternalCallback<F, P>,
    ) -> (r: Result<(), AccessError>) where
        A: for <'b>Fn(&'b mut S) -> &'b mut S,
        F: FnOnce(&mut S, P),

        requires
            self.callable::<S>(),
            cd.can_run::<S>(),
        ensures
            match route_failure(self.hops(), state_type, cd.input_type) {
                None => r is Ok && exists|
                    args: Seq<&mut S>,
                    arg_ends: Seq<&S>,
                    outs: Seq<&mut S>,
                    out_ends: Seq<&S>,
                    end: &S,
                    end_end: &S,
                    s: &mut S,
                |
                    #![trigger chained(self.route(state_type, cd.input_type), args, arg_ends, outs, out_ends, &*old(state), &*final(state), end, end_end), call_ensures(cd.callback, (s, cd.payload), ())]
                    {
                        &&& chained(
                            self.route(state_type, cd.input_type),
                            args,
                            arg_ends,
                            outs,
                            out_ends,
                            &*old(state),
                            &*final(state),
                            end,
                            end_end,
                        )
                        &&& forall|i: int|
                            #![trigger arg_ends[i]]
                            0 <= i < args.len() ==> arg_ends[i] == &*final(args[i]) && out_ends[i]
                                == &*final(outs[i])
                        &&& call_ensures(cd.callback, (s, cd.payload), ())
                        &&& &*s == end
                        &&& &*final(s) == end_end
                    },
                Some(failure) => r matches Err(e) && e == failure,
            },
            r is Err ==> &*final(state) == &*old(state),
    {
        if state_type == cd.input_type {
            cd.invoke(state);
            proof {
                let s = choose|s: &mut S|
                    {
                        &&& #[trigger] call_ensures(cd.callback, (s, cd.payload), ())
                        &&& &*s == &*old(state)
                        &&& &*final(s) == &*final(state)
                    };
                let none = Seq::<&mut S>::empty();
                let ends = Seq::<&S>::empty();
                let end: &S = &*old(state);
                let end_end: &S = &*final(state);
                assert(chained(
                    self.route(state_type, cd.input_type),
                    none,
                    ends,
                    none,
                    ends,
                    &*old(state),
                    &*final(state),
                    end,
                    end_end,
                ));
                assert(call_ensures(cd.callback, (s, cd.payload), ()));
            }
            Ok(())
        } else {
            match self.access(state, state_type, cd.input_type) {
                Ok(projected) => {
                    let ghost part = projected;
                    cd.invoke(projected);
                    proof {
                        let steps = self.route(state_type, cd.input_type);
                        let (args, arg_ends, outs, out_ends) = choose|
                            args: Seq<&mut S>,
                            arg_ends: Seq<&S>,
                            outs: Seq<&mut S>,
                            out_ends: Seq<&S>,
                        |
                            {
                                &&& #[trigger] chained(
                                    steps,
                                    args,
                                    arg_ends,
                                    outs,
                                    out_ends,
                                    &*old(state),
                                    &*final(state),
                                    &*part,
                                    &*final(part),
                                )
                                &&& forall|i: int|
                                    #![trigger arg_ends[i]]
                                    0 <= i < args.len() ==> arg_ends[i] == &*final(args[i])
                                        && out_ends[i] == &*final(outs[i])
                            };
                        let s = choose|s: &mut S|
                            {
                                &&& #[trigger] call_ensures(cd.callback, (s, cd.payload), ())
                                &&& &*s == &*part
                                &&& &*final(s) == &*final(part)
                            };
                        let end: &S = &*part;
                        let end_end: &S = &*final(part);
                        assert(chained(
                            steps,
                            args,
                            arg_ends,
                            outs,
                            out_ends,
                            &*old(state),
                            &*final(state),
                            end,
                            end_end,
                        ));
                        assert(call_ensures(cd.callback, (s, cd.payload), ()));
                    }
                    Ok(())
                },
                Err(e) => Err(e),
            }
        }
    }
}

/// The first thing that stands in the way when callbacks for the types
/// `targets` are run one after the other, if anything does.
pub open spec fn first_failure(hops: Seq<Hop>, state_type: TypeTag, targets: Seq<TypeTag>) -> Option<
    AccessError,
>
    decreases targets.len(),
{
    if targets.len() == 0 {
        None
    } else {
        match route_failure(hops, state_type, targets.first()) {
            Some(failure) => Some(failure),
            None => first_failure(hops, state_type, targets.drop_first()),
        }
    }
}

/// How many of the callbacks for the types `targets` are run before one of
/// them finds no state, if one does.
pub open spec fn run_count(hops: Seq<Hop>, state_type: TypeTag, targets: Seq<TypeTag>) -> int
    decreases targets.len(),
{
    if targets.len() == 0 {
        0
    } else {
        match route_failure(hops, state_type, targets.first()) {
            Some(_) => 0,
            None => 1 + run_count(hops, state_type, targets.drop_first()),
        }
    }
}

/// Whether the callback `cd` has run on the part that the projections
/// `route` lead to from `start`, with the handles `args` and `outs` of the
/// projections and the handle `s` of the callback: the projections are
/// chained from a handle on `start`, whose state at the end is `start_end`,
/// to `end`, and the callback was called with its payload on the handle `s`
/// to `end`.
pub open spec fn ran_with<A, S: ?Sized, F, P>(
    route: Seq<A>,
    cd: DispatchedExternalCallback<F, P>,
    args: Seq<&mut S>,
    arg_ends: Seq<&S>,
    outs: Seq<&mut S>,
    out_ends: Seq<&S>,
    start: &S,
    start_end: &S,
    end: &S,
    end_end: &S,
    s: &mut S,
) -> bool where A: for <'b>Fn(&'b mut S) -> &'b mut S, F: FnOnce(&mut S, P) {
    &&& chained(route, args, arg_ends, outs, out_ends, start, start_end, end, end_end)
    &&& call_ensures(cd.callback, (s, cd.payload), ())
    &&& crate::accessor::holds(s, end)
}

/// Whether the first `m` callbacks of `all` have run in turn, callback `j`
/// on the part that its route leads to from `states[j]`, leaving
/// `states[j + 1]`, with the handles and values of that run at place `j` of
/// the other sequences.
pub open spec fn ran_in_turn<A, S: ?Sized, F, P>(
    registry: &AccessorRegistry<A>,
    state_type: TypeTag,
    all: Seq<DispatchedExternalCallback<F, P>>,
    m: int,
    states: Seq<&S>,
    argss: Seq<Seq<&mut S>>,
    arg_endss: Seq<Seq<&S>>,
    outss: Seq<Seq<&mut S>>,
    out_endss: Seq<Seq<&S>>,
    ends: Seq<&S>,
    end_ends: Seq<&S>,
    ss: Seq<&mut S>,
) -> bool where A: for <'b>Fn(&'b mut S) -> &'b mut S, F: FnOnce(&mut S, P) {
    &&& 0 <= m <= all.len()
    &&& states.len() == m + 1
    &&& argss.len() == m
    &&& arg_endss.len() == m
    &&& outss.len() == m
    &&& out_endss.len() == m
    &&& ends.len() == m
    &&& end_ends.len() == m
    &&& ss.len() == m
    &&& forall|j: int|
        0 <= j < m ==> #[trigger] ran_with(
            registry.route(state_type, all[j].input_type),
            all[j],
            argss[j],
            arg_endss[j],
            outss[j],
            out_endss[j],
            states[j],
            states[j + 1],
            ends[j],
            end_ends[j],
            ss[j],
        )
}

/// What was dispatched during a frame and waits for its end.
pub struct DispatchedCallbackStorage<F, P> {
    /// The external callbacks that were dispatched, oldest first, each with
    /// its payload.
    pub external: Vec<DispatchedExternalCallback<F, P>>,
    /// The payloads of the internal callbacks that were dispatched and not
    /// polled yet, by the number of their token.
    pub internal: HashMap<usize, P>,
    /// The number of the next token to hand out.
    pub next_token: usize,
}

impl<F, P> DispatchedCallbackStorage<F, P> {
    /// The types of state that the queued callbacks ask for, oldest first.
    pub open spec fn targets(&self) -> Seq<TypeTag> {
        self.external@.map_values(|d: DispatchedExternalCallback<F, P>| d.input_type)
    }

    pub fn new() -> (storage: Self)
        ensures
            storage.external@ == Seq::<DispatchedExternalCallback<F, P>>::empty(),
            storage.internal@ == Map::<usize, P>::empty(),
            storage.next_token == 0,
    {
        DispatchedCallbackStorage { external: Vec::new(), internal: HashMap::new(), next_token: 0 }
    }

    /// Takes in a callback that a widget fired. An external callback is
    /// put behind those already queued; the payload of an internal one is
    /// kept under its token, in place of a payload kept there before.
    pub fn dispatch_callback(&mut self, c: Callback<F, P>, payload: P)
        ensures
            final(self).next_token == old(self).next_token,
            match c {
                Callback::External(ext) => {
                    &&& final(self).internal@ == old(self).internal@
                    &&& final(self).external@ == old(self).external@.push(
                        DispatchedExternalCallback {
                            input_type: ext.input_type,
                            callback: ext.f,
                            payload,
                        },
                    )
                },
                Callback::Internal { token } => {
                    &&& final(self).external@ == old(self).external@
                    &&& final(self).internal@ == old(self).internal@.insert(token.number(), payload)
                },
            },
    {
        broadcast use vstd::std_specs::hash::group_hash_axioms;

        match c {
            Callback::External(ext) => {
                self.external.push(DispatchedExternalCallback::new(ext, payload));
            },
            Callback::Internal { token } => {
                self.internal.insert(token.token, payload);
            },
        }
    }

    /// Makes an internal callback and the token that redeems its payload.
    /// Tokens are counted up from zero in every frame.
    pub fn create_internal_callback(&mut self) -> (made: (Callback<F, P>, PollToken<P>))
        requires
            old(self).next_token < usize::MAX,
        ensures
            made.1.number() == old(self).next_token,
            made.0 matches Callback::Internal { token } && token.number() == old(self).next_token,
            final(self).next_token == old(self).next_token + 1,
            final(self).external@ == old(self).external@,
            final(self).internal@ == old(self).internal@,
    {
        let token = PollToken::<P> { token: self.next_token, _phantom: PhantomData };
        self.next_token = self.next_token + 1;
        (Callback::Internal { token }, token)
    }

    /// Takes the payload that was dispatched under `tk`, if one was and it
    /// has not been taken yet. A payload can be taken once.
    pub fn poll_callback_result(&mut self, tk: PollToken<P>) -> (r: Option<P>)
        ensures
            r == if old(self).internal@.contains_key(tk.number()) {
                Some(old(self).internal@[tk.number()])
            } else {
                None
            },
            final(self).internal@ == old(self).internal@.remove(tk.number()),
            final(self).external@ == old(self).external@,
            final(self).next_token == old(self).next_token,
    {
        broadcast use vstd::std_specs::hash::group_hash_axioms;

        let raw = tk.as_raw();
        self.internal.remove(&raw.token)
    }

    /// Ends the frame. The payloads of internal callbacks that nobody
    /// polled are dropped, the queued external callbacks are run on
    /// `state`, oldest first, and the tokens start from zero again.
    ///
    /// `state` is the root of the application's state and of type
    /// `state_type`. The first callback that cannot get at the state it asks
    /// for ends the run: it and the callbacks behind it are dropped without
    /// being run, and its failure is returned.
    ///
    /// The callbacks that run do so in turn: each on a handle to the part
    /// of the state that its route leads to, from the state as the callback
    /// before it left it, and what it writes through that handle is what
    /// the next one finds. The state at the end is what the last of them
    /// left.
    pub fn end_frame<S: ?Sized, A>(
        &mut self,
        state: &mut S,
        state_type: TypeTag,
        accessor_registry: &AccessorRegistry<A>,
    ) -> (r: Result<(), AccessError>) where
        A: for <'b>Fn(&'b mut S) -> &'b mut S,
        F: FnOnce(&mut S, P),

        requires
            accessor_registry.callable::<S>(),
            forall|j: int|
                0 <= j < old(self).external@.len() ==> (#[trigger] old(self).external@[j]).can_run::<
                    S,
                >(),
        ensures
            final(self).external@ == Seq::<DispatchedExternalCallback<F, P>>::empty(),
            final(self).internal@ == Map::<usize, P>::empty(),
            final(self).next_token == 0,
            match first_failure(accessor_registry.hops(), state_type, old(self).targets()) {
                None => r is Ok && run_count(
                    accessor_registry.hops(),
                    state_type,
                    old(self).targets(),
                ) == old(self).external@.len(),
                Some(failure) => r matches Err(e) && e == failure,
            },
            exists|
                states: Seq<&S>,
                argss: Seq<Seq<&mut S>>,
                arg_endss: Seq<Seq<&S>>,
                outss: Seq<Seq<&mut S>>,
                out_endss: Seq<Seq<&S>>,
                ends: Seq<&S>,
                end_ends: Seq<&S>,
                ss: Seq<&mut S>,
            |
                {
                    &&& #[trigger] ran_in_turn(
                        accessor_registry,
                        state_type,
                        old(self).external@,
                        run_count(accessor_registry.hops(), state_type, old(self).targets()),
                        states,
                        argss,
                        arg_endss,
                        outss,
                        out_endss,
                        ends,
                        end_ends,
                        ss,
                    )
                    &&& states[0] == &*old(state)
                    &&& states[run_count(accessor_registry.hops(), state_type, old(self).targets())] == &*final(state)
                    &&& forall|j: int| #![trigger end_ends[j]] 0 <= j < run_count(accessor_registry.hops(), state_type, old(self).targets()) ==> end_ends[j] == &*final(ss[j])
                    &&& forall|j: int, i: int|
                        #![trigger arg_endss[j][i]]
                        0 <= j < run_count(accessor_registry.hops(), state_type, old(self).targets()) && 0 <= i < argss[j].len() ==> arg_endss[j][i] == &*final(argss[j][i])
                            && out_endss[j][i] == &*final(outss[j][i])
                },
    {
        broadcast use vstd::std_specs::hash::group_hash_axioms;

        self.internal.clear();
        self.next_token = 0;
        let mut queue: Vec<DispatchedExternalCallback<F, P>> = Vec::new();
        core::mem::swap(&mut self.external, &mut queue);
        let ghost all = queue@;
        let ghost targets = old(self).targets();
        let ghost hops = accessor_registry.hops();
        // The callbacks are taken from the back of a list, so the queue is
        // turned round first.
        let mut stack: Vec<DispatchedExternalCallback<F, P>> = Vec::new();
        while queue.len() > 0
            invariant
                queue@ == all.take(queue.len() as int),
                queue.len() <= all.len(),
                stack.len() == all.len() - queue.len(),
                forall|j: int|
                    0 <= j < stack.len() ==> #[trigger] stack@[j] == all[all.len() - 1 - j],
            decreases queue.len(),
        {
            let d = queue.pop().unwrap();
            stack.push(d);
        }
        let mut done: usize = 0;
        let mut result: Result<(), AccessError> = Ok(());
        let ghost mut states: Seq<&S> = seq![&*state];
        proof {
            assert(targets.skip(0) =~= targets);
            assert(ran_in_turn(
                accessor_registry,
                state_type,
                all,
                0,
                states,
                Seq::<Seq<&mut S>>::empty(),
                Seq::<Seq<&S>>::empty(),
                Seq::<Seq<&mut S>>::empty(),
                Seq::<Seq<&S>>::empty(),
                Seq::<&S>::empty(),
                Seq::<&S>::empty(),
                Seq::<&mut S>::empty(),
            ));
        }
        while stack.len() > 0
            invariant_except_break
                done + stack.len() == all.len(),
                forall|j: int|
                    0 <= j < stack.len() ==> #[trigger] stack@[j] == all[all.len() - 1 - j],
                result is Ok,
                first_failure(hops, state_type, targets) == first_failure(
                    hops,
                    state_type,
                    targets.skip(done as int),
                ),
                run_count(hops, state_type, targets) == done + run_count(
                    hops,
                    state_type,
                    targets.skip(done as int),
                ),
            invariant
                accessor_registry.callable::<S>(),
                hops == accessor_registry.hops(),
                all.len() == targets.len(),
                all.len() <= usize::MAX,
                done <= all.len(),
                forall|j: int| 0 <= j < all.len() ==> #[trigger] targets[j] == all[j].input_type,
                forall|j: int| 0 <= j < all.len() ==> (#[trigger] all[j]).can_run::<S>(),
                states.len() == done + 1,
                states[0] == &*old(state),
                states[done as int] == &*state,
                exists|
                    argss: Seq<Seq<&mut S>>,
                    arg_endss: Seq<Seq<&S>>,
                    outss: Seq<Seq<&mut S>>,
                    out_endss: Seq<Seq<&S>>,
                    ends: Seq<&S>,
                    end_ends: Seq<&S>,
                    ss: Seq<&mut S>,
                |
                    {
                        &&& #[trigger] ran_in_turn(
                            accessor_registry,
                            state_type,
                            all,
                            done as int,
                            states,
                            argss,
                            arg_endss,
                            outss,
                            out_endss,
                            ends,
                            end_ends,
                            ss,
                        )
                        &&& forall|j: int| #![trigger end_ends[j]] 0 <= j < done ==> end_ends[j] == &*final(ss[j])
                        &&& forall|j: int, i: int|
                            #![trigger arg_endss[j][i]]
                            0 <= j < done && 0 <= i < argss[j].len() ==> arg_endss[j][i] == &*final(argss[j][i])
                                && out_endss[j][i] == &*final(outss[j][i])
                    },
            ensures
                match first_failure(hops, state_type, targets) {
                    None => result is Ok && run_count(hops, state_type, targets) == all.len(),
                    Some(failure) => result matches Err(e) && e == failure,
                },
                run_count(hops, state_type, targets) == done,
            decreases stack.len(),
        {
            let d = stack.pop().unwrap();
            proof {
                assert(d == all[done as int]);
                assert(targets.skip(done as int).first() == d.input_type);
                assert(targets.skip(done as int).drop_first() =~= targets.skip(done + 1));
            }
            let ghost before: &S = &*state;
            let ghost earlier = states;
            match accessor_registry.invoke_callback(state, state_type, d) {
                Ok(()) => {
                    let ghost finished = done;
                    done = done + 1;
                    proof {
                        states = states.push(&*state);
                        assert(all[finished as int] == d);
                        let (argss, arg_endss, outss, out_endss, ends, end_ends, ss) = choose|
                            argss: Seq<Seq<&mut S>>,
                            arg_endss: Seq<Seq<&S>>,
                            outss: Seq<Seq<&mut S>>,
                            out_endss: Seq<Seq<&S>>,
                            ends: Seq<&S>,
                            end_ends: Seq<&S>,
                            ss: Seq<&mut S>,
                        |
                            {
                                &&& #[trigger] ran_in_turn(
                                    accessor_registry,
                                    state_type,
                                    all,
                                    finished as int,
                                    earlier,
                                    argss,
                                    arg_endss,
                                    outss,
                                    out_endss,
                                    ends,
                                    end_ends,
                                    ss,
                                )
                                &&& forall|j: int| #![trigger end_ends[j]] 0 <= j < finished ==> end_ends[j] == &*final(ss[j])
                                &&& forall|j: int, i: int|
                                    #![trigger arg_endss[j][i]]
                                    0 <= j < finished && 0 <= i < argss[j].len() ==> arg_endss[j][i] == &*final(argss[j][i])
                                        && out_endss[j][i] == &*final(outss[j][i])
                            };
                        let (args, arg_ends, outs, out_ends, end, end_end, s) = choose|
                            args: Seq<&mut S>,
                            arg_ends: Seq<&S>,
                            outs: Seq<&mut S>,
                            out_ends: Seq<&S>,
                            end: &S,
                            end_end: &S,
                            s: &mut S,
                        |
                            #![trigger chained(accessor_registry.route(state_type, d.input_type), args, arg_ends, outs, out_ends, before, &*state, end, end_end), call_ensures(d.callback, (s, d.payload), ())]
                            {
                                &&& chained(
                                    accessor_registry.route(state_type, d.input_type),
                                    args,
                                    arg_ends,
                                    outs,
                                    out_ends,
                                    before,
                                    &*state,
                                    end,
                                    end_end,
                                )
                                &&& forall|i: int|
                                    #![trigger arg_ends[i]]
                                    0 <= i < args.len() ==> arg_ends[i] == &*final(args[i]) && out_ends[i]
                                        == &*final(outs[i])
                                &&& call_ensures(d.callback, (s, d.payload), ())
                                &&& &*s == end
                                &&& &*final(s) == end_end
                            };
                        assert(crate::accessor::holds(s, end));
                        assert(seq![s][0] == s);
                        assert(earlier[finished as int] == before);
                        lemma_runs_grow(
                            accessor_registry,
                            state_type,
                            all,
                            finished as int,
                            earlier,
                            argss,
                            arg_endss,
                            outss,
                            out_endss,
                            ends,
                            end_ends,
                            ss,
                            &*state,
                            args,
                            arg_ends,
                            outs,
                            out_ends,
                            end,
                            end_end,
                            seq![s],
                        );
                        assert(states == earlier.push(&*state));
                        let argss2 = argss.push(args);
                        let arg_endss2 = arg_endss.push(arg_ends);
                        let outss2 = outss.push(outs);
                        let out_endss2 = out_endss.push(out_ends);
                        let ends2 = ends.push(end);
                        let end_ends2 = end_ends.push(end_end);
                        let ss2 = ss + seq![s];
                        assert(ran_in_turn(
                            accessor_registry,
                            state_type,
                            all,
                            done as int,
                            states,
                            argss2,
                            arg_endss2,
                            outss2,
                            out_endss2,
                            ends2,
                            end_ends2,
                            ss2,
                        ));
                        assert(forall|j: int|
                            #![trigger end_ends2[j]]
                            0 <= j < done ==> end_ends2[j] == &*final(ss2[j]));
                        assert forall|j: int, i: int|
                            #![trigger arg_endss2[j][i]]
                            0 <= j < done && 0 <= i < argss2[j].len() implies arg_endss2[j][i]
                            == &*final(argss2[j][i]) && out_endss2[j][i] == &*final(outss2[j][i]) by {
                            if j < finished {
                                assert(argss2[j] == argss[j] && arg_endss2[j] == arg_endss[j]);
                                assert(outss2[j] == outss[j] && out_endss2[j] == out_endss[j]);
                                assert(arg_endss[j][i] == &*final(argss[j][i]));
                            } else {
                                assert(argss2[j] == args && arg_endss2[j] == arg_ends);
                                assert(outss2[j] == outs && out_endss2[j] == out_ends);
                                assert(arg_ends[i] == &*final(args[i]));
                            }
                        }
                    }
                },
                Err(e) => {
                    result = Err(e);
                    break ;
                },
            }
        }
        proof {
            if done == all.len() {
                assert(targets.skip(done as int) =~= Seq::<TypeTag>::empty());
            }
            let (argss, arg_endss, outss, out_endss, ends, end_ends, ss) = choose|
                argss: Seq<Seq<&mut S>>,
                arg_endss: Seq<Seq<&S>>,
                outss: Seq<Seq<&mut S>>,
                out_endss: Seq<Seq<&S>>,
                ends: Seq<&S>,
                end_ends: Seq<&S>,
                ss: Seq<&mut S>,
            |
                {
                    &&& #[trigger] ran_in_turn(
                        accessor_registry,
                        state_type,
                        all,
                        done as int,
                        states,
                        argss,
                        arg_endss,
                        outss,
                        out_endss,
                        ends,
                        end_ends,
                        ss,
                    )
                    &&& forall|j: int| #![trigger end_ends[j]] 0 <= j < done ==> end_ends[j] == &*final(ss[j])
                    &&& forall|j: int, i: int|
                        #![trigger arg_endss[j][i]]
                        0 <= j < done && 0 <= i < argss[j].len() ==> arg_endss[j][i] == &*final(argss[j][i])
                            && out_endss[j][i] == &*final(outss[j][i])
                };
            assert(all == old(self).external@);
            assert(run_count(accessor_registry.hops(), state_type, old(self).targets()) == done);
            assert(states[done as int] == &*final(state));
            assert(ran_in_turn(
                accessor_registry,
                state_type,
                old(self).external@,
                run_count(accessor_registry.hops(), state_type, old(self).targets()),
                states,
                argss,
                arg_endss,
                outss,
                out_endss,
                ends,
                end_ends,
                ss,
            ));
        }
        result
    }
}

/// One more callback that has run extends the record of those that ran
/// before it.
proof fn lemma_runs_grow<A, S: ?Sized, F, P>(
    registry: &AccessorRegistry<A>,
    state_type: TypeTag,
    all: Seq<DispatchedExternalCallback<F, P>>,
    n: int,
    states: Seq<&S>,
    argss: Seq<Seq<&mut S>>,
    arg_endss: Seq<Seq<&S>>,
    outss: Seq<Seq<&mut S>>,
    out_endss: Seq<Seq<&S>>,
    ends: Seq<&S>,
    end_ends: Seq<&S>,
    ss: Seq<&mut S>,
    next: &S,
    args: Seq<&mut S>,
    arg_ends: Seq<&S>,
    outs: Seq<&mut S>,
    out_ends: Seq<&S>,
    end: &S,
    end_end: &S,
    one: Seq<&mut S>,
) where A: for <'b>Fn(&'b mut S) -> &'b mut S, F: FnOnce(&mut S, P)
    requires
        0 <= n < all.len(),
        one.len() == 1,
        ran_in_turn(
            registry,
            state_type,
            all,
            n,
            states,
            argss,
            arg_endss,
            outss,
            out_endss,
            ends,
            end_ends,
            ss,
        ),
        forall|j: int| #![trigger end_ends[j]] 0 <= j < n ==> end_ends[j] == &*final(ss[j]),
        ran_with(
            registry.route(state_type, all[n].input_type),
            all[n],
            args,
            arg_ends,
            outs,
            out_ends,
            states[n],
            next,
            end,
            end_end,
            one[0],
        ),
        end_end == &*final(one[0]),
    ensures
        ran_in_turn(
            registry,
            state_type,
            all,
            n + 1,
            states.push(next),
            argss.push(args),
            arg_endss.push(arg_ends),
            outss.push(outs),
            out_endss.push(out_ends),
            ends.push(end),
            end_ends.push(end_end),
            ss + one,
        ),
        forall|j: int|
            #![trigger end_ends.push(end_end)[j]]
            0 <= j < n + 1 ==> end_ends.push(end_end)[j] == &*final((ss + one)[j]),
{
    let argss2 = argss.push(args);
    let arg_endss2 = arg_endss.push(arg_ends);
    let outss2 = outss.push(outs);
    let out_endss2 = out_endss.push(out_ends);
    let states2 = states.push(next);
    let ends2 = ends.push(end);
    let end_ends2 = end_ends.push(end_end);
    let ss2 = ss + one;
    assert forall|j: int| 0 <= j < n + 1 implies #[trigger] ran_with(
        registry.route(state_type, all[j].input_type),
        all[j],
        argss2[j],
        arg_endss2[j],
        outss2[j],
        out_endss2[j],
        states2[j],
        states2[j + 1],
        ends2[j],
        end_ends2[j],
        ss2[j],
    ) by {
        if j < n {
            assert(states2[j] == states[j] && states2[j + 1] == states[j + 1]);
            assert(argss2[j] == argss[j] && arg_endss2[j] == arg_endss[j]);
            assert(outss2[j] == outss[j] && out_endss2[j] == out_endss[j]);
            assert(ends2[j] == ends[j] && end_ends2[j] == end_ends[j]);
            assert(ss2[j] == ss[j]);
            assert(ran_with(
                registry.route(state_type, all[j].input_type),
                all[j],
                argss[j],
                arg_endss[j],
                outss[j],
                out_endss[j],
                states[j],
                states[j + 1],
                ends[j],
                end_ends[j],
                ss[j],
            ));
        } else {
            assert(ss2[j] == one[0]);
            assert(states2[j] == states[n] && states2[j + 1] == next);
        }
    }
    assert forall|j: int| #![trigger end_ends2[j]] 0 <= j < n + 1 implies end_ends2[j] == &*final(ss2[j]) by {
        if j < n {
            assert(end_ends2[j] == end_ends[j]);
            assert(ss2[j] == ss[j]);
        } else {
            assert(ss2[j] == one[0]);
        }
    }
}

} // verus!
