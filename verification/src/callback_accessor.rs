//! Callbacks that reach into a part of the application's state.

use vstd::prelude::*;
use crate::accessor::chained;
use crate::callback::Callback;
use crate::callback::ExternalCallback;
use crate::type_tag::TypeTag;

verus! {

/// A way from the root of the application's state down to one part of it:
/// a list of projections, each leading one step further in. It makes
/// callbacks that are handed the root and act on that part.
pub struct CallbackAccessor<A> {
    accessor_fns: Vec<A>,
}

impl<A> CallbackAccessor<A> {
    /// The projections, outermost first.
    pub closed spec fn steps(&self) -> Seq<A> {
        self.accessor_fns@
    }

    /// Whether every projection on the way may be called on every handle.
    pub open spec fn callable<S: ?Sized>(&self) -> bool where A: for <'a>Fn(&'a mut S) -> &'a mut S {
        forall|i: int, state: &mut S|
            0 <= i < self.steps().len() ==> #[trigger] call_requires(self.steps()[i], (state,))
    }

    /// The way that stays at the root.
    pub fn root() -> (accessor: Self)
        ensures
            accessor.steps() == Seq::<A>::empty(),
    {
        CallbackAccessor { accessor_fns: Vec::new() }
    }

    /// The number of steps from the root.
    pub fn depth(&self) -> (n: usize)
        ensures
            n == self.steps().len(),
    {
        self.accessor_fns.len()
    }

    /// The way that goes one step further than this one, by `f`.
    pub fn drill_down(&self, f: A) -> (accessor: Self) where A: Clone
        ensures
            accessor.steps().len() == self.steps().len() + 1,
            accessor.steps().last() == f,
            forall|i: int|
                0 <= i < self.steps().len() ==> cloned::<A>(
                    #[trigger] self.steps()[i],
                    accessor.steps()[i],
                ),
    {
        let mut slicing_fns = self.accessor_fns.clone();
        slicing_fns.push(f);
        CallbackAccessor { accessor_fns: slicing_fns }
    }

    /// Goes the way down from `root`: the projections are called one after
    /// the other, each on what the one before it returned, and what the last
    /// one returned is handed back, as [`chained`] says. A way without steps
    /// hands `root` itself back.
    pub fn access_any<'a, S: ?Sized>(&self, root: &'a mut S) -> (r: &'a mut S) where
        A: for <'b>Fn(&'b mut S) -> &'b mut S,

        requires
            self.callable::<S>(),
        ensures
            exists|args: Seq<&mut S>, arg_ends: Seq<&S>, outs: Seq<&mut S>, out_ends: Seq<&S>|
                {
                    &&& #[trigger] chained(
                        self.steps(),
                        args,
                        arg_ends,
                        outs,
                        out_ends,
                        &*old(root),
                        &*final(root),
                        &*r,
                        &*final(r),
                    )
                    &&& forall|i: int|
                        #![trigger arg_ends[i]]
                        0 <= i < args.len() ==> arg_ends[i] == &*final(args[i]) && out_ends[i]
                            == &*final(outs[i])
                },
    {
        let mut curr = root;
        let mut i: usize = 0;
        proof {
            let args = Seq::<&mut S>::empty();
            let ends = Seq::<&S>::empty();
            assert(chained(
                self.steps().take(0),
                args,
                ends,
                args,
                ends,
                &*old(root),
                &*final(root),
                &*curr,
                &*final(curr),
            ));
        }
        while i < self.accessor_fns.len()
            invariant
                i <= self.accessor_fns.len(),
                self.callable::<S>(),
                exists|args: Seq<&mut S>, arg_ends: Seq<&S>, outs: Seq<&mut S>, out_ends: Seq<&S>|
                    {
                        &&& #[trigger] chained(
                            self.steps().take(i as int),
                            args,
                            arg_ends,
                            outs,
                            out_ends,
                            &*old(root),
                            &*final(root),
                            &*curr,
                            &*final(curr),
                        )
                        &&& forall|j: int|
                            #![trigger arg_ends[j]]
                            0 <= j < args.len() ==> arg_ends[j] == &*final(args[j]) && out_ends[j]
                                == &*final(outs[j])
                    },
            decreases self.accessor_fns.len() - i,
        {
            let ghost prev = curr;
            assert(self.accessor_fns[i as int] == self.steps()[i as int]);
            curr = (self.accessor_fns[i])(curr);
            proof {
                let (args, arg_ends, outs, out_ends) = choose|
                    args: Seq<&mut S>,
                    arg_ends: Seq<&S>,
                    outs: Seq<&mut S>,
                    out_ends: Seq<&S>,
                |
                    {
                        &&& #[trigger] chained(
                            self.steps().take(i as int),
                            args,
                            arg_ends,
                            outs,
                            out_ends,
                            &*old(root),
                            &*final(root),
                            &*prev,
                            &*final(prev),
                        )
                        &&& forall|j: int|
                            #![trigger arg_ends[j]]
                            0 <= j < args.len() ==> arg_ends[j] == &*final(args[j]) && out_ends[j]
                                == &*final(outs[j])
                    };
                let (arg, out) = choose|arg: &mut S, out: &mut S|
                    {
                        &&& #[trigger] call_ensures(self.steps()[i as int], (arg,), out)
                        &&& &*arg == &*prev
                        &&& &*final(arg) == &*final(prev)
                        &&& &*out == &*curr
                        &&& &*final(out) == &*final(curr)
                    };
                let k = i + 1;
                let args2 = args.push(arg);
                let arg_ends2 = arg_ends.push(&*final(arg));
                let outs2 = outs.push(out);
                let out_ends2 = out_ends.push(&*final(out));
                let steps2 = self.steps().take(k);
                assert forall|j: int| 0 <= j < k implies #[trigger] call_ensures(
                    steps2[j],
                    (args2[j],),
                    outs2[j],
                ) by {
                    if j < i {
                        assert(self.steps().take(i as int)[j] == steps2[j]);
                        assert(args2[j] == args[j] && outs2[j] == outs[j]);
                    }
                }
                assert forall|j: int| 0 < j < k implies &*(#[trigger] args2[j]) == &*outs2[j - 1]
                    && arg_ends2[j] == out_ends2[j - 1] by {
                    if j < i {
                        assert(args2[j] == args[j] && outs2[j - 1] == outs[j - 1]);
                        assert(&*args[j] == &*outs[j - 1]);
                    }
                }
                assert(chained(
                    steps2,
                    args2,
                    arg_ends2,
                    outs2,
                    out_ends2,
                    &*old(root),
                    &*final(root),
                    &*curr,
                    &*final(curr),
                ));
                assert forall|j: int|
                    #![trigger arg_ends2[j]]
                    0 <= j < args2.len() implies arg_ends2[j] == &*final(args2[j]) && out_ends2[j]
                        == &*final(outs2[j]) by {
                    if j < i {
                        assert(arg_ends2[j] == arg_ends[j]);
                        assert(args2[j] == args[j] && outs2[j] == outs[j]);
                        assert(out_ends2[j] == out_ends[j]);
                    }
                }
                assert(steps2 == self.steps().take((i + 1) as int));
                assert(exists|
                    args: Seq<&mut S>,
                    arg_ends: Seq<&S>,
                    outs: Seq<&mut S>,
                    out_ends: Seq<&S>,
                |
                    {
                        &&& #[trigger] chained(
                            self.steps().take((i + 1) as int),
                            args,
                            arg_ends,
                            outs,
                            out_ends,
                            &*old(root),
                            &*final(root),
                            &*curr,
                            &*final(curr),
                        )
                        &&& forall|j: int|
                            #![trigger arg_ends[j]]
                            0 <= j < args.len() ==> arg_ends[j] == &*final(args[j]) && out_ends[j]
                                == &*final(outs[j])
                    });
            }
            i += 1;
        }
        proof {
            assert(self.steps().take(i as int) =~= self.steps());
            let (args, arg_ends, outs, out_ends) = choose|
                args: Seq<&mut S>,
                arg_ends: Seq<&S>,
                outs: Seq<&mut S>,
                out_ends: Seq<&S>,
            |
                {
                    &&& #[trigger] chained(
                        self.steps().take(i as int),
                        args,
                        arg_ends,
                        outs,
                        out_ends,
                        &*old(root),
                        &*final(root),
                        &*curr,
                        &*final(curr),
                    )
                    &&& forall|j: int|
                        #![trigger arg_ends[j]]
                        0 <= j < args.len() ==> arg_ends[j] == &*final(args[j]) && out_ends[j]
                            == &*final(outs[j])
                };
            assert(chained(
                self.steps(),
                args,
                arg_ends,
                outs,
                out_ends,
                &*old(root),
                &*final(root),
                &*curr,
                &*final(curr),
            ));
        }
        curr
    }

    /// Goes the way down from `root` and runs `f` with `payload` on what it
    /// arrives at: a call of `f` on a handle to what the steps lead to, as
    /// [`chained`] says.
    pub fn run_on_part<S: ?Sized, G, P>(&self, f: G, root: &mut S, payload: P) where
        A: for <'b>Fn(&'b mut S) -> &'b mut S,
        G: FnOnce(&mut S, P),

        requires
            self.callable::<S>(),
            forall|t: &mut S| #[trigger] call_requires(f, (t, payload)),
        ensures
            exists|
                args: Seq<&mut S>,
                arg_ends: Seq<&S>,
                outs: Seq<&mut S>,
                out_ends: Seq<&S>,
                end: &S,
                end_end: &S,
                t: &mut S,
            |
                #![trigger chained(self.steps(), args, arg_ends, outs, out_ends, &*old(root), &*final(root), end, end_end), call_ensures(f, (t, payload), ())]
                {
                    &&& chained(
                        self.steps(),
                        args,
                        arg_ends,
                        outs,
                        out_ends,
                        &*old(root),
                        &*final(root),
                        end,
                        end_end,
                    )
                    &&& forall|i: int|
                        #![trigger arg_ends[i]]
                        0 <= i < args.len() ==> arg_ends[i] == &*final(args[i]) && out_ends[i]
                            == &*final(outs[i])
                    &&& call_ensures(f, (t, payload), ())
                    &&& &*t == end
                    &&& &*final(t) == end_end
                },
    {
        let t = self.access_any(root);
        let ghost arrived = t;
        f(t, payload);
        proof {
            let (args, arg_ends, outs, out_ends) = choose|
                args: Seq<&mut S>,
                arg_ends: Seq<&S>,
                outs: Seq<&mut S>,
                out_ends: Seq<&S>,
            |
                {
                    &&& #[trigger] chained(
                        self.steps(),
                        args,
                        arg_ends,
                        outs,
                        out_ends,
                        &*old(root),
                        &*final(root),
                        &*arrived,
                        &*final(arrived),
                    )
                    &&& forall|i: int|
                        #![trigger arg_ends[i]]
                        0 <= i < args.len() ==> arg_ends[i] == &*final(args[i]) && out_ends[i]
                            == &*final(outs[i])
                };
            let handle = choose|handle: &mut S|
                {
                    &&& #[trigger] call_ensures(f, (handle, payload), ())
                    &&& &*handle == &*arrived
                    &&& &*final(handle) == &*final(arrived)
                };
            let end: &S = &*arrived;
            let end_end: &S = &*final(arrived);
            assert(chained(
                self.steps(),
                args,
                arg_ends,
                outs,
                out_ends,
                &*old(root),
                &*final(root),
                end,
                end_end,
            ));
            assert(call_ensures(f, (handle, payload), ()));
        }
    }

    /// The external callback that is handed the root of the state, which
    /// is of type `input_type`, goes down from it the way of a copy of this
    /// accessor, and runs `f` on what it arrives at.
    ///
    /// The callback may be called whenever the steps of the copy and `f`
    /// may be, and a call of it is a call of
    /// [`CallbackAccessor::run_on_part`] on the copy, with `f`, a handle to
    /// the root, and the payload.
    pub fn callback<S: ?Sized, G, P>(&self, input_type: TypeTag, f: G) -> (c: Callback<
        impl FnOnce(&mut S, P),
        P,
    >) where A: Clone + for <'b>Fn(&'b mut S) -> &'b mut S, G: FnOnce(&mut S, P)
        ensures
            c matches Callback::External(ext) && ext.input_type == input_type && exists|
                copy: CallbackAccessor<A>,
            |
                #![trigger copy.steps()]
                {
                    &&& copy.steps().len() == self.steps().len()
                    &&& forall|i: int|
                        0 <= i < self.steps().len() ==> cloned::<A>(
                            #[trigger] self.steps()[i],
                            copy.steps()[i],
                        )
                    &&& forall|root: &mut S, p: P|
                        copy.callable::<S>() && (forall|t: &mut S| #[trigger]
                            call_requires(f, (t, p))) ==> #[trigger] call_requires(
                            ext.f,
                            (root, p),
                        )
                    &&& forall|root: &mut S, p: P| #[trigger]
                        call_ensures(ext.f, (root, p), ()) ==> exists|handle: &mut S|
                            {
                                &&& #[trigger] call_ensures(
                                    CallbackAccessor::<A>::run_on_part::<S, G, P>,
                                    (&copy, f, handle, p),
                                    (),
                                )
                                &&& &*handle == &*root
                                &&& &*final(handle) == &*final(root)
                            }
                },
    {
        let this = self.clone();
        let closure = move |root: &mut S, p: P|
            requires
                this.callable::<S>(),
                forall|t: &mut S| #[trigger] call_requires(f, (t, p)),
            ensures
                exists|handle: &mut S|
                    {
                        &&& #[trigger] call_ensures(
                            CallbackAccessor::<A>::run_on_part::<S, G, P>,
                            (&this, f, handle, p),
                            (),
                        )
                        &&& &*handle == &*old(root)
                        &&& &*final(handle) == &*final(root)
                    },
            {
                this.run_on_part(f, root, p)
            };
        Callback::External(ExternalCallback { input_type, f: closure })
    }
}

impl<A: Clone> Clone for CallbackAccessor<A> {
    fn clone(&self) -> (accessor: Self)
        ensures
            accessor.steps().len() == self.steps().len(),
            forall|i: int|
                0 <= i < self.steps().len() ==> cloned::<A>(
                    #[trigger] self.steps()[i],
                    accessor.steps()[i],
                ),
    {
        CallbackAccessor { accessor_fns: self.accessor_fns.clone() }
    }
}

} // verus!
