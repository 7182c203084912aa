//! The accessor registry: which projections from one state type to another
//! are registered, and the search for a chain of them that leads from the
//! type of the root state to the type that a callback expects.

use vstd::prelude::*;
use itertools::Itertools;
use crate::linear_map::Key;
use crate::linear_map::LinearMap;
use crate::type_tag::TypeTag;

verus! {

/// A registered projection, by the types it leads from and to.
#[derive(Copy, Clone, Debug, PartialEq, Eq, Hash, Structural)]
pub struct Hop {
    pub from: TypeTag,
    pub to: TypeTag,
}

impl Key for Hop {
    fn same(&self, other: &Self) -> (r: bool) {
        *self == *other
    }
}

/// Why no chain of projections was found.
#[derive(Copy, Clone, Debug, PartialEq, Eq, Structural)]
pub enum AccessError {
    /// No chain of registered projections leads to the type asked for.
    NoPath,
    /// The search came back to a type that it had passed through: the
    /// registered projections do not form a directed acyclic graph.
    Cycle,
}

/// What a search finds.
pub enum Search {
    /// The types passed through, from the first to the one asked for.
    Found(Seq<TypeTag>),
    NotFound,
    Cycle,
}

/// Whether `walk` follows registered projections from each of its types to
/// the next.
pub open spec fn is_chain(hops: Seq<Hop>, walk: Seq<TypeTag>) -> bool {
    &&& walk.len() >= 1
    &&& forall|i: int|
        0 < i < walk.len() ==> hops.contains(#[trigger] hop_into(walk, i))
}

/// The hop by which `walk` reaches its type number `i`.
pub open spec fn hop_into(walk: Seq<TypeTag>, i: int) -> Hop {
    Hop { from: walk[i - 1], to: walk[i] }
}

/// Whether `walk` is a chain that leads from `from` to `to`.
pub open spec fn connects(hops: Seq<Hop>, walk: Seq<TypeTag>, from: TypeTag, to: TypeTag) -> bool {
    &&& is_chain(hops, walk)
    &&& walk.first() == from
    &&& walk.last() == to
}

/// Whether some chain of registered projections leads from `from` to `to`.
pub open spec fn reachable(hops: Seq<Hop>, from: TypeTag, to: TypeTag) -> bool {
    exists|walk: Seq<TypeTag>| connects(hops, walk, from, to)
}

/// Whether a chain that starts at `from` comes back to a type that it has
/// passed through.
pub open spec fn cycle_from(hops: Seq<Hop>, from: TypeTag) -> bool {
    exists|walk: Seq<TypeTag>|
        #![trigger is_chain(hops, walk)]
        is_chain(hops, walk) && walk.first() == from && walk.drop_last().contains(walk.last())
}

/// The depth-first search that goes on from the end of `walk`, trying the
/// registered projections in the order of their registration, those before
/// number `k` being done with.
///
/// A projection that leads back into `walk` ends the search with `Cycle`. A
/// chain of distinct types cannot be longer than the projections are many;
/// that bound is what makes this definition well-founded, and the search
/// never runs into it.
pub open spec fn search_from(hops: Seq<Hop>, target: TypeTag, walk: Seq<TypeTag>, k: int) -> Search
    decreases hops.len() + 1 - walk.len(), hops.len() - k,
{
    if walk.len() == 0 || walk.len() > hops.len() + 1 || k < 0 {
        Search::Cycle
    } else if walk.last() == target {
        Search::Found(walk)
    } else if k >= hops.len() {
        Search::NotFound
    } else if hops[k].from != walk.last() {
        search_from(hops, target, walk, k + 1)
    } else if walk.contains(hops[k].to) || walk.len() > hops.len() {
        Search::Cycle
    } else {
        match search_from(hops, target, walk.push(hops[k].to), 0) {
            Search::Found(found) => Search::Found(found),
            Search::Cycle => Search::Cycle,
            Search::NotFound => search_from(hops, target, walk, k + 1),
        }
    }
}

/// The search for a chain from `from` to `to`.
pub open spec fn search(hops: Seq<Hop>, from: TypeTag, to: TypeTag) -> Search {
    search_from(hops, to, seq![from], 0)
}

/// A chain that passes through no type twice is at most one longer than the
/// projections are many.
pub proof fn lemma_chain_length(hops: Seq<Hop>, walk: Seq<TypeTag>)
    requires
        is_chain(hops, walk),
        walk.no_duplicates(),
    ensures
        walk.len() <= hops.len() + 1,
{
    let targets = hops.map_values(|h: Hop| h.to);
    let tail = walk.skip(1);
    assert(tail.no_duplicates()) by {
        assert forall|i: int, j: int| 0 <= i < tail.len() && 0 <= j < tail.len() && i != j implies tail[i]
            != tail[j] by {
            assert(tail[i] == walk[i + 1]);
            assert(tail[j] == walk[j + 1]);
        }
    }
    tail.unique_seq_to_set();
    targets.lemma_cardinality_of_set();
    assert(tail.to_set().subset_of(targets.to_set())) by {
        assert forall|t: TypeTag| tail.to_set().contains(t) implies targets.to_set().contains(t) by {
            let i = choose|i: int| 0 <= i < tail.len() && tail[i] == t;
            assert(hops.contains(hop_into(walk, i + 1)));
            let k = choose|k: int| 0 <= k < hops.len() && hops[k] == hop_into(walk, i + 1);
            assert(targets[k] == t);
        }
    }
    vstd::set_lib::lemma_len_subset(tail.to_set(), targets.to_set());
}

/// What is found is a chain from the start of `walk` to the target, and it
/// passes through no type twice.
pub proof fn lemma_found_is_chain(hops: Seq<Hop>, target: TypeTag, walk: Seq<TypeTag>, k: int)
    requires
        is_chain(hops, walk),
        walk.no_duplicates(),
    ensures
        search_from(hops, target, walk, k) matches Search::Found(found) ==> connects(
            hops,
            found,
            walk.first(),
            target,
        ) && found.no_duplicates(),
    decreases hops.len() + 1 - walk.len(), hops.len() - k,
{
    if walk.len() > hops.len() + 1 || k < 0 {
    } else if walk.last() == target {
    } else if k >= hops.len() {
    } else if hops[k].from != walk.last() {
        lemma_found_is_chain(hops, target, walk, k + 1);
    } else if walk.contains(hops[k].to) || walk.len() > hops.len() {
    } else {
        let longer = walk.push(hops[k].to);
        lemma_push_keeps_chain(hops, walk, k);
        lemma_found_is_chain(hops, target, longer, 0);
        lemma_found_is_chain(hops, target, walk, k + 1);
    }
}

/// Following projection `k` from the end of a chain gives a chain again,
/// and one without repetition if the projection leads to a new type.
pub proof fn lemma_push_keeps_chain(hops: Seq<Hop>, walk: Seq<TypeTag>, k: int)
    requires
        is_chain(hops, walk),
        0 <= k < hops.len(),
        hops[k].from == walk.last(),
    ensures
        is_chain(hops, walk.push(hops[k].to)),
        walk.push(hops[k].to).first() == walk.first(),
        walk.no_duplicates() && !walk.contains(hops[k].to) ==> walk.push(hops[k].to).no_duplicates(),
{
    let longer = walk.push(hops[k].to);
    assert forall|i: int| 0 < i < longer.len() implies hops.contains(#[trigger] hop_into(longer, i)) by {
        if i < walk.len() {
            assert(hop_into(longer, i) == hop_into(walk, i));
        } else {
            assert(hop_into(longer, i) == hops[k]);
        }
    }
}

/// Where the search from the end of `walk` ends with `NotFound`, `rest` is no
/// chain from there to the target.
proof fn lemma_not_found_is_unreachable(
    hops: Seq<Hop>,
    target: TypeTag,
    walk: Seq<TypeTag>,
    rest: Seq<TypeTag>,
)
    requires
        is_chain(hops, walk),
        walk.no_duplicates(),
        search_from(hops, target, walk, 0) is NotFound,
    ensures
        !connects(hops, rest, walk.last(), target),
    decreases rest.len(),
{
    lemma_chain_length(hops, walk);
    if connects(hops, rest, walk.last(), target) {
        // The end of `walk` is not the target, so `rest` has a first hop.
        assert(walk.last() != target);
        assert(rest.len() >= 2);
        let hop = hop_into(rest, 1);
        assert(hops.contains(hop));
        let j = choose|j: int| 0 <= j < hops.len() && hops[j] == hop;
        lemma_not_found_covers(hops, target, walk, 0, j);
        // The search went down that hop and found nothing below it.
        let longer = walk.push(hop.to);
        lemma_push_keeps_chain(hops, walk, j);
        let shorter = rest.skip(1);
        assert(is_chain(hops, shorter)) by {
            assert forall|i: int| 0 < i < shorter.len() implies hops.contains(
                #[trigger] hop_into(shorter, i),
            ) by {
                assert(hop_into(shorter, i) == hop_into(rest, i + 1));
            }
        }
        lemma_not_found_is_unreachable(hops, target, longer, shorter);
        assert(connects(hops, shorter, longer.last(), target));
    }
}

/// Where the search from projection `k` on ends with `NotFound`, it went
/// down every projection `j` from `k` on that leaves the end of `walk`, into
/// a type that was new, and found nothing below.
proof fn lemma_not_found_covers(
    hops: Seq<Hop>,
    target: TypeTag,
    walk: Seq<TypeTag>,
    k: int,
    j: int,
)
    requires
        0 <= k <= j < hops.len(),
        hops[j].from == walk.last(),
        search_from(hops, target, walk, k) is NotFound,
    ensures
        !walk.contains(hops[j].to),
        search_from(hops, target, walk.push(hops[j].to), 0) is NotFound,
    decreases j - k,
{
    if hops[k].from != walk.last() {
        lemma_not_found_covers(hops, target, walk, k + 1, j);
    } else if k < j {
        lemma_not_found_covers(hops, target, walk, k + 1, j);
    }
}

/// Where the search ends with `Cycle`, some chain from the start of `walk`
/// comes back to a type that it has passed through.
pub proof fn lemma_cycle_is_cycle(hops: Seq<Hop>, target: TypeTag, walk: Seq<TypeTag>, k: int)
    requires
        is_chain(hops, walk),
        walk.no_duplicates(),
        0 <= k,
        search_from(hops, target, walk, k) is Cycle,
    ensures
        cycle_from(hops, walk.first()),
    decreases hops.len() + 1 - walk.len(), hops.len() - k,
{
    lemma_chain_length(hops, walk);
    if walk.last() == target {
    } else if k >= hops.len() {
    } else if hops[k].from != walk.last() {
        lemma_cycle_is_cycle(hops, target, walk, k + 1);
    } else {
        let longer = walk.push(hops[k].to);
        lemma_push_keeps_chain(hops, walk, k);
        if walk.contains(hops[k].to) {
            assert(longer.drop_last() =~= walk);
            assert(is_chain(hops, longer) && longer.first() == walk.first()
                && longer.drop_last().contains(longer.last()));
        } else {
            lemma_chain_length(hops, longer);
            if search_from(hops, target, longer, 0) is Cycle {
                lemma_cycle_is_cycle(hops, target, longer, 0);
            } else {
                lemma_cycle_is_cycle(hops, target, walk, k + 1);
            }
        }
    }
}

/// What the search says is true of the registered projections: what it
/// finds is a chain from `from` to `to` without repetition; where it finds
/// nothing, no chain leads there; and where it reports a cycle, some chain
/// from `from` does come back on itself.
pub proof fn lemma_search_is_right(hops: Seq<Hop>, from: TypeTag, to: TypeTag)
    ensures
        search(hops, from, to) matches Search::Found(found) ==> connects(hops, found, from, to)
            && found.no_duplicates(),
        search(hops, from, to) is NotFound ==> !reachable(hops, from, to),
        search(hops, from, to) is Cycle ==> cycle_from(hops, from),
{
    let start = seq![from];
    assert(is_chain(hops, start));
    assert(start.no_duplicates());
    lemma_found_is_chain(hops, to, start, 0);
    if search(hops, from, to) is NotFound {
        if reachable(hops, from, to) {
            let walk = choose|walk: Seq<TypeTag>| connects(hops, walk, from, to);
            lemma_not_found_is_unreachable(hops, to, start, walk);
        }
    }
    if search(hops, from, to) is Cycle {
        lemma_cycle_is_cycle(hops, to, start, 0);
    }
}

/// Where the projections that can be reached from `from` form a directed
/// acyclic graph, the search finds a chain exactly when there is one.
pub proof fn lemma_search_on_dag(hops: Seq<Hop>, from: TypeTag, to: TypeTag)
    requires
        !cycle_from(hops, from),
    ensures
        search(hops, from, to) is Found <==> reachable(hops, from, to),
        search(hops, from, to) is NotFound <==> !reachable(hops, from, to),
{
    lemma_search_is_right(hops, from, to);
    match search(hops, from, to) {
        Search::Found(found) => {
            assert(connects(hops, found, from, to));
        },
        _ => {},
    }
}

/// Whether `steps`, called one after the other, lead from a handle on
/// `start` to a handle on `end`. Step `i` is called on the handle `args[i]`
/// and returns the handle `outs[i]`; `arg_ends[i]` and `out_ends[i]` are
/// what these handles hold when they are done with. The first step is called
/// on a handle to `start`, and every later one on a handle to what the step
/// before it returned, so that what is written through the last handle is
/// written, step by step, into `start`. Without steps the handle on `start`
/// is the handle on `end`.
pub open spec fn chained<A, S: ?Sized>(
    steps: Seq<A>,
    args: Seq<&mut S>,
    arg_ends: Seq<&S>,
    outs: Seq<&mut S>,
    out_ends: Seq<&S>,
    start: &S,
    start_end: &S,
    end: &S,
    end_end: &S,
) -> bool where A: for <'a>Fn(&'a mut S) -> &'a mut S {
    let n = steps.len() as int;
    &&& args.len() == n
    &&& arg_ends.len() == n
    &&& outs.len() == n
    &&& out_ends.len() == n
    &&& forall|i: int| 0 <= i < n ==> #[trigger] call_ensures(steps[i], (args[i],), outs[i])
    &&& forall|i: int|
        0 < i < n ==> &*(#[trigger] args[i]) == &*outs[i - 1] && arg_ends[i] == out_ends[i - 1]
    &&& n > 0 ==> &*args[0] == start && arg_ends[0] == start_end
    &&& n > 0 ==> &*outs[n - 1] == end && out_ends[n - 1] == end_end
    &&& n == 0 ==> end == start && end_end == start_end
}

/// A projection from one state type into another, with the tags of both.
pub struct StateAccessor<A> {
    pub input_type: TypeTag,
    pub output_type: TypeTag,
    pub accessor_fn: A,
}

impl<A> StateAccessor<A> {
    pub fn from_fn(input_type: TypeTag, output_type: TypeTag, f: A) -> (accessor: Self)
        ensures
            accessor.input_type == input_type,
            accessor.output_type == output_type,
            accessor.accessor_fn == f,
    {
        StateAccessor { input_type, output_type, accessor_fn: f }
    }
}

/// How a search step ended.
#[derive(Copy, Clone, Debug, PartialEq, Eq, Structural)]
pub enum SearchStatus {
    Found,
    NotFound,
    Cycle,
}

/// Whether `tag` is among `walk`.
pub fn walk_contains(walk: &Vec<TypeTag>, tag: TypeTag) -> (b: bool)
    ensures
        b == walk@.contains(tag),
{
    let mut i: usize = 0;
    while i < walk.len()
        invariant
            i <= walk.len(),
            forall|j: int| 0 <= j < i ==> walk@[j] != tag,
        decreases walk.len() - i,
    {
        if walk[i] == tag {
            return true;
        }
        i += 1;
    }
    false
}

/// The projections that were registered, each under the pair of types that
/// it connects. For one pair the projection registered last counts.
pub struct AccessorRegistry<A> {
    accessors: LinearMap<Hop, StateAccessor<A>>,
}

impl<A> AccessorRegistry<A> {
    /// The registered projections, by the pair of types that each connects.
    pub closed spec fn view(&self) -> Map<Hop, StateAccessor<A>> {
        self.accessors@
    }

    /// The pairs of types that are connected, in the order in which they
    /// were first registered.
    pub closed spec fn hops(&self) -> Seq<Hop> {
        self.accessors.entries().map_values(|e: (Hop, StateAccessor<A>)| e.0)
    }

    /// A pair of types is connected exactly if a projection is registered
    /// under it.
    pub proof fn lemma_hops_are_keys(&self, hop: Hop)
        ensures
            self.hops().contains(hop) <==> self@.contains_key(hop),
    {
        let entries = self.accessors.entries();
        if self.hops().contains(hop) {
            let i = choose|i: int| 0 <= i < self.hops().len() && self.hops()[i] == hop;
            lemma_some_entry_has_first(entries, hop, i);
        }
        if self@.contains_key(hop) {
            let i = choose|i: int| crate::linear_map::is_first(entries, hop, i);
            assert(self.hops()[i] == hop);
        }
    }

    pub fn new() -> (registry: Self)
        ensures
            registry@ == Map::<Hop, StateAccessor<A>>::empty(),
            registry.hops() == Seq::<Hop>::empty(),
    {
        let registry = AccessorRegistry { accessors: LinearMap::new() };
        assert(registry.hops() =~= Seq::<Hop>::empty());
        registry
    }

    /// Registers `f` as the projection from `input_type` to `output_type`,
    /// in place of one that was registered for the same pair before.
    pub fn register_accessor(&mut self, input_type: TypeTag, output_type: TypeTag, f: A)
        ensures
            final(self)@ == old(self)@.insert(
                Hop { from: input_type, to: output_type },
                StateAccessor { input_type, output_type, accessor_fn: f },
            ),
            final(self).hops() == if old(self)@.contains_key(
                Hop { from: input_type, to: output_type },
            ) {
                old(self).hops()
            } else {
                old(self).hops().push(Hop { from: input_type, to: output_type })
            },
    {
        let hop = Hop { from: input_type, to: output_type };
        let accessor = StateAccessor::from_fn(input_type, output_type, f);
        self.accessors.insert(hop, accessor);
        proof {
            if old(self)@.contains_key(hop) {
                assert(self.hops() =~= old(self).hops());
            } else {
                assert(self.hops() =~= old(self).hops().push(hop));
            }
        }
    }

    /// Goes on with the search from the end of `walk`.
    fn search_below(&self, target: TypeTag, walk: &mut Vec<TypeTag>) -> (status: SearchStatus)
        requires
            is_chain(self.hops(), old(walk)@),
            old(walk)@.no_duplicates(),
        ensures
            match search_from(self.hops(), target, old(walk)@, 0) {
                Search::Found(found) => status == SearchStatus::Found && final(walk)@ == found,
                Search::NotFound => status == SearchStatus::NotFound && final(walk)@ == old(walk)@,
                Search::Cycle => status == SearchStatus::Cycle,
            },
        decreases self.hops().len() + 1 - old(walk)@.len(),
    {
        proof {
            lemma_chain_length(self.hops(), walk@);
        }
        let current = walk[walk.len() - 1];
        if current == target {
            return SearchStatus::Found;
        }
        let n = self.accessors.len();
        let mut k: usize = 0;
        while k < n
            invariant
                k <= n,
                n == self.hops().len(),
                walk@ == old(walk)@,
                is_chain(self.hops(), walk@),
                walk@.no_duplicates(),
                walk@.len() <= self.hops().len() + 1,
                current == walk@.last(),
                current != target,
                search_from(self.hops(), target, walk@, 0) == search_from(
                    self.hops(),
                    target,
                    walk@,
                    k as int,
                ),
            decreases n - k,
        {
            let hop = self.accessors.key_at(k);
            assert(hop == self.hops()[k as int]);
            if hop.from == current {
                if walk_contains(walk, hop.to) {
                    return SearchStatus::Cycle;
                }
                proof {
                    lemma_push_keeps_chain(self.hops(), walk@, k as int);
                    lemma_chain_length(self.hops(), walk@.push(hop.to));
                }
                let ghost before = walk@;
                walk.push(hop.to);
                let status = self.search_below(target, walk);
                match status {
                    SearchStatus::Found => {
                        return SearchStatus::Found;
                    },
                    SearchStatus::Cycle => {
                        return SearchStatus::Cycle;
                    },
                    SearchStatus::NotFound => {
                        walk.pop();
                        assert(walk@ =~= before);
                    },
                }
            }
            k += 1;
        }
        SearchStatus::NotFound
    }

    /// Searches for a chain of registered projections that leads from
    /// `from_typ` to `to_typ`, depth first and in the order of registration,
    /// and gives the types that the first chain found passes through, both
    /// ends included.
    ///
    /// [`lemma_search_is_right`] says what the three outcomes mean.
    pub fn find_path(&self, from_typ: TypeTag, to_typ: TypeTag) -> (r: Result<
        Vec<TypeTag>,
        AccessError,
    >)
        ensures
            match search(self.hops(), from_typ, to_typ) {
                Search::Found(found) => r matches Ok(path) && path@ == found,
                Search::NotFound => r matches Err(e) && e == AccessError::NoPath,
                Search::Cycle => r matches Err(e) && e == AccessError::Cycle,
            },
    {
        let mut walk: Vec<TypeTag> = Vec::new();
        walk.push(from_typ);
        proof {
            assert(walk@ =~= seq![from_typ]);
        }
        match self.search_below(to_typ, &mut walk) {
            SearchStatus::Found => Ok(walk),
            SearchStatus::NotFound => Err(AccessError::NoPath),
            SearchStatus::Cycle => Err(AccessError::Cycle),
        }
    }
}

/// A key that some entry carries has a first entry.
proof fn lemma_some_entry_has_first<K, V>(entries: Seq<(K, V)>, key: K, i: int)
    requires
        0 <= i < entries.len(),
        entries[i].0 == key,
    ensures
        exists|j: int| crate::linear_map::is_first(entries, key, j),
    decreases i,
{
    if exists|j: int| 0 <= j < i && (#[trigger] entries[j]).0 == key {
        let j = choose|j: int| 0 <= j < i && (#[trigger] entries[j]).0 == key;
        lemma_some_entry_has_first(entries, key, j);
    } else {
        assert(crate::linear_map::is_first(entries, key, i));
    }
}

/// Pairs every type of `path` with the type that follows it, in order, by
/// `Itertools::tuple_windows`: a path of `n` types gives `n - 1` pairs, and
/// a path of fewer than two types gives none.
#[verifier::external_body]
fn consecutive_pairs(path: &Vec<TypeTag>) -> (pairs: Vec<(TypeTag, TypeTag)>)
    ensures
        pairs@.len() == if path@.len() == 0 {
            0
        } else {
            path@.len() - 1
        },
        forall|i: int| 0 <= i < pairs@.len() ==> #[trigger] pairs@[i] == (path@[i], path@[i + 1]),
{
    path.iter().copied().tuple_windows().collect()
}

impl<A> AccessorRegistry<A> {
    /// Whether every registered projection may be called on every state.
    pub open spec fn callable<S: ?Sized>(&self) -> bool where A: for <'a>Fn(&'a mut S) -> &'a mut S {
        forall|hop: Hop, state: &mut S|
            self@.contains_key(hop) ==> #[trigger] call_requires(self@[hop].accessor_fn, (state,))
    }

    /// The projections that lead along `path`, from each of its types to
    /// the next.
    pub open spec fn steps_along(&self, path: Seq<TypeTag>) -> Seq<A> {
        if path.len() == 0 {
            Seq::empty()
        } else {
            Seq::new((path.len() - 1) as nat, |i: int| self@[hop_into(path, i + 1)].accessor_fn)
        }
    }

    /// The projections by which a callback for state of type `input_type`
    /// gets at its state when the root state is of type `state_type`: none
    /// where the two are the same, and else those along the path that
    /// [`AccessorRegistry::find_path`] finds.
    pub open spec fn route(&self, state_type: TypeTag, input_type: TypeTag) -> Seq<A> {
        if state_type == input_type {
            Seq::empty()
        } else {
            match search(self.hops(), state_type, input_type) {
                Search::Found(found) => self.steps_along(found),
                _ => Seq::empty(),
            }
        }
    }

    /// Leads from `from`, which is of type `from_typ`, to the part of it
    /// that is of type `to_typ`: the projections along the path that
    /// [`AccessorRegistry::find_path`] finds are called one after the other,
    /// each on what the one before it returned, and what the last one
    /// returned is handed back, as [`chained`] says. Where the two types are
    /// the same, no projection is called and that part is `from` itself.
    /// Where no path is found, nothing is called and `from` stays as it is.
    pub fn access<'a, S: ?Sized>(&self, from: &'a mut S, from_typ: TypeTag, to_typ: TypeTag) -> (r:
        Result<&'a mut S, AccessError>) where A: for <'b>Fn(&'b mut S) -> &'b mut S
        requires
            self.callable::<S>(),
        ensures
            match search(self.hops(), from_typ, to_typ) {
                Search::Found(found) => r is Ok && exists|
                    args: Seq<&mut S>,
                    arg_ends: Seq<&S>,
                    outs: Seq<&mut S>,
                    out_ends: Seq<&S>,
                |
                    {
                        &&& #[trigger] chained(
                            self.steps_along(found),
                            args,
                            arg_ends,
                            outs,
                            out_ends,
                            &*old(from),
                            &*final(from),
                            &*(r->Ok_0),
                            &*final(r->Ok_0),
                        )
                        &&& forall|i: int|
                            #![trigger arg_ends[i]]
                            0 <= i < args.len() ==> arg_ends[i] == &*final(args[i]) && out_ends[i]
                                == &*final(outs[i])
                    },
                Search::NotFound => r matches Err(e) && e == AccessError::NoPath,
                Search::Cycle => r matches Err(e) && e == AccessError::Cycle,
            },
            r is Err ==> &*final(from) == &*old(from),
    {
        let path = match self.find_path(from_typ, to_typ) {
            Ok(path) => path,
            Err(e) => {
                return Err(e);
            },
        };
        proof {
            lemma_search_is_right(self.hops(), from_typ, to_typ);
        }
        let pairs = consecutive_pairs(&path);
        let ghost steps = self.steps_along(path@);
        let mut to = from;
        let mut i: usize = 0;
        proof {
            let args = Seq::<&mut S>::empty();
            let ends = Seq::<&S>::empty();
            assert(chained(
                steps.take(0),
                args,
                ends,
                args,
                ends,
                &*old(from),
                &*final(from),
                &*to,
                &*final(to),
            ));
        }
        while i < pairs.len()
            invariant
                i <= pairs.len(),
                self.callable::<S>(),
                is_chain(self.hops(), path@),
                pairs@.len() == path@.len() - 1,
                forall|j: int| 0 <= j < pairs@.len() ==> #[trigger] pairs@[j] == (path@[j], path@[j + 1]),
                steps == self.steps_along(path@),
                exists|args: Seq<&mut S>, arg_ends: Seq<&S>, outs: Seq<&mut S>, out_ends: Seq<&S>|
                    {
                        &&& #[trigger] chained(
                            steps.take(i as int),
                            args,
                            arg_ends,
                            outs,
                            out_ends,
                            &*old(from),
                            &*final(from),
                            &*to,
                            &*final(to),
                        )
                        &&& forall|j: int|
                            #![trigger arg_ends[j]]
                            0 <= j < args.len() ==> arg_ends[j] == &*final(args[j]) && out_ends[j]
                                == &*final(outs[j])
                    },
            decreases pairs.len() - i,
        {
            let hop = Hop { from: pairs[i].0, to: pairs[i].1 };
            proof {
                assert(hop == hop_into(path@, i + 1));
                self.lemma_hops_are_keys(hop);
            }
            let accessor = self.accessors.get(&hop).unwrap();
            let ghost prev = to;
            assert(accessor.accessor_fn == steps[i as int]);
            to = (accessor.accessor_fn)(to);
            proof {
                let (args, arg_ends, outs, out_ends) = choose|
                    args: Seq<&mut S>,
                    arg_ends: Seq<&S>,
                    outs: Seq<&mut S>,
                    out_ends: Seq<&S>,
                |
                    {
                        &&& #[trigger] chained(
                            steps.take(i as int),
                            args,
                            arg_ends,
                            outs,
                            out_ends,
                            &*old(from),
                            &*final(from),
                            &*prev,
                            &*final(prev),
                        )
                        &&& forall|j: int|
                            #![trigger arg_ends[j]]
                            0 <= j < args.len() ==> arg_ends[j] == &*final(args[j]) && out_ends[j]
                                == &*final(outs[j])
                    };
                let (arg, out) = choose|arg: &mut S, out: &mut S|
                    {
                        &&& #[trigger] call_ensures(steps[i as int], (arg,), out)
                        &&& &*arg == &*prev
                        &&& &*final(arg) == &*final(prev)
                        &&& &*out == &*to
                        &&& &*final(out) == &*final(to)
                    };
                lemma_chain_grows(
                    steps,
                    i as int,
                    args,
                    arg_ends,
                    outs,
                    out_ends,
                    arg,
                    &*final(arg),
                    out,
                    &*final(out),
                    &*old(from),
                    &*final(from),
                    &*prev,
                    &*final(prev),
                    &*to,
                );
                let args2 = args.push(arg);
                let arg_ends2 = arg_ends.push(&*final(arg));
                let outs2 = outs.push(out);
                let out_ends2 = out_ends.push(&*final(out));
                assert forall|j: int|
                    #![trigger arg_ends2[j]]
                    0 <= j < args2.len() implies arg_ends2[j] == &*final(args2[j]) && out_ends2[j]
                        == &*final(outs2[j]) by {
                    if j < i {
                        assert(arg_ends2[j] == arg_ends[j]);
                        assert(args2[j] == args[j] && outs2[j] == outs[j]);
                        assert(out_ends2[j] == out_ends[j]);
                    }
                }
                assert(chained(
                    steps.take((i + 1) as int),
                    args2,
                    arg_ends2,
                    outs2,
                    out_ends2,
                    &*old(from),
                    &*final(from),
                    &*to,
                    &*final(to),
                ));
            }
            i += 1;
        }
        proof {
            assert(steps.take(i as int) =~= steps);
            let (args, arg_ends, outs, out_ends) = choose|
                args: Seq<&mut S>,
                arg_ends: Seq<&S>,
                outs: Seq<&mut S>,
                out_ends: Seq<&S>,
            |
                {
                    &&& #[trigger] chained(
                        steps.take(i as int),
                        args,
                        arg_ends,
                        outs,
                        out_ends,
                        &*old(from),
                        &*final(from),
                        &*to,
                        &*final(to),
                    )
                    &&& forall|j: int|
                        #![trigger arg_ends[j]]
                        0 <= j < args.len() ==> arg_ends[j] == &*final(args[j]) && out_ends[j]
                            == &*final(outs[j])
                };
            assert(chained(
                steps,
                args,
                arg_ends,
                outs,
                out_ends,
                &*old(from),
                &*final(from),
                &*to,
                &*final(to),
            ));
        }
        let ghost last = to;
        let r: Result<&'a mut S, AccessError> = Ok(to);
        proof {
            assert(r is Ok);
            assert(&*(r->Ok_0) == &*last);
            assert(&*final(r->Ok_0) == &*final(last));
        }
        r
    }
}

/// Whether the handle `handle` is a handle on `value`.
pub open spec fn holds<S: ?Sized>(handle: &mut S, value: &S) -> bool {
    &*handle == value
}

/// A chain over the first `k` of `steps` that ends in `mid`, followed by a
/// call of step `k` on a handle to `mid`, is a chain over the first `k + 1`
/// steps.
pub proof fn lemma_chain_grows<A, S: ?Sized>(
    steps: Seq<A>,
    k: int,
    args: Seq<&mut S>,
    arg_ends: Seq<&S>,
    outs: Seq<&mut S>,
    out_ends: Seq<&S>,
    arg: &mut S,
    arg_end: &S,
    out: &mut S,
    out_end: &S,
    start: &S,
    start_end: &S,
    mid: &S,
    mid_end: &S,
    end: &S,
) where A: for <'a>Fn(&'a mut S) -> &'a mut S
    requires
        0 <= k < steps.len(),
        chained(steps.take(k), args, arg_ends, outs, out_ends, start, start_end, mid, mid_end),
        call_ensures(steps[k], (arg,), out),
        holds(arg, mid),
        arg_end == mid_end,
        holds(out, end),
    ensures
        chained(
            steps.take(k + 1),
            args.push(arg),
            arg_ends.push(arg_end),
            outs.push(out),
            out_ends.push(out_end),
            start,
            start_end,
            end,
            out_end,
        ),
{
    let steps2 = steps.take(k + 1);
    let args2 = args.push(arg);
    let arg_ends2 = arg_ends.push(arg_end);
    let outs2 = outs.push(out);
    let out_ends2 = out_ends.push(out_end);
    assert forall|j: int| 0 <= j < k + 1 implies #[trigger] call_ensures(
        steps2[j],
        (args2[j],),
        outs2[j],
    ) by {
        if j < k {
            assert(steps.take(k)[j] == steps2[j]);
            assert(args2[j] == args[j] && outs2[j] == outs[j]);
        }
    }
    assert forall|j: int| 0 < j < k + 1 implies &*(#[trigger] args2[j]) == &*outs2[j - 1]
        && arg_ends2[j] == out_ends2[j - 1] by {
        if j < k {
            assert(args2[j] == args[j] && outs2[j - 1] == outs[j - 1]);
            assert(&*args[j] == &*outs[j - 1]);
        }
    }
}

/// How a callback for state of type `input_type` gets at its state when
/// the root state is of type `state_type`: nothing stands in the way where
/// the two are the same or a chain of projections is found, and else the
/// search says what does.
pub open spec fn route_failure(hops: Seq<Hop>, state_type: TypeTag, input_type: TypeTag) -> Option<
    AccessError,
> {
    if state_type == input_type {
        None
    } else {
        match search(hops, state_type, input_type) {
            Search::Found(_) => None,
            Search::NotFound => Some(AccessError::NoPath),
            Search::Cycle => Some(AccessError::Cycle),
        }
    }
}

} // verus!
