//! The persistent memory store.
//!
//! Widgets are declared anew every frame. What one of them has to remember
//! from frame to frame (a scroll offset, a text being typed) it keeps here,
//! under its identifier and the type of what it stores. Nothing is ever
//! evicted: the entry of a widget that is declared no more stays until it is
//! overwritten.

use vstd::prelude::*;
use crate::linear_map::Key;
use crate::linear_map::LinearMap;
use crate::type_tag::TypeTag;
use crate::widget_id::WidgetId;

verus! {

/// Where a value is kept: under a widget, and under the type of the value,
/// so that two kinds of widget that share an identifier do not overwrite
/// each other.
#[derive(Copy, Clone, Debug, PartialEq, Eq, Hash, Structural)]
pub struct MemoryKey {
    pub id: WidgetId,
    pub kind: TypeTag,
}

impl Key for MemoryKey {
    fn same(&self, other: &Self) -> (r: bool) {
        *self == *other
    }
}

/// The store after `key` was made sure of: a value that is there stays, and
/// only a key that is missing gets `value`.
pub open spec fn ensured<V>(store: Map<MemoryKey, V>, key: MemoryKey, value: V) -> Map<MemoryKey, V> {
    if store.contains_key(key) {
        store
    } else {
        store.insert(key, value)
    }
}

/// A value that was set is the value that is read.
pub proof fn lemma_set_then_get<V>(store: Map<MemoryKey, V>, key: MemoryKey, value: V)
    ensures
        store.insert(key, value).contains_key(key),
        store.insert(key, value)[key] == value,
{
}

/// Of two defaults offered one after the other for a key that is missing,
/// the first one stays: both reads give it.
pub proof fn lemma_first_default_stays<V>(
    store: Map<MemoryKey, V>,
    key: MemoryKey,
    first: V,
    second: V,
)
    requires
        !store.contains_key(key),
    ensures
        ensured(store, key, first)[key] == first,
        ensured(ensured(store, key, first), key, second) == ensured(store, key, first),
        ensured(ensured(store, key, first), key, second)[key] == first,
{
}

/// Values of type `V`, each under a widget's identifier and a type tag.
pub struct Memory<V> {
    pub widget_memory: LinearMap<MemoryKey, V>,
}

impl<V> Memory<V> {
    pub open spec fn view(&self) -> Map<MemoryKey, V> {
        self.widget_memory@
    }

    pub open spec fn key_spec(id: WidgetId, kind: TypeTag) -> MemoryKey {
        MemoryKey { id, kind }
    }

    pub fn new() -> (m: Self)
        ensures
            m@ == Map::<MemoryKey, V>::empty(),
    {
        Memory { widget_memory: LinearMap::new() }
    }

    pub fn key(id: WidgetId, kind: TypeTag) -> (k: MemoryKey)
        ensures
            k == Self::key_spec(id, kind),
    {
        MemoryKey { id, kind }
    }

    /// Whether a value is kept for `id` under `kind`.
    pub fn contains(&self, id: WidgetId, kind: TypeTag) -> (b: bool)
        ensures
            b == self@.contains_key(Self::key_spec(id, kind)),
    {
        self.widget_memory.contains_key(&Self::key(id, kind))
    }

    /// Keeps `t` for `id`, in place of what was kept before.
    pub fn set(&mut self, id: WidgetId, kind: TypeTag, t: V)
        ensures
            final(self)@ == old(self)@.insert(Self::key_spec(id, kind), t),
    {
        self.widget_memory.insert(Self::key(id, kind), t);
    }

    /// Keeps `t` for `id` unless a value is kept already.
    pub fn ensure(&mut self, id: WidgetId, kind: TypeTag, t: V)
        ensures
            final(self)@ == ensured(old(self)@, Self::key_spec(id, kind), t),
    {
        let contains = self.widget_memory.contains_key(&Self::key(id, kind));
        if !contains {
            self.set(id, kind, t);
        }
    }

    /// The value kept for `id`. To ask for a value that was never kept is
    /// the caller's error.
    pub fn get(&self, id: WidgetId, kind: TypeTag) -> (r: &V)
        requires
            self@.contains_key(Self::key_spec(id, kind)),
        ensures
            *r == self@[Self::key_spec(id, kind)],
    {
        self.widget_memory.get(&Self::key(id, kind)).unwrap()
    }

    /// A handle through which the value kept for `id` can be changed. To
    /// ask for a value that was never kept is the caller's error.
    pub fn get_mut(&mut self, id: WidgetId, kind: TypeTag) -> (r: &mut V)
        requires
            old(self)@.contains_key(Self::key_spec(id, kind)),
        ensures
            *r == old(self)@[Self::key_spec(id, kind)],
            final(self)@ == old(self)@.insert(Self::key_spec(id, kind), *final(r)),
    {
        let key = Self::key(id, kind);
        self.widget_memory.get_mut(&key)
    }

    /// The value kept for `id`, which is `t` if none was kept before.
    pub fn get_or(&mut self, id: WidgetId, kind: TypeTag, t: V) -> (r: &V)
        ensures
            final(self)@ == ensured(old(self)@, Self::key_spec(id, kind), t),
            *r == final(self)@[Self::key_spec(id, kind)],
    {
        self.ensure(id, kind, t);
        self.get(id, kind)
    }

    /// A handle on the value kept for `id`, which starts as `t` if none was
    /// kept before.
    pub fn get_mut_or(&mut self, id: WidgetId, kind: TypeTag, t: V) -> (r: &mut V)
        ensures
            *r == ensured(old(self)@, Self::key_spec(id, kind), t)[Self::key_spec(id, kind)],
            final(self)@ == old(self)@.insert(Self::key_spec(id, kind), *final(r)),
    {
        self.ensure(id, kind, t);
        self.get_mut(id, kind)
    }
}

impl<V: Default> Memory<V> {
    /// Keeps the default value of `V` for `id` unless a value is kept
    /// already.
    pub fn ensure_default(&mut self, id: WidgetId, kind: TypeTag)
        ensures
            old(self)@.contains_key(Self::key_spec(id, kind)) ==> final(self)@ == old(self)@,
            !old(self)@.contains_key(Self::key_spec(id, kind)) ==> exists|d: V|
                call_ensures(V::default, (), d) && #[trigger] old(self)@.insert(
                    Self::key_spec(id, kind),
                    d,
                ) == final(self)@,
    {
        let contains = self.widget_memory.contains_key(&Self::key(id, kind));
        if !contains {
            let d = V::default();
            self.set(id, kind, d);
        }
    }

    /// The value kept for `id`, which is the default value of `V` if none
    /// was kept before.
    pub fn get_or_default(&mut self, id: WidgetId, kind: TypeTag) -> (r: &V)
        ensures
            old(self)@.contains_key(Self::key_spec(id, kind)) ==> final(self)@ == old(self)@,
            !old(self)@.contains_key(Self::key_spec(id, kind)) ==> call_ensures(V::default, (), *r)
                && final(self)@ == old(self)@.insert(Self::key_spec(id, kind), *r),
            *r == final(self)@[Self::key_spec(id, kind)],
    {
        self.ensure_default(id, kind);
        self.get(id, kind)
    }

    /// A handle on the value kept for `id`, which starts as the default
    /// value of `V` if none was kept before.
    pub fn get_mut_or_default(&mut self, id: WidgetId, kind: TypeTag) -> (r: &mut V)
        ensures
            old(self)@.contains_key(Self::key_spec(id, kind)) ==> *r == old(self)@[Self::key_spec(
                id,
                kind,
            )],
            !old(self)@.contains_key(Self::key_spec(id, kind)) ==> call_ensures(V::default, (), *r),
            final(self)@ == old(self)@.insert(Self::key_spec(id, kind), *final(r)),
    {
        self.ensure_default(id, kind);
        self.get_mut(id, kind)
    }
}

} // verus!
