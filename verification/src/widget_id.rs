//! Widget identity.
//!
//! A widget's identifier is a 64-bit hash that depends on nothing but the
//! identifier of its parent and the widget's own key. The tree is declared
//! anew every frame, and the same declaration always yields the same
//! identifiers, so state kept under an identifier is found again.

use vstd::prelude::*;
use vstd::string::StringSliceAdditionalSpecFns;

verus! {

/// Starting state of the hash, and the identifier that keys are combined with
/// where there is no parent.
pub const HASH_SEED: u64 = 0xcbf2_9ce4_8422_2325;

/// Multiplier of the hash (64-bit FNV-1a).
pub const HASH_PRIME: u64 = 0x0000_0100_0000_01b3;

/// The hash state after one more byte.
pub open spec fn mix_byte(state: u64, byte: u8) -> u64 {
    (state ^ (byte as u64)).wrapping_mul(HASH_PRIME)
}

/// The hash state after all of `bytes`, taken in order.
pub open spec fn mix_bytes(state: u64, bytes: Seq<u8>) -> u64
    decreases bytes.len(),
{
    if bytes.len() == 0 {
        state
    } else {
        mix_byte(mix_bytes(state, bytes.drop_last()), bytes.last())
    }
}

/// Feeds `bytes` into the hash, starting from `state`.
pub fn hash_bytes(state: u64, bytes: &[u8]) -> (h: u64)
    ensures
        h == mix_bytes(state, bytes@),
{
    let mut h: u64 = state;
    let mut i: usize = 0;
    while i < bytes.len()
        invariant
            i <= bytes.len(),
            h == mix_bytes(state, bytes@.take(i as int)),
        decreases bytes.len() - i,
    {
        proof {
            assert(bytes@.take(i + 1).drop_last() =~= bytes@.take(i as int));
        }
        h = (h ^ (bytes[i] as u64)).wrapping_mul(HASH_PRIME);
        i += 1;
    }
    proof {
        assert(bytes@.take(i as int) =~= bytes@);
    }
    h
}

/// Identifies one widget of the declared tree.
#[derive(Copy, Clone, Debug, PartialEq, Eq, Hash, Structural)]
pub struct WidgetId {
    pub value: u64,
}

impl WidgetId {
    /// The identifier that `key` names on its own, with no parent.
    pub open spec fn named(key: Seq<u8>) -> WidgetId {
        WidgetId { value: mix_bytes(HASH_SEED, key) }
    }

    /// The identifier of the child that `key` names under this widget.
    pub open spec fn child(self, key: Seq<u8>) -> WidgetId {
        WidgetId { value: mix_bytes(self.value, key) }
    }

    /// An identifier that stands on its own, such as that of the root.
    pub fn new(key: &str) -> (id: WidgetId)
        ensures
            id == WidgetId::named(key.spec_bytes()),
    {
        WidgetId { value: hash_bytes(HASH_SEED, key.as_bytes()) }
    }

    /// The identifier of the child that `key` names under this widget.
    pub fn with(&self, key: &str) -> (id: WidgetId)
        ensures
            id == self.child(key.spec_bytes()),
    {
        WidgetId { value: hash_bytes(self.value, key.as_bytes()) }
    }
}

/// How a widget comes by its identifier once its parent is known.
#[derive(Clone, Debug, PartialEq, Eq)]
pub enum IdGen {
    /// The key is combined with the parent's identifier: two widgets with the
    /// same key are told apart as long as their parents differ.
    Key(String),
    /// The key alone decides, whatever the parent.
    Literal(String),
}

impl IdGen {
    /// The identifier that this generator yields below `parent`.
    pub open spec fn resolve_spec(self, parent: WidgetId) -> WidgetId {
        match self {
            IdGen::Key(key) => parent.child(vstd::utf8::encode_utf8(key@)),
            IdGen::Literal(key) => WidgetId::named(vstd::utf8::encode_utf8(key@)),
        }
    }

    pub fn key(key: &str) -> (g: IdGen)
        ensures
            g matches IdGen::Key(k) && k@ == key@,
    {
        IdGen::Key(key.to_owned())
    }

    pub fn literal(key: &str) -> (g: IdGen)
        ensures
            g matches IdGen::Literal(k) && k@ == key@,
    {
        IdGen::Literal(key.to_owned())
    }

    /// The widget's identifier below `parent`. The same generator and the same
    /// parent give the same identifier, in every frame.
    pub fn resolve(&self, parent: WidgetId) -> (id: WidgetId)
        ensures
            id == self.resolve_spec(parent),
    {
        match self {
            IdGen::Key(key) => parent.with(key.as_str()),
            IdGen::Literal(key) => WidgetId::new(key.as_str()),
        }
    }
}

} // verus!
