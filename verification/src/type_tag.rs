//! Runtime type identifiers.

use vstd::prelude::*;
use crate::linear_map::Key;

verus! {

/// Stands for a type at run time. The library never looks into a tag: it
/// only asks whether two tags are the same. Whoever hands out tags sees to
/// it that two types never share one.
#[derive(Copy, Clone, Debug, PartialEq, Eq, Hash, Structural)]
pub struct TypeTag(pub u64);

impl Key for TypeTag {
    fn same(&self, other: &Self) -> (r: bool) {
        *self == *other
    }
}

} // verus!
