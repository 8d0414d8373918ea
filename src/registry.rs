//! The schema registry: which element IDs are master elements, whose
//! payload is a sequence of child elements.

use std::collections::HashMap;

use vstd::prelude::*;

use crate::types::ElementId;

verus! {

broadcast use vstd::std_specs::hash::group_hash_axioms;

/// Whether the registry `reg` marks `id` as a master element. An ID it does
/// not hold is not one.
pub open spec fn is_master_id(reg: Map<u64, bool>, id: nat) -> bool {
    reg.contains_key(id as u64) && reg[id as u64]
}

/// A table from element ID to whether that element is a master element,
/// filled by the caller before reading.
pub struct Registry {
    masters: HashMap<u64, bool>,
}

impl View for Registry {
    type V = Map<u64, bool>;

    closed spec fn view(&self) -> Map<u64, bool> {
        self.masters@
    }
}

impl Registry {
    /// A registry that holds no ID.
    pub fn new() -> (r: Registry)
        ensures
            r@ == Map::<u64, bool>::empty(),
    {
        Registry { masters: HashMap::new() }
    }

    /// Record whether `id` is a master element; a later call for the same
    /// ID replaces an earlier one.
    pub fn register(&mut self, id: ElementId, is_master: bool)
        ensures
            final(self)@ == old(self)@.insert(id, is_master),
    {
        self.masters.insert(id, is_master);
    }

    /// Whether `id` is registered as a master element.
    pub fn is_master(&self, id: ElementId) -> (r: bool)
        ensures
            r == is_master_id(self@, id as nat),
    {
        match self.masters.get(&id) {
            Some(m) => *m,
            None => false,
        }
    }
}

} // verus!
