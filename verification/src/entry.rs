use vstd::prelude::*;

verus! {

/// Monotone version counter of a key; every population captures one.
#[derive(Debug, Clone, Copy, PartialEq, Eq, Structural)]
pub struct Generation(pub u64);

impl Generation {
    pub fn new(value: u64) -> (g: Self)
        ensures
            g.0 == value,
    {
        Generation(value)
    }

    /// A generation is stale when a newer one exists.
    pub fn is_stale(&self, current: Generation) -> (r: bool)
        ensures
            r == (self.0 < current.0),
    {
        self.0 < current.0
    }
}

/// The state of a key in the control plane.
#[derive(Debug, Clone, Copy, PartialEq, Eq, Structural)]
pub enum EntryState {
    Absent,
    Ready,
    Stale,
    InFlight,
    Failed,
}

/// A value together with the generation it was published at.
#[derive(Debug)]
pub struct CacheEntry<V> {
    pub value: V,
    pub generation: Generation,
    pub expiration: Option<std::time::Duration>,
}

impl<V> CacheEntry<V> {
    pub fn new(value: V, generation: Generation, expiration: Option<std::time::Duration>) -> (e: Self)
        ensures
            e.value == value,
            e.generation == generation,
            e.expiration == expiration,
    {
        CacheEntry { value, generation, expiration }
    }
}

} // verus!
