//! A fixed-capacity pool of value slots, addressed by index.
use vstd::prelude::*;

use crate::error::CacheError;

verus! {

/// A fixed number of value slots and a stack of the indices free for
/// allocation.
#[derive(Debug)]
pub struct MemoryPool<V> {
    slots: Vec<Option<V>>,
    free_indices: Vec<usize>,
    capacity: usize,
}

impl<V> MemoryPool<V> {
    /// The slots, each empty or holding a value.
    pub closed spec fn slots_view(&self) -> Seq<Option<V>> {
        self.slots@
    }

    /// The stack of indices handed out next, the last one first.
    pub closed spec fn free_view(&self) -> Seq<usize> {
        self.free_indices@
    }

    pub closed spec fn capacity_spec(&self) -> nat {
        self.capacity as nat
    }

    /// The pool's shape: one slot per unit of capacity, and every free index
    /// names a slot.
    pub closed spec fn wf(&self) -> bool {
        &&& self.slots@.len() == self.capacity
        &&& forall|k: int| 0 <= k < self.free_indices@.len() ==> #[trigger] self.free_indices@[k] < self.capacity
    }

    /// What the pool's shape says of its views.
    pub proof fn lemma_shape(&self)
        requires
            self.wf(),
        ensures
            self.slots_view().len() == self.capacity_spec(),
            forall|k: int| 0 <= k < self.free_view().len() ==> #[trigger] self.free_view()[k] < self.capacity_spec(),
    {
    }

    /// The free stack lists each empty slot exactly once and nothing else.
    /// This holds of a new pool and is kept as long as only occupied slots
    /// are deallocated.
    pub open spec fn exact(&self) -> bool {
        &&& self.free_view().no_duplicates()
        &&& forall|i: int|
            0 <= i < self.capacity_spec() ==> (#[trigger] self.slots_view()[i] is None <==> self.free_view().contains(
                i as usize,
            ))
    }

    /// A pool of `capacity` empty slots; a pool of no slots is refused.
    pub fn new(capacity: usize) -> (r: Result<Self, CacheError>)
        ensures
            capacity == 0 <==> r is Err,
            r matches Err(e) ==> e == CacheError::ConfigurationError,
            r matches Ok(p) ==> {
                &&& p.wf()
                &&& p.exact()
                &&& p.capacity_spec() == capacity
                &&& p.slots_view() == Seq::new(capacity as nat, |i: int| None::<V>)
                &&& p.free_view() == Seq::new(capacity as nat, |i: int| i as usize)
            },
    {
        if capacity == 0 {
            return Err(CacheError::ConfigurationError);
        }
        let mut slots: Vec<Option<V>> = Vec::with_capacity(capacity);
        let mut free_indices: Vec<usize> = Vec::with_capacity(capacity);
        let mut i: usize = 0;
        while i < capacity
            invariant
                i <= capacity,
                slots@ == Seq::new(i as nat, |k: int| None::<V>),
                free_indices@ == Seq::new(i as nat, |k: int| k as usize),
            decreases capacity - i,
        {
            slots.push(None);
            free_indices.push(i);
            i = i + 1;
            proof {
                assert(slots@ =~= Seq::new(i as nat, |k: int| None::<V>));
                assert(free_indices@ =~= Seq::new(i as nat, |k: int| k as usize));
            }
        }
        let pool = MemoryPool { slots, free_indices, capacity };
        proof {
            assert forall|i: int| 0 <= i < capacity implies #[trigger] pool.slots_view()[i] is None
                <==> pool.free_view().contains(i as usize) by {
                assert(pool.free_view()[i] == i as usize);
            }
        }
        Ok(pool)
    }

    /// Stores `value` in the slot on top of the free stack and returns its
    /// index; refuses when no index is free.
    pub fn allocate(&mut self, value: V) -> (r: Result<usize, CacheError>)
        requires
            old(self).wf(),
        ensures
            final(self).wf(),
            final(self).capacity_spec() == old(self).capacity_spec(),
            old(self).free_view().len() == 0 <==> r is Err,
            r matches Err(e) ==> e == CacheError::ConfigurationError && final(self).slots_view() == old(self).slots_view()
                && final(self).free_view() == old(self).free_view(),
            r matches Ok(idx) ==> {
                &&& idx == old(self).free_view().last()
                &&& idx < old(self).capacity_spec()
                &&& final(self).free_view() == old(self).free_view().drop_last()
                &&& final(self).slots_view() == old(self).slots_view().update(idx as int, Some(value))
            },
            r matches Ok(idx) ==> (old(self).exact() ==> old(self).slots_view()[idx as int] is None
                && final(self).exact()),
    {
        let ghost old_self = *self;
        match self.free_indices.pop() {
            Some(idx) => {
                proof {
                    assert(idx == old_self.free_indices@[old_self.free_indices@.len() - 1]);
                }
                self.slots.set(idx, Some(value));
                proof {
                    assert(self.free_indices@ =~= old_self.free_view().drop_last());
                    assert forall|k: int| 0 <= k < self.free_indices@.len() implies #[trigger] self.free_indices@[k]
                        < self.capacity by {
                        assert(self.free_indices@[k] == old_self.free_indices@[k]);
                    }
                    if old_self.exact() {
                        let f = old_self.free_view();
                        assert(f.contains(idx));
                        assert forall|i: int| 0 <= i < self.capacity_spec() implies (
                        #[trigger] self.slots_view()[i] is None <==> self.free_view().contains(i as usize)) by {
                            if i == idx as int {
                                if self.free_view().contains(i as usize) {
                                    let k = choose|k: int| 0 <= k < self.free_view().len() && self.free_view()[k] == i as usize;
                                    assert(f[k] == f[f.len() - 1]);
                                }
                            } else {
                                if f.contains(i as usize) {
                                    let k = choose|k: int| 0 <= k < f.len() && f[k] == i as usize;
                                    assert(k != f.len() - 1);
                                    assert(self.free_view()[k] == i as usize);
                                }
                                if self.free_view().contains(i as usize) {
                                    let k = choose|k: int| 0 <= k < self.free_view().len() && self.free_view()[k] == i as usize;
                                    assert(f[k] == i as usize);
                                }
                            }
                        }
                    }
                }
                Ok(idx)
            },
            None => Err(CacheError::ConfigurationError),
        }
    }

    /// Empties slot `idx` and pushes it on the free stack; refuses an index
    /// outside the pool. The slot need not be occupied.
    pub fn deallocate(&mut self, idx: usize) -> (r: Result<(), CacheError>)
        requires
            old(self).wf(),
        ensures
            final(self).wf(),
            final(self).capacity_spec() == old(self).capacity_spec(),
            idx >= old(self).capacity_spec() <==> r is Err,
            r matches Err(e) ==> e == CacheError::ConfigurationError && final(self).slots_view() == old(self).slots_view()
                && final(self).free_view() == old(self).free_view(),
            r is Ok ==> {
                &&& final(self).slots_view() == old(self).slots_view().update(idx as int, None)
                &&& final(self).free_view() == old(self).free_view().push(idx)
            },
            r is Ok && old(self).exact() && old(self).slots_view()[idx as int] is Some ==> final(self).exact(),
    {
        if idx >= self.capacity {
            return Err(CacheError::ConfigurationError);
        }
        let ghost old_self = *self;
        self.slots.set(idx, None);
        self.free_indices.push(idx);
        proof {
            let f = old_self.free_view();
            assert forall|k: int| 0 <= k < self.free_indices@.len() implies #[trigger] self.free_indices@[k]
                < self.capacity by {
                if k < f.len() {
                    assert(self.free_indices@[k] == f[k]);
                }
            }
            if old_self.exact() && old_self.slots_view()[idx as int] is Some {
                assert(!f.contains(idx));
                assert forall|a: int, b: int|
                    0 <= a < self.free_view().len() && 0 <= b < self.free_view().len() && a != b implies
                    self.free_view()[a] != self.free_view()[b] by {
                    if a < f.len() && b < f.len() {
                    } else if a == f.len() as int {
                        assert(f[b] == self.free_view()[b]);
                    } else {
                        assert(f[a] == self.free_view()[a]);
                    }
                }
                assert forall|i: int| 0 <= i < self.capacity_spec() implies (#[trigger] self.slots_view()[i] is None
                    <==> self.free_view().contains(i as usize)) by {
                    if i == idx as int {
                        assert(self.free_view()[f.len() as int] == idx);
                    } else {
                        if f.contains(i as usize) {
                            let k = choose|k: int| 0 <= k < f.len() && f[k] == i as usize;
                            assert(self.free_view()[k] == i as usize);
                        }
                        if self.free_view().contains(i as usize) {
                            let k = choose|k: int| 0 <= k < self.free_view().len() && self.free_view()[k] == i as usize;
                            assert(k != f.len() as int);
                            assert(f[k] == i as usize);
                        }
                    }
                }
            }
        }
        Ok(())
    }

    /// The value in slot `idx`, if the index is in the pool and the slot is
    /// occupied.
    pub fn get(&self, idx: usize) -> (r: Option<&V>)
        requires
            self.wf(),
        ensures
            r == (if idx < self.capacity_spec() && self.slots_view()[idx as int] is Some {
                Some(&self.slots_view()[idx as int]->Some_0)
            } else {
                None
            }),
    {
        if idx >= self.capacity {
            return None;
        }
        self.slots[idx].as_ref()
    }

    /// Mutable access to the value in slot `idx`, if the index is in the pool
    /// and the slot is occupied.
    pub fn get_mut(&mut self, idx: usize) -> (r: Option<&mut V>)
        requires
            old(self).wf(),
        ensures
            final(self).wf(),
            final(self).capacity_spec() == old(self).capacity_spec(),
            final(self).free_view() == old(self).free_view(),
            r is Some <==> idx < old(self).capacity_spec() && old(self).slots_view()[idx as int] is Some,
            r matches Some(v) ==> {
                &&& *v == old(self).slots_view()[idx as int]->Some_0
                &&& final(self).slots_view() == old(self).slots_view().update(idx as int, Some(*final(v)))
            },
            r is None ==> final(self).slots_view() == old(self).slots_view(),
    {
        if idx >= self.capacity {
            return None;
        }
        self.slots[idx].as_mut()
    }

    pub fn capacity(&self) -> (c: usize)
        ensures
            c == self.capacity_spec(),
    {
        self.capacity
    }
}

} // verus!
