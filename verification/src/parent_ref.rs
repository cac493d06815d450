//! A safe, non-owning handle to a node's parent. Nodes live in an `Arena`
//! that owns them in generation-counted slots; a `ParentRef` names a slot
//! and the generation it saw. Upgrading a handle after the parent was
//! removed simply reports "parent gone" instead of a dangling access, so a
//! back-reference never controls a lifetime and an ownership cycle between
//! a directory and its children cannot arise.

use vstd::prelude::*;

verus! {

/// An owning store of nodes. Each slot carries a generation counter,
/// bumped when its occupant is removed, so stale handles fail cleanly.
pub struct Arena<T> {
    slots: Vec<Option<T>>,
    gens: Vec<u64>,
}

impl<T> Arena<T> {
    /// Whether the two internal columns line up.
    pub closed spec fn wf(&self) -> bool {
        self.slots@.len() == self.gens@.len()
    }

    /// The stored values, by slot.
    pub closed spec fn slots_view(&self) -> Seq<Option<T>> {
        self.slots@
    }

    /// The generation of each slot.
    pub closed spec fn gens_view(&self) -> Seq<u64> {
        self.gens@
    }

    /// An empty arena.
    pub fn new() -> (r: Arena<T>)
        ensures
            r.wf(),
            r.slots_view().len() == 0,
    {
        Arena { slots: Vec::new(), gens: Vec::new() }
    }

    /// How many slots exist (occupied or not).
    pub fn len(&self) -> (r: usize)
        ensures
            r == self.slots_view().len(),
    {
        self.slots.len()
    }

    /// Stores a value, returning its slot index.
    pub fn store(&mut self, v: T) -> (i: usize)
        requires
            old(self).wf(),
            old(self).slots_view().len() < usize::MAX,
        ensures
            final(self).wf(),
            i == old(self).slots_view().len(),
            final(self).slots_view() == old(self).slots_view().push(Some(v)),
            final(self).gens_view() == old(self).gens_view().push(0u64),
    {
        let i = self.slots.len();
        self.slots.push(Some(v));
        self.gens.push(0);
        i
    }

    /// Reads a slot; `None` for an out-of-range index or an emptied slot.
    pub fn get(&self, i: usize) -> (r: Option<&T>)
        requires
            self.wf(),
        ensures
            match r {
                Some(v) => i < self.slots_view().len() && self.slots_view()[i as int] == Some(*v),
                None => i >= self.slots_view().len() || self.slots_view()[i as int] is None,
            },
    {
        if i < self.slots.len() {
            self.slots[i].as_ref()
        } else {
            None
        }
    }

    /// Removes a slot's occupant, bumping its generation; existing handles
    /// to it go stale. Returns what was stored.
    pub fn remove(&mut self, i: usize) -> (r: Option<T>)
        requires
            old(self).wf(),
            i < old(self).slots_view().len(),
            old(self).gens_view()[i as int] < u64::MAX,
        ensures
            final(self).wf(),
            r == old(self).slots_view()[i as int],
            final(self).slots_view() == old(self).slots_view().update(i as int, None),
            final(self).gens_view() == old(self).gens_view().update(
                i as int,
                (old(self).gens_view()[i as int] + 1) as u64,
            ),
    {
        let r = self.slots.remove(i);
        self.slots.insert(i, None);
        let g = self.gens.remove(i);
        self.gens.insert(i, g + 1);
        proof {
            assert(self.slots@ =~= old(self).slots@.update(i as int, None));
            assert(self.gens@ =~= old(self).gens@.update(
                i as int,
                (old(self).gens@[i as int] + 1) as u64,
            ));
        }
        r
    }
}

/// A non-owning, safely-invalidatable reference to a parent node: either
/// nothing (for a root) or a slot index with the generation it saw.
pub struct ParentRef<T> {
    target: Option<(usize, u64)>,
    marker: core::marker::PhantomData<T>,
}

impl<T> Clone for ParentRef<T> {
    fn clone(&self) -> (r: Self)
        ensures
            r.target_view() == self.target_view(),
    {
        ParentRef { target: self.target, marker: core::marker::PhantomData }
    }
}

impl<T> ParentRef<T> {
    /// The slot and generation this handle names, if any.
    pub closed spec fn target_view(&self) -> Option<(usize, u64)> {
        self.target
    }

    /// Whether this handle still reaches a live occupant of `arena`.
    pub open spec fn valid_in(&self, arena: &Arena<T>) -> bool {
        match self.target_view() {
            Some((i, g)) => i < arena.slots_view().len() && arena.gens_view()[i as int] == g
                && arena.slots_view()[i as int] is Some,
            None => false,
        }
    }

    /// An empty parent reference, for root nodes.
    pub fn none() -> (r: Self)
        ensures
            r.target_view() is None,
    {
        ParentRef { target: None, marker: core::marker::PhantomData }
    }

    /// A parent reference to the occupant of slot `i`, at its current
    /// generation.
    pub fn from_rc(arena: &Arena<T>, i: usize) -> (r: Self)
        requires
            arena.wf(),
            i < arena.slots_view().len(),
            arena.slots_view()[i as int] is Some,
        ensures
            r.target_view() == Some((i, arena.gens_view()[i as int])),
            r.valid_in(arena),
    {
        let g = arena.gens[i];
        ParentRef { target: Some((i, g)), marker: core::marker::PhantomData }
    }

    /// Whether this is the empty reference.
    pub fn is_none(&self) -> (r: bool)
        ensures
            r == (self.target_view() is None),
    {
        self.target.is_none()
    }

    /// Whether this reference names a slot at all.
    pub fn is_some(&self) -> (r: bool)
        ensures
            r == (self.target_view() is Some),
    {
        self.target.is_some()
    }

    /// The slot index, if the parent is still alive; `None` once the
    /// parent has been removed or the slot re-generated.
    pub fn upgrade(&self, arena: &Arena<T>) -> (r: Option<usize>)
        requires
            arena.wf(),
        ensures
            r == (if self.valid_in(arena) {
                Some(self.target_view()->Some_0.0)
            } else {
                None::<usize>
            }),
    {
        match self.target {
            None => None,
            Some((i, g)) => {
                if i < arena.gens.len() {
                    if arena.gens[i] == g {
                        match arena.get(i) {
                            Some(_) => Some(i),
                            None => None,
                        }
                    } else {
                        None
                    }
                } else {
                    None
                }
            },
        }
    }

    /// Whether this reference points to a live parent.
    pub fn is_valid(&self, arena: &Arena<T>) -> (r: bool)
        requires
            arena.wf(),
        ensures
            r == self.valid_in(arena),
    {
        self.upgrade(arena).is_some()
    }

    /// Borrows the parent's value, or reports "parent gone".
    pub fn with<'a>(&self, arena: &'a Arena<T>) -> (r: Option<&'a T>)
        requires
            arena.wf(),
        ensures
            match r {
                Some(v) => self.valid_in(arena) && arena.slots_view()[
                    self.target_view()->Some_0.0 as int
                ] == Some(*v),
                None => !self.valid_in(arena),
            },
    {
        match self.upgrade(arena) {
            Some(i) => arena.get(i),
            None => None,
        }
    }

    /// Replaces the parent's value, returning the previous one, or reports
    /// "parent gone" and leaves the arena unchanged. The slot's generation
    /// is untouched: handles to it stay valid.
    pub fn with_mut(&self, arena: &mut Arena<T>, v: T) -> (r: Option<T>)
        requires
            old(arena).wf(),
        ensures
            final(arena).wf(),
            match r {
                Some(prev) => self.valid_in(old(arena)) && old(arena).slots_view()[
                    self.target_view()->Some_0.0 as int
                ] == Some(prev) && final(arena).slots_view() == old(arena).slots_view().update(
                    self.target_view()->Some_0.0 as int,
                    Some(v),
                ) && final(arena).gens_view() == old(arena).gens_view(),
                None => !self.valid_in(old(arena)) && *final(arena) == *old(arena),
            },
    {
        match self.upgrade(arena) {
            Some(i) => {
                let prev = arena.slots.remove(i);
                arena.slots.insert(i, Some(v));
                proof {
                    assert(arena.slots@ =~= old(arena).slots@.update(i as int, Some(v)));
                }
                prev
            },
            None => None,
        }
    }
}

impl<T> PartialEq for ParentRef<T> {
    /// Two references are equal when they name the same slot at the same
    /// generation, or are both empty.
    fn eq(&self, other: &Self) -> (r: bool)
        ensures
            r == (self.target_view() == other.target_view()),
    {
        match (self.target, other.target) {
            (Some((i, g)), Some((j, h))) => i == j && g == h,
            (None, None) => true,
            _ => false,
        }
    }
}

impl<T> vstd::std_specs::cmp::PartialEqSpecImpl for ParentRef<T> {
    open spec fn obeys_eq_spec() -> bool {
        true
    }

    open spec fn eq_spec(&self, other: &Self) -> bool {
        self.target_view() == other.target_view()
    }
}

impl<T> Default for ParentRef<T> {
    fn default() -> (r: Self)
        ensures
            r.target_view() is None,
    {
        ParentRef::none()
    }
}

} // verus!
