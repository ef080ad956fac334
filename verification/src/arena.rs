//! A slot-based store that hands out stable integer handles to owned values,
//! with constant-time reuse of freed slots. The DOM tree keeps its nodes here
//! so that parent and child can refer to one another by handle without
//! ownership cycles.

use vstd::prelude::*;

verus! {

/// A handle into an [`Arena`]: an index into its slot storage.
pub type ArenaRef = usize;

/// The failure an arena operation can report: the handle lies beyond the
/// arena's storage, so this arena never issued it.
#[derive(Debug, PartialEq, Eq, Structural, Clone, Copy)]
pub enum ArenaError {
    IndexOutOfBounds,
}

/// A mapping from integer handles to live values of one type, plus the set of
/// freed handles available for reuse. A handle is either live (it resolves to
/// a value) or dead (it resolves to nothing); a dead handle is never handed
/// out again while another value occupies its slot.
pub struct Arena<T> {
    active_pool: Vec<Option<T>>,
    inactive_pool: Vec<ArenaRef>,
}

impl<T> Arena<T> {
    /// The slots: entry `i` holds the live value of handle `i`, or nothing.
    pub closed spec fn slots(&self) -> Seq<Option<T>> {
        self.active_pool@
    }

    /// The handles freed by `remove` and available for reuse, most recently
    /// freed last.
    pub closed spec fn free_list(&self) -> Seq<ArenaRef> {
        self.inactive_pool@
    }

    /// What handle `i` resolves to: its live value, or nothing.
    pub open spec fn spec_get(&self, i: ArenaRef) -> Option<T> {
        if (i as int) < self.slots().len() {
            self.slots()[i as int]
        } else {
            None
        }
    }

    /// Whether handle `i` currently resolves to a value.
    pub open spec fn live(&self, i: ArenaRef) -> bool {
        self.spec_get(i) is Some
    }

    /// The handle the next `add` will return: the most recently freed one,
    /// or the first slot past the storage.
    pub open spec fn next_handle(&self) -> ArenaRef {
        if self.free_list().len() > 0 {
            self.free_list().last()
        } else {
            self.slots().len() as ArenaRef
        }
    }

    /// Every freed handle points at an emptied slot inside the storage, and no
    /// handle sits on the free list twice, so a handle is never reused while
    /// live.
    pub open spec fn wf(&self) -> bool {
        &&& forall|k: int|
            0 <= k < self.free_list().len() ==> (#[trigger] self.free_list()[k] as int)
                < self.slots().len() && self.slots()[self.free_list()[k] as int] is None
        &&& self.free_list().no_duplicates()
    }

    /// How `add` relates the arena before the call to the arena after it:
    /// a freed handle is reused if one exists, otherwise the storage grows by
    /// one slot.
    pub open spec fn add_step(pre: Self, post: Self, elem: T, r: ArenaRef) -> bool {
        if pre.free_list().len() > 0 {
            &&& r == pre.free_list().last()
            &&& post.slots() == pre.slots().update(r as int, Some(elem))
            &&& post.free_list() == pre.free_list().drop_last()
        } else {
            &&& r as int == pre.slots().len()
            &&& post.slots() == pre.slots().push(Some(elem))
            &&& post.free_list() == pre.free_list()
        }
    }

    /// How `remove` relates the arena before the call to the arena after it:
    /// a handle beyond the storage is refused, a live handle's slot is emptied
    /// and recorded as freed, and an already dead handle is left as it is.
    pub open spec fn remove_step(
        pre: Self,
        post: Self,
        index: ArenaRef,
        r: Result<(), ArenaError>,
    ) -> bool {
        if (index as int) >= pre.slots().len() {
            &&& r == Err::<(), ArenaError>(ArenaError::IndexOutOfBounds)
            &&& post.slots() == pre.slots()
            &&& post.free_list() == pre.free_list()
        } else if pre.spec_get(index) is Some {
            &&& r == Ok::<(), ArenaError>(())
            &&& post.slots() == pre.slots().update(index as int, None)
            &&& post.free_list() == pre.free_list().push(index)
        } else {
            &&& r == Ok::<(), ArenaError>(())
            &&& post.slots() == pre.slots()
            &&& post.free_list() == pre.free_list()
        }
    }

    /// An empty arena: no slots, no freed handles.
    pub fn new() -> (r: Self)
        ensures
            r.wf(),
            r.slots().len() == 0,
            r.free_list().len() == 0,
    {
        Self { active_pool: Vec::new(), inactive_pool: Vec::new() }
    }

    /// The value handle `index` resolves to, or nothing when the handle is
    /// out of bounds or freed.
    pub fn get(&self, index: ArenaRef) -> (r: Option<&T>)
        ensures
            match r {
                Some(v) => self.spec_get(index) == Some(*v),
                None => self.spec_get(index) is None,
            },
    {
        if index < self.active_pool.len() {
            match &self.active_pool[index] {
                Some(v) => Some(v),
                None => None,
            }
        } else {
            None
        }
    }

    /// Mutable access to the value handle `index` resolves to; absent exactly
    /// when `get` would be absent. The slot ends up holding whatever the
    /// caller leaves behind the returned reference.
    pub fn get_mut(&mut self, index: ArenaRef) -> (r: Option<&mut T>)
        ensures
            r is Some <==> old(self).spec_get(index) is Some,
            match r {
                Some(v) => {
                    &&& old(self).spec_get(index) == Some(*v)
                    &&& final(self).slots() == old(self).slots().update(
                        index as int,
                        Some(*final(v)),
                    )
                    &&& final(self).free_list() == old(self).free_list()
                },
                None => {
                    &&& final(self).slots() == old(self).slots()
                    &&& final(self).free_list() == old(self).free_list()
                },
            },
    {
        if index < self.active_pool.len() {
            if self.active_pool[index].is_none() {
                return None;
            }
            let slot = &mut self.active_pool[index];
            match slot {
                Some(v) => Some(v),
                None => None,
            }
        } else {
            None
        }
    }

    /// Stores `elem` and returns its handle, reusing the most recently freed
    /// slot if one exists and growing the storage otherwise. The handle
    /// returned was not live before the call, and no other handle changes
    /// what it resolves to.
    pub fn add(&mut self, elem: T) -> (r: ArenaRef)
        requires
            old(self).wf(),
        ensures
            final(self).wf(),
            Self::add_step(*old(self), *final(self), elem, r),
            r == old(self).next_handle(),
            !old(self).live(r),
            final(self).spec_get(r) == Some(elem),
            forall|j: ArenaRef|
                j != r ==> #[trigger] final(self).spec_get(j) == old(self).spec_get(j),
    {
        if let Some(idx) = self.inactive_pool.pop() {
            self.active_pool[idx] = Some(elem);
            idx
        } else {
            self.active_pool.push(Some(elem));
            self.active_pool.len() - 1
        }
    }

    /// Frees the slot of `index` so the handle no longer resolves and becomes
    /// available for reuse. A handle beyond the storage was never issued by
    /// this arena and is refused; freeing an already dead handle changes
    /// nothing. No other handle changes what it resolves to.
    pub fn remove(&mut self, index: ArenaRef) -> (r: Result<(), ArenaError>)
        requires
            old(self).wf(),
        ensures
            final(self).wf(),
            Self::remove_step(*old(self), *final(self), index, r),
            r is Ok ==> final(self).spec_get(index) is None,
            forall|j: ArenaRef|
                j != index ==> #[trigger] final(self).spec_get(j) == old(self).spec_get(j),
    {
        if index >= self.active_pool.len() {
            Err(ArenaError::IndexOutOfBounds)
        } else {
            let already_dead = self.active_pool[index].is_none();
            if already_dead {
                Ok(())
            } else {
                self.active_pool[index] = None;
                self.inactive_pool.push(index);
                Ok(())
            }
        }
    }
}

/// One evolution step of an arena that cannot revive handle `h`: a `remove`
/// of any handle, or an `add` that returned some handle other than `h`.
pub open spec fn arena_step_avoiding<T>(pre: Arena<T>, post: Arena<T>, h: ArenaRef) -> bool {
    &&& pre.wf()
    &&& {
        ||| exists|index: ArenaRef, r: Result<(), ArenaError>|
            #[trigger] Arena::<T>::remove_step(pre, post, index, r)
        ||| exists|elem: T, r: ArenaRef|
            #[trigger] Arena::<T>::add_step(pre, post, elem, r) && r != h
    }
}

/// Handle stability: once a handle resolves to nothing, it keeps resolving to
/// nothing across every later `remove` and across every `add` that mints a
/// different handle; only a new `add` returning that very handle can make it
/// live again. The chain lists the arena after each successive operation.
pub proof fn lemma_removed_handle_stays_absent<T>(chain: Seq<Arena<T>>, h: ArenaRef)
    requires
        chain.len() >= 1,
        chain[0].spec_get(h) is None,
        forall|i: int|
            0 <= i < chain.len() - 1 ==> #[trigger] arena_step_avoiding(
                chain[i],
                chain[i + 1],
                h,
            ),
    ensures
        forall|i: int| 0 <= i < chain.len() ==> #[trigger] chain[i].spec_get(h) is None,
{
    assert forall|i: int| 0 <= i < chain.len() implies #[trigger] chain[i].spec_get(h)
        is None by {
        lemma_absent_at_link(chain, h, i);
    }
}

/// Induction step for `lemma_removed_handle_stays_absent`: the handle is
/// still absent after the first `i` operations of the chain.
proof fn lemma_absent_at_link<T>(chain: Seq<Arena<T>>, h: ArenaRef, i: int)
    requires
        0 <= i < chain.len(),
        chain[0].spec_get(h) is None,
        forall|k: int|
            0 <= k < chain.len() - 1 ==> #[trigger] arena_step_avoiding(
                chain[k],
                chain[k + 1],
                h,
            ),
    ensures
        chain[i].spec_get(h) is None,
    decreases i,
{
    if i > 0 {
        lemma_absent_at_link(chain, h, i - 1);
        let pre = chain[i - 1];
        let post = chain[i];
        assert(arena_step_avoiding(chain[i - 1], chain[i - 1 + 1], h));
        assert(chain[i - 1 + 1] == chain[i]);
        assert(arena_step_avoiding(pre, post, h));
        if exists|index: ArenaRef, r: Result<(), ArenaError>|
            #[trigger] Arena::<T>::remove_step(pre, post, index, r) {
            let (index, r) = choose|index: ArenaRef, r: Result<(), ArenaError>|
                #[trigger] Arena::<T>::remove_step(pre, post, index, r);
            assert(Arena::<T>::remove_step(pre, post, index, r));
            assert(post.spec_get(h) is None);
        } else {
            let (elem, r) = choose|elem: T, r: ArenaRef|
                #[trigger] Arena::<T>::add_step(pre, post, elem, r) && r != h;
            assert(Arena::<T>::add_step(pre, post, elem, r) && r != h);
            assert(post.spec_get(h) is None);
        }
    }
}

} // verus!
