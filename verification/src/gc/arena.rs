//! An arena: a block that collects its garbage when it has grown enough.

use vstd::prelude::*;
use crate::gc::block::{Block, Heap};
use crate::gc::root::RootSet;
use crate::gc::trace::points_at;
use crate::object::data::HeapObject;
use crate::object::tag::{word_addr, word_tag};
use crate::object::tagged::{GcObj, RawObj};

verus! {

/// A block of objects that can be changed, with a count of the objects that
/// were allocated since garbage was last collected. An allocation that finds
/// the count at the limit collects before it allocates.
#[derive(Debug)]
pub struct Arena {
    block: Block<false>,
    used: usize,
    limit: usize,
}

impl View for Arena {
    type V = Heap;

    closed spec fn view(&self) -> Heap {
        self.block@
    }
}

/// Whether every pointer that `object` holds leads to an object that can be
/// reached from the roots, so that a collection frees none of them.
pub open spec fn rooted(heap: Heap, roots: Seq<RawObj>, object: HeapObject) -> bool {
    forall|i: int, addr: int|
        0 <= i < object.children().len() && points_at(
            (#[trigger] object.children()[i]).word(),
            addr,
        ) ==> #[trigger] heap.reachable(roots, addr)
}

impl Arena {
    /// The number of objects that were allocated since garbage was last
    /// collected.
    pub closed spec fn used(&self) -> usize {
        self.used
    }

    /// The number of allocations after which a collection is due.
    pub closed spec fn limit(&self) -> usize {
        self.limit
    }

    /// Whether the next allocation collects first.
    pub open spec fn due(&self) -> bool {
        self.used() >= self.limit()
    }

    /// What the arena holds before an allocation puts its object in: what
    /// is left after a collection where one is due, and else all of it.
    pub open spec fn settled(&self, roots: Seq<RawObj>) -> Heap {
        if self.due() {
            self@.after_collect(roots)
        } else {
            self@
        }
    }

    /// An arena that collects once `limit` objects have been allocated.
    pub fn new(limit: usize) -> (arena: Arena)
        ensures
            arena@.wf(),
            arena@.slots.len() == 2,
            arena.used() == 0,
            arena.limit() == limit,
    {
        Arena { block: Block::new(), used: 0, limit }
    }

    /// The block of the arena, to read from.
    pub fn block(&self) -> (block: &Block<false>)
        ensures
            block@ == self@,
    {
        &self.block
    }

    /// The block of the arena, to change what it holds.
    pub fn block_mut(&mut self) -> (block: &mut Block<false>)
        ensures
            block@ == old(self)@,
            final(self)@ == final(block)@,
            final(self).used() == old(self).used(),
            final(self).limit() == old(self).limit(),
    {
        &mut self.block
    }

    /// Whether the next allocation collects first.
    pub fn is_due(&self) -> (due: bool)
        ensures
            due == self.due(),
    {
        self.used >= self.limit
    }

    /// Collects the garbage: frees every object that cannot be reached from
    /// the roots, and keeps every other as it is. Returns the number of
    /// objects that were freed.
    pub fn collect(&mut self, roots: &RootSet) -> (freed: usize)
        requires
            old(self)@.wf(),
            old(self)@.holds_roots(roots@),
        ensures
            final(self)@.wf(),
            final(self)@.holds_roots(roots@),
            final(self)@ == old(self)@.after_collect(roots@),
            freed == old(self)@.garbage(roots@, old(self)@.slots.len() as int),
            final(self).used() == 0,
            final(self).limit() == old(self).limit(),
    {
        let freed = self.block.collect(roots);
        proof {
            self@.lemma_collected(old(self)@, roots@);
        }
        self.used = 0;
        freed
    }

    /// Allocates `object` and returns the value that points to it. Where a
    /// collection is due, garbage is collected first: what the roots do not
    /// lead to is freed.
    pub fn alloc_obj(&mut self, object: HeapObject, roots: &RootSet) -> (value: GcObj)
        requires
            old(self)@.wf(),
            old(self)@.holds_roots(roots@),
            old(self)@.has_room(),
            old(self)@.admits(object),
            rooted(old(self)@, roots@, object),
        ensures
            final(self)@.wf(),
            final(self)@.holds_roots(roots@),
            final(self)@.contains(value),
            old(self).settled(roots@).allocated(final(self)@, value.word(), object),
            final(self).limit() == old(self).limit(),
            final(self).used() == (if old(self).due() {
                1
            } else if old(self).used() < usize::MAX {
                old(self).used() + 1
            } else {
                old(self).used() as int
            }),
    {
        if self.is_due() {
            let ghost before = self@;
            self.collect(roots);
            proof {
                let after = self@;
                assert forall|i: int| 0 <= i < object.children().len() implies after.contains(
                    #[trigger] object.children()[i],
                ) by {
                    let word = object.children()[i].word();
                    assert(before.contains(object.children()[i]));
                    if word_tag(word).is_heap() {
                        assert(points_at(word, word_addr(word) as int));
                        assert(before.reachable(roots@, word_addr(word) as int));
                    }
                }
            }
        }
        let ghost mid = self@;
        let value = self.block.add(object);
        if self.used < usize::MAX {
            self.used = self.used + 1;
        }
        proof {
            assert forall|i: int| 0 <= i < roots@.len() implies self@.contains_word(
                (#[trigger] roots@[i]).word(),
            ) by {
                assert(mid.contains_word(roots@[i].word()));
                let word = roots@[i].word();
                if word_tag(word).is_heap() {
                    assert(mid.is_live(word_addr(word) as int));
                }
            }
        }
        value
    }
}

} // verus!
