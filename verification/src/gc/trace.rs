//! The mark and sweep collector.
//!
//! A collection clears every mark bit, marks what can be reached from the
//! roots by walking an explicit stack, and frees every object that was left
//! unmarked. The canonical symbols are roots of every collection.

use vstd::prelude::*;
use crate::gc::block::{Block, Heap, Slot};
use crate::gc::root::RootSet;
use crate::object::data::HeapObject;
use crate::object::handle::addr_of_word;
use crate::object::tag::{Tag, lemma_join_split, word_addr, word_tag};
use crate::object::tagged::{
    Gc, GcObj, Object, RawObj, TaggedPtr, NIL_ADDR, NIL_WORD, TRUE_ADDR, TRUE_WORD,
    lemma_static_words, nil, qtrue,
};

verus! {

/// Whether a word points to the object at `addr`.
pub open spec fn points_at(word: u64, addr: int) -> bool {
    word_tag(word).is_heap() && word_addr(word) as int == addr
}

/// Whether `addr` is where a collection starts: a canonical symbol, or what a
/// root points to.
pub open spec fn is_root(roots: Seq<RawObj>, addr: int) -> bool {
    ||| addr == NIL_ADDR
    ||| addr == TRUE_ADDR
    ||| exists|i: int| 0 <= i < roots.len() && points_at((#[trigger] roots[i]).word(), addr)
}

/// Whether some entry of a trace stack points to the object at `addr`.
pub open spec fn on_stack(stack: Seq<RawObj>, addr: int) -> bool {
    exists|j: int| 0 <= j < stack.len() && points_at((#[trigger] stack[j]).word(), addr)
}

/// The raw forms of a sequence of values.
pub open spec fn raws(values: Seq<GcObj>) -> Seq<RawObj> {
    Seq::new(values.len(), |i: int| RawObj::of(values[i].word()))
}

impl Heap {
    /// Whether the object at `from` holds a pointer to the object at `to`.
    pub open spec fn edge(self, from: int, to: int) -> bool {
        &&& self.is_live(from)
        &&& exists|i: int|
            0 <= i < self.object(from).children().len() && points_at(
                (#[trigger] self.object(from).children()[i]).word(),
                to,
            )
    }

    /// Whether `path` leads from a root along pointers.
    pub open spec fn is_path(self, roots: Seq<RawObj>, path: Seq<int>) -> bool {
        &&& path.len() > 0
        &&& is_root(roots, path[0])
        &&& forall|k: int| 0 <= k < path.len() - 1 ==> self.edge(#[trigger] path[k], path[k + 1])
    }

    /// Whether the object at `addr` can be reached from the roots.
    pub open spec fn reachable(self, roots: Seq<RawObj>, addr: int) -> bool {
        exists|path: Seq<int>| #[trigger] self.is_path(roots, path) && path.last() == addr
    }

    /// Whether every root can be used with this heap.
    pub open spec fn holds_roots(self, roots: Seq<RawObj>) -> bool {
        forall|i: int| 0 <= i < roots.len() ==> self.contains_word((#[trigger] roots[i]).word())
    }

    /// Whether `other` holds the same objects at the same addresses, whatever
    /// their marks.
    pub open spec fn same_objects(self, other: Heap) -> bool {
        &&& self.slots.len() == other.slots.len()
        &&& forall|addr: int|
            0 <= addr < self.slots.len() ==> (#[trigger] self.slots[addr]).object
                == other.slots[addr].object
    }

    /// Whether no slot is marked.
    pub open spec fn unmarked(self) -> bool {
        forall|addr: int| 0 <= addr < self.slots.len() ==> !(#[trigger] self.slots[addr]).marked
    }

    /// This heap with the object at `addr` marked.
    pub open spec fn mark(self, addr: int) -> Heap {
        Heap {
            slots: self.slots.update(
                addr,
                Slot { marked: true, object: self.slots[addr].object },
            ),
        }
    }

    /// The number of living objects below `limit` that are not marked.
    pub open spec fn pending(self, limit: int) -> nat
        decreases limit,
    {
        if limit <= 0 {
            0
        } else {
            let here: nat = if self.is_live(limit - 1) && !self.is_marked(limit - 1) {
                1
            } else {
                0
            };
            self.pending(limit - 1) + here
        }
    }

    /// The number of living objects below `limit` that cannot be reached from
    /// the roots.
    pub open spec fn garbage(self, roots: Seq<RawObj>, limit: int) -> nat
        decreases limit,
    {
        if limit <= 0 {
            0
        } else {
            let here: nat = if self.is_live(limit - 1) && !self.reachable(roots, limit - 1) {
                1
            } else {
                0
            };
            self.garbage(roots, limit - 1) + here
        }
    }

    /// Whether the marks are those of a finished trace from the roots: what
    /// is marked is what can be reached.
    pub open spec fn traced(self, roots: Seq<RawObj>) -> bool {
        forall|addr: int|
            0 <= addr < self.slots.len() ==> ((#[trigger] self.slots[addr]).marked
                <==> self.reachable(roots, addr))
    }

    /// Whether this heap is what a collection from the roots leaves of
    /// `before`: the objects that could be reached, unchanged and unmarked,
    /// and free slots in place of the others.
    pub open spec fn collected_from(self, before: Heap, roots: Seq<RawObj>) -> bool {
        &&& self.slots.len() == before.slots.len()
        &&& forall|addr: int|
            0 <= addr < self.slots.len() ==> (#[trigger] self.slots[addr]) == (if before.reachable(
                roots,
                addr,
            ) {
                Slot { marked: false, object: before.slots[addr].object }
            } else {
                Slot { marked: false, object: None }
            })
    }

    /// What a collection from the roots leaves of this heap: the objects that
    /// can be reached, unchanged and unmarked, and free slots in place of the
    /// others.
    pub open spec fn after_collect(self, roots: Seq<RawObj>) -> Heap {
        Heap {
            slots: Seq::new(
                self.slots.len(),
                |addr: int|
                    if self.reachable(roots, addr) {
                        Slot { marked: false, object: self.slots[addr].object }
                    } else {
                        Slot { marked: false, object: None }
                    },
            ),
        }
    }

    /// What a collection leaves is what `after_collect` says.
    pub proof fn lemma_collected(self, before: Heap, roots: Seq<RawObj>)
        requires
            self.collected_from(before, roots),
        ensures
            self == before.after_collect(roots),
    {
        assert(self.slots =~= before.after_collect(roots).slots);
    }

    /// Whether the marks are closed: the canonical symbols are marked, only
    /// living objects are marked, and what a marked object points to is
    /// marked.
    pub open spec fn marks_closed(self) -> bool {
        &&& self.is_marked(NIL_ADDR as int)
        &&& self.is_marked(TRUE_ADDR as int)
        &&& forall|addr: int|
            0 <= addr < self.slots.len() && (#[trigger] self.slots[addr]).marked ==> self.is_live(
                addr,
            )
        &&& forall|from: int, to: int|
            0 <= from < self.slots.len() && self.slots[from].marked && #[trigger] self.edge(
                from,
                to,
            ) ==> self.is_marked(to)
    }

    /// Whether this heap is what a sweep leaves of `before`: the marked
    /// objects, unchanged and unmarked, and free slots in place of the others.
    pub open spec fn swept_from(self, before: Heap) -> bool {
        &&& self.slots.len() == before.slots.len()
        &&& forall|addr: int|
            0 <= addr < self.slots.len() ==> (#[trigger] self.slots[addr]) == (
            if before.slots[addr].marked {
                Slot { marked: false, object: before.slots[addr].object }
            } else {
                Slot { marked: false, object: None }
            })
    }

    /// The marks of a finished trace are closed.
    pub proof fn lemma_traced_closed(self, roots: Seq<RawObj>)
        requires
            self.wf(),
            self.holds_roots(roots),
            self.traced(roots),
        ensures
            self.marks_closed(),
    {
        self.lemma_root_reachable(roots, NIL_ADDR as int);
        self.lemma_root_reachable(roots, TRUE_ADDR as int);
        assert(self.slots[NIL_ADDR as int].marked);
        assert(self.slots[TRUE_ADDR as int].marked);
        assert forall|addr: int|
            0 <= addr < self.slots.len() && (#[trigger] self.slots[addr]).marked implies self.is_live(
            addr,
        ) by {
            self.lemma_reachable_live(roots, addr);
        }
        assert forall|from: int, to: int|
            0 <= from < self.slots.len() && self.slots[from].marked && #[trigger] self.edge(
                from,
                to,
            ) implies self.is_marked(to) by {
            self.lemma_step_reachable(roots, from, to);
            self.lemma_edge_live(from, to);
            assert(self.slots[to].marked);
        }
    }

    /// Sweeping a well-formed heap whose marks are closed leaves a
    /// well-formed heap.
    pub proof fn lemma_swept_wf(self, before: Heap)
        requires
            before.wf(),
            before.marks_closed(),
            self.swept_from(before),
        ensures
            self.wf(),
    {
        assert(self.slots[NIL_ADDR as int].object == before.slots[NIL_ADDR as int].object);
        assert(self.slots[TRUE_ADDR as int].object == before.slots[TRUE_ADDR as int].object);
        assert forall|addr: int| #[trigger] self.is_live(addr) implies self.admits(
            self.object(addr),
        ) by {
            assert(self.slots[addr].object == before.slots[addr].object);
            assert(before.slots[addr].marked);
            assert(before.is_live(addr));
            assert(before.admits(before.object(addr)));
            let kids = self.object(addr).children();
            assert forall|i: int| 0 <= i < kids.len() implies self.contains(
                #[trigger] kids[i],
            ) by {
                assert(before.contains(kids[i]));
                let word = kids[i].word();
                if word_tag(word).is_heap() {
                    let to = word_addr(word) as int;
                    assert(points_at(before.object(addr).children()[i].word(), to));
                    assert(before.edge(addr, to));
                    assert(before.slots[to].marked);
                    assert(self.slots[to].object == before.slots[to].object);
                }
            }
        }
    }

    /// With the marks of a finished trace, what is left to mark is what
    /// cannot be reached.
    pub proof fn lemma_pending_garbage(self, roots: Seq<RawObj>, limit: int)
        requires
            self.traced(roots),
            0 <= limit <= self.slots.len(),
        ensures
            self.pending(limit) == self.garbage(roots, limit),
        decreases limit,
    {
        if limit > 0 {
            self.lemma_pending_garbage(roots, limit - 1);
            assert(self.slots[limit - 1].marked <==> self.reachable(roots, limit - 1));
        }
    }

    /// Heaps with the same objects have the same number of objects that
    /// cannot be reached.
    pub proof fn lemma_garbage_same(self, other: Heap, roots: Seq<RawObj>, limit: int)
        requires
            self.same_objects(other),
            0 <= limit <= self.slots.len(),
        ensures
            self.garbage(roots, limit) == other.garbage(roots, limit),
        decreases limit,
    {
        if limit > 0 {
            self.lemma_garbage_same(other, roots, limit - 1);
            assert(self.slots[limit - 1].object == other.slots[limit - 1].object);
            if self.reachable(roots, limit - 1) {
                self.lemma_same_reachable(other, roots, limit - 1);
            }
            if other.reachable(roots, limit - 1) {
                other.lemma_same_reachable(self, roots, limit - 1);
            }
        }
    }

    /// A root can be reached.
    pub proof fn lemma_root_reachable(self, roots: Seq<RawObj>, addr: int)
        requires
            is_root(roots, addr),
        ensures
            self.reachable(roots, addr),
    {
        let path = seq![addr];
        assert(self.is_path(roots, path));
        assert(path.last() == addr);
    }

    /// What an object that can be reached points to can be reached.
    pub proof fn lemma_step_reachable(self, roots: Seq<RawObj>, from: int, to: int)
        requires
            self.reachable(roots, from),
            self.edge(from, to),
        ensures
            self.reachable(roots, to),
    {
        let path = choose|path: Seq<int>| #[trigger]
            self.is_path(roots, path) && path.last() == from;
        let longer = path.push(to);
        assert forall|k: int| 0 <= k < longer.len() - 1 implies self.edge(
            #[trigger] longer[k],
            longer[k + 1],
        ) by {
            if k < path.len() - 1 {
                assert(self.edge(path[k], path[k + 1]));
            }
        }
        assert(self.is_path(roots, longer));
        assert(longer.last() == to);
    }

    /// In a well-formed heap that can use its roots, what can be reached is
    /// alive.
    pub proof fn lemma_reachable_live(self, roots: Seq<RawObj>, addr: int)
        requires
            self.wf(),
            self.holds_roots(roots),
            self.reachable(roots, addr),
        ensures
            self.is_live(addr),
    {
        let path = choose|path: Seq<int>| #[trigger]
            self.is_path(roots, path) && path.last() == addr;
        self.lemma_path_live(roots, path, path.len() - 1);
    }

    proof fn lemma_path_live(self, roots: Seq<RawObj>, path: Seq<int>, k: int)
        requires
            self.wf(),
            self.holds_roots(roots),
            self.is_path(roots, path),
            0 <= k < path.len(),
        ensures
            self.is_live(path[k]),
        decreases k,
    {
        if k == 0 {
            if path[0] != NIL_ADDR && path[0] != TRUE_ADDR {
                let i = choose|i: int|
                    0 <= i < roots.len() && points_at((#[trigger] roots[i]).word(), path[0]);
                assert(self.contains_word(roots[i].word()));
            }
        } else {
            self.lemma_path_live(roots, path, k - 1);
            assert(self.edge(path[k - 1], path[k]));
            self.lemma_edge_live(path[k - 1], path[k]);
        }
    }

    /// In a well-formed heap, pointers lead to living objects.
    pub proof fn lemma_edge_live(self, from: int, to: int)
        requires
            self.wf(),
            self.edge(from, to),
        ensures
            self.is_live(to),
    {
        let kids = self.object(from).children();
        let i = choose|i: int|
            0 <= i < kids.len() && points_at((#[trigger] kids[i]).word(), to);
        assert(self.admits(self.object(from)));
        assert(self.contains(kids[i]));
    }

    /// Whether a heap has the same objects, and so the same pointers and the
    /// same paths.
    pub proof fn lemma_same_reachable(self, other: Heap, roots: Seq<RawObj>, addr: int)
        requires
            self.same_objects(other),
            self.reachable(roots, addr),
        ensures
            other.reachable(roots, addr),
    {
        let path = choose|path: Seq<int>| #[trigger]
            self.is_path(roots, path) && path.last() == addr;
        assert forall|k: int| 0 <= k < path.len() - 1 implies other.edge(
            #[trigger] path[k],
            path[k + 1],
        ) by {
            assert(self.edge(path[k], path[k + 1]));
            self.lemma_same_edge(other, path[k], path[k + 1]);
        }
        assert(other.is_path(roots, path));
    }

    pub proof fn lemma_same_edge(self, other: Heap, from: int, to: int)
        requires
            self.same_objects(other),
            self.edge(from, to),
        ensures
            other.edge(from, to),
    {
        assert(self.slots[from].object == other.slots[from].object);
        let kids = self.object(from).children();
        let i = choose|i: int|
            0 <= i < kids.len() && points_at((#[trigger] kids[i]).word(), to);
        assert(points_at(other.object(from).children()[i].word(), to));
    }

    /// A heap with the objects of a well-formed heap is well formed.
    pub proof fn lemma_same_wf(self, other: Heap)
        requires
            self.same_objects(other),
            self.wf(),
        ensures
            other.wf(),
            self.kept_by(other),
            other.kept_by(self),
    {
        assert(self.slots[0].object == other.slots[0].object);
        assert(self.slots[1].object == other.slots[1].object);
        assert forall|addr: int| #[trigger] self.is_live(addr) implies other.is_live(addr)
            && other.object(addr).kind() == self.object(addr).kind() by {
            assert(self.slots[addr].object == other.slots[addr].object);
        }
        assert forall|addr: int| #[trigger] other.is_live(addr) implies self.is_live(addr)
            && self.object(addr).kind() == other.object(addr).kind() by {
            assert(self.slots[addr].object == other.slots[addr].object);
        }
        assert forall|addr: int| #[trigger] other.is_live(addr) implies other.admits(
            other.object(addr),
        ) by {
            assert(self.slots[addr].object == other.slots[addr].object);
            assert(self.is_live(addr));
            let kids = other.object(addr).children();
            assert forall|i: int| 0 <= i < kids.len() implies other.contains(
                #[trigger] kids[i],
            ) by {
                self.lemma_kept(other, kids[i]);
            }
        }
    }

    /// Marking one more object leaves one object less to mark.
    pub proof fn lemma_mark_pending(self, addr: int, limit: int)
        requires
            self.is_live(addr),
            !self.is_marked(addr),
            0 <= limit <= self.slots.len(),
        ensures
            limit <= addr ==> self.mark(addr).pending(limit) == self.pending(limit),
            limit > addr ==> self.mark(addr).pending(limit) + 1 == self.pending(limit),
        decreases limit,
    {
        if limit > 0 {
            self.lemma_mark_pending(addr, limit - 1);
        }
    }

    /// The state of a trace that started from `start` with its marks cleared:
    /// the objects are those of `start`; the stack holds only values that can
    /// be used, and pointers only to what can be reached; what is marked can
    /// be reached; every root, and everything that a marked object points to,
    /// is marked or waits on the stack.
    pub open spec fn tracing(self, start: Heap, roots: Seq<RawObj>, stack: Seq<RawObj>) -> bool {
        &&& start.wf()
        &&& start.holds_roots(roots)
        &&& start.same_objects(self)
        &&& forall|j: int|
            0 <= j < stack.len() ==> start.contains_word((#[trigger] stack[j]).word())
        &&& forall|j: int, addr: int|
            0 <= j < stack.len() && points_at((#[trigger] stack[j]).word(), addr)
                ==> #[trigger] start.reachable(roots, addr)
        &&& forall|addr: int|
            0 <= addr < self.slots.len() && (#[trigger] self.slots[addr]).marked
                ==> start.reachable(roots, addr)
        &&& forall|addr: int| #[trigger]
            is_root(roots, addr) ==> self.is_marked(addr) || on_stack(stack, addr)
        &&& forall|from: int, to: int|
            0 <= from < self.slots.len() && self.slots[from].marked && #[trigger] start.edge(
                from,
                to,
            ) ==> self.is_marked(to) || on_stack(stack, to)
    }

    /// Dropping from the stack an entry that is not a pointer, or that points
    /// to a marked object, keeps the state of a trace.
    pub proof fn lemma_trace_skip(self, start: Heap, roots: Seq<RawObj>, stack: Seq<RawObj>)
        requires
            self.tracing(start, roots, stack),
            stack.len() > 0,
            !word_tag(stack.last().word()).is_heap() || self.is_marked(
                word_addr(stack.last().word()) as int,
            ),
        ensures
            self.tracing(start, roots, stack.drop_last()),
    {
        let rest = stack.drop_last();
        let top = stack.last();
        assert forall|addr: int| on_stack(stack, addr) && !self.is_marked(addr) implies on_stack(
            rest,
            addr,
        ) by {
            let j = choose|j: int|
                0 <= j < stack.len() && points_at((#[trigger] stack[j]).word(), addr);
            assert(j < rest.len());
            assert(rest[j] == stack[j]);
        }
        assert forall|j: int| 0 <= j < rest.len() implies start.contains_word(
            (#[trigger] rest[j]).word(),
        ) by {
            assert(rest[j] == stack[j]);
        }
        assert forall|j: int, addr: int|
            0 <= j < rest.len() && points_at(
                (#[trigger] rest[j]).word(),
                addr,
            ) implies #[trigger] start.reachable(roots, addr) by {
            assert(rest[j] == stack[j]);
        }
    }

    /// Marking the object that the top of the stack points to, and putting
    /// what it holds on the stack in place of the top, keeps the state of a
    /// trace.
    pub proof fn lemma_trace_mark(self, start: Heap, roots: Seq<RawObj>, stack: Seq<RawObj>)
        requires
            self.tracing(start, roots, stack),
            stack.len() > 0,
            word_tag(stack.last().word()).is_heap(),
            !self.is_marked(word_addr(stack.last().word()) as int),
        ensures
            self.mark(word_addr(stack.last().word()) as int).tracing(
                start,
                roots,
                stack.drop_last() + raws(
                    start.object(word_addr(stack.last().word()) as int).children(),
                ),
            ),
    {
        let top = stack.last();
        let target = word_addr(top.word()) as int;
        let rest = stack.drop_last();
        let kids = start.object(target).children();
        let next = rest + raws(kids);
        let after = self.mark(target);
        assert(start.contains_word(top.word()));
        assert(start.is_live(target));
        assert(start.reachable(roots, target)) by {
            assert(points_at(stack[stack.len() - 1].word(), target));
        }
        assert(start.admits(start.object(target)));
        assert(start.same_objects(after)) by {
            assert forall|addr: int| 0 <= addr < start.slots.len() implies (
            #[trigger] start.slots[addr]).object == after.slots[addr].object by {
                assert(start.slots[addr].object == self.slots[addr].object);
            }
        }
        assert forall|j: int| 0 <= j < next.len() implies start.contains_word(
            (#[trigger] next[j]).word(),
        ) by {
            if j < rest.len() {
                assert(next[j] == stack[j]);
            } else {
                let i = j - rest.len();
                RawObj::lemma_of(kids[i].word());
                assert(start.contains(kids[i]));
            }
        }
        assert forall|j: int, addr: int|
            0 <= j < next.len() && points_at(
                (#[trigger] next[j]).word(),
                addr,
            ) implies #[trigger] start.reachable(roots, addr) by {
            if j < rest.len() {
                assert(next[j] == stack[j]);
            } else {
                let i = j - rest.len();
                RawObj::lemma_of(kids[i].word());
                assert(points_at(kids[i].word(), addr));
                assert(start.edge(target, addr));
                start.lemma_step_reachable(roots, target, addr);
            }
        }
        assert forall|addr: int|
            0 <= addr < after.slots.len() && (#[trigger] after.slots[addr]).marked implies start.reachable(
            roots,
            addr,
        ) by {
            if addr != target {
                assert(after.slots[addr] == self.slots[addr]);
            }
        }
        assert forall|addr: int| on_stack(stack, addr) && addr != target implies on_stack(
            next,
            addr,
        ) by {
            let j = choose|j: int|
                0 <= j < stack.len() && points_at((#[trigger] stack[j]).word(), addr);
            assert(j < rest.len());
            assert(next[j] == stack[j]);
        }
        assert(after.is_marked(target));
        assert forall|addr: int| #[trigger] is_root(roots, addr) implies after.is_marked(addr)
            || on_stack(next, addr) by {
            if addr != target {
                if self.is_marked(addr) {
                    assert(0 <= addr < self.slots.len()) by {
                        start.lemma_root_reachable(roots, addr);
                        start.lemma_reachable_live(roots, addr);
                    }
                    assert(after.slots[addr] == self.slots[addr]);
                }
            }
        }
        assert forall|from: int, to: int|
            0 <= from < after.slots.len() && after.slots[from].marked && #[trigger] start.edge(
                from,
                to,
            ) implies after.is_marked(to) || on_stack(next, to) by {
            start.lemma_edge_live(from, to);
            if to != target {
                if from == target {
                    let i = choose|i: int|
                        0 <= i < kids.len() && points_at((#[trigger] kids[i]).word(), to);
                    RawObj::lemma_of(kids[i].word());
                    assert(next[rest.len() + i] == RawObj::of(kids[i].word()));
                    assert(points_at(next[rest.len() + i].word(), to));
                } else {
                    assert(after.slots[from] == self.slots[from]);
                    if self.is_marked(to) {
                        assert(after.slots[to] == self.slots[to]);
                    }
                }
            }
        }
    }

    /// In the state of a trace whose stack is empty, what is marked is what
    /// can be reached.
    pub proof fn lemma_trace_done(self, start: Heap, roots: Seq<RawObj>)
        requires
            self.tracing(start, roots, Seq::<RawObj>::empty()),
        ensures
            self.same_objects(start),
            forall|addr: int|
                0 <= addr < self.slots.len() ==> ((#[trigger] self.slots[addr]).marked
                    <==> start.reachable(roots, addr)),
    {
        assert forall|addr: int| 0 <= addr < self.slots.len() implies ((
        #[trigger] self.slots[addr]).marked <==> start.reachable(roots, addr)) by {
            if start.reachable(roots, addr) {
                let path = choose|path: Seq<int>| #[trigger]
                    start.is_path(roots, path) && path.last() == addr;
                self.lemma_path_marked(start, roots, path, path.len() - 1);
            }
        }
    }

    /// Marks that say what can be reached in a heap with the same objects
    /// are those of a finished trace.
    pub proof fn lemma_traced(self, start: Heap, roots: Seq<RawObj>)
        requires
            self.same_objects(start),
            forall|addr: int|
                0 <= addr < self.slots.len() ==> ((#[trigger] self.slots[addr]).marked
                    <==> start.reachable(roots, addr)),
        ensures
            self.traced(roots),
    {
        assert forall|addr: int| 0 <= addr < self.slots.len() implies ((
        #[trigger] self.slots[addr]).marked <==> self.reachable(roots, addr)) by {
            if self.reachable(roots, addr) {
                self.lemma_same_reachable(start, roots, addr);
            }
            if start.reachable(roots, addr) {
                start.lemma_same_reachable(self, roots, addr);
            }
        }
    }

    proof fn lemma_path_marked(self, start: Heap, roots: Seq<RawObj>, path: Seq<int>, k: int)
        requires
            self.tracing(start, roots, Seq::<RawObj>::empty()),
            start.is_path(roots, path),
            0 <= k < path.len(),
        ensures
            self.is_marked(path[k]),
            0 <= path[k] < self.slots.len(),
        decreases k,
    {
        start.lemma_path_live(roots, path, k);
        if k == 0 {
            assert(is_root(roots, path[0]));
            assert(!on_stack(Seq::<RawObj>::empty(), path[0]));
        } else {
            self.lemma_path_marked(start, roots, path, k - 1);
            assert(start.edge(path[k - 1], path[k]));
            assert(!on_stack(Seq::<RawObj>::empty(), path[k]));
        }
    }
}

/// Puts the raw forms of `values` on the stack, in their order.
fn push_all(values: &Vec<GcObj>, stack: &mut Vec<RawObj>)
    ensures
        final(stack)@ == old(stack)@ + raws(values@),
{
    let mut i: usize = 0;
    while i < values.len()
        invariant
            i <= values@.len(),
            stack@ == old(stack)@ + raws(values@.subrange(0, i as int)),
        decreases values@.len() - i,
    {
        stack.push(values[i].into_raw());
        proof {
            let before = old(stack)@ + raws(values@.subrange(0, i as int));
            let after = old(stack)@ + raws(values@.subrange(0, i + 1));
            assert(stack@ =~= after) by {
                assert(stack@ == before.push(RawObj::of(values@[i as int].word())));
            }
        }
        i += 1;
    }
    proof {
        assert(values@.subrange(0, values@.len() as int) =~= values@);
    }
}

/// Puts the value of a cell on the stack, where the cell holds one.
fn push_cell(cell: &Option<GcObj>, stack: &mut Vec<RawObj>)
    ensures
        final(stack)@ == old(stack)@ + raws(
            match *cell {
                Some(value) => seq![value],
                None => Seq::<GcObj>::empty(),
            },
        ),
{
    match cell {
        Some(value) => {
            stack.push(value.into_raw());
            assert(stack@ =~= old(stack)@ + raws(seq![*value]));
        },
        None => {
            assert(stack@ =~= old(stack)@ + raws(Seq::<GcObj>::empty()));
        },
    }
}

/// Puts on the stack every value that `object` holds directly.
fn push_children(object: &HeapObject, stack: &mut Vec<RawObj>)
    ensures
        final(stack)@ == old(stack)@ + raws(object.children()),
{
    match object {
        HeapObject::Cons(cons) => {
            stack.push(cons.car.into_raw());
            stack.push(cons.cdr.into_raw());
            assert(stack@ =~= old(stack)@ + raws(object.children()));
        },
        HeapObject::Float(_) => {
            assert(stack@ =~= old(stack)@ + raws(object.children()));
        },
        HeapObject::String(_) => {
            assert(stack@ =~= old(stack)@ + raws(object.children()));
        },
        HeapObject::Vec(vec) => push_all(&vec.items, stack),
        HeapObject::Record(vec) => push_all(&vec.items, stack),
        HeapObject::HashTable(hash) => {
            push_all(&hash.table.keys, stack);
            push_all(&hash.table.values, stack);
            assert(stack@ =~= old(stack)@ + raws(object.children()));
        },
        HeapObject::Symbol(symbol) => {
            push_cell(&symbol.value, stack);
            push_cell(&symbol.func, stack);
            assert(stack@ =~= old(stack)@ + raws(object.children()));
        },
        HeapObject::ByteFn(func) => push_all(&func.body.constants, stack),
    }
}

impl Gc<Object> {
    /// Whether the value points to an object that a trace can mark.
    pub open spec fn markable(self) -> bool {
        word_tag(self.word()).is_heap()
    }

    /// Whether the value points to an object that a trace can mark: it is
    /// neither an integer nor a built-in function.
    pub fn is_markable(self) -> (yes: bool)
        ensures
            yes == self.markable(),
    {
        !matches!(self.untag(), Object::Int(_) | Object::SubrFn(_))
    }

    /// Whether a trace has nothing left to do for the value: it points to a
    /// marked object, or to none.
    pub fn is_marked<const CONST: bool>(self, block: &Block<CONST>) -> (yes: bool)
        requires
            block@.contains(self),
        ensures
            yes == (!self.markable() || block@.is_marked(word_addr(self.word()) as int)),
    {
        match self.tag() {
            Tag::Int | Tag::SubrFn => true,
            _ => block.marked_at(addr_of_word(self.into_ptr())),
        }
    }

    /// Marks the object that the value points to, and puts on the stack every
    /// value that the object holds. Does nothing for a value that points to
    /// no object.
    pub fn trace_mark(self, block: &mut Block<false>, stack: &mut Vec<RawObj>)
        requires
            old(block)@.contains(self),
        ensures
            !self.markable() ==> final(block)@ == old(block)@ && final(stack)@ == old(stack)@,
            self.markable() ==> final(block)@ == old(block)@.mark(word_addr(self.word()) as int)
                && final(stack)@ == old(stack)@ + raws(
                old(block)@.referent(self.word()).children(),
            ),
    {
        match self.tag() {
            Tag::Int | Tag::SubrFn => {},
            _ => {
                let addr = addr_of_word(self.into_ptr());
                block.set_mark(addr, true);
                proof {
                    assert(block@.slots =~= old(block)@.mark(addr as int).slots);
                }
                push_children(block.get(addr), stack);
            },
        }
    }
}

impl Block<false> {
    /// Clears every mark bit.
    fn clear_marks(&mut self)
        ensures
            final(self)@.same_objects(old(self)@),
            final(self)@.unmarked(),
    {
        let mut addr: usize = 0;
        while addr < self.len()
            invariant
                self@.same_objects(old(self)@),
                addr <= self@.slots.len(),
                forall|a: int| 0 <= a < addr ==> !(#[trigger] self@.slots[a]).marked,
            decreases self@.slots.len() - addr,
        {
            self.unmark(addr);
            addr += 1;
        }
    }

    /// Marks every object that can be reached from the roots, and no other.
    pub fn mark_from(&mut self, roots: &RootSet)
        requires
            old(self)@.wf(),
            old(self)@.holds_roots(roots@),
        ensures
            final(self)@.wf(),
            final(self)@.same_objects(old(self)@),
            final(self)@.traced(roots@),
            forall|addr: int|
                0 <= addr < final(self)@.slots.len() ==> (
                    (#[trigger] final(self)@.slots[addr]).marked
                        <==> old(self)@.reachable(roots@, addr)),
    {
        self.clear_marks();
        let ghost start = self@;
        proof {
            old(self)@.lemma_same_wf(start);
            assert(start.holds_roots(roots@)) by {
                assert forall|i: int| 0 <= i < roots@.len() implies start.contains_word(
                    (#[trigger] roots@[i]).word(),
                ) by {
                    old(self)@.lemma_kept_word(start, roots@[i].word());
                }
            }
        }
        let mut stack: Vec<RawObj> = Vec::new();
        stack.push(nil().into_raw());
        stack.push(qtrue().into_raw());
        let mut i: usize = 0;
        while i < roots.len()
            invariant
                i <= roots@.len(),
                stack@.len() == 2 + i,
                stack@[0].word() == NIL_WORD,
                stack@[1].word() == TRUE_WORD,
                forall|j: int| 0 <= j < i ==> #[trigger] stack@[j + 2] == roots@[j],
            decreases roots@.len() - i,
        {
            stack.push(roots.raw(i));
            i += 1;
        }
        proof {
            start.lemma_canonical();
            lemma_static_words();
            lemma_join_split(NIL_ADDR, Tag::Symbol);
            lemma_join_split(TRUE_ADDR, Tag::Symbol);
            assert(points_at(stack@[0].word(), NIL_ADDR as int));
            assert(points_at(stack@[1].word(), TRUE_ADDR as int));
            assert forall|j: int| 0 <= j < stack@.len() implies start.contains_word(
                (#[trigger] stack@[j]).word(),
            ) by {
                if j >= 2 {
                    assert(stack@[(j - 2) + 2] == roots@[j - 2]);
                }
            }
            assert forall|addr: int| #[trigger] is_root(roots@, addr) implies on_stack(
                stack@,
                addr,
            ) by {
                if addr != NIL_ADDR && addr != TRUE_ADDR {
                    let k = choose|k: int|
                        0 <= k < roots@.len() && points_at((#[trigger] roots@[k]).word(), addr);
                    assert(stack@[k + 2] == roots@[k]);
                }
            }
            assert forall|j: int, addr: int|
                0 <= j < stack@.len() && points_at(
                    (#[trigger] stack@[j]).word(),
                    addr,
                ) implies #[trigger] start.reachable(roots@, addr) by {
                if j >= 2 {
                    assert(stack@[(j - 2) + 2] == roots@[j - 2]);
                }
                assert(is_root(roots@, addr));
                start.lemma_root_reachable(roots@, addr);
            }
            assert(self@.tracing(start, roots@, stack@));
        }
        while stack.len() > 0
            invariant
                self@.tracing(start, roots@, stack@),
            decreases self@.pending(self@.slots.len() as int), stack@.len(),
        {
            let ghost before = self@;
            let ghost waiting = stack@;
            let top = stack.pop().unwrap();
            let value: GcObj = Gc::from_raw(top);
            proof {
                assert(stack@ == waiting.drop_last());
                assert(top == waiting.last());
                assert(start.contains_word(waiting[waiting.len() - 1].word()));
                start.lemma_same_wf(before);
                start.lemma_kept(before, value);
            }
            if value.is_marked(self) {
                proof {
                    before.lemma_trace_skip(start, roots@, waiting);
                }
            } else {
                value.trace_mark(self, &mut stack);
                proof {
                    let target = word_addr(top.word()) as int;
                    assert(before.slots[target].object == start.slots[target].object);
                    before.lemma_trace_mark(start, roots@, waiting);
                    before.lemma_mark_pending(target, before.slots.len() as int);
                }
            }
        }
        proof {
            self@.lemma_trace_done(start, roots@);
            self@.lemma_traced(start, roots@);
            start.lemma_same_wf(self@);
            assert forall|addr: int| 0 <= addr < self@.slots.len() implies ((
            #[trigger] self@.slots[addr]).marked <==> old(self)@.reachable(roots@, addr)) by {
                if start.reachable(roots@, addr) {
                    start.lemma_same_reachable(old(self)@, roots@, addr);
                }
                if old(self)@.reachable(roots@, addr) {
                    old(self)@.lemma_same_reachable(start, roots@, addr);
                }
            }
        }
    }

    /// Frees every object that is not marked, and clears every mark bit.
    /// Returns the number of objects that were freed.
    pub fn sweep(&mut self) -> (freed: usize)
        requires
            old(self)@.wf(),
            old(self)@.marks_closed(),
        ensures
            final(self)@.wf(),
            final(self)@.swept_from(old(self)@),
            freed == old(self)@.pending(old(self)@.slots.len() as int),
    {
        let mut freed: usize = 0;
        let mut addr: usize = 0;
        while addr < self.len()
            invariant
                self@.slots.len() == old(self)@.slots.len(),
                addr <= self@.slots.len(),
                freed == old(self)@.pending(addr as int),
                freed <= addr,
                forall|a: int|
                    addr <= a < self@.slots.len() ==> #[trigger] self@.slots[a] == old(self)@.slots[a],
                forall|a: int|
                    0 <= a < addr ==> (#[trigger] self@.slots[a]) == (if old(self)@.slots[a].marked {
                        Slot { marked: false, object: old(self)@.slots[a].object }
                    } else {
                        Slot { marked: false, object: None }
                    }),
            decreases self@.slots.len() - addr,
        {
            let ghost here = self@.slots[addr as int];
            assert(here == old(self)@.slots[addr as int]);
            if self.is_marked_at(addr) {
                self.unmark(addr);
            } else {
                if self.is_live_at(addr as u64) {
                    freed += 1;
                }
                self.release(addr as u64);
            }
            addr += 1;
        }
        proof {
            self@.lemma_swept_wf(old(self)@);
        }
        freed
    }

    /// Collects the garbage: frees every object that cannot be reached from
    /// the roots, and keeps every other as it is. Returns the number of
    /// objects that were freed.
    pub fn collect(&mut self, roots: &RootSet) -> (freed: usize)
        requires
            old(self)@.wf(),
            old(self)@.holds_roots(roots@),
        ensures
            final(self)@.wf(),
            final(self)@.holds_roots(roots@),
            final(self)@.collected_from(old(self)@, roots@),
            final(self)@ == old(self)@.after_collect(roots@),
            freed == old(self)@.garbage(roots@, old(self)@.slots.len() as int),
    {
        self.mark_from(roots);
        let ghost marked = self@;
        proof {
            assert(marked.holds_roots(roots@)) by {
                old(self)@.lemma_same_wf(marked);
                assert forall|i: int| 0 <= i < roots@.len() implies marked.contains_word(
                    (#[trigger] roots@[i]).word(),
                ) by {
                    old(self)@.lemma_kept_word(marked, roots@[i].word());
                }
            }
            marked.lemma_traced_closed(roots@);
            marked.lemma_pending_garbage(roots@, marked.slots.len() as int);
            marked.lemma_garbage_same(old(self)@, roots@, marked.slots.len() as int);
        }
        let freed = self.sweep();
        proof {
            assert forall|addr: int| 0 <= addr < self@.slots.len() implies (
            #[trigger] self@.slots[addr]) == (if old(self)@.reachable(roots@, addr) {
                Slot { marked: false, object: old(self)@.slots[addr].object }
            } else {
                Slot { marked: false, object: None }
            }) by {
                assert(marked.slots[addr].marked <==> old(self)@.reachable(roots@, addr));
                assert(marked.slots[addr].object == old(self)@.slots[addr].object);
            }
            assert forall|i: int| 0 <= i < roots@.len() implies self@.contains_word(
                (#[trigger] roots@[i]).word(),
            ) by {
                let word = roots@[i].word();
                assert(marked.contains_word(word));
                if word_tag(word).is_heap() {
                    let to = word_addr(word) as int;
                    assert(points_at(roots@[i].word(), to));
                    assert(is_root(roots@, to));
                    marked.lemma_root_reachable(roots@, to);
                    assert(marked.slots[to].marked);
                }
            }
            self@.lemma_collected(old(self)@, roots@);
        }
        freed
    }
}

impl Heap {
    /// Every object on a path from a root can be reached.
    proof fn lemma_path_reachable(self, roots: Seq<RawObj>, path: Seq<int>, k: int)
        requires
            self.is_path(roots, path),
            0 <= k < path.len(),
        ensures
            self.reachable(roots, path[k]),
        decreases k,
    {
        if k == 0 {
            self.lemma_root_reachable(roots, path[0]);
        } else {
            self.lemma_path_reachable(roots, path, k - 1);
            assert(self.edge(path[k - 1], path[k]));
            self.lemma_step_reachable(roots, path[k - 1], path[k]);
        }
    }

    /// What can be reached before a collection can be reached after it.
    proof fn lemma_reachable_kept(self, roots: Seq<RawObj>, addr: int)
        requires
            self.wf(),
            self.holds_roots(roots),
            self.reachable(roots, addr),
        ensures
            self.after_collect(roots).reachable(roots, addr),
    {
        let after = self.after_collect(roots);
        let path = choose|path: Seq<int>| #[trigger]
            self.is_path(roots, path) && path.last() == addr;
        assert forall|k: int| 0 <= k < path.len() - 1 implies after.edge(
            #[trigger] path[k],
            path[k + 1],
        ) by {
            let from = path[k];
            assert(self.edge(from, path[k + 1]));
            self.lemma_path_reachable(roots, path, k);
            assert(after.slots[from].object == self.slots[from].object);
            let kids = self.object(from).children();
            let i = choose|i: int|
                0 <= i < kids.len() && points_at((#[trigger] kids[i]).word(), path[k + 1]);
            assert(points_at(after.object(from).children()[i].word(), path[k + 1]));
        }
        assert(after.is_path(roots, path));
    }

    /// Nothing that a collection leaves is out of reach.
    proof fn lemma_no_garbage_left(self, roots: Seq<RawObj>, limit: int)
        requires
            self.wf(),
            self.holds_roots(roots),
            0 <= limit <= self.slots.len(),
        ensures
            self.after_collect(roots).garbage(roots, limit) == 0,
        decreases limit,
    {
        if limit > 0 {
            self.lemma_no_garbage_left(roots, limit - 1);
            let after = self.after_collect(roots);
            if after.is_live(limit - 1) {
                assert(self.reachable(roots, limit - 1));
                self.lemma_reachable_kept(roots, limit - 1);
            }
        }
    }
}

/// A collection that follows another from the same roots frees nothing:
/// every object is freed at most once.
pub proof fn law_collect_once(heap: Heap, roots: Seq<RawObj>)
    requires
        heap.wf(),
        heap.holds_roots(roots),
    ensures
        heap.after_collect(roots).garbage(roots, heap.slots.len() as int) == 0,
        heap.after_collect(roots).after_collect(roots) == heap.after_collect(roots),
{
    heap.lemma_no_garbage_left(roots, heap.slots.len() as int);
    let after = heap.after_collect(roots);
    assert forall|addr: int| 0 <= addr < after.slots.len() implies (
    #[trigger] after.after_collect(roots).slots[addr]) == after.slots[addr] by {
        if heap.reachable(roots, addr) {
            heap.lemma_reachable_kept(roots, addr);
        }
    }
    assert(after.after_collect(roots).slots =~= after.slots);
}

/// Two objects that point at each other are both kept by a collection where
/// one of them is a root, each as it was.
pub proof fn law_cycle_kept(heap: Heap, roots: Seq<RawObj>, a: int, b: int)
    requires
        heap.wf(),
        heap.holds_roots(roots),
        heap.edge(a, b),
        heap.edge(b, a),
        is_root(roots, a),
    ensures
        heap.after_collect(roots).is_live(a),
        heap.after_collect(roots).is_live(b),
        heap.after_collect(roots).object(a) == heap.object(a),
        heap.after_collect(roots).object(b) == heap.object(b),
{
    heap.lemma_root_reachable(roots, a);
    heap.lemma_step_reachable(roots, a, b);
    heap.lemma_reachable_live(roots, b);
}

/// Two objects that point at each other are both freed by a collection
/// where one of them is out of reach.
pub proof fn law_cycle_freed(heap: Heap, roots: Seq<RawObj>, a: int, b: int)
    requires
        heap.wf(),
        heap.holds_roots(roots),
        heap.edge(a, b),
        heap.edge(b, a),
        !heap.reachable(roots, a),
    ensures
        !heap.after_collect(roots).is_live(a),
        !heap.after_collect(roots).is_live(b),
{
    if heap.reachable(roots, b) {
        heap.lemma_step_reachable(roots, b, a);
    }
}

} // verus!
