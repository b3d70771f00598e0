//! A block: the arena that owns heap objects.
//!
//! A block is a sequence of slots. A slot is free, or holds one object and its
//! mark bit. The address of an object is the index of its slot, and stays the
//! same for as long as the object lives. The first two slots hold the
//! canonical symbols `nil` and `t`, in every block.

use vstd::prelude::*;
use vstd::pervasive::unreached;
use crate::object::data::{Cons, HeapObject, LispFloat, LispHashTable, LispString, LispVec, Symbol};
use crate::object::func::LispFn;
use crate::object::handle::{
    ByteFnRef, ConsRef, FloatRef, HashTableRef, RecordRef, StringRef, SymbolRef, VecRef,
    addr_of_word,
};
use crate::object::tag::{Tag, ADDR_LIMIT, lemma_join_split, valid_word, word_addr, word_tag};
use crate::object::tagged::{
    Gc, GcObj, List, NIL_ADDR, NIL_WORD, TRUE_ADDR, TRUE_WORD, TaggedPtr, lemma_static_words, nil,
    qtrue,
};

verus! {

/// One place in a block.
#[derive(Debug)]
pub struct Slot {
    /// The mark bit of the object. Clear in a free slot.
    pub marked: bool,
    /// The object, or `None` where the slot is free.
    pub object: Option<HeapObject>,
}

/// An arena of heap objects. Objects in a block with `CONST` set are never
/// changed once they are allocated.
#[derive(Debug)]
pub struct Block<const CONST: bool> {
    slots: Vec<Slot>,
}

/// Whether `object` is the canonical symbol of that name, whose value is
/// itself.
pub open spec fn is_canonical(object: HeapObject, name: Seq<char>, word: u64) -> bool {
    &&& object matches HeapObject::Symbol(symbol)
    &&& symbol.name@ == name
    &&& symbol.value matches Some(value)
    &&& value.word() == word
    &&& symbol.func is None
}

/// What a block holds: its slots, by address.
pub struct Heap {
    pub slots: Seq<Slot>,
}

impl Heap {
    /// The number of slots, free ones included.
    pub open spec fn len(self) -> nat {
        self.slots.len()
    }

    /// Whether an object lives at `addr`.
    pub open spec fn is_live(self, addr: int) -> bool {
        0 <= addr < self.slots.len() && self.slots[addr].object is Some
    }

    /// The object at `addr`.
    pub open spec fn object(self, addr: int) -> HeapObject {
        self.slots[addr].object->Some_0
    }

    /// The mark bit of the object at `addr`.
    pub open spec fn is_marked(self, addr: int) -> bool {
        self.slots[addr].marked
    }

    /// Whether an object of that kind lives at `addr`.
    pub open spec fn holds(self, addr: int, kind: Tag) -> bool {
        self.is_live(addr) && self.object(addr).kind() == kind
    }

    /// Whether a word can be used with this heap: it is valid, and it holds
    /// an integer or a built-in function, or points to a living object of its
    /// kind.
    pub open spec fn contains_word(self, word: u64) -> bool {
        &&& valid_word(word)
        &&& word_tag(word).is_heap() ==> self.holds(word_addr(word) as int, word_tag(word))
    }

    /// Whether `value` can be used with this heap.
    pub open spec fn contains(self, value: GcObj) -> bool {
        self.contains_word(value.word())
    }

    /// Whether a typed view can be used with this heap.
    pub open spec fn has<T: TaggedPtr>(self, view: T) -> bool {
        self.contains_word(view.to_word())
    }

    /// The object that a pointer word points to.
    pub open spec fn referent(self, word: u64) -> HeapObject {
        self.object(word_addr(word) as int)
    }

    /// Whether every value of a sequence can be used with this heap.
    pub open spec fn contains_all(self, values: Seq<GcObj>) -> bool {
        forall|i: int| 0 <= i < values.len() ==> self.contains(#[trigger] values[i])
    }

    /// Whether `object` is well formed and holds only values that can be used
    /// with this heap.
    pub open spec fn admits(self, object: HeapObject) -> bool {
        object.wf() && self.contains_all(object.children())
    }

    /// The invariant of a block: the canonical symbols are in their places,
    /// and no living object points to a free slot or to an object of another
    /// kind than the pointer says.
    pub open spec fn wf(self) -> bool {
        &&& 2 <= self.slots.len() <= ADDR_LIMIT
        &&& self.is_live(NIL_ADDR as int)
        &&& is_canonical(self.object(NIL_ADDR as int), "nil"@, NIL_WORD)
        &&& self.is_live(TRUE_ADDR as int)
        &&& is_canonical(self.object(TRUE_ADDR as int), "t"@, TRUE_WORD)
        &&& forall|addr: int| #[trigger] self.is_live(addr) ==> self.admits(self.object(addr))
    }

    /// Whether another object can be allocated.
    pub open spec fn has_room(self) -> bool {
        self.slots.len() < ADDR_LIMIT
    }

    /// Whether `after` holds every object that lives in this heap, of the
    /// same kind and at the same address.
    pub open spec fn kept_by(self, after: Heap) -> bool {
        forall|addr: int| #[trigger]
            self.is_live(addr) ==> after.is_live(addr) && after.object(addr).kind()
                == self.object(addr).kind()
    }

    /// Whether `after` holds every object that lives in this heap, unchanged
    /// and with the same mark.
    pub open spec fn preserved_by(self, after: Heap) -> bool {
        forall|addr: int| #[trigger]
            self.is_live(addr) ==> after.is_live(addr) && after.slots[addr] == self.slots[addr]
    }

    /// Whether `after` is this heap with `object` newly placed where `word`
    /// points, unmarked, and nothing else changed.
    pub open spec fn allocated(self, after: Heap, word: u64, object: HeapObject) -> bool {
        let addr = word_addr(word) as int;
        &&& valid_word(word)
        &&& word_tag(word) == object.kind()
        &&& addr == self.slots.len()
        &&& after.slots.len() == self.slots.len() + 1
        &&& !self.is_live(addr)
        &&& after.is_live(addr)
        &&& after.object(addr) == object
        &&& !after.is_marked(addr)
        &&& self.preserved_by(after)
        &&& forall|other: int|
            other != addr ==> (#[trigger] after.is_live(other) <==> self.is_live(other))
    }

    /// What can be used with a heap can be used with one that keeps its
    /// objects.
    pub proof fn lemma_kept(self, after: Heap, value: GcObj)
        requires
            self.kept_by(after),
            self.contains(value),
        ensures
            after.contains(value),
    {
        self.lemma_kept_word(after, value.word());
    }

    /// A word that can be used with a heap can be used with one that keeps
    /// its objects.
    pub proof fn lemma_kept_word(self, after: Heap, word: u64)
        requires
            self.kept_by(after),
            self.contains_word(word),
        ensures
            after.contains_word(word),
    {
        if word_tag(word).is_heap() {
            assert(self.is_live(word_addr(word) as int));
        }
    }

    /// The canonical symbols can be used with every well-formed heap.
    pub proof fn lemma_canonical(self)
        requires
            self.wf(),
        ensures
            self.contains_word(NIL_WORD),
            self.contains_word(TRUE_WORD),
    {
        lemma_static_words();
        lemma_join_split(NIL_ADDR, Tag::Symbol);
        lemma_join_split(TRUE_ADDR, Tag::Symbol);
    }

    /// A heap that differs from a well-formed one in one place, where an
    /// object of the same kind stands that the heap admits, is well formed.
    pub proof fn lemma_changed_object(self, after: Heap, addr: int)
        requires
            self.wf(),
            after.slots.len() == self.slots.len(),
            2 <= addr,
            self.is_live(addr),
            after.is_live(addr),
            after.object(addr).kind() == self.object(addr).kind(),
            self.admits(after.object(addr)),
            forall|other: int|
                0 <= other < self.slots.len() && other != addr ==> #[trigger] after.slots[other]
                    == self.slots[other],
        ensures
            after.wf(),
            self.kept_by(after),
    {
        assert(after.slots[0] == self.slots[0]);
        assert(after.slots[1] == self.slots[1]);
        assert forall|a: int| #[trigger] self.is_live(a) implies after.is_live(a)
            && after.object(a).kind() == self.object(a).kind() by {
            if a != addr {
                assert(after.slots[a] == self.slots[a]);
            }
        }
        assert forall|a: int| #[trigger] after.is_live(a) implies after.admits(
            after.object(a),
        ) by {
            if a != addr {
                assert(after.slots[a] == self.slots[a]);
                assert(self.is_live(a));
            }
            let kids = after.object(a).children();
            assert forall|i: int| 0 <= i < kids.len() implies after.contains(
                #[trigger] kids[i],
            ) by {
                self.lemma_kept(after, kids[i]);
            }
        }
    }
}

impl<const CONST: bool> View for Block<CONST> {
    type V = Heap;

    closed spec fn view(&self) -> Heap {
        Heap { slots: self.slots@ }
    }
}

impl<const CONST: bool> Block<CONST> {
    /// The block that holds the canonical symbols and nothing else.
    pub fn new() -> (block: Self)
        ensures
            block@.wf(),
            block@.len() == 2,
            !block@.is_marked(0),
            !block@.is_marked(1),
    {
        let mut nil_symbol = Symbol::new("nil");
        nil_symbol.value = Some(nil());
        let mut true_symbol = Symbol::new("t");
        true_symbol.value = Some(qtrue());
        let mut slots: Vec<Slot> = Vec::new();
        slots.push(Slot { marked: false, object: Some(HeapObject::Symbol(nil_symbol)) });
        slots.push(Slot { marked: false, object: Some(HeapObject::Symbol(true_symbol)) });
        let block = Block { slots };
        proof {
            lemma_static_words();
            lemma_join_split(NIL_ADDR, Tag::Symbol);
            lemma_join_split(TRUE_ADDR, Tag::Symbol);
            assert forall|addr: int| #[trigger] block@.is_live(addr) implies block@.admits(
                block@.object(addr),
            ) by {
                let kids = block@.object(addr).children();
                assert forall|i: int| 0 <= i < kids.len() implies block@.contains(
                    #[trigger] kids[i],
                ) by {
                    if addr == 0 {
                        assert(kids[i].word() == NIL_WORD);
                        assert(block@.is_live(0));
                    } else {
                        assert(kids[i].word() == TRUE_WORD);
                        assert(block@.is_live(1));
                    }
                }
            }
        }
        block
    }

    /// The number of slots, free ones included.
    pub fn len(&self) -> (len: usize)
        ensures
            len == self@.len(),
    {
        self.slots.len()
    }

    /// The index of the slot at `addr`.
    fn index_of(&self, addr: u64) -> (index: usize)
        requires
            addr < self@.len(),
        ensures
            index == addr,
    {
        let len = self.slots.len();
        assert(addr < len);
        addr as usize
    }

    /// Whether an object lives at `addr`.
    pub fn is_live_at(&self, addr: u64) -> (live: bool)
        ensures
            live == self@.is_live(addr as int),
    {
        if addr < self.slots.len() as u64 {
            self.slots[self.index_of(addr)].object.is_some()
        } else {
            false
        }
    }

    /// Whether `value` can be used with this block.
    pub fn check(&self, value: GcObj) -> (ok: bool)
        ensures
            ok == self@.contains(value),
    {
        let word = value.into_ptr();
        let tag = value.tag();
        match tag {
            Tag::Int | Tag::SubrFn => true,
            _ => {
                let addr = addr_of_word(word);
                if addr < self.slots.len() as u64 {
                    match &self.slots[self.index_of(addr)].object {
                        Some(object) => object.tag().to_u8() == tag.to_u8(),
                        None => false,
                    }
                } else {
                    false
                }
            },
        }
    }

    /// The object at `addr`.
    pub fn get(&self, addr: u64) -> (object: &HeapObject)
        requires
            self@.is_live(addr as int),
        ensures
            *object == self@.object(addr as int),
    {
        match &self.slots[self.index_of(addr)].object {
            Some(object) => object,
            None => unreached(),
        }
    }

    /// The mark bit of the object at `addr`.
    pub fn marked_at(&self, addr: u64) -> (marked: bool)
        requires
            self@.is_live(addr as int),
        ensures
            marked == self@.is_marked(addr as int),
    {
        self.slots[self.index_of(addr)].marked
    }

    /// Puts `object` in a slot of its own and returns the address.
    pub fn alloc_obj(&mut self, object: HeapObject) -> (addr: u64)
        requires
            old(self)@.wf(),
            old(self)@.has_room(),
            old(self)@.admits(object),
        ensures
            final(self)@.wf(),
            addr < ADDR_LIMIT,
            addr == old(self)@.slots.len(),
            final(self)@.slots == old(self)@.slots.push(
                Slot { marked: false, object: Some(object) },
            ),
            !old(self)@.is_live(addr as int),
            final(self)@.is_live(addr as int),
            final(self)@.object(addr as int) == object,
            !final(self)@.is_marked(addr as int),
            old(self)@.preserved_by(final(self)@),
            forall|other: int|
                other != addr ==> (#[trigger] final(self)@.is_live(other) <==> old(self)@.is_live(
                    other,
                )),
    {
        let addr = self.slots.len() as u64;
        self.slots.push(Slot { marked: false, object: Some(object) });
        proof {
            assert(old(self)@.preserved_by(self@));
            assert forall|a: int| #[trigger] self@.is_live(a) implies self@.admits(
                self@.object(a),
            ) by {
                let kids = self@.object(a).children();
                if a != addr {
                    assert(old(self)@.is_live(a));
                }
                assert forall|i: int| 0 <= i < kids.len() implies self@.contains(
                    #[trigger] kids[i],
                ) by {
                    old(self)@.lemma_kept(self@, kids[i]);
                }
            }
        }
        addr
    }

    /// Allocates `object` and returns the tagged value that points to it.
    pub fn add(&mut self, object: HeapObject) -> (value: GcObj)
        requires
            old(self)@.wf(),
            old(self)@.has_room(),
            old(self)@.admits(object),
        ensures
            final(self)@.wf(),
            final(self)@.contains(value),
            old(self)@.allocated(final(self)@, value.word(), object),
    {
        let tag = object.tag();
        let addr = self.alloc_obj(object);
        proof {
            lemma_join_split(addr, tag);
        }
        Gc::from_ptr(addr, tag)
    }

    /// The address that a typed view carries, where the view can be used with
    /// this block.
    fn addr_of<T: TaggedPtr>(&self, view: T) -> (addr: u64)
        requires
            self@.has(view),
            word_tag(view.to_word()).is_heap(),
        ensures
            addr == word_addr(view.to_word()),
            self@.is_live(addr as int),
    {
        addr_of_word(view.retag().bits())
    }

    /// Reads a cons cell.
    pub fn cons(&self, handle: ConsRef) -> (object: &Cons)
        requires
            self@.has(handle),
        ensures
            self@.referent(handle.to_word()) == HeapObject::Cons(*object),
    {
        proof {
            handle.lemma_tag();
        }
        match self.get(self.addr_of(handle)) {
            HeapObject::Cons(object) => object,
            _ => unreached(),
        }
    }

    /// Reads a float.
    pub fn float(&self, handle: FloatRef) -> (object: &LispFloat)
        requires
            self@.has(handle),
        ensures
            self@.referent(handle.to_word()) == HeapObject::Float(*object),
    {
        proof {
            handle.lemma_tag();
        }
        match self.get(self.addr_of(handle)) {
            HeapObject::Float(object) => object,
            _ => unreached(),
        }
    }

    /// Reads a string.
    pub fn string(&self, handle: StringRef) -> (object: &LispString)
        requires
            self@.has(handle),
        ensures
            self@.referent(handle.to_word()) == HeapObject::String(*object),
    {
        proof {
            handle.lemma_tag();
        }
        match self.get(self.addr_of(handle)) {
            HeapObject::String(object) => object,
            _ => unreached(),
        }
    }

    /// Reads a vector.
    pub fn vec(&self, handle: VecRef) -> (object: &LispVec)
        requires
            self@.has(handle),
        ensures
            self@.referent(handle.to_word()) == HeapObject::Vec(*object),
    {
        proof {
            handle.lemma_tag();
        }
        match self.get(self.addr_of(handle)) {
            HeapObject::Vec(object) => object,
            _ => unreached(),
        }
    }

    /// Reads a record.
    pub fn record(&self, handle: RecordRef) -> (object: &LispVec)
        requires
            self@.has(handle),
        ensures
            self@.referent(handle.to_word()) == HeapObject::Record(*object),
    {
        proof {
            handle.lemma_tag();
        }
        match self.get(self.addr_of(handle)) {
            HeapObject::Record(object) => object,
            _ => unreached(),
        }
    }

    /// Reads a hash table.
    pub fn hash_table(&self, handle: HashTableRef) -> (object: &LispHashTable)
        requires
            self@.has(handle),
        ensures
            self@.referent(handle.to_word()) == HeapObject::HashTable(*object),
    {
        proof {
            handle.lemma_tag();
        }
        match self.get(self.addr_of(handle)) {
            HeapObject::HashTable(object) => object,
            _ => unreached(),
        }
    }

    /// Reads a symbol.
    pub fn symbol(&self, handle: SymbolRef) -> (object: &Symbol)
        requires
            self@.has(handle),
        ensures
            self@.referent(handle.to_word()) == HeapObject::Symbol(*object),
    {
        proof {
            handle.lemma_tag();
        }
        match self.get(self.addr_of(handle)) {
            HeapObject::Symbol(object) => object,
            _ => unreached(),
        }
    }

    /// Reads a byte-compiled function.
    pub fn byte_fn(&self, handle: ByteFnRef) -> (object: &LispFn)
        requires
            self@.has(handle),
        ensures
            self@.referent(handle.to_word()) == HeapObject::ByteFn(*object),
    {
        proof {
            handle.lemma_tag();
        }
        match self.get(self.addr_of(handle)) {
            HeapObject::ByteFn(object) => object,
            _ => unreached(),
        }
    }

    /// Puts `object` in place of the object of the same kind at `addr`.
    pub(crate) fn replace(&mut self, addr: u64, object: HeapObject)
        requires
            old(self)@.wf(),
            old(self)@.is_live(addr as int),
            2 <= addr,
            object.kind() == old(self)@.object(addr as int).kind(),
            old(self)@.admits(object),
        ensures
            final(self)@.wf(),
            old(self)@.changed_to(final(self)@, addr as int, object),
            old(self)@.kept_by(final(self)@),
    {
        let index = self.index_of(addr);
        self.slots[index].object = Some(object);
        proof {
            old(self)@.lemma_changed_object(self@, index as int);
        }
    }

    /// Sets or clears the mark bit of the object at `addr`.
    pub(crate) fn set_mark(&mut self, addr: u64, marked: bool)
        requires
            old(self)@.is_live(addr as int),
        ensures
            final(self)@.len() == old(self)@.len(),
            final(self)@.slots[addr as int].object == old(self)@.slots[addr as int].object,
            final(self)@.slots[addr as int].marked == marked,
            forall|other: int|
                0 <= other < old(self)@.len() && other != addr ==> #[trigger] final(self)@.slots[other]
                    == old(self)@.slots[other],
    {
        let index = self.index_of(addr);
        self.slots[index].marked = marked;
    }

    /// The mark bit of the slot at `index`.
    pub(crate) fn is_marked_at(&self, index: usize) -> (marked: bool)
        requires
            index < self@.len(),
        ensures
            marked == self@.slots[index as int].marked,
    {
        self.slots[index].marked
    }

    /// Clears the mark bit of the slot at `index`.
    pub(crate) fn unmark(&mut self, index: usize)
        requires
            index < old(self)@.len(),
        ensures
            final(self)@.len() == old(self)@.len(),
            final(self)@.slots[index as int].object == old(self)@.slots[index as int].object,
            !final(self)@.slots[index as int].marked,
            forall|other: int|
                0 <= other < old(self)@.len() && other != index
                    ==> #[trigger] final(self)@.slots[other] == old(self)@.slots[other],
    {
        self.slots[index].marked = false;
    }

    /// Frees the slot at `addr`.
    pub(crate) fn release(&mut self, addr: u64)
        requires
            addr < old(self)@.len(),
        ensures
            final(self)@.len() == old(self)@.len(),
            final(self)@.slots[addr as int].object is None,
            !final(self)@.slots[addr as int].marked,
            forall|other: int|
                0 <= other < old(self)@.len() && other != addr ==> #[trigger] final(self)@.slots[other]
                    == old(self)@.slots[other],
    {
        let index = self.index_of(addr);
        self.slots[index].object = None;
        self.slots[index].marked = false;
    }
}

impl Heap {
    /// Whether `after` is this heap with `object` in place of the object at
    /// `addr`, and nothing else changed.
    pub open spec fn changed_to(self, after: Heap, addr: int, object: HeapObject) -> bool {
        &&& after.slots.len() == self.slots.len()
        &&& after.is_live(addr)
        &&& after.object(addr) == object
        &&& after.is_marked(addr) == self.is_marked(addr)
        &&& forall|other: int|
            0 <= other < self.slots.len() && other != addr ==> #[trigger] after.slots[other]
                == self.slots[other]
    }
}

impl Block<false> {
    /// Puts `value` in the first slot of a cons cell.
    pub fn set_car(&mut self, handle: ConsRef, value: GcObj)
        requires
            old(self)@.wf(),
            old(self)@.has(handle),
            word_addr(handle.to_word()) >= 2,
            old(self)@.contains(value),
        ensures
            final(self)@.wf(),
            old(self)@.changed_to(
                final(self)@,
                word_addr(handle.to_word()) as int,
                HeapObject::Cons(Cons { car: value, cdr: old(self)@.referent(handle.to_word())->Cons_0.cdr }),
            ),
    {
        proof {
            handle.lemma_tag();
        }
        let index = self.index_of(self.addr_of(handle));
        match &mut self.slots[index].object {
            Some(HeapObject::Cons(object)) => {
                object.car = value;
            },
            _ => {},
        }
        proof {
            old(self)@.lemma_changed_object(self@, index as int);
        }
    }

    /// Puts `value` in the second slot of a cons cell.
    pub fn set_cdr(&mut self, handle: ConsRef, value: GcObj)
        requires
            old(self)@.wf(),
            old(self)@.has(handle),
            word_addr(handle.to_word()) >= 2,
            old(self)@.contains(value),
        ensures
            final(self)@.wf(),
            old(self)@.changed_to(
                final(self)@,
                word_addr(handle.to_word()) as int,
                HeapObject::Cons(Cons { car: old(self)@.referent(handle.to_word())->Cons_0.car, cdr: value }),
            ),
    {
        proof {
            handle.lemma_tag();
        }
        let index = self.index_of(self.addr_of(handle));
        match &mut self.slots[index].object {
            Some(HeapObject::Cons(object)) => {
                object.cdr = value;
            },
            _ => {},
        }
        proof {
            old(self)@.lemma_changed_object(self@, index as int);
        }
    }

    /// Binds a symbol to a value, or unbinds it.
    pub fn set_symbol_value(&mut self, handle: SymbolRef, value: Option<GcObj>)
        requires
            old(self)@.wf(),
            old(self)@.has(handle),
            word_addr(handle.to_word()) >= 2,
            value matches Some(inner) ==> old(self)@.contains(inner),
        ensures
            final(self)@.wf(),
            old(self)@.changed_to(
                final(self)@,
                word_addr(handle.to_word()) as int,
                HeapObject::Symbol(Symbol { value, ..old(self)@.referent(handle.to_word())->Symbol_0 }),
            ),
    {
        proof {
            handle.lemma_tag();
        }
        let index = self.index_of(self.addr_of(handle));
        match &mut self.slots[index].object {
            Some(HeapObject::Symbol(object)) => {
                object.value = value;
            },
            _ => {},
        }
        proof {
            let before = old(self)@.object(index as int);
            let kids = self@.object(index as int).children();
            assert(old(self)@.admits(before));
            assert forall|i: int| 0 <= i < kids.len() implies old(self)@.contains(
                #[trigger] kids[i],
            ) by {
                if value is Some && i == 0 {
                } else {
                    assert(kids[i] == before.children()[before.children().len() - 1]);
                }
            }
            old(self)@.lemma_changed_object(self@, index as int);
        }
    }

    /// Puts a function in the function cell of a symbol, or empties the cell.
    pub fn set_symbol_function(&mut self, handle: SymbolRef, func: Option<GcObj>)
        requires
            old(self)@.wf(),
            old(self)@.has(handle),
            word_addr(handle.to_word()) >= 2,
            func matches Some(inner) ==> old(self)@.contains(inner),
        ensures
            final(self)@.wf(),
            old(self)@.changed_to(
                final(self)@,
                word_addr(handle.to_word()) as int,
                HeapObject::Symbol(Symbol { func, ..old(self)@.referent(handle.to_word())->Symbol_0 }),
            ),
    {
        proof {
            handle.lemma_tag();
        }
        let index = self.index_of(self.addr_of(handle));
        match &mut self.slots[index].object {
            Some(HeapObject::Symbol(object)) => {
                object.func = func;
            },
            _ => {},
        }
        proof {
            let before = old(self)@.object(index as int);
            let kids = self@.object(index as int).children();
            assert(old(self)@.admits(before));
            assert forall|i: int| 0 <= i < kids.len() implies old(self)@.contains(
                #[trigger] kids[i],
            ) by {
                if func is Some && i == kids.len() - 1 {
                } else {
                    assert(kids[i] == before.children()[0]);
                }
            }
            old(self)@.lemma_changed_object(self@, index as int);
        }
    }
}

impl List {
    /// The first value of the list: `nil` for the empty list.
    pub fn car<const CONST: bool>(self, block: &Block<CONST>) -> (first: GcObj)
        requires
            block@.has(self),
        ensures
            self is Nil ==> first.is_nil(),
            self matches List::Cons(cons) ==> block@.referent(cons.to_word()) matches HeapObject::Cons(
                cell,
            ) && first == cell.car,
    {
        match self {
            List::Nil => nil(),
            List::Cons(cons) => block.cons(cons).car(),
        }
    }
}

} // verus!
