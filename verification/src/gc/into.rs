//! Turning Rust values into Lisp values.

use vstd::prelude::*;
use vstd::utf8::encode_utf8;
use crate::gc::block::{Block, Heap};
use crate::object::data::{
    Cons, HashTable, HeapObject, LispFloat, LispHashTable, LispString, LispVec, RecordBuilder,
    Symbol,
};
use crate::object::func::LispFn;
use crate::object::handle::{
    ByteFnRef, ConsRef, FloatRef, HashTableRef, RecordRef, StringRef, SymbolRef, VecRef,
};
use crate::object::tag::{int_word, lemma_int_word, lemma_split_join, word_addr, word_code};
use crate::object::tagged::{
    Gc, GcObj, Object, RawObj, TaggedPtr, NIL_WORD, TRUE_WORD, lemma_static_words, nil, qtrue,
};

verus! {

/// A value that can be handed to a block and become a Lisp value.
pub trait IntoObject: Sized {
    /// The view of the Lisp value that comes out.
    type Out: TaggedPtr;

    /// What the heap must offer for the value to go in: room for an object,
    /// and every value that the new object holds.
    spec fn fits(&self, heap: Heap) -> bool;

    /// Makes a Lisp value of `self`, in `block` where it needs a place.
    fn into_obj<const CONST: bool>(self, block: &mut Block<CONST>) -> (value: Gc<Self::Out>)
        requires
            old(block)@.wf(),
            self.fits(old(block)@),
        ensures
            final(block)@.wf(),
            old(block)@.preserved_by(final(block)@),
            final(block)@.contains_word(value.word()),
    ;
}

/// Allocates `object` and returns the word that points to it.
fn place<const CONST: bool>(block: &mut Block<CONST>, object: HeapObject) -> (raw: RawObj)
    requires
        old(block)@.wf(),
        old(block)@.has_room(),
        old(block)@.admits(object),
    ensures
        final(block)@.wf(),
        final(block)@.contains_word(raw.word()),
        old(block)@.allocated(final(block)@, raw.word(), object),
        word_code(raw.word()) == object.kind().code(),
{
    let value = block.add(object);
    proof {
        lemma_split_join(value.word());
    }
    value.into_raw()
}

impl<T: TaggedPtr> IntoObject for Gc<T> {
    type Out = Object;

    open spec fn fits(&self, heap: Heap) -> bool {
        heap.contains_word(self.word())
    }

    fn into_obj<const CONST: bool>(self, block: &mut Block<CONST>) -> (value: Gc<Object>)
        ensures
            value.word() == self.word(),
            *final(block) == *old(block),
    {
        self.copy_as_obj()
    }
}

impl<T: TaggedPtr> IntoObject for Option<Gc<T>> {
    type Out = Object;

    open spec fn fits(&self, heap: Heap) -> bool {
        match self {
            Some(value) => heap.contains_word(value.word()),
            None => true,
        }
    }

    fn into_obj<const CONST: bool>(self, block: &mut Block<CONST>) -> (value: Gc<Object>)
        ensures
            value.word() == (match self {
                Some(inner) => inner.word(),
                None => NIL_WORD,
            }),
            *final(block) == *old(block),
    {
        proof {
            block@.lemma_canonical();
        }
        match self {
            Some(inner) => inner.copy_as_obj(),
            None => nil(),
        }
    }
}

impl IntoObject for i64 {
    type Out = i64;

    open spec fn fits(&self, heap: Heap) -> bool {
        true
    }

    fn into_obj<const CONST: bool>(self, block: &mut Block<CONST>) -> (value: Gc<i64>)
        ensures
            value.word() == int_word(self),
            *final(block) == *old(block),
    {
        proof {
            lemma_int_word(self);
        }
        Gc::retag(self)
    }
}

impl IntoObject for i32 {
    type Out = i64;

    open spec fn fits(&self, heap: Heap) -> bool {
        true
    }

    fn into_obj<const CONST: bool>(self, block: &mut Block<CONST>) -> (value: Gc<i64>)
        ensures
            value.word() == int_word(self as i64),
            *final(block) == *old(block),
    {
        proof {
            lemma_int_word(self as i64);
        }
        Gc::retag(self as i64)
    }
}

impl IntoObject for usize {
    type Out = i64;

    open spec fn fits(&self, heap: Heap) -> bool {
        true
    }

    fn into_obj<const CONST: bool>(self, block: &mut Block<CONST>) -> (value: Gc<i64>)
        ensures
            value.word() == int_word(self as i64),
            *final(block) == *old(block),
    {
        proof {
            lemma_int_word(self as i64);
        }
        Gc::retag(#[verifier::truncate] (self as i64))
    }
}

impl IntoObject for bool {
    type Out = SymbolRef;

    open spec fn fits(&self, heap: Heap) -> bool {
        true
    }

    fn into_obj<const CONST: bool>(self, block: &mut Block<CONST>) -> (value: Gc<SymbolRef>)
        ensures
            value.word() == (if self {
                TRUE_WORD
            } else {
                NIL_WORD
            }),
            *final(block) == *old(block),
    {
        proof {
            block@.lemma_canonical();
            lemma_static_words();
            lemma_split_join(NIL_WORD);
            lemma_split_join(TRUE_WORD);
        }
        match self {
            true => Gc::from_raw(qtrue().into_raw()),
            false => Gc::from_raw(nil().into_raw()),
        }
    }
}

impl IntoObject for Cons {
    type Out = ConsRef;

    open spec fn fits(&self, heap: Heap) -> bool {
        heap.has_room() && heap.admits(HeapObject::Cons(*self))
    }

    fn into_obj<const CONST: bool>(self, block: &mut Block<CONST>) -> (value: Gc<ConsRef>)
        ensures
            old(block)@.allocated(final(block)@, value.word(), HeapObject::Cons(self)),
    {
        Gc::from_raw(place(block, HeapObject::Cons(self)))
    }
}

impl IntoObject for LispFloat {
    type Out = FloatRef;

    open spec fn fits(&self, heap: Heap) -> bool {
        heap.has_room() && heap.admits(HeapObject::Float(*self))
    }

    fn into_obj<const CONST: bool>(self, block: &mut Block<CONST>) -> (value: Gc<FloatRef>)
        ensures
            old(block)@.allocated(final(block)@, value.word(), HeapObject::Float(self)),
    {
        Gc::from_raw(place(block, HeapObject::Float(self)))
    }
}

impl IntoObject for LispFn {
    type Out = ByteFnRef;

    open spec fn fits(&self, heap: Heap) -> bool {
        heap.has_room() && heap.admits(HeapObject::ByteFn(*self))
    }

    fn into_obj<const CONST: bool>(self, block: &mut Block<CONST>) -> (value: Gc<ByteFnRef>)
        ensures
            old(block)@.allocated(final(block)@, value.word(), HeapObject::ByteFn(self)),
    {
        Gc::from_raw(place(block, HeapObject::ByteFn(self)))
    }
}

impl IntoObject for Symbol {
    type Out = SymbolRef;

    open spec fn fits(&self, heap: Heap) -> bool {
        heap.has_room() && heap.admits(HeapObject::Symbol(*self))
    }

    fn into_obj<const CONST: bool>(self, block: &mut Block<CONST>) -> (value: Gc<SymbolRef>)
        ensures
            old(block)@.allocated(final(block)@, value.word(), HeapObject::Symbol(self)),
    {
        Gc::from_raw(place(block, HeapObject::Symbol(self)))
    }
}

impl IntoObject for LispString {
    type Out = StringRef;

    open spec fn fits(&self, heap: Heap) -> bool {
        heap.has_room() && heap.admits(HeapObject::String(*self))
    }

    fn into_obj<const CONST: bool>(self, block: &mut Block<CONST>) -> (value: Gc<StringRef>)
        ensures
            old(block)@.allocated(final(block)@, value.word(), HeapObject::String(self)),
    {
        Gc::from_raw(place(block, HeapObject::String(self)))
    }
}

impl IntoObject for LispVec {
    type Out = VecRef;

    open spec fn fits(&self, heap: Heap) -> bool {
        heap.has_room() && heap.admits(HeapObject::Vec(*self))
    }

    fn into_obj<const CONST: bool>(self, block: &mut Block<CONST>) -> (value: Gc<VecRef>)
        ensures
            old(block)@.allocated(final(block)@, value.word(), HeapObject::Vec(self)),
    {
        Gc::from_raw(place(block, HeapObject::Vec(self)))
    }
}

impl IntoObject for LispHashTable {
    type Out = HashTableRef;

    open spec fn fits(&self, heap: Heap) -> bool {
        heap.has_room() && heap.admits(HeapObject::HashTable(*self))
    }

    fn into_obj<const CONST: bool>(self, block: &mut Block<CONST>) -> (value: Gc<HashTableRef>)
        ensures
            old(block)@.allocated(final(block)@, value.word(), HeapObject::HashTable(self)),
    {
        Gc::from_raw(place(block, HeapObject::HashTable(self)))
    }
}

impl IntoObject for RecordBuilder {
    type Out = RecordRef;

    open spec fn fits(&self, heap: Heap) -> bool {
        heap.has_room() && heap.contains_all(self.0@)
    }

    fn into_obj<const CONST: bool>(self, block: &mut Block<CONST>) -> (value: Gc<RecordRef>)
        ensures
            old(block)@.allocated(
                final(block)@,
                value.word(),
                HeapObject::Record(LispVec { items: self.0 }),
            ),
    {
        Gc::from_raw(place(block, HeapObject::Record(LispVec::new(self.0))))
    }
}

impl IntoObject for Vec<GcObj> {
    type Out = VecRef;

    open spec fn fits(&self, heap: Heap) -> bool {
        heap.has_room() && heap.contains_all(self@)
    }

    fn into_obj<const CONST: bool>(self, block: &mut Block<CONST>) -> (value: Gc<VecRef>)
        ensures
            old(block)@.allocated(
                final(block)@,
                value.word(),
                HeapObject::Vec(LispVec { items: self }),
            ),
    {
        Gc::from_raw(place(block, HeapObject::Vec(LispVec::new(self))))
    }
}

impl IntoObject for HashTable {
    type Out = HashTableRef;

    open spec fn fits(&self, heap: Heap) -> bool {
        heap.has_room() && heap.admits(HeapObject::HashTable(LispHashTable { table: *self }))
    }

    fn into_obj<const CONST: bool>(self, block: &mut Block<CONST>) -> (value: Gc<HashTableRef>)
        ensures
            old(block)@.allocated(
                final(block)@,
                value.word(),
                HeapObject::HashTable(LispHashTable { table: self }),
            ),
    {
        Gc::from_raw(place(block, HeapObject::HashTable(LispHashTable::new(self))))
    }
}

impl IntoObject for Vec<u8> {
    type Out = StringRef;

    open spec fn fits(&self, heap: Heap) -> bool {
        heap.has_room()
    }

    fn into_obj<const CONST: bool>(self, block: &mut Block<CONST>) -> (value: Gc<StringRef>)
        ensures
            old(block)@.allocated(
                final(block)@,
                value.word(),
                HeapObject::String(LispString { bytes: self }),
            ),
    {
        Gc::from_raw(place(block, HeapObject::String(LispString::from_bstring(self))))
    }
}

impl IntoObject for String {
    type Out = StringRef;

    open spec fn fits(&self, heap: Heap) -> bool {
        heap.has_room()
    }

    fn into_obj<const CONST: bool>(self, block: &mut Block<CONST>) -> (value: Gc<StringRef>)
        ensures
            final(block)@.referent(value.word()) matches HeapObject::String(string)
                && string@ == encode_utf8(self@) && old(block)@.allocated(
                final(block)@,
                value.word(),
                HeapObject::String(string),
            ),
    {
        Gc::from_raw(place(block, HeapObject::String(LispString::from_string(self))))
    }
}

impl IntoObject for &str {
    type Out = StringRef;

    open spec fn fits(&self, heap: Heap) -> bool {
        heap.has_room()
    }

    fn into_obj<const CONST: bool>(self, block: &mut Block<CONST>) -> (value: Gc<StringRef>)
        ensures
            final(block)@.referent(value.word()) matches HeapObject::String(string)
                && string@ == encode_utf8(self@) && old(block)@.allocated(
                final(block)@,
                value.word(),
                HeapObject::String(string),
            ),
    {
        Gc::from_raw(place(block, HeapObject::String(LispString::from_string(self.to_owned()))))
    }
}

/// What an allocation returns points to the object that went in: the value
/// is of the kind of the object, its typed view packs back into the same
/// word, and the heap holds the object, unchanged, where the value points.
pub proof fn law_alloc_round_trip(before: Heap, after: Heap, value: GcObj, object: HeapObject)
    requires
        value.wf(),
        before.allocated(after, value.word(), object),
    ensures
        value.spec_tag() == object.kind(),
        value@.to_word() == value.word(),
        after.contains(value),
        after.referent(value.word()) == object,
        forall|other: GcObj| #[trigger] before.contains(other) ==> other.word() != value.word(),
{
    Object::lemma_of_word(value.word());
    let tag = object.kind();
    assert(tag.is_heap());
    assert forall|other: GcObj| #[trigger] before.contains(other) implies other.word()
        != value.word() by {
        if other.word() == value.word() {
            assert(before.is_live(word_addr(value.word()) as int));
        }
    }
}

} // verus!
