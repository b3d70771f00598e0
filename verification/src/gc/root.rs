//! Roots: the values that a collection starts from.

use vstd::prelude::*;
use crate::gc::block::Block;
use crate::object::tagged::{Gc, GcObj, RawObj};

verus! {

/// The values that the owner of an arena holds across collections, kept as a
/// stack. A collection frees nothing that can be reached from them.
#[derive(Debug, Default)]
pub struct RootSet {
    roots: Vec<RawObj>,
}

impl View for RootSet {
    type V = Seq<RawObj>;

    closed spec fn view(&self) -> Seq<RawObj> {
        self.roots@
    }
}

impl RootSet {
    /// The set without roots.
    pub fn new() -> (set: RootSet)
        ensures
            set@ == Seq::<RawObj>::empty(),
    {
        RootSet { roots: Vec::new() }
    }

    /// The number of roots.
    pub fn len(&self) -> (len: usize)
        ensures
            len == self@.len(),
    {
        self.roots.len()
    }

    /// Registers `value` and returns the place under which it is kept.
    pub fn root(&mut self, value: GcObj) -> (place: usize)
        ensures
            final(self)@ == old(self)@.push(RawObj::of(value.word())),
            place == old(self)@.len(),
    {
        self.roots.push(value.into_raw());
        self.roots.len() - 1
    }

    /// Drops the root that was registered last, and returns it.
    pub fn unroot(&mut self) -> (value: Option<RawObj>)
        ensures
            old(self)@.len() == 0 ==> value is None && final(self)@ == old(self)@,
            old(self)@.len() > 0 ==> value == Some(old(self)@.last()),
            old(self)@.len() > 0 ==> final(self)@ == old(self)@.drop_last(),
    {
        self.roots.pop()
    }

    /// The root at `place`, as a value of the arena that it lives in. The
    /// arena is the evidence that the value has not been collected.
    pub fn get(&self, place: usize, arena: &Block<false>) -> (value: GcObj)
        requires
            place < self@.len(),
            arena@.contains_word(self@[place as int].word()),
        ensures
            value.word() == self@[place as int].word(),
            arena@.contains(value),
    {
        Gc::from_raw(self.roots[place])
    }

    /// Puts `value` in place of the root at `place`.
    pub fn set(&mut self, place: usize, value: GcObj, arena: &Block<false>)
        requires
            place < old(self)@.len(),
            arena@.contains(value),
        ensures
            final(self)@ == old(self)@.update(place as int, RawObj::of(value.word())),
    {
        self.roots[place] = value.into_raw();
    }

    /// The raw root at `place`.
    pub fn raw(&self, place: usize) -> (raw: RawObj)
        requires
            place < self@.len(),
        ensures
            raw == self@[place as int],
    {
        self.roots[place]
    }
}

} // verus!
