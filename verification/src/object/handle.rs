//! Typed addresses: what a tagged word of each pointer kind unpacks to.
//!
//! An address names an object by its place in a block (or, for a built-in
//! function, in the table of built-ins). It is a plain number: reading what it
//! names takes the block.

use vstd::prelude::*;
use crate::error::Type;
use crate::object::tag::{
    Tag, ADDR_LIMIT, code_of, join, lemma_join_split, lemma_make_word_tag, lemma_split_join,
    make_word, payload_of,
    valid_word, word_addr, word_code, word_payload, word_tag,
};
use crate::object::tagged::{Gc, RawObj, TaggedPtr};

verus! {

/// An accepted pointer word carries an address below the limit.
pub proof fn lemma_addr_in_range(word: u64)
    requires
        valid_word(word),
        word_code(word) != Tag::Int.code(),
    ensures
        word_addr(word) < ADDR_LIMIT,
        word_addr(word) == word_payload(word),
{
    assert(word_payload(word) < ADDR_LIMIT) by (bit_vector)
        requires
            word_payload(word) == (word as i64) >> 8,
    ;
}

/// The address in a pointer word.
pub fn addr_of_word(word: u64) -> (addr: u64)
    requires
        valid_word(word),
        word_code(word) != Tag::Int.code(),
    ensures
        addr == word_addr(word),
        addr < ADDR_LIMIT,
{
    proof {
        lemma_addr_in_range(word);
    }
    #[verifier::truncate] (payload_of(word) as u64)
}

/// The address of a float.
#[derive(Clone, Copy, Debug, PartialEq, Eq, Hash, Structural)]
pub struct FloatRef {
    addr: u64,
}

impl FloatRef {
    /// The tag of the words that carry such an address.
    pub const TAG: Tag = Tag::Float;

    /// The address itself.
    pub closed spec fn addr(self) -> u64 {
        self.addr
    }

    /// The handle for an address.
    pub closed spec fn at(addr: u64) -> Self {
        FloatRef { addr }
    }

    #[verifier::type_invariant]
    spec fn inv(self) -> bool {
        self.addr < ADDR_LIMIT
    }

    pub proof fn lemma_at(addr: u64)
        ensures
            Self::at(addr).addr() == addr,
    {
    }

    pub proof fn lemma_addr_eq(self, other: Self)
        ensures
            self.addr() == other.addr() <==> self == other,
            Self::at(self.addr()) == self,
    {
    }

    /// The word of a handle carries its tag.
    pub proof fn lemma_tag(self)
        ensures
            word_tag(self.to_word()) == Tag::Float,
    {
        lemma_make_word_tag(self.addr(), Tag::Float);
    }

    /// The handle for an address.
    pub fn from_obj_ptr(addr: u64) -> (handle: Self)
        requires
            addr < ADDR_LIMIT,
        ensures
            handle == Self::at(addr),
            handle.addr() == addr,
    {
        FloatRef { addr }
    }

    /// The address itself.
    pub fn get_ptr(self) -> (addr: u64)
        ensures
            addr == self.addr(),
            addr < ADDR_LIMIT,
    {
        proof {
            use_type_invariant(&self);
        }
        self.addr
    }

    /// The tagged word for this address.
    pub fn tag_ptr(self) -> (gc: Gc<FloatRef>)
        ensures
            gc.word() == make_word(self.addr(), Tag::Float),
            gc.word() == self.to_word(),
    {
        Gc::from_raw(self.retag())
    }
}

impl TaggedPtr for FloatRef {
    open spec fn accepts(word: u64) -> bool {
        valid_word(word) && word_code(word) == Tag::Float.code()
    }

    open spec fn of_word(word: u64) -> Self {
        Self::at(word_addr(word))
    }

    open spec fn to_word(self) -> u64 {
        make_word(self.addr(), Tag::Float)
    }

    open spec fn wf(self) -> bool {
        self.addr() < ADDR_LIMIT
    }

    open spec fn subset() -> Type {
        Type::Float
    }

    proof fn lemma_of_word(word: u64) {
        lemma_split_join(word);
        lemma_addr_in_range(word);
        Self::lemma_at(word_addr(word));
    }

    proof fn lemma_to_word(self) {
        lemma_join_split(self.addr(), Tag::Float);
        self.lemma_addr_eq(Self::at(self.addr()));
    }

    fn untag(raw: RawObj) -> (value: Self) {
        Self::from_obj_ptr(addr_of_word(raw.bits()))
    }

    fn retag(self) -> (raw: RawObj) {
        let addr = self.get_ptr();
        proof {
            lemma_join_split(addr, Tag::Float);
        }
        RawObj::new(join(addr, Tag::Float))
    }

    fn admits(raw: RawObj) -> (yes: bool) {
        code_of(raw.bits()) == 2
    }

    fn expected() -> (subset: Type) {
        Type::Float
    }
}

/// The address of a symbol.
#[derive(Clone, Copy, Debug, PartialEq, Eq, Hash, Structural)]
pub struct SymbolRef {
    addr: u64,
}

impl SymbolRef {
    /// The tag of the words that carry such an address.
    pub const TAG: Tag = Tag::Symbol;

    /// The address itself.
    pub closed spec fn addr(self) -> u64 {
        self.addr
    }

    /// The handle for an address.
    pub closed spec fn at(addr: u64) -> Self {
        SymbolRef { addr }
    }

    #[verifier::type_invariant]
    spec fn inv(self) -> bool {
        self.addr < ADDR_LIMIT
    }

    pub proof fn lemma_at(addr: u64)
        ensures
            Self::at(addr).addr() == addr,
    {
    }

    pub proof fn lemma_addr_eq(self, other: Self)
        ensures
            self.addr() == other.addr() <==> self == other,
            Self::at(self.addr()) == self,
    {
    }

    /// The word of a handle carries its tag.
    pub proof fn lemma_tag(self)
        ensures
            word_tag(self.to_word()) == Tag::Symbol,
    {
        lemma_make_word_tag(self.addr(), Tag::Symbol);
    }

    /// The handle for an address.
    pub fn from_obj_ptr(addr: u64) -> (handle: Self)
        requires
            addr < ADDR_LIMIT,
        ensures
            handle == Self::at(addr),
            handle.addr() == addr,
    {
        SymbolRef { addr }
    }

    /// The address itself.
    pub fn get_ptr(self) -> (addr: u64)
        ensures
            addr == self.addr(),
            addr < ADDR_LIMIT,
    {
        proof {
            use_type_invariant(&self);
        }
        self.addr
    }

    /// The tagged word for this address.
    pub fn tag_ptr(self) -> (gc: Gc<SymbolRef>)
        ensures
            gc.word() == make_word(self.addr(), Tag::Symbol),
            gc.word() == self.to_word(),
    {
        Gc::from_raw(self.retag())
    }
}

impl TaggedPtr for SymbolRef {
    open spec fn accepts(word: u64) -> bool {
        valid_word(word) && word_code(word) == Tag::Symbol.code()
    }

    open spec fn of_word(word: u64) -> Self {
        Self::at(word_addr(word))
    }

    open spec fn to_word(self) -> u64 {
        make_word(self.addr(), Tag::Symbol)
    }

    open spec fn wf(self) -> bool {
        self.addr() < ADDR_LIMIT
    }

    open spec fn subset() -> Type {
        Type::Symbol
    }

    proof fn lemma_of_word(word: u64) {
        lemma_split_join(word);
        lemma_addr_in_range(word);
        Self::lemma_at(word_addr(word));
    }

    proof fn lemma_to_word(self) {
        lemma_join_split(self.addr(), Tag::Symbol);
        self.lemma_addr_eq(Self::at(self.addr()));
    }

    fn untag(raw: RawObj) -> (value: Self) {
        Self::from_obj_ptr(addr_of_word(raw.bits()))
    }

    fn retag(self) -> (raw: RawObj) {
        let addr = self.get_ptr();
        proof {
            lemma_join_split(addr, Tag::Symbol);
        }
        RawObj::new(join(addr, Tag::Symbol))
    }

    fn admits(raw: RawObj) -> (yes: bool) {
        code_of(raw.bits()) == 0
    }

    fn expected() -> (subset: Type) {
        Type::Symbol
    }
}

/// The address of a cons cell.
#[derive(Clone, Copy, Debug, PartialEq, Eq, Hash, Structural)]
pub struct ConsRef {
    addr: u64,
}

impl ConsRef {
    /// The tag of the words that carry such an address.
    pub const TAG: Tag = Tag::Cons;

    /// The address itself.
    pub closed spec fn addr(self) -> u64 {
        self.addr
    }

    /// The handle for an address.
    pub closed spec fn at(addr: u64) -> Self {
        ConsRef { addr }
    }

    #[verifier::type_invariant]
    spec fn inv(self) -> bool {
        self.addr < ADDR_LIMIT
    }

    pub proof fn lemma_at(addr: u64)
        ensures
            Self::at(addr).addr() == addr,
    {
    }

    pub proof fn lemma_addr_eq(self, other: Self)
        ensures
            self.addr() == other.addr() <==> self == other,
            Self::at(self.addr()) == self,
    {
    }

    /// The word of a handle carries its tag.
    pub proof fn lemma_tag(self)
        ensures
            word_tag(self.to_word()) == Tag::Cons,
    {
        lemma_make_word_tag(self.addr(), Tag::Cons);
    }

    /// The handle for an address.
    pub fn from_obj_ptr(addr: u64) -> (handle: Self)
        requires
            addr < ADDR_LIMIT,
        ensures
            handle == Self::at(addr),
            handle.addr() == addr,
    {
        ConsRef { addr }
    }

    /// The address itself.
    pub fn get_ptr(self) -> (addr: u64)
        ensures
            addr == self.addr(),
            addr < ADDR_LIMIT,
    {
        proof {
            use_type_invariant(&self);
        }
        self.addr
    }

    /// The tagged word for this address.
    pub fn tag_ptr(self) -> (gc: Gc<ConsRef>)
        ensures
            gc.word() == make_word(self.addr(), Tag::Cons),
            gc.word() == self.to_word(),
    {
        Gc::from_raw(self.retag())
    }
}

impl TaggedPtr for ConsRef {
    open spec fn accepts(word: u64) -> bool {
        valid_word(word) && word_code(word) == Tag::Cons.code()
    }

    open spec fn of_word(word: u64) -> Self {
        Self::at(word_addr(word))
    }

    open spec fn to_word(self) -> u64 {
        make_word(self.addr(), Tag::Cons)
    }

    open spec fn wf(self) -> bool {
        self.addr() < ADDR_LIMIT
    }

    open spec fn subset() -> Type {
        Type::Cons
    }

    proof fn lemma_of_word(word: u64) {
        lemma_split_join(word);
        lemma_addr_in_range(word);
        Self::lemma_at(word_addr(word));
    }

    proof fn lemma_to_word(self) {
        lemma_join_split(self.addr(), Tag::Cons);
        self.lemma_addr_eq(Self::at(self.addr()));
    }

    fn untag(raw: RawObj) -> (value: Self) {
        Self::from_obj_ptr(addr_of_word(raw.bits()))
    }

    fn retag(self) -> (raw: RawObj) {
        let addr = self.get_ptr();
        proof {
            lemma_join_split(addr, Tag::Cons);
        }
        RawObj::new(join(addr, Tag::Cons))
    }

    fn admits(raw: RawObj) -> (yes: bool) {
        code_of(raw.bits()) == 3
    }

    fn expected() -> (subset: Type) {
        Type::Cons
    }
}

/// The address of a string.
#[derive(Clone, Copy, Debug, PartialEq, Eq, Hash, Structural)]
pub struct StringRef {
    addr: u64,
}

impl StringRef {
    /// The tag of the words that carry such an address.
    pub const TAG: Tag = Tag::String;

    /// The address itself.
    pub closed spec fn addr(self) -> u64 {
        self.addr
    }

    /// The handle for an address.
    pub closed spec fn at(addr: u64) -> Self {
        StringRef { addr }
    }

    #[verifier::type_invariant]
    spec fn inv(self) -> bool {
        self.addr < ADDR_LIMIT
    }

    pub proof fn lemma_at(addr: u64)
        ensures
            Self::at(addr).addr() == addr,
    {
    }

    pub proof fn lemma_addr_eq(self, other: Self)
        ensures
            self.addr() == other.addr() <==> self == other,
            Self::at(self.addr()) == self,
    {
    }

    /// The word of a handle carries its tag.
    pub proof fn lemma_tag(self)
        ensures
            word_tag(self.to_word()) == Tag::String,
    {
        lemma_make_word_tag(self.addr(), Tag::String);
    }

    /// The handle for an address.
    pub fn from_obj_ptr(addr: u64) -> (handle: Self)
        requires
            addr < ADDR_LIMIT,
        ensures
            handle == Self::at(addr),
            handle.addr() == addr,
    {
        StringRef { addr }
    }

    /// The address itself.
    pub fn get_ptr(self) -> (addr: u64)
        ensures
            addr == self.addr(),
            addr < ADDR_LIMIT,
    {
        proof {
            use_type_invariant(&self);
        }
        self.addr
    }

    /// The tagged word for this address.
    pub fn tag_ptr(self) -> (gc: Gc<StringRef>)
        ensures
            gc.word() == make_word(self.addr(), Tag::String),
            gc.word() == self.to_word(),
    {
        Gc::from_raw(self.retag())
    }
}

impl TaggedPtr for StringRef {
    open spec fn accepts(word: u64) -> bool {
        valid_word(word) && word_code(word) == Tag::String.code()
    }

    open spec fn of_word(word: u64) -> Self {
        Self::at(word_addr(word))
    }

    open spec fn to_word(self) -> u64 {
        make_word(self.addr(), Tag::String)
    }

    open spec fn wf(self) -> bool {
        self.addr() < ADDR_LIMIT
    }

    open spec fn subset() -> Type {
        Type::String
    }

    proof fn lemma_of_word(word: u64) {
        lemma_split_join(word);
        lemma_addr_in_range(word);
        Self::lemma_at(word_addr(word));
    }

    proof fn lemma_to_word(self) {
        lemma_join_split(self.addr(), Tag::String);
        self.lemma_addr_eq(Self::at(self.addr()));
    }

    fn untag(raw: RawObj) -> (value: Self) {
        Self::from_obj_ptr(addr_of_word(raw.bits()))
    }

    fn retag(self) -> (raw: RawObj) {
        let addr = self.get_ptr();
        proof {
            lemma_join_split(addr, Tag::String);
        }
        RawObj::new(join(addr, Tag::String))
    }

    fn admits(raw: RawObj) -> (yes: bool) {
        code_of(raw.bits()) == 4
    }

    fn expected() -> (subset: Type) {
        Type::String
    }
}

/// The address of a vector.
#[derive(Clone, Copy, Debug, PartialEq, Eq, Hash, Structural)]
pub struct VecRef {
    addr: u64,
}

impl VecRef {
    /// The tag of the words that carry such an address.
    pub const TAG: Tag = Tag::Vec;

    /// The address itself.
    pub closed spec fn addr(self) -> u64 {
        self.addr
    }

    /// The handle for an address.
    pub closed spec fn at(addr: u64) -> Self {
        VecRef { addr }
    }

    #[verifier::type_invariant]
    spec fn inv(self) -> bool {
        self.addr < ADDR_LIMIT
    }

    pub proof fn lemma_at(addr: u64)
        ensures
            Self::at(addr).addr() == addr,
    {
    }

    pub proof fn lemma_addr_eq(self, other: Self)
        ensures
            self.addr() == other.addr() <==> self == other,
            Self::at(self.addr()) == self,
    {
    }

    /// The word of a handle carries its tag.
    pub proof fn lemma_tag(self)
        ensures
            word_tag(self.to_word()) == Tag::Vec,
    {
        lemma_make_word_tag(self.addr(), Tag::Vec);
    }

    /// The handle for an address.
    pub fn from_obj_ptr(addr: u64) -> (handle: Self)
        requires
            addr < ADDR_LIMIT,
        ensures
            handle == Self::at(addr),
            handle.addr() == addr,
    {
        VecRef { addr }
    }

    /// The address itself.
    pub fn get_ptr(self) -> (addr: u64)
        ensures
            addr == self.addr(),
            addr < ADDR_LIMIT,
    {
        proof {
            use_type_invariant(&self);
        }
        self.addr
    }

    /// The tagged word for this address.
    pub fn tag_ptr(self) -> (gc: Gc<VecRef>)
        ensures
            gc.word() == make_word(self.addr(), Tag::Vec),
            gc.word() == self.to_word(),
    {
        Gc::from_raw(self.retag())
    }
}

impl TaggedPtr for VecRef {
    open spec fn accepts(word: u64) -> bool {
        valid_word(word) && word_code(word) == Tag::Vec.code()
    }

    open spec fn of_word(word: u64) -> Self {
        Self::at(word_addr(word))
    }

    open spec fn to_word(self) -> u64 {
        make_word(self.addr(), Tag::Vec)
    }

    open spec fn wf(self) -> bool {
        self.addr() < ADDR_LIMIT
    }

    open spec fn subset() -> Type {
        Type::Vec
    }

    proof fn lemma_of_word(word: u64) {
        lemma_split_join(word);
        lemma_addr_in_range(word);
        Self::lemma_at(word_addr(word));
    }

    proof fn lemma_to_word(self) {
        lemma_join_split(self.addr(), Tag::Vec);
        self.lemma_addr_eq(Self::at(self.addr()));
    }

    fn untag(raw: RawObj) -> (value: Self) {
        Self::from_obj_ptr(addr_of_word(raw.bits()))
    }

    fn retag(self) -> (raw: RawObj) {
        let addr = self.get_ptr();
        proof {
            lemma_join_split(addr, Tag::Vec);
        }
        RawObj::new(join(addr, Tag::Vec))
    }

    fn admits(raw: RawObj) -> (yes: bool) {
        code_of(raw.bits()) == 5
    }

    fn expected() -> (subset: Type) {
        Type::Vec
    }
}

/// The address of a record.
#[derive(Clone, Copy, Debug, PartialEq, Eq, Hash, Structural)]
pub struct RecordRef {
    addr: u64,
}

impl RecordRef {
    /// The tag of the words that carry such an address.
    pub const TAG: Tag = Tag::Record;

    /// The address itself.
    pub closed spec fn addr(self) -> u64 {
        self.addr
    }

    /// The handle for an address.
    pub closed spec fn at(addr: u64) -> Self {
        RecordRef { addr }
    }

    #[verifier::type_invariant]
    spec fn inv(self) -> bool {
        self.addr < ADDR_LIMIT
    }

    pub proof fn lemma_at(addr: u64)
        ensures
            Self::at(addr).addr() == addr,
    {
    }

    pub proof fn lemma_addr_eq(self, other: Self)
        ensures
            self.addr() == other.addr() <==> self == other,
            Self::at(self.addr()) == self,
    {
    }

    /// The word of a handle carries its tag.
    pub proof fn lemma_tag(self)
        ensures
            word_tag(self.to_word()) == Tag::Record,
    {
        lemma_make_word_tag(self.addr(), Tag::Record);
    }

    /// The handle for an address.
    pub fn from_obj_ptr(addr: u64) -> (handle: Self)
        requires
            addr < ADDR_LIMIT,
        ensures
            handle == Self::at(addr),
            handle.addr() == addr,
    {
        RecordRef { addr }
    }

    /// The address itself.
    pub fn get_ptr(self) -> (addr: u64)
        ensures
            addr == self.addr(),
            addr < ADDR_LIMIT,
    {
        proof {
            use_type_invariant(&self);
        }
        self.addr
    }

    /// The tagged word for this address.
    pub fn tag_ptr(self) -> (gc: Gc<RecordRef>)
        ensures
            gc.word() == make_word(self.addr(), Tag::Record),
            gc.word() == self.to_word(),
    {
        Gc::from_raw(self.retag())
    }
}

impl TaggedPtr for RecordRef {
    open spec fn accepts(word: u64) -> bool {
        valid_word(word) && word_code(word) == Tag::Record.code()
    }

    open spec fn of_word(word: u64) -> Self {
        Self::at(word_addr(word))
    }

    open spec fn to_word(self) -> u64 {
        make_word(self.addr(), Tag::Record)
    }

    open spec fn wf(self) -> bool {
        self.addr() < ADDR_LIMIT
    }

    open spec fn subset() -> Type {
        Type::Record
    }

    proof fn lemma_of_word(word: u64) {
        lemma_split_join(word);
        lemma_addr_in_range(word);
        Self::lemma_at(word_addr(word));
    }

    proof fn lemma_to_word(self) {
        lemma_join_split(self.addr(), Tag::Record);
        self.lemma_addr_eq(Self::at(self.addr()));
    }

    fn untag(raw: RawObj) -> (value: Self) {
        Self::from_obj_ptr(addr_of_word(raw.bits()))
    }

    fn retag(self) -> (raw: RawObj) {
        let addr = self.get_ptr();
        proof {
            lemma_join_split(addr, Tag::Record);
        }
        RawObj::new(join(addr, Tag::Record))
    }

    fn admits(raw: RawObj) -> (yes: bool) {
        code_of(raw.bits()) == 6
    }

    fn expected() -> (subset: Type) {
        Type::Record
    }
}

/// The address of a hash table.
#[derive(Clone, Copy, Debug, PartialEq, Eq, Hash, Structural)]
pub struct HashTableRef {
    addr: u64,
}

impl HashTableRef {
    /// The tag of the words that carry such an address.
    pub const TAG: Tag = Tag::HashTable;

    /// The address itself.
    pub closed spec fn addr(self) -> u64 {
        self.addr
    }

    /// The handle for an address.
    pub closed spec fn at(addr: u64) -> Self {
        HashTableRef { addr }
    }

    #[verifier::type_invariant]
    spec fn inv(self) -> bool {
        self.addr < ADDR_LIMIT
    }

    pub proof fn lemma_at(addr: u64)
        ensures
            Self::at(addr).addr() == addr,
    {
    }

    pub proof fn lemma_addr_eq(self, other: Self)
        ensures
            self.addr() == other.addr() <==> self == other,
            Self::at(self.addr()) == self,
    {
    }

    /// The word of a handle carries its tag.
    pub proof fn lemma_tag(self)
        ensures
            word_tag(self.to_word()) == Tag::HashTable,
    {
        lemma_make_word_tag(self.addr(), Tag::HashTable);
    }

    /// The handle for an address.
    pub fn from_obj_ptr(addr: u64) -> (handle: Self)
        requires
            addr < ADDR_LIMIT,
        ensures
            handle == Self::at(addr),
            handle.addr() == addr,
    {
        HashTableRef { addr }
    }

    /// The address itself.
    pub fn get_ptr(self) -> (addr: u64)
        ensures
            addr == self.addr(),
            addr < ADDR_LIMIT,
    {
        proof {
            use_type_invariant(&self);
        }
        self.addr
    }

    /// The tagged word for this address.
    pub fn tag_ptr(self) -> (gc: Gc<HashTableRef>)
        ensures
            gc.word() == make_word(self.addr(), Tag::HashTable),
            gc.word() == self.to_word(),
    {
        Gc::from_raw(self.retag())
    }
}

impl TaggedPtr for HashTableRef {
    open spec fn accepts(word: u64) -> bool {
        valid_word(word) && word_code(word) == Tag::HashTable.code()
    }

    open spec fn of_word(word: u64) -> Self {
        Self::at(word_addr(word))
    }

    open spec fn to_word(self) -> u64 {
        make_word(self.addr(), Tag::HashTable)
    }

    open spec fn wf(self) -> bool {
        self.addr() < ADDR_LIMIT
    }

    open spec fn subset() -> Type {
        Type::HashTable
    }

    proof fn lemma_of_word(word: u64) {
        lemma_split_join(word);
        lemma_addr_in_range(word);
        Self::lemma_at(word_addr(word));
    }

    proof fn lemma_to_word(self) {
        lemma_join_split(self.addr(), Tag::HashTable);
        self.lemma_addr_eq(Self::at(self.addr()));
    }

    fn untag(raw: RawObj) -> (value: Self) {
        Self::from_obj_ptr(addr_of_word(raw.bits()))
    }

    fn retag(self) -> (raw: RawObj) {
        let addr = self.get_ptr();
        proof {
            lemma_join_split(addr, Tag::HashTable);
        }
        RawObj::new(join(addr, Tag::HashTable))
    }

    fn admits(raw: RawObj) -> (yes: bool) {
        code_of(raw.bits()) == 7
    }

    fn expected() -> (subset: Type) {
        Type::HashTable
    }
}

/// The address of a byte-compiled function.
#[derive(Clone, Copy, Debug, PartialEq, Eq, Hash, Structural)]
pub struct ByteFnRef {
    addr: u64,
}

impl ByteFnRef {
    /// The tag of the words that carry such an address.
    pub const TAG: Tag = Tag::ByteFn;

    /// The address itself.
    pub closed spec fn addr(self) -> u64 {
        self.addr
    }

    /// The handle for an address.
    pub closed spec fn at(addr: u64) -> Self {
        ByteFnRef { addr }
    }

    #[verifier::type_invariant]
    spec fn inv(self) -> bool {
        self.addr < ADDR_LIMIT
    }

    pub proof fn lemma_at(addr: u64)
        ensures
            Self::at(addr).addr() == addr,
    {
    }

    pub proof fn lemma_addr_eq(self, other: Self)
        ensures
            self.addr() == other.addr() <==> self == other,
            Self::at(self.addr()) == self,
    {
    }

    /// The word of a handle carries its tag.
    pub proof fn lemma_tag(self)
        ensures
            word_tag(self.to_word()) == Tag::ByteFn,
    {
        lemma_make_word_tag(self.addr(), Tag::ByteFn);
    }

    /// The handle for an address.
    pub fn from_obj_ptr(addr: u64) -> (handle: Self)
        requires
            addr < ADDR_LIMIT,
        ensures
            handle == Self::at(addr),
            handle.addr() == addr,
    {
        ByteFnRef { addr }
    }

    /// The address itself.
    pub fn get_ptr(self) -> (addr: u64)
        ensures
            addr == self.addr(),
            addr < ADDR_LIMIT,
    {
        proof {
            use_type_invariant(&self);
        }
        self.addr
    }

    /// The tagged word for this address.
    pub fn tag_ptr(self) -> (gc: Gc<ByteFnRef>)
        ensures
            gc.word() == make_word(self.addr(), Tag::ByteFn),
            gc.word() == self.to_word(),
    {
        Gc::from_raw(self.retag())
    }
}

impl TaggedPtr for ByteFnRef {
    open spec fn accepts(word: u64) -> bool {
        valid_word(word) && word_code(word) == Tag::ByteFn.code()
    }

    open spec fn of_word(word: u64) -> Self {
        Self::at(word_addr(word))
    }

    open spec fn to_word(self) -> u64 {
        make_word(self.addr(), Tag::ByteFn)
    }

    open spec fn wf(self) -> bool {
        self.addr() < ADDR_LIMIT
    }

    open spec fn subset() -> Type {
        Type::Func
    }

    proof fn lemma_of_word(word: u64) {
        lemma_split_join(word);
        lemma_addr_in_range(word);
        Self::lemma_at(word_addr(word));
    }

    proof fn lemma_to_word(self) {
        lemma_join_split(self.addr(), Tag::ByteFn);
        self.lemma_addr_eq(Self::at(self.addr()));
    }

    fn untag(raw: RawObj) -> (value: Self) {
        Self::from_obj_ptr(addr_of_word(raw.bits()))
    }

    fn retag(self) -> (raw: RawObj) {
        let addr = self.get_ptr();
        proof {
            lemma_join_split(addr, Tag::ByteFn);
        }
        RawObj::new(join(addr, Tag::ByteFn))
    }

    fn admits(raw: RawObj) -> (yes: bool) {
        code_of(raw.bits()) == 9
    }

    fn expected() -> (subset: Type) {
        Type::Func
    }
}

/// The address of a built-in function.
#[derive(Clone, Copy, Debug, PartialEq, Eq, Hash, Structural)]
pub struct SubrRef {
    addr: u64,
}

impl SubrRef {
    /// The tag of the words that carry such an address.
    pub const TAG: Tag = Tag::SubrFn;

    /// The address itself.
    pub closed spec fn addr(self) -> u64 {
        self.addr
    }

    /// The handle for an address.
    pub closed spec fn at(addr: u64) -> Self {
        SubrRef { addr }
    }

    #[verifier::type_invariant]
    spec fn inv(self) -> bool {
        self.addr < ADDR_LIMIT
    }

    pub proof fn lemma_at(addr: u64)
        ensures
            Self::at(addr).addr() == addr,
    {
    }

    pub proof fn lemma_addr_eq(self, other: Self)
        ensures
            self.addr() == other.addr() <==> self == other,
            Self::at(self.addr()) == self,
    {
    }

    /// The word of a handle carries its tag.
    pub proof fn lemma_tag(self)
        ensures
            word_tag(self.to_word()) == Tag::SubrFn,
    {
        lemma_make_word_tag(self.addr(), Tag::SubrFn);
    }

    /// The handle for an address.
    pub fn from_obj_ptr(addr: u64) -> (handle: Self)
        requires
            addr < ADDR_LIMIT,
        ensures
            handle == Self::at(addr),
            handle.addr() == addr,
    {
        SubrRef { addr }
    }

    /// The address itself.
    pub fn get_ptr(self) -> (addr: u64)
        ensures
            addr == self.addr(),
            addr < ADDR_LIMIT,
    {
        proof {
            use_type_invariant(&self);
        }
        self.addr
    }

    /// The tagged word for this address.
    pub fn tag_ptr(self) -> (gc: Gc<SubrRef>)
        ensures
            gc.word() == make_word(self.addr(), Tag::SubrFn),
            gc.word() == self.to_word(),
    {
        Gc::from_raw(self.retag())
    }
}

impl TaggedPtr for SubrRef {
    open spec fn accepts(word: u64) -> bool {
        valid_word(word) && word_code(word) == Tag::SubrFn.code()
    }

    open spec fn of_word(word: u64) -> Self {
        Self::at(word_addr(word))
    }

    open spec fn to_word(self) -> u64 {
        make_word(self.addr(), Tag::SubrFn)
    }

    open spec fn wf(self) -> bool {
        self.addr() < ADDR_LIMIT
    }

    open spec fn subset() -> Type {
        Type::Func
    }

    proof fn lemma_of_word(word: u64) {
        lemma_split_join(word);
        lemma_addr_in_range(word);
        Self::lemma_at(word_addr(word));
    }

    proof fn lemma_to_word(self) {
        lemma_join_split(self.addr(), Tag::SubrFn);
        self.lemma_addr_eq(Self::at(self.addr()));
    }

    fn untag(raw: RawObj) -> (value: Self) {
        Self::from_obj_ptr(addr_of_word(raw.bits()))
    }

    fn retag(self) -> (raw: RawObj) {
        let addr = self.get_ptr();
        proof {
            lemma_join_split(addr, Tag::SubrFn);
        }
        RawObj::new(join(addr, Tag::SubrFn))
    }

    fn admits(raw: RawObj) -> (yes: bool) {
        code_of(raw.bits()) == 8
    }

    fn expected() -> (subset: Type) {
        Type::Func
    }
}

} // verus!
