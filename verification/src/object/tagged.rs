//! Tagged values and their typed views.
//!
//! A [`Gc<T>`] is one machine word that stands for a `T`. Reading the word as
//! its view ([`Gc::untag`]) looks at the tag alone: it touches no block and
//! allocates nothing, and packing the view again gives the same word.

use std::marker::PhantomData;
use vstd::prelude::*;
use vstd::std_specs::convert::{FromSpecImpl, TryFromSpec, TryFromSpecImpl};
use crate::error::{Type, TypeError};
use crate::object::handle::{
    ByteFnRef, ConsRef, FloatRef, HashTableRef, RecordRef, StringRef, SubrRef, SymbolRef, VecRef,
};
use crate::object::tag::{
    Tag, code_of, int_fits, int_word, join, lemma_int_word, lemma_join_split, lemma_split_join,
    make_word, payload_of, valid_word, word_code, word_payload, word_tag,
};

verus! {

/// The word of the canonical `nil` symbol.
pub const NIL_WORD: u64 = 0;

/// The word of the canonical `t` symbol.
pub const TRUE_WORD: u64 = 0x100;

/// The address of the canonical `nil` symbol.
pub const NIL_ADDR: u64 = 0;

/// The address of the canonical `t` symbol.
pub const TRUE_ADDR: u64 = 1;

/// The two canonical symbols are symbols at their fixed addresses.
pub proof fn lemma_static_words()
    ensures
        NIL_WORD == make_word(NIL_ADDR, Tag::Symbol),
        TRUE_WORD == make_word(TRUE_ADDR, Tag::Symbol),
        valid_word(NIL_WORD),
        valid_word(TRUE_WORD),
        word_tag(NIL_WORD) == Tag::Symbol,
        word_tag(TRUE_WORD) == Tag::Symbol,
{
    lemma_join_split(NIL_ADDR, Tag::Symbol);
    lemma_join_split(TRUE_ADDR, Tag::Symbol);
    assert((0u64 << 8) | 0u64 == 0u64) by (bit_vector);
    assert((1u64 << 8) | 0u64 == 0x100u64) by (bit_vector);
}

/// A tagged word with its type erased: what the collector keeps on its stack.
#[derive(Clone, Copy, Debug, PartialEq, Eq, Hash, Structural)]
pub struct RawObj {
    ptr: u64,
}

impl RawObj {
    /// The word itself.
    pub closed spec fn word(self) -> u64 {
        self.ptr
    }

    /// The raw value that holds `word`.
    pub closed spec fn of(word: u64) -> Self {
        RawObj { ptr: word }
    }

    #[verifier::type_invariant]
    spec fn inv(self) -> bool {
        valid_word(self.ptr)
    }

    /// Two raw values with the same word are the same.
    pub proof fn lemma_word_eq(self, other: Self)
        ensures
            self.word() == other.word() <==> self == other,
            Self::of(self.word()) == self,
    {
    }

    pub proof fn lemma_of(word: u64)
        ensures
            Self::of(word).word() == word,
    {
    }

    /// The raw value that holds `word`.
    pub fn new(word: u64) -> (raw: RawObj)
        requires
            valid_word(word),
        ensures
            raw.word() == word,
            raw == Self::of(word),
    {
        RawObj { ptr: word }
    }

    /// The word itself.
    pub fn bits(self) -> (word: u64)
        ensures
            word == self.word(),
            valid_word(word),
    {
        proof {
            use_type_invariant(&self);
        }
        self.ptr
    }
}

impl Default for RawObj {
    fn default() -> (raw: RawObj)
        ensures
            raw.word() == NIL_WORD,
    {
        proof {
            lemma_static_words();
        }
        RawObj { ptr: NIL_WORD }
    }
}

/// A type that a tagged word can be read as.
pub trait TaggedPtr: Sized + Copy {
    /// The words that stand for a value of this type.
    spec fn accepts(word: u64) -> bool;

    /// The value that `word` stands for.
    spec fn of_word(word: u64) -> Self;

    /// The word that stands for a value.
    spec fn to_word(self) -> u64;

    /// The values that some word stands for.
    spec fn wf(self) -> bool;

    /// The name under which a failed projection to this type is reported.
    spec fn subset() -> Type;

    /// An accepted word is valid, and reading it loses nothing.
    proof fn lemma_of_word(word: u64)
        requires
            Self::accepts(word),
        ensures
            valid_word(word),
            Self::of_word(word).wf(),
            Self::of_word(word).to_word() == word,
    ;

    /// A well-formed value has an accepted word, and reading that word gives
    /// the value back.
    proof fn lemma_to_word(self)
        requires
            self.wf(),
        ensures
            Self::accepts(self.to_word()),
            Self::of_word(self.to_word()) == self,
    ;

    /// Reads a word as a value of this type.
    fn untag(raw: RawObj) -> (value: Self)
        requires
            Self::accepts(raw.word()),
        ensures
            value == Self::of_word(raw.word()),
    ;

    /// Packs a value into its word.
    fn retag(self) -> (raw: RawObj)
        ensures
            raw.word() == self.to_word(),
            Self::accepts(raw.word()),
    ;

    /// Whether a word stands for a value of this type.
    fn admits(raw: RawObj) -> (yes: bool)
        ensures
            yes == Self::accepts(raw.word()),
    ;

    /// The name under which a failed projection to this type is reported.
    fn expected() -> (subset: Type)
        ensures
            subset == Self::subset(),
    ;
}

/// A tagged word that is known to stand for a `T`.
#[derive(Debug, PartialEq, Eq, Hash)]
pub struct Gc<T: TaggedPtr> {
    ptr: u64,
    _data: PhantomData<T>,
}

/// A value of any kind.
pub type GcObj = Gc<Object>;

impl<T: TaggedPtr> Clone for Gc<T> {
    fn clone(&self) -> (copy: Self)
        ensures
            copy == *self,
    {
        proof {
            use_type_invariant(self);
        }
        Gc { ptr: self.ptr, _data: PhantomData }
    }
}

impl<T: TaggedPtr> Copy for Gc<T> {

}

impl<T: TaggedPtr> Gc<T> {
    /// The word itself.
    pub closed spec fn word(self) -> u64 {
        self.ptr
    }

    /// The value of this type that holds `word`.
    pub closed spec fn of(word: u64) -> Self {
        Gc { ptr: word, _data: PhantomData }
    }

    #[verifier::type_invariant]
    spec fn inv(self) -> bool {
        T::accepts(self.ptr)
    }

    /// What holds of every value in running code: its word stands for a `T`.
    pub open spec fn wf(self) -> bool {
        T::accepts(self.word())
    }

    /// The tag of the word.
    pub open spec fn spec_tag(self) -> Tag {
        word_tag(self.word())
    }

    /// The typed view of the value.
    pub open spec fn view(self) -> T {
        T::of_word(self.word())
    }

    /// Two values with the same word are the same value.
    pub proof fn lemma_word_eq(self, other: Self)
        ensures
            self.word() == other.word() <==> self == other,
            Self::of(self.word()) == self,
    {
    }

    pub proof fn lemma_of(word: u64)
        ensures
            Self::of(word).word() == word,
    {
    }

    /// Wraps a word that stands for a `T`.
    pub fn new(ptr: u64) -> (gc: Self)
        requires
            T::accepts(ptr),
        ensures
            gc.word() == ptr,
            gc == Self::of(ptr),
    {
        Gc { ptr, _data: PhantomData }
    }

    /// Packs an address and a tag into a word.
    pub fn from_ptr(addr: u64, tag: Tag) -> (gc: Self)
        requires
            T::accepts(make_word(addr, tag)),
        ensures
            gc.word() == make_word(addr, tag),
            gc == Self::of(make_word(addr, tag)),
    {
        Self::new(join(addr, tag))
    }

    /// Splits the word into its payload and its tag.
    pub fn untag_ptr(self) -> (parts: (u64, Tag))
        ensures
            parts.0 == word_payload(self.word()) as u64,
            parts.1 == word_tag(self.word()),
            parts.1.code() == word_code(self.word()),
            make_word(parts.0, parts.1) == self.word(),
    {
        let addr = #[verifier::truncate] (payload_of(self.ptr) as u64);
        let tag = self.tag();
        proof {
            use_type_invariant(&self);
            T::lemma_of_word(self.ptr);
            lemma_split_join(self.ptr);
        }
        (addr, tag)
    }

    /// The tag of the word.
    pub fn tag(self) -> (tag: Tag)
        ensures
            tag == word_tag(self.word()),
            tag.code() == word_code(self.word()),
    {
        self.into_raw().tag()
    }

    /// Forgets the type of the value.
    pub fn into_raw(self) -> (raw: RawObj)
        ensures
            raw.word() == self.word(),
            raw == RawObj::of(self.word()),
    {
        proof {
            use_type_invariant(&self);
            T::lemma_of_word(self.ptr);
        }
        RawObj::new(self.ptr)
    }

    /// The word itself.
    pub fn into_ptr(self) -> (word: u64)
        ensures
            word == self.word(),
            T::accepts(word),
    {
        proof {
            use_type_invariant(&self);
        }
        self.ptr
    }

    /// Gives a raw value its type back.
    pub fn from_raw(raw: RawObj) -> (gc: Self)
        requires
            T::accepts(raw.word()),
        ensures
            gc.word() == raw.word(),
            gc == Self::of(raw.word()),
    {
        Self::new(raw.bits())
    }

    /// Gives a word its type back.
    pub fn from_raw_ptr(raw: u64) -> (gc: Self)
        requires
            T::accepts(raw),
        ensures
            gc.word() == raw,
            gc == Self::of(raw),
    {
        Self::new(raw)
    }

    /// Identity: the two words are the same, bit for bit.
    pub fn ptr_eq<U: TaggedPtr>(self, other: Gc<U>) -> (same: bool)
        ensures
            same <==> self.word() == other.word(),
    {
        self.ptr == other.ptr
    }

    /// The same word, seen as a value of any kind.
    pub fn copy_as_obj(self) -> (obj: Gc<Object>)
        ensures
            obj.word() == self.word(),
            obj == Gc::<Object>::of(self.word()),
    {
        proof {
            use_type_invariant(&self);
            T::lemma_of_word(self.ptr);
        }
        Gc::new(self.ptr)
    }

    /// The same word, seen as a value of any kind.
    pub fn as_obj(&self) -> (obj: Gc<Object>)
        ensures
            obj.word() == self.word(),
            obj == Gc::<Object>::of(self.word()),
    {
        self.copy_as_obj()
    }

    /// The typed view of the value.
    pub fn untag(self) -> (value: T)
        ensures
            value == self@,
            value.wf(),
            value.to_word() == self.word(),
    {
        proof {
            use_type_invariant(&self);
            T::lemma_of_word(self.ptr);
        }
        T::untag(RawObj::new(self.ptr))
    }

    /// The word that stands for a typed view.
    pub fn retag(value: T) -> (gc: Self)
        ensures
            gc.word() == value.to_word(),
            gc == Self::of(value.to_word()),
    {
        Self::from_raw(value.retag())
    }
}

impl RawObj {
    /// The tag of the word.
    pub fn tag(self) -> (tag: Tag)
        ensures
            tag == word_tag(self.word()),
            tag.code() == word_code(self.word()),
            valid_word(self.word()),
    {
        match Tag::from_u8(code_of(self.bits())) {
            Some(tag) => tag,
            None => {
                proof {
                    assert(false);
                }
                Tag::Symbol
            },
        }
    }
}

impl TaggedPtr for i64 {
    open spec fn accepts(word: u64) -> bool {
        valid_word(word) && word_code(word) == Tag::Int.code()
    }

    open spec fn of_word(word: u64) -> Self {
        word_payload(word)
    }

    open spec fn to_word(self) -> u64 {
        int_word(self)
    }

    open spec fn wf(self) -> bool {
        int_fits(self)
    }

    open spec fn subset() -> Type {
        Type::Int
    }

    proof fn lemma_of_word(word: u64) {
        lemma_split_join(word);
        lemma_payload_fits(word);
    }

    proof fn lemma_to_word(self) {
        lemma_int_word(self);
    }

    fn untag(raw: RawObj) -> (value: Self) {
        let value = payload_of(raw.bits());
        assert(<i64 as TaggedPtr>::of_word(raw.word()) == word_payload(raw.word()));
        value
    }

    fn retag(self) -> (raw: RawObj) {
        proof {
            lemma_int_word(self);
        }
        RawObj::new(join(#[verifier::truncate] (self as u64), Tag::Int))
    }

    fn admits(raw: RawObj) -> (yes: bool) {
        code_of(raw.bits()) == 1
    }

    fn expected() -> (subset: Type) {
        Type::Int
    }
}

/// The payload of any word fits in the payload of a word.
pub proof fn lemma_payload_fits(word: u64)
    ensures
        int_fits(word_payload(word)),
{
    let p = word_payload(word);
    assert(-0x80_0000_0000_0000i64 <= p <= 0x7f_ffff_ffff_ffffi64) by (bit_vector)
        requires
            p == (word as i64) >> 8,
    ;
}

/// Any Lisp value, by kind. One variant for each tag.
#[derive(Clone, Copy, Debug, PartialEq, Eq, Structural)]
pub enum Object {
    Int(i64),
    Float(FloatRef),
    Symbol(SymbolRef),
    Cons(ConsRef),
    Vec(VecRef),
    Record(RecordRef),
    HashTable(HashTableRef),
    String(StringRef),
    ByteFn(ByteFnRef),
    SubrFn(SubrRef),
}

impl Object {
    /// The kind of the value.
    pub open spec fn type_of(self) -> Type {
        match self {
            Object::Int(_) => Type::Int,
            Object::Float(_) => Type::Float,
            Object::Symbol(_) => Type::Symbol,
            Object::Cons(_) => Type::Cons,
            Object::Vec(_) => Type::Vec,
            Object::Record(_) => Type::Record,
            Object::HashTable(_) => Type::HashTable,
            Object::String(_) => Type::String,
            Object::ByteFn(_) | Object::SubrFn(_) => Type::Func,
        }
    }

    /// Return the type of an object
    pub fn get_type(self) -> (kind: Type)
        ensures
            kind == self.type_of(),
    {
        match self {
            Object::Int(_) => Type::Int,
            Object::Float(_) => Type::Float,
            Object::Symbol(_) => Type::Symbol,
            Object::Cons(_) => Type::Cons,
            Object::Vec(_) => Type::Vec,
            Object::Record(_) => Type::Record,
            Object::HashTable(_) => Type::HashTable,
            Object::String(_) => Type::String,
            Object::ByteFn(_) | Object::SubrFn(_) => Type::Func,
        }
    }
}

impl TaggedPtr for Object {
    open spec fn accepts(word: u64) -> bool {
        valid_word(word)
    }

    open spec fn of_word(word: u64) -> Self {
        match word_tag(word) {
            Tag::Symbol => Object::Symbol(SymbolRef::of_word(word)),
            Tag::Cons => Object::Cons(ConsRef::of_word(word)),
            Tag::SubrFn => Object::SubrFn(SubrRef::of_word(word)),
            Tag::ByteFn => Object::ByteFn(ByteFnRef::of_word(word)),
            Tag::Int => Object::Int(word_payload(word)),
            Tag::Float => Object::Float(FloatRef::of_word(word)),
            Tag::String => Object::String(StringRef::of_word(word)),
            Tag::Vec => Object::Vec(VecRef::of_word(word)),
            Tag::Record => Object::Record(RecordRef::of_word(word)),
            Tag::HashTable => Object::HashTable(HashTableRef::of_word(word)),
        }
    }

    open spec fn to_word(self) -> u64 {
        match self {
            Object::Int(n) => int_word(n),
            Object::Float(r) => r.to_word(),
            Object::Symbol(r) => r.to_word(),
            Object::Cons(r) => r.to_word(),
            Object::Vec(r) => r.to_word(),
            Object::Record(r) => r.to_word(),
            Object::HashTable(r) => r.to_word(),
            Object::String(r) => r.to_word(),
            Object::ByteFn(r) => r.to_word(),
            Object::SubrFn(r) => r.to_word(),
        }
    }

    open spec fn wf(self) -> bool {
        match self {
            Object::Int(n) => int_fits(n),
            Object::Float(r) => r.wf(),
            Object::Symbol(r) => r.wf(),
            Object::Cons(r) => r.wf(),
            Object::Vec(r) => r.wf(),
            Object::Record(r) => r.wf(),
            Object::HashTable(r) => r.wf(),
            Object::String(r) => r.wf(),
            Object::ByteFn(r) => r.wf(),
            Object::SubrFn(r) => r.wf(),
        }
    }

    open spec fn subset() -> Type {
        Type::Symbol
    }

    proof fn lemma_of_word(word: u64) {
        lemma_split_join(word);
        lemma_payload_fits(word);
        match word_tag(word) {
            Tag::Symbol => SymbolRef::lemma_of_word(word),
            Tag::Cons => ConsRef::lemma_of_word(word),
            Tag::SubrFn => SubrRef::lemma_of_word(word),
            Tag::ByteFn => ByteFnRef::lemma_of_word(word),
            Tag::Int => {},
            Tag::Float => FloatRef::lemma_of_word(word),
            Tag::String => StringRef::lemma_of_word(word),
            Tag::Vec => VecRef::lemma_of_word(word),
            Tag::Record => RecordRef::lemma_of_word(word),
            Tag::HashTable => HashTableRef::lemma_of_word(word),
        }
    }

    proof fn lemma_to_word(self) {
        match self {
            Object::Int(n) => lemma_int_word(n),
            Object::Float(r) => r.lemma_to_word(),
            Object::Symbol(r) => r.lemma_to_word(),
            Object::Cons(r) => r.lemma_to_word(),
            Object::Vec(r) => r.lemma_to_word(),
            Object::Record(r) => r.lemma_to_word(),
            Object::HashTable(r) => r.lemma_to_word(),
            Object::String(r) => r.lemma_to_word(),
            Object::ByteFn(r) => r.lemma_to_word(),
            Object::SubrFn(r) => r.lemma_to_word(),
        }
    }

    fn untag(raw: RawObj) -> (value: Self) {
        match raw.tag() {
            Tag::Symbol => Object::Symbol(SymbolRef::untag(raw)),
            Tag::Cons => Object::Cons(ConsRef::untag(raw)),
            Tag::SubrFn => Object::SubrFn(SubrRef::untag(raw)),
            Tag::ByteFn => Object::ByteFn(ByteFnRef::untag(raw)),
            Tag::Int => Object::Int(i64::untag(raw)),
            Tag::Float => Object::Float(FloatRef::untag(raw)),
            Tag::String => Object::String(StringRef::untag(raw)),
            Tag::Vec => Object::Vec(VecRef::untag(raw)),
            Tag::Record => Object::Record(RecordRef::untag(raw)),
            Tag::HashTable => Object::HashTable(HashTableRef::untag(raw)),
        }
    }

    fn retag(self) -> (raw: RawObj) {
        let raw = match self {
            Object::Int(n) => n.retag(),
            Object::Float(r) => r.retag(),
            Object::Symbol(r) => r.retag(),
            Object::Cons(r) => r.retag(),
            Object::Vec(r) => r.retag(),
            Object::Record(r) => r.retag(),
            Object::HashTable(r) => r.retag(),
            Object::String(r) => r.retag(),
            Object::ByteFn(r) => r.retag(),
            Object::SubrFn(r) => r.retag(),
        };
        proof {
            use_type_invariant(&raw);
        }
        raw
    }

    fn admits(raw: RawObj) -> (yes: bool) {
        let _ = raw.bits();
        true
    }

    fn expected() -> (subset: Type) {
        Type::Symbol
    }
}

/// A number: an integer or a float.
#[derive(Clone, Copy, Debug, PartialEq, Eq, Structural)]
pub enum Number {
    Int(i64),
    Float(FloatRef),
}

impl TaggedPtr for Number {
    open spec fn accepts(word: u64) -> bool {
        valid_word(word) && (word_tag(word) == Tag::Int || word_tag(word) == Tag::Float)
    }

    open spec fn of_word(word: u64) -> Self {
        match word_tag(word) {
            Tag::Int => Number::Int(word_payload(word)),
            _ => Number::Float(FloatRef::of_word(word)),
        }
    }

    open spec fn to_word(self) -> u64 {
        match self {
            Number::Int(n) => int_word(n),
            Number::Float(r) => r.to_word(),
        }
    }

    open spec fn wf(self) -> bool {
        match self {
            Number::Int(n) => int_fits(n),
            Number::Float(r) => r.wf(),
        }
    }

    open spec fn subset() -> Type {
        Type::Number
    }

    proof fn lemma_of_word(word: u64) {
        lemma_split_join(word);
        lemma_payload_fits(word);
        if word_tag(word) == Tag::Float {
            FloatRef::lemma_of_word(word);
        }
    }

    proof fn lemma_to_word(self) {
        match self {
            Number::Int(n) => lemma_int_word(n),
            Number::Float(r) => r.lemma_to_word(),
        }
    }

    fn untag(raw: RawObj) -> (value: Self) {
        match raw.tag() {
            Tag::Int => Number::Int(i64::untag(raw)),
            _ => Number::Float(FloatRef::untag(raw)),
        }
    }

    fn retag(self) -> (raw: RawObj) {
        match self {
            Number::Int(n) => {
                proof {
                    lemma_int_word(n);
                }
                n.retag()
            },
            Number::Float(r) => {
                let raw = r.retag();
                proof {
                    use_type_invariant(&raw);
                    FloatRef::lemma_of_word(raw.word());
                }
                raw
            },
        }
    }

    fn admits(raw: RawObj) -> (yes: bool) {
        match raw.tag() {
            Tag::Int | Tag::Float => true,
            _ => false,
        }
    }

    fn expected() -> (subset: Type) {
        Type::Number
    }
}

/// A list: the canonical `nil`, or a cons cell.
#[derive(Clone, Copy, Debug, PartialEq, Eq, Structural)]
pub enum List {
    Nil,
    Cons(ConsRef),
}

impl List {
    /// The empty list: the canonical `nil`.
    pub fn empty() -> (list: Gc<List>)
        ensures
            list.word() == NIL_WORD,
            list@ == List::Nil,
    {
        proof {
            lemma_static_words();
        }
        Gc::from_ptr(NIL_ADDR, Tag::Symbol)
    }
}

impl TaggedPtr for List {
    open spec fn accepts(word: u64) -> bool {
        word == NIL_WORD || (valid_word(word) && word_tag(word) == Tag::Cons)
    }

    open spec fn of_word(word: u64) -> Self {
        match word_tag(word) {
            Tag::Cons => List::Cons(ConsRef::of_word(word)),
            _ => List::Nil,
        }
    }

    open spec fn to_word(self) -> u64 {
        match self {
            List::Nil => NIL_WORD,
            List::Cons(r) => r.to_word(),
        }
    }

    open spec fn wf(self) -> bool {
        match self {
            List::Nil => true,
            List::Cons(r) => r.wf(),
        }
    }

    open spec fn subset() -> Type {
        Type::List
    }

    proof fn lemma_of_word(word: u64) {
        lemma_static_words();
        if word != NIL_WORD {
            lemma_split_join(word);
            ConsRef::lemma_of_word(word);
        }
    }

    proof fn lemma_to_word(self) {
        lemma_static_words();
        match self {
            List::Nil => {},
            List::Cons(r) => r.lemma_to_word(),
        }
    }

    fn untag(raw: RawObj) -> (value: Self) {
        match raw.tag() {
            Tag::Cons => List::Cons(ConsRef::untag(raw)),
            _ => List::Nil,
        }
    }

    fn retag(self) -> (raw: RawObj) {
        match self {
            List::Nil => RawObj::default(),
            List::Cons(r) => {
                let raw = r.retag();
                proof {
                    use_type_invariant(&raw);
                    ConsRef::lemma_of_word(raw.word());
                }
                raw
            },
        }
    }

    fn admits(raw: RawObj) -> (yes: bool) {
        raw.bits() == NIL_WORD || matches!(raw.tag(), Tag::Cons)
    }

    fn expected() -> (subset: Type) {
        Type::List
    }
}

/// Something that can be called: a byte-compiled or built-in function, or a
/// cons or a symbol that stands for one.
#[derive(Clone, Copy, Debug, PartialEq, Eq, Structural)]
pub enum Function {
    ByteFn(ByteFnRef),
    SubrFn(SubrRef),
    Cons(ConsRef),
    Symbol(SymbolRef),
}

impl TaggedPtr for Function {
    open spec fn accepts(word: u64) -> bool {
        valid_word(word) && (word_tag(word) == Tag::ByteFn || word_tag(word) == Tag::SubrFn
            || word_tag(word) == Tag::Cons || word_tag(word) == Tag::Symbol)
    }

    open spec fn of_word(word: u64) -> Self {
        match word_tag(word) {
            Tag::Cons => Function::Cons(ConsRef::of_word(word)),
            Tag::SubrFn => Function::SubrFn(SubrRef::of_word(word)),
            Tag::ByteFn => Function::ByteFn(ByteFnRef::of_word(word)),
            _ => Function::Symbol(SymbolRef::of_word(word)),
        }
    }

    open spec fn to_word(self) -> u64 {
        match self {
            Function::ByteFn(r) => r.to_word(),
            Function::SubrFn(r) => r.to_word(),
            Function::Cons(r) => r.to_word(),
            Function::Symbol(r) => r.to_word(),
        }
    }

    open spec fn wf(self) -> bool {
        match self {
            Function::ByteFn(r) => r.wf(),
            Function::SubrFn(r) => r.wf(),
            Function::Cons(r) => r.wf(),
            Function::Symbol(r) => r.wf(),
        }
    }

    open spec fn subset() -> Type {
        Type::Func
    }

    proof fn lemma_of_word(word: u64) {
        lemma_split_join(word);
        match word_tag(word) {
            Tag::Cons => ConsRef::lemma_of_word(word),
            Tag::SubrFn => SubrRef::lemma_of_word(word),
            Tag::ByteFn => ByteFnRef::lemma_of_word(word),
            _ => SymbolRef::lemma_of_word(word),
        }
    }

    proof fn lemma_to_word(self) {
        match self {
            Function::ByteFn(r) => r.lemma_to_word(),
            Function::SubrFn(r) => r.lemma_to_word(),
            Function::Cons(r) => r.lemma_to_word(),
            Function::Symbol(r) => r.lemma_to_word(),
        }
    }

    fn untag(raw: RawObj) -> (value: Self) {
        match raw.tag() {
            Tag::Cons => Function::Cons(ConsRef::untag(raw)),
            Tag::SubrFn => Function::SubrFn(SubrRef::untag(raw)),
            Tag::ByteFn => Function::ByteFn(ByteFnRef::untag(raw)),
            _ => Function::Symbol(SymbolRef::untag(raw)),
        }
    }

    fn retag(self) -> (raw: RawObj) {
        let raw = match self {
            Function::ByteFn(r) => r.retag(),
            Function::SubrFn(r) => r.retag(),
            Function::Cons(r) => r.retag(),
            Function::Symbol(r) => r.retag(),
        };
        proof {
            use_type_invariant(&raw);
            lemma_split_join(raw.word());
        }
        raw
    }

    fn admits(raw: RawObj) -> (yes: bool) {
        match raw.tag() {
            Tag::ByteFn | Tag::SubrFn | Tag::Cons | Tag::Symbol => true,
            _ => false,
        }
    }

    fn expected() -> (subset: Type) {
        Type::Func
    }
}

/// The canonical `nil` symbol: the empty list, and false.
pub fn nil() -> (obj: GcObj)
    ensures
        obj.word() == NIL_WORD,
        obj.is_nil(),
{
    proof {
        lemma_static_words();
    }
    Gc::new(NIL_WORD)
}

/// The canonical `t` symbol: true.
pub fn qtrue() -> (obj: GcObj)
    ensures
        obj.word() == TRUE_WORD,
        !obj.is_nil(),
{
    proof {
        lemma_static_words();
    }
    Gc::new(TRUE_WORD)
}

/// What a projection of `value` to `T` gives.
pub open spec fn project<T: TaggedPtr>(value: GcObj) -> Result<Gc<T>, TypeError> {
    if T::accepts(value.word()) {
        Ok(Gc::<T>::of(value.word()))
    } else {
        Err(TypeError { expected: T::subset(), actual: value@ })
    }
}

impl Gc<Object> {
    /// Whether the value is the canonical `nil`.
    pub open spec fn is_nil(self) -> bool {
        self.word() == NIL_WORD
    }

    /// Whether the value is the canonical `nil`.
    pub fn nil(self) -> (yes: bool)
        ensures
            yes == self.is_nil(),
    {
        self.into_ptr() == NIL_WORD
    }

    /// Narrows the value to a `T`: succeeds exactly on the words that stand
    /// for a `T`, and else returns the value with the name of what was asked.
    pub fn try_as<T: TaggedPtr>(self) -> (out: Result<Gc<T>, TypeError>)
        ensures
            out == project::<T>(self),
            out is Ok <==> T::accepts(self.word()),
    {
        if T::admits(self.into_raw()) {
            Ok(Gc::from_raw(self.into_raw()))
        } else {
            Err(TypeError::new(T::expected(), self.untag()))
        }
    }

    /// The cons cell that the value is.
    pub fn as_cons(self) -> (cons: ConsRef)
        requires
            self.spec_tag() == Tag::Cons,
        ensures
            cons == ConsRef::of_word(self.word()),
            cons.to_word() == self.word(),
    {
        let raw = self.into_raw();
        proof {
            use_type_invariant(&raw);
            lemma_split_join(raw.word());
            ConsRef::lemma_of_word(raw.word());
        }
        ConsRef::untag(raw)
    }
}

/// Reading a value as its view and packing the view again gives the value
/// back.
pub proof fn law_retag_untag<T: TaggedPtr>(value: Gc<T>)
    requires
        value.wf(),
    ensures
        Gc::<T>::of(value@.to_word()) == value,
        value@.wf(),
{
    T::lemma_of_word(value.word());
    value.lemma_word_eq(Gc::<T>::of(value@.to_word()));
}

/// Packing a well-formed view and reading the word again gives the view back.
pub proof fn law_untag_retag<T: TaggedPtr>(view: T)
    requires
        view.wf(),
    ensures
        Gc::<T>::of(view.to_word()).wf(),
        Gc::<T>::of(view.to_word())@ == view,
{
    view.lemma_to_word();
    Gc::<T>::lemma_of(view.to_word());
}

/// An integer that fits in the payload comes back unchanged from its word.
pub proof fn law_int_round_trip(n: i64)
    requires
        int_fits(n),
    ensures
        GcObj::of(int_word(n)).wf(),
        GcObj::of(int_word(n))@ == Object::Int(n),
{
    lemma_int_word(n);
    GcObj::lemma_of(int_word(n));
}

impl TryFrom<Gc<Object>> for Gc<Number> {
    type Error = TypeError;

    fn try_from(value: Gc<Object>) -> (out: Result<Self, TypeError>) {
        value.try_as::<Number>()
    }
}

impl TryFromSpecImpl<Gc<Object>> for Gc<Number> {
    open spec fn obeys_try_from_spec() -> bool {
        true
    }

    open spec fn try_from_spec(value: Gc<Object>) -> Result<Self, TypeError> {
        project::<Number>(value)
    }
}

impl TryFrom<Gc<Object>> for Gc<List> {
    type Error = TypeError;

    fn try_from(value: Gc<Object>) -> (out: Result<Self, TypeError>) {
        value.try_as::<List>()
    }
}

impl TryFromSpecImpl<Gc<Object>> for Gc<List> {
    open spec fn obeys_try_from_spec() -> bool {
        true
    }

    open spec fn try_from_spec(value: Gc<Object>) -> Result<Self, TypeError> {
        project::<List>(value)
    }
}

impl TryFrom<Gc<Object>> for Gc<Function> {
    type Error = TypeError;

    fn try_from(value: Gc<Object>) -> (out: Result<Self, TypeError>) {
        value.try_as::<Function>()
    }
}

impl TryFromSpecImpl<Gc<Object>> for Gc<Function> {
    open spec fn obeys_try_from_spec() -> bool {
        true
    }

    open spec fn try_from_spec(value: Gc<Object>) -> Result<Self, TypeError> {
        project::<Function>(value)
    }
}

impl TryFrom<Gc<Object>> for Gc<i64> {
    type Error = TypeError;

    fn try_from(value: Gc<Object>) -> (out: Result<Self, TypeError>) {
        value.try_as::<i64>()
    }
}

impl TryFromSpecImpl<Gc<Object>> for Gc<i64> {
    open spec fn obeys_try_from_spec() -> bool {
        true
    }

    open spec fn try_from_spec(value: Gc<Object>) -> Result<Self, TypeError> {
        project::<i64>(value)
    }
}

impl TryFrom<Gc<Object>> for Gc<ConsRef> {
    type Error = TypeError;

    fn try_from(value: Gc<Object>) -> (out: Result<Self, TypeError>) {
        value.try_as::<ConsRef>()
    }
}

impl TryFromSpecImpl<Gc<Object>> for Gc<ConsRef> {
    open spec fn obeys_try_from_spec() -> bool {
        true
    }

    open spec fn try_from_spec(value: Gc<Object>) -> Result<Self, TypeError> {
        project::<ConsRef>(value)
    }
}

impl TryFrom<Gc<Object>> for Gc<SymbolRef> {
    type Error = TypeError;

    fn try_from(value: Gc<Object>) -> (out: Result<Self, TypeError>) {
        value.try_as::<SymbolRef>()
    }
}

impl TryFromSpecImpl<Gc<Object>> for Gc<SymbolRef> {
    open spec fn obeys_try_from_spec() -> bool {
        true
    }

    open spec fn try_from_spec(value: Gc<Object>) -> Result<Self, TypeError> {
        project::<SymbolRef>(value)
    }
}

impl TryFrom<Gc<Object>> for Gc<StringRef> {
    type Error = TypeError;

    fn try_from(value: Gc<Object>) -> (out: Result<Self, TypeError>) {
        value.try_as::<StringRef>()
    }
}

impl TryFromSpecImpl<Gc<Object>> for Gc<StringRef> {
    open spec fn obeys_try_from_spec() -> bool {
        true
    }

    open spec fn try_from_spec(value: Gc<Object>) -> Result<Self, TypeError> {
        project::<StringRef>(value)
    }
}

impl TryFrom<Gc<Object>> for Gc<HashTableRef> {
    type Error = TypeError;

    fn try_from(value: Gc<Object>) -> (out: Result<Self, TypeError>) {
        value.try_as::<HashTableRef>()
    }
}

impl TryFromSpecImpl<Gc<Object>> for Gc<HashTableRef> {
    open spec fn obeys_try_from_spec() -> bool {
        true
    }

    open spec fn try_from_spec(value: Gc<Object>) -> Result<Self, TypeError> {
        project::<HashTableRef>(value)
    }
}

impl TryFrom<Gc<Object>> for Gc<VecRef> {
    type Error = TypeError;

    fn try_from(value: Gc<Object>) -> (out: Result<Self, TypeError>) {
        value.try_as::<VecRef>()
    }
}

impl TryFromSpecImpl<Gc<Object>> for Gc<VecRef> {
    open spec fn obeys_try_from_spec() -> bool {
        true
    }

    open spec fn try_from_spec(value: Gc<Object>) -> Result<Self, TypeError> {
        project::<VecRef>(value)
    }
}

impl TryFrom<Gc<Function>> for Gc<ConsRef> {
    type Error = TypeError;

    fn try_from(value: Gc<Function>) -> (out: Result<Self, TypeError>) {
        value.as_obj().try_as::<ConsRef>()
    }
}

impl TryFromSpecImpl<Gc<Function>> for Gc<ConsRef> {
    open spec fn obeys_try_from_spec() -> bool {
        true
    }

    open spec fn try_from_spec(value: Gc<Function>) -> Result<Self, TypeError> {
        project::<ConsRef>(Gc::<Object>::of(value.word()))
    }
}

impl From<i64> for Gc<Object> {
    fn from(n: i64) -> (obj: Gc<Object>) {
        Gc::retag(Object::Int(n))
    }
}

impl FromSpecImpl<i64> for Gc<Object> {
    open spec fn obeys_from_spec() -> bool {
        true
    }

    open spec fn from_spec(n: i64) -> Gc<Object> {
        Gc::<Object>::of(int_word(n))
    }
}

impl From<i32> for Gc<Object> {
    fn from(n: i32) -> (obj: Gc<Object>) {
        Gc::retag(Object::Int(n as i64))
    }
}

impl FromSpecImpl<i32> for Gc<Object> {
    open spec fn obeys_from_spec() -> bool {
        true
    }

    open spec fn from_spec(n: i32) -> Gc<Object> {
        Gc::<Object>::of(int_word(n as i64))
    }
}

impl Gc<Object> {
    /// `None` for `nil`, and else the value narrowed to a `T`.
    pub fn try_from_option<T: TryFrom<Gc<Object>>>(value: Gc<Object>) -> (out: Result<
        Option<T>,
        T::Error,
    >)
        ensures
            value.is_nil() ==> out == Ok::<Option<T>, T::Error>(None),
            !value.is_nil() && T::obeys_try_from_spec() ==> out == match T::try_from_spec(value) {
                Ok(x) => Ok::<Option<T>, T::Error>(Some(x)),
                Err(e) => Err::<Option<T>, T::Error>(e),
            },
    {
        if value.nil() {
            Ok(None)
        } else {
            match T::try_from(value) {
                Ok(x) => Ok(Some(x)),
                Err(e) => Err(e),
            }
        }
    }
}

impl Default for Gc<Object> {
    fn default() -> (obj: Gc<Object>)
        ensures
            obj.is_nil(),
    {
        nil()
    }
}

impl Default for Gc<List> {
    fn default() -> (list: Gc<List>)
        ensures
            list.word() == NIL_WORD,
    {
        List::empty()
    }
}

/// A value narrows to a number exactly where it is an integer or a float.
pub proof fn law_number_projection(value: GcObj)
    requires
        value.wf(),
    ensures
        project::<Number>(value) is Ok <==> (value.spec_tag() == Tag::Int || value.spec_tag()
            == Tag::Float),
{
}

/// A value narrows to a list exactly where it is `nil` or a cons cell.
pub proof fn law_list_projection(value: GcObj)
    requires
        value.wf(),
    ensures
        project::<List>(value) is Ok <==> (value.is_nil() || value.spec_tag() == Tag::Cons),
{
}

/// A value narrows to a function exactly where it is a byte-compiled
/// function, a built-in function, a cons cell or a symbol.
pub proof fn law_function_projection(value: GcObj)
    requires
        value.wf(),
    ensures
        project::<Function>(value) is Ok <==> (value.spec_tag() == Tag::ByteFn || value.spec_tag()
            == Tag::SubrFn || value.spec_tag() == Tag::Cons || value.spec_tag() == Tag::Symbol),
{
}

} // verus!
