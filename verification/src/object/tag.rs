//! The layout of a tagged word.
//!
//! A value is one 64-bit word. Its low eight bits hold the tag, the upper 56
//! bits hold the payload: a signed integer, or the address of an object in a
//! block. Reading the payload sign-extends it, so integers of up to 56 bits
//! and addresses below `2^55` survive the round trip through a word.

use vstd::prelude::*;

verus! {

/// Number of low bits of a word that hold the tag.
pub const TAG_BITS: u32 = 8;

/// One more than the largest address that a word can carry.
pub const ADDR_LIMIT: u64 = 0x80_0000_0000_0000;

/// Smallest integer that a word can carry.
pub const INT_MIN: i64 = -0x80_0000_0000_0000;

/// Largest integer that a word can carry.
pub const INT_MAX: i64 = 0x7f_ffff_ffff_ffff;

/// The kind of value that a word holds. The set is closed.
#[derive(Clone, Copy, Debug, PartialEq, Eq, Structural)]
pub enum Tag {
    Symbol,
    Int,
    Float,
    Cons,
    String,
    Vec,
    Record,
    HashTable,
    SubrFn,
    ByteFn,
}

impl Tag {
    /// The number that stands for this tag in the low bits of a word.
    pub open spec fn code(self) -> u8 {
        match self {
            Tag::Symbol => 0,
            Tag::Int => 1,
            Tag::Float => 2,
            Tag::Cons => 3,
            Tag::String => 4,
            Tag::Vec => 5,
            Tag::Record => 6,
            Tag::HashTable => 7,
            Tag::SubrFn => 8,
            Tag::ByteFn => 9,
        }
    }

    /// The tag that a number stands for, if any.
    pub open spec fn of_code(code: u8) -> Option<Tag> {
        match code {
            0 => Some(Tag::Symbol),
            1 => Some(Tag::Int),
            2 => Some(Tag::Float),
            3 => Some(Tag::Cons),
            4 => Some(Tag::String),
            5 => Some(Tag::Vec),
            6 => Some(Tag::Record),
            7 => Some(Tag::HashTable),
            8 => Some(Tag::SubrFn),
            9 => Some(Tag::ByteFn),
            _ => None,
        }
    }

    /// Whether a value with this tag points into a block.
    pub open spec fn is_heap(self) -> bool {
        self != Tag::Int && self != Tag::SubrFn
    }

    pub fn to_u8(self) -> (code: u8)
        ensures
            code == self.code(),
            code < 10,
            Tag::of_code(code) == Some(self),
    {
        match self {
            Tag::Symbol => 0,
            Tag::Int => 1,
            Tag::Float => 2,
            Tag::Cons => 3,
            Tag::String => 4,
            Tag::Vec => 5,
            Tag::Record => 6,
            Tag::HashTable => 7,
            Tag::SubrFn => 8,
            Tag::ByteFn => 9,
        }
    }

    pub fn from_u8(code: u8) -> (tag: Option<Tag>)
        ensures
            tag == Tag::of_code(code),
            tag is Some <==> code < 10,
            tag matches Some(t) ==> t.code() == code,
    {
        match code {
            0 => Some(Tag::Symbol),
            1 => Some(Tag::Int),
            2 => Some(Tag::Float),
            3 => Some(Tag::Cons),
            4 => Some(Tag::String),
            5 => Some(Tag::Vec),
            6 => Some(Tag::Record),
            7 => Some(Tag::HashTable),
            8 => Some(Tag::SubrFn),
            9 => Some(Tag::ByteFn),
            _ => None,
        }
    }
}

/// The tag bits of a word.
pub open spec fn word_code(word: u64) -> u8 {
    (word & 0xff) as u8
}

/// The payload of a word, sign-extended.
pub open spec fn word_payload(word: u64) -> i64 {
    (word as i64) >> 8
}

/// The word made of a payload and a tag. Payload bits above the 56th are lost.
pub open spec fn make_word(payload: u64, tag: Tag) -> u64 {
    (payload << 8) | (tag.code() as u64)
}

/// The tag of a word whose tag bits are in the closed set.
pub open spec fn word_tag(word: u64) -> Tag {
    Tag::of_code(word_code(word)).unwrap()
}

/// A word is valid when its tag is in the closed set and, unless it holds an
/// integer, its payload is an address: not negative.
pub open spec fn valid_word(word: u64) -> bool {
    &&& word_code(word) < 10
    &&& word_code(word) != Tag::Int.code() ==> word_payload(word) >= 0
}

/// The address that a valid non-integer word carries.
pub open spec fn word_addr(word: u64) -> u64 {
    word_payload(word) as u64
}

/// The word that holds the integer `n`, cut to its low 56 bits.
pub open spec fn int_word(n: i64) -> u64 {
    make_word(n as u64, Tag::Int)
}

/// Whether the integer `n` fits in the payload of a word.
pub open spec fn int_fits(n: i64) -> bool {
    INT_MIN <= n <= INT_MAX
}

/// The payload of a word, sign-extended.
pub fn payload_of(word: u64) -> (payload: i64)
    ensures
        payload == word_payload(word),
{
    (#[verifier::truncate] (word as i64)) >> 8
}

/// The tag bits of a word.
pub fn code_of(word: u64) -> (code: u8)
    ensures
        code == word_code(word),
{
    #[verifier::truncate] ((word & 0xff) as u8)
}

/// The word made of a payload and a tag.
pub fn join(payload: u64, tag: Tag) -> (word: u64)
    ensures
        word == make_word(payload, tag),
{
    (payload << 8) | (tag.to_u8() as u64)
}

/// Splitting a word and putting it together again gives the word back.
pub proof fn lemma_split_join(word: u64)
    requires
        word_code(word) < 10,
    ensures
        make_word(word_payload(word) as u64, word_tag(word)) == word,
        word_tag(word).code() == word_code(word),
{
    let code = word_code(word);
    let tag = word_tag(word);
    assert(tag.code() == code);
    let c = code as u64;
    assert(c == word & 0xff) by (bit_vector)
        requires
            c == ((word & 0xff) as u8) as u64,
    ;
    assert(((((word as i64) >> 8) as u64) << 8) | (word & 0xff) == word) by (bit_vector);
}

/// A word made of any payload and a tag carries that tag.
pub proof fn lemma_make_word_tag(payload: u64, tag: Tag)
    ensures
        word_code(make_word(payload, tag)) == tag.code(),
        word_tag(make_word(payload, tag)) == tag,
{
    let c = tag.code() as u64;
    let w = (payload << 8) | c;
    assert(((w & 0xff) as u8) == c) by (bit_vector)
        requires
            w == (payload << 8) | c,
            c < 10,
    ;
}

/// A word made of an address and a tag gives both back.
pub proof fn lemma_join_split(addr: u64, tag: Tag)
    requires
        addr < ADDR_LIMIT,
    ensures
        word_code(make_word(addr, tag)) == tag.code(),
        word_tag(make_word(addr, tag)) == tag,
        word_payload(make_word(addr, tag)) == addr,
        word_addr(make_word(addr, tag)) == addr,
        valid_word(make_word(addr, tag)),
{
    let c = tag.code() as u64;
    assert(c < 10);
    let w = (addr << 8) | c;
    assert(((w & 0xff) as u8) == c && (((w as i64) >> 8) as u64) == addr && ((w as i64) >> 8) >= 0)
        by (bit_vector)
        requires
            w == (addr << 8) | c,
            c < 10,
            addr < 0x80_0000_0000_0000u64,
    ;
}

/// A word made of an integer gives back its tag, and the integer itself
/// where the integer fits.
pub proof fn lemma_int_word(n: i64)
    ensures
        word_code(int_word(n)) == Tag::Int.code(),
        word_tag(int_word(n)) == Tag::Int,
        valid_word(int_word(n)),
        int_fits(n) ==> word_payload(int_word(n)) == n,
        int_fits(word_payload(int_word(n))),
        int_word(word_payload(int_word(n))) == int_word(n),
{
    let w = ((n as u64) << 8) | 1u64;
    assert(((w & 0xff) as u8) == 1u8) by (bit_vector)
        requires
            w == ((n as u64) << 8) | 1u64,
    ;
    assert(-0x80_0000_0000_0000i64 <= n <= 0x7f_ffff_ffff_ffffi64 ==> ((w as i64) >> 8) == n)
        by (bit_vector)
        requires
            w == ((n as u64) << 8) | 1u64,
    ;
    let p = (w as i64) >> 8;
    assert(-0x80_0000_0000_0000i64 <= p <= 0x7f_ffff_ffff_ffffi64 && ((p as u64) << 8) | 1u64 == w)
        by (bit_vector)
        requires
            w == ((n as u64) << 8) | 1u64,
            p == (w as i64) >> 8,
    ;
}

} // verus!
