//! Structural equality of values.
//!
//! Integers are equal by value, floats as IEEE-754 numbers, strings by their
//! bytes; cons cells, vectors and records are equal where what they hold is
//! equal, slot by slot. Symbols, hash tables, and byte-compiled and built-in
//! functions are equal only to themselves. A comparison follows pointers no
//! deeper than a given depth, so that it ends on cyclic structures too.

use vstd::prelude::*;
use vstd::utf8::encode_utf8;
use crate::gc::block::{Block, Heap};
use crate::object::data::HeapObject;
use crate::object::handle::{SymbolRef, addr_of_word};
use crate::object::tag::{Tag, payload_of, word_payload, word_tag};
use crate::object::tagged::{Gc, GcObj, Object, TaggedPtr};

verus! {

/// Whether the bits are those of a NaN.
pub open spec fn is_nan(bits: u64) -> bool {
    (bits & 0x7ff0_0000_0000_0000) == 0x7ff0_0000_0000_0000 && (bits & 0x000f_ffff_ffff_ffff) != 0
}

/// Whether the bits are those of a zero, of either sign.
pub open spec fn is_zero(bits: u64) -> bool {
    (bits & 0x7fff_ffff_ffff_ffff) == 0
}

/// Whether two floats are equal as numbers: no NaN is equal to anything, the
/// two zeros are equal, and any others are equal where their bits are.
pub open spec fn floats_equal(a: u64, b: u64) -> bool {
    !is_nan(a) && !is_nan(b) && (a == b || (is_zero(a) && is_zero(b)))
}

/// Whether two floats, given by their bits, are equal as numbers.
pub fn float_eq(a: u64, b: u64) -> (equal: bool)
    ensures
        equal == floats_equal(a, b),
{
    let a_nan = (a & 0x7ff0_0000_0000_0000) == 0x7ff0_0000_0000_0000 && (a
        & 0x000f_ffff_ffff_ffff) != 0;
    let b_nan = (b & 0x7ff0_0000_0000_0000) == 0x7ff0_0000_0000_0000 && (b
        & 0x000f_ffff_ffff_ffff) != 0;
    if a_nan || b_nan {
        false
    } else {
        a == b || ((a & 0x7fff_ffff_ffff_ffff) == 0 && (b & 0x7fff_ffff_ffff_ffff) == 0)
    }
}

/// Whether two objects are compared slot by slot: they are of one kind, cons
/// cells, vectors or records, with as many slots.
pub open spec fn compared_by_slots(a: HeapObject, b: HeapObject) -> bool {
    match (a, b) {
        (HeapObject::Cons(_), HeapObject::Cons(_)) => true,
        (HeapObject::Vec(x), HeapObject::Vec(y)) => x@.len() == y@.len(),
        (HeapObject::Record(x), HeapObject::Record(y)) => x@.len() == y@.len(),
        _ => false,
    }
}

impl Heap {
    /// Whether two values are equal, following pointers no deeper than
    /// `depth`; `None` where the depth does not suffice to tell.
    pub open spec fn equal(self, a: u64, b: u64, depth: nat) -> Option<bool>
        decreases depth, 0nat, 0nat,
    {
        if a == b {
            Some(true)
        } else if word_tag(a) != word_tag(b) || !word_tag(a).is_heap() {
            Some(false)
        } else {
            let x = self.referent(a);
            let y = self.referent(b);
            match (x, y) {
                (HeapObject::Float(f), HeapObject::Float(g)) => Some(floats_equal(f.bits, g.bits)),
                (HeapObject::String(s), HeapObject::String(t)) => Some(s@ == t@),
                _ => if !compared_by_slots(x, y) {
                    Some(false)
                } else if depth == 0 {
                    None
                } else {
                    self.equal_from(x.children(), y.children(), 0, (depth - 1) as nat)
                },
            }
        }
    }

    /// Whether the values of two sequences of one length are equal from
    /// `from` on, pair by pair: what the first pair says that is not equal.
    pub open spec fn equal_from(
        self,
        first: Seq<GcObj>,
        second: Seq<GcObj>,
        from: int,
        depth: nat,
    ) -> Option<bool>
        decreases depth, 1nat, first.len() - from,
    {
        if from < 0 || from >= first.len() {
            Some(true)
        } else {
            match self.equal(first[from].word(), second[from].word(), depth) {
                Some(true) => self.equal_from(first, second, from + 1, depth),
                other => other,
            }
        }
    }
}

/// Whether two byte strings hold the same bytes.
fn bytes_eq(a: &Vec<u8>, b: &Vec<u8>) -> (equal: bool)
    ensures
        equal == (a@ == b@),
{
    if a.len() != b.len() {
        return false;
    }
    let mut i: usize = 0;
    while i < a.len()
        invariant
            i <= a@.len(),
            a@.len() == b@.len(),
            forall|j: int| 0 <= j < i ==> a@[j] == b@[j],
        decreases a@.len() - i,
    {
        if a[i] != b[i] {
            return false;
        }
        i += 1;
    }
    proof {
        assert(a@ =~= b@);
    }
    true
}

impl Gc<Object> {
    /// Whether the value is equal to `other` in structure, following
    /// pointers no deeper than `depth`; `None` where the depth does not
    /// suffice to tell.
    pub fn equal<const CONST: bool>(self, other: GcObj, block: &Block<CONST>, depth: usize) -> (out:
        Option<bool>)
        requires
            block@.wf(),
            block@.contains(self),
            block@.contains(other),
        ensures
            out == block@.equal(self.word(), other.word(), depth as nat),
        decreases depth, 0nat, 0nat,
    {
        if self.ptr_eq(other) {
            return Some(true);
        }
        let tag = self.tag();
        if tag.to_u8() != other.tag().to_u8() {
            return Some(false);
        }
        match tag {
            Tag::Int | Tag::SubrFn => {
                return Some(false);
            },
            _ => {},
        }
        let x = block.get(addr_of_word(self.into_ptr()));
        let y = block.get(addr_of_word(other.into_ptr()));
        proof {
            assert(block@.admits(*x));
            assert(block@.admits(*y));
        }
        match (x, y) {
            (HeapObject::Float(f), HeapObject::Float(g)) => Some(float_eq(f.bits, g.bits)),
            (HeapObject::String(s), HeapObject::String(t)) => Some(bytes_eq(&s.bytes, &t.bytes)),
            (HeapObject::Cons(c), HeapObject::Cons(d)) => {
                if depth == 0 {
                    return None;
                }
                proof {
                    assert(x.children()[0] == c.car && x.children()[1] == c.cdr);
                    assert(y.children()[0] == d.car && y.children()[1] == d.cdr);
                    assert(block@.contains(x.children()[0]) && block@.contains(x.children()[1]));
                    assert(block@.contains(y.children()[0]) && block@.contains(y.children()[1]));
                }
                let ghost kx = x.children();
                let ghost ky = y.children();
                let ghost rest = (depth - 1) as nat;
                proof {
                    assert(block@.equal_from(kx, ky, 2, rest) == Some(true));
                    assert(block@.equal_from(kx, ky, 1, rest) == (match block@.equal(
                        kx[1].word(),
                        ky[1].word(),
                        rest,
                    ) {
                        Some(true) => block@.equal_from(kx, ky, 2, rest),
                        other => other,
                    }));
                    assert(block@.equal_from(kx, ky, 0, rest) == (match block@.equal(
                        kx[0].word(),
                        ky[0].word(),
                        rest,
                    ) {
                        Some(true) => block@.equal_from(kx, ky, 1, rest),
                        other => other,
                    }));
                }
                match c.car.equal(d.car, block, depth - 1) {
                    Some(true) => c.cdr.equal(d.cdr, block, depth - 1),
                    other => other,
                }
            },
            (HeapObject::Vec(v), HeapObject::Vec(w)) => {
                if v.items.len() != w.items.len() {
                    return Some(false);
                }
                if depth == 0 {
                    return None;
                }
                equal_items(&v.items, &w.items, block, depth - 1)
            },
            (HeapObject::Record(v), HeapObject::Record(w)) => {
                if v.items.len() != w.items.len() {
                    return Some(false);
                }
                if depth == 0 {
                    return None;
                }
                equal_items(&v.items, &w.items, block, depth - 1)
            },
            _ => Some(false),
        }
    }
}

impl Gc<Object> {
    /// Whether the value is the integer `value`.
    pub fn eq_int(self, value: i64) -> (yes: bool)
        ensures
            yes == (word_tag(self.word()) == Tag::Int && word_payload(self.word()) == value),
    {
        match self.tag() {
            Tag::Int => payload_of(self.into_ptr()) == value,
            _ => false,
        }
    }

    /// Whether the value is the symbol `symbol`: symbols are equal only to
    /// themselves.
    pub fn eq_symbol(self, symbol: SymbolRef) -> (yes: bool)
        ensures
            yes == (self.word() == symbol.to_word()),
    {
        self.into_ptr() == symbol.retag().bits()
    }

    /// Whether the value is a string that holds the UTF-8 bytes of `chars`.
    pub fn eq_str<const CONST: bool>(self, chars: &str, block: &Block<CONST>) -> (yes: bool)
        requires
            block@.wf(),
            block@.contains(self),
        ensures
            yes <==> word_tag(self.word()) == Tag::String && (block@.referent(self.word())
                matches HeapObject::String(string) && string@ == encode_utf8(chars@)),
    {
        match self.tag() {
            Tag::String => {},
            _ => {
                return false;
            },
        }
        match block.get(addr_of_word(self.into_ptr())) {
            HeapObject::String(string) => bytes_eq(&string.bytes, &chars.as_bytes_vec()),
            _ => false,
        }
    }
}

/// Whether the values of two vectors of one length are equal, pair by pair.
fn equal_items<const CONST: bool>(
    first: &Vec<GcObj>,
    second: &Vec<GcObj>,
    block: &Block<CONST>,
    depth: usize,
) -> (out: Option<bool>)
    requires
        block@.wf(),
        first@.len() == second@.len(),
        block@.contains_all(first@),
        block@.contains_all(second@),
    ensures
        out == block@.equal_from(first@, second@, 0, depth as nat),
    decreases depth, 1nat, first@.len(),
{
    let mut i: usize = 0;
    while i < first.len()
        invariant
            i <= first@.len(),
            first@.len() == second@.len(),
            block@.wf(),
            block@.contains_all(first@),
            block@.contains_all(second@),
            block@.equal_from(first@, second@, 0, depth as nat) == block@.equal_from(
                first@,
                second@,
                i as int,
                depth as nat,
            ),
        decreases first@.len() - i,
    {
        match first[i].equal(second[i], block, depth) {
            Some(true) => {},
            other => {
                return other;
            },
        }
        i += 1;
    }
    Some(true)
}

} // verus!
