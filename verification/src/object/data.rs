//! The objects that live in a block.

use vstd::prelude::*;
use vstd::utf8::encode_utf8;
use crate::object::func::LispFn;
use crate::object::tag::Tag;
use crate::object::tagged::GcObj;

verus! {

/// A cell of two values.
#[derive(Clone, Copy, Debug, PartialEq, Eq)]
pub struct Cons {
    pub car: GcObj,
    pub cdr: GcObj,
}

impl Cons {
    pub fn new(car: GcObj, cdr: GcObj) -> (cons: Cons)
        ensures
            cons == (Cons { car, cdr }),
    {
        Cons { car, cdr }
    }

    pub fn car(&self) -> (car: GcObj)
        ensures
            car == self.car,
    {
        self.car
    }

    pub fn cdr(&self) -> (cdr: GcObj)
        ensures
            cdr == self.cdr,
    {
        self.cdr
    }
}

/// A double-precision number, held as the 64 bits of its IEEE-754 form.
#[derive(Clone, Copy, Debug, PartialEq, Eq)]
pub struct LispFloat {
    pub bits: u64,
}

impl LispFloat {
    pub fn from_bits(bits: u64) -> (float: LispFloat)
        ensures
            float == (LispFloat { bits }),
    {
        LispFloat { bits }
    }

    pub fn to_bits(&self) -> (bits: u64)
        ensures
            bits == self.bits,
    {
        self.bits
    }
}

/// A string of bytes, not necessarily UTF-8.
#[derive(Clone, Debug, PartialEq, Eq)]
pub struct LispString {
    pub bytes: Vec<u8>,
}

impl View for LispString {
    type V = Seq<u8>;

    open spec fn view(&self) -> Seq<u8> {
        self.bytes@
    }
}

impl LispString {
    /// The string that holds the UTF-8 bytes of `text`.
    pub fn from_string(text: String) -> (string: LispString)
        ensures
            string@ == encode_utf8(text@),
    {
        LispString { bytes: text.as_str().as_bytes_vec() }
    }

    /// The string that holds `bytes`.
    pub fn from_bstring(bytes: Vec<u8>) -> (string: LispString)
        ensures
            string.bytes == bytes,
    {
        LispString { bytes }
    }

    pub fn len(&self) -> (len: usize)
        ensures
            len == self@.len(),
    {
        self.bytes.len()
    }
}

/// A sequence of values. Vectors and records are both laid out like this.
#[derive(Clone, Debug, PartialEq, Eq)]
pub struct LispVec {
    pub items: Vec<GcObj>,
}

impl View for LispVec {
    type V = Seq<GcObj>;

    open spec fn view(&self) -> Seq<GcObj> {
        self.items@
    }
}

impl LispVec {
    pub fn new(items: Vec<GcObj>) -> (vec: LispVec)
        ensures
            vec.items == items,
    {
        LispVec { items }
    }

    pub fn len(&self) -> (len: usize)
        ensures
            len == self@.len(),
    {
        self.items.len()
    }
}

/// The slots of a record that is about to be allocated.
#[derive(Clone, Debug, PartialEq, Eq)]
pub struct RecordBuilder(pub Vec<GcObj>);

/// A mapping from values to values. Keys are told apart by identity, and no
/// key occurs twice.
#[derive(Clone, Debug, PartialEq, Eq)]
pub struct HashTable {
    pub keys: Vec<GcObj>,
    pub values: Vec<GcObj>,
}

impl HashTable {
    /// Every key has a value, and no key occurs twice.
    pub open spec fn wf(&self) -> bool {
        &&& self.keys@.len() == self.values@.len()
        &&& forall|i: int, j: int|
            0 <= i < j < self.keys@.len() ==> self.keys@[i].word() != self.keys@[j].word()
    }

    /// The mapping itself, over the words of the keys.
    pub open spec fn view(&self) -> Map<u64, GcObj> {
        Map::new(
            |word: u64| exists|i: int| 0 <= i < self.keys@.len() && self.keys@[i].word() == word,
            |word: u64|
                self.values@[choose|i: int|
                    0 <= i < self.keys@.len() && self.keys@[i].word() == word],
        )
    }

    /// The table without entries.
    pub fn new() -> (table: HashTable)
        ensures
            table.wf(),
            table.keys@.len() == 0,
            table@ == Map::<u64, GcObj>::empty(),
    {
        let table = HashTable { keys: Vec::new(), values: Vec::new() };
        assert(table@ =~= Map::<u64, GcObj>::empty());
        table
    }

    pub fn len(&self) -> (len: usize)
        ensures
            len == self.keys@.len(),
    {
        self.keys.len()
    }

    /// The place of `key` among the keys.
    fn find(&self, key: GcObj) -> (place: Option<usize>)
        requires
            self.wf(),
        ensures
            place matches Some(i) ==> i < self.keys@.len() && self.keys@[i as int].word()
                == key.word(),
            place is None ==> forall|i: int|
                0 <= i < self.keys@.len() ==> self.keys@[i].word() != key.word(),
    {
        let mut i: usize = 0;
        while i < self.keys.len()
            invariant
                i <= self.keys@.len(),
                forall|j: int| 0 <= j < i ==> self.keys@[j].word() != key.word(),
            decreases self.keys@.len() - i,
        {
            if self.keys[i].ptr_eq(key) {
                return Some(i);
            }
            i += 1;
        }
        None
    }

    /// The value under `key`.
    pub fn get(&self, key: GcObj) -> (value: Option<GcObj>)
        requires
            self.wf(),
        ensures
            value == (if self@.dom().contains(key.word()) {
                Some(self@[key.word()])
            } else {
                None
            }),
    {
        match self.find(key) {
            Some(i) => {
                proof {
                    let w = key.word();
                    let j = choose|j: int| 0 <= j < self.keys@.len() && self.keys@[j].word() == w;
                    assert(j == i);
                }
                Some(self.values[i])
            },
            None => None,
        }
    }

    /// Puts `value` under `key`, in place of what was there.
    pub fn insert(&mut self, key: GcObj, value: GcObj)
        requires
            old(self).wf(),
        ensures
            final(self).wf(),
            final(self)@ == old(self)@.insert(key.word(), value),
            old(self)@.dom().contains(key.word()) ==> final(self).keys@ == old(self).keys@
                && final(self).values@.len() == old(self).values@.len(),
            !old(self)@.dom().contains(key.word()) ==> final(self).keys@ == old(self).keys@.push(
                key,
            ) && final(self).values@ == old(self).values@.push(value),
            forall|i: int|
                0 <= i < final(self).values@.len() ==> final(self).values@[i] == value || (i
                    < old(self).values@.len() && final(self).values@[i] == old(self).values@[i]),
    {
        match self.find(key) {
            Some(i) => {
                self.values[i] = value;
                proof {
                    lemma_same_keys(*old(self), *final(self), i as int, value);
                }
            },
            None => {
                self.keys.push(key);
                self.values.push(value);
                proof {
                    lemma_new_key(*old(self), *final(self), key, value);
                }
            },
        }
    }
}

/// Replacing the value at one place of a table is an `insert` of the mapping.
proof fn lemma_same_keys(before: HashTable, after: HashTable, place: int, value: GcObj)
    requires
        before.wf(),
        0 <= place < before.keys@.len(),
        after.keys@ == before.keys@,
        after.values@ == before.values@.update(place, value),
    ensures
        after.wf(),
        after@ == before@.insert(before.keys@[place].word(), value),
{
    let key = before.keys@[place].word();
    assert forall|word: u64| #[trigger] after@.dom().contains(word) implies after@[word]
        == before@.insert(key, value)[word] by {
        let j = choose|j: int| 0 <= j < after.keys@.len() && after.keys@[j].word() == word;
        if word == key {
            assert(j == place);
        } else {
            assert(j != place);
        }
    }
    assert(after@ =~= before@.insert(key, value));
}

/// Appending an entry with a new key is an `insert` of the mapping.
proof fn lemma_new_key(before: HashTable, after: HashTable, key: GcObj, value: GcObj)
    requires
        before.wf(),
        forall|i: int| 0 <= i < before.keys@.len() ==> before.keys@[i].word() != key.word(),
        after.keys@ == before.keys@.push(key),
        after.values@ == before.values@.push(value),
    ensures
        after.wf(),
        !before@.dom().contains(key.word()),
        after@ == before@.insert(key.word(), value),
{
    let n = before.keys@.len() as int;
    assert(after.keys@[n] == key);
    assert forall|word: u64| #[trigger]
        after@.dom().contains(word) == before@.insert(key.word(), value).dom().contains(word) by {
        if after@.dom().contains(word) {
            let j = choose|j: int| 0 <= j < after.keys@.len() && after.keys@[j].word() == word;
            if j < n {
                assert(before.keys@[j].word() == word);
            }
        }
        if before@.dom().contains(word) {
            let j = choose|j: int| 0 <= j < before.keys@.len() && before.keys@[j].word() == word;
            assert(after.keys@[j].word() == word);
        }
    }
    assert forall|word: u64| #[trigger] after@.dom().contains(word) implies after@[word]
        == before@.insert(key.word(), value)[word] by {
        let j = choose|j: int| 0 <= j < after.keys@.len() && after.keys@[j].word() == word;
        if word == key.word() {
            assert(j == n);
        } else {
            assert(j < n);
            let k = choose|k: int| 0 <= k < before.keys@.len() && before.keys@[k].word() == word;
            assert(before.keys@[j].word() == word);
            assert(k == j);
        }
    }
    assert(after@ =~= before@.insert(key.word(), value));
}

/// A hash table as it lives in a block.
#[derive(Clone, Debug, PartialEq, Eq)]
pub struct LispHashTable {
    pub table: HashTable,
}

impl LispHashTable {
    pub fn new(table: HashTable) -> (out: LispHashTable)
        ensures
            out.table == table,
    {
        LispHashTable { table }
    }
}

/// A symbol: a name, and the two cells for its value and its function.
#[derive(Clone, Debug, PartialEq, Eq)]
pub struct Symbol {
    pub name: String,
    pub value: Option<GcObj>,
    pub func: Option<GcObj>,
}

impl Symbol {
    /// The symbol of that name, with both cells empty.
    pub fn new(name: &str) -> (symbol: Symbol)
        ensures
            symbol.name@ == name@,
            symbol.value is None,
            symbol.func is None,
    {
        Symbol { name: name.to_owned(), value: None, func: None }
    }

    /// The values in the cells that are not empty: the value first.
    pub open spec fn cells(&self) -> Seq<GcObj> {
        let value = match self.value {
            Some(v) => seq![v],
            None => Seq::<GcObj>::empty(),
        };
        let func = match self.func {
            Some(f) => seq![f],
            None => Seq::<GcObj>::empty(),
        };
        value + func
    }
}

/// Anything that a block can own.
#[derive(Debug, PartialEq, Eq)]
pub enum HeapObject {
    Cons(Cons),
    Float(LispFloat),
    String(LispString),
    Vec(LispVec),
    Record(LispVec),
    HashTable(LispHashTable),
    Symbol(Symbol),
    ByteFn(LispFn),
}

impl HeapObject {
    /// The tag of the words that point to the object.
    pub open spec fn kind(&self) -> Tag {
        match self {
            HeapObject::Cons(_) => Tag::Cons,
            HeapObject::Float(_) => Tag::Float,
            HeapObject::String(_) => Tag::String,
            HeapObject::Vec(_) => Tag::Vec,
            HeapObject::Record(_) => Tag::Record,
            HeapObject::HashTable(_) => Tag::HashTable,
            HeapObject::Symbol(_) => Tag::Symbol,
            HeapObject::ByteFn(_) => Tag::ByteFn,
        }
    }

    /// The values that the object holds directly, in the order in which a
    /// trace visits them.
    pub open spec fn children(&self) -> Seq<GcObj> {
        match self {
            HeapObject::Cons(cons) => seq![cons.car, cons.cdr],
            HeapObject::Float(_) => Seq::empty(),
            HeapObject::String(_) => Seq::empty(),
            HeapObject::Vec(vec) => vec@,
            HeapObject::Record(vec) => vec@,
            HeapObject::HashTable(hash) => hash.table.keys@ + hash.table.values@,
            HeapObject::Symbol(symbol) => symbol.cells(),
            HeapObject::ByteFn(func) => func.body.constants@,
        }
    }

    /// What holds of an object apart from where its values point: a hash
    /// table is a mapping, a function has a countable number of slots.
    pub open spec fn wf(&self) -> bool {
        match self {
            HeapObject::HashTable(hash) => hash.table.wf(),
            HeapObject::ByteFn(func) => func.args.wf(),
            _ => true,
        }
    }

    /// The tag of the words that point to the object.
    pub fn tag(&self) -> (tag: Tag)
        ensures
            tag == self.kind(),
            tag.is_heap(),
    {
        match self {
            HeapObject::Cons(_) => Tag::Cons,
            HeapObject::Float(_) => Tag::Float,
            HeapObject::String(_) => Tag::String,
            HeapObject::Vec(_) => Tag::Vec,
            HeapObject::Record(_) => Tag::Record,
            HeapObject::HashTable(_) => Tag::HashTable,
            HeapObject::Symbol(_) => Tag::Symbol,
            HeapObject::ByteFn(_) => Tag::ByteFn,
        }
    }
}

} // verus!
