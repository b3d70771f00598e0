//! Deep copies from one block into another.
//!
//! A copy walks the objects that a value leads to with an explicit stack. It
//! keeps a table from the addresses of the objects it has met to the
//! addresses of their copies, so that an object that is met twice is copied
//! once, and a cycle is copied as a cycle.

use vstd::prelude::*;
use crate::gc::block::{Block, Heap};
use crate::object::data::{
    Cons, HashTable, HeapObject, LispFloat, LispHashTable, LispString, LispVec, Symbol,
};
use crate::object::func::{CodeVec, Expression, LispFn};
use crate::object::handle::addr_of_word;
use crate::object::tag::{
    Tag, ADDR_LIMIT, lemma_join_split, lemma_split_join, make_word, valid_word, word_addr,
    word_tag,
};
use crate::object::tagged::{Gc, GcObj, NIL_WORD, Object, nil};

verus! {

/// Whether a word points to an object that a copy has to copy: an object
/// other than the canonical symbols, which every block has.
pub open spec fn is_copied(word: u64) -> bool {
    word_tag(word).is_heap() && word_addr(word) >= 2
}

/// Whether a table of copies has a copy for what `word` points to.
pub open spec fn linked(links: Seq<Option<u64>>, word: u64) -> bool {
    is_copied(word) ==> word_addr(word) < links.len() && links[word_addr(word) as int] is Some
}

/// The word that stands for `word` in the copy: the word itself where it
/// points to nothing that is copied, and else a pointer of the same kind to
/// the copy.
pub open spec fn translate(links: Seq<Option<u64>>, word: u64) -> u64 {
    if is_copied(word) {
        make_word(links[word_addr(word) as int]->Some_0, word_tag(word))
    } else {
        word
    }
}

/// Whether two objects hold the same apart from their pointers: they are of
/// the same kind, of the same shape, and their numbers, bytes and names are
/// equal.
pub open spec fn same_scalars(a: HeapObject, b: HeapObject) -> bool {
    match (a, b) {
        (HeapObject::Cons(_), HeapObject::Cons(_)) => true,
        (HeapObject::Float(x), HeapObject::Float(y)) => x.bits == y.bits,
        (HeapObject::String(x), HeapObject::String(y)) => x@ == y@,
        (HeapObject::Vec(x), HeapObject::Vec(y)) => x@.len() == y@.len(),
        (HeapObject::Record(x), HeapObject::Record(y)) => x@.len() == y@.len(),
        (HeapObject::HashTable(x), HeapObject::HashTable(y)) => x.table.keys@.len()
            == y.table.keys@.len() && x.table.values@.len() == y.table.values@.len(),
        (HeapObject::Symbol(x), HeapObject::Symbol(y)) => x.name@ == y.name@ && (x.value is Some
            <==> y.value is Some) && (x.func is Some <==> y.func is Some),
        (HeapObject::ByteFn(x), HeapObject::ByteFn(y)) => x.body.op_codes@ == y.body.op_codes@
            && x.body.constants@.len() == y.body.constants@.len() && x.args == y.args && x.depth
            == y.depth,
        _ => false,
    }
}

/// Whether `copy` is the copy of `object` under a table of copies: the same
/// apart from the pointers, and each pointer translated.
pub open spec fn mirrors(links: Seq<Option<u64>>, object: HeapObject, copy: HeapObject) -> bool {
    &&& same_scalars(object, copy)
    &&& object.children().len() == copy.children().len()
    &&& forall|i: int|
        0 <= i < object.children().len() ==> linked(links, (#[trigger] object.children()[i]).word())
            && copy.children()[i].word() == translate(links, object.children()[i].word())
}

/// Whether a table of copies holds all of another.
pub open spec fn extends(longer: Seq<Option<u64>>, shorter: Seq<Option<u64>>) -> bool {
    &&& longer.len() == shorter.len()
    &&& forall|a: int|
        0 <= a < shorter.len() && (#[trigger] shorter[a]) is Some ==> longer[a] == shorter[a]
}

/// The number of copies in a table below `limit`.
pub open spec fn link_count(links: Seq<Option<u64>>, limit: int) -> nat
    decreases limit,
{
    if limit <= 0 {
        0
    } else {
        let here: nat = if links[limit - 1] is Some {
            1
        } else {
            0
        };
        link_count(links, limit - 1) + here
    }
}

/// No copy stands for two objects, and every copy lies at or above `floor`
/// and below `ceiling`.
pub open spec fn links_apart(links: Seq<Option<u64>>, floor: int, ceiling: int) -> bool {
    &&& forall|a: int|
        0 <= a < links.len() && (#[trigger] links[a]) is Some ==> floor <= links[a]->Some_0
            < ceiling
    &&& forall|a: int, b: int|
        0 <= a < links.len() && 0 <= b < links.len() && a != b && (#[trigger] links[a]) is Some
            && (#[trigger] links[b]) is Some ==> links[a] != links[b]
}

/// Whether `copy` is a copy of what `value` leads to in `source`, made in a
/// block that held `before` and holds `after`: there is a table of copies
/// under which every object met has its copy among the new objects of the
/// block, no copy stands for two objects, and `copy` is `value` translated.
pub open spec fn is_deep_copy(
    source: Heap,
    value: u64,
    before: Heap,
    after: Heap,
    copy: u64,
) -> bool {
    exists|links: Seq<Option<u64>>| #[trigger]
        copied_under(links, source, before, after) && linked(links, value) && copy == translate(
            links,
            value,
        )
}

/// Whether `after` holds, beside all that `before` held, a copy of each
/// object of `source` that the table has a copy for.
pub open spec fn copied_under(
    links: Seq<Option<u64>>,
    source: Heap,
    before: Heap,
    after: Heap,
) -> bool {
    &&& links.len() == source.slots.len()
    &&& before.slots.len() <= after.slots.len()
    &&& after.slots.len() == before.slots.len() + link_count(links, links.len() as int)
    &&& forall|a: int| 0 <= a < before.slots.len() ==> #[trigger] after.slots[a] == before.slots[a]
    &&& links_apart(links, before.slots.len() as int, after.slots.len() as int)
    &&& forall|a: int|
        0 <= a < links.len() && (#[trigger] links[a]) is Some ==> a >= 2 && source.is_live(a)
            && after.is_live(links[a]->Some_0 as int) && mirrors(
            links,
            source.object(a),
            after.object(links[a]->Some_0 as int),
        )
}

/// A copy under a table is a copy under a table that holds all of it.
pub proof fn lemma_mirrors_extends(
    longer: Seq<Option<u64>>,
    shorter: Seq<Option<u64>>,
    object: HeapObject,
    copy: HeapObject,
)
    requires
        extends(longer, shorter),
        mirrors(shorter, object, copy),
    ensures
        mirrors(longer, object, copy),
{
    assert forall|i: int| 0 <= i < object.children().len() implies linked(
        longer,
        (#[trigger] object.children()[i]).word(),
    ) && copy.children()[i].word() == translate(longer, object.children()[i].word()) by {
        let word = object.children()[i].word();
        assert(linked(shorter, word));
        if is_copied(word) {
            assert(shorter[word_addr(word) as int] is Some);
        }
    }
}

/// The translation of a word under a table is that under a table that holds
/// all of it.
pub proof fn lemma_translate_extends(
    longer: Seq<Option<u64>>,
    shorter: Seq<Option<u64>>,
    word: u64,
)
    requires
        extends(longer, shorter),
        linked(shorter, word),
    ensures
        linked(longer, word),
        translate(longer, word) == translate(shorter, word),
{
    if is_copied(word) {
        assert(shorter[word_addr(word) as int] is Some);
    }
}

/// Words that differ have translations that differ.
pub proof fn lemma_translate_apart(
    links: Seq<Option<u64>>,
    floor: int,
    ceiling: int,
    first: u64,
    second: u64,
)
    requires
        links_apart(links, floor, ceiling),
        2 <= floor,
        ceiling <= ADDR_LIMIT,
        valid_word(first),
        valid_word(second),
        linked(links, first),
        linked(links, second),
        first != second,
    ensures
        translate(links, first) != translate(links, second),
{
    lemma_split_join(first);
    lemma_split_join(second);
    if is_copied(first) {
        let a = word_addr(first) as int;
        assert(links[a] is Some);
        lemma_join_split(links[a]->Some_0, word_tag(first));
    }
    if is_copied(second) {
        let b = word_addr(second) as int;
        assert(links[b] is Some);
        lemma_join_split(links[b]->Some_0, word_tag(second));
    }
}

/// Putting a copy in an empty place of a table makes one copy more.
pub proof fn lemma_link_count_update(links: Seq<Option<u64>>, at: int, copy: u64, limit: int)
    requires
        0 <= at < links.len(),
        links[at] is None,
        0 <= limit <= links.len(),
    ensures
        limit <= at ==> link_count(links.update(at, Some(copy)), limit) == link_count(
            links,
            limit,
        ),
        limit > at ==> link_count(links.update(at, Some(copy)), limit) == link_count(links, limit)
            + 1,
        link_count(links, limit) <= limit,
    decreases limit,
{
    if limit > 0 {
        lemma_link_count_update(links, at, copy, limit - 1);
    }
}

/// A table has no more copies than places, and fewer where a place is empty.
pub proof fn lemma_link_count_bound(links: Seq<Option<u64>>, limit: int, empty: int)
    requires
        0 <= limit <= links.len(),
    ensures
        link_count(links, limit) <= limit,
        0 <= empty < limit && links[empty] is None ==> link_count(links, limit) < limit,
    decreases limit,
{
    if limit > 0 {
        lemma_link_count_bound(links, limit - 1, empty);
    }
}

/// An object of the kind given that holds no pointer but to `nil`: what
/// stands in the place of a copy until the copy is made.
fn shell(kind: Tag) -> (object: HeapObject)
    requires
        kind.is_heap(),
    ensures
        object.kind() == kind,
        object.wf(),
        forall|i: int|
            0 <= i < object.children().len() ==> (#[trigger] object.children()[i]).word()
                == NIL_WORD,
{
    match kind {
        Tag::Cons => HeapObject::Cons(Cons::new(nil(), nil())),
        Tag::Float => HeapObject::Float(LispFloat::from_bits(0)),
        Tag::String => HeapObject::String(LispString::from_bstring(Vec::new())),
        Tag::Vec => HeapObject::Vec(LispVec::new(Vec::new())),
        Tag::Record => HeapObject::Record(LispVec::new(Vec::new())),
        Tag::HashTable => HeapObject::HashTable(LispHashTable::new(HashTable::new())),
        Tag::Symbol => HeapObject::Symbol(Symbol::new("")),
        _ => HeapObject::ByteFn(LispFn::new(CodeVec(Vec::new()), Vec::new(), 0, 0, false)),
    }
}

/// A vector with the items of another.
fn copy_items<T: Copy>(items: &Vec<T>) -> (out: Vec<T>)
    ensures
        out@ == items@,
{
    let mut out: Vec<T> = Vec::new();
    let mut i: usize = 0;
    while i < items.len()
        invariant
            i <= items@.len(),
            out@ == items@.subrange(0, i as int),
        decreases items@.len() - i,
    {
        out.push(items[i]);
        proof {
            assert(out@ =~= items@.subrange(0, i + 1));
        }
        i += 1;
    }
    proof {
        assert(items@.subrange(0, items@.len() as int) =~= items@);
    }
    out
}

/// The items of a vector from `from` up to `to`.
fn copy_range(items: &Vec<GcObj>, from: usize, to: usize) -> (out: Vec<GcObj>)
    requires
        from <= to <= items@.len(),
    ensures
        out@ == items@.subrange(from as int, to as int),
{
    let mut out: Vec<GcObj> = Vec::new();
    let mut i: usize = from;
    while i < to
        invariant
            from <= i <= to <= items@.len(),
            out@ == items@.subrange(from as int, i as int),
        decreases to - i,
    {
        out.push(items[i]);
        proof {
            assert(out@ =~= items@.subrange(from as int, i + 1));
        }
        i += 1;
    }
    out
}

/// The values that an object holds directly.
pub(crate) fn children_of(object: &HeapObject) -> (kids: Vec<GcObj>)
    ensures
        kids@ == object.children(),
{
    match object {
        HeapObject::Cons(cons) => {
            let mut kids: Vec<GcObj> = Vec::new();
            kids.push(cons.car);
            kids.push(cons.cdr);
            assert(kids@ =~= object.children());
            kids
        },
        HeapObject::Float(_) => {
            let kids: Vec<GcObj> = Vec::new();
            assert(kids@ =~= object.children());
            kids
        },
        HeapObject::String(_) => {
            let kids: Vec<GcObj> = Vec::new();
            assert(kids@ =~= object.children());
            kids
        },
        HeapObject::Vec(vec) => copy_items(&vec.items),
        HeapObject::Record(vec) => copy_items(&vec.items),
        HeapObject::HashTable(hash) => {
            let mut kids = copy_items(&hash.table.keys);
            let mut i: usize = 0;
            while i < hash.table.values.len()
                invariant
                    i <= hash.table.values@.len(),
                    kids@ == hash.table.keys@ + hash.table.values@.subrange(0, i as int),
                decreases hash.table.values@.len() - i,
            {
                kids.push(hash.table.values[i]);
                proof {
                    assert(kids@ =~= hash.table.keys@ + hash.table.values@.subrange(0, i + 1));
                }
                i += 1;
            }
            proof {
                assert(hash.table.values@.subrange(0, hash.table.values@.len() as int)
                    =~= hash.table.values@);
            }
            kids
        },
        HeapObject::Symbol(symbol) => {
            let mut kids: Vec<GcObj> = Vec::new();
            match symbol.value {
                Some(value) => {
                    kids.push(value);
                },
                None => {},
            }
            match symbol.func {
                Some(func) => {
                    kids.push(func);
                },
                None => {},
            }
            assert(kids@ =~= object.children());
            kids
        },
        HeapObject::ByteFn(func) => copy_items(&func.body.constants),
    }
}

/// An object that is `object` with `kids` in place of the values that it
/// holds.
fn rebuild(object: &HeapObject, kids: Vec<GcObj>) -> (copy: HeapObject)
    requires
        kids@.len() == object.children().len(),
        object matches HeapObject::HashTable(hash) ==> hash.table.keys@.len()
            == hash.table.values@.len(),
    ensures
        copy.kind() == object.kind(),
        same_scalars(*object, copy),
        copy.children() == kids@,
        copy matches HeapObject::ByteFn(func) ==> func.args == object->ByteFn_0.args,
        copy matches HeapObject::HashTable(hash) ==> hash.table.keys@.len()
            == hash.table.values@.len(),
{
    match object {
        HeapObject::Cons(_) => {
            let copy = HeapObject::Cons(Cons::new(kids[0], kids[1]));
            assert(copy.children() =~= kids@);
            copy
        },
        HeapObject::Float(float) => {
            let copy = HeapObject::Float(LispFloat::from_bits(float.bits));
            assert(copy.children() =~= kids@);
            copy
        },
        HeapObject::String(string) => {
            let copy = HeapObject::String(LispString::from_bstring(copy_items(&string.bytes)));
            assert(copy.children() =~= kids@);
            copy
        },
        HeapObject::Vec(_) => HeapObject::Vec(LispVec::new(kids)),
        HeapObject::Record(_) => HeapObject::Record(LispVec::new(kids)),
        HeapObject::HashTable(hash) => {
            let count = hash.table.keys.len();
            let keys = copy_range(&kids, 0, count);
            let values = copy_range(&kids, count, kids.len());
            let copy = HeapObject::HashTable(LispHashTable::new(HashTable { keys, values }));
            assert(copy.children() =~= kids@);
            copy
        },
        HeapObject::Symbol(symbol) => {
            let name = symbol.name.clone();
            let value = match symbol.value {
                Some(_) => Some(kids[0]),
                None => None,
            };
            let func = match symbol.func {
                Some(_) => Some(kids[kids.len() - 1]),
                None => None,
            };
            let copy = HeapObject::Symbol(Symbol { name, value, func });
            assert(copy.children() =~= kids@);
            copy
        },
        HeapObject::ByteFn(func) => HeapObject::ByteFn(
            LispFn {
                body: Expression {
                    op_codes: CodeVec(copy_items(&func.body.op_codes.0)),
                    constants: kids,
                },
                args: func.args,
                depth: func.depth,
            },
        ),
    }
}

/// Whether the copy of the object at `addr` waits to be made.
pub open spec fn waits(pending: Seq<u64>, addr: int) -> bool {
    exists|j: int| 0 <= j < pending.len() && #[trigger] pending[j] == addr
}

/// The state of a copy from `source` into a block that held `start` and now
/// holds `target`: each object met has a place for its copy among the new
/// objects, of its kind; and but for the object at `busy` and those that
/// wait, the copy is made.
pub open spec fn copying(
    source: Heap,
    start: Heap,
    target: Heap,
    links: Seq<Option<u64>>,
    pending: Seq<u64>,
    busy: int,
) -> bool {
    &&& source.wf()
    &&& start.wf()
    &&& target.wf()
    &&& links.len() == source.slots.len()
    &&& start.slots.len() + source.slots.len() <= ADDR_LIMIT
    &&& target.slots.len() == start.slots.len() + link_count(links, links.len() as int)
    &&& forall|a: int| 0 <= a < start.slots.len() ==> #[trigger] target.slots[a] == start.slots[a]
    &&& links_apart(links, start.slots.len() as int, target.slots.len() as int)
    &&& forall|a: int|
        0 <= a < links.len() && (#[trigger] links[a]) is Some ==> a >= 2 && source.is_live(a)
            && target.is_live(links[a]->Some_0 as int) && target.object(
            links[a]->Some_0 as int,
        ).kind() == source.object(a).kind()
    &&& forall|j: int|
        0 <= j < pending.len() ==> (#[trigger] pending[j]) < links.len() && links[pending[j] as int] is Some
    &&& forall|a: int|
        0 <= a < links.len() && (#[trigger] links[a]) is Some && a != busy && !waits(pending, a)
            ==> mirrors(links, source.object(a), target.object(links[a]->Some_0 as int))
}

/// The copy of `value`: `value` itself where it points to nothing that is
/// copied, the copy that the table holds where it holds one, and else a
/// new place for the copy, which then waits to be made.
fn copy_value<const S: bool, const T: bool>(
    value: GcObj,
    source: &Block<S>,
    target: &mut Block<T>,
    links: &mut Vec<Option<u64>>,
    pending: &mut Vec<u64>,
    Ghost(start): Ghost<Heap>,
    Ghost(busy): Ghost<int>,
) -> (copy: GcObj)
    requires
        copying(source@, start, old(target)@, old(links)@, old(pending)@, busy),
        source@.contains(value),
    ensures
        copying(source@, start, final(target)@, final(links)@, final(pending)@, busy),
        extends(final(links)@, old(links)@),
        linked(final(links)@, value.word()),
        copy.word() == translate(final(links)@, value.word()),
        final(target)@.contains(copy),
        old(target)@.kept_by(final(target)@),
        (final(links)@ == old(links)@ && final(pending)@ == old(pending)@ && final(target)@
            == old(target)@) || (link_count(final(links)@, final(links)@.len() as int)
            == link_count(old(links)@, old(links)@.len() as int) + 1 && final(pending)@.len()
            == old(pending)@.len() + 1 && final(pending)@.drop_last() == old(pending)@),
{
    let word = value.into_ptr();
    let tag = value.tag();
    proof {
        lemma_split_join(word);
    }
    match tag {
        Tag::Int | Tag::SubrFn => {
            return value;
        },
        _ => {},
    }
    let addr = addr_of_word(word);
    if addr < 2 {
        proof {
            assert(source@.is_live(addr as int));
            assert(start.slots[addr as int] == target@.slots[addr as int]);
            assert(target@.is_live(addr as int));
            assert(target@.object(addr as int).kind() == Tag::Symbol);
            assert(source@.object(addr as int).kind() == Tag::Symbol);
        }
        return value;
    }
    let len = links.len();
    assert(addr < len);
    let place = addr as usize;
    match links[place] {
        Some(copy_addr) => {
            proof {
                assert(links@[place as int] is Some);
                lemma_join_split(copy_addr, tag);
            }
            return Gc::from_ptr(copy_addr, tag);
        },
        None => {},
    }
    proof {
        lemma_link_count_bound(links@, links@.len() as int, place as int);
    }
    let blank = shell(tag);
    proof {
        target@.lemma_canonical();
        assert forall|i: int| 0 <= i < blank.children().len() implies target@.contains(
            #[trigger] blank.children()[i],
        ) by {
            assert(blank.children()[i].word() == NIL_WORD);
        }
    }
    let copy_addr = target.alloc_obj(blank);
    links[place] = Some(copy_addr);
    pending.push(addr);
    proof {
        let before = old(links)@;
        let after = links@;
        assert(after == before.update(place as int, Some(copy_addr)));
        lemma_link_count_update(before, place as int, copy_addr, before.len() as int);
        lemma_join_split(copy_addr, tag);
        assert(extends(after, before));
        assert forall|a: int| 0 <= a < start.slots.len() implies #[trigger] target@.slots[a]
            == start.slots[a] by {
            assert(old(target)@.slots[a] == start.slots[a]);
            if old(target)@.is_live(a) {
            }
        }
        assert forall|a: int|
            0 <= a < after.len() && (#[trigger] after[a]) is Some implies a >= 2
            && source@.is_live(a) && target@.is_live(after[a]->Some_0 as int) && target@.object(
            after[a]->Some_0 as int,
        ).kind() == source@.object(a).kind() by {
            if a != place {
                assert(before[a] is Some);
                assert(old(target)@.is_live(before[a]->Some_0 as int));
            }
        }
        assert forall|j: int| 0 <= j < pending@.len() implies (#[trigger] pending@[j])
            < after.len() && after[pending@[j] as int] is Some by {
            if j < old(pending)@.len() {
                assert(pending@[j] == old(pending)@[j]);
            }
        }
        assert forall|a: int|
            0 <= a < after.len() && (#[trigger] after[a]) is Some && a != busy && !waits(
                pending@,
                a,
            ) implies mirrors(after, source@.object(a), target@.object(after[a]->Some_0 as int)) by {
            if a == place {
                assert(pending@[pending@.len() - 1] == a);
                assert(waits(pending@, a));
            } else {
                assert(before[a] is Some);
                if waits(old(pending)@, a) {
                    let j = choose|j: int|
                        0 <= j < old(pending)@.len() && #[trigger] old(pending)@[j] == a;
                    assert(pending@[j] == a);
                }
                assert(old(target)@.is_live(before[a]->Some_0 as int));
                lemma_mirrors_extends(
                    after,
                    before,
                    source@.object(a),
                    old(target)@.object(before[a]->Some_0 as int),
                );
            }
        }
        assert(links_apart(after, start.slots.len() as int, target@.slots.len() as int)) by {
            assert forall|a: int| 0 <= a < after.len() && (#[trigger] after[a]) is Some implies
                start.slots.len() <= after[a]->Some_0 < target@.slots.len() by {
                if a != place {
                    assert(before[a] is Some);
                }
            }
            assert forall|a: int, b: int|
                0 <= a < after.len() && 0 <= b < after.len() && a != b && (
                #[trigger] after[a]) is Some && (#[trigger] after[b]) is Some implies after[a]
                != after[b] by {
                if a != place {
                    assert(before[a] is Some);
                }
                if b != place {
                    assert(before[b] is Some);
                }
            }
        }
        assert(pending@.drop_last() =~= old(pending)@);
    }
    Gc::from_ptr(copy_addr, tag)
}

/// The copies of the values of `from`, in their order.
fn copy_values<const S: bool, const T: bool>(
    from: &Vec<GcObj>,
    source: &Block<S>,
    target: &mut Block<T>,
    links: &mut Vec<Option<u64>>,
    pending: &mut Vec<u64>,
    Ghost(start): Ghost<Heap>,
    Ghost(busy): Ghost<int>,
) -> (copies: Vec<GcObj>)
    requires
        copying(source@, start, old(target)@, old(links)@, old(pending)@, busy),
        source@.contains_all(from@),
    ensures
        copying(source@, start, final(target)@, final(links)@, final(pending)@, busy),
        extends(final(links)@, old(links)@),
        old(target)@.kept_by(final(target)@),
        copies@.len() == from@.len(),
        final(target)@.contains_all(copies@),
        forall|i: int|
            0 <= i < from@.len() ==> linked(final(links)@, (#[trigger] from@[i]).word())
                && copies@[i].word() == translate(final(links)@, from@[i].word()),
        link_count(final(links)@, final(links)@.len() as int) >= link_count(
            old(links)@,
            old(links)@.len() as int,
        ),
        final(pending)@.len() >= old(pending)@.len(),
        final(pending)@.subrange(0, old(pending)@.len() as int) == old(pending)@,
        link_count(final(links)@, final(links)@.len() as int) == link_count(
            old(links)@,
            old(links)@.len() as int,
        ) ==> final(pending)@ == old(pending)@,
{
    let mut copies: Vec<GcObj> = Vec::new();
    let mut i: usize = 0;
    proof {
        assert(pending@.subrange(0, pending@.len() as int) =~= pending@);
    }
    while i < from.len()
        invariant
            i <= from@.len(),
            copying(source@, start, target@, links@, pending@, busy),
            source@.contains_all(from@),
            extends(links@, old(links)@),
            old(target)@.kept_by(target@),
            copies@.len() == i,
            target@.contains_all(copies@),
            forall|j: int|
                0 <= j < i ==> linked(links@, (#[trigger] from@[j]).word()) && copies@[j].word()
                    == translate(links@, from@[j].word()),
            link_count(links@, links@.len() as int) >= link_count(
                old(links)@,
                old(links)@.len() as int,
            ),
            pending@.len() >= old(pending)@.len(),
            pending@.subrange(0, old(pending)@.len() as int) == old(pending)@,
            link_count(links@, links@.len() as int) == link_count(
                old(links)@,
                old(links)@.len() as int,
            ) ==> pending@ == old(pending)@,
        decreases from@.len() - i,
    {
        let ghost links_before = links@;
        let ghost target_before = target@;
        let ghost pending_before = pending@;
        let ghost copies_before = copies@;
        let copy = copy_value(from[i], source, target, links, pending, Ghost(start), Ghost(busy));
        copies.push(copy);
        proof {
            assert forall|j: int| 0 <= j < i + 1 implies linked(
                links@,
                (#[trigger] from@[j]).word(),
            ) && copies@[j].word() == translate(links@, from@[j].word()) by {
                if j < i {
                    lemma_translate_extends(links@, links_before, from@[j].word());
                    assert(copies@[j] == copies_before[j]);
                }
            }
            assert forall|j: int| 0 <= j < copies@.len() implies target@.contains(
                #[trigger] copies@[j],
            ) by {
                if j < i {
                    assert(copies@[j] == copies_before[j]);
                    target_before.lemma_kept(target@, copies_before[j]);
                }
            }
            assert(old(target)@.kept_by(target@)) by {
                assert forall|a: int| #[trigger] old(target)@.is_live(a) implies target@.is_live(
                    a,
                ) && target@.object(a).kind() == old(target)@.object(a).kind() by {
                    assert(target_before.is_live(a));
                }
            }
            assert(extends(links@, old(links)@)) by {
                assert forall|a: int|
                    0 <= a < old(links)@.len() && (#[trigger] old(links)@[a]) is Some implies links@[a]
                    == old(links)@[a] by {
                    assert(links_before[a] == old(links)@[a]);
                }
            }
            assert(pending@.subrange(0, old(pending)@.len() as int) =~= old(pending)@) by {
                if pending@ != pending_before {
                    assert(pending@.drop_last() == pending_before);
                    assert forall|k: int| 0 <= k < old(pending)@.len() implies pending@[k] == old(pending)@[k] by {
                        assert(pending@.drop_last()[k] == pending@[k]);
                        assert(pending_before.subrange(0, old(pending)@.len() as int)[k]
                            == pending_before[k]);
                    }
                }
            }
        }
        i += 1;
    }
    copies
}

/// A table of copies for `source`, with no copy yet.
fn no_links<const S: bool>(source: &Block<S>) -> (links: Vec<Option<u64>>)
    ensures
        links@.len() == source@.slots.len(),
        forall|a: int| 0 <= a < links@.len() ==> (#[trigger] links@[a]) is None,
        link_count(links@, links@.len() as int) == 0,
{
    let mut links: Vec<Option<u64>> = Vec::new();
    let mut n: usize = 0;
    while n < source.len()
        invariant
            n <= source@.slots.len(),
            links@.len() == n,
            forall|a: int| 0 <= a < n ==> (#[trigger] links@[a]) is None,
            link_count(links@, n as int) == 0,
        decreases source@.slots.len() - n,
    {
        let ghost before = links@;
        links.push(None);
        proof {
            lemma_link_count_same(before, links@, n as int);
        }
        n += 1;
    }
    links
}

/// Makes every copy that waits, and those that these lead to.
fn finish<const S: bool, const T: bool>(
    source: &Block<S>,
    target: &mut Block<T>,
    links: &mut Vec<Option<u64>>,
    pending: &mut Vec<u64>,
    Ghost(start): Ghost<Heap>,
)
    requires
        copying(source@, start, old(target)@, old(links)@, old(pending)@, -1),
    ensures
        final(target)@.wf(),
        extends(final(links)@, old(links)@),
        old(target)@.kept_by(final(target)@),
        copied_under(final(links)@, source@, start, final(target)@),
{
    while pending.len() > 0
        invariant
            copying(source@, start, target@, links@, pending@, -1),
            extends(links@, old(links)@),
            old(target)@.kept_by(target@),
        decreases links@.len() - link_count(links@, links@.len() as int), pending@.len(),
    {
        let ghost waiting = pending@;
        let ghost links_before = links@;
        let ghost target_before = target@;
        let addr = pending.pop().unwrap();
        proof {
            assert(waiting[waiting.len() - 1] == addr);
            assert(links@[addr as int] is Some);
            lemma_link_count_bound(links@, links@.len() as int, 0);
            assert(copying(source@, start, target@, links@, pending@, addr as int)) by {
                assert forall|j: int| 0 <= j < pending@.len() implies (#[trigger] pending@[j])
                    < links@.len() && links@[pending@[j] as int] is Some by {
                    assert(pending@[j] == waiting[j]);
                }
                assert forall|a: int|
                    0 <= a < links@.len() && (#[trigger] links@[a]) is Some && a != addr
                        && !waits(pending@, a) implies mirrors(
                    links@,
                    source@.object(a),
                    target@.object(links@[a]->Some_0 as int),
                ) by {
                    if waits(waiting, a) {
                        let j = choose|j: int| 0 <= j < waiting.len() && #[trigger] waiting[j] == a;
                        assert(j < pending@.len());
                        assert(pending@[j] == a);
                    }
                }
            }
        }
        let len = links.len();
        let place = addr as usize;
        let copy_addr = match links[place] {
            Some(copy_addr) => copy_addr,
            None => 0,
        };
        let object = source.get(addr);
        let kids = children_of(object);
        proof {
            assert(source@.admits(source@.object(addr as int)));
        }
        let copies = copy_values(
            &kids,
            source,
            target,
            links,
            pending,
            Ghost(start),
            Ghost(addr as int),
        );
        let ghost links_mid = links@;
        let ghost target_mid = target@;
        let fresh = rebuild(object, copies);
        proof {
            assert(links_mid[addr as int] == links_before[addr as int]);
            assert(target_mid.is_live(copy_addr as int));
            assert(fresh.wf()) by {
                assert(object.wf());
                match fresh {
                    HeapObject::HashTable(hash) => {
                        let table = object->HashTable_0.table;
                        assert forall|i: int, j: int|
                            0 <= i < j < hash.table.keys@.len() implies hash.table.keys@[i].word()
                            != hash.table.keys@[j].word() by {
                            assert(fresh.children()[i] == hash.table.keys@[i]);
                            assert(fresh.children()[j] == hash.table.keys@[j]);
                            assert(object.children()[i] == table.keys@[i]);
                            assert(object.children()[j] == table.keys@[j]);
                            assert(source@.contains(kids@[i]));
                            assert(source@.contains(kids@[j]));
                            lemma_translate_apart(
                                links_mid,
                                start.slots.len() as int,
                                target_mid.slots.len() as int,
                                kids@[i].word(),
                                kids@[j].word(),
                            );
                        }
                    },
                    _ => {},
                }
            }
        }
        target.replace(copy_addr, fresh);
        proof {
            assert(copying(source@, start, target@, links@, pending@, -1)) by {
                assert forall|a: int| 0 <= a < start.slots.len() implies #[trigger] target@.slots[a]
                    == start.slots[a] by {
                    assert(target_mid.slots[a] == start.slots[a]);
                }
                assert forall|a: int|
                    0 <= a < links@.len() && (#[trigger] links@[a]) is Some implies a >= 2
                    && source@.is_live(a) && target@.is_live(links@[a]->Some_0 as int)
                    && target@.object(links@[a]->Some_0 as int).kind() == source@.object(
                    a,
                ).kind() by {
                    assert(target_mid.is_live(links@[a]->Some_0 as int));
                    if a != addr {
                        assert(links@[a] != links@[addr as int]);
                    }
                }
                assert forall|a: int|
                    0 <= a < links@.len() && (#[trigger] links@[a]) is Some && a != -1
                        && !waits(pending@, a) implies mirrors(
                    links@,
                    source@.object(a),
                    target@.object(links@[a]->Some_0 as int),
                ) by {
                    if a != addr {
                        assert(links@[a] != links@[addr as int]);
                        assert(target@.slots[links@[a]->Some_0 as int]
                            == target_mid.slots[links@[a]->Some_0 as int]);
                    }
                }
            }
            assert(extends(links@, old(links)@)) by {
                assert forall|a: int|
                    0 <= a < old(links)@.len() && (#[trigger] old(links)@[a]) is Some implies links@[a]
                    == old(links)@[a] by {
                    assert(links_before[a] == old(links)@[a]);
                }
            }
            assert(old(target)@.kept_by(target@)) by {
                assert forall|a: int| #[trigger] old(target)@.is_live(a) implies target@.is_live(
                    a,
                ) && target@.object(a).kind() == old(target)@.object(a).kind() by {
                    assert(target_before.is_live(a));
                    assert(target_mid.is_live(a));
                }
            }
            if link_count(links@, links@.len() as int) == link_count(
                links_before,
                links_before.len() as int,
            ) {
                assert(pending@ == waiting.drop_last());
            }
            lemma_link_count_bound(links@, links@.len() as int, 0);
        }
    }
    proof {
        assert(copied_under(links@, source@, start, target@)) by {
            assert forall|a: int|
                0 <= a < links@.len() && (#[trigger] links@[a]) is Some implies a >= 2
                && source@.is_live(a) && target@.is_live(links@[a]->Some_0 as int) && mirrors(
                links@,
                source@.object(a),
                target@.object(links@[a]->Some_0 as int),
            ) by {
                assert(!waits(pending@, a));
            }
        }
    }
}


impl Gc<Object> {
    /// Copies what the value leads to from `source` into `target`, and
    /// returns the value that stands for it there. An object that is met
    /// twice is copied once, so the copy has the shape of what was copied,
    /// cycles included. Values that point to no object, and the canonical
    /// symbols, stand for themselves.
    pub fn clone_in<const S: bool, const T: bool>(
        self,
        source: &Block<S>,
        target: &mut Block<T>,
    ) -> (copy: GcObj)
        requires
            source@.wf(),
            source@.contains(self),
            old(target)@.wf(),
            old(target)@.slots.len() + source@.slots.len() <= ADDR_LIMIT,
        ensures
            final(target)@.wf(),
            final(target)@.contains(copy),
            is_deep_copy(source@, self.word(), old(target)@, final(target)@, copy.word()),
    {
        let ghost start = target@;
        let mut links = no_links(source);
        let mut pending: Vec<u64> = Vec::new();
        assert(copying(source@, start, target@, links@, pending@, -1));
        let copy = copy_value(
            self,
            source,
            target,
            &mut links,
            &mut pending,
            Ghost(start),
            Ghost(-1),
        );
        let ghost links_mid = links@;
        let ghost target_mid = target@;
        finish(source, target, &mut links, &mut pending, Ghost(start));
        proof {
            lemma_translate_extends(links@, links_mid, self.word());
            target_mid.lemma_kept(target@, copy);
        }
        copy
    }
}

/// Whether `copies` are copies of what `values` lead to in `source`, made
/// together in a block that held `before` and holds `after`: one table of
/// copies serves them all, so what two of the values share, their copies
/// share.
pub open spec fn are_deep_copies(
    source: Heap,
    values: Seq<GcObj>,
    before: Heap,
    after: Heap,
    copies: Seq<GcObj>,
) -> bool {
    exists|links: Seq<Option<u64>>| #[trigger]
        copied_under(links, source, before, after) && copies.len() == values.len() && forall|
            i: int,
        |
            0 <= i < values.len() ==> linked(links, (#[trigger] values[i]).word())
                && copies[i].word() == translate(links, values[i].word())
}

impl LispFn {
    /// Copies the function from `source` into `target`: the opcodes as they
    /// are, and what the constants lead to.
    pub fn clone_in<const S: bool, const T: bool>(
        &self,
        source: &Block<S>,
        target: &mut Block<T>,
    ) -> (copy: LispFn)
        requires
            source@.wf(),
            source@.contains_all(self.body.constants@),
            old(target)@.wf(),
            old(target)@.slots.len() + source@.slots.len() <= ADDR_LIMIT,
        ensures
            final(target)@.wf(),
            copy.body.op_codes@ == self.body.op_codes@,
            copy.args == self.args,
            copy.depth == self.depth,
            final(target)@.contains_all(copy.body.constants@),
            are_deep_copies(
                source@,
                self.body.constants@,
                old(target)@,
                final(target)@,
                copy.body.constants@,
            ),
    {
        let ghost start = target@;
        let mut links = no_links(source);
        let mut pending: Vec<u64> = Vec::new();
        assert(copying(source@, start, target@, links@, pending@, -1));
        let constants = copy_values(
            &self.body.constants,
            source,
            target,
            &mut links,
            &mut pending,
            Ghost(start),
            Ghost(-1),
        );
        let ghost links_mid = links@;
        let ghost target_mid = target@;
        finish(source, target, &mut links, &mut pending, Ghost(start));
        proof {
            assert forall|i: int| 0 <= i < self.body.constants@.len() implies linked(
                links@,
                (#[trigger] self.body.constants@[i]).word(),
            ) && constants@[i].word() == translate(links@, self.body.constants@[i].word()) by {
                lemma_translate_extends(links@, links_mid, self.body.constants@[i].word());
            }
            assert forall|i: int| 0 <= i < constants@.len() implies target@.contains(
                #[trigger] constants@[i],
            ) by {
                target_mid.lemma_kept(target@, constants@[i]);
            }
        }
        LispFn {
            body: Expression { op_codes: CodeVec(copy_items(&self.body.op_codes.0)), constants },
            args: self.args,
            depth: self.depth,
        }
    }
}

/// Tables that agree below a limit have as many copies below it.
proof fn lemma_link_count_same(first: Seq<Option<u64>>, second: Seq<Option<u64>>, limit: int)
    requires
        0 <= limit <= first.len(),
        limit <= second.len(),
        forall|a: int| 0 <= a < limit ==> #[trigger] first[a] == second[a],
    ensures
        link_count(first, limit) == link_count(second, limit),
    decreases limit,
{
    if limit > 0 {
        lemma_link_count_same(first, second, limit - 1);
        assert(first[limit - 1] == second[limit - 1]);
    }
}

} // verus!
