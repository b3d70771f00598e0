use rune_core::gc::arena::Arena;
use rune_core::gc::block::Block;
use rune_core::gc::into::IntoObject;
use rune_core::gc::root::RootSet;
use rune_core::object::data::{Cons, HashTable, HeapObject, LispFloat, Symbol};
use rune_core::object::func::{CodeVec, LispFn};
use rune_core::object::tag::Tag;
use rune_core::object::tagged::{nil, qtrue, GcObj, List, Object, RawObj};

fn cons(block: &mut Block<false>, car: GcObj, cdr: GcObj) -> GcObj {
    Cons::new(car, cdr).into_obj(block).as_obj()
}

fn addr(value: GcObj) -> u64 {
    value.untag_ptr().0
}

/// The list `(1 2 3)`: the three cells, the head first.
fn one_two_three(block: &mut Block<false>) -> Vec<GcObj> {
    let third = cons(block, GcObj::from(3i64), nil());
    let second = cons(block, GcObj::from(2i64), third);
    let first = cons(block, GcObj::from(1i64), second);
    vec![first, second, third]
}

#[test]
fn a_new_block_holds_the_canonical_symbols() {
    let mut block: Block<false> = Block::new();
    assert_eq!(block.len(), 2);
    assert!(block.is_live_at(0) && block.is_live_at(1));
    assert!(!block.is_live_at(2));
    assert!(matches!(block.get(0), HeapObject::Symbol(s) if s.name == "nil" && s.value == Some(nil())));
    assert!(matches!(block.get(1), HeapObject::Symbol(s) if s.name == "t" && s.value == Some(qtrue())));
    // a collection without roots keeps them
    assert_eq!(block.collect(&RootSet::new()), 0);
    assert!(block.is_live_at(0) && block.is_live_at(1));
    assert!(block.check(nil()) && block.check(qtrue()));
}

#[test]
fn a_list_is_marked_from_its_head_and_freed_without_it() {
    let mut block: Block<false> = Block::new();
    let cells = one_two_three(&mut block);
    let stray = "stray".into_obj(&mut block).as_obj();
    let mut roots = RootSet::new();
    assert_eq!(roots.root(cells[0]), 0);

    block.mark_from(&roots);
    for cell in &cells {
        assert!(cell.is_marked(&block));
        assert!(block.marked_at(addr(*cell)));
    }
    // the end of the list, `nil`, is marked as well
    assert!(nil().is_marked(&block));
    assert!(block.marked_at(0));
    assert!(!stray.is_marked(&block));

    assert_eq!(block.collect(&roots), 1);
    for cell in &cells {
        assert!(block.is_live_at(addr(*cell)));
        assert!(!block.marked_at(addr(*cell)));
    }
    assert!(!block.is_live_at(addr(stray)));
    assert!(!block.check(stray));
    assert_eq!(block.cons(cells[0].as_cons()).car().untag(), Object::Int(1));
    assert_eq!(block.cons(cells[0].as_cons()).cdr(), cells[1]);
    assert_eq!(roots.get(0, &block), cells[0]);

    assert_eq!(roots.unroot(), Some(cells[0].into_raw()));
    assert_eq!(block.collect(&roots), 3);
    for cell in &cells {
        assert!(!block.is_live_at(addr(*cell)));
        assert!(!block.check(*cell));
    }
    assert!(block.is_live_at(0) && block.is_live_at(1));
    assert_eq!(block.collect(&roots), 0);
}

#[test]
fn a_cycle_is_kept_while_rooted_and_freed_once() {
    let mut block: Block<false> = Block::new();
    let a = cons(&mut block, GcObj::from(1i64), nil());
    let b = cons(&mut block, GcObj::from(2i64), a);
    block.set_cdr(a.as_cons(), b);
    assert_eq!(block.cons(a.as_cons()).cdr(), b);
    assert_eq!(block.cons(b.as_cons()).cdr(), a);

    let mut roots = RootSet::new();
    roots.root(b);
    assert_eq!(block.collect(&roots), 0);
    assert!(block.is_live_at(addr(a)) && block.is_live_at(addr(b)));
    assert_eq!(block.collect(&roots), 0);
    assert_eq!(block.cons(a.as_cons()).cdr(), b);

    roots.unroot();
    assert_eq!(block.collect(&roots), 2);
    assert!(!block.is_live_at(addr(a)) && !block.is_live_at(addr(b)));
    assert_eq!(block.collect(&roots), 0);
}

#[test]
fn every_kind_of_object_is_traced() {
    let mut block: Block<false> = Block::new();
    let leaf = |block: &mut Block<false>, n: i64| cons(block, GcObj::from(n), nil());
    let in_vec = leaf(&mut block, 1);
    let in_record = leaf(&mut block, 2);
    let key = leaf(&mut block, 3);
    let value = leaf(&mut block, 4);
    let bound = leaf(&mut block, 5);
    let function = leaf(&mut block, 6);
    let constant = leaf(&mut block, 7);
    let lost = leaf(&mut block, 8);

    let vec = vec![in_vec, GcObj::from(0i64)].into_obj(&mut block).as_obj();
    let record = rune_core::object::data::RecordBuilder(vec![in_record]).into_obj(&mut block).as_obj();
    let mut table = HashTable::new();
    table.insert(key, value);
    let table = table.into_obj(&mut block).as_obj();
    let symbol = Symbol::new("bound").into_obj(&mut block);
    block.set_symbol_value(symbol.untag(), Some(bound));
    block.set_symbol_function(symbol.untag(), Some(function));
    let byte_fn = LispFn::new(CodeVec::from(vec![1]), vec![constant], 0, 0, false)
        .into_obj(&mut block)
        .as_obj();
    let float = LispFloat::from_bits(0).into_obj(&mut block).as_obj();

    let mut roots = RootSet::new();
    for root in [vec, record, table, symbol.as_obj(), byte_fn, float, GcObj::from(9i64)] {
        roots.root(root);
    }
    assert_eq!(roots.len(), 7);
    assert_eq!(block.collect(&roots), 1);
    for kept in [in_vec, in_record, key, value, bound, function, constant, vec, record, table, byte_fn, float] {
        assert!(block.check(kept));
    }
    assert!(!block.check(lost));
}

#[test]
fn trace_mark_marks_one_object_and_stacks_what_it_holds() {
    let mut block: Block<false> = Block::new();
    let inner = cons(&mut block, nil(), nil());
    let outer = cons(&mut block, GcObj::from(5i64), inner);
    let mut stack: Vec<RawObj> = vec![];
    assert!(outer.is_markable());
    assert!(!outer.is_marked(&block));
    outer.trace_mark(&mut block, &mut stack);
    assert!(outer.is_marked(&block));
    assert!(!inner.is_marked(&block));
    assert_eq!(stack, vec![GcObj::from(5i64).into_raw(), inner.into_raw()]);

    let int = GcObj::from(5i64);
    assert!(!int.is_markable());
    assert!(int.is_marked(&block));
    int.trace_mark(&mut block, &mut stack);
    assert_eq!(stack.len(), 2);
    let subr: GcObj = rune_core::object::tagged::Gc::from_ptr(0, Tag::SubrFn);
    assert!(!subr.is_markable() && subr.is_marked(&block));
}

#[test]
fn sweep_frees_what_is_not_marked() {
    let mut block: Block<false> = Block::new();
    let kept = cons(&mut block, nil(), nil());
    let dropped = cons(&mut block, nil(), nil());
    let mut roots = RootSet::new();
    roots.root(kept);
    block.mark_from(&roots);
    assert_eq!(block.sweep(), 1);
    assert!(block.check(kept) && !block.check(dropped));
    assert!(!block.marked_at(addr(kept)));
}

#[test]
fn roots_are_a_stack_that_can_be_rebound() {
    let mut block: Block<false> = Block::new();
    let first = cons(&mut block, nil(), nil());
    let second = cons(&mut block, nil(), nil());
    let mut roots = RootSet::new();
    let place = roots.root(first);
    roots.set(place, second, &block);
    assert_eq!(roots.raw(place), second.into_raw());
    assert_eq!(block.collect(&roots), 1);
    assert!(block.check(second) && !block.check(first));
    assert_eq!(roots.unroot(), Some(second.into_raw()));
    assert_eq!(roots.unroot(), None);
}

#[test]
fn a_string_outlives_the_block_it_was_copied_from() {
    let mut b: Block<true> = Block::new();
    let copy = {
        let mut a: Block<false> = Block::new();
        let hello = "hello".into_obj(&mut a).as_obj();
        hello.clone_in(&a, &mut b)
    };
    match copy.untag() {
        Object::String(handle) => assert_eq!(b.string(handle).bytes, b"hello".to_vec()),
        other => panic!("expected a string, got {:?}", other),
    }
}

#[test]
fn leaves_copy_to_themselves() {
    let source: Block<false> = Block::new();
    let mut target: Block<false> = Block::new();
    for leaf in [GcObj::from(12i64), nil(), qtrue()] {
        assert_eq!(leaf.clone_in(&source, &mut target), leaf);
    }
    assert_eq!(target.len(), 2);
}

#[test]
fn a_copy_keeps_sharing_and_cycles() {
    let mut source: Block<false> = Block::new();
    let shared = cons(&mut source, GcObj::from(7i64), nil());
    let a = cons(&mut source, shared, shared);
    let b = cons(&mut source, a, nil());
    source.set_cdr(shared.as_cons(), b);

    let mut target: Block<false> = Block::new();
    let old = cons(&mut target, qtrue(), qtrue());
    let before = target.len();
    let copy = b.clone_in(&source, &mut target);
    assert_eq!(target.len(), before + 3);
    assert_eq!(*target.cons(old.as_cons()), Cons::new(qtrue(), qtrue()));

    let copy_a = target.cons(copy.as_cons()).car();
    assert_eq!(target.cons(copy.as_cons()).cdr(), nil());
    let copy_shared = target.cons(copy_a.as_cons()).car();
    assert_eq!(target.cons(copy_a.as_cons()).cdr(), copy_shared);
    assert_eq!(target.cons(copy_shared.as_cons()).car().untag(), Object::Int(7));
    assert_eq!(target.cons(copy_shared.as_cons()).cdr(), copy);
    assert!(addr(copy) >= before as u64);

    // the copy stands on its own
    source.set_car(shared.as_cons(), GcObj::from(8i64));
    assert_eq!(target.cons(copy_shared.as_cons()).car().untag(), Object::Int(7));
    let mut roots = RootSet::new();
    roots.root(copy);
    assert_eq!(target.collect(&roots), 1);
    assert!(target.check(copy_shared));
}

#[test]
fn every_kind_of_object_is_copied() {
    let mut source: Block<false> = Block::new();
    let leaf = cons(&mut source, GcObj::from(1i64), nil());
    let text = vec![0xffu8, b'a'].into_obj(&mut source).as_obj();
    let float = LispFloat::from_bits(2.5f64.to_bits()).into_obj(&mut source).as_obj();
    let mut table = HashTable::new();
    table.insert(text, leaf);
    table.insert(GcObj::from(3i64), float);
    let table = table.into_obj(&mut source).as_obj();
    let symbol = Symbol::new("name").into_obj(&mut source);
    source.set_symbol_function(symbol.untag(), Some(table));
    let record = rune_core::object::data::RecordBuilder(vec![symbol.as_obj()]).into_obj(&mut source).as_obj();
    let byte_fn = LispFn::new(CodeVec::from(vec![9, 8]), vec![record, leaf], 1, 2, true)
        .into_obj(&mut source)
        .as_obj();
    let top = vec![byte_fn, leaf].into_obj(&mut source).as_obj();

    let mut target: Block<true> = Block::new();
    let copy = top.clone_in(&source, &mut target);
    assert_eq!(target.len(), 2 + 8);
    let items = match copy.untag() {
        Object::Vec(handle) => target.vec(handle).items.clone(),
        other => panic!("expected a vector, got {:?}", other),
    };
    assert_eq!(items.len(), 2);
    let func = match items[0].untag() {
        Object::ByteFn(handle) => target.byte_fn(handle),
        other => panic!("expected a function, got {:?}", other),
    };
    assert_eq!(func.body.op_codes, CodeVec::from(vec![9, 8]));
    assert_eq!((func.args.required, func.args.optional, func.args.rest), (1, 2, true));
    assert_eq!(func.body.constants[1], items[1]);
    let record = match func.body.constants[0].untag() {
        Object::Record(handle) => target.record(handle),
        other => panic!("expected a record, got {:?}", other),
    };
    let symbol = match record.items[0].untag() {
        Object::Symbol(handle) => target.symbol(handle),
        other => panic!("expected a symbol, got {:?}", other),
    };
    assert_eq!(symbol.name, "name");
    assert_eq!(symbol.value, None);
    let table = match symbol.func.map(|f| f.untag()) {
        Some(Object::HashTable(handle)) => &target.hash_table(handle).table,
        other => panic!("expected a table, got {:?}", other),
    };
    assert_eq!(table.len(), 2);
    assert_eq!(table.get(GcObj::from(3i64)).map(|v| v.tag()), Some(Tag::Float));
    assert_eq!(table.values[0], items[1]);
    match table.keys[0].untag() {
        Object::String(handle) => assert_eq!(target.string(handle).bytes, vec![0xffu8, b'a']),
        other => panic!("expected a string, got {:?}", other),
    }
    match table.values[1].untag() {
        Object::Float(handle) => assert_eq!(f64::from_bits(target.float(handle).to_bits()), 2.5),
        other => panic!("expected a float, got {:?}", other),
    }
}

#[test]
fn a_function_is_copied_with_its_constants() {
    let mut source: Block<false> = Block::new();
    let shared = cons(&mut source, GcObj::from(1i64), nil());
    let func = LispFn::new(CodeVec::from(vec![1, 2, 3]), vec![shared, shared, nil()], 2, 1, false);
    let mut target: Block<false> = Block::new();
    let copy = func.clone_in(&source, &mut target);
    assert_eq!(copy.body.op_codes, func.body.op_codes);
    assert_eq!(copy.args, func.args);
    assert_eq!(copy.body.constants.len(), 3);
    assert_eq!(copy.body.constants[0], copy.body.constants[1]);
    assert_eq!(copy.body.constants[2], nil());
    assert_eq!(target.len(), 3);
    assert_eq!(target.cons(copy.body.constants[0].as_cons()).car().untag(), Object::Int(1));
}

#[test]
fn the_first_value_of_a_list() {
    let mut block: Block<false> = Block::new();
    let cells = one_two_three(&mut block);
    let list = cells[0].try_as::<List>().unwrap().untag();
    assert_eq!(list.car(&block).untag(), Object::Int(1));
    assert_eq!(List::Nil.car(&block), nil());
}

#[test]
fn hash_tables_tell_keys_apart_by_identity() {
    let mut block: Block<false> = Block::new();
    let one = "key".into_obj(&mut block).as_obj();
    let other = "key".into_obj(&mut block).as_obj();
    let mut table = HashTable::new();
    table.insert(one, GcObj::from(1i64));
    table.insert(other, GcObj::from(2i64));
    table.insert(one, GcObj::from(3i64));
    assert_eq!(table.len(), 2);
    assert_eq!(table.get(one), Some(GcObj::from(3i64)));
    assert_eq!(table.get(other), Some(GcObj::from(2i64)));
    assert_eq!(table.get(nil()), None);
}

#[test]
fn symbols_can_be_bound_and_unbound() {
    let mut block: Block<false> = Block::new();
    let symbol = Symbol::new("x").into_obj(&mut block).untag();
    let value = cons(&mut block, nil(), nil());
    block.set_symbol_value(symbol, Some(value));
    assert_eq!(block.symbol(symbol).value, Some(value));
    block.set_symbol_value(symbol, None);
    assert_eq!(block.symbol(symbol).value, None);
    block.set_car(value.as_cons(), qtrue());
    assert_eq!(block.cons(value.as_cons()).car(), qtrue());
}

#[test]
fn an_arena_collects_when_its_limit_is_reached() {
    let mut arena = Arena::new(2);
    let mut roots = RootSet::new();
    let kept = arena.alloc_obj(HeapObject::Cons(Cons::new(nil(), nil())), &roots);
    roots.root(kept);
    assert!(!arena.is_due());
    let lost = arena.alloc_obj(HeapObject::Cons(Cons::new(kept, nil())), &roots);
    assert!(arena.is_due());
    assert!(arena.block().check(lost));
    let next = arena.alloc_obj(HeapObject::Cons(Cons::new(kept, kept)), &roots);
    assert!(!arena.is_due());
    assert!(arena.block().check(kept));
    assert!(arena.block().check(next));
    assert!(!arena.block().check(lost));
    roots.root(next);
    assert_eq!(arena.collect(&roots), 0);
    arena.block_mut().set_car(next.as_cons(), nil());
    assert_eq!(arena.block().cons(next.as_cons()).car(), nil());
}
