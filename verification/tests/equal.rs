use rune_core::gc::block::Block;
use rune_core::gc::equal::float_eq;
use rune_core::gc::into::IntoObject;
use rune_core::object::data::{Cons, HashTable, LispFloat, RecordBuilder, Symbol};
use rune_core::object::func::LispFn;
use rune_core::object::tag::Tag;
use rune_core::object::tagged::{nil, qtrue, GcObj};

fn cons(block: &mut Block<false>, car: GcObj, cdr: GcObj) -> GcObj {
    Cons::new(car, cdr).into_obj(block).as_obj()
}

fn float(block: &mut Block<false>, value: f64) -> GcObj {
    LispFloat::from_bits(value.to_bits()).into_obj(block).as_obj()
}

#[test]
fn floats_compare_as_numbers() {
    let nan = f64::NAN.to_bits();
    assert!(float_eq(1.5f64.to_bits(), 1.5f64.to_bits()));
    assert!(!float_eq(1.5f64.to_bits(), 2.5f64.to_bits()));
    assert!(float_eq(0.0f64.to_bits(), (-0.0f64).to_bits()));
    assert!(!float_eq(nan, nan));
    assert!(!float_eq(nan, 1.0f64.to_bits()));
    assert!(float_eq(f64::INFINITY.to_bits(), f64::INFINITY.to_bits()));
    assert!(!float_eq(f64::INFINITY.to_bits(), f64::NEG_INFINITY.to_bits()));
    for a in [0.0f64, -0.0, 1.0, -1.0, f64::NAN, f64::INFINITY, f64::MIN_POSITIVE, 5e-324] {
        for b in [0.0f64, -0.0, 1.0, -1.0, f64::NAN, f64::INFINITY, f64::MIN_POSITIVE, 5e-324] {
            assert_eq!(float_eq(a.to_bits(), b.to_bits()), a == b);
        }
    }
}

#[test]
fn unboxed_values_are_equal_by_their_bits() {
    let block: Block<false> = Block::new();
    assert_eq!(GcObj::from(3i64).equal(GcObj::from(3i64), &block, 0), Some(true));
    assert_eq!(GcObj::from(3i64).equal(GcObj::from(4i64), &block, 0), Some(false));
    assert_eq!(GcObj::from(0i64).equal(nil(), &block, 0), Some(false));
    assert_eq!(nil().equal(nil(), &block, 0), Some(true));
    assert_eq!(nil().equal(qtrue(), &block, 0), Some(false));
    let subr: GcObj = GcObj::from_ptr(3, Tag::SubrFn);
    let other: GcObj = GcObj::from_ptr(4, Tag::SubrFn);
    assert_eq!(subr.equal(subr, &block, 0), Some(true));
    assert_eq!(subr.equal(other, &block, 0), Some(false));
}

#[test]
fn strings_and_floats_are_equal_by_content() {
    let mut block: Block<false> = Block::new();
    let one = "key".into_obj(&mut block).as_obj();
    let same = "key".into_obj(&mut block).as_obj();
    let other = "kex".into_obj(&mut block).as_obj();
    let longer = "keys".into_obj(&mut block).as_obj();
    assert!(!one.ptr_eq(same));
    assert_eq!(one.equal(same, &block, 0), Some(true));
    assert_eq!(one.equal(other, &block, 0), Some(false));
    assert_eq!(one.equal(longer, &block, 0), Some(false));
    let a = float(&mut block, 2.5);
    let b = float(&mut block, 2.5);
    let c = float(&mut block, f64::NAN);
    let d = float(&mut block, f64::NAN);
    let zero = float(&mut block, 0.0);
    let minus_zero = float(&mut block, -0.0);
    assert_eq!(a.equal(b, &block, 0), Some(true));
    assert_eq!(c.equal(d, &block, 0), Some(false));
    assert_eq!(zero.equal(minus_zero, &block, 0), Some(true));
    // a value is equal to itself whatever it holds
    assert_eq!(c.equal(c, &block, 0), Some(true));
    assert_eq!(a.equal(one, &block, 0), Some(false));
}

#[test]
fn lists_are_equal_slot_by_slot() {
    let mut block: Block<false> = Block::new();
    let x = "x".into_obj(&mut block).as_obj();
    let x2 = "x".into_obj(&mut block).as_obj();
    let tail = cons(&mut block, x, nil());
    let list = cons(&mut block, GcObj::from(1i64), tail);
    let tail2 = cons(&mut block, x2, nil());
    let list2 = cons(&mut block, GcObj::from(1i64), tail2);
    let tail3 = cons(&mut block, x2, qtrue());
    let list3 = cons(&mut block, GcObj::from(1i64), tail3);
    assert_eq!(list.equal(list2, &block, 2), Some(true));
    assert_eq!(list.equal(list2, &block, 9), Some(true));
    assert_eq!(list.equal(list3, &block, 2), Some(false));
    // too shallow to tell
    assert_eq!(list.equal(list2, &block, 1), None);
    assert_eq!(list.equal(list2, &block, 0), None);
    assert_eq!(list.equal(list3, &block, 1), None);
    // a difference found before the depth runs out
    let list4 = cons(&mut block, GcObj::from(2i64), tail2);
    assert_eq!(list.equal(list4, &block, 1), Some(false));
    assert_eq!(list.equal(tail, &block, 1), Some(false));
    assert_eq!(list.equal(nil(), &block, 1), Some(false));
}

#[test]
fn vectors_and_records_are_equal_slot_by_slot() {
    let mut block: Block<false> = Block::new();
    let a = vec![GcObj::from(1i64), nil()].into_obj(&mut block).as_obj();
    let b = vec![GcObj::from(1i64), nil()].into_obj(&mut block).as_obj();
    let c = vec![GcObj::from(1i64), qtrue()].into_obj(&mut block).as_obj();
    let short = vec![GcObj::from(1i64)].into_obj(&mut block).as_obj();
    assert_eq!(a.equal(b, &block, 1), Some(true));
    assert_eq!(a.equal(c, &block, 1), Some(false));
    // the lengths tell without looking inside
    assert_eq!(a.equal(short, &block, 0), Some(false));
    assert_eq!(a.equal(b, &block, 0), None);
    let r = RecordBuilder(vec![GcObj::from(1i64), nil()]).into_obj(&mut block).as_obj();
    let s = RecordBuilder(vec![GcObj::from(1i64), nil()]).into_obj(&mut block).as_obj();
    assert_eq!(r.equal(s, &block, 1), Some(true));
    // a record is no vector
    assert_eq!(r.equal(a, &block, 1), Some(false));
    let empty = Vec::<GcObj>::new().into_obj(&mut block).as_obj();
    let empty2 = Vec::<GcObj>::new().into_obj(&mut block).as_obj();
    assert_eq!(empty.equal(empty2, &block, 1), Some(true));
}

#[test]
fn symbols_tables_and_functions_are_equal_to_themselves_only() {
    let mut block: Block<false> = Block::new();
    let a = Symbol::new("name").into_obj(&mut block).as_obj();
    let b = Symbol::new("name").into_obj(&mut block).as_obj();
    assert_eq!(a.equal(a, &block, 0), Some(true));
    assert_eq!(a.equal(b, &block, 5), Some(false));
    let t = HashTable::new().into_obj(&mut block).as_obj();
    let u = HashTable::new().into_obj(&mut block).as_obj();
    assert_eq!(t.equal(t, &block, 0), Some(true));
    assert_eq!(t.equal(u, &block, 5), Some(false));
    let f = LispFn::default().into_obj(&mut block).as_obj();
    let g = LispFn::default().into_obj(&mut block).as_obj();
    assert_eq!(f.equal(f, &block, 0), Some(true));
    assert_eq!(f.equal(g, &block, 5), Some(false));
}

#[test]
fn comparing_cycles_ends() {
    let mut block: Block<false> = Block::new();
    let a = cons(&mut block, GcObj::from(1i64), nil());
    block.set_cdr(a.as_cons(), a);
    let b = cons(&mut block, GcObj::from(1i64), nil());
    block.set_cdr(b.as_cons(), b);
    assert_eq!(a.equal(a, &block, 0), Some(true));
    assert_eq!(a.equal(b, &block, 16), None);
    let c = cons(&mut block, GcObj::from(2i64), nil());
    block.set_cdr(c.as_cons(), c);
    assert_eq!(a.equal(c, &block, 16), Some(false));
}

#[test]
fn a_value_is_compared_with_plain_data() {
    let mut block: Block<false> = Block::new();
    assert!(GcObj::from(5i64).eq_int(5));
    assert!(!GcObj::from(5i64).eq_int(6));
    assert!(GcObj::from(-5i64).eq_int(-5));
    assert!(!nil().eq_int(0));
    let text = "héllo".into_obj(&mut block).as_obj();
    assert!(text.eq_str("héllo", &block));
    assert!(!text.eq_str("hello", &block));
    assert!(!text.eq_str("héll", &block));
    assert!(!nil().eq_str("nil", &block));
    assert!(!GcObj::from(1i64).eq_str("1", &block));
    let name = Symbol::new("name").into_obj(&mut block);
    let other = Symbol::new("name").into_obj(&mut block);
    assert!(name.as_obj().eq_symbol(name.untag()));
    assert!(!name.as_obj().eq_symbol(other.untag()));
    assert!(!text.eq_symbol(name.untag()));
}
