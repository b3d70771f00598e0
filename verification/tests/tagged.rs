use rune_core::error::{Type, TypeError};
use rune_core::gc::block::Block;
use rune_core::gc::into::IntoObject;
use rune_core::object::data::{Cons, HashTable, LispFloat, RecordBuilder, Symbol};
use rune_core::object::func::LispFn;
use rune_core::object::handle::ConsRef;
use rune_core::object::tag::{Tag, INT_MAX, INT_MIN};
use rune_core::object::tagged::{
    nil, qtrue, Function, Gc, GcObj, List, Number, Object, RawObj, NIL_WORD, TRUE_WORD,
};

fn one_of_each(block: &mut Block<false>) -> Vec<GcObj> {
    vec![
        GcObj::from(42i64),
        LispFloat::from_bits(1.0f64.to_bits()).into_obj(block).as_obj(),
        Symbol::new("fresh").into_obj(block).as_obj(),
        Cons::new(GcObj::from(1i64), nil()).into_obj(block).as_obj(),
        "text".into_obj(block).as_obj(),
        vec![GcObj::from(1i64)].into_obj(block).as_obj(),
        RecordBuilder(vec![nil()]).into_obj(block).as_obj(),
        HashTable::new().into_obj(block).as_obj(),
        LispFn::default().into_obj(block).as_obj(),
        nil(),
        qtrue(),
    ]
}

#[test]
fn tags_have_their_codes() {
    let tags = [
        Tag::Symbol,
        Tag::Int,
        Tag::Float,
        Tag::Cons,
        Tag::String,
        Tag::Vec,
        Tag::Record,
        Tag::HashTable,
        Tag::SubrFn,
        Tag::ByteFn,
    ];
    for (code, tag) in tags.iter().enumerate() {
        assert_eq!(tag.to_u8() as usize, code);
        assert_eq!(Tag::from_u8(code as u8), Some(*tag));
    }
    assert_eq!(Tag::from_u8(10), None);
    assert_eq!(Tag::from_u8(255), None);
}

#[test]
fn retag_of_untag_is_the_value() {
    let mut block: Block<false> = Block::new();
    for value in one_of_each(&mut block) {
        let view = value.untag();
        let again: GcObj = Gc::retag(view);
        assert_eq!(again, value);
        assert!(again.ptr_eq(value));
        assert_eq!(again.into_ptr(), value.into_ptr());
        let (payload, tag) = value.untag_ptr();
        assert_eq!(GcObj::from_ptr(payload, tag), value);
        assert_eq!(tag, value.tag());
    }
}

#[test]
fn integers_come_back_unchanged() {
    for n in [0i64, 1, -1, 255, 256, -256, 1 << 40, -(1 << 40), INT_MAX, INT_MIN] {
        let value = GcObj::from(n);
        assert_eq!(value.untag(), Object::Int(n));
        assert_eq!(value.tag(), Tag::Int);
        assert_eq!(value.into_ptr(), ((n as u64) << 8) | 1);
    }
    assert_eq!(INT_MAX, (1i64 << 55) - 1);
    assert_eq!(INT_MIN, -(1i64 << 55));
}

#[test]
fn integers_beyond_the_payload_lose_their_high_bits() {
    assert_eq!(GcObj::from(i64::MAX).untag(), Object::Int(-1));
    assert_eq!(GcObj::from(INT_MAX + 1).untag(), Object::Int(INT_MIN));
    assert_eq!(GcObj::from(i64::MIN).untag(), Object::Int(0));
}

#[test]
fn small_integers_of_other_widths() {
    let mut block: Block<false> = Block::new();
    assert_eq!(7i32.into_obj(&mut block).untag(), 7);
    assert_eq!((-7i32).into_obj(&mut block).untag(), -7);
    assert_eq!(7usize.into_obj(&mut block).untag(), 7);
    assert_eq!(GcObj::from(-3i32).untag(), Object::Int(-3));
    assert_eq!(block.len(), 2);
}

#[test]
fn nil_and_true_are_fixed_words() {
    assert_eq!(nil().into_ptr(), NIL_WORD);
    assert_eq!(qtrue().into_ptr(), TRUE_WORD);
    assert!(nil().nil());
    assert!(!qtrue().nil());
    assert!(!GcObj::from(0i64).nil());
    assert_eq!(RawObj::default().bits(), NIL_WORD);
    assert_eq!(GcObj::default(), nil());
    assert_eq!(List::empty().untag(), List::Nil);
    assert_eq!(Gc::<List>::default().as_obj(), nil());
    let mut block: Block<false> = Block::new();
    assert_eq!(false.into_obj(&mut block).as_obj(), nil());
    assert_eq!(true.into_obj(&mut block).as_obj(), qtrue());
    assert!(matches!(nil().untag(), Object::Symbol(_)));
    assert_eq!(nil().tag(), Tag::Symbol);
    let yes = true.into_obj(&mut block).untag();
    let no = false.into_obj(&mut block).untag();
    assert_eq!(block.symbol(yes).name, "t");
    assert_eq!(block.symbol(no).name, "nil");
}

#[test]
fn allocation_hands_back_the_object() {
    let mut block: Block<false> = Block::new();
    let pair = Cons::new(GcObj::from(1i64), GcObj::from(2i64));
    let value = pair.into_obj(&mut block);
    assert_eq!(value.tag(), Tag::Cons);
    assert_eq!(*block.cons(value.untag()), pair);
    let float = LispFloat::from_bits(2.5f64.to_bits()).into_obj(&mut block);
    assert_eq!(f64::from_bits(block.float(float.untag()).to_bits()), 2.5);
    let text = "hello".into_obj(&mut block);
    assert_eq!(block.string(text.untag()).bytes, b"hello".to_vec());
    let bytes = vec![0xffu8, 0x00, 0x80].into_obj(&mut block);
    assert_eq!(block.string(bytes.untag()).bytes, vec![0xffu8, 0x00, 0x80]);
    let owned = String::from("owned").into_obj(&mut block);
    assert_eq!(block.string(owned.untag()).len(), 5);
    let items = vec![value.as_obj(), nil()].into_obj(&mut block);
    assert_eq!(block.vec(items.untag()).items, vec![value.as_obj(), nil()]);
    let record = RecordBuilder(vec![qtrue()]).into_obj(&mut block);
    assert_eq!(record.tag(), Tag::Record);
    assert_eq!(block.record(record.untag()).items, vec![qtrue()]);
    assert!(block.check(value.as_obj()));
    assert!(block.check(record.as_obj()));
    let passed = value.into_obj(&mut block);
    assert_eq!(passed, value.as_obj());
    assert_eq!(Some(value).into_obj(&mut block), value.as_obj());
    assert_eq!(None::<Gc<ConsRef>>.into_obj(&mut block), nil());
}

#[test]
fn a_value_of_another_block_is_told_apart() {
    let mut big: Block<false> = Block::new();
    let small: Block<true> = Block::new();
    let pair = Cons::new(nil(), nil()).into_obj(&mut big).as_obj();
    assert!(big.check(pair));
    assert!(!small.check(pair));
    assert!(small.check(nil()));
    assert!(small.check(GcObj::from(5i64)));
    let text = "s".into_obj(&mut big).as_obj();
    // same address, other kind
    let forged: GcObj = Gc::from_ptr(text.untag_ptr().0, Tag::Cons);
    assert!(!big.check(forged));
}

#[test]
fn number_projection() {
    let mut block: Block<false> = Block::new();
    for value in one_of_each(&mut block) {
        let out = value.try_as::<Number>();
        let expected = matches!(value.tag(), Tag::Int | Tag::Float);
        assert_eq!(out.is_ok(), expected);
        assert_eq!(Gc::<Number>::try_from(value), out);
        if let Err(err) = out {
            assert_eq!(err, TypeError { expected: Type::Number, actual: value.untag() });
        }
    }
}

#[test]
fn list_projection() {
    let mut block: Block<false> = Block::new();
    for value in one_of_each(&mut block) {
        let out = value.try_as::<List>();
        let expected = value.nil() || value.tag() == Tag::Cons;
        assert_eq!(out.is_ok(), expected);
        assert_eq!(Gc::<List>::try_from(value), out);
        if let Err(err) = out {
            assert_eq!(err.expected, Type::List);
        }
    }
    // `t` is a symbol, and no list
    assert!(qtrue().try_as::<List>().is_err());
    assert_eq!(nil().try_as::<List>().map(|l| l.untag()), Ok(List::Nil));
}

#[test]
fn function_projection() {
    let mut block: Block<false> = Block::new();
    for value in one_of_each(&mut block) {
        let out = value.try_as::<Function>();
        let expected =
            matches!(value.tag(), Tag::ByteFn | Tag::SubrFn | Tag::Cons | Tag::Symbol);
        assert_eq!(out.is_ok(), expected);
        assert_eq!(Gc::<Function>::try_from(value), out);
        if let Err(err) = out {
            assert_eq!(err.expected, Type::Func);
        }
    }
    let subr: GcObj = Gc::from_ptr(3, Tag::SubrFn);
    assert!(matches!(subr.try_as::<Function>().map(|f| f.untag()), Ok(Function::SubrFn(_))));
    assert_eq!(subr.untag().get_type(), Type::Func);
}

#[test]
fn float_is_a_number_and_a_string_is_not() {
    let mut block: Block<false> = Block::new();
    let float = LispFloat::from_bits(1.0f64.to_bits()).into_obj(&mut block).as_obj();
    match float.try_as::<Number>().map(|n| n.untag()) {
        Ok(Number::Float(handle)) => {
            assert_eq!(f64::from_bits(block.float(handle).to_bits()), 1.0);
        }
        other => panic!("expected a float, got {:?}", other),
    }
    let text = "one".into_obj(&mut block).as_obj();
    let err = text.try_as::<Number>().unwrap_err();
    assert_eq!(err.expected, Type::Number);
    assert!(matches!(err.actual, Object::String(_)));
    assert_eq!(err.actual_type(), Type::String);
}

#[test]
fn narrow_projections() {
    let mut block: Block<false> = Block::new();
    let values = one_of_each(&mut block);
    for value in values {
        assert_eq!(value.try_as::<i64>().is_ok(), value.tag() == Tag::Int);
        assert_eq!(value.try_as::<ConsRef>().is_ok(), value.tag() == Tag::Cons);
        assert_eq!(Gc::<ConsRef>::try_from(value).is_ok(), value.tag() == Tag::Cons);
        if value.tag() == Tag::Cons {
            assert_eq!(value.as_cons(), value.try_as::<ConsRef>().unwrap().untag());
            let function = value.try_as::<Function>().unwrap();
            assert!(Gc::<ConsRef>::try_from(function).is_ok());
        }
    }
    let err = GcObj::from(1i64).try_as::<ConsRef>().unwrap_err();
    assert_eq!(err, TypeError { expected: Type::Cons, actual: Object::Int(1) });
    let symbol = nil().try_as::<Function>().unwrap();
    assert_eq!(Gc::<ConsRef>::try_from(symbol).unwrap_err().expected, Type::Cons);
}

#[test]
fn optional_projection() {
    let none: Result<Option<Gc<Number>>, TypeError> = GcObj::try_from_option(nil());
    assert_eq!(none, Ok(None));
    let some: Result<Option<Gc<Number>>, TypeError> = GcObj::try_from_option(GcObj::from(3i64));
    assert_eq!(some.map(|n| n.map(|n| n.untag())), Ok(Some(Number::Int(3))));
    let bad: Result<Option<Gc<Number>>, TypeError> = GcObj::try_from_option(qtrue());
    assert_eq!(bad.unwrap_err().expected, Type::Number);
}

#[test]
fn kinds_of_values() {
    let mut block: Block<false> = Block::new();
    let kinds: Vec<Type> = one_of_each(&mut block).iter().map(|v| v.untag().get_type()).collect();
    assert_eq!(
        kinds,
        vec![
            Type::Int,
            Type::Float,
            Type::Symbol,
            Type::Cons,
            Type::String,
            Type::Vec,
            Type::Record,
            Type::HashTable,
            Type::Func,
            Type::Symbol,
            Type::Symbol,
        ]
    );
}

#[test]
fn raw_values_keep_the_word() {
    let value = GcObj::from(-9i64);
    let raw = value.into_raw();
    assert_eq!(raw.bits(), value.into_ptr());
    assert_eq!(raw.tag(), Tag::Int);
    assert_eq!(GcObj::from_raw(raw), value);
    assert_eq!(GcObj::from_raw_ptr(raw.bits()), value);
    assert_eq!(GcObj::new(raw.bits()).copy_as_obj(), value);
}
