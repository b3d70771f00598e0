use rune_core::gc::block::Block;
use rune_core::gc::into::IntoObject;
use rune_core::gc::print::Atom;
use rune_core::object::data::{Cons, HashTable, LispFloat, RecordBuilder, Symbol};
use rune_core::object::func::{CodeVec, LispFn};
use rune_core::object::tag::{Tag, INT_MAX, INT_MIN};
use rune_core::object::tagged::{nil, qtrue, GcObj};

fn render(atoms: &[Atom]) -> String {
    let mut out = String::new();
    for atom in atoms {
        match atom {
            Atom::Char(c) => out.push(*c),
            Atom::Float(bits) => out.push_str(&format!("{:?}", f64::from_bits(*bits))),
        }
    }
    out
}

fn shown(value: GcObj, block: &Block<false>, level: usize) -> String {
    render(&value.print(block, level))
}

fn cons(block: &mut Block<false>, car: GcObj, cdr: GcObj) -> GcObj {
    Cons::new(car, cdr).into_obj(block).as_obj()
}

#[test]
fn integers_print_in_decimal() {
    let block: Block<false> = Block::new();
    assert_eq!(shown(GcObj::from(0i64), &block, 0), "0");
    assert_eq!(shown(GcObj::from(7i64), &block, 0), "7");
    assert_eq!(shown(GcObj::from(10i64), &block, 0), "10");
    assert_eq!(shown(GcObj::from(-1i64), &block, 3), "-1");
    assert_eq!(shown(GcObj::from(1234567890i64), &block, 0), "1234567890");
    assert_eq!(shown(GcObj::from(INT_MAX), &block, 0), "36028797018963967");
    assert_eq!(shown(GcObj::from(INT_MIN), &block, 0), "-36028797018963968");
}

#[test]
fn symbols_print_their_names() {
    let mut block: Block<false> = Block::new();
    assert_eq!(shown(nil(), &block, 0), "nil");
    assert_eq!(shown(qtrue(), &block, 0), "t");
    let fresh = Symbol::new("car-safe").into_obj(&mut block).as_obj();
    assert_eq!(shown(fresh, &block, 0), "car-safe");
}

#[test]
fn strings_print_between_quotes_with_escapes() {
    let mut block: Block<false> = Block::new();
    let plain = "hello".into_obj(&mut block).as_obj();
    assert_eq!(shown(plain, &block, 0), "\"hello\"");
    let empty = "".into_obj(&mut block).as_obj();
    assert_eq!(shown(empty, &block, 0), "\"\"");
    let tricky = "a\"b\\c".into_obj(&mut block).as_obj();
    assert_eq!(shown(tricky, &block, 0), "\"a\\\"b\\\\c\"");
}

#[test]
fn a_float_is_one_piece() {
    let mut block: Block<false> = Block::new();
    let float = LispFloat::from_bits(1.5f64.to_bits()).into_obj(&mut block).as_obj();
    assert_eq!(float.print(&block, 0), vec![Atom::Float(1.5f64.to_bits())]);
    let pair = cons(&mut block, float, nil());
    assert_eq!(shown(pair, &block, 1), "(1.5 . nil)");
}

#[test]
fn cons_cells_print_as_dotted_pairs() {
    let mut block: Block<false> = Block::new();
    let third = cons(&mut block, GcObj::from(3i64), nil());
    let second = cons(&mut block, GcObj::from(2i64), third);
    let first = cons(&mut block, GcObj::from(1i64), second);
    assert_eq!(shown(first, &block, 3), "(1 . (2 . (3 . nil)))");
    assert_eq!(shown(first, &block, 9), "(1 . (2 . (3 . nil)))");
    assert_eq!(shown(first, &block, 2), "(1 . (2 . ...))");
    assert_eq!(shown(first, &block, 1), "(1 . ...)");
    assert_eq!(shown(first, &block, 0), "...");
    assert_eq!(shown(third, &block, 1), "(3 . nil)");
}

#[test]
fn printing_a_cycle_ends() {
    let mut block: Block<false> = Block::new();
    let cell = cons(&mut block, GcObj::from(1i64), nil());
    block.set_cdr(cell.as_cons(), cell);
    assert_eq!(shown(cell, &block, 3), "(1 . (1 . (1 . ...)))");
}

#[test]
fn vectors_records_and_tables_print_their_values() {
    let mut block: Block<false> = Block::new();
    let text = "x".into_obj(&mut block).as_obj();
    let vec = vec![GcObj::from(1i64), text, nil()].into_obj(&mut block).as_obj();
    assert_eq!(shown(vec, &block, 1), "[1 \"x\" nil]");
    let none = Vec::<GcObj>::new().into_obj(&mut block).as_obj();
    assert_eq!(shown(none, &block, 1), "[]");
    let record = RecordBuilder(vec![qtrue(), GcObj::from(2i64)]).into_obj(&mut block).as_obj();
    assert_eq!(shown(record, &block, 1), "#s(t 2)");
    let mut table = HashTable::new();
    table.insert(GcObj::from(1i64), qtrue());
    table.insert(GcObj::from(2i64), vec);
    let table = table.into_obj(&mut block).as_obj();
    // the keys, then the values
    assert_eq!(shown(table, &block, 2), "#s(hash-table 1 2 t [1 \"x\" nil])");
    assert_eq!(shown(table, &block, 1), "#s(hash-table 1 2 t ...)");
    assert_eq!(shown(table, &block, 0), "...");
}

#[test]
fn functions_print_their_constants_or_their_number() {
    let mut block: Block<false> = Block::new();
    let func = LispFn::new(CodeVec::from(vec![0, 1, 2]), vec![GcObj::from(1i64), nil()], 0, 0, false)
        .into_obj(&mut block)
        .as_obj();
    assert_eq!(shown(func, &block, 1), "#[1 nil]");
    let subr: GcObj = GcObj::from_ptr(12, Tag::SubrFn);
    assert_eq!(shown(subr, &block, 0), "#<subr 12>");
}
