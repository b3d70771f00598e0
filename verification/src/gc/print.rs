//! The printed form of values.
//!
//! A value is printed as a sequence of characters, with each float left as a
//! piece of its own for whoever shows the text to format. Objects nested
//! deeper than a given level are printed as `...`, so that printing ends on
//! cyclic structures too. A cons cell is printed as a dotted pair.

use vstd::prelude::*;
use crate::gc::block::{Block, Heap};
use crate::gc::copy::children_of;
use crate::object::data::HeapObject;
use crate::object::handle::addr_of_word;
use crate::object::tag::{Tag, payload_of, word_addr, word_payload, word_tag};
use crate::object::tagged::{Gc, GcObj, Object, TaggedPtr};

verus! {

/// One piece of a printed form.
#[derive(Clone, Copy, Debug, PartialEq, Eq, Structural)]
pub enum Atom {
    /// A character.
    Char(char),
    /// A float, by its bits.
    Float(u64),
}

/// The piece that stands for a character.
pub open spec fn glyph(c: char) -> Atom {
    Atom::Char(c)
}

/// The pieces that stand for a text.
pub open spec fn text(chars: Seq<char>) -> Seq<Atom>
    decreases chars.len(),
{
    if chars.len() == 0 {
        Seq::empty()
    } else {
        text(chars.drop_last()).push(glyph(chars.last()))
    }
}

/// The character of a digit.
pub open spec fn digit_char(digit: int) -> char {
    (digit + '0' as u32) as char
}

/// The decimal digits of a number.
pub open spec fn nat_digits(n: nat) -> Seq<char>
    decreases n,
{
    if n < 10 {
        seq![digit_char(n as int)]
    } else {
        nat_digits(n / 10).push(digit_char((n % 10) as int))
    }
}

/// The decimal form of an integer.
pub open spec fn decimal(n: int) -> Seq<char> {
    if n < 0 {
        seq!['-'] + nat_digits((-n) as nat)
    } else {
        nat_digits(n as nat)
    }
}

/// A byte as it stands inside a printed string: a backslash before a
/// backslash and before a double quote.
pub open spec fn quoted_byte(byte: u8) -> Seq<char> {
    if byte == 0x5c || byte == 0x22 {
        seq!['\\', byte as char]
    } else {
        seq![byte as char]
    }
}

/// The bytes of a string from `from` on, as they stand inside a printed
/// string.
pub open spec fn quoted_from(bytes: Seq<u8>, from: int) -> Seq<char>
    decreases bytes.len() - from,
{
    if from < 0 || from >= bytes.len() {
        Seq::empty()
    } else {
        quoted_byte(bytes[from]) + quoted_from(bytes, from + 1)
    }
}

/// What opens the printed form of an object that holds values.
pub open spec fn opening(object: HeapObject) -> Seq<char> {
    match object {
        HeapObject::Cons(_) => seq!['('],
        HeapObject::Vec(_) => seq!['['],
        HeapObject::ByteFn(_) => seq!['#', '['],
        HeapObject::HashTable(_) => seq!['#', 's', '(', 'h', 'a', 's', 'h', '-', 't', 'a', 'b', 'l', 'e', ' '],
        _ => seq!['#', 's', '('],
    }
}

/// What stands between the values of an object in its printed form.
pub open spec fn between(object: HeapObject) -> Seq<char> {
    match object {
        HeapObject::Cons(_) => seq![' ', '.', ' '],
        _ => seq![' '],
    }
}

/// What closes the printed form of an object that holds values.
pub open spec fn closing(object: HeapObject) -> Seq<char> {
    match object {
        HeapObject::Cons(_) => seq![')'],
        HeapObject::Vec(_) => seq![']'],
        HeapObject::ByteFn(_) => seq![']'],
        _ => seq![')'],
    }
}

impl Heap {
    /// The printed form of a value, with objects nested deeper than `level`
    /// left out.
    pub open spec fn shown(self, word: u64, level: nat) -> Seq<Atom>
        decreases level, 0nat, 0nat,
    {
        match word_tag(word) {
            Tag::Int => text(decimal(word_payload(word) as int)),
            Tag::SubrFn => text(seq!['#', '<', 's', 'u', 'b', 'r', ' '] + nat_digits(
                word_addr(word) as nat,
            ) + seq!['>']),
            _ => match self.referent(word) {
                HeapObject::Float(float) => seq![Atom::Float(float.bits)],
                HeapObject::String(string) => text(seq!['"'] + quoted_from(string@, 0) + seq!['"']),
                HeapObject::Symbol(symbol) => text(symbol.name@),
                object => if level == 0 {
                    text(seq!['.', '.', '.'])
                } else {
                    text(opening(object)) + self.shown_from(
                        object.children(),
                        0,
                        (level - 1) as nat,
                        between(object),
                    ) + text(closing(object))
                },
            },
        }
    }

    /// The printed forms of the values of a sequence from `from` on, with
    /// `gap` between one and the next.
    pub open spec fn shown_from(
        self,
        values: Seq<GcObj>,
        from: int,
        level: nat,
        gap: Seq<char>,
    ) -> Seq<Atom>
        decreases level, 1nat, values.len() - from,
    {
        if from < 0 || from >= values.len() {
            Seq::empty()
        } else {
            let lead = if from > 0 {
                text(gap)
            } else {
                Seq::empty()
            };
            lead + self.shown(values[from].word(), level) + self.shown_from(
                values,
                from + 1,
                level,
                gap,
            )
        }
    }
}

/// The pieces of a text with one more character are those of the text with
/// one more piece.
proof fn lemma_text_push(chars: Seq<char>, c: char)
    ensures
        text(chars.push(c)) == text(chars).push(Atom::Char(c)),
        text(Seq::<char>::empty()) == Seq::<Atom>::empty(),
{
    assert(chars.push(c).drop_last() =~= chars);
}

/// Appends the pieces of a text.
fn push_text(out: &mut Vec<Atom>, chars: &Vec<char>)
    ensures
        final(out)@ == old(out)@ + text(chars@),
{
    let mut i: usize = 0;
    proof {
        lemma_text_push(Seq::empty(), ' ');
        assert(chars@.subrange(0, 0) =~= Seq::<char>::empty());
        assert(out@ =~= old(out)@ + text(chars@.subrange(0, 0)));
    }
    while i < chars.len()
        invariant
            i <= chars@.len(),
            out@ == old(out)@ + text(chars@.subrange(0, i as int)),
        decreases chars@.len() - i,
    {
        out.push(Atom::Char(chars[i]));
        proof {
            let shorter = chars@.subrange(0, i as int);
            let longer = chars@.subrange(0, i + 1);
            lemma_text_push(shorter, chars@[i as int]);
            assert(longer =~= shorter.push(chars@[i as int]));
            assert(out@ =~= old(out)@ + text(longer));
        }
        i += 1;
    }
    proof {
        assert(chars@.subrange(0, chars@.len() as int) =~= chars@);
    }
}

/// Appends the decimal digits of a number.
fn push_nat(chars: &mut Vec<char>, n: u64)
    ensures
        final(chars)@ == old(chars)@ + nat_digits(n as nat),
    decreases n,
{
    if n >= 10 {
        push_nat(chars, n / 10);
    }
    let digit = (n % 10) as u8;
    chars.push((digit + 48) as char);
    proof {
        assert(((n % 10) as int + '0' as u32) as char == (digit + 48) as char);
        assert(chars@ =~= old(chars)@ + nat_digits(n as nat));
    }
}

/// The decimal form of an integer.
fn decimal_chars(n: i64) -> (chars: Vec<char>)
    ensures
        chars@ == decimal(n as int),
{
    let mut chars: Vec<char> = Vec::new();
    if n < 0 {
        chars.push('-');
        let magnitude: u64 = ((-(n + 1)) as u64) + 1;
        push_nat(&mut chars, magnitude);
    } else {
        push_nat(&mut chars, n as u64);
    }
    proof {
        assert(chars@ =~= decimal(n as int));
    }
    chars
}

/// The bytes of a string between double quotes.
fn quoted_chars(bytes: &Vec<u8>) -> (chars: Vec<char>)
    ensures
        chars@ == seq!['"'] + quoted_from(bytes@, 0) + seq!['"'],
{
    let mut chars: Vec<char> = Vec::new();
    chars.push('"');
    let mut i: usize = 0;
    while i < bytes.len()
        invariant
            i <= bytes@.len(),
            chars@ + quoted_from(bytes@, i as int) == seq!['"'] + quoted_from(bytes@, 0),
        decreases bytes@.len() - i,
    {
        let ghost before = chars@;
        let byte = bytes[i];
        if byte == 0x5c || byte == 0x22 {
            chars.push('\\');
        }
        chars.push(byte as char);
        proof {
            assert(chars@ =~= before + quoted_byte(byte));
            assert(chars@ + quoted_from(bytes@, i + 1) =~= before + quoted_from(bytes@, i as int));
        }
        i += 1;
    }
    proof {
        assert(chars@ =~= seq!['"'] + quoted_from(bytes@, 0));
    }
    chars.push('"');
    chars
}

/// The characters of a text.
fn chars_of(name: &str) -> (chars: Vec<char>)
    ensures
        chars@ == name@,
{
    let mut chars: Vec<char> = Vec::new();
    let len = name.unicode_len();
    let mut i: usize = 0;
    while i < len
        invariant
            len == name@.len(),
            i <= len,
            chars@ == name@.subrange(0, i as int),
        decreases len - i,
    {
        chars.push(name.get_char(i));
        proof {
            assert(chars@ =~= name@.subrange(0, i + 1));
        }
        i += 1;
    }
    proof {
        assert(name@.subrange(0, len as int) =~= name@);
    }
    chars
}

/// What opens, separates and closes the printed form of an object.
fn brackets(object: &HeapObject) -> (marks: (Vec<char>, Vec<char>, Vec<char>))
    ensures
        marks.0@ == opening(*object),
        marks.1@ == between(*object),
        marks.2@ == closing(*object),
{
    let marks = match object {
        HeapObject::Cons(_) => (vec!['('], vec![' ', '.', ' '], vec![')']),
        HeapObject::Vec(_) => (vec!['['], vec![' '], vec![']']),
        HeapObject::ByteFn(_) => (vec!['#', '['], vec![' '], vec![']']),
        HeapObject::HashTable(_) => (
            vec!['#', 's', '(', 'h', 'a', 's', 'h', '-', 't', 'a', 'b', 'l', 'e', ' '],
            vec![' '],
            vec![')'],
        ),
        _ => (vec!['#', 's', '('], vec![' '], vec![')']),
    };
    proof {
        assert(marks.0@ =~= opening(*object));
        assert(marks.1@ =~= between(*object));
        assert(marks.2@ =~= closing(*object));
    }
    marks
}

impl Gc<Object> {
    /// The printed form of the value, with objects nested deeper than
    /// `level` left out.
    pub fn print<const CONST: bool>(self, block: &Block<CONST>, level: usize) -> (out: Vec<Atom>)
        requires
            block@.wf(),
            block@.contains(self),
        ensures
            out@ == block@.shown(self.word(), level as nat),
        decreases level, 0nat, 0nat,
    {
        let mut out: Vec<Atom> = Vec::new();
        match self.tag() {
            Tag::Int => {
                let chars = decimal_chars(payload_of(self.into_ptr()));
                push_text(&mut out, &chars);
                return out;
            },
            Tag::SubrFn => {
                let mut chars: Vec<char> = vec!['#', '<', 's', 'u', 'b', 'r', ' '];
                push_nat(&mut chars, addr_of_word(self.into_ptr()));
                chars.push('>');
                proof {
                    assert(chars@ =~= seq!['#', '<', 's', 'u', 'b', 'r', ' '] + nat_digits(
                        word_addr(self.word()) as nat,
                    ) + seq!['>']);
                }
                push_text(&mut out, &chars);
                return out;
            },
            _ => {},
        }
        let object = block.get(addr_of_word(self.into_ptr()));
        proof {
            assert(block@.admits(*object));
        }
        match object {
            HeapObject::Float(float) => {
                out.push(Atom::Float(float.bits));
                proof {
                    assert(out@ =~= seq![Atom::Float(float.bits)]);
                }
            },
            HeapObject::String(string) => {
                let chars = quoted_chars(&string.bytes);
                push_text(&mut out, &chars);
            },
            HeapObject::Symbol(symbol) => {
                let chars = chars_of(symbol.name.as_str());
                push_text(&mut out, &chars);
            },
            _ => {
                if level == 0 {
                    let chars: Vec<char> = vec!['.', '.', '.'];
                    proof {
                        assert(chars@ =~= seq!['.', '.', '.']);
                    }
                    push_text(&mut out, &chars);
                } else {
                    let marks = brackets(object);
                    let kids = children_of(object);
                    push_text(&mut out, &marks.0);
                    print_items(&kids, block, level - 1, &marks.1, &mut out);
                    push_text(&mut out, &marks.2);
                }
            },
        }
        out
    }
}

/// Appends the printed forms of the values of a vector, with `gap` between
/// one and the next.
fn print_items<const CONST: bool>(
    values: &Vec<GcObj>,
    block: &Block<CONST>,
    level: usize,
    gap: &Vec<char>,
    out: &mut Vec<Atom>,
)
    requires
        block@.wf(),
        block@.contains_all(values@),
    ensures
        final(out)@ == old(out)@ + block@.shown_from(values@, 0, level as nat, gap@),
    decreases level, 1nat, values@.len(),
{
    let mut i: usize = 0;
    while i < values.len()
        invariant
            i <= values@.len(),
            block@.wf(),
            block@.contains_all(values@),
            out@ + block@.shown_from(values@, i as int, level as nat, gap@) == old(out)@
                + block@.shown_from(values@, 0, level as nat, gap@),
        decreases values@.len() - i,
    {
        let ghost before = out@;
        if i > 0 {
            push_text(out, gap);
        }
        let mut piece = values[i].print(block, level);
        out.append(&mut piece);
        proof {
            let lead = if i > 0 {
                text(gap@)
            } else {
                Seq::empty()
            };
            assert(out@ =~= before + lead + block@.shown(values@[i as int].word(), level as nat));
            assert(out@ + block@.shown_from(values@, i + 1, level as nat, gap@) =~= before
                + block@.shown_from(values@, i as int, level as nat, gap@));
        }
        i += 1;
    }
    proof {
        assert(out@ + block@.shown_from(values@, i as int, level as nat, gap@) =~= out@);
    }
}

} // verus!
