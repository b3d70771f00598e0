//! The framing of the differential-testing protocol.
//!
//! An answer is one header line, `;; ELPROP_START:` and a counter, followed
//! by the body and the line `;; ELPROP_END`. Whoever reads the answer hands
//! the header line and the text after it to this module, as characters.

use vstd::prelude::*;

verus! {

/// What is wrong with an answer.
#[derive(Clone, Copy, Debug, PartialEq, Eq, Structural)]
pub enum FrameError {
    /// The header line does not begin with the start tag.
    MissingStart,
    /// What follows the start tag is not a number that fits.
    BadCount,
    /// The counter is not the one that was expected.
    CountMismatch { expected: usize, actual: usize },
    /// The text does not end with the end tag.
    MissingEnd,
}

/// The tag that begins the header line.
pub open spec fn start_tag() -> Seq<char> {
    seq![';', ';', ' ', 'E', 'L', 'P', 'R', 'O', 'P', '_', 'S', 'T', 'A', 'R', 'T', ':']
}

/// The tag that ends an answer.
pub open spec fn end_tag() -> Seq<char> {
    seq!['\n', ';', ';', ' ', 'E', 'L', 'P', 'R', 'O', 'P', '_', 'E', 'N', 'D', '\n']
}

/// Whether a character is white space.
pub open spec fn is_space(c: char) -> bool {
    ||| '\u{9}' <= c <= '\u{D}'
    ||| c == ' '
    ||| c == '\u{85}'
    ||| c == '\u{A0}'
    ||| c == '\u{1680}'
    ||| '\u{2000}' <= c <= '\u{200A}'
    ||| c == '\u{2028}'
    ||| c == '\u{2029}'
    ||| c == '\u{202F}'
    ||| c == '\u{205F}'
    ||| c == '\u{3000}'
}

/// The number of white-space characters that a text begins with.
pub open spec fn leading_spaces(text: Seq<char>) -> nat
    decreases text.len(),
{
    if text.len() > 0 && is_space(text[0]) {
        1 + leading_spaces(text.drop_first())
    } else {
        0
    }
}

/// The number of white-space characters that a text ends with.
pub open spec fn trailing_spaces(text: Seq<char>) -> nat
    decreases text.len(),
{
    if text.len() > 0 && is_space(text.last()) {
        1 + trailing_spaces(text.drop_last())
    } else {
        0
    }
}

/// A text without the white space at its ends.
pub open spec fn trim(text: Seq<char>) -> Seq<char> {
    let from = leading_spaces(text) as int;
    if from == text.len() {
        Seq::empty()
    } else {
        text.subrange(from, text.len() - trailing_spaces(text))
    }
}

/// Whether a character is a decimal digit.
pub open spec fn is_digit(c: char) -> bool {
    '0' <= c <= '9'
}

/// The number that a text of decimal digits stands for.
pub open spec fn digits_value(digits: Seq<char>) -> nat
    decreases digits.len(),
{
    if digits.len() == 0 {
        0
    } else {
        (digits_value(digits.drop_last()) * 10 + (digits.last() as u32 - '0' as u32)) as nat
    }
}

/// The number that a text stands for: decimal digits, at least one, after
/// at most one plus sign; and no more than fits in a `usize`.
pub open spec fn parse_count(text: Seq<char>) -> Option<usize> {
    if text.len() > 0 && text[0] == '+' {
        digits_count(text.drop_first())
    } else {
        digits_count(text)
    }
}

/// The number that a text of decimal digits stands for, where there is at
/// least one digit, nothing but digits, and the number fits in a `usize`.
pub open spec fn digits_count(digits: Seq<char>) -> Option<usize> {
    if digits.len() > 0 && (forall|i: int| 0 <= i < digits.len() ==> is_digit(#[trigger] digits[i]))
        && digits_value(digits) <= usize::MAX {
        Some(digits_value(digits) as usize)
    } else {
        None
    }
}

/// Whether a text ends with the end tag: the answer is complete.
pub open spec fn is_complete(text: Seq<char>) -> bool {
    text.len() >= end_tag().len() && text.subrange(text.len() - end_tag().len(), text.len() as int)
        == end_tag()
}

/// What an answer holds: its body where the answer is well framed under the
/// expected counter, and else what is wrong with it.
pub open spec fn eval_result(master_count: usize, header: Seq<char>, text: Seq<char>) -> Result<
    Seq<char>,
    FrameError,
> {
    if !(header.len() >= start_tag().len() && header.subrange(0, start_tag().len() as int)
        == start_tag()) {
        Err(FrameError::MissingStart)
    } else {
        match parse_count(trim(header.subrange(start_tag().len() as int, header.len() as int))) {
            None => Err(FrameError::BadCount),
            Some(count) => if count != master_count {
                Err(FrameError::CountMismatch { expected: master_count, actual: count })
            } else if !is_complete(text) {
                Err(FrameError::MissingEnd)
            } else {
                Ok(trim(text.subrange(0, text.len() - end_tag().len())))
            },
        }
    }
}

/// The characters of the start tag.
fn start_tag_chars() -> (tag: Vec<char>)
    ensures
        tag@ == start_tag(),
{
    let mut tag: Vec<char> = Vec::new();
    tag.push(';');
    tag.push(';');
    tag.push(' ');
    tag.push('E');
    tag.push('L');
    tag.push('P');
    tag.push('R');
    tag.push('O');
    tag.push('P');
    tag.push('_');
    tag.push('S');
    tag.push('T');
    tag.push('A');
    tag.push('R');
    tag.push('T');
    tag.push(':');
    assert(tag@ =~= start_tag());
    tag
}

/// The characters of the end tag.
fn end_tag_chars() -> (tag: Vec<char>)
    ensures
        tag@ == end_tag(),
{
    let mut tag: Vec<char> = Vec::new();
    tag.push('\n');
    tag.push(';');
    tag.push(';');
    tag.push(' ');
    tag.push('E');
    tag.push('L');
    tag.push('P');
    tag.push('R');
    tag.push('O');
    tag.push('P');
    tag.push('_');
    tag.push('E');
    tag.push('N');
    tag.push('D');
    tag.push('\n');
    assert(tag@ =~= end_tag());
    tag
}

/// Whether `tag` stands in `text` at `at`.
fn stands_at(text: &Vec<char>, at: usize, tag: &Vec<char>) -> (yes: bool)
    requires
        at + tag@.len() <= text@.len(),
    ensures
        yes == (text@.subrange(at as int, at + tag@.len()) == tag@),
{
    let len = text.len();
    let mut i: usize = 0;
    while i < tag.len()
        invariant
            i <= tag@.len(),
            at + tag@.len() <= text@.len(),
            len == text@.len(),
            forall|j: int| 0 <= j < i ==> text@[at + j] == tag@[j],
        decreases tag@.len() - i,
    {
        if text[at + i] != tag[i] {
            proof {
                assert(text@.subrange(at as int, at + tag@.len())[i as int] == text@[at + i]);
            }
            return false;
        }
        i += 1;
    }
    proof {
        assert(text@.subrange(at as int, at + tag@.len()) =~= tag@);
    }
    true
}

/// Whether a character is white space.
pub fn is_whitespace(c: char) -> (yes: bool)
    ensures
        yes == is_space(c),
{
    ('\u{9}' <= c && c <= '\u{D}') || c == ' ' || c == '\u{85}' || c == '\u{A0}' || c
        == '\u{1680}' || ('\u{2000}' <= c && c <= '\u{200A}') || c == '\u{2028}' || c
        == '\u{2029}' || c == '\u{202F}' || c == '\u{205F}' || c == '\u{3000}'
}

/// A text that begins with `count` white-space characters and goes on with
/// another character, or ends there, has that many leading spaces.
proof fn lemma_leading(text: Seq<char>, count: int)
    requires
        0 <= count <= text.len(),
        forall|i: int| 0 <= i < count ==> is_space(#[trigger] text[i]),
        count < text.len() ==> !is_space(text[count]),
    ensures
        leading_spaces(text) == count,
    decreases count,
{
    if count > 0 {
        let rest = text.drop_first();
        assert forall|i: int| 0 <= i < count - 1 implies is_space(#[trigger] rest[i]) by {
            assert(rest[i] == text[i + 1]);
        }
        if count < text.len() {
            assert(rest[count - 1] == text[count]);
        }
        lemma_leading(rest, count - 1);
    }
}

/// A text that ends with `count` white-space characters after another
/// character, or is nothing else, has that many trailing spaces.
proof fn lemma_trailing(text: Seq<char>, count: int)
    requires
        0 <= count <= text.len(),
        forall|i: int| text.len() - count <= i < text.len() ==> is_space(#[trigger] text[i]),
        count < text.len() ==> !is_space(text[text.len() - count - 1]),
    ensures
        trailing_spaces(text) == count,
    decreases count,
{
    if count > 0 {
        let rest = text.drop_last();
        assert forall|i: int| rest.len() - (count - 1) <= i < rest.len() implies is_space(
            #[trigger] rest[i],
        ) by {
            assert(rest[i] == text[i]);
        }
        if count < text.len() {
            assert(rest[rest.len() - (count - 1) - 1] == text[text.len() - count - 1]);
        }
        lemma_trailing(rest, count - 1);
    }
}

/// The bounds of `text[from..to]` without the white space at its ends.
fn trim_bounds(text: &Vec<char>, from: usize, to: usize) -> (bounds: (usize, usize))
    requires
        from <= to <= text@.len(),
    ensures
        from <= bounds.0 <= bounds.1 <= to,
        text@.subrange(bounds.0 as int, bounds.1 as int) == trim(
            text@.subrange(from as int, to as int),
        ),
{
    let ghost part = text@.subrange(from as int, to as int);
    let mut start = from;
    while start < to && is_whitespace(text[start])
        invariant
            from <= start <= to <= text@.len(),
            forall|i: int| from <= i < start ==> is_space(#[trigger] text@[i]),
        decreases to - start,
    {
        start += 1;
    }
    proof {
        assert forall|i: int| 0 <= i < start - from implies is_space(#[trigger] part[i]) by {
            assert(part[i] == text@[from + i]);
        }
        lemma_leading(part, start - from);
    }
    if start == to {
        proof {
            assert(text@.subrange(start as int, start as int) =~= Seq::<char>::empty());
        }
        return (start, start);
    }
    let mut end = to;
    while end > start && is_whitespace(text[end - 1])
        invariant
            start <= end <= to <= text@.len(),
            start < to,
            !is_space(text@[start as int]),
            forall|i: int| end <= i < to ==> is_space(#[trigger] text@[i]),
        decreases end,
    {
        end -= 1;
    }
    proof {
        assert(end > start);
        assert forall|i: int| part.len() - (to - end) <= i < part.len() implies is_space(
            #[trigger] part[i],
        ) by {
            assert(part[i] == text@[from + i]);
        }
        assert(part[part.len() - (to - end) - 1] == text@[end - 1]);
        lemma_trailing(part, to - end);
        assert(text@.subrange(start as int, end as int) =~= part.subrange(
            start - from,
            part.len() - (to - end),
        ));
    }
    (start, end)
}

/// A longer text of digits stands for no smaller a number.
proof fn lemma_digits_grow(digits: Seq<char>, shorter: int)
    requires
        0 <= shorter <= digits.len(),
        forall|i: int| 0 <= i < digits.len() ==> is_digit(#[trigger] digits[i]),
    ensures
        digits_value(digits.subrange(0, shorter)) <= digits_value(digits),
    decreases digits.len() - shorter,
{
    if shorter < digits.len() {
        let all = digits.subrange(0, digits.len() as int);
        assert(all =~= digits);
        let one_less = digits.drop_last();
        if shorter <= one_less.len() {
            assert(one_less.subrange(0, shorter) =~= digits.subrange(0, shorter));
            assert forall|i: int| 0 <= i < one_less.len() implies is_digit(
                #[trigger] one_less[i],
            ) by {
                assert(one_less[i] == digits[i]);
            }
            lemma_digits_grow(one_less, shorter);
            assert(is_digit(digits[digits.len() - 1]));
        }
    } else {
        assert(digits.subrange(0, shorter) =~= digits);
    }
}

/// The number that `text[from..to]` stands for.
fn parse_usize(text: &Vec<char>, from: usize, to: usize) -> (count: Option<usize>)
    requires
        from <= to <= text@.len(),
    ensures
        count == parse_count(text@.subrange(from as int, to as int)),
{
    let ghost part = text@.subrange(from as int, to as int);
    let mut at = from;
    if at < to && text[at] == '+' {
        at += 1;
    }
    let first = at;
    let ghost digits = text@.subrange(first as int, to as int);
    proof {
        if first > from {
            assert(part[0] == '+');
            assert(part.drop_first() =~= digits);
        } else {
            assert(part =~= digits);
            if part.len() > 0 {
                assert(part[0] == text@[from as int]);
            }
        }
    }
    assert(parse_count(part) == digits_count(digits));
    if first == to {
        return None;
    }
    let mut value: usize = 0;
    while at < to
        invariant
            first <= at <= to <= text@.len(),
            first < to,
            part == text@.subrange(from as int, to as int),
            parse_count(part) == digits_count(digits),
            digits == text@.subrange(first as int, to as int),
            forall|i: int| 0 <= i < at - first ==> is_digit(#[trigger] digits[i]),
            value == digits_value(digits.subrange(0, at - first)),
        decreases to - at,
    {
        let c = text[at];
        proof {
            assert(digits[at - first] == c);
        }
        if !('0' <= c && c <= '9') {
            assert(!is_digit(digits[at - first]));
            return None;
        }
        let digit = (c as u32 - '0' as u32) as usize;
        proof {
            let longer = digits.subrange(0, at - first + 1);
            assert(longer.drop_last() =~= digits.subrange(0, at - first));
            assert(longer.last() == c);
            assert(digits_value(longer) == value * 10 + digit);
            if forall|i: int| 0 <= i < digits.len() ==> is_digit(#[trigger] digits[i]) {
                lemma_digits_grow(digits, at - first + 1);
            }
        }
        value = match value.checked_mul(10) {
            Some(tens) => match tens.checked_add(digit) {
                Some(sum) => sum,
                None => {
                    return None;
                },
            },
            None => {
                return None;
            },
        };
        at += 1;
    }
    proof {
        assert(digits.subrange(0, to - first) =~= digits);
    }
    Some(value)
}

/// Whether the text ends with the end tag: all of the answer has been read.
pub fn frame_complete(text: &Vec<char>) -> (yes: bool)
    ensures
        yes == is_complete(text@),
{
    let tag = end_tag_chars();
    if text.len() < tag.len() {
        false
    } else {
        stands_at(text, text.len() - tag.len(), &tag)
    }
}

/// Takes an answer apart: checks the header line against the counter that
/// is expected, and returns the body of the answer without the white space
/// at its ends.
pub fn process_eval_result(master_count: usize, header: &Vec<char>, text: &Vec<char>) -> (out:
    Result<Vec<char>, FrameError>)
    ensures
        out matches Ok(body) ==> eval_result(master_count, header@, text@) == Ok::<
            Seq<char>,
            FrameError,
        >(body@),
        out matches Err(err) ==> eval_result(master_count, header@, text@) == Err::<
            Seq<char>,
            FrameError,
        >(err),
{
    let start = start_tag_chars();
    if header.len() < start.len() || !stands_at(header, 0, &start) {
        return Err(FrameError::MissingStart);
    }
    let (from, to) = trim_bounds(header, start.len(), header.len());
    let count = match parse_usize(header, from, to) {
        Some(count) => count,
        None => {
            return Err(FrameError::BadCount);
        },
    };
    if count != master_count {
        return Err(FrameError::CountMismatch { expected: master_count, actual: count });
    }
    if !frame_complete(text) {
        return Err(FrameError::MissingEnd);
    }
    let tag = end_tag_chars();
    let (first, last) = trim_bounds(text, 0, text.len() - tag.len());
    let mut body: Vec<char> = Vec::new();
    let mut i = first;
    while i < last
        invariant
            first <= i <= last <= text@.len(),
            body@ == text@.subrange(first as int, i as int),
        decreases last - i,
    {
        body.push(text[i]);
        proof {
            assert(body@ =~= text@.subrange(first as int, i + 1));
        }
        i += 1;
    }
    Ok(body)
}

} // verus!
