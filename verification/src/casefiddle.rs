//! String and character case conversion.

use vstd::prelude::*;

verus! {

/// The title-case form of a text, as the `titlecase` crate gives it.
pub uninterp spec fn titlecase_of(text: Seq<char>) -> Seq<char>;

/// The upper-case form of a character, as `char::to_uppercase` gives it.
pub uninterp spec fn uppercase_of(c: char) -> Seq<char>;

/// `titlecase::titlecase`: the result is a function of the text alone.
#[verifier::external_body]
fn titlecase_str(text: &str) -> (out: String)
    ensures
        out@ == titlecase_of(text@),
{
    titlecase::titlecase(text)
}

/// `char::to_uppercase`: the characters that the iterator yields, in order.
#[verifier::external_body]
fn to_uppercase(c: char) -> (out: Vec<char>)
    ensures
        out@ == uppercase_of(c),
{
    c.to_uppercase().collect()
}

/// `String::push`: appends one character.
pub assume_specification[ std::string::String::push ](text: &mut std::string::String, c: char)
    ensures
        final(text)@ == old(text)@.push(c),
;

/// Whether a character lies in the Garay block, which has no upper case yet.
pub open spec fn in_garay_block(c: char) -> bool {
    '\u{10D40}' <= c <= '\u{10D8F}'
}

/// The upper-case form of a character: itself in the Garay block.
pub open spec fn upcase_char(c: char) -> Seq<char> {
    if in_garay_block(c) {
        seq![c]
    } else {
        uppercase_of(c)
    }
}

/// A character as it stands inside a quoted string: a backslash before each
/// backslash and each double quote.
pub open spec fn escape_char(c: char) -> Seq<char> {
    if c == '\\' || c == '"' {
        seq!['\\', c]
    } else {
        seq![c]
    }
}

/// The forms of all characters of a text, one after the other.
pub open spec fn expand(text: Seq<char>, form: spec_fn(char) -> Seq<char>) -> Seq<char>
    decreases text.len(),
{
    if text.len() == 0 {
        Seq::empty()
    } else {
        expand(text.drop_last(), form) + form(text.last())
    }
}

/// The upper-case form of a text, escaped for a quoted string.
pub open spec fn upcase_of(text: Seq<char>) -> Seq<char> {
    expand(expand(text, |c: char| upcase_char(c)), |c: char| escape_char(c))
}

/// Appending one more character to a text appends its form to the forms.
pub proof fn lemma_expand_push(text: Seq<char>, c: char, form: spec_fn(char) -> Seq<char>)
    ensures
        expand(text.push(c), form) == expand(text, form) + form(c),
{
    assert(text.push(c).drop_last() =~= text);
}

/// The forms of a text followed by another are the forms of the one
/// followed by the forms of the other.
pub proof fn lemma_expand_concat(a: Seq<char>, b: Seq<char>, form: spec_fn(char) -> Seq<char>)
    ensures
        expand(a + b, form) == expand(a, form) + expand(b, form),
    decreases b.len(),
{
    if b.len() == 0 {
        assert(a + b =~= a);
        assert(expand(a, form) + expand(b, form) =~= expand(a, form));
    } else {
        lemma_expand_concat(a, b.drop_last(), form);
        assert((a + b).drop_last() =~= a + b.drop_last());
        assert(expand(a + b, form) =~= expand(a, form) + expand(b, form));
    }
}

/// Appends to `out` the escaped form of each character of `chars`.
fn push_escaped(out: &mut String, chars: &Vec<char>)
    ensures
        final(out)@ == old(out)@ + expand(chars@, |c: char| escape_char(c)),
{
    let ghost form = |c: char| escape_char(c);
    let mut i: usize = 0;
    while i < chars.len()
        invariant
            i <= chars@.len(),
            form == (|c: char| escape_char(c)),
            out@ == old(out)@ + expand(chars@.subrange(0, i as int), form),
        decreases chars@.len() - i,
    {
        let c = chars[i];
        if c == '\\' || c == '"' {
            out.push('\\');
        }
        out.push(c);
        proof {
            lemma_expand_push(chars@.subrange(0, i as int), c, form);
            assert(chars@.subrange(0, i + 1) =~= chars@.subrange(0, i as int).push(c));
            assert(out@ =~= old(out)@ + expand(chars@.subrange(0, i + 1), form));
        }
        i += 1;
    }
    proof {
        assert(chars@.subrange(0, chars@.len() as int) =~= chars@);
    }
}

/// The upper-case form of the text, escaped for a quoted string. Characters
/// of the Garay block stay as they are.
pub fn upcase(s: &str) -> (out: String)
    ensures
        out@ == upcase_of(s@),
{
    let ghost upper = |c: char| upcase_char(c);
    let ghost escape = |c: char| escape_char(c);
    let mut result = String::new();
    let len = s.unicode_len();
    let mut i: usize = 0;
    while i < len
        invariant
            len == s@.len(),
            i <= len,
            upper == (|c: char| upcase_char(c)),
            escape == (|c: char| escape_char(c)),
            result@ == expand(expand(s@.subrange(0, i as int), upper), escape),
        decreases len - i,
    {
        let c = s.get_char(i);
        let mut forms: Vec<char> = Vec::new();
        if '\u{10D40}' <= c && c <= '\u{10D8F}' {
            forms.push(c);
            assert(forms@ =~= upcase_char(c));
        } else {
            forms = to_uppercase(c);
        }
        push_escaped(&mut result, &forms);
        proof {
            let before = s@.subrange(0, i as int);
            lemma_expand_push(before, c, upper);
            lemma_expand_concat(expand(before, upper), upcase_char(c), escape);
            assert(s@.subrange(0, i + 1) =~= before.push(c));
        }
        i += 1;
    }
    proof {
        assert(s@.subrange(0, len as int) =~= s@);
    }
    result
}

/// Capitalizes the text as a title.
pub fn capitalize(s: &str) -> (out: String)
    ensures
        out@ == titlecase_of(s@),
{
    titlecase_str(s)
}

} // verus!
