//! Character-level helpers over text: the whitespace predicate and the
//! conversions between `String` and sequences of characters.

use vstd::prelude::*;
use vstd::std_specs::iter::IteratorSpec;

verus! {

broadcast use vstd::string::group_string_axioms;

/// Characters with the Unicode `White_Space` property.
pub open spec fn is_white(c: char) -> bool {
    ('\t' <= c && c <= '\r') || c == ' ' || c == '\u{85}' || c == '\u{A0}' || c == '\u{1680}'
        || ('\u{2000}' <= c && c <= '\u{200A}') || c == '\u{2028}' || c == '\u{2029}'
        || c == '\u{202F}' || c == '\u{205F}' || c == '\u{3000}'
}

/// Whether `c` is a whitespace character in the sense of Unicode `White_Space`.
pub fn is_white_space(c: char) -> (r: bool)
    ensures
        r == is_white(c),
{
    ('\t' <= c && c <= '\r') || c == ' ' || c == '\u{85}' || c == '\u{A0}' || c == '\u{1680}'
        || ('\u{2000}' <= c && c <= '\u{200A}') || c == '\u{2028}' || c == '\u{2029}'
        || c == '\u{202F}' || c == '\u{205F}' || c == '\u{3000}'
}

/// The characters of `s`, in order.
pub fn char_vec(s: &str) -> (r: Vec<char>)
    ensures
        r@ == s@,
{
    let mut it = s.chars();
    let mut r: Vec<char> = Vec::new();
    loop
        invariant
            it.remaining() == s@.subrange(r@.len() as int, s@.len() as int),
            r@ == s@.subrange(0, r@.len() as int),
            r@.len() <= s@.len(),
        ensures
            r@ == s@,
        decreases s@.len() - r@.len(),
    {
        match it.next() {
            Some(c) => {
                r.push(c);
            },
            None => {
                assert(s@.subrange(r@.len() as int, s@.len() as int).len() == 0);
                assert(r@ =~= s@);
                break ;
            },
        }
    }
    r
}

/// Relies on `String::push`: appends the character at the end of the string.
#[verifier::external_body]
fn push_char(s: &mut String, c: char)
    ensures
        final(s)@ == old(s)@.push(c),
{
    s.push(c)
}

/// The characters `cs[from..to]` as a string.
pub fn string_of(cs: &Vec<char>, from: usize, to: usize) -> (r: String)
    requires
        from <= to <= cs@.len(),
    ensures
        r@ == cs@.subrange(from as int, to as int),
{
    let mut r = String::new();
    let mut i: usize = from;
    while i < to
        invariant
            from <= i <= to <= cs@.len(),
            r@ == cs@.subrange(from as int, i as int),
        decreases to - i,
    {
        push_char(&mut r, cs[i]);
        assert(r@ =~= cs@.subrange(from as int, i + 1));
        i = i + 1;
    }
    r
}

/// The characters `cs[from..to]` as a new vector.
pub fn vec_of(cs: &Vec<char>, from: usize, to: usize) -> (r: Vec<char>)
    requires
        from <= to <= cs@.len(),
    ensures
        r@ == cs@.subrange(from as int, to as int),
{
    let mut r: Vec<char> = Vec::new();
    let mut i: usize = from;
    while i < to
        invariant
            from <= i <= to <= cs@.len(),
            r@ == cs@.subrange(from as int, i as int),
        decreases to - i,
    {
        r.push(cs[i]);
        assert(r@ =~= cs@.subrange(from as int, i + 1));
        i = i + 1;
    }
    r
}

} // verus!
