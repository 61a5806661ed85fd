//! Character-level helpers shared by the scanners: the input as a stack of
//! characters, character classes, and building strings from characters.

use vstd::prelude::*;

verus! {

/// The remaining input, read from a stack whose top is the next character.
pub open spec fn unstack(s: Seq<char>) -> Seq<char> {
    Seq::new(s.len(), |i: int| s[s.len() - 1 - i])
}

pub proof fn lemma_unstack_pop(s: Seq<char>)
    requires
        s.len() > 0,
    ensures
        unstack(s)[0] == s.last(),
        unstack(s.drop_last()) == unstack(s).drop_first(),
{
    assert(unstack(s.drop_last()) =~= unstack(s).drop_first());
}

pub proof fn lemma_unstack_push(s: Seq<char>, c: char)
    ensures
        unstack(s.push(c)) == seq![c] + unstack(s),
{
    assert(unstack(s.push(c)) =~= seq![c] + unstack(s));
}

pub proof fn lemma_push_then_append<T>(a: Seq<T>, x: T, b: Seq<T>)
    ensures
        a + (seq![x] + b) == a.push(x) + b,
{
    assert(a + (seq![x] + b) =~= a.push(x) + b);
}

pub open spec fn is_decimal_digit(c: char) -> bool {
    '0' <= c && c <= '9'
}

pub open spec fn is_ascii_letter(c: char) -> bool {
    ('a' <= c && c <= 'z') || ('A' <= c && c <= 'Z')
}

/// Whether `char::is_alphanumeric` holds of `c` (Unicode's Alphabetic or
/// Numeric property).
pub uninterp spec fn is_alphanumeric(c: char) -> bool;

/// Whether `c` is alphanumeric as `char::is_alphanumeric` decides it: an
/// ASCII character is when it is an ASCII letter or digit; any other
/// character as Unicode's tables say (`is_alphanumeric`).
pub open spec fn alphanumeric(c: char) -> bool {
    if (c as u32) < 128 {
        is_decimal_digit(c) || is_ascii_letter(c)
    } else {
        is_alphanumeric(c)
    }
}

/// Calls `char::is_alphanumeric`. Trusted: the result is `is_alphanumeric(c)`,
/// and on an ASCII character it is exactly whether the character is an ASCII
/// letter or digit (std tests ASCII characters that way); what it says of
/// other characters is left to Unicode's tables and not stated.
#[verifier::external_body]
pub(crate) fn char_is_alphanumeric(c: char) -> (r: bool)
    ensures
        r == is_alphanumeric(c),
        (c as u32) < 128 ==> r == (is_decimal_digit(c) || is_ascii_letter(c)),
{
    c.is_alphanumeric()
}

/// Calls `String::push`. Trusted: it appends `c` to the string.
#[verifier::external_body]
pub(crate) fn push_char(s: &mut String, c: char)
    ensures
        final(s)@ == old(s)@.push(c),
{
    s.push(c);
}

/// The characters of `s`, in order.
pub fn chars_of(s: &str) -> (v: Vec<char>)
    ensures
        v@ == s@,
{
    let mut v: Vec<char> = Vec::new();
    for c in it: s.chars()
        invariant
            v@ == it.seq().take(it.index() as int),
    {
        v.push(c);
    }
    v
}

/// A string made of the characters of `v`.
pub fn string_of(v: &Vec<char>) -> (s: String)
    ensures
        s@ == v@,
{
    let mut s = String::new();
    let mut i: usize = 0;
    while i < v.len()
        invariant
            i <= v.len(),
            s@ == v@.take(i as int),
        decreases v.len() - i,
    {
        push_char(&mut s, v[i]);
        assert(v@.take(i + 1) =~= v@.take(i as int).push(v@[i as int]));
        i = i + 1;
    }
    assert(v@.take(v.len() as int) =~= v@);
    s
}

/// The input characters of `s` as a stack: the first character on top.
pub fn stack_of(s: &str) -> (stack: Vec<char>)
    ensures
        unstack(stack@) == s@,
{
    let mut v = chars_of(s);
    let ghost all = v@;
    let mut stack: Vec<char> = Vec::new();
    while v.len() > 0
        invariant
            all == v@ + unstack(stack@),
        decreases v.len(),
    {
        let ghost before = v@;
        let c = v.pop().unwrap();
        proof {
            lemma_unstack_push(stack@, c);
            assert(before == v@.push(c));
            assert(all =~= v@ + (seq![c] + unstack(stack@)));
        }
        stack.push(c);
    }
    assert(all =~= unstack(stack@));
    stack
}

/// Whether `v` holds exactly the characters of `word`.
pub fn same_chars(v: &Vec<char>, word: &[char]) -> (b: bool)
    ensures
        b == (v@ == word@),
{
    if v.len() != word.len() {
        return false;
    }
    let mut i: usize = 0;
    while i < v.len()
        invariant
            v.len() == word@.len(),
            i <= v.len(),
            forall|j: int| 0 <= j < i ==> v@[j] == word@[j],
        decreases v.len() - i,
    {
        if v[i] != word[i] {
            return false;
        }
        i = i + 1;
    }
    assert(v@ =~= word@);
    true
}

} // verus!
