//! Plain text helpers: strings seen as sequences of characters.

use vstd::prelude::*;
use vstd::string::StringSliceAdditionalSpecFns;
use vstd::utf8::encode_utf8_decode_utf8;

verus! {

/// The characters of each string of a list, in order.
pub open spec fn tags_of(strings: Seq<&str>) -> Seq<Seq<char>> {
    Seq::new(strings.len(), |i: int| strings[i]@)
}

/// The characters of an optional string.
pub open spec fn tag_of(string: Option<&str>) -> Option<Seq<char>> {
    match string {
        Some(s) => Some(s@),
        None => None,
    }
}

/// The characters of a string, collected into a vector.
pub fn to_chars(s: &str) -> (chars: Vec<char>)
    ensures
        chars@ == s@,
{
    let mut chars: Vec<char> = Vec::new();
    for c in it: s.chars()
        invariant
            it.seq() == s@,
            chars@ == it.seq().take(it.index() as int),
    {
        chars.push(c);
    }
    chars
}

/// Whether two strings hold the same characters.
pub fn same_text(a: &str, b: &str) -> (same: bool)
    ensures
        same == (a@ == b@),
{
    let x = a.as_bytes();
    let y = b.as_bytes();
    if x.len() != y.len() {
        return false;
    }
    let mut i: usize = 0;
    while i < x.len()
        invariant
            i <= x.len(),
            x@ == a.spec_bytes(),
            y@ == b.spec_bytes(),
            x@.len() == y@.len(),
            forall|j: int| 0 <= j < i ==> x@[j] == y@[j],
        decreases x.len() - i,
    {
        if x[i] != y[i] {
            return false;
        }
        i = i + 1;
    }
    proof {
        assert(x@ =~= y@);
        encode_utf8_decode_utf8(a@);
        encode_utf8_decode_utf8(b@);
    }
    true
}

/// Whether two vectors hold the same characters.
pub fn same_chars(a: &Vec<char>, b: &Vec<char>) -> (same: bool)
    ensures
        same == (a@ == b@),
{
    if a.len() != b.len() {
        return false;
    }
    let mut i: usize = 0;
    while i < a.len()
        invariant
            i <= a.len(),
            a@.len() == b@.len(),
            forall|j: int| 0 <= j < i ==> a@[j] == b@[j],
        decreases a.len() - i,
    {
        if a[i] != b[i] {
            return false;
        }
        i = i + 1;
    }
    assert(a@ =~= b@);
    true
}

/// A vector that holds the same characters.
pub fn copy_chars(chars: &Vec<char>) -> (copy: Vec<char>)
    ensures
        copy@ == chars@,
{
    let mut copy: Vec<char> = Vec::new();
    let mut i: usize = 0;
    while i < chars.len()
        invariant
            i <= chars.len(),
            copy@ == chars@.take(i as int),
        decreases chars.len() - i,
    {
        copy.push(chars[i]);
        i = i + 1;
        assert(chars@.take(i as int) == chars@.take(i as int - 1).push(chars@[i as int - 1]));
    }
    assert(chars@.take(chars@.len() as int) == chars@);
    copy
}

/// Whether a vector holds the characters of a string.
pub fn spells(chars: &Vec<char>, text: &str) -> (same: bool)
    ensures
        same == (chars@ == text@),
{
    let n: usize = text.unicode_len();
    if n != chars.len() {
        return false;
    }
    let mut i: usize = 0;
    while i < n
        invariant
            i <= n,
            n == chars@.len(),
            n == text@.len(),
            forall|j: int| 0 <= j < i ==> chars@[j] == text@[j],
        decreases n - i,
    {
        if text.get_char(i) != chars[i] {
            return false;
        }
        i = i + 1;
    }
    assert(chars@ =~= text@);
    true
}

/// Appends one character to a string, by `String::push`. Trusted: the string
/// afterwards holds the characters it held before, followed by `c`.
#[verifier::external_body]
pub(crate) fn push_char(s: &mut String, c: char)
    ensures
        final(s)@ == old(s)@.push(c),
{
    s.push(c);
}

/// The string that holds the given characters.
pub fn to_text(chars: &Vec<char>) -> (s: String)
    ensures
        s@ == chars@,
{
    let mut s = String::new();
    let mut i: usize = 0;
    while i < chars.len()
        invariant
            i <= chars.len(),
            s@ == chars@.take(i as int),
        decreases chars.len() - i,
    {
        push_char(&mut s, chars[i]);
        i = i + 1;
        assert(chars@.take(i as int) == chars@.take(i as int - 1).push(chars@[i as int - 1]));
    }
    assert(chars@.take(chars@.len() as int) == chars@);
    s
}

} // verus!
