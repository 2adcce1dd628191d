//! Character classes and shapes of the subtags that make up a locale tag.
//!
//! A subtag is a run of ASCII letters and digits. Its role in a tag follows from
//! its position and its shape; its canonical spelling follows from its role.

use vstd::prelude::*;

verus! {

/// An ASCII letter in upper case.
pub open spec fn is_upper(c: char) -> bool {
    'A' <= c && c <= 'Z'
}

/// An ASCII letter in lower case.
pub open spec fn is_lower(c: char) -> bool {
    'a' <= c && c <= 'z'
}

/// An ASCII letter.
pub open spec fn is_alpha(c: char) -> bool {
    is_upper(c) || is_lower(c)
}

/// An ASCII digit.
pub open spec fn is_digit(c: char) -> bool {
    '0' <= c && c <= '9'
}

/// An ASCII letter or digit.
pub open spec fn is_alphanumeric(c: char) -> bool {
    is_alpha(c) || is_digit(c)
}

/// The characters that separate the subtags of a tag.
pub open spec fn is_separator(c: char) -> bool {
    c == '-' || c == '_'
}

/// The lower-case form of an ASCII letter; any other character is left as it is.
pub open spec fn lower(c: char) -> char {
    if is_upper(c) {
        ((c as u8 + 32) as u8) as char
    } else {
        c
    }
}

/// The upper-case form of an ASCII letter; any other character is left as it is.
pub open spec fn upper(c: char) -> char {
    if is_lower(c) {
        ((c as u8 - 32) as u8) as char
    } else {
        c
    }
}

/// Whether a character is an ASCII letter.
pub fn char_is_alpha(c: char) -> (b: bool)
    ensures
        b == is_alpha(c),
{
    ('A' <= c && c <= 'Z') || ('a' <= c && c <= 'z')
}

/// Whether a character is an ASCII digit.
pub fn char_is_digit(c: char) -> (b: bool)
    ensures
        b == is_digit(c),
{
    '0' <= c && c <= '9'
}

/// Whether a character separates subtags.
pub fn char_is_separator(c: char) -> (b: bool)
    ensures
        b == is_separator(c),
{
    c == '-' || c == '_'
}

/// The lower-case form of a character.
pub fn to_lower(c: char) -> (r: char)
    ensures
        r == lower(c),
{
    if 'A' <= c && c <= 'Z' {
        let b: u8 = c as u8;
        (b + 32) as char
    } else {
        c
    }
}

/// The upper-case form of a character.
pub fn to_upper(c: char) -> (r: char)
    ensures
        r == upper(c),
{
    if 'a' <= c && c <= 'z' {
        let b: u8 = c as u8;
        (b - 32) as char
    } else {
        c
    }
}

/// Letters only.
pub open spec fn all_alpha(s: Seq<char>) -> bool {
    forall|i: int| 0 <= i < s.len() ==> is_alpha(#[trigger] s[i])
}

/// Digits only.
pub open spec fn all_digit(s: Seq<char>) -> bool {
    forall|i: int| 0 <= i < s.len() ==> is_digit(#[trigger] s[i])
}

/// Letters and digits only.
pub open spec fn all_alphanumeric(s: Seq<char>) -> bool {
    forall|i: int| 0 <= i < s.len() ==> is_alphanumeric(#[trigger] s[i])
}

/// A language subtag: two or three letters, or five to eight.
pub open spec fn language_shaped(s: Seq<char>) -> bool {
    all_alpha(s) && (2 <= s.len() <= 3 || 5 <= s.len() <= 8)
}

/// A script subtag: four letters.
pub open spec fn script_shaped(s: Seq<char>) -> bool {
    all_alpha(s) && s.len() == 4
}

/// A region subtag: two letters or three digits.
pub open spec fn region_shaped(s: Seq<char>) -> bool {
    (s.len() == 2 && all_alpha(s)) || (s.len() == 3 && all_digit(s))
}

/// A variant subtag: three to eight letters and digits that have the shape of
/// neither a script nor a region.
pub open spec fn variant_shaped(s: Seq<char>) -> bool {
    all_alphanumeric(s) && 3 <= s.len() <= 8 && !script_shaped(s) && !region_shaped(s)
}

/// Every letter in lower case.
pub open spec fn lowercase(s: Seq<char>) -> Seq<char> {
    Seq::new(s.len(), |i: int| lower(s[i]))
}

/// Every letter in upper case.
pub open spec fn uppercase(s: Seq<char>) -> Seq<char> {
    Seq::new(s.len(), |i: int| upper(s[i]))
}

/// The first letter in upper case, the others in lower case.
pub open spec fn titlecase(s: Seq<char>) -> Seq<char> {
    Seq::new(
        s.len(),
        |i: int|
            if i == 0 {
                upper(s[i])
            } else {
                lower(s[i])
            },
    )
}

/// A language subtag in canonical spelling: lower case.
pub open spec fn canonical_language(s: Seq<char>) -> bool {
    language_shaped(s) && lowercase(s) == s
}

/// A script subtag in canonical spelling: title case.
pub open spec fn canonical_script(s: Seq<char>) -> bool {
    script_shaped(s) && titlecase(s) == s
}

/// A region subtag in canonical spelling: upper case.
pub open spec fn canonical_region(s: Seq<char>) -> bool {
    region_shaped(s) && uppercase(s) == s
}

/// A variant subtag in canonical spelling: lower case.
pub open spec fn canonical_variant(s: Seq<char>) -> bool {
    variant_shaped(s) && lowercase(s) == s
}

/// Changing the case of a letter gives a letter, leaves a digit alone, and is
/// settled after one step.
pub proof fn lemma_case_of_char(c: char)
    ensures
        is_alpha(c) ==> is_lower(lower(c)) && is_upper(upper(c)),
        is_digit(c) ==> lower(c) == c && upper(c) == c,
        is_alpha(lower(c)) == is_alpha(c),
        is_digit(lower(c)) == is_digit(c),
        lower(lower(c)) == lower(c),
        upper(upper(c)) == upper(c),
        upper(lower(c)) == upper(c),
        lower(upper(c)) == lower(c),
{
}

/// The canonical spelling of a subtag has the shape of the subtag and is itself
/// canonical.
pub proof fn lemma_case_of_subtag(s: Seq<char>)
    ensures
        language_shaped(s) ==> canonical_language(lowercase(s)),
        script_shaped(s) ==> canonical_script(titlecase(s)),
        region_shaped(s) ==> canonical_region(uppercase(s)),
        variant_shaped(s) ==> canonical_variant(lowercase(s)),
{
    assert forall|i: int| 0 <= i < s.len() implies {
        &&& (is_alpha(s[i]) ==> is_lower(lower(s[i])) && is_upper(upper(s[i])))
        &&& (is_digit(s[i]) ==> lower(s[i]) == s[i] && upper(s[i]) == s[i])
        &&& is_alpha(lower(s[i])) == is_alpha(s[i])
        &&& is_digit(lower(s[i])) == is_digit(s[i])
        &&& lower(lower(s[i])) == lower(s[i])
        &&& upper(upper(s[i])) == upper(s[i])
    } by {
        lemma_case_of_char(s[i]);
    }
    assert(lowercase(lowercase(s)) =~= lowercase(s));
    assert(uppercase(uppercase(s)) =~= uppercase(s));
    assert(titlecase(titlecase(s)) =~= titlecase(s));
    if variant_shaped(s) {
        let low = lowercase(s);
        if script_shaped(low) {
            assert forall|i: int| 0 <= i < s.len() implies is_alpha(#[trigger] s[i]) by {
                assert(is_alpha(low[i]));
            }
        }
        if region_shaped(low) {
            if low.len() == 2 {
                assert(false);
            } else {
                assert forall|i: int| 0 <= i < s.len() implies is_digit(#[trigger] s[i]) by {
                    assert(is_digit(low[i]));
                }
            }
        }
    }
}

/// Whether a subtag holds letters only.
pub fn is_all_alpha(s: &Vec<char>) -> (b: bool)
    ensures
        b == all_alpha(s@),
{
    let mut i: usize = 0;
    while i < s.len()
        invariant
            i <= s.len(),
            forall|j: int| 0 <= j < i ==> is_alpha(#[trigger] s@[j]),
        decreases s.len() - i,
    {
        if !char_is_alpha(s[i]) {
            return false;
        }
        i = i + 1;
    }
    true
}

/// Whether a subtag holds digits only.
pub fn is_all_digit(s: &Vec<char>) -> (b: bool)
    ensures
        b == all_digit(s@),
{
    let mut i: usize = 0;
    while i < s.len()
        invariant
            i <= s.len(),
            forall|j: int| 0 <= j < i ==> is_digit(#[trigger] s@[j]),
        decreases s.len() - i,
    {
        if !char_is_digit(s[i]) {
            return false;
        }
        i = i + 1;
    }
    true
}

/// Whether a subtag holds letters and digits only.
pub fn is_all_alphanumeric(s: &Vec<char>) -> (b: bool)
    ensures
        b == all_alphanumeric(s@),
{
    let mut i: usize = 0;
    while i < s.len()
        invariant
            i <= s.len(),
            forall|j: int| 0 <= j < i ==> is_alphanumeric(#[trigger] s@[j]),
        decreases s.len() - i,
    {
        if !char_is_alpha(s[i]) && !char_is_digit(s[i]) {
            return false;
        }
        i = i + 1;
    }
    true
}

/// Whether a subtag has the shape of a language.
pub fn is_language(s: &Vec<char>) -> (b: bool)
    ensures
        b == language_shaped(s@),
{
    let n: usize = s.len();
    ((2 <= n && n <= 3) || (5 <= n && n <= 8)) && is_all_alpha(s)
}

/// Whether a subtag has the shape of a script.
pub fn is_script(s: &Vec<char>) -> (b: bool)
    ensures
        b == script_shaped(s@),
{
    s.len() == 4 && is_all_alpha(s)
}

/// Whether a subtag has the shape of a region.
pub fn is_region(s: &Vec<char>) -> (b: bool)
    ensures
        b == region_shaped(s@),
{
    (s.len() == 2 && is_all_alpha(s)) || (s.len() == 3 && is_all_digit(s))
}

/// Whether a subtag has the shape of a variant.
pub fn is_variant(s: &Vec<char>) -> (b: bool)
    ensures
        b == variant_shaped(s@),
{
    let n: usize = s.len();
    3 <= n && n <= 8 && is_all_alphanumeric(s) && !is_script(s) && !is_region(s)
}

/// A subtag with every letter in lower case.
pub fn to_lowercase(s: &Vec<char>) -> (r: Vec<char>)
    ensures
        r@ == lowercase(s@),
{
    let mut r: Vec<char> = Vec::new();
    let mut i: usize = 0;
    while i < s.len()
        invariant
            i <= s.len(),
            r@.len() == i,
            forall|j: int| 0 <= j < i ==> r@[j] == lower(s@[j]),
        decreases s.len() - i,
    {
        r.push(to_lower(s[i]));
        i = i + 1;
    }
    r
}

/// A subtag with every letter in upper case.
pub fn to_uppercase(s: &Vec<char>) -> (r: Vec<char>)
    ensures
        r@ == uppercase(s@),
{
    let mut r: Vec<char> = Vec::new();
    let mut i: usize = 0;
    while i < s.len()
        invariant
            i <= s.len(),
            r@.len() == i,
            forall|j: int| 0 <= j < i ==> r@[j] == upper(s@[j]),
        decreases s.len() - i,
    {
        r.push(to_upper(s[i]));
        i = i + 1;
    }
    r
}

/// A subtag with its first letter in upper case and the others in lower case.
pub fn to_titlecase(s: &Vec<char>) -> (r: Vec<char>)
    ensures
        r@ == titlecase(s@),
{
    let mut r: Vec<char> = Vec::new();
    let mut i: usize = 0;
    while i < s.len()
        invariant
            i <= s.len(),
            r@.len() == i,
            forall|j: int|
                0 <= j < i ==> r@[j] == if j == 0 {
                    upper(s@[j])
                } else {
                    lower(s@[j])
                },
        decreases s.len() - i,
    {
        if i == 0 {
            r.push(to_upper(s[i]));
        } else {
            r.push(to_lower(s[i]));
        }
        i = i + 1;
    }
    r
}

} // verus!
