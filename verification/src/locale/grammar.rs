//! The grammar of locale tags, as a function from characters to subtags.
//!
//! A tag is a list of subtags separated by `-` or `_`:
//!
//! ```text
//! tag = language [sep script] [sep region] *(sep variant)
//! ```
//!
//! The first subtag is the language: two or three letters, or five to eight.
//! A second subtag of four letters is the script. The next subtag, if it is two
//! letters or three digits, is the region. Every subtag after that is a variant:
//! three to eight letters and digits, in the shape of neither a script nor a
//! region, so that a tag can be read in one way only. Extensions and
//! private-use subtags are not part of this grammar.
//!
//! Letter case is not significant: each subtag is read into its canonical
//! spelling, the language and the variants in lower case, the script in title
//! case, the region in upper case.

use crate::locale::subtag::{
    language_shaped, lowercase, region_shaped, script_shaped, titlecase, uppercase,
    variant_shaped, is_separator,
};
use crate::locale::{LocaleError, LocaleView};
use vstd::prelude::*;

verus! {

/// The subtags of a tag: the runs of characters between separators. A tag of
/// `n` separators has `n + 1` subtags, some of which may be empty.
pub open spec fn split_tag(tag: Seq<char>) -> Seq<Seq<char>>
    decreases tag.len(),
{
    if tag.len() == 0 {
        seq![Seq::empty()]
    } else {
        let before = split_tag(tag.drop_last());
        if is_separator(tag.last()) {
            before.push(Seq::empty())
        } else {
            before.drop_last().push(before.last().push(tag.last()))
        }
    }
}

/// Whether every subtag from position `from` on has the shape of a variant.
pub open spec fn all_variants(subtags: Seq<Seq<char>>, from: int) -> bool {
    forall|i: int| from <= i < subtags.len() ==> variant_shaped(#[trigger] subtags[i])
}

/// The variants that start at position `from`, in canonical spelling.
pub open spec fn read_variants(subtags: Seq<Seq<char>>, from: int) -> Seq<Seq<char>> {
    Seq::new((subtags.len() - from) as nat, |i: int| lowercase(subtags[from + i]))
}

/// Whether the subtag after the language is a script.
pub open spec fn has_script(subtags: Seq<Seq<char>>) -> bool {
    subtags.len() > 1 && script_shaped(subtags[1])
}

/// Where the region stands, if there is one.
pub open spec fn region_position(subtags: Seq<Seq<char>>) -> int {
    if has_script(subtags) {
        2
    } else {
        1
    }
}

/// Whether the subtag at the region's position is a region.
pub open spec fn has_region(subtags: Seq<Seq<char>>) -> bool {
    subtags.len() > region_position(subtags) && region_shaped(subtags[region_position(subtags)])
}

/// Where the variants start.
pub open spec fn variants_position(subtags: Seq<Seq<char>>) -> int {
    if has_region(subtags) {
        region_position(subtags) + 1
    } else {
        region_position(subtags)
    }
}

/// Reads a list of subtags by position and shape.
pub open spec fn read_subtags(subtags: Seq<Seq<char>>) -> Result<LocaleView, LocaleError> {
    if subtags.len() == 0 || !language_shaped(subtags[0]) {
        Err(LocaleError::InvalidLanguage)
    } else if !all_variants(subtags, variants_position(subtags)) {
        Err(LocaleError::InvalidSubtag)
    } else {
        Ok(
            LocaleView {
                language: lowercase(subtags[0]),
                script: if has_script(subtags) {
                    titlecase(subtags[1])
                } else {
                    Seq::empty()
                },
                region: if has_region(subtags) {
                    uppercase(subtags[region_position(subtags)])
                } else {
                    Seq::empty()
                },
                variants: read_variants(subtags, variants_position(subtags)),
            },
        )
    }
}

/// What a tag denotes, or why it denotes nothing.
pub open spec fn parse_tag(tag: Seq<char>) -> Result<LocaleView, LocaleError> {
    read_subtags(split_tag(tag))
}

/// Whether a tag is well-formed.
pub open spec fn is_tag(tag: Seq<char>) -> bool {
    parse_tag(tag) is Ok
}

} // verus!
