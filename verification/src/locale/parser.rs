//! Cutting a tag into its subtags.

use crate::locale::grammar::split_tag;
use crate::locale::subtag::char_is_separator;
use crate::locale::views;
use vstd::prelude::*;

verus! {

/// A tag always has at least one subtag.
pub proof fn lemma_split_tag_len(tag: Seq<char>)
    ensures
        split_tag(tag).len() >= 1,
    decreases tag.len(),
{
    if tag.len() > 0 {
        lemma_split_tag_len(tag.drop_last());
    }
}

/// Cuts a tag at its separators.
pub fn split_subtags(tag: &Vec<char>) -> (subtags: Vec<Vec<char>>)
    ensures
        views(subtags@) == split_tag(tag@),
{
    let mut subtags: Vec<Vec<char>> = Vec::new();
    let mut current: Vec<char> = Vec::new();
    let mut i: usize = 0;
    while i < tag.len()
        invariant
            i <= tag.len(),
            views(subtags@).push(current@) == split_tag(tag@.take(i as int)),
        decreases tag.len() - i,
    {
        let c = tag[i];
        let ghost done = views(subtags@);
        let ghost open = current@;
        if char_is_separator(c) {
            subtags.push(current);
            current = Vec::new();
            assert(views(subtags@) =~= done.push(open));
        } else {
            current.push(c);
            assert(views(subtags@) =~= done);
        }
        i = i + 1;
        proof {
            let upto = tag@.take(i as int);
            assert(upto.drop_last() =~= tag@.take(i as int - 1));
            assert(upto.last() == c);
            assert(done.push(open).drop_last() =~= done);
            assert(done.push(open).last() == open);
        }
    }
    assert(tag@.take(tag@.len() as int) == tag@);
    let ghost done = views(subtags@);
    let ghost open = current@;
    subtags.push(current);
    assert(views(subtags@) =~= done.push(open));
    subtags
}

} // verus!
