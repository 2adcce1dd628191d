//! The canonical tag of a locale denotes that locale.

use crate::locale::grammar::{
    all_variants, has_region, has_script, parse_tag, read_variants, region_position, split_tag,
    variants_position,
};
use crate::locale::parser::lemma_split_tag_len;
use crate::locale::subtag::{is_alphanumeric, is_separator, lowercase, variant_shaped};
use crate::locale::{join_subtags, present, LocaleError, LocaleView};
use vstd::prelude::*;

verus! {

/// A run of characters that holds no separator.
pub open spec fn unbroken(subtag: Seq<char>) -> bool {
    forall|i: int| 0 <= i < subtag.len() ==> !is_separator(#[trigger] subtag[i])
}

/// Characters without a separator, put after a tag, lengthen its last subtag.
pub proof fn lemma_split_tag_extended(tag: Seq<char>, more: Seq<char>)
    requires
        unbroken(more),
    ensures
        split_tag(tag + more) == split_tag(tag).drop_last().push(split_tag(tag).last() + more),
    decreases more.len(),
{
    let subtags = split_tag(tag);
    lemma_split_tag_len(tag);
    if more.len() == 0 {
        assert(tag + more =~= tag);
        assert(subtags.last() + more =~= subtags.last());
        assert(subtags.drop_last().push(subtags.last()) =~= subtags);
    } else {
        let shorter = more.drop_last();
        assert(unbroken(shorter)) by {
            assert forall|i: int| 0 <= i < shorter.len() implies !is_separator(
                #[trigger] shorter[i],
            ) by {
                assert(shorter[i] == more[i]);
            }
        }
        lemma_split_tag_extended(tag, shorter);
        assert((tag + more).drop_last() =~= tag + shorter);
        assert((tag + more).last() == more.last());
        assert(!is_separator(more[more.len() - 1]));
        assert((subtags.last() + shorter).push(more.last()) =~= subtags.last() + more);
        let before = split_tag(tag + shorter);
        assert(before.drop_last() =~= subtags.drop_last());
    }
}

/// Subtags without separators, joined and cut again, are the same subtags.
pub proof fn lemma_split_of_join(subtags: Seq<Seq<char>>)
    requires
        subtags.len() >= 1,
        forall|i: int| 0 <= i < subtags.len() ==> unbroken(#[trigger] subtags[i]),
    ensures
        split_tag(join_subtags(subtags)) == subtags,
    decreases subtags.len(),
{
    let none = Seq::<char>::empty();
    if subtags.len() == 1 {
        lemma_split_tag_extended(none, subtags[0]);
        assert(none + subtags[0] =~= subtags[0]);
        assert(split_tag(none) =~= seq![none]);
        assert(seq![none].drop_last().push(none + subtags[0]) =~= subtags);
    } else {
        let init = subtags.drop_last();
        let last = subtags.last();
        lemma_split_of_join(init);
        let head = join_subtags(init) + seq!['-'];
        assert(head.drop_last() =~= join_subtags(init));
        assert(head.last() == '-');
        assert(split_tag(head) == init.push(none));
        lemma_split_tag_extended(head, last);
        assert(init.push(none).drop_last() =~= init);
        assert(none + last =~= last);
        assert(init.push(last) =~= subtags);
    }
}

/// Letters and digits hold no separator.
pub proof fn lemma_subtag_unbroken(subtag: Seq<char>)
    requires
        forall|i: int| 0 <= i < subtag.len() ==> is_alphanumeric(#[trigger] subtag[i]),
    ensures
        unbroken(subtag),
{
}

/// The canonical tag of a well-formed locale that has a language denotes that
/// locale: reading what was written gives back what was there.
pub proof fn canonical_tag_denotes_locale(locale: LocaleView)
    requires
        locale.well_formed(),
        locale.language.len() > 0,
    ensures
        parse_tag(locale.canonical()) == Ok::<LocaleView, LocaleError>(locale),
{
    let subtags = locale.subtags();
    let head = present(locale.language) + present(locale.script) + present(locale.region);
    assert(subtags == head + locale.variants);
    assert(subtags[0] == locale.language);
    assert forall|i: int| 0 <= i < subtags.len() implies unbroken(#[trigger] subtags[i]) by {
        if i >= head.len() {
            assert(subtags[i] == locale.variants[i - head.len()]);
        }
        lemma_subtag_unbroken(subtags[i]);
    }
    lemma_split_of_join(subtags);
    if locale.variants.len() > 0 {
        assert(subtags[head.len() as int] == locale.variants[0]);
    }
    assert(has_script(subtags) == (locale.script.len() > 0));
    assert(has_region(subtags) == (locale.region.len() > 0));
    assert(variants_position(subtags) == head.len());
    if locale.script.len() > 0 {
        assert(subtags[1] == locale.script);
    } else {
        assert(locale.script =~= Seq::<char>::empty());
    }
    if locale.region.len() > 0 {
        assert(subtags[region_position(subtags)] == locale.region);
    } else {
        assert(locale.region =~= Seq::<char>::empty());
    }
    assert(all_variants(subtags, head.len() as int)) by {
        assert forall|i: int| head.len() <= i < subtags.len() implies variant_shaped(
            #[trigger] subtags[i],
        ) by {
            assert(subtags[i] == locale.variants[i - head.len()]);
        }
    }
    assert(read_variants(subtags, head.len() as int) =~= locale.variants) by {
        assert forall|i: int| 0 <= i < locale.variants.len() implies lowercase(
            subtags[head.len() + i],
        ) == locale.variants[i] by {
            assert(subtags[head.len() + i] == locale.variants[i]);
        }
    }
}

} // verus!
