//! Letter case is not significant in a tag.

use crate::locale::grammar::{
    all_variants, has_region, has_script, parse_tag, read_subtags, read_variants,
    region_position, split_tag, variants_position,
};
use crate::locale::parser::lemma_split_tag_len;
use crate::locale::subtag::{
    all_alpha, all_alphanumeric, all_digit, is_alpha, is_digit, is_separator, language_shaped,
    lower, lowercase, region_shaped, script_shaped, titlecase, upper, uppercase, variant_shaped,
};
use vstd::prelude::*;

verus! {

/// Two runs of characters that differ in letter case at most.
pub open spec fn same_but_for_case(a: Seq<char>, b: Seq<char>) -> bool {
    a.len() == b.len() && forall|i: int| 0 <= i < a.len() ==> lower(#[trigger] a[i]) == lower(b[i])
}

/// Two lists whose entries differ in letter case at most, one by one.
pub open spec fn each_same_but_for_case(a: Seq<Seq<char>>, b: Seq<Seq<char>>) -> bool {
    a.len() == b.len() && forall|i: int|
        0 <= i < a.len() ==> same_but_for_case(#[trigger] a[i], b[i])
}

/// Characters that differ in case at most are of one class, and have one
/// upper-case form.
pub proof fn lemma_chars_same_but_for_case(a: char, b: char)
    requires
        lower(a) == lower(b),
    ensures
        is_separator(a) == is_separator(b),
        is_alpha(a) == is_alpha(b),
        is_digit(a) == is_digit(b),
        upper(a) == upper(b),
{
}

/// Subtags that differ in case at most have one shape and one canonical
/// spelling.
pub proof fn lemma_subtag_same_but_for_case(a: Seq<char>, b: Seq<char>)
    requires
        same_but_for_case(a, b),
    ensures
        language_shaped(a) == language_shaped(b),
        script_shaped(a) == script_shaped(b),
        region_shaped(a) == region_shaped(b),
        variant_shaped(a) == variant_shaped(b),
        lowercase(a) == lowercase(b),
        uppercase(a) == uppercase(b),
        titlecase(a) == titlecase(b),
{
    assert forall|i: int| 0 <= i < a.len() implies {
        &&& is_alpha(#[trigger] a[i]) == is_alpha(b[i])
        &&& is_digit(a[i]) == is_digit(b[i])
        &&& upper(a[i]) == upper(b[i])
        &&& lower(a[i]) == lower(b[i])
    } by {
        lemma_chars_same_but_for_case(a[i], b[i]);
    }
    assert(all_alpha(a) == all_alpha(b)) by {
        if all_alpha(a) {
            assert forall|i: int| 0 <= i < b.len() implies is_alpha(#[trigger] b[i]) by {
                assert(is_alpha(a[i]));
            }
        }
        if all_alpha(b) {
            assert forall|i: int| 0 <= i < a.len() implies is_alpha(#[trigger] a[i]) by {
                assert(is_alpha(b[i]));
            }
        }
    }
    assert(all_digit(a) == all_digit(b)) by {
        if all_digit(a) {
            assert forall|i: int| 0 <= i < b.len() implies is_digit(#[trigger] b[i]) by {
                assert(is_digit(a[i]));
            }
        }
        if all_digit(b) {
            assert forall|i: int| 0 <= i < a.len() implies is_digit(#[trigger] a[i]) by {
                assert(is_digit(b[i]));
            }
        }
    }
    assert(all_alphanumeric(a) == all_alphanumeric(b)) by {
        if all_alphanumeric(a) {
            assert forall|i: int| 0 <= i < b.len() implies is_alpha(#[trigger] b[i]) || is_digit(
                b[i],
            ) by {
                assert(is_alpha(a[i]) || is_digit(a[i]));
            }
        }
        if all_alphanumeric(b) {
            assert forall|i: int| 0 <= i < a.len() implies is_alpha(#[trigger] a[i]) || is_digit(
                a[i],
            ) by {
                assert(is_alpha(b[i]) || is_digit(b[i]));
            }
        }
    }
    assert(lowercase(a) =~= lowercase(b));
    assert(uppercase(a) =~= uppercase(b));
    assert(titlecase(a) =~= titlecase(b));
}

/// Tags that differ in case at most are cut into subtags that differ in case
/// at most.
pub proof fn lemma_split_same_but_for_case(a: Seq<char>, b: Seq<char>)
    requires
        same_but_for_case(a, b),
    ensures
        each_same_but_for_case(split_tag(a), split_tag(b)),
    decreases a.len(),
{
    if a.len() > 0 {
        let before_a = split_tag(a.drop_last());
        let before_b = split_tag(b.drop_last());
        assert(same_but_for_case(a.drop_last(), b.drop_last())) by {
            assert forall|i: int| 0 <= i < a.len() - 1 implies lower(#[trigger] a.drop_last()[i])
                == lower(b.drop_last()[i]) by {
                assert(lower(a[i]) == lower(b[i]));
            }
        }
        lemma_split_same_but_for_case(a.drop_last(), b.drop_last());
        lemma_split_tag_len(a.drop_last());
        lemma_split_tag_len(b.drop_last());
        assert(lower(a[a.len() - 1]) == lower(b[a.len() - 1]));
        lemma_chars_same_but_for_case(a.last(), b.last());
        if !is_separator(a.last()) {
            let open_a = before_a.last().push(a.last());
            let open_b = before_b.last().push(b.last());
            assert(same_but_for_case(before_a[before_a.len() - 1], before_b[before_a.len() - 1]));
            assert(same_but_for_case(open_a, open_b));
        } else {
            assert(same_but_for_case(Seq::<char>::empty(), Seq::<char>::empty()));
        }
    } else {
        assert(same_but_for_case(Seq::<char>::empty(), Seq::<char>::empty()));
    }
}

/// Letter case is not significant: tags that differ in case at most denote the
/// same locale, or are refused for the same reason.
pub proof fn letter_case_is_not_significant(a: Seq<char>, b: Seq<char>)
    requires
        same_but_for_case(a, b),
    ensures
        parse_tag(a) == parse_tag(b),
{
    let p = split_tag(a);
    let q = split_tag(b);
    lemma_split_same_but_for_case(a, b);
    lemma_split_tag_len(a);
    assert forall|i: int| 0 <= i < p.len() implies {
        &&& language_shaped(#[trigger] p[i]) == language_shaped(q[i])
        &&& script_shaped(p[i]) == script_shaped(q[i])
        &&& region_shaped(p[i]) == region_shaped(q[i])
        &&& variant_shaped(p[i]) == variant_shaped(q[i])
        &&& lowercase(p[i]) == lowercase(q[i])
        &&& uppercase(p[i]) == uppercase(q[i])
        &&& titlecase(p[i]) == titlecase(q[i])
    } by {
        lemma_subtag_same_but_for_case(p[i], q[i]);
    }
    assert(has_script(p) == has_script(q));
    assert(region_position(p) == region_position(q));
    assert(has_region(p) == has_region(q));
    let from = variants_position(p);
    assert(from == variants_position(q));
    assert(all_variants(p, from) == all_variants(q, from)) by {
        if all_variants(p, from) {
            assert forall|i: int| from <= i < q.len() implies variant_shaped(#[trigger] q[i]) by {
                assert(variant_shaped(p[i]));
            }
        }
        if all_variants(q, from) {
            assert forall|i: int| from <= i < p.len() implies variant_shaped(#[trigger] p[i]) by {
                assert(variant_shaped(q[i]));
            }
        }
    }
    assert(read_variants(p, from) =~= read_variants(q, from)) by {
        assert forall|i: int| 0 <= i < p.len() - from implies #[trigger] read_variants(p, from)[i]
            == read_variants(q, from)[i] by {
            assert(language_shaped(p[from + i]) == language_shaped(q[from + i]));
        }
    }
    assert(read_subtags(p) == read_subtags(q));
}

} // verus!
