//! Locales: the structured form of a locale tag, and how two of them compare.

pub mod canonical;
pub mod grammar;
pub mod letter_case;
pub mod parser;
pub mod subtag;

use crate::locale::grammar::{parse_tag, read_variants, split_tag, variants_position};
use crate::locale::parser::{lemma_split_tag_len, split_subtags};
use crate::locale::subtag::{
    canonical_language, canonical_region, canonical_script, canonical_variant, is_language,
    is_region, is_script, is_variant, language_shaped, lemma_case_of_subtag, lowercase,
    region_shaped, to_lowercase, to_titlecase, to_uppercase, uppercase, variant_shaped,
};
use crate::text::{copy_chars, same_chars, to_chars, to_text};
use vstd::prelude::*;

verus! {

/// Why a tag or a subtag was refused.
#[derive(Clone, Copy, PartialEq, Eq, Structural, Debug)]
pub enum LocaleError {
    /// The tag does not start with a language subtag.
    InvalidLanguage,
    /// A subtag after the language has no place in the grammar.
    InvalidSubtag,
    /// What was given as a region is not a region subtag.
    InvalidRegion,
}

/// The mathematical content of a locale: its subtags in canonical spelling.
/// An empty sequence stands for a subtag that is absent.
pub struct LocaleView {
    pub language: Seq<char>,
    pub script: Seq<char>,
    pub region: Seq<char>,
    pub variants: Seq<Seq<char>>,
}

/// The characters of each vector of a list, in order.
pub open spec fn views(subtags: Seq<Vec<char>>) -> Seq<Seq<char>> {
    Seq::new(subtags.len(), |i: int| subtags[i]@)
}

/// Whether one subtag of a candidate agrees with the same subtag of a reference.
/// As a range, a subtag that is absent on either side agrees with anything.
pub open spec fn subtag_matches(candidate: Seq<char>, reference: Seq<char>, as_range: bool) -> bool {
    candidate == reference || (as_range && (candidate.len() == 0 || reference.len() == 0))
}

impl LocaleView {
    /// The locale with no subtag at all.
    pub open spec fn undetermined() -> LocaleView {
        LocaleView {
            language: Seq::empty(),
            script: Seq::empty(),
            region: Seq::empty(),
            variants: Seq::empty(),
        }
    }

    /// Every subtag that is present has its shape and its canonical spelling.
    pub open spec fn well_formed(self) -> bool {
        &&& self.language.len() == 0 || canonical_language(self.language)
        &&& self.script.len() == 0 || canonical_script(self.script)
        &&& self.region.len() == 0 || canonical_region(self.region)
        &&& canonical_variants(self.variants)
    }

    /// Whether this locale, as a candidate, satisfies `reference`.
    ///
    /// Without `as_range`, language, script and region must be equal. With it, a
    /// subtag must be equal only where both sides have it. The variants are
    /// compared as one subtag, unless `variant_as_range` is set: then any
    /// variants satisfy any others.
    pub open spec fn matches(
        self,
        reference: LocaleView,
        as_range: bool,
        variant_as_range: bool,
    ) -> bool {
        &&& subtag_matches(self.language, reference.language, as_range)
        &&& subtag_matches(self.script, reference.script, as_range)
        &&& subtag_matches(self.region, reference.region, as_range)
        &&& (variant_as_range || self.variants == reference.variants || (as_range && (
            self.variants.len() == 0 || reference.variants.len() == 0)))
    }

    /// This locale without its variants.
    pub open spec fn without_variants(self) -> LocaleView {
        LocaleView { variants: Seq::empty(), ..self }
    }

    /// This locale with another region, or with none if `region` is empty.
    pub open spec fn with_region(self, region: Seq<char>) -> LocaleView {
        LocaleView { region: region, ..self }
    }

    /// The subtags that are present, in the order in which a tag holds them.
    pub open spec fn subtags(self) -> Seq<Seq<char>> {
        present(self.language) + present(self.script) + present(self.region) + self.variants
    }

    /// The canonical tag of this locale: its subtags, joined by hyphens.
    pub open spec fn canonical(self) -> Seq<char> {
        join_subtags(self.subtags())
    }
}

/// Whether every variant of a list has its shape and its canonical spelling.
pub open spec fn canonical_variants(variants: Seq<Seq<char>>) -> bool {
    forall|i: int| 0 <= i < variants.len() ==> canonical_variant(#[trigger] variants[i])
}

/// A subtag as a list: empty if the subtag is absent.
pub open spec fn present(subtag: Seq<char>) -> Seq<Seq<char>> {
    if subtag.len() == 0 {
        Seq::empty()
    } else {
        seq![subtag]
    }
}

/// The subtags of a list, with a hyphen between each two.
pub open spec fn join_subtags(subtags: Seq<Seq<char>>) -> Seq<char>
    decreases subtags.len(),
{
    if subtags.len() == 0 {
        Seq::empty()
    } else if subtags.len() == 1 {
        subtags[0]
    } else {
        join_subtags(subtags.drop_last()) + seq!['-'] + subtags.last()
    }
}

/// Whether a region may be given to a locale: none at all, or a region subtag.
pub open spec fn region_accepted(region: Seq<char>) -> bool {
    region.len() == 0 || region_shaped(region)
}

/// What a tag stands for when it is used as a reference: the locale it
/// denotes, or the locale with no subtags if it denotes none.
pub open spec fn reference_of(tag: Seq<char>) -> LocaleView {
    match parse_tag(tag) {
        Ok(locale) => locale,
        Err(_) => LocaleView::undetermined(),
    }
}

/// A locale: language, script, region and variants, each in canonical spelling.
#[derive(Debug)]
pub struct Locale {
    language: Vec<char>,
    script: Vec<char>,
    region: Vec<char>,
    variants: Vec<Vec<char>>,
}

impl View for Locale {
    type V = LocaleView;

    closed spec fn view(&self) -> LocaleView {
        LocaleView {
            language: self.language@,
            script: self.script@,
            region: self.region@,
            variants: views(self.variants@),
        }
    }
}

impl Locale {
    /// Every locale is well-formed, at all times.
    #[verifier::type_invariant]
    spec fn well_formed(self) -> bool {
        self@.well_formed()
    }

    /// Reads a tag.
    pub fn new(tag: &str) -> (parsed: Result<Locale, LocaleError>)
        ensures
            match parsed {
                Ok(locale) => parse_tag(tag@) == Ok::<LocaleView, LocaleError>(locale@)
                    && locale@.well_formed(),
                Err(error) => parse_tag(tag@) == Err::<LocaleView, LocaleError>(error),
            },
    {
        let chars = to_chars(tag);
        let subtags = split_subtags(&chars);
        proof {
            lemma_split_tag_len(tag@);
        }
        if !is_language(&subtags[0]) {
            return Err(LocaleError::InvalidLanguage);
        }
        let language = to_lowercase(&subtags[0]);
        let mut at: usize = 1;
        let mut script: Vec<char> = Vec::new();
        if at < subtags.len() && is_script(&subtags[at]) {
            script = to_titlecase(&subtags[at]);
            at = at + 1;
        }
        let mut region: Vec<char> = Vec::new();
        if at < subtags.len() && is_region(&subtags[at]) {
            region = to_uppercase(&subtags[at]);
            at = at + 1;
        }
        let ghost from: int = at as int;
        let mut variants: Vec<Vec<char>> = Vec::new();
        while at < subtags.len()
            invariant
                views(subtags@) == split_tag(tag@),
                language_shaped(views(subtags@)[0]),
                from == variants_position(views(subtags@)),
                1 <= from <= at <= subtags.len(),
                variants@.len() == at - from,
                forall|i: int| from <= i < at ==> variant_shaped(#[trigger] views(subtags@)[i]),
                forall|i: int|
                    0 <= i < variants@.len() ==> (#[trigger] variants@[i])@ == lowercase(
                        subtags@[from + i]@,
                    ),
            decreases subtags.len() - at,
        {
            if !is_variant(&subtags[at]) {
                assert(!variant_shaped(views(subtags@)[at as int]));
                return Err(LocaleError::InvalidSubtag);
            }
            variants.push(to_lowercase(&subtags[at]));
            at = at + 1;
        }
        proof {
            let parts = views(subtags@);
            assert(views(variants@) =~= read_variants(parts, from));
            lemma_case_of_subtag(parts[0]);
            if parts.len() > 1 {
                lemma_case_of_subtag(parts[1]);
            }
            if parts.len() > 2 {
                lemma_case_of_subtag(parts[2]);
            }
            assert forall|i: int| 0 <= i < variants@.len() implies canonical_variant(
                #[trigger] views(variants@)[i],
            ) by {
                assert(variant_shaped(parts[from + i]));
                lemma_case_of_subtag(parts[from + i]);
            }
        }
        Ok(Locale { language, script, region, variants })
    }

    /// The locale with no subtag at all.
    pub fn undetermined() -> (locale: Locale)
        ensures
            locale@ == LocaleView::undetermined(),
            locale@.well_formed(),
    {
        let locale = Locale {
            language: Vec::new(),
            script: Vec::new(),
            region: Vec::new(),
            variants: Vec::new(),
        };
        assert(locale@.variants =~= Seq::empty());
        locale
    }

    /// Reads a tag that is to serve as a reference. A tag that denotes nothing
    /// gives the locale with no subtags.
    pub fn from_tag(tag: &str) -> (locale: Locale)
        ensures
            locale@ == reference_of(tag@),
            locale@.well_formed(),
    {
        match Locale::new(tag) {
            Ok(locale) => locale,
            Err(_) => Locale::undetermined(),
        }
    }

    /// Whether this locale, as a candidate, satisfies `reference`.
    pub fn matches(
        &self,
        reference: &Locale,
        as_range: bool,
        variant_as_range: bool,
    ) -> (matched: bool)
        ensures
            matched == self@.matches(reference@, as_range, variant_as_range),
    {
        if !subtag_agrees(&self.language, &reference.language, as_range) {
            return false;
        }
        if !subtag_agrees(&self.script, &reference.script, as_range) {
            return false;
        }
        if !subtag_agrees(&self.region, &reference.region, as_range) {
            return false;
        }
        if variant_as_range {
            return true;
        }
        if as_range && (self.variants.len() == 0 || reference.variants.len() == 0) {
            return true;
        }
        same_subtags(&self.variants, &reference.variants)
    }

    /// Removes the variants.
    pub fn clear_variants(&mut self)
        ensures
            final(self)@ == old(self)@.without_variants(),
            final(self)@.well_formed(),
    {
        proof {
            use_type_invariant(&*self);
        }
        self.variants = Vec::new();
        assert(self@.variants =~= Seq::empty());
    }

    /// Removes the region.
    pub fn clear_region(&mut self)
        ensures
            final(self)@ == old(self)@.with_region(Seq::empty()),
            final(self)@.well_formed(),
    {
        proof {
            use_type_invariant(&*self);
        }
        self.region = Vec::new();
    }

    /// Replaces the region, or removes it if `region` is empty. A `region` that
    /// is neither empty nor a region subtag is refused, and the locale stays
    /// as it is.
    pub fn set_region(&mut self, region: &str) -> (outcome: Result<(), LocaleError>)
        ensures
            match outcome {
                Ok(_) => region_accepted(region@) && final(self)@ == old(self)@.with_region(
                    uppercase(region@),
                ),
                Err(error) => error == LocaleError::InvalidRegion && !region_accepted(region@)
                    && final(self)@ == old(self)@,
            },
            final(self)@.well_formed(),
    {
        proof {
            use_type_invariant(&*self);
        }
        let chars = to_chars(region);
        if chars.len() == 0 {
            self.region = chars;
            assert(uppercase(region@) =~= region@);
            Ok(())
        } else if is_region(&chars) {
            proof {
                lemma_case_of_subtag(chars@);
            }
            self.region = to_uppercase(&chars);
            Ok(())
        } else {
            Err(LocaleError::InvalidRegion)
        }
    }

    /// The canonical tag of this locale, as characters.
    pub fn to_chars(&self) -> (tag: Vec<char>)
        ensures
            tag@ == self@.canonical(),
    {
        let mut tag: Vec<char> = Vec::new();
        let ghost mut written: Seq<Seq<char>> = Seq::empty();
        if self.language.len() > 0 {
            write_subtag(&mut tag, &self.language, Ghost(written), false);
            proof {
                written = written.push(self.language@);
            }
        }
        assert(written =~= present(self.language@));
        let mut started: bool = self.language.len() > 0;
        if self.script.len() > 0 {
            write_subtag(&mut tag, &self.script, Ghost(written), started);
            proof {
                written = written.push(self.script@);
            }
            started = true;
        }
        assert(written =~= present(self.language@) + present(self.script@));
        if self.region.len() > 0 {
            write_subtag(&mut tag, &self.region, Ghost(written), started);
            proof {
                written = written.push(self.region@);
            }
            started = true;
        }
        assert(written =~= present(self.language@) + present(self.script@) + present(
            self.region@,
        ));
        let ghost head = written;
        let mut i: usize = 0;
        while i < self.variants.len()
            invariant
                i <= self.variants.len(),
                tag@ == join_subtags(written),
                started == (written.len() > 0),
                written == head + views(self.variants@).take(i as int),
            decreases self.variants.len() - i,
        {
            write_subtag(&mut tag, &self.variants[i], Ghost(written), started);
            proof {
                written = written.push(self.variants@[i as int]@);
                assert(views(self.variants@).take(i as int + 1) =~= views(self.variants@).take(
                    i as int,
                ).push(self.variants@[i as int]@));
            }
            started = true;
            i = i + 1;
        }
        assert(views(self.variants@).take(i as int) =~= views(self.variants@));
        tag
    }

    /// The canonical tag of this locale.
    pub fn to_string(&self) -> (tag: String)
        ensures
            tag@ == self@.canonical(),
    {
        let chars = self.to_chars();
        to_text(&chars)
    }

    /// The language, in lower case; empty if the locale has none.
    pub fn get_language(&self) -> (language: String)
        ensures
            language@ == self@.language,
            language@.len() == 0 || canonical_language(language@),
    {
        proof {
            use_type_invariant(self);
        }
        to_text(&self.language)
    }

    /// The script, in title case; empty if the locale has none.
    pub fn get_script(&self) -> (script: String)
        ensures
            script@ == self@.script,
            script@.len() == 0 || canonical_script(script@),
    {
        proof {
            use_type_invariant(self);
        }
        to_text(&self.script)
    }

    /// The region, in upper case; empty if the locale has none.
    pub fn get_region(&self) -> (region: String)
        ensures
            region@ == self@.region,
            region@.len() == 0 || canonical_region(region@),
    {
        proof {
            use_type_invariant(self);
        }
        to_text(&self.region)
    }

    /// The variants, each in lower case, in the order of the tag.
    pub fn get_variants(&self) -> (variants: Vec<String>)
        ensures
            variants@.len() == self@.variants.len(),
            forall|i: int|
                0 <= i < variants@.len() ==> (#[trigger] variants@[i])@ == self@.variants[i]
                    && canonical_variant(variants@[i]@),
    {
        proof {
            use_type_invariant(self);
        }
        let mut variants: Vec<String> = Vec::new();
        let mut i: usize = 0;
        while i < self.variants.len()
            invariant
                i <= self.variants.len(),
                variants@.len() == i,
                forall|j: int| 0 <= j < i ==> variants@[j]@ == self.variants@[j]@,
            decreases self.variants.len() - i,
        {
            variants.push(to_text(&self.variants[i]));
            i = i + 1;
        }
        variants
    }
}

impl Clone for Locale {
    /// A locale with the same subtags.
    fn clone(&self) -> (copy: Locale)
        ensures
            copy@ == self@,
    {
        proof {
            use_type_invariant(self);
        }
        let mut variants: Vec<Vec<char>> = Vec::new();
        let mut i: usize = 0;
        while i < self.variants.len()
            invariant
                i <= self.variants.len(),
                views(variants@) == views(self.variants@).take(i as int),
            decreases self.variants.len() - i,
        {
            let ghost before = views(variants@);
            variants.push(copy_chars(&self.variants[i]));
            i = i + 1;
            assert(views(variants@) =~= before.push(self.variants@[i as int - 1]@));
            assert(views(self.variants@).take(i as int) =~= views(self.variants@).take(
                i as int - 1,
            ).push(self.variants@[i as int - 1]@));
        }
        assert(views(self.variants@).take(i as int) =~= views(self.variants@));
        Locale {
            language: copy_chars(&self.language),
            script: copy_chars(&self.script),
            region: copy_chars(&self.region),
            variants,
        }
    }
}

/// Whether one subtag of a candidate agrees with the same subtag of a reference.
fn subtag_agrees(candidate: &Vec<char>, reference: &Vec<char>, as_range: bool) -> (agrees: bool)
    ensures
        agrees == subtag_matches(candidate@, reference@, as_range),
{
    if as_range && (candidate.len() == 0 || reference.len() == 0) {
        return true;
    }
    same_chars(candidate, reference)
}

/// Whether two lists hold the same subtags in the same order.
fn same_subtags(a: &Vec<Vec<char>>, b: &Vec<Vec<char>>) -> (same: bool)
    ensures
        same == (views(a@) == views(b@)),
{
    if a.len() != b.len() {
        assert(views(a@).len() != views(b@).len());
        return false;
    }
    let mut i: usize = 0;
    while i < a.len()
        invariant
            i <= a.len(),
            a@.len() == b@.len(),
            forall|j: int| 0 <= j < i ==> views(a@)[j] == views(b@)[j],
        decreases a.len() - i,
    {
        if !same_chars(&a[i], &b[i]) {
            assert(views(a@)[i as int] != views(b@)[i as int]);
            return false;
        }
        i = i + 1;
    }
    assert(views(a@) =~= views(b@));
    true
}

/// Appends a subtag to a tag under construction, after a hyphen if the tag
/// already holds a subtag.
fn write_subtag(
    tag: &mut Vec<char>,
    subtag: &Vec<char>,
    Ghost(written): Ghost<Seq<Seq<char>>>,
    started: bool,
)
    requires
        old(tag)@ == join_subtags(written),
        started == (written.len() > 0),
    ensures
        final(tag)@ == join_subtags(written.push(subtag@)),
{
    if started {
        tag.push('-');
    }
    let ghost head = tag@;
    let mut i: usize = 0;
    while i < subtag.len()
        invariant
            i <= subtag.len(),
            tag@ == head + subtag@.take(i as int),
        decreases subtag.len() - i,
    {
        tag.push(subtag[i]);
        i = i + 1;
        assert(subtag@.take(i as int) =~= subtag@.take(i as int - 1).push(subtag@[i as int - 1]));
    }
    proof {
        assert(subtag@.take(i as int) =~= subtag@);
        let all = written.push(subtag@);
        assert(all.drop_last() =~= written);
        assert(all.last() == subtag@);
        if started {
            assert(head =~= join_subtags(written) + seq!['-']);
        } else {
            assert(written.len() == 0);
            assert(head =~= Seq::<char>::empty());
            assert(tag@ =~= subtag@);
        }
    }
}

} // verus!
