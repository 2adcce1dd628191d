//! Language negotiation: choosing, among the locales that an application has,
//! those that best serve the locales that a user asks for.
//!
//! Each requested tag is held against the available tags in six tiers, from an
//! exact match down to a match on the language alone. An available tag that is
//! taken for one request is not offered to another.

pub mod guarantees;
pub mod likely_subtags;
pub mod model;

use crate::locale::grammar::parse_tag;
use crate::locale::{reference_of, Locale, LocaleError, LocaleView};
use crate::negotiate::model::{
    negotiated, run_tier, run_tiers, satisfies, scan, serve, serve_all, settles, supported_tags,
    tier, usable, Scan,
};
use crate::text::{same_text, tag_of, tags_of};
use vstd::prelude::*;

verus! {

/// How widely a negotiation searches.
#[derive(Clone, Copy, PartialEq, Eq, Structural, Debug)]
pub enum NegotiationStrategy {
    /// Every available tag that serves a request, in every tier.
    Filtering,
    /// At most one available tag for each request.
    Matching,
    /// At most one available tag in all.
    Lookup,
}

/// Each available tag has been read: a locale stands for each tag that is
/// well-formed, and nothing for each tag that is not.
spec fn read_as(available: Seq<&str>, locales: Seq<Option<Locale>>) -> bool {
    &&& locales.len() == available.len()
    &&& forall|i: int|
        0 <= i < available.len() ==> match #[trigger] locales[i] {
            Some(locale) => parse_tag(available[i]@) == Ok::<LocaleView, LocaleError>(locale@),
            None => parse_tag(available[i]@) is Err,
        }
}

/// The pool holds positions of available tags that have a locale.
spec fn pooled(locales: Seq<Option<Locale>>, pool: Seq<usize>) -> bool {
    forall|k: int|
        0 <= k < pool.len() ==> (#[trigger] pool[k]) < locales.len() && locales[pool[k] as int]
            is Some
}

/// The tags at the positions that the pool holds.
spec fn tags_at(available: Seq<&str>, pool: Seq<usize>) -> Seq<Seq<char>> {
    Seq::new(pool.len(), |k: int| available[pool[k] as int]@)
}

/// Reads the available tags and opens the pool: the positions of the tags that
/// are well-formed.
fn open_pool(available: &[&str]) -> (opened: (Vec<Option<Locale>>, Vec<usize>))
    ensures
        read_as(available@, opened.0@),
        pooled(opened.0@, opened.1@),
        tags_at(available@, opened.1@) == usable(tags_of(available@)),
{
    let mut locales: Vec<Option<Locale>> = Vec::new();
    let mut pool: Vec<usize> = Vec::new();
    let mut i: usize = 0;
    proof {
        reveal(Seq::filter);
    }
    while i < available.len()
        invariant
            i <= available.len(),
            locales@.len() == i,
            forall|j: int|
                0 <= j < i ==> match #[trigger] locales@[j] {
                    Some(locale) => parse_tag(available@[j]@) == Ok::<LocaleView, LocaleError>(
                        locale@,
                    ),
                    None => parse_tag(available@[j]@) is Err,
                },
            forall|k: int|
                0 <= k < pool@.len() ==> (#[trigger] pool@[k]) < i && locales@[pool@[k] as int]
                    is Some,
            tags_at(available@, pool@) == usable(tags_of(available@).take(i as int)),
        decreases available.len() - i,
    {
        let ghost before = tags_at(available@, pool@);
        let tag = available[i];
        match Locale::new(tag) {
            Ok(locale) => {
                locales.push(Some(locale));
                pool.push(i);
                assert(tags_at(available@, pool@) =~= before.push(tag@));
            },
            Err(_) => {
                locales.push(None);
            },
        }
        i = i + 1;
        proof {
            reveal(Seq::filter);
            let upto = tags_of(available@).take(i as int);
            assert(upto.drop_last() =~= tags_of(available@).take(i as int - 1));
            assert(upto.last() == tag@);
        }
    }
    assert(tags_of(available@).take(i as int) =~= tags_of(available@));
    (locales, pool)
}

/// One pass over the pool: holds each tag in it against `reference`, moves the
/// tags taken to `supported`, and returns the pool that is left.
///
/// Under `Filtering` every tag that satisfies the reference is taken. Under the
/// other strategies a tag is taken only while `match_found` is unset, so at
/// most one.
fn scan_tier<'a>(
    available: &[&'a str],
    locales: &Vec<Option<Locale>>,
    pool: &Vec<usize>,
    reference: &Locale,
    as_range: bool,
    variant_as_range: bool,
    strategy: &NegotiationStrategy,
    supported: &mut Vec<&'a str>,
    match_found: &mut bool,
) -> (left: Vec<usize>)
    requires
        read_as(available@, locales@),
        pooled(locales@, pool@),
        *strategy != NegotiationStrategy::Filtering ==> !*old(match_found),
    ensures
        pooled(locales@, left@),
        ({
            let pass = scan(
                tags_at(available@, pool@),
                reference@,
                as_range,
                variant_as_range,
                *strategy == NegotiationStrategy::Filtering,
            );
            &&& tags_of(final(supported)@) == tags_of(old(supported)@) + pass.taken
            &&& tags_at(available@, left@) == pass.left
            &&& *final(match_found) == (*old(match_found) || pass.taken.len() > 0)
        }),
{
    reveal(scan);
    let ghost tags = tags_at(available@, pool@);
    let ghost every = *strategy == NegotiationStrategy::Filtering;
    let ghost base = tags_of(supported@);
    let ghost mut taken: Seq<Seq<char>> = Seq::empty();
    let mut left: Vec<usize> = Vec::new();
    let mut j: usize = 0;
    assert(tags.skip(0) =~= tags);
    assert(base + taken =~= base);
    while j < pool.len()
        invariant
            j <= pool.len(),
            read_as(available@, locales@),
            pooled(locales@, pool@),
            pooled(locales@, left@),
            tags == tags_at(available@, pool@),
            every == (*strategy == NegotiationStrategy::Filtering),
            tags_of(supported@) == base + taken,
            *match_found == (*old(match_found) || taken.len() > 0),
            !every ==> !*old(match_found),
            ({
                let rest = scan(tags.skip(j as int), reference@, as_range, variant_as_range, every);
                let whole = scan(tags, reference@, as_range, variant_as_range, every);
                if !every && taken.len() > 0 {
                    whole == (Scan {
                        taken: taken,
                        left: tags_at(available@, left@) + tags.skip(j as int),
                    })
                } else {
                    whole == (Scan {
                        taken: taken + rest.taken,
                        left: tags_at(available@, left@) + rest.left,
                    })
                }
            }),
        decreases pool.len() - j,
    {
        let at: usize = pool[j];
        let tag = available[at];
        let ghost kept = tags_at(available@, left@);
        let ghost upto = tags_of(supported@);
        proof {
            reveal(scan);
            assert(tags.skip(j as int)[0] == tag@);
            assert(tags.skip(j as int).drop_first() =~= tags.skip(j as int + 1));
        }
        let takes = match &locales[at] {
            Some(candidate) => {
                if *strategy != NegotiationStrategy::Filtering && *match_found {
                    false
                } else {
                    candidate.matches(reference, as_range, variant_as_range)
                }
            },
            None => false,
        };
        if takes {
            supported.push(tag);
            *match_found = true;
            proof {
                assert(tags_of(supported@) =~= upto.push(tag@));
                let rest = scan(tags.skip(j as int), reference@, as_range, variant_as_range, every);
                let next = scan(
                    tags.skip(j as int + 1),
                    reference@,
                    as_range,
                    variant_as_range,
                    every,
                );
                assert(satisfies(tag@, reference@, as_range, variant_as_range));
                if every {
                    assert(taken + rest.taken =~= taken.push(tag@) + next.taken);
                } else {
                    assert(taken + rest.taken =~= taken.push(tag@));
                }
                taken = taken.push(tag@);
                assert(base + taken =~= upto.push(tag@));
            }
        } else {
            left.push(at);
            proof {
                assert(tags_at(available@, left@) =~= kept.push(tag@));
                if !every && taken.len() > 0 {
                    assert(kept + tags.skip(j as int) =~= kept.push(tag@) + tags.skip(
                        j as int + 1,
                    ));
                } else {
                    let rest = scan(
                        tags.skip(j as int),
                        reference@,
                        as_range,
                        variant_as_range,
                        every,
                    );
                    let next = scan(
                        tags.skip(j as int + 1),
                        reference@,
                        as_range,
                        variant_as_range,
                        every,
                    );
                    assert(!satisfies(tag@, reference@, as_range, variant_as_range));
                    assert(kept + rest.left =~= kept.push(tag@) + next.left);
                }
            }
        }
        j = j + 1;
    }
    proof {
        assert(tags.skip(j as int) =~= Seq::<Seq<char>>::empty());
        assert(taken + Seq::<Seq<char>>::empty() =~= taken);
        assert(tags_at(available@, left@) + Seq::<Seq<char>>::empty() =~= tags_at(
            available@,
            left@,
        ));
    }
    left
}

/// Whether a strategy is done with a request once a tier has taken a tag.
fn settles_request(strategy: &NegotiationStrategy, match_found: bool) -> (settled: bool)
    ensures
        settled == (match_found && *strategy != NegotiationStrategy::Filtering),
{
    match strategy {
        NegotiationStrategy::Filtering => false,
        NegotiationStrategy::Matching => match_found,
        NegotiationStrategy::Lookup => match_found,
    }
}

/// Where the serving of one request stands before tier `number`: what is
/// supported now, with what the tiers still to run will take, is what was
/// supported at the start with what the request takes in all. After the last
/// tier, `number` is 7.
spec fn on_course(
    goal: Scan,
    base: Seq<Seq<char>>,
    now: Seq<Seq<char>>,
    pool: Seq<Seq<char>>,
    wanted: LocaleView,
    strategy: NegotiationStrategy,
    number: int,
) -> bool {
    let ahead = run_tiers(pool, wanted, strategy, number);
    base + goal.taken == now + ahead.taken && goal.left == ahead.left
}

/// One step of the tiers: what is known of the whole once tier `number` has
/// run. A tier that settles the request leaves nothing to run.
proof fn lemma_tier_ran(
    goal: Scan,
    base: Seq<Seq<char>>,
    before: Seq<Seq<char>>,
    after: Seq<Seq<char>>,
    pool: Seq<Seq<char>>,
    wanted: LocaleView,
    strategy: NegotiationStrategy,
    number: int,
)
    requires
        1 <= number <= 6,
        on_course(goal, base, before, pool, wanted, strategy, number),
        after == before + run_tier(pool, tier(wanted, number), strategy).taken,
    ensures
        ({
            let here = run_tier(pool, tier(wanted, number), strategy);
            on_course(
                goal,
                base,
                after,
                here.left,
                wanted,
                strategy,
                if settles(strategy, here.taken) {
                    7
                } else {
                    number + 1
                },
            )
        }),
{
    reveal(run_tiers);
    let here = run_tier(pool, tier(wanted, number), strategy);
    let none = Seq::<Seq<char>>::empty();
    if settles(strategy, here.taken) {
        assert(run_tiers(here.left, wanted, strategy, 7) == (Scan { taken: none, left: here.left }));
        assert(after + none =~= after);
    } else {
        let later = run_tiers(here.left, wanted, strategy, number + 1);
        assert(before + (here.taken + later.taken) =~= after + later.taken);
    }
}

/// Serves one requested tag, which is not empty: runs the six tiers over the
/// pool, moves the tags taken to `supported`, and returns the pool that is left.
fn serve_request<'a>(
    requested: &str,
    available: &[&'a str],
    locales: &Vec<Option<Locale>>,
    pool: Vec<usize>,
    strategy: &NegotiationStrategy,
    supported: &mut Vec<&'a str>,
) -> (left: Vec<usize>)
    requires
        requested@.len() > 0,
        read_as(available@, locales@),
        pooled(locales@, pool@),
    ensures
        pooled(locales@, left@),
        ({
            let served = serve(tags_at(available@, pool@), requested@, *strategy);
            &&& tags_of(final(supported)@) == tags_of(old(supported)@) + served.taken
            &&& tags_at(available@, left@) == served.left
        }),
{
    let ghost base = tags_of(supported@);
    let ghost wanted = reference_of(requested@);
    let ghost goal = run_tiers(tags_at(available@, pool@), wanted, *strategy, 1);
    let mut reference = Locale::from_tag(requested);
    let mut match_found = false;

    // 1) The request as it stands, exactly.
    let ghost now = tags_of(supported@);
    let ghost tags = tags_at(available@, pool@);
    let pool = scan_tier(
        available,
        locales,
        &pool,
        &reference,
        false,
        false,
        strategy,
        supported,
        &mut match_found,
    );
    proof {
        lemma_tier_ran(goal, base, now, tags_of(supported@), tags, wanted, *strategy, 1);
    }
    if settles_request(strategy, match_found) {
        proof {
            lemma_served(goal, base, tags_of(supported@), tags_at(available@, pool@), wanted, *strategy);
        }
        return pool;
    }
    // 2) The request as a range. A tag that the first tier took leaves
    // `match_found` set.

    let ghost now = tags_of(supported@);
    let ghost tags = tags_at(available@, pool@);
    let pool = scan_tier(
        available,
        locales,
        &pool,
        &reference,
        true,
        false,
        strategy,
        supported,
        &mut match_found,
    );
    proof {
        lemma_tier_ran(goal, base, now, tags_of(supported@), tags, wanted, *strategy, 2);
    }
    if settles_request(strategy, match_found) {
        proof {
            lemma_served(goal, base, tags_of(supported@), tags_at(available@, pool@), wanted, *strategy);
        }
        return pool;
    }
    match_found = false;

    // 3) The likely full form of the request, as a range.
    let ghost now = tags_of(supported@);
    let ghost tags = tags_at(available@, pool@);
    let mut pool = pool;
    match likely_subtags::add(&reference.to_chars()) {
        Some(extended) => {
            reference = Locale::from_tag(extended);
            pool =
            scan_tier(
                available,
                locales,
                &pool,
                &reference,
                true,
                false,
                strategy,
                supported,
                &mut match_found,
            );
        },
        None => {},
    }
    proof {
        assert(now + Seq::<Seq<char>>::empty() =~= now);
        lemma_tier_ran(goal, base, now, tags_of(supported@), tags, wanted, *strategy, 3);
    }
    if settles_request(strategy, match_found) {
        proof {
            lemma_served(goal, base, tags_of(supported@), tags_at(available@, pool@), wanted, *strategy);
        }
        return pool;
    }
    match_found = false;

    // 4) The same without its variants, any variants accepted.
    let ghost now = tags_of(supported@);
    let ghost tags = tags_at(available@, pool@);
    reference.clear_variants();
    let pool = scan_tier(
        available,
        locales,
        &pool,
        &reference,
        true,
        true,
        strategy,
        supported,
        &mut match_found,
    );
    proof {
        lemma_tier_ran(goal, base, now, tags_of(supported@), tags, wanted, *strategy, 4);
    }
    if settles_request(strategy, match_found) {
        proof {
            lemma_served(goal, base, tags_of(supported@), tags_at(available@, pool@), wanted, *strategy);
        }
        return pool;
    }
    match_found = false;

    // 5) The likely full form of what is left without the region, as a range.
    let ghost now = tags_of(supported@);
    let ghost tags = tags_at(available@, pool@);
    let mut pool = pool;
    reference.clear_region();
    match likely_subtags::add(&reference.to_chars()) {
        Some(extended) => {
            let full = Locale::from_tag(extended);
            pool =
            scan_tier(
                available,
                locales,
                &pool,
                &full,
                true,
                false,
                strategy,
                supported,
                &mut match_found,
            );
        },
        None => {},
    }
    proof {
        assert(now + Seq::<Seq<char>>::empty() =~= now);
        lemma_tier_ran(goal, base, now, tags_of(supported@), tags, wanted, *strategy, 5);
    }
    if settles_request(strategy, match_found) {
        proof {
            lemma_served(goal, base, tags_of(supported@), tags_at(available@, pool@), wanted, *strategy);
        }
        return pool;
    }
    match_found = false;

    // 6) The request without variants and region, any variants accepted.
    let ghost now = tags_of(supported@);
    let ghost tags = tags_at(available@, pool@);
    reference.clear_region();
    let pool = scan_tier(
        available,
        locales,
        &pool,
        &reference,
        true,
        true,
        strategy,
        supported,
        &mut match_found,
    );
    proof {
        lemma_tier_ran(goal, base, now, tags_of(supported@), tags, wanted, *strategy, 6);
        if !settles(*strategy, run_tier(tags, tier(wanted, 6), *strategy).taken) {
            assert(on_course(
                goal,
                base,
                tags_of(supported@),
                tags_at(available@, pool@),
                wanted,
                *strategy,
                7,
            ));
        }
        lemma_served(goal, base, tags_of(supported@), tags_at(available@, pool@), wanted, *strategy);
    }
    pool
}

/// After the last tier, what is supported and what is left are what the
/// request takes and leaves.
proof fn lemma_served(
    goal: Scan,
    base: Seq<Seq<char>>,
    now: Seq<Seq<char>>,
    pool: Seq<Seq<char>>,
    wanted: LocaleView,
    strategy: NegotiationStrategy,
)
    requires
        on_course(goal, base, now, pool, wanted, strategy, 7),
    ensures
        now == base + goal.taken,
        pool == goal.left,
{
    reveal(run_tiers);
    assert(now + Seq::<Seq<char>>::empty() =~= now);
}

/// The available tags that serve the requested ones, in order of discovery.
///
/// Available tags that are not well-formed are left out. A requested tag that
/// is empty is passed over; one that is not well-formed is held against the
/// available tags as the locale with no subtags.
pub fn filter_matches<'a>(
    requested: &[&'a str],
    available: &[&'a str],
    strategy: &NegotiationStrategy,
) -> (supported: Vec<&'a str>)
    ensures
        tags_of(supported@) == supported_tags(
            tags_of(requested@),
            tags_of(available@),
            *strategy,
        ),
{
    let (locales, mut pool) = open_pool(available);
    let mut supported: Vec<&'a str> = Vec::new();
    let ghost goal = supported_tags(tags_of(requested@), tags_of(available@), *strategy);
    let mut i: usize = 0;
    assert(tags_of(requested@).skip(0) =~= tags_of(requested@));
    assert(tags_of(supported@) + goal =~= goal);
    while i < requested.len()
        invariant
            i <= requested.len(),
            read_as(available@, locales@),
            pooled(locales@, pool@),
            goal == supported_tags(tags_of(requested@), tags_of(available@), *strategy),
            goal == tags_of(supported@) + serve_all(
                tags_at(available@, pool@),
                tags_of(requested@).skip(i as int),
                *strategy,
            ),
        decreases requested.len() - i,
    {
        let request = requested[i];
        let before: usize = supported.len();
        let ghost so_far = tags_of(supported@);
        let ghost tags = tags_at(available@, pool@);
        let ghost rest = tags_of(requested@).skip(i as int);
        proof {
            assert(rest[0] == request@);
            assert(rest.drop_first() =~= tags_of(requested@).skip(i as int + 1));
        }
        if !request.is_empty() {
            pool = serve_request(request, available, &locales, pool, strategy, &mut supported);
        }
        let ghost served = serve(tags, request@, *strategy);
        assert(so_far + Seq::<Seq<char>>::empty() =~= so_far);
        assert(tags_of(supported@) == so_far + served.taken);
        assert(supported@.len() == before + served.taken.len());
        i = i + 1;
        match strategy {
            NegotiationStrategy::Lookup => {
                if supported.len() > before {
                    return supported;
                }
            },
            _ => {},
        }
        assert(so_far + (served.taken + serve_all(
            served.left,
            tags_of(requested@).skip(i as int),
            *strategy,
        )) =~= tags_of(supported@) + serve_all(
            served.left,
            tags_of(requested@).skip(i as int),
            *strategy,
        ));
    }
    assert(tags_of(supported@) + Seq::<Seq<char>>::empty() =~= tags_of(supported@));
    supported
}

/// Whether a list of tags holds a tag.
fn holds(tags: &Vec<&str>, tag: &str) -> (found: bool)
    ensures
        found == tags_of(tags@).contains(tag@),
{
    let mut i: usize = 0;
    while i < tags.len()
        invariant
            i <= tags.len(),
            forall|j: int| 0 <= j < i ==> tags_of(tags@)[j] != tag@,
        decreases tags.len() - i,
    {
        if same_text(tags[i], tag) {
            assert(tags_of(tags@)[i as int] == tag@);
            return true;
        }
        i = i + 1;
    }
    false
}

/// Negotiates the locales to use: the available tags that serve the requested
/// ones, in order of discovery, and the default tag where the strategy calls
/// for it.
///
/// `Lookup` returns the default tag only when no available tag serves. The
/// other strategies append it unless it is among the supported tags already.
pub fn negotiate_languages<'a>(
    requested: &[&'a str],
    available: &[&'a str],
    default: Option<&'a str>,
    strategy: &NegotiationStrategy,
) -> (supported: Vec<&'a str>)
    ensures
        tags_of(supported@) == negotiated(
            tags_of(requested@),
            tags_of(available@),
            tag_of(default),
            *strategy,
        ),
{
    let mut supported = filter_matches(requested, available, strategy);
    let ghost found = tags_of(supported@);
    match default {
        Some(tag) => {
            let wanted = match strategy {
                NegotiationStrategy::Lookup => supported.len() == 0,
                _ => !holds(&supported, tag),
            };
            if wanted {
                supported.push(tag);
                assert(tags_of(supported@) =~= found.push(tag@));
                assert(found.len() == 0 ==> found.push(tag@) =~= seq![tag@]);
            }
        },
        None => {},
    }
    supported
}

} // verus!
