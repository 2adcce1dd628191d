//! The negotiation as mathematics: what is taken from a pool of available
//! tags, tier by tier and request by request.
//!
//! A tag is a sequence of characters. The pool is a sequence of tags; a tag
//! that is taken for a request leaves the pool for good.

use crate::locale::grammar::{is_tag, parse_tag};
use crate::locale::{reference_of, LocaleView};
use crate::negotiate::likely_subtags::likely_subtags;
use crate::negotiate::NegotiationStrategy;
use vstd::prelude::*;

verus! {

/// How one tier compares: against which reference, how loosely, and whether it
/// runs at all.
pub struct Tier {
    pub reference: LocaleView,
    pub as_range: bool,
    pub variant_as_range: bool,
    pub active: bool,
}

/// What a pass over the pool gives: the tags taken, in the order in which they
/// were met, and the tags left, in the order that they had.
pub struct Scan {
    pub taken: Seq<Seq<char>>,
    pub left: Seq<Seq<char>>,
}

/// Whether an available tag satisfies a reference.
pub open spec fn satisfies(
    tag: Seq<char>,
    reference: LocaleView,
    as_range: bool,
    variant_as_range: bool,
) -> bool {
    match parse_tag(tag) {
        Ok(candidate) => candidate.matches(reference, as_range, variant_as_range),
        Err(_) => false,
    }
}

/// One pass over the pool. With `every`, each tag that satisfies the reference
/// is taken; without it, only the first.
#[verifier::opaque]
pub open spec fn scan(
    pool: Seq<Seq<char>>,
    reference: LocaleView,
    as_range: bool,
    variant_as_range: bool,
    every: bool,
) -> Scan
    decreases pool.len(),
{
    if pool.len() == 0 {
        Scan { taken: Seq::empty(), left: Seq::empty() }
    } else if satisfies(pool[0], reference, as_range, variant_as_range) {
        if every {
            let rest = scan(pool.drop_first(), reference, as_range, variant_as_range, every);
            Scan { taken: seq![pool[0]] + rest.taken, left: rest.left }
        } else {
            Scan { taken: seq![pool[0]], left: pool.drop_first() }
        }
    } else {
        let rest = scan(pool.drop_first(), reference, as_range, variant_as_range, every);
        Scan { taken: rest.taken, left: seq![pool[0]] + rest.left }
    }
}

/// The likely full form of a reference, if the table of likely subtags has one.
pub open spec fn maximized(reference: LocaleView) -> Option<LocaleView> {
    match likely_subtags(reference.canonical()) {
        Some(tag) => Some(reference_of(tag)),
        None => None,
    }
}

/// The reference from the third tier on: the likely full form of the request,
/// or the request itself if it has none.
pub open spec fn expanded(requested: LocaleView) -> LocaleView {
    match maximized(requested) {
        Some(full) => full,
        None => requested,
    }
}

/// The reference of the last tier: the reference of the third tier without
/// variants and without region.
pub open spec fn stripped(requested: LocaleView) -> LocaleView {
    expanded(requested).without_variants().with_region(Seq::empty())
}

/// The six tiers for a request, numbered from 1.
///
/// 1. the request, exactly;
/// 2. the request, as a range;
/// 3. the likely full form of the request, as a range;
/// 4. the reference of the third tier without its variants, any variants
///    accepted;
/// 5. the likely full form of the reference of the sixth tier, as a range;
/// 6. the reference of the fourth tier without its region, any variants
///    accepted.
///
/// The third and the fifth tier run only if the table of likely subtags has the
/// likely form. Where the third tier does not run, its reference is the request,
/// and the later tiers go on from there.
pub open spec fn tier(requested: LocaleView, number: int) -> Tier {
    if number == 1 {
        Tier { reference: requested, as_range: false, variant_as_range: false, active: true }
    } else if number == 2 {
        Tier { reference: requested, as_range: true, variant_as_range: false, active: true }
    } else if number == 3 {
        Tier {
            reference: expanded(requested),
            as_range: true,
            variant_as_range: false,
            active: maximized(requested) is Some,
        }
    } else if number == 4 {
        Tier {
            reference: expanded(requested).without_variants(),
            as_range: true,
            variant_as_range: true,
            active: true,
        }
    } else if number == 5 {
        Tier {
            reference: expanded(stripped(requested)),
            as_range: true,
            variant_as_range: false,
            active: maximized(stripped(requested)) is Some,
        }
    } else {
        Tier {
            reference: stripped(requested),
            as_range: true,
            variant_as_range: true,
            active: true,
        }
    }
}

/// What one tier takes from the pool.
pub open spec fn run_tier(pool: Seq<Seq<char>>, tier: Tier, strategy: NegotiationStrategy) -> Scan {
    if tier.active {
        scan(
            pool,
            tier.reference,
            tier.as_range,
            tier.variant_as_range,
            strategy == NegotiationStrategy::Filtering,
        )
    } else {
        Scan { taken: Seq::empty(), left: pool }
    }
}

/// Whether a request is settled by what a tier took. Filtering never settles;
/// the other strategies settle at the first tag taken.
pub open spec fn settles(strategy: NegotiationStrategy, taken: Seq<Seq<char>>) -> bool {
    strategy != NegotiationStrategy::Filtering && taken.len() > 0
}

/// What the tiers from `number` on take from the pool for one request.
#[verifier::opaque]
pub open spec fn run_tiers(
    pool: Seq<Seq<char>>,
    requested: LocaleView,
    strategy: NegotiationStrategy,
    number: int,
) -> Scan
    decreases 7 - number,
{
    if number < 1 || number > 6 {
        Scan { taken: Seq::empty(), left: pool }
    } else {
        let here = run_tier(pool, tier(requested, number), strategy);
        if settles(strategy, here.taken) {
            here
        } else {
            let later = run_tiers(here.left, requested, strategy, number + 1);
            Scan { taken: here.taken + later.taken, left: later.left }
        }
    }
}

/// What one requested tag takes from the pool. An empty tag takes nothing.
pub open spec fn serve(pool: Seq<Seq<char>>, requested: Seq<char>, strategy: NegotiationStrategy) -> Scan {
    if requested.len() == 0 {
        Scan { taken: Seq::empty(), left: pool }
    } else {
        run_tiers(pool, reference_of(requested), strategy, 1)
    }
}

/// What a list of requested tags takes from the pool, in order of discovery.
/// With `Lookup`, the first request that takes anything ends the negotiation.
pub open spec fn serve_all(
    pool: Seq<Seq<char>>,
    requested: Seq<Seq<char>>,
    strategy: NegotiationStrategy,
) -> Seq<Seq<char>>
    decreases requested.len(),
{
    if requested.len() == 0 {
        Seq::empty()
    } else {
        let first = serve(pool, requested[0], strategy);
        if strategy == NegotiationStrategy::Lookup && first.taken.len() > 0 {
            first.taken
        } else {
            first.taken + serve_all(first.left, requested.drop_first(), strategy)
        }
    }
}

/// The pool that is left when every tag of a list has been served in turn.
pub open spec fn left_after(
    pool: Seq<Seq<char>>,
    requested: Seq<Seq<char>>,
    strategy: NegotiationStrategy,
) -> Seq<Seq<char>>
    decreases requested.len(),
{
    if requested.len() == 0 {
        pool
    } else {
        left_after(serve(pool, requested[0], strategy).left, requested.drop_first(), strategy)
    }
}

/// The pool at the start: the available tags that are well-formed, in the
/// order given.
pub open spec fn usable(available: Seq<Seq<char>>) -> Seq<Seq<char>> {
    available.filter(|tag: Seq<char>| is_tag(tag))
}

/// The supported tags: what the requested tags take from the available ones.
pub open spec fn supported_tags(
    requested: Seq<Seq<char>>,
    available: Seq<Seq<char>>,
    strategy: NegotiationStrategy,
) -> Seq<Seq<char>> {
    serve_all(usable(available), requested, strategy)
}

/// The supported tags with the default tag put in. `Lookup` takes the default
/// only when nothing is supported; the other strategies append it unless it is
/// among the supported tags already.
pub open spec fn with_default(
    supported: Seq<Seq<char>>,
    default: Option<Seq<char>>,
    strategy: NegotiationStrategy,
) -> Seq<Seq<char>> {
    match default {
        None => supported,
        Some(tag) => if strategy == NegotiationStrategy::Lookup {
            if supported.len() == 0 {
                seq![tag]
            } else {
                supported
            }
        } else if supported.contains(tag) {
            supported
        } else {
            supported.push(tag)
        },
    }
}

/// The outcome of a negotiation.
pub open spec fn negotiated(
    requested: Seq<Seq<char>>,
    available: Seq<Seq<char>>,
    default: Option<Seq<char>>,
    strategy: NegotiationStrategy,
) -> Seq<Seq<char>> {
    with_default(supported_tags(requested, available, strategy), default, strategy)
}

} // verus!
