//! What holds of every negotiation, proved from the model.

use crate::locale::grammar::is_tag;
use crate::locale::letter_case::{
    each_same_but_for_case, letter_case_is_not_significant, same_but_for_case,
};
use crate::locale::{reference_of, LocaleView};
use crate::negotiate::model::{
    left_after, negotiated, run_tier, run_tiers, satisfies, scan, serve, serve_all, settles,
    supported_tags, tier, usable, Scan,
};
use crate::negotiate::NegotiationStrategy;
use vstd::prelude::*;
use vstd::seq_lib::{lemma_multiset_commutative, to_multiset_contains, to_multiset_len};

verus! {

broadcast use {vstd::seq_lib::group_to_multiset_ensures, vstd::multiset::group_multiset_axioms};

/// A pass that takes every match divides the pool in two by the reference:
/// it takes the tags that satisfy it and leaves those that do not, each in
/// the order of the pool.
pub proof fn pass_for_every_match_divides_by_reference(
    pool: Seq<Seq<char>>,
    reference: LocaleView,
    as_range: bool,
    variant_as_range: bool,
)
    ensures
        scan(pool, reference, as_range, variant_as_range, true).taken == pool.filter(
            |tag: Seq<char>| satisfies(tag, reference, as_range, variant_as_range),
        ),
        scan(pool, reference, as_range, variant_as_range, true).left == pool.filter(
            |tag: Seq<char>| !satisfies(tag, reference, as_range, variant_as_range),
        ),
    decreases pool.len(),
{
    reveal(scan);
    reveal_with_fuel(Seq::filter, 2);
    let serves = |tag: Seq<char>| satisfies(tag, reference, as_range, variant_as_range);
    let fails = |tag: Seq<char>| !satisfies(tag, reference, as_range, variant_as_range);
    if pool.len() > 0 {
        let head = seq![pool[0]];
        let tail = pool.drop_first();
        pass_for_every_match_divides_by_reference(tail, reference, as_range, variant_as_range);
        assert(pool =~= head + tail);
        Seq::filter_distributes_over_add(head, tail, serves);
        Seq::filter_distributes_over_add(head, tail, fails);
        assert(head.drop_last() =~= Seq::<Seq<char>>::empty());
        assert(head.last() == pool[0]);
        if satisfies(pool[0], reference, as_range, variant_as_range) {
            assert(head.filter(serves) =~= head);
            assert(head.filter(fails) =~= Seq::<Seq<char>>::empty());
            assert(Seq::<Seq<char>>::empty() + tail.filter(fails) =~= tail.filter(fails));
        } else {
            assert(head.filter(fails) =~= head);
            assert(head.filter(serves) =~= Seq::<Seq<char>>::empty());
            assert(Seq::<Seq<char>>::empty() + tail.filter(serves) =~= tail.filter(serves));
        }
    }
}

/// A pass that takes one match takes the first tag of the pool that satisfies
/// the reference, and leaves the others as they stood.
pub proof fn pass_for_one_match_takes_the_first(
    pool: Seq<Seq<char>>,
    reference: LocaleView,
    as_range: bool,
    variant_as_range: bool,
    at: int,
)
    requires
        0 <= at < pool.len(),
        satisfies(pool[at], reference, as_range, variant_as_range),
        forall|i: int| 0 <= i < at ==> !satisfies(#[trigger] pool[i], reference, as_range, variant_as_range),
    ensures
        scan(pool, reference, as_range, variant_as_range, false) == (Scan {
            taken: seq![pool[at]],
            left: pool.remove(at),
        }),
    decreases pool.len(),
{
    reveal(scan);
    if at == 0 {
        assert(pool.drop_first() =~= pool.remove(0));
    } else {
        let tail = pool.drop_first();
        assert(tail[at - 1] == pool[at]);
        assert forall|i: int| 0 <= i < at - 1 implies !satisfies(
            #[trigger] tail[i],
            reference,
            as_range,
            variant_as_range,
        ) by {
            assert(tail[i] == pool[i + 1]);
        }
        pass_for_one_match_takes_the_first(tail, reference, as_range, variant_as_range, at - 1);
        assert(seq![pool[0]] + tail.remove(at - 1) =~= pool.remove(at));
    }
}

/// A pass over a pool in which no tag satisfies the reference takes nothing.
pub proof fn pass_without_match_takes_nothing(
    pool: Seq<Seq<char>>,
    reference: LocaleView,
    as_range: bool,
    variant_as_range: bool,
    every: bool,
)
    requires
        forall|i: int|
            0 <= i < pool.len() ==> !satisfies(
                #[trigger] pool[i],
                reference,
                as_range,
                variant_as_range,
            ),
    ensures
        scan(pool, reference, as_range, variant_as_range, every) == (Scan {
            taken: Seq::empty(),
            left: pool,
        }),
    decreases pool.len(),
{
    reveal(scan);
    if pool.len() == 0 {
        assert(pool =~= Seq::<Seq<char>>::empty());
    } else {
        let tail = pool.drop_first();
        assert forall|i: int| 0 <= i < tail.len() implies !satisfies(
            #[trigger] tail[i],
            reference,
            as_range,
            variant_as_range,
        ) by {
            assert(tail[i] == pool[i + 1]);
        }
        pass_without_match_takes_nothing(tail, reference, as_range, variant_as_range, every);
        assert(!satisfies(pool[0], reference, as_range, variant_as_range));
        assert(seq![pool[0]] + tail =~= pool);
    }
}

/// What a pass takes and what it leaves are together what the pool held. A
/// pass that may not take every match takes at most one tag, and a pass that
/// takes nothing leaves the pool as it was.
pub proof fn lemma_scan_divides(
    pool: Seq<Seq<char>>,
    reference: LocaleView,
    as_range: bool,
    variant_as_range: bool,
    every: bool,
)
    ensures
        ({
            let pass = scan(pool, reference, as_range, variant_as_range, every);
            &&& pass.taken.to_multiset().add(pass.left.to_multiset()) == pool.to_multiset()
            &&& !every ==> pass.taken.len() <= 1
            &&& pass.taken.len() == 0 ==> pass.left == pool
        }),
    decreases pool.len(),
{
    reveal(scan);
    let pass = scan(pool, reference, as_range, variant_as_range, every);
    if pool.len() == 0 {
        assert(pass.taken.to_multiset().add(pass.left.to_multiset()) =~= pool.to_multiset());
    } else {
        let head = seq![pool[0]];
        let tail = pool.drop_first();
        let rest = scan(tail, reference, as_range, variant_as_range, every);
        lemma_scan_divides(tail, reference, as_range, variant_as_range, every);
        assert(pool =~= head + tail);
        lemma_multiset_commutative(head, tail);
        if satisfies(pool[0], reference, as_range, variant_as_range) {
            if every {
                lemma_multiset_commutative(head, rest.taken);
                assert(pass.taken.to_multiset().add(pass.left.to_multiset())
                    =~= pool.to_multiset());
            } else {
                assert(pass.taken.to_multiset().add(pass.left.to_multiset())
                    =~= pool.to_multiset());
            }
        } else {
            lemma_multiset_commutative(head, rest.left);
            assert(pass.taken.to_multiset().add(pass.left.to_multiset()) =~= pool.to_multiset());
            if pass.taken.len() == 0 {
                assert(pass.left =~= pool);
            }
        }
    }
}

/// The same of the tiers from `number` on: they divide the pool, take at most
/// one tag unless the strategy is `Filtering`, and leave the pool as it was if
/// they take nothing.
pub proof fn lemma_tiers_divide(
    pool: Seq<Seq<char>>,
    requested: LocaleView,
    strategy: NegotiationStrategy,
    number: int,
)
    ensures
        ({
            let run = run_tiers(pool, requested, strategy, number);
            &&& run.taken.to_multiset().add(run.left.to_multiset()) == pool.to_multiset()
            &&& strategy != NegotiationStrategy::Filtering ==> run.taken.len() <= 1
            &&& run.taken.len() == 0 ==> run.left == pool
        }),
    decreases 7 - number,
{
    reveal(run_tiers);
    let run = run_tiers(pool, requested, strategy, number);
    let none = Seq::<Seq<char>>::empty();
    if number < 1 || number > 6 {
        assert(none.to_multiset().add(pool.to_multiset()) =~= pool.to_multiset());
    } else {
        let plan = tier(requested, number);
        let here = run_tier(pool, plan, strategy);
        if plan.active {
            lemma_scan_divides(
                pool,
                plan.reference,
                plan.as_range,
                plan.variant_as_range,
                strategy == NegotiationStrategy::Filtering,
            );
        } else {
            assert(none.to_multiset().add(pool.to_multiset()) =~= pool.to_multiset());
        }
        if !settles(strategy, here.taken) {
            let later = run_tiers(here.left, requested, strategy, number + 1);
            lemma_tiers_divide(here.left, requested, strategy, number + 1);
            lemma_multiset_commutative(here.taken, later.taken);
            assert(run.taken.to_multiset().add(run.left.to_multiset()) =~= pool.to_multiset());
            if strategy != NegotiationStrategy::Filtering {
                assert(here.taken.len() == 0);
                assert(run.taken =~= later.taken);
            }
        }
    }
}

/// One request divides the pool: what it takes and what it leaves are together
/// what the pool held. Under `Matching` and `Lookup` it takes at most one tag,
/// and a request that takes nothing leaves the pool as it was.
pub proof fn request_divides_pool(
    pool: Seq<Seq<char>>,
    requested: Seq<char>,
    strategy: NegotiationStrategy,
)
    ensures
        ({
            let served = serve(pool, requested, strategy);
            &&& served.taken.to_multiset().add(served.left.to_multiset()) == pool.to_multiset()
            &&& strategy != NegotiationStrategy::Filtering ==> served.taken.len() <= 1
            &&& served.taken.len() == 0 ==> served.left == pool
        }),
{
    if requested.len() == 0 {
        assert(Seq::<Seq<char>>::empty().to_multiset().add(pool.to_multiset())
            =~= pool.to_multiset());
    } else {
        lemma_tiers_divide(pool, reference_of(requested), strategy, 1);
    }
}

/// Under `Matching` and `Lookup`, the first tier that takes a tag for a
/// request is the only one: it takes one tag, and the tiers after it do not
/// run for that request.
pub proof fn one_tier_serves_a_request(
    pool: Seq<Seq<char>>,
    requested: LocaleView,
    strategy: NegotiationStrategy,
    number: int,
)
    requires
        strategy != NegotiationStrategy::Filtering,
        1 <= number <= 6,
        run_tier(pool, tier(requested, number), strategy).taken.len() > 0,
    ensures
        run_tiers(pool, requested, strategy, number) == run_tier(
            pool,
            tier(requested, number),
            strategy,
        ),
        run_tiers(pool, requested, strategy, number).taken.len() == 1,
{
    reveal(run_tiers);
    let plan = tier(requested, number);
    lemma_scan_divides(pool, plan.reference, plan.as_range, plan.variant_as_range, false);
}

/// What the requested tags take is within the pool: no tag is taken more often
/// than the pool holds it.
pub proof fn lemma_served_within_pool(
    pool: Seq<Seq<char>>,
    requested: Seq<Seq<char>>,
    strategy: NegotiationStrategy,
)
    ensures
        serve_all(pool, requested, strategy).to_multiset().subset_of(pool.to_multiset()),
    decreases requested.len(),
{
    if requested.len() > 0 {
        let first = serve(pool, requested[0], strategy);
        request_divides_pool(pool, requested[0], strategy);
        if !(strategy == NegotiationStrategy::Lookup && first.taken.len() > 0) {
            let later = serve_all(first.left, requested.drop_first(), strategy);
            lemma_served_within_pool(first.left, requested.drop_first(), strategy);
            lemma_multiset_commutative(first.taken, later);
        }
    }
}

/// The pool at the start is within the available tags.
pub proof fn lemma_usable_within_available(available: Seq<Seq<char>>)
    ensures
        usable(available).to_multiset().subset_of(available.to_multiset()),
    decreases available.len(),
{
    reveal(Seq::filter);
    if available.len() > 0 {
        lemma_usable_within_available(available.drop_last());
        assert(available =~= available.drop_last().push(available.last()));
    }
}

/// Every supported tag comes from the available tags, and no tag is supported
/// more often than the available tags hold it.
pub proof fn supported_within_available(
    requested: Seq<Seq<char>>,
    available: Seq<Seq<char>>,
    strategy: NegotiationStrategy,
)
    ensures
        supported_tags(requested, available, strategy).to_multiset().subset_of(
            available.to_multiset(),
        ),
        forall|tag: Seq<char>|
            supported_tags(requested, available, strategy).contains(tag) ==> available.contains(
                tag,
            ),
{
    lemma_usable_within_available(available);
    lemma_served_within_pool(usable(available), requested, strategy);
    let supported = supported_tags(requested, available, strategy);
    assert forall|tag: Seq<char>| supported.contains(tag) implies available.contains(tag) by {
        to_multiset_contains(supported, tag);
        to_multiset_contains(available, tag);
        assert(supported.to_multiset().count(tag) <= usable(available).to_multiset().count(tag));
        assert(usable(available).to_multiset().count(tag) <= available.to_multiset().count(tag));
    }
}

/// Every tag of the outcome is an available tag or the default tag.
pub proof fn outcome_from_available_or_default(
    requested: Seq<Seq<char>>,
    available: Seq<Seq<char>>,
    default: Option<Seq<char>>,
    strategy: NegotiationStrategy,
    tag: Seq<char>,
)
    requires
        negotiated(requested, available, default, strategy).contains(tag),
    ensures
        available.contains(tag) || default == Some(tag),
{
    supported_within_available(requested, available, strategy);
    let supported = supported_tags(requested, available, strategy);
    let outcome = negotiated(requested, available, default, strategy);
    let i = choose|i: int| 0 <= i < outcome.len() && outcome[i] == tag;
    if outcome != supported {
        if i < supported.len() {
            assert(supported[i] == tag);
        }
    }
}

/// Where no available tag occurs twice, no tag occurs twice in the outcome:
/// an available tag serves at most one request, and the default tag is not
/// put in a second time.
pub proof fn outcome_has_no_duplicates(
    requested: Seq<Seq<char>>,
    available: Seq<Seq<char>>,
    default: Option<Seq<char>>,
    strategy: NegotiationStrategy,
)
    requires
        available.no_duplicates(),
    ensures
        negotiated(requested, available, default, strategy).no_duplicates(),
{
    let supported = supported_tags(requested, available, strategy);
    supported_within_available(requested, available, strategy);
    available.lemma_multiset_has_no_duplicates();
    assert forall|tag: Seq<char>| supported.to_multiset().contains(tag) implies supported
        .to_multiset().count(tag) == 1 by {
        assert(supported.to_multiset().count(tag) <= available.to_multiset().count(tag));
        assert(available.to_multiset().contains(tag));
    }
    supported.lemma_multiset_has_no_duplicates_conv();
}

/// A well-formed tag that is requested and available is the outcome, under
/// every strategy.
pub proof fn requested_tag_serves_itself(tag: Seq<char>, strategy: NegotiationStrategy)
    requires
        is_tag(tag),
    ensures
        negotiated(seq![tag], seq![tag], None, strategy) == seq![tag],
{
    let pool = seq![tag];
    let none = Seq::<Seq<char>>::empty();
    let wanted = reference_of(tag);
    assert(usable(pool) =~= pool) by {
        reveal_with_fuel(Seq::filter, 2);
        assert(pool.drop_last() =~= none);
        assert(usable(none) =~= none);
    }
    assert(tag.len() > 0) by {
        crate::locale::parser::lemma_split_tag_len(tag);
    }
    let first = run_tier(pool, tier(wanted, 1), strategy);
    assert(first == (Scan { taken: pool, left: none })) by {
        reveal_with_fuel(scan, 2);
        assert(satisfies(tag, wanted, false, false));
        assert(pool.drop_first() =~= none);
        assert(seq![pool[0]] + none =~= pool);
    }
    lemma_tiers_take_nothing_from_nothing(wanted, strategy, 2);
    assert(run_tiers(pool, wanted, strategy, 1) == (Scan { taken: pool, left: none })) by {
        reveal(run_tiers);
        assert(pool + none =~= pool);
    }
    assert(serve_all(pool, seq![tag], strategy) =~= pool) by {
        assert(seq![tag].drop_first() =~= none);
        assert(serve_all(none, none, strategy) =~= none);
        assert(pool + none =~= pool);
    }
}

/// From an empty pool nothing is taken.
pub proof fn lemma_tiers_take_nothing_from_nothing(
    requested: LocaleView,
    strategy: NegotiationStrategy,
    number: int,
)
    ensures
        run_tiers(Seq::empty(), requested, strategy, number) == (Scan {
            taken: Seq::empty(),
            left: Seq::empty(),
        }),
{
    let none = Seq::<Seq<char>>::empty();
    let run = run_tiers(none, requested, strategy, number);
    lemma_tiers_divide(none, requested, strategy, number);
    lemma_multiset_commutative(run.taken, run.left);
    to_multiset_len(run.taken + run.left);
    to_multiset_len(none);
    assert((run.taken + run.left).len() == 0);
    assert(run.taken =~= none);
    assert(run.left =~= none);
}

/// Under `Lookup`, at most one tag is taken from a pool.
pub proof fn lemma_lookup_takes_at_most_one(pool: Seq<Seq<char>>, requested: Seq<Seq<char>>)
    ensures
        serve_all(pool, requested, NegotiationStrategy::Lookup).len() <= 1,
    decreases requested.len(),
{
    let strategy = NegotiationStrategy::Lookup;
    if requested.len() > 0 {
        let first = serve(pool, requested[0], strategy);
        request_divides_pool(pool, requested[0], strategy);
        lemma_lookup_takes_at_most_one(first.left, requested.drop_first());
    }
}

/// The outcome of `Lookup` is at most one tag: one available tag, or else the
/// default tag.
pub proof fn lookup_gives_at_most_one_tag(
    requested: Seq<Seq<char>>,
    available: Seq<Seq<char>>,
    default: Option<Seq<char>>,
)
    ensures
        negotiated(requested, available, default, NegotiationStrategy::Lookup).len() <= 1,
        supported_tags(requested, available, NegotiationStrategy::Lookup).len() <= 1,
{
    lemma_lookup_takes_at_most_one(usable(available), requested);
}

/// Under `Matching`, no more tags are taken from a pool than are requested.
pub proof fn lemma_matching_takes_at_most_one_each(
    pool: Seq<Seq<char>>,
    requested: Seq<Seq<char>>,
)
    ensures
        serve_all(pool, requested, NegotiationStrategy::Matching).len() <= requested.len(),
    decreases requested.len(),
{
    let strategy = NegotiationStrategy::Matching;
    if requested.len() > 0 {
        let first = serve(pool, requested[0], strategy);
        request_divides_pool(pool, requested[0], strategy);
        lemma_matching_takes_at_most_one_each(first.left, requested.drop_first());
    }
}

/// `Matching` supports at most one available tag for each requested tag.
pub proof fn matching_supports_at_most_one_each(
    requested: Seq<Seq<char>>,
    available: Seq<Seq<char>>,
)
    ensures
        supported_tags(requested, available, NegotiationStrategy::Matching).len()
            <= requested.len(),
{
    lemma_matching_takes_at_most_one_each(usable(available), requested);
}

/// Under `Lookup`, once the requested tags so far have taken a tag from the
/// pool, the requested tags that follow take nothing.
pub proof fn lemma_lookup_stops_at_first_match(
    pool: Seq<Seq<char>>,
    served: Seq<Seq<char>>,
    following: Seq<Seq<char>>,
)
    requires
        serve_all(pool, served, NegotiationStrategy::Lookup).len() > 0,
    ensures
        serve_all(pool, served + following, NegotiationStrategy::Lookup) == serve_all(
            pool,
            served,
            NegotiationStrategy::Lookup,
        ),
    decreases served.len(),
{
    let strategy = NegotiationStrategy::Lookup;
    let none = Seq::<Seq<char>>::empty();
    if served.len() > 0 {
        let all = served + following;
        let first = serve(pool, served[0], strategy);
        assert(all[0] == served[0]);
        assert(all.drop_first() =~= served.drop_first() + following);
        if first.taken.len() == 0 {
            assert(none + serve_all(first.left, served.drop_first(), strategy) =~= serve_all(
                first.left,
                served.drop_first(),
                strategy,
            ));
            lemma_lookup_stops_at_first_match(first.left, served.drop_first(), following);
        }
    }
}

/// Under `Lookup`, once the requested tags so far are served by an available
/// tag, the requested tags that follow are not looked at: the outcome is what
/// it is without them.
pub proof fn lookup_stops_at_first_match(
    served: Seq<Seq<char>>,
    following: Seq<Seq<char>>,
    available: Seq<Seq<char>>,
    default: Option<Seq<char>>,
)
    requires
        supported_tags(served, available, NegotiationStrategy::Lookup).len() > 0,
    ensures
        negotiated(served + following, available, default, NegotiationStrategy::Lookup)
            == negotiated(served, available, default, NegotiationStrategy::Lookup),
{
    lemma_lookup_stops_at_first_match(usable(available), served, following);
}

/// A requested tag that takes nothing from the pool changes nothing for the
/// requested tags around it.
pub proof fn lemma_idle_request_changes_nothing(
    pool: Seq<Seq<char>>,
    before: Seq<Seq<char>>,
    idle: Seq<char>,
    after: Seq<Seq<char>>,
    strategy: NegotiationStrategy,
)
    requires
        serve(left_after(pool, before, strategy), idle, strategy).taken.len() == 0,
    ensures
        serve_all(pool, before + seq![idle] + after, strategy) == serve_all(
            pool,
            before + after,
            strategy,
        ),
    decreases before.len(),
{
    let with = before + seq![idle] + after;
    let without = before + after;
    let none = Seq::<Seq<char>>::empty();
    if before.len() == 0 {
        request_divides_pool(pool, idle, strategy);
        assert(with[0] == idle);
        assert(with.drop_first() =~= after);
        assert(without =~= after);
        assert(none + serve_all(pool, after, strategy) =~= serve_all(pool, after, strategy));
    } else {
        let first = serve(pool, before[0], strategy);
        assert(with[0] == before[0]);
        assert(without[0] == before[0]);
        assert(with.drop_first() =~= before.drop_first() + seq![idle] + after);
        assert(without.drop_first() =~= before.drop_first() + after);
        lemma_idle_request_changes_nothing(first.left, before.drop_first(), idle, after, strategy);
    }
}

/// A requested tag that no available tag serves, in any tier, changes nothing:
/// the outcome is the same as without it.
pub proof fn unserved_request_changes_nothing(
    before: Seq<Seq<char>>,
    unserved: Seq<char>,
    after: Seq<Seq<char>>,
    available: Seq<Seq<char>>,
    default: Option<Seq<char>>,
    strategy: NegotiationStrategy,
)
    requires
        serve(left_after(usable(available), before, strategy), unserved, strategy).taken.len()
            == 0,
    ensures
        negotiated(before + seq![unserved] + after, available, default, strategy) == negotiated(
            before + after,
            available,
            default,
            strategy,
        ),
{
    lemma_idle_request_changes_nothing(usable(available), before, unserved, after, strategy);
}

/// An empty requested tag changes nothing: the outcome is the same as
/// without it.
pub proof fn empty_request_changes_nothing(
    before: Seq<Seq<char>>,
    after: Seq<Seq<char>>,
    available: Seq<Seq<char>>,
    default: Option<Seq<char>>,
    strategy: NegotiationStrategy,
)
    ensures
        negotiated(before + seq![Seq::<char>::empty()] + after, available, default, strategy)
            == negotiated(before + after, available, default, strategy),
{
    unserved_request_changes_nothing(
        before,
        Seq::<char>::empty(),
        after,
        available,
        default,
        strategy,
    );
}

/// The letter case of a requested tag is not significant for what it takes.
pub proof fn lemma_case_of_request_is_not_significant(
    pool: Seq<Seq<char>>,
    requested: Seq<char>,
    respelled: Seq<char>,
    strategy: NegotiationStrategy,
)
    requires
        same_but_for_case(requested, respelled),
    ensures
        serve(pool, requested, strategy) == serve(pool, respelled, strategy),
{
    letter_case_is_not_significant(requested, respelled);
}

/// The letter case of the requested tags is not significant for what they
/// take from a pool.
pub proof fn lemma_case_of_requests_is_not_significant(
    pool: Seq<Seq<char>>,
    requested: Seq<Seq<char>>,
    respelled: Seq<Seq<char>>,
    strategy: NegotiationStrategy,
)
    requires
        each_same_but_for_case(requested, respelled),
    ensures
        serve_all(pool, requested, strategy) == serve_all(pool, respelled, strategy),
    decreases requested.len(),
{
    if requested.len() > 0 {
        assert(same_but_for_case(requested[0], respelled[0]));
        lemma_case_of_request_is_not_significant(pool, requested[0], respelled[0], strategy);
        let first = serve(pool, requested[0], strategy);
        assert(each_same_but_for_case(requested.drop_first(), respelled.drop_first())) by {
            assert forall|i: int| 0 <= i < requested.len() - 1 implies same_but_for_case(
                #[trigger] requested.drop_first()[i],
                respelled.drop_first()[i],
            ) by {
                assert(same_but_for_case(requested[i + 1], respelled[i + 1]));
            }
        }
        lemma_case_of_requests_is_not_significant(
            first.left,
            requested.drop_first(),
            respelled.drop_first(),
            strategy,
        );
    }
}

/// The letter case of the requested tags is not significant: requested tags
/// that are spelled in another case give the same outcome.
pub proof fn case_of_requested_tags_is_not_significant(
    requested: Seq<Seq<char>>,
    respelled: Seq<Seq<char>>,
    available: Seq<Seq<char>>,
    default: Option<Seq<char>>,
    strategy: NegotiationStrategy,
)
    requires
        each_same_but_for_case(requested, respelled),
    ensures
        negotiated(requested, available, default, strategy) == negotiated(
            respelled,
            available,
            default,
            strategy,
        ),
{
    lemma_case_of_requests_is_not_significant(usable(available), requested, respelled, strategy);
}

/// Available tags that are not well-formed count for nothing: the outcome is
/// the same as without them.
pub proof fn malformed_available_tags_are_ignored(
    requested: Seq<Seq<char>>,
    available: Seq<Seq<char>>,
    default: Option<Seq<char>>,
    strategy: NegotiationStrategy,
)
    ensures
        negotiated(requested, available, default, strategy) == negotiated(
            requested,
            usable(available),
            default,
            strategy,
        ),
{
    lemma_usable_twice(available);
}

/// The well-formed tags among the well-formed tags are all of them.
pub proof fn lemma_usable_twice(available: Seq<Seq<char>>)
    ensures
        usable(usable(available)) == usable(available),
        forall|i: int| 0 <= i < usable(available).len() ==> is_tag(#[trigger] usable(available)[i]),
    decreases available.len(),
{
    reveal(Seq::filter);
    if available.len() > 0 {
        let init = available.drop_last();
        lemma_usable_twice(init);
        if is_tag(available.last()) {
            let kept = usable(init).push(available.last());
            assert(kept.drop_last() =~= usable(init));
            assert(kept.last() == available.last());
        }
    }
}

} // verus!
