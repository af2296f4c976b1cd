//! The parameter-training pipeline: from the raw review log to the
//! oracle's training set, gated on data sufficiency.
//!
//! The log is sorted by card and instant (stably), grouped by card, and
//! each card's chronological run of reviews becomes a growing history of
//! `(rating, whole days since the previous review)` steps.  Every growing
//! prefix that contains at least one long-term review — one reached after
//! a whole day or more — is one training case.  With fewer than
//! [`crate::MIN_TRAINING_CASES`] cases the trainer returns the current
//! parameters unchanged and never invokes the oracle's optimizer.

use vstd::prelude::*;
use vstd::arithmetic::div_mod::lemma_div_is_ordered;
use vstd::seq_lib::group_to_multiset_ensures;

use crate::calendar::{day_of_timestamp, spec_day_number};
use crate::models::Review;
use crate::sorting::{
    lemma_ordered_insert_sorted, lemma_ordered_insert_splice, lemma_stable_sorted_ensures,
    sorted_le, stable_sorted, strict_total_preorder,
};
use crate::{copy_vec, EngineError, MIN_TRAINING_CASES, TRAINED_PARAM_LEN};

verus! {

/// One step of a training history: the rating given and the whole days
/// since the card's previous review (zero for the first review).
#[derive(Debug, Clone, Copy, PartialEq, Eq, Structural)]
pub struct TrainingStep {
    pub rating: u32,
    pub delta_t: u32,
}

/// One training case: a growing review history of a single card.
#[derive(Debug)]
pub struct TrainingItem {
    pub steps: Vec<TrainingStep>,
}

/// Strict order on review events: ascending card id, then ascending
/// instant.
pub open spec fn spec_review_lt(a: Review, b: Review) -> bool {
    a.card_id < b.card_id || (a.card_id == b.card_id && a.review_date < b.review_date)
}

/// The review-log order as a function value, for the sorting
/// specifications.
pub open spec fn review_order() -> spec_fn(Review, Review) -> bool {
    |a: Review, b: Review| spec_review_lt(a, b)
}

pub proof fn lemma_review_order_strict()
    ensures
        strict_total_preorder(review_order()),
{
}

/// The step history of one card's chronological review group: each
/// review's rating, with the whole days elapsed since the previous one.
pub open spec fn group_steps(group: Seq<Review>) -> Seq<TrainingStep> {
    Seq::new(
        group.len(),
        |i: int|
            TrainingStep {
                rating: group[i].rating,
                delta_t: if i == 0 {
                    0u32
                } else {
                    (spec_day_number(group[i].review_date as int) - spec_day_number(
                        group[i - 1].review_date as int,
                    )) as u32
                },
            },
    )
}

/// Whether a history contains a long-term review: one reached after at
/// least one whole day.
pub open spec fn has_long_term(steps: Seq<TrainingStep>) -> bool {
    exists|i: int| 0 <= i < steps.len() && steps[i].delta_t > 0
}

/// The long-term test as a predicate value.
pub open spec fn long_term_pred() -> spec_fn(Seq<TrainingStep>) -> bool {
    |h: Seq<TrainingStep>| has_long_term(h)
}

/// The training cases one card's group contributes: every growing prefix
/// of its step history that contains a long-term review.  A group of
/// fewer than two reviews contributes none.
pub open spec fn group_cases(group: Seq<Review>) -> Seq<Seq<TrainingStep>> {
    if group.len() < 2 {
        Seq::empty()
    } else {
        Seq::new(group.len(), |i: int| group_steps(group).take(i + 1)).filter(long_term_pred())
    }
}

/// One left-to-right pass over the sorted log: `group` is the run of
/// equal-card reviews gathered so far; a new card closes it and starts
/// the next run.
pub open spec fn cases_walk(s: Seq<Review>, group: Seq<Review>) -> Seq<Seq<TrainingStep>>
    decreases s.len(),
{
    if s.len() == 0 {
        group_cases(group)
    } else if group.len() == 0 || s[0].card_id == group[0].card_id {
        cases_walk(s.drop_first(), group.push(s[0]))
    } else {
        group_cases(group) + cases_walk(s.drop_first(), seq![s[0]])
    }
}

/// The full training set assembled from a review log: the log stably
/// sorted by card id and instant, grouped by card, each group reduced to
/// its qualifying history prefixes.
pub open spec fn spec_training_set(reviews: Seq<Review>) -> Seq<Seq<TrainingStep>> {
    cases_walk(stable_sorted(reviews, review_order()), Seq::empty())
}

/// The step histories carried by a sequence of training items.
pub open spec fn item_views(items: Seq<TrainingItem>) -> Seq<Seq<TrainingStep>> {
    items.map_values(|it: TrainingItem| it.steps@)
}

fn review_lt(a: &Review, b: &Review) -> (r: bool)
    ensures
        r == spec_review_lt(*a, *b),
{
    a.card_id < b.card_id || (a.card_id == b.card_id && a.review_date < b.review_date)
}

/// Sorts a review log by card id, then instant, stably.
pub fn sort_reviews(reviews: &Vec<Review>) -> (sorted: Vec<Review>)
    ensures
        sorted@ == stable_sorted(reviews@, review_order()),
{
    let mut out: Vec<Review> = Vec::new();
    let mut i: usize = 0;
    proof {
        lemma_review_order_strict();
        assert(reviews@.take(0) =~= Seq::<Review>::empty());
    }
    while i < reviews.len()
        invariant
            0 <= i <= reviews@.len(),
            out@ == stable_sorted(reviews@.take(i as int), review_order()),
            sorted_le(out@, review_order()),
            strict_total_preorder(review_order()),
        decreases reviews@.len() - i,
    {
        let x = reviews[i];
        let mut pos: usize = out.len();
        while pos > 0 && review_lt(&x, &out[pos - 1])
            invariant
                pos <= out.len(),
                forall|j: int| pos <= j < out@.len() ==> spec_review_lt(x, out@[j]),
            decreases pos,
        {
            pos -= 1;
        }
        proof {
            lemma_ordered_insert_splice(out@, x, review_order(), pos as int);
            lemma_ordered_insert_sorted(out@, x, review_order());
            assert(reviews@.take(i + 1).drop_last() =~= reviews@.take(i as int));
            assert(reviews@.take(i + 1).last() == reviews@[i as int]);
        }
        out.insert(pos, x);
        i += 1;
    }
    proof {
        assert(reviews@.take(reviews@.len() as int) =~= reviews@);
    }
    out
}

/// Appends the training cases of one card's chronological group.
fn push_group_cases(group: &Vec<Review>, items: &mut Vec<TrainingItem>)
    requires
        forall|k: int| 0 <= k < group@.len() ==> (#[trigger] group@[k]).wf(),
        forall|k: int, l: int|
            0 <= k < l < group@.len() ==> group@[k].review_date <= group@[l].review_date,
    ensures
        item_views(final(items)@) == item_views(old(items)@) + group_cases(group@),
{
    if group.len() < 2 {
        proof {
            assert(item_views(items@) =~= item_views(items@) + group_cases(group@));
        }
        return ;
    }
    let ghost gsteps = group_steps(group@);
    let ghost prefixes = Seq::new(group@.len(), |i: int| gsteps.take(i + 1));
    let mut steps: Vec<TrainingStep> = Vec::new();
    let mut has_lt = false;
    let mut prev_day: i64 = 0;
    let mut j: usize = 0;
    proof {
        assert(gsteps.take(0) =~= Seq::<TrainingStep>::empty());
        assert(prefixes.take(0).filter(long_term_pred()) =~= Seq::<Seq<TrainingStep>>::empty());
        assert(item_views(items@) =~= item_views(items@) + prefixes.take(0).filter(
            long_term_pred(),
        ));
    }
    while j < group.len()
        invariant
            0 <= j <= group@.len(),
            2 <= group@.len(),
            forall|k: int| 0 <= k < group@.len() ==> (#[trigger] group@[k]).wf(),
            forall|k: int, l: int|
                0 <= k < l < group@.len() ==> group@[k].review_date <= group@[l].review_date,
            gsteps == group_steps(group@),
            prefixes == Seq::new(group@.len(), |i: int| gsteps.take(i + 1)),
            steps@ == gsteps.take(j as int),
            has_lt == has_long_term(steps@),
            j > 0 ==> prev_day == spec_day_number(group@[j - 1].review_date as int),
            item_views(items@) == item_views(old(items)@) + prefixes.take(j as int).filter(
                long_term_pred(),
            ),
        decreases group@.len() - j,
    {
        let r = &group[j];
        let day = day_of_timestamp(r.review_date);
        let delta: u32 = if j == 0 {
            0
        } else {
            proof {
                lemma_div_is_ordered(
                    group@[j - 1].review_date as int,
                    group@[j as int].review_date as int,
                    86400,
                );
                lemma_div_is_ordered(0, group@[j - 1].review_date as int, 86400);
                lemma_div_is_ordered(
                    group@[j as int].review_date as int,
                    crate::MAX_INSTANT as int,
                    86400,
                );
            }
            (day - prev_day) as u32
        };
        let step = TrainingStep { rating: r.rating, delta_t: delta };
        steps.push(step);
        if delta > 0 {
            has_lt = true;
        }
        proof {
            assert(gsteps[j as int] == step);
            assert(gsteps.take(j + 1) =~= gsteps.take(j as int).push(step));
            if delta > 0 {
                assert(gsteps.take(j + 1)[j as int].delta_t > 0);
                assert(has_long_term(gsteps.take(j + 1)));
            } else {
                assert(has_long_term(gsteps.take(j + 1)) == has_long_term(gsteps.take(j as int)))
                    by {
                    if has_long_term(gsteps.take(j as int)) {
                        let w = choose|w: int|
                            0 <= w < j && #[trigger] gsteps.take(j as int)[w].delta_t > 0;
                        assert(gsteps.take(j + 1)[w].delta_t > 0);
                    }
                    if has_long_term(gsteps.take(j + 1)) {
                        let w = choose|w: int|
                            0 <= w < j + 1 && #[trigger] gsteps.take(j + 1)[w].delta_t > 0;
                        assert(w < j);
                        assert(gsteps.take(j as int)[w].delta_t > 0);
                    }
                }
            }
        }
        let ghost items_before = items@;
        if has_lt {
            let case = TrainingItem { steps: copy_vec(&steps) };
            items.push(case);
        }
        proof {
            assert(prefixes.take(j + 1) =~= prefixes.take(j as int).push(prefixes[j as int]));
            prefixes.take(j as int).lemma_filter_push(prefixes[j as int], long_term_pred());
            assert(prefixes[j as int] == steps@);
            if has_lt {
                assert(item_views(items@) =~= item_views(items_before).push(steps@));
            }
            assert(item_views(items@) =~= item_views(old(items)@) + prefixes.take(j + 1).filter(
                long_term_pred(),
            ));
        }
        prev_day = day;
        j += 1;
    }
    proof {
        assert(prefixes.take(group@.len() as int) =~= prefixes);
        assert(group_cases(group@) == prefixes.filter(long_term_pred()));
    }
}

/// Every case the walk records passed the long-term filter: it contains
/// a step of a whole day or more.
proof fn lemma_cases_walk_long_term(s: Seq<Review>, group: Seq<Review>, i: int)
    requires
        0 <= i < cases_walk(s, group).len(),
    ensures
        has_long_term(cases_walk(s, group)[i]),
    decreases s.len(),
{
    broadcast use vstd::seq_lib::group_filter_ensures;

    if s.len() == 0 {
        let prefixes = Seq::new(group.len(), |j: int| group_steps(group).take(j + 1));
        assert(long_term_pred()(prefixes.filter(long_term_pred())[i]));
    } else if group.len() == 0 || s[0].card_id == group[0].card_id {
        lemma_cases_walk_long_term(s.drop_first(), group.push(s[0]), i);
    } else {
        let gc = group_cases(group);
        if i < gc.len() {
            let prefixes = Seq::new(group.len(), |j: int| group_steps(group).take(j + 1));
            assert(long_term_pred()(prefixes.filter(long_term_pred())[i]));
            assert(cases_walk(s, group)[i] == gc[i]);
        } else {
            lemma_cases_walk_long_term(s.drop_first(), seq![s[0]], i - gc.len());
            assert(cases_walk(s, group)[i] == cases_walk(s.drop_first(), seq![s[0]])[i
                - gc.len()]);
        }
    }
}

/// Assembles the training set from the raw review log: the log is sorted
/// stably by card id and instant, grouped by card, and each group
/// contributes every growing history prefix that contains a long-term
/// review — so every assembled case carries a long-term step.
pub fn build_training_set(reviews: &Vec<Review>) -> (items: Vec<TrainingItem>)
    requires
        forall|k: int| 0 <= k < reviews@.len() ==> (#[trigger] reviews@[k]).wf(),
    ensures
        item_views(items@) == spec_training_set(reviews@),
        forall|i: int| 0 <= i < items@.len() ==> has_long_term((#[trigger] items@[i]).steps@),
{
    let sorted = sort_reviews(reviews);
    proof {
        lemma_review_order_strict();
        lemma_stable_sorted_ensures(reviews@, review_order());
        broadcast use group_to_multiset_ensures;

        assert forall|k: int| 0 <= k < sorted@.len() implies (#[trigger] sorted@[k]).wf() by {
            assert(sorted@.contains(sorted@[k]));
            assert(sorted@.to_multiset().count(sorted@[k]) > 0);
            assert(reviews@.to_multiset().count(sorted@[k]) > 0);
            assert(reviews@.contains(sorted@[k]));
            let m = choose|m: int| 0 <= m < reviews@.len() && reviews@[m] == sorted@[k];
            assert(reviews@[m].wf());
        }
    }
    let mut items: Vec<TrainingItem> = Vec::new();
    let mut group: Vec<Review> = Vec::new();
    let ghost mut gstart: int = 0;
    let mut i: usize = 0;
    proof {
        assert(sorted@.skip(0) =~= sorted@);
        assert(sorted@.subrange(0, 0) =~= Seq::<Review>::empty());
        assert(item_views(items@) =~= Seq::<Seq<TrainingStep>>::empty());
    }
    while i < sorted.len()
        invariant
            0 <= gstart <= i <= sorted@.len(),
            sorted_le(sorted@, review_order()),
            forall|k: int| 0 <= k < sorted@.len() ==> (#[trigger] sorted@[k]).wf(),
            group@ == sorted@.subrange(gstart, i as int),
            forall|k: int| gstart <= k < i ==> sorted@[k].card_id == sorted@[gstart].card_id,
            item_views(items@) + cases_walk(sorted@.skip(i as int), group@) == cases_walk(
                sorted@,
                Seq::empty(),
            ),
        decreases sorted@.len() - i,
    {
        let r = sorted[i];
        proof {
            broadcast use vstd::seq_lib::group_seq_properties;

            assert(sorted@.skip(i as int)[0] == sorted@[i as int]);
            assert(sorted@.skip(i as int).drop_first() =~= sorted@.skip(i + 1));
        }
        if group.len() == 0 || r.card_id == group[0].card_id {
            proof {
                assert(cases_walk(sorted@.skip(i as int), group@) == cases_walk(
                    sorted@.skip(i + 1),
                    group@.push(r),
                ));
            }
            group.push(r);
            proof {
                assert(group@ =~= sorted@.subrange(gstart, i + 1));
            }
        } else {
            let ghost old_group = group@;
            let ghost old_views = item_views(items@);
            proof {
                assert forall|k: int, l: int|
                    0 <= k < l < group@.len() implies group@[k].review_date
                    <= group@[l].review_date by {
                    assert(group@[k] == sorted@[gstart + k]);
                    assert(group@[l] == sorted@[gstart + l]);
                    assert(!spec_review_lt(sorted@[gstart + l], sorted@[gstart + k]));
                    assert(sorted@[gstart + k].card_id == sorted@[gstart + l].card_id);
                }
                assert(cases_walk(sorted@.skip(i as int), old_group) == group_cases(old_group)
                    + cases_walk(sorted@.skip(i + 1), seq![r]));
            }
            push_group_cases(&group, &mut items);
            group.clear();
            group.push(r);
            proof {
                gstart = i as int;
                assert(group@ =~= seq![r]);
                assert(group@ =~= sorted@.subrange(gstart, i + 1));
                assert((old_views + group_cases(old_group)) + cases_walk(
                    sorted@.skip(i + 1),
                    group@,
                ) =~= old_views + (group_cases(old_group) + cases_walk(
                    sorted@.skip(i + 1),
                    group@,
                )));
            }
        }
        i += 1;
    }
    proof {
        assert(sorted@.skip(sorted@.len() as int) =~= Seq::<Review>::empty());
        assert(cases_walk(Seq::empty(), group@) == group_cases(group@));
        assert forall|k: int, l: int| 0 <= k < l < group@.len() implies group@[k].review_date
            <= group@[l].review_date by {
            assert(group@[k] == sorted@[gstart + k]);
            assert(group@[l] == sorted@[gstart + l]);
            assert(!spec_review_lt(sorted@[gstart + l], sorted@[gstart + k]));
            assert(sorted@[gstart + k].card_id == sorted@[gstart + l].card_id);
        }
    }
    push_group_cases(&group, &mut items);
    proof {
        assert forall|k: int| 0 <= k < items@.len() implies has_long_term(
            (#[trigger] items@[k]).steps@,
        ) by {
            assert(item_views(items@)[k] == items@[k].steps@);
            lemma_cases_walk_long_term(
                stable_sorted(reviews@, review_order()),
                Seq::empty(),
                k,
            );
        }
    }
    items
}

/// Relies on `fsrs::compute_parameters`: fits the memory model's
/// parameters to the training set; on success the vector has the model's
/// 21 entries.  The result is handed back as `f32` bit patterns.  The
/// optimizer's outlier pass takes each item's first long-term review and
/// aborts on an item that has none, so only histories carrying a
/// long-term step are admitted here; every case the trainer assembles
/// does, having passed the same filter.
#[verifier::external_body]
fn oracle_optimize(train: Vec<TrainingItem>) -> (r: Result<Vec<u32>, EngineError>)
    requires
        forall|i: int| 0 <= i < train@.len() ==> has_long_term((#[trigger] train@[i]).steps@),
    ensures
        r matches Ok(v) ==> v@.len() == TRAINED_PARAM_LEN,
        r matches Err(e) ==> e == EngineError::OracleComputationFailed,
{
    let ts: Vec<_> = train.into_iter().map(|i| fsrs::FSRSItem { reviews: i.steps.iter().map(|s| fsrs::FSRSReview { rating: s.rating, delta_t: s.delta_t }).collect() }).collect();
    let input = fsrs::ComputeParametersInput { train_set: ts, card_ids: None, progress: None, enable_short_term: true, num_relearning_steps: None, training_config: None };
    match fsrs::compute_parameters(input) {
        Ok(params) => Ok(params.iter().map(|p| p.to_bits()).collect()),
        Err(_) => Err(EngineError::OracleComputationFailed),
    }
}

/// Retrains the oracle parameters from the review log.  With fewer than
/// [`MIN_TRAINING_CASES`] qualifying cases the current parameters come
/// back unchanged and the optimizer is never invoked; otherwise the
/// optimizer's fitted vector is returned, or its failure is surfaced.
pub fn retrain(reviews: &Vec<Review>, current_params: &Vec<u32>) -> (r: Result<
    Vec<u32>,
    EngineError,
>)
    requires
        forall|k: int| 0 <= k < reviews@.len() ==> (#[trigger] reviews@[k]).wf(),
    ensures
        spec_training_set(reviews@).len() < MIN_TRAINING_CASES ==> (r matches Ok(v) && v@
            == current_params@),
        spec_training_set(reviews@).len() >= MIN_TRAINING_CASES ==> {
            &&& (r matches Ok(v) ==> v@.len() == TRAINED_PARAM_LEN)
            &&& (r matches Err(e) ==> e == EngineError::OracleComputationFailed)
        },
{
    let items = build_training_set(reviews);
    proof {
        assert(item_views(items@).len() == items@.len());
    }
    if items.len() < MIN_TRAINING_CASES {
        return Result::Ok(copy_vec(current_params));
    }
    oracle_optimize(items)
}

} // verus!
