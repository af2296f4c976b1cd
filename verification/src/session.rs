//! The two-phase review protocol: preview the four candidate outcomes,
//! then commit one of them.
//!
//! `preview` asks the memory-model oracle for the four candidate next
//! states of a card and holds them, with the card, as the one pending
//! preview; a later `preview` overwrites an uncommitted one (last preview
//! wins, no queueing).  `commit` applies the candidate selected by the
//! rating: it produces the updated card and the review event for the
//! store to persist, and clears the pending preview.  The session object
//! is an explicit value owned by the embedding layer; nothing here is
//! process-wide.

use vstd::prelude::*;

use crate::calendar::{elapsed_days, spec_elapsed_days};
use crate::interval::{interval_days, spec_interval_days};
use crate::models::{Card, MemoryState, Review};
use crate::{EngineError, MAX_INSTANT, SECS_PER_DAY};

verus! {

/// One candidate outcome of a review: the projected memory state and the
/// continuous interval, as `f32` bit patterns.
#[derive(Debug, Clone, Copy, PartialEq, Eq, Structural)]
pub struct Candidate {
    pub interval_bits: u32,
    pub stability_bits: u32,
    pub difficulty_bits: u32,
}

/// One candidate outcome as the oracle boundary reports it: the interval,
/// stability and difficulty bit patterns.
pub type RawCandidate = (u32, u32, u32);

/// The four raw candidates, in rating order: again, hard, good, easy.
pub type RawStates = (RawCandidate, RawCandidate, RawCandidate, RawCandidate);

/// A memory state as the pair of its bit patterns.
pub open spec fn state_bits(state: Option<MemoryState>) -> Option<(u32, u32)> {
    match state {
        Option::Some(m) => Option::Some((m.stability_bits, m.difficulty_bits)),
        Option::None => Option::None,
    }
}

/// The candidate a raw triple denotes.
pub open spec fn candidate_from(raw: RawCandidate) -> Candidate {
    Candidate { interval_bits: raw.0, stability_bits: raw.1, difficulty_bits: raw.2 }
}

/// The candidate set a raw quadruple denotes.
pub open spec fn states_from(raw: RawStates) -> CandidateStates {
    CandidateStates {
        again: candidate_from(raw.0),
        hard: candidate_from(raw.1),
        good: candidate_from(raw.2),
        easy: candidate_from(raw.3),
    }
}

/// The four candidate outcomes, one per rating.
#[derive(Debug, Clone, Copy, PartialEq, Eq, Structural)]
pub struct CandidateStates {
    pub again: Candidate,
    pub hard: Candidate,
    pub good: Candidate,
    pub easy: Candidate,
}

/// What the memory-model oracle projects for the given parameters,
/// desired retention, memory state and elapsed days.  The projection is a
/// pure function of these arguments, so its result bears a name the
/// contracts below share.
pub uninterp spec fn oracle_next_states(
    params: Seq<u32>,
    retention_bits: u32,
    state: Option<(u32, u32)>,
    elapsed_days: u32,
) -> CandidateStates;

/// Whether the memory-model oracle accepts these arguments and yields a
/// projection.  Acceptance, too, is a pure function of the arguments: the
/// oracle rejects exactly the parameter vectors of the wrong length or
/// with non-finite entries, and inputs whose projected states come out
/// non-finite.  Naming it makes success owed: two previews of one card
/// under one parameter store agree on whether they succeed.
pub uninterp spec fn oracle_accepts(
    params: Seq<u32>,
    retention_bits: u32,
    state: Option<(u32, u32)>,
    elapsed_days: u32,
) -> bool;

/// Relies on `fsrs::FSRS::new` and `fsrs::FSRS::next_states`: the
/// projection of the four candidate next states, a deterministic
/// computation from the parameters, desired retention, current memory
/// state and elapsed days alone — as is whether the pair of calls
/// succeeds at all.  Scalars cross the boundary as bit patterns, cast
/// bitwise (`bytemuck::cast`) on the way in and taken apart with
/// `to_bits` on the way out.
#[verifier::external_body]
fn oracle_states(
    params: &Vec<u32>,
    retention_bits: u32,
    state: Option<(u32, u32)>,
    elapsed_days: u32,
) -> (r: Result<RawStates, EngineError>)
    ensures
        r is Ok <==> oracle_accepts(params@, retention_bits, state, elapsed_days),
        r matches Ok(raw) ==> states_from(raw) == oracle_next_states(
            params@,
            retention_bits,
            state,
            elapsed_days,
        ),
        r matches Err(e) ==> e == EngineError::OracleComputationFailed,
{
    let p: Vec<_> = params.iter().map(|b| bytemuck::cast(*b)).collect();
    let m = state.map(|s| fsrs::MemoryState { stability: bytemuck::cast(s.0), difficulty: bytemuck::cast(s.1) });
    let c = |s: fsrs::ItemState| (s.interval.to_bits(), s.memory.stability.to_bits(), s.memory.difficulty.to_bits());
    match fsrs::FSRS::new(&p).and_then(|f| f.next_states(m, bytemuck::cast(retention_bits), elapsed_days)) {
        Ok(n) => Ok((c(n.again), c(n.hard), c(n.good), c(n.easy))),
        Err(_) => Err(EngineError::OracleComputationFailed),
    }
}

/// The candidate set carried by a raw oracle answer.
fn assemble_states(raw: RawStates) -> (states: CandidateStates)
    ensures
        states == states_from(raw),
{
    CandidateStates {
        again: Candidate { interval_bits: raw.0.0, stability_bits: raw.0.1, difficulty_bits: raw.0.2 },
        hard: Candidate { interval_bits: raw.1.0, stability_bits: raw.1.1, difficulty_bits: raw.1.2 },
        good: Candidate { interval_bits: raw.2.0, stability_bits: raw.2.1, difficulty_bits: raw.2.2 },
        easy: Candidate { interval_bits: raw.3.0, stability_bits: raw.3.1, difficulty_bits: raw.3.2 },
    }
}

/// The whole-day intervals previewed for the four ratings.
#[derive(Debug, Clone, Copy, PartialEq, Eq, Structural)]
pub struct NextIntervals {
    pub again: u32,
    pub hard: u32,
    pub good: u32,
    pub easy: u32,
}

/// The rounding policy applied to each candidate's interval.
pub open spec fn spec_intervals_of(states: CandidateStates) -> NextIntervals {
    NextIntervals {
        again: spec_interval_days(states.again.interval_bits),
        hard: spec_interval_days(states.hard.interval_bits),
        good: spec_interval_days(states.good.interval_bits),
        easy: spec_interval_days(states.easy.interval_bits),
    }
}

/// The candidate a rating selects: 1 again, 2 hard, 3 good, 4 easy.
pub open spec fn spec_candidate_for(states: CandidateStates, rating: u32) -> Candidate {
    if rating == 1 {
        states.again
    } else if rating == 2 {
        states.hard
    } else if rating == 3 {
        states.good
    } else {
        states.easy
    }
}

/// An uncommitted preview: the card it was computed for and its four
/// candidate outcomes.
#[derive(Debug)]
pub struct PendingPreview {
    pub card: Card,
    pub states: CandidateStates,
}

/// The card as `commit` rewrites it: the selected candidate's memory
/// state and day count applied, the last review set to `now`, and the
/// card next due the scheduled number of days after its previous review
/// (or after `now`, for a card never reviewed before).
pub open spec fn spec_committed_card(card: Card, states: CandidateStates, rating: u32, now: i64) -> Card {
    let cand = spec_candidate_for(states, rating);
    let days = spec_interval_days(cand.interval_bits);
    let base: int = match card.last_review {
        Option::Some(lr) => lr as int,
        Option::None => now as int,
    };
    Card {
        due: (base + days * (SECS_PER_DAY as int)) as i64,
        memory_state: Option::Some(
            MemoryState { stability_bits: cand.stability_bits, difficulty_bits: cand.difficulty_bits },
        ),
        scheduled_days: days,
        last_review: Option::Some(now),
        ..card
    }
}

/// A review session: at most one pending preview at a time, consumed by
/// the next commit or overwritten by the next preview.
#[derive(Debug)]
pub struct ReviewSession {
    pub pending: Option<PendingPreview>,
}

impl ReviewSession {
    /// The session invariant: a pending preview holds a well-formed card.
    pub open spec fn wf(self) -> bool {
        match self.pending {
            Option::Some(p) => p.card.wf(),
            Option::None => true,
        }
    }

    /// A fresh session with nothing previewed.
    pub fn new() -> (session: ReviewSession)
        ensures
            session.pending is None,
            session.wf(),
    {
        ReviewSession { pending: Option::None }
    }

    /// The preview phase: asks the oracle for the card's four candidate
    /// next states — with zero elapsed days for a card never reviewed —
    /// stores them as the pending preview, overwriting any uncommitted
    /// one, and reports each candidate interval rounded to whole days.
    /// On oracle failure nothing changes.
    pub fn preview(
        &mut self,
        card: Card,
        params: &Vec<u32>,
        retention_bits: u32,
        now: i64,
    ) -> (r: Result<NextIntervals, EngineError>)
        requires
            old(self).wf(),
            card.wf(),
            0 <= now <= MAX_INSTANT,
        ensures
            final(self).wf(),
            r is Ok <==> oracle_accepts(
                params@,
                retention_bits,
                state_bits(card.memory_state),
                spec_elapsed_days(now as int, card.last_review) as u32,
            ),
            ({
                let states = oracle_next_states(
                    params@,
                    retention_bits,
                    state_bits(card.memory_state),
                    spec_elapsed_days(now as int, card.last_review) as u32,
                );
                &&& (r matches Ok(intervals) ==> {
                    &&& intervals == spec_intervals_of(states)
                    &&& final(self).pending == Option::Some(PendingPreview { card, states })
                })
                &&& (r matches Err(e) ==> {
                    &&& e == EngineError::OracleComputationFailed
                    &&& final(self).pending == old(self).pending
                })
            }),
    {
        let elapsed = elapsed_days(now, card.last_review);
        let mbits = match card.memory_state {
            Option::Some(m) => Option::Some((m.stability_bits, m.difficulty_bits)),
            Option::None => Option::None,
        };
        let states = match oracle_states(params, retention_bits, mbits, elapsed) {
            Result::Ok(raw) => assemble_states(raw),
            Result::Err(e) => {
                return Result::Err(e);
            },
        };
        let intervals = NextIntervals {
            again: interval_days(states.again.interval_bits),
            hard: interval_days(states.hard.interval_bits),
            good: interval_days(states.good.interval_bits),
            easy: interval_days(states.easy.interval_bits),
        };
        self.pending = Option::Some(PendingPreview { card, states });
        Result::Ok(intervals)
    }

    /// The commit phase: applies the rating's candidate from the pending
    /// preview and clears it.  With no pending preview it fails and
    /// changes nothing; with a rating outside 1..=4 it fails, leaves the
    /// pending preview intact, and produces no update.
    pub fn commit(&mut self, rating: u32, now: i64) -> (r: Result<ReviewUpdate, EngineError>)
        requires
            old(self).wf(),
            0 <= now <= MAX_INSTANT,
        ensures
            final(self).wf(),
            old(self).pending is None ==> {
                &&& r matches Err(e) && e == EngineError::NoPendingPreview
                &&& *final(self) == *old(self)
            },
            old(self).pending is Some && !(1 <= rating <= 4) ==> {
                &&& r matches Err(e) && e == EngineError::InvalidRating
                &&& *final(self) == *old(self)
            },
            old(self).pending matches Some(p) ==> 1 <= rating <= 4 ==> {
                &&& final(self).pending is None
                &&& r matches Ok(update) && update == (ReviewUpdate {
                    card: spec_committed_card(p.card, p.states, rating, now),
                    review: Review { card_id: p.card.card_id, review_date: now, rating },
                }) && update.card.wf()
            },
    {
        let p = match self.pending.take() {
            Option::Some(p) => p,
            Option::None => {
                return Result::Err(EngineError::NoPendingPreview);
            },
        };
        if rating < 1 || rating > 4 {
            self.pending = Option::Some(p);
            return Result::Err(EngineError::InvalidRating);
        }
        let cand = if rating == 1 {
            p.states.again
        } else if rating == 2 {
            p.states.hard
        } else if rating == 3 {
            p.states.good
        } else {
            p.states.easy
        };
        let days = interval_days(cand.interval_bits);
        let base = match p.card.last_review {
            Option::Some(lr) => lr,
            Option::None => now,
        };
        let due = base + (days as i64) * SECS_PER_DAY;
        let card_id = p.card.card_id;
        let card = Card {
            card_id,
            deck_id: p.card.deck_id,
            template_id: p.card.template_id,
            template_fields_content: p.card.template_fields_content,
            due,
            memory_state: Option::Some(
                MemoryState {
                    stability_bits: cand.stability_bits,
                    difficulty_bits: cand.difficulty_bits,
                },
            ),
            scheduled_days: days,
            last_review: Option::Some(now),
        };
        let review = Review { card_id, review_date: now, rating };
        Result::Ok(ReviewUpdate { card, review })
    }
}

/// The outcome of a committed review: the rewritten card to persist and
/// the review event to append to the log.
#[derive(Debug)]
pub struct ReviewUpdate {
    pub card: Card,
    pub review: Review,
}

/// What committing a valid rating does to the card, spelled out: the
/// scheduled day count is the previewed interval of that rating after
/// rounding, the last review becomes the commit instant, the memory
/// state becomes the selected candidate's, and the card is next due the
/// scheduled number of days after its previous review (or after the
/// commit instant, for a card reviewed for the first time).
pub proof fn lemma_commit_applies_previewed_interval(
    card: Card,
    states: CandidateStates,
    rating: u32,
    now: i64,
)
    requires
        card.wf(),
        0 <= now <= MAX_INSTANT,
        1 <= rating <= 4,
    ensures
        ({
            let committed = spec_committed_card(card, states, rating, now);
            let days = spec_interval_days(spec_candidate_for(states, rating).interval_bits);
            let base: int = match card.last_review {
                Option::Some(lr) => lr as int,
                Option::None => now as int,
            };
            &&& committed.scheduled_days == days
            &&& days == if rating == 1 {
                spec_intervals_of(states).again
            } else if rating == 2 {
                spec_intervals_of(states).hard
            } else if rating == 3 {
                spec_intervals_of(states).good
            } else {
                spec_intervals_of(states).easy
            }
            &&& committed.due == base + days * (SECS_PER_DAY as int)
            &&& committed.last_review == Option::Some(now)
            &&& committed.memory_state == Option::Some(
                MemoryState {
                    stability_bits: spec_candidate_for(states, rating).stability_bits,
                    difficulty_bits: spec_candidate_for(states, rating).difficulty_bits,
                },
            )
        }),
{
}

} // verus!
