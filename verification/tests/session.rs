use echocard::models::{Card, MemoryState};
use echocard::session::{NextIntervals, ReviewSession};
use echocard::EngineError;

const DAY: i64 = 86_400;

fn fresh_card(card_id: u32, created_at: i64) -> Card {
    Card::new(card_id, 1, 1, vec!["front".to_string(), "back".to_string()], created_at)
}

fn retention_bits(r: f32) -> u32 {
    r.to_bits()
}

#[test]
fn preview_with_default_parameters_matches_the_model() {
    // With the model's default parameters, no memory state, desired
    // retention 0.9 and zero elapsed days, the model projects intervals
    // (0.212, 1.2931, 2.3065, 8.2956), which round to (1, 1, 2, 8).
    let mut session = ReviewSession::new();
    let card = fresh_card(1, 1_700_000_000);
    let intervals = session
        .preview(card, &Vec::new(), retention_bits(0.9), 1_700_000_000)
        .unwrap();
    assert_eq!(intervals, NextIntervals { again: 1, hard: 1, good: 2, easy: 8 });
    assert!(session.pending.is_some());
}

#[test]
fn commit_without_preview_fails_and_changes_nothing() {
    let mut session = ReviewSession::new();
    let r = session.commit(3, 1_700_000_000);
    assert_eq!(r.unwrap_err(), EngineError::NoPendingPreview);
    assert!(session.pending.is_none());
}

#[test]
fn commit_with_invalid_rating_keeps_the_preview() {
    let t0 = 1_700_000_000;
    let mut session = ReviewSession::new();
    session.preview(fresh_card(1, t0), &Vec::new(), retention_bits(0.9), t0).unwrap();

    let r = session.commit(0, t0);
    assert_eq!(r.unwrap_err(), EngineError::InvalidRating);
    assert!(session.pending.is_some());

    let r = session.commit(5, t0);
    assert_eq!(r.unwrap_err(), EngineError::InvalidRating);
    assert!(session.pending.is_some());

    // The intact preview still commits.
    let update = session.commit(3, t0).unwrap();
    assert_eq!(update.card.card_id, 1);
    assert!(session.pending.is_none());
}

#[test]
fn first_review_schedules_from_the_commit_instant() {
    // A fresh card previewed and committed with rating "good" becomes due
    // the previewed number of whole days after the commit instant.
    let t0 = 1_700_000_000;
    let mut session = ReviewSession::new();
    let intervals = session
        .preview(fresh_card(9, t0), &Vec::new(), retention_bits(0.9), t0)
        .unwrap();
    let update = session.commit(3, t0).unwrap();

    assert_eq!(update.card.scheduled_days, intervals.good);
    assert_eq!(update.card.due, t0 + (intervals.good as i64) * DAY);
    assert_eq!(update.card.last_review, Some(t0));
    assert!(update.card.memory_state.is_some());
    assert_eq!(update.review.card_id, 9);
    assert_eq!(update.review.review_date, t0);
    assert_eq!(update.review.rating, 3);
    assert!(session.pending.is_none());
}

#[test]
fn repeat_review_schedules_from_the_previous_review() {
    let t0 = 1_700_000_000;
    let t1 = t0 + 2 * DAY;
    let memory = MemoryState { stability_bits: 2.3065f32.to_bits(), difficulty_bits: 5.0f32.to_bits() };
    let card = Card {
        card_id: 4,
        deck_id: 1,
        template_id: 1,
        template_fields_content: Vec::new(),
        due: t0 + 2 * DAY,
        memory_state: Some(memory),
        scheduled_days: 2,
        last_review: Some(t0),
    };
    let mut session = ReviewSession::new();
    let intervals = session.preview(card, &Vec::new(), retention_bits(0.9), t1).unwrap();
    let update = session.commit(4, t1).unwrap();

    assert_eq!(update.card.scheduled_days, intervals.easy);
    // The base is the card's previous review, not the commit instant.
    assert_eq!(update.card.due, t0 + (intervals.easy as i64) * DAY);
    assert_eq!(update.card.last_review, Some(t1));
}

#[test]
fn a_later_preview_overwrites_the_earlier_one() {
    let t0 = 1_700_000_000;
    let mut session = ReviewSession::new();
    session.preview(fresh_card(1, t0), &Vec::new(), retention_bits(0.9), t0).unwrap();
    session.preview(fresh_card(2, t0), &Vec::new(), retention_bits(0.9), t0).unwrap();
    let update = session.commit(3, t0).unwrap();
    assert_eq!(update.card.card_id, 2);
}

#[test]
fn preview_with_invalid_parameters_fails_and_stores_nothing() {
    // A parameter vector of the right length but with a non-finite entry
    // is rejected by the model.
    let t0 = 1_700_000_000;
    let mut bad_params = vec![0.5f32.to_bits(); 18];
    bad_params.push(f32::NAN.to_bits());
    let mut session = ReviewSession::new();
    let r = session.preview(fresh_card(1, t0), &bad_params, retention_bits(0.9), t0);
    assert_eq!(r.unwrap_err(), EngineError::OracleComputationFailed);
    assert!(session.pending.is_none());
}

#[test]
fn preview_accepts_a_nineteen_entry_parameter_vector() {
    // The engine stores nineteen parameters; the model accepts that
    // length and fills its newer entries itself.
    let t0 = 1_700_000_000;
    let params: Vec<u32> = [
        0.212f32, 1.2931, 2.3065, 8.2956, 6.4133, 0.8334, 3.0194, 0.001, 1.8722, 0.1666, 0.796,
        1.4835, 0.0614, 0.2629, 1.6483, 0.6014, 1.8729, 0.5425, 0.0912,
    ]
    .iter()
    .map(|x| x.to_bits())
    .collect();
    assert_eq!(params.len(), 19);
    let mut session = ReviewSession::new();
    let intervals = session.preview(fresh_card(1, t0), &params, retention_bits(0.9), t0).unwrap();
    assert!(intervals.again >= 1 && intervals.hard >= 1 && intervals.good >= 1 && intervals.easy >= 1);
}

#[test]
fn preview_success_depends_only_on_its_inputs() {
    // Acceptance is a function of the arguments: identical previews agree
    // on whether they succeed.
    let t0 = 1_700_000_000;
    let mut bad_params = vec![0.5f32.to_bits(); 18];
    bad_params.push(f32::INFINITY.to_bits());
    let mut session = ReviewSession::new();
    assert!(session.preview(fresh_card(1, t0), &bad_params, retention_bits(0.9), t0).is_err());
    assert!(session.preview(fresh_card(1, t0), &bad_params, retention_bits(0.9), t0).is_err());
    assert!(session.preview(fresh_card(1, t0), &Vec::new(), retention_bits(0.9), t0).is_ok());
    assert!(session.preview(fresh_card(1, t0), &Vec::new(), retention_bits(0.9), t0).is_ok());
}
