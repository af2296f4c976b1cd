use echocard::models::Review;
use echocard::trainer::{build_training_set, retrain, sort_reviews};
use echocard::EngineError;

const DAY: i64 = 86_400;

fn review(card_id: u32, day: i64, rating: u32) -> Review {
    Review { card_id, review_date: day * DAY, rating }
}

#[test]
fn sort_orders_by_card_then_instant_stably() {
    let log = vec![
        review(2, 5, 3),
        review(1, 7, 2),
        review(1, 3, 4),
        review(2, 5, 1),
    ];
    let sorted = sort_reviews(&log);
    let keys: Vec<(u32, i64, u32)> =
        sorted.iter().map(|r| (r.card_id, r.review_date / DAY, r.rating)).collect();
    // The two same-instant reviews of card 2 keep their input order.
    assert_eq!(keys, vec![(1, 3, 4), (1, 7, 2), (2, 5, 3), (2, 5, 1)]);
}

#[test]
fn a_single_review_makes_no_case() {
    let log = vec![review(1, 10, 3)];
    assert!(build_training_set(&log).is_empty());
}

#[test]
fn same_day_histories_make_no_case() {
    // Two reviews on the same day: no long-term step anywhere.
    let log = vec![review(1, 10, 1), review(1, 10, 3)];
    assert!(build_training_set(&log).is_empty());
}

#[test]
fn prefixes_qualify_once_a_long_term_step_appears() {
    // Reviews on days 10, 10 and 11: only the full history contains a
    // step of a whole day or more.
    let log = vec![review(1, 10, 1), review(1, 10, 3), review(1, 11, 4)];
    let items = build_training_set(&log);
    assert_eq!(items.len(), 1);
    let steps: Vec<(u32, u32)> = items[0].steps.iter().map(|s| (s.rating, s.delta_t)).collect();
    assert_eq!(steps, vec![(1, 0), (3, 0), (4, 1)]);
}

#[test]
fn every_growing_prefix_after_the_first_long_term_step_is_a_case() {
    let log = vec![review(1, 10, 3), review(1, 13, 2), review(1, 20, 4)];
    let items = build_training_set(&log);
    assert_eq!(items.len(), 2);
    let first: Vec<(u32, u32)> = items[0].steps.iter().map(|s| (s.rating, s.delta_t)).collect();
    let second: Vec<(u32, u32)> = items[1].steps.iter().map(|s| (s.rating, s.delta_t)).collect();
    assert_eq!(first, vec![(3, 0), (2, 3)]);
    assert_eq!(second, vec![(3, 0), (2, 3), (4, 7)]);
}

#[test]
fn groups_are_per_card_even_from_an_interleaved_log() {
    let log = vec![
        review(2, 10, 3),
        review(1, 10, 3),
        review(2, 12, 2),
        review(1, 11, 1),
    ];
    let items = build_training_set(&log);
    assert_eq!(items.len(), 2);
    let first: Vec<(u32, u32)> = items[0].steps.iter().map(|s| (s.rating, s.delta_t)).collect();
    let second: Vec<(u32, u32)> = items[1].steps.iter().map(|s| (s.rating, s.delta_t)).collect();
    // Card 1's group comes first in card-id order.
    assert_eq!(first, vec![(3, 0), (1, 1)]);
    assert_eq!(second, vec![(3, 0), (2, 2)]);
}

fn sparse_log() -> Vec<Review> {
    // Four cards with two reviews each: four training cases, below the
    // floor of ten.
    let mut log = Vec::new();
    for card in 1..=4u32 {
        log.push(review(card, 10, 3));
        log.push(review(card, 13, 3));
    }
    log
}

#[test]
fn retrain_below_the_floor_returns_current_parameters_unchanged() {
    let current: Vec<u32> = (0..19u32).map(|i| (0.1f32 * i as f32).to_bits()).collect();
    let log = sparse_log();
    assert_eq!(build_training_set(&log).len(), 4);
    let result = retrain(&log, &current).unwrap();
    assert_eq!(result, current);
}

#[test]
fn retrain_with_an_empty_log_returns_current_parameters_unchanged() {
    let current: Vec<u32> = vec![1.0f32.to_bits(); 19];
    let result = retrain(&Vec::new(), &current).unwrap();
    assert_eq!(result, current);
}

fn dense_log() -> Vec<Review> {
    // Ten cards, each contributing one qualifying case with varied
    // ratings and spacings.
    let mut log = Vec::new();
    for card in 1..=10u32 {
        let rating = 1 + (card % 4);
        log.push(review(card, 10, rating));
        log.push(review(card, 10 + 1 + (card as i64 % 5), 3));
    }
    log
}

#[test]
fn retrain_above_the_floor_invokes_the_optimizer() {
    let current: Vec<u32> = vec![0.5f32.to_bits(); 19];
    let log = dense_log();
    assert!(build_training_set(&log).len() >= 10);
    match retrain(&log, &current) {
        Ok(fitted) => {
            // The optimizer's vector has the model's 21 entries and is a
            // fresh fit, not the stored parameters handed back.
            assert_eq!(fitted.len(), 21);
            assert_ne!(fitted[..19], current[..]);
        },
        Err(e) => assert_eq!(e, EngineError::OracleComputationFailed),
    }
}

#[test]
fn retrain_surfaces_an_oracle_rejection() {
    // Ratings outside 1..=4 reach the optimizer, which rejects the
    // training set.
    let mut log = Vec::new();
    for card in 1..=10u32 {
        log.push(review(card, 10, 0));
        log.push(review(card, 12, 0));
    }
    assert!(build_training_set(&log).len() >= 10);
    let current: Vec<u32> = vec![0.5f32.to_bits(); 19];
    assert_eq!(retrain(&log, &current).unwrap_err(), EngineError::OracleComputationFailed);
}

#[test]
fn same_day_only_logs_never_reach_the_optimizer() {
    // Many cards, each with two same-day reviews: no history carries a
    // long-term step, so no case qualifies and the current parameters
    // come back unchanged — the optimizer, whose outlier pass aborts on
    // such histories, is never handed them.
    let mut log = Vec::new();
    for card in 1..=12u32 {
        log.push(review(card, 10, 1));
        log.push(review(card, 10, 3));
    }
    assert!(build_training_set(&log).is_empty());
    let current: Vec<u32> = vec![0.5f32.to_bits(); 19];
    assert_eq!(retrain(&log, &current).unwrap(), current);
}
