use echocard::calendar::today_boundary;
use echocard::classify::{
    bucket, count_in_deck, count_learned_today, decks_with_counts, due_page, filter_cards,
    sort_cards, Bucket,
};
use echocard::models::{Card, Deck};

const DAY: i64 = 86_400;

fn card(card_id: u32, deck_id: u32, due: i64, last_review: Option<i64>) -> Card {
    Card {
        card_id,
        deck_id,
        template_id: 1,
        template_fields_content: Vec::new(),
        due,
        memory_state: None,
        scheduled_days: 0,
        last_review,
    }
}

fn card_t(card_id: u32, deck_id: u32, template_id: u32, due: i64) -> Card {
    Card { template_id, ..card(card_id, deck_id, due, None) }
}

#[test]
fn bucket_new_iff_never_reviewed() {
    let now = 40 * DAY + 100;
    let b = today_boundary(now, 0);
    assert_eq!(bucket(&card(1, 1, now + 30 * DAY, None), &b), Bucket::New);
    assert_eq!(bucket(&card(1, 1, 0, None), &b), Bucket::New);
}

#[test]
fn bucket_learning_needs_review_and_due_today() {
    let now = 40 * DAY + 100;
    let b = today_boundary(now, 0);
    assert_eq!(bucket(&card(1, 1, now + 60, Some(now - 60)), &b), Bucket::Learning);
    // Reviewed today but due tomorrow: no stage.
    assert_eq!(bucket(&card(1, 1, now + DAY, Some(now - 60)), &b), Bucket::Unclassified);
}

#[test]
fn bucket_toreview_needs_older_review_and_due_by_today() {
    let now = 40 * DAY + 100;
    let b = today_boundary(now, 0);
    assert_eq!(bucket(&card(1, 1, now, Some(now - 3 * DAY)), &b), Bucket::ToReview);
    assert_eq!(bucket(&card(1, 1, b.end, Some(b.start - 1)), &b), Bucket::ToReview);
    // Old review but due after today: no stage.
    assert_eq!(bucket(&card(1, 1, now + 2 * DAY, Some(now - 3 * DAY)), &b), Bucket::Unclassified);
}

#[test]
fn sort_orders_by_due_then_id_stably() {
    let cards = vec![
        card(3, 1, 200, None),
        card(1, 1, 100, None),
        card(2, 1, 200, None),
        card(4, 1, 100, None),
    ];
    let sorted = sort_cards(cards);
    let keys: Vec<(i64, u32)> = sorted.iter().map(|c| (c.due, c.card_id)).collect();
    assert_eq!(keys, vec![(100, 1), (100, 4), (200, 2), (200, 3)]);
}

#[test]
fn unconstrained_filter_returns_all_sorted_by_due() {
    let now = 40 * DAY + 100;
    let b = today_boundary(now, 0);
    let cards = vec![
        card(2, 1, 300, None),
        card(1, 2, 100, Some(now - DAY)),
        card(3, 1, 100, None),
    ];
    let result = filter_cards(cards, &Vec::new(), &Vec::new(), 0, &b);
    let ids: Vec<u32> = result.iter().map(|c| c.card_id).collect();
    assert_eq!(ids, vec![1, 3, 2]);
}

#[test]
fn filter_selects_stages_by_mask_bits() {
    let now = 40 * DAY + 100;
    let b = today_boundary(now, 0);
    let new_card = card(1, 1, now, None);
    let learning_card = card(2, 1, now + 60, Some(now - 60));
    let toreview_card = card(3, 1, now, Some(now - 3 * DAY));
    let no_stage_card = card(4, 1, now + 5 * DAY, Some(now - 3 * DAY));

    let all = vec![new_card, learning_card, toreview_card, no_stage_card];
    let only_new = filter_cards(all, &Vec::new(), &Vec::new(), 1, &b);
    assert_eq!(only_new.iter().map(|c| c.card_id).collect::<Vec<_>>(), vec![1]);

    let all = vec![
        card(1, 1, now, None),
        card(2, 1, now + 60, Some(now - 60)),
        card(3, 1, now, Some(now - 3 * DAY)),
        card(4, 1, now + 5 * DAY, Some(now - 3 * DAY)),
    ];
    let learning_or_toreview = filter_cards(all, &Vec::new(), &Vec::new(), 6, &b);
    assert_eq!(learning_or_toreview.iter().map(|c| c.card_id).collect::<Vec<_>>(), vec![3, 2]);
}

#[test]
fn filter_intersects_template_and_deck_sets() {
    let now = 40 * DAY + 100;
    let b = today_boundary(now, 0);
    let cards = vec![
        card_t(1, 1, 10, 100),
        card_t(2, 1, 11, 101),
        card_t(3, 2, 10, 102),
        card_t(4, 2, 11, 103),
    ];
    let result = filter_cards(cards, &vec![10], &vec![2], 0, &b);
    assert_eq!(result.iter().map(|c| c.card_id).collect::<Vec<_>>(), vec![3]);
}

#[test]
fn due_page_takes_the_earliest_due_cards_of_the_deck() {
    let now = 40 * DAY + 100;
    let b = today_boundary(now, 0);
    let cards = vec![
        card(1, 1, now - 50, None),
        card(2, 1, now - 200, None),
        card(3, 1, b.end + 1, None),
        card(4, 2, now - 300, None),
        card(5, 1, now - 100, None),
    ];
    let page = due_page(cards, 1, 2, &b);
    assert_eq!(page.iter().map(|c| c.card_id).collect::<Vec<_>>(), vec![2, 5]);
}

#[test]
fn deck_counts_follow_the_stages() {
    // Two new cards, one in learning, two to review.
    let now = 40 * DAY + 100;
    let b = today_boundary(now, 0);
    let cards = vec![
        card(1, 7, now, None),
        card(2, 7, now + 10 * DAY, None),
        card(3, 7, now + 60, Some(now - 60)),
        card(4, 7, now, Some(now - 3 * DAY)),
        card(5, 7, b.end, Some(b.start - DAY)),
    ];
    let decks = vec![Deck { deck_id: 7, deck_name: "D".to_string(), tolearn: 0, learning: 0, toreview: 0 }];
    let counted = decks_with_counts(decks, &cards, &b);
    assert_eq!(counted.len(), 1);
    assert_eq!(counted[0].deck_id, 7);
    assert_eq!(counted[0].deck_name, "D");
    assert_eq!(counted[0].tolearn, 2);
    assert_eq!(counted[0].learning, 1);
    assert_eq!(counted[0].toreview, 2);
}

#[test]
fn counts_ignore_other_decks() {
    let now = 40 * DAY + 100;
    let b = today_boundary(now, 0);
    let cards = vec![card(1, 7, now, None), card(2, 8, now, None)];
    let decks = vec![
        Deck { deck_id: 7, deck_name: "a".to_string(), tolearn: 0, learning: 0, toreview: 0 },
        Deck { deck_id: 8, deck_name: "b".to_string(), tolearn: 0, learning: 0, toreview: 0 },
    ];
    let counted = decks_with_counts(decks, &cards, &b);
    assert_eq!(counted[0].tolearn, 1);
    assert_eq!(counted[1].tolearn, 1);
}

#[test]
fn learned_today_counts_finished_cards_only() {
    let now = 40 * DAY + 100;
    let b = today_boundary(now, 0);
    let cards = vec![
        // Reviewed today, due after today: finished for today.
        card(1, 1, b.end + 1, Some(now - 60)),
        // Reviewed today, due again today: not finished.
        card(2, 1, now + 60, Some(now - 60)),
        // Reviewed before today: not counted.
        card(3, 1, b.end + 1, Some(b.start - 1)),
        // Never reviewed: not counted.
        card(4, 1, now, None),
    ];
    assert_eq!(count_learned_today(&cards, &b), 1);
}

#[test]
fn deck_totals_count_every_card_of_the_deck() {
    let now = 40 * DAY + 100;
    let cards = vec![
        card(1, 7, now, None),
        card(2, 7, now + 10 * DAY, Some(now - 5 * DAY)),
        card(3, 8, now, None),
    ];
    assert_eq!(count_in_deck(&cards, 7), 2);
    assert_eq!(count_in_deck(&cards, 8), 1);
    assert_eq!(count_in_deck(&cards, 9), 0);
}
