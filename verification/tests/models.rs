use echocard::models::{merge_template_fields, split_merged_fields, Card, Deck, Review, Template};

#[test]
fn merge_joins_fields_with_unit_separator() {
    let merged = merge_template_fields(vec!["front".to_string(), "back".to_string()]);
    assert_eq!(merged, "front\u{001F}back");
}

#[test]
fn merge_of_single_field_adds_no_separator() {
    let merged = merge_template_fields(vec!["only".to_string()]);
    assert_eq!(merged, "only");
}

#[test]
fn merge_of_no_fields_is_empty() {
    let merged = merge_template_fields(Vec::new());
    assert_eq!(merged, "");
}

#[test]
fn split_inverts_merge() {
    let fields = vec!["question".to_string(), "".to_string(), "answer".to_string()];
    let merged = merge_template_fields(fields.clone());
    assert_eq!(split_merged_fields(&merged), fields);
}

#[test]
fn split_of_empty_string_is_one_empty_field() {
    assert_eq!(split_merged_fields(""), vec!["".to_string()]);
}

#[test]
fn split_handles_multibyte_content() {
    let fields = vec!["正面".to_string(), "反面".to_string()];
    let merged = merge_template_fields(fields.clone());
    assert_eq!(split_merged_fields(&merged), fields);
}

#[test]
fn new_card_is_due_at_creation_and_unreviewed() {
    let card = Card::new(7, 2, 3, vec!["f".to_string()], 1_700_000_000);
    assert_eq!(card.card_id, 7);
    assert_eq!(card.deck_id, 2);
    assert_eq!(card.template_id, 3);
    assert_eq!(card.due, 1_700_000_000);
    assert!(card.memory_state.is_none());
    assert_eq!(card.scheduled_days, 0);
    assert!(card.last_review.is_none());
}

#[test]
fn default_template_is_empty() {
    let t = Template::default();
    assert_eq!(t.template_id, 0);
    assert_eq!(t.template_name, "");
    assert!(t.template_fields.is_empty());
}

#[test]
fn default_deck_has_zero_counts() {
    let d = Deck::default();
    assert_eq!(d.deck_id, 0);
    assert_eq!(d.deck_name, "");
    assert_eq!((d.tolearn, d.learning, d.toreview), (0, 0, 0));
}

#[test]
fn default_review_is_dated_2023_01_01() {
    let r = Review::default();
    assert_eq!(r.card_id, 0);
    assert_eq!(r.review_date, 1_672_531_200);
    assert_eq!(r.rating, 0);
}
