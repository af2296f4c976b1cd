//! Classification of cards into learning stages, and the store-agnostic
//! filter query over them.
//!
//! A card's stage is decided against one day boundary:
//! - *new*: never reviewed;
//! - *learning*: last reviewed today and due again today;
//! - *to review*: last reviewed before today and due by the end of today.
//!
//! The stages are mutually exclusive; a card may also match none of them
//! (for example one due in the future whose last review was before today),
//! and such a card is excluded from every stage count.
//!
//! Query results are ordered ascending by due instant, ties broken by card
//! id ascending, with equal keys kept in input order.

use vstd::prelude::*;
use vstd::seq_lib::group_filter_ensures;

use crate::calendar::DayBoundary;
use crate::models::{Card, Deck};
use crate::sorting::{
    lemma_ordered_insert_sorted, lemma_ordered_insert_splice, lemma_stable_sorted_ensures,
    sorted_le, stable_sorted, strict_total_preorder,
};

verus! {

/// Whether the card was never reviewed.
pub open spec fn is_new(card: Card) -> bool {
    card.last_review is None
}

/// Whether the card was last reviewed today and is due again today.
pub open spec fn is_learning(card: Card, b: DayBoundary) -> bool {
    &&& card.last_review matches Some(lr) && b.contains(lr as int)
    &&& b.contains(card.due as int)
}

/// Whether the card was last reviewed before today and is due by the end
/// of today.
pub open spec fn is_toreview(card: Card, b: DayBoundary) -> bool {
    &&& card.last_review matches Some(lr) && lr < b.start
    &&& card.due <= b.end
}

/// The learning stage a card is in, relative to one day boundary.
#[derive(Debug, Clone, Copy, PartialEq, Eq, Structural)]
pub enum Bucket {
    /// Never reviewed.
    New,
    /// Last reviewed today and due again today.
    Learning,
    /// Last reviewed before today and due by the end of today.
    ToReview,
    /// None of the stages: excluded from every stage count.
    Unclassified,
}

/// Classifies a card relative to the given day boundary.
pub fn bucket(card: &Card, b: &DayBoundary) -> (stage: Bucket)
    ensures
        stage == Bucket::New <==> is_new(*card),
        stage == Bucket::Learning <==> is_learning(*card, *b),
        stage == Bucket::ToReview <==> is_toreview(*card, *b),
        stage == Bucket::Unclassified <==> !is_new(*card) && !is_learning(*card, *b)
            && !is_toreview(*card, *b),
{
    match card.last_review {
        Option::None => Bucket::New,
        Option::Some(lr) => {
            if b.start <= lr && lr <= b.end && b.start <= card.due && card.due <= b.end {
                Bucket::Learning
            } else if lr < b.start && card.due <= b.end {
                Bucket::ToReview
            } else {
                Bucket::Unclassified
            }
        },
    }
}

/// The three learning stages are mutually exclusive: whatever the card's
/// last review, due instant and the day boundary, it matches at most one
/// of new, learning and to-review.
pub proof fn lemma_buckets_mutually_exclusive(card: Card, b: DayBoundary)
    ensures
        !(is_new(card) && is_learning(card, b)),
        !(is_new(card) && is_toreview(card, b)),
        !(is_learning(card, b) && is_toreview(card, b)),
{
}

/// Strict query order on cards: ascending due instant, ties broken by
/// ascending card id.
pub open spec fn spec_card_lt(a: Card, b: Card) -> bool {
    a.due < b.due || (a.due == b.due && a.card_id < b.card_id)
}

/// The card query order as a function value, for the sorting
/// specifications.
pub open spec fn card_order() -> spec_fn(Card, Card) -> bool {
    |a: Card, b: Card| spec_card_lt(a, b)
}

pub proof fn lemma_card_order_strict()
    ensures
        strict_total_preorder(card_order()),
{
}

fn card_lt(a: &Card, b: &Card) -> (r: bool)
    ensures
        r == spec_card_lt(*a, *b),
{
    a.due < b.due || (a.due == b.due && a.card_id < b.card_id)
}

/// Sorts cards into the query order: ascending by due instant, ties by
/// card id, equal keys kept in input order.
pub fn sort_cards(cards: Vec<Card>) -> (sorted: Vec<Card>)
    ensures
        sorted@ == stable_sorted(cards@, card_order()),
{
    let ghost orig = cards@;
    let mut rest = cards;
    let mut out: Vec<Card> = Vec::new();
    let ghost mut i: int = 0;
    proof {
        lemma_card_order_strict();
        assert(orig.skip(0) =~= orig);
        assert(orig.take(0) =~= Seq::<Card>::empty());
    }
    while rest.len() > 0
        invariant
            0 <= i,
            i + rest@.len() == orig.len(),
            rest@ == orig.skip(i),
            out@ == stable_sorted(orig.take(i), card_order()),
            sorted_le(out@, card_order()),
            strict_total_preorder(card_order()),
        decreases rest.len(),
    {
        let x = rest.remove(0);
        proof {
            broadcast use vstd::seq_lib::group_seq_properties;

            assert(x == orig[i]);
            assert(rest@ =~= orig.skip(i + 1));
        }
        let mut pos: usize = out.len();
        while pos > 0 && card_lt(&x, &out[pos - 1])
            invariant
                pos <= out.len(),
                forall|j: int| pos <= j < out@.len() ==> spec_card_lt(x, out@[j]),
            decreases pos,
        {
            pos -= 1;
        }
        proof {
            broadcast use vstd::seq_lib::group_seq_properties;

            lemma_ordered_insert_splice(out@, x, card_order(), pos as int);
            lemma_ordered_insert_sorted(out@, x, card_order());
            assert(orig.take(i + 1).drop_last() =~= orig.take(i));
            assert(orig.take(i + 1).last() == orig[i]);
        }
        out.insert(pos, x);
        proof {
            i = i + 1;
        }
    }
    proof {
        assert(orig.take(orig.len() as int) =~= orig);
    }
    out
}

/// Whether `id` occurs in `ids`.
fn id_contains(ids: &Vec<u32>, id: u32) -> (present: bool)
    ensures
        present == ids@.contains(id),
{
    let mut i: usize = 0;
    while i < ids.len()
        invariant
            0 <= i <= ids@.len(),
            forall|j: int| 0 <= j < i ==> ids@[j] != id,
        decreases ids@.len() - i,
    {
        if ids[i] == id {
            return true;
        }
        i += 1;
    }
    false
}

/// The filter a card must pass: the stages selected by the mask, OR'ed
/// together (bit 0 new, bit 1 learning, bit 2 to-review; mask 0 disables
/// stage filtering), AND'ed with membership of the given template and deck
/// id sets (an empty set disables that test).
pub open spec fn spec_passes(
    card: Card,
    template_ids: Seq<u32>,
    deck_ids: Seq<u32>,
    status_mask: u8,
    b: DayBoundary,
) -> bool {
    &&& template_ids.len() == 0 || template_ids.contains(card.template_id)
    &&& deck_ids.len() == 0 || deck_ids.contains(card.deck_id)
    &&& {
        ||| status_mask == 0
        ||| (status_mask & 1 != 0 && is_new(card))
        ||| (status_mask & 2 != 0 && is_learning(card, b))
        ||| (status_mask & 4 != 0 && is_toreview(card, b))
    }
}

/// The card filter as a predicate value, for the query specification.
pub open spec fn passes_pred(
    template_ids: Seq<u32>,
    deck_ids: Seq<u32>,
    status_mask: u8,
    b: DayBoundary,
) -> spec_fn(Card) -> bool {
    |card: Card| spec_passes(card, template_ids, deck_ids, status_mask, b)
}

fn passes(
    card: &Card,
    template_ids: &Vec<u32>,
    deck_ids: &Vec<u32>,
    status_mask: u8,
    b: &DayBoundary,
) -> (r: bool)
    ensures
        r == spec_passes(*card, template_ids@, deck_ids@, status_mask, *b),
{
    let template_ok = template_ids.len() == 0 || id_contains(template_ids, card.template_id);
    let deck_ok = deck_ids.len() == 0 || id_contains(deck_ids, card.deck_id);
    let status_ok = status_mask == 0 || {
        let stage = bucket(card, b);
        (status_mask & 1 != 0 && matches!(stage, Bucket::New)) || (status_mask & 2 != 0
            && matches!(stage, Bucket::Learning)) || (status_mask & 4 != 0 && matches!(
            stage,
            Bucket::ToReview,
        ))
    };
    template_ok && deck_ok && status_ok
}

/// Runs the card filter: keeps exactly the cards passing the mask and id
/// filters, ordered ascending by due instant with ties broken by card id.
pub fn filter_cards(
    cards: Vec<Card>,
    template_ids: &Vec<u32>,
    deck_ids: &Vec<u32>,
    status_mask: u8,
    b: &DayBoundary,
) -> (result: Vec<Card>)
    ensures
        result@ == stable_sorted(
            cards@.filter(passes_pred(template_ids@, deck_ids@, status_mask, *b)),
            card_order(),
        ),
{
    broadcast use Seq::lemma_filter_push;

    let ghost pred = passes_pred(template_ids@, deck_ids@, status_mask, *b);
    let ghost orig = cards@;
    let mut rest = cards;
    let mut kept: Vec<Card> = Vec::new();
    let ghost mut i: int = 0;
    proof {
        assert(orig.skip(0) =~= orig);
        assert(orig.take(0) =~= Seq::<Card>::empty());
        assert(orig.take(0).filter(pred) =~= Seq::<Card>::empty());
    }
    while rest.len() > 0
        invariant
            0 <= i,
            i + rest@.len() == orig.len(),
            rest@ == orig.skip(i),
            kept@ == orig.take(i).filter(pred),
            pred == passes_pred(template_ids@, deck_ids@, status_mask, *b),
        decreases rest.len(),
    {
        let x = rest.remove(0);
        proof {
            broadcast use vstd::seq_lib::group_seq_properties;

            assert(x == orig[i]);
            assert(rest@ =~= orig.skip(i + 1));
            assert(orig.take(i + 1) =~= orig.take(i).push(orig[i]));
            orig.take(i).lemma_filter_push(x, pred);
        }
        if passes(&x, template_ids, deck_ids, status_mask, b) {
            kept.push(x);
        }
        proof {
            i = i + 1;
        }
    }
    proof {
        assert(orig.take(orig.len() as int) =~= orig);
    }
    sort_cards(kept)
}

/// The cards a review page draws from: the given deck, due by the end of
/// today.
pub open spec fn due_page_pred(deck_id: u32, b: DayBoundary) -> spec_fn(Card) -> bool {
    |c: Card| c.deck_id == deck_id && c.due <= b.end
}

/// The next page of due cards: the deck's cards due by the end of today,
/// in query order, cut to the page size.
pub open spec fn spec_due_page(
    cards: Seq<Card>,
    deck_id: u32,
    b: DayBoundary,
    page_size: int,
) -> Seq<Card> {
    let sorted = stable_sorted(cards.filter(due_page_pred(deck_id, b)), card_order());
    if page_size < sorted.len() {
        sorted.take(page_size)
    } else {
        sorted
    }
}

/// Selects the next page of due cards of a deck: those due by the end of
/// today, ordered ascending by due instant (ties by card id), at most
/// `page_size` of them.
pub fn due_page(cards: Vec<Card>, deck_id: u32, page_size: u32, b: &DayBoundary) -> (page: Vec<
    Card,
>)
    ensures
        page@ == spec_due_page(cards@, deck_id, *b, page_size as int),
{
    let ghost pred = due_page_pred(deck_id, *b);
    let ghost orig = cards@;
    let mut rest = cards;
    let mut kept: Vec<Card> = Vec::new();
    let ghost mut i: int = 0;
    proof {
        assert(orig.skip(0) =~= orig);
        assert(orig.take(0).filter(pred) =~= Seq::<Card>::empty());
    }
    while rest.len() > 0
        invariant
            0 <= i,
            i + rest@.len() == orig.len(),
            rest@ == orig.skip(i),
            kept@ == orig.take(i).filter(pred),
            pred == due_page_pred(deck_id, *b),
        decreases rest.len(),
    {
        let x = rest.remove(0);
        proof {
            broadcast use vstd::seq_lib::group_seq_properties;

            assert(x == orig[i]);
            assert(rest@ =~= orig.skip(i + 1));
            assert(orig.take(i + 1) =~= orig.take(i).push(orig[i]));
            orig.take(i).lemma_filter_push(x, pred);
        }
        if x.deck_id == deck_id && x.due <= b.end {
            kept.push(x);
        }
        proof {
            i = i + 1;
        }
    }
    proof {
        assert(orig.take(orig.len() as int) =~= orig);
    }
    let mut page = sort_cards(kept);
    if (page_size as usize) < page.len() {
        page.truncate(page_size as usize);
        proof {
            assert(stable_sorted(orig.filter(pred), card_order()).subrange(0, page_size as int)
                =~= stable_sorted(orig.filter(pred), card_order()).take(page_size as int));
        }
    }
    page
}

/// Count of the deck's cards never reviewed.
pub open spec fn spec_count_new(cards: Seq<Card>, deck_id: u32) -> nat {
    cards.filter(|c: Card| c.deck_id == deck_id && is_new(c)).len()
}

/// Count of the deck's cards last reviewed today and due again today.
pub open spec fn spec_count_learning(cards: Seq<Card>, deck_id: u32, b: DayBoundary) -> nat {
    cards.filter(|c: Card| c.deck_id == deck_id && is_learning(c, b)).len()
}

/// Count of the deck's cards last reviewed before today and due by the end
/// of today.
pub open spec fn spec_count_toreview(cards: Seq<Card>, deck_id: u32, b: DayBoundary) -> nat {
    cards.filter(|c: Card| c.deck_id == deck_id && is_toreview(c, b)).len()
}

/// Count of cards whose review is finished for today: last reviewed today
/// and not due again until after today.
pub open spec fn spec_count_learned_today(cards: Seq<Card>, b: DayBoundary) -> nat {
    cards.filter(
        |c: Card| (c.last_review matches Some(lr) && b.contains(lr as int)) && c.due > b.end,
    ).len()
}

/// Counts the cards of `deck_id` in the given stage, and the cards
/// finished for today, in one pass.
fn stage_counts(cards: &Vec<Card>, deck_id: u32, b: &DayBoundary) -> (counts: (u32, u32, u32))
    requires
        cards@.len() <= u32::MAX,
    ensures
        counts.0 == spec_count_new(cards@, deck_id),
        counts.1 == spec_count_learning(cards@, deck_id, *b),
        counts.2 == spec_count_toreview(cards@, deck_id, *b),
{
    broadcast use vstd::seq_lib::group_filter_ensures;

    let ghost new_pred = |c: Card| c.deck_id == deck_id && is_new(c);
    let ghost learning_pred = |c: Card| c.deck_id == deck_id && is_learning(c, *b);
    let ghost toreview_pred = |c: Card| c.deck_id == deck_id && is_toreview(c, *b);
    let mut tolearn: u32 = 0;
    let mut learning: u32 = 0;
    let mut toreview: u32 = 0;
    let mut i: usize = 0;
    proof {
        assert(cards@.take(0).filter(new_pred) =~= Seq::<Card>::empty());
        assert(cards@.take(0).filter(learning_pred) =~= Seq::<Card>::empty());
        assert(cards@.take(0).filter(toreview_pred) =~= Seq::<Card>::empty());
    }
    while i < cards.len()
        invariant
            0 <= i <= cards@.len() <= u32::MAX,
            tolearn == cards@.take(i as int).filter(new_pred).len(),
            learning == cards@.take(i as int).filter(learning_pred).len(),
            toreview == cards@.take(i as int).filter(toreview_pred).len(),
            new_pred == (|c: Card| c.deck_id == deck_id && is_new(c)),
            learning_pred == (|c: Card| c.deck_id == deck_id && is_learning(c, *b)),
            toreview_pred == (|c: Card| c.deck_id == deck_id && is_toreview(c, *b)),
        decreases cards@.len() - i,
    {
        let c = &cards[i];
        proof {
            broadcast use vstd::seq_lib::group_seq_properties;

            assert(cards@.take(i + 1) =~= cards@.take(i as int).push(cards@[i as int]));
            cards@.take(i as int).lemma_filter_push(cards@[i as int], new_pred);
            cards@.take(i as int).lemma_filter_push(cards@[i as int], learning_pred);
            cards@.take(i as int).lemma_filter_push(cards@[i as int], toreview_pred);
            cards@.take(i as int).lemma_filter_len(new_pred);
            cards@.take(i as int).lemma_filter_len(learning_pred);
            cards@.take(i as int).lemma_filter_len(toreview_pred);
        }
        if c.deck_id == deck_id {
            match bucket(c, b) {
                Bucket::New => {
                    tolearn = tolearn + 1;
                },
                Bucket::Learning => {
                    learning = learning + 1;
                },
                Bucket::ToReview => {
                    toreview = toreview + 1;
                },
                Bucket::Unclassified => {},
            }
        }
        i += 1;
    }
    proof {
        assert(cards@.take(cards@.len() as int) =~= cards@);
    }
    (tolearn, learning, toreview)
}

/// Fills each deck's stage counters from the given cards: how many of its
/// cards are new, in learning, and to review, relative to today.
pub fn decks_with_counts(decks: Vec<Deck>, cards: &Vec<Card>, b: &DayBoundary) -> (counted: Vec<
    Deck,
>)
    requires
        cards@.len() <= u32::MAX,
    ensures
        counted@.len() == decks@.len(),
        forall|i: int|
            0 <= i < decks@.len() ==> {
                &&& (#[trigger] counted@[i]).deck_id == decks@[i].deck_id
                &&& counted@[i].deck_name == decks@[i].deck_name
                &&& counted@[i].tolearn == spec_count_new(cards@, decks@[i].deck_id)
                &&& counted@[i].learning == spec_count_learning(cards@, decks@[i].deck_id, *b)
                &&& counted@[i].toreview == spec_count_toreview(cards@, decks@[i].deck_id, *b)
            },
{
    let ghost orig = decks@;
    let mut rest = decks;
    let mut counted: Vec<Deck> = Vec::new();
    let ghost mut i: int = 0;
    proof {
        assert(orig.skip(0) =~= orig);
    }
    while rest.len() > 0
        invariant
            0 <= i,
            i + rest@.len() == orig.len(),
            rest@ == orig.skip(i),
            counted@.len() == i,
            cards@.len() <= u32::MAX,
            forall|j: int|
                0 <= j < i ==> {
                    &&& (#[trigger] counted@[j]).deck_id == orig[j].deck_id
                    &&& counted@[j].deck_name == orig[j].deck_name
                    &&& counted@[j].tolearn == spec_count_new(cards@, orig[j].deck_id)
                    &&& counted@[j].learning == spec_count_learning(cards@, orig[j].deck_id, *b)
                    &&& counted@[j].toreview == spec_count_toreview(cards@, orig[j].deck_id, *b)
                },
        decreases rest.len(),
    {
        let d = rest.remove(0);
        proof {
            broadcast use vstd::seq_lib::group_seq_properties;

            assert(d == orig[i]);
            assert(rest@ =~= orig.skip(i + 1));
        }
        let counts = stage_counts(cards, d.deck_id, b);
        counted.push(
            Deck {
                deck_id: d.deck_id,
                deck_name: d.deck_name,
                tolearn: counts.0,
                learning: counts.1,
                toreview: counts.2,
            },
        );
        proof {
            i = i + 1;
        }
    }
    counted
}

/// Counts the cards whose review is finished for today: last reviewed
/// today and not due again until after today.
pub fn count_learned_today(cards: &Vec<Card>, b: &DayBoundary) -> (count: u32)
    requires
        cards@.len() <= u32::MAX,
    ensures
        count == spec_count_learned_today(cards@, *b),
{
    broadcast use vstd::seq_lib::group_filter_ensures;

    let ghost pred = |c: Card| (c.last_review matches Some(lr) && b.contains(lr as int)) && c.due
        > b.end;
    let mut count: u32 = 0;
    let mut i: usize = 0;
    proof {
        assert(cards@.take(0).filter(pred) =~= Seq::<Card>::empty());
    }
    while i < cards.len()
        invariant
            0 <= i <= cards@.len() <= u32::MAX,
            count == cards@.take(i as int).filter(pred).len(),
            pred == (|c: Card| (c.last_review matches Some(lr) && b.contains(lr as int)) && c.due
                > b.end),
        decreases cards@.len() - i,
    {
        let c = &cards[i];
        proof {
            broadcast use vstd::seq_lib::group_seq_properties;

            assert(cards@.take(i + 1) =~= cards@.take(i as int).push(cards@[i as int]));
            cards@.take(i as int).lemma_filter_push(cards@[i as int], pred);
            cards@.take(i as int).lemma_filter_len(pred);
        }
        let reviewed_today = match c.last_review {
            Option::Some(lr) => b.start <= lr && lr <= b.end,
            Option::None => false,
        };
        if reviewed_today && c.due > b.end {
            count = count + 1;
        }
        i += 1;
    }
    proof {
        assert(cards@.take(cards@.len() as int) =~= cards@);
    }
    count
}

/// Count of a deck's cards, whatever their stage.
pub open spec fn spec_count_in_deck(cards: Seq<Card>, deck_id: u32) -> nat {
    cards.filter(|c: Card| c.deck_id == deck_id).len()
}

/// Counts the cards of one deck.
pub fn count_in_deck(cards: &Vec<Card>, deck_id: u32) -> (count: u32)
    requires
        cards@.len() <= u32::MAX,
    ensures
        count == spec_count_in_deck(cards@, deck_id),
{
    broadcast use vstd::seq_lib::group_filter_ensures;

    let ghost pred = |c: Card| c.deck_id == deck_id;
    let mut count: u32 = 0;
    let mut i: usize = 0;
    proof {
        assert(cards@.take(0).filter(pred) =~= Seq::<Card>::empty());
    }
    while i < cards.len()
        invariant
            0 <= i <= cards@.len() <= u32::MAX,
            count == cards@.take(i as int).filter(pred).len(),
            pred == (|c: Card| c.deck_id == deck_id),
        decreases cards@.len() - i,
    {
        proof {
            broadcast use vstd::seq_lib::group_seq_properties;

            assert(cards@.take(i + 1) =~= cards@.take(i as int).push(cards@[i as int]));
            cards@.take(i as int).lemma_filter_push(cards@[i as int], pred);
            cards@.take(i as int).lemma_filter_len(pred);
        }
        if cards[i].deck_id == deck_id {
            count = count + 1;
        }
        i += 1;
    }
    proof {
        assert(cards@.take(cards@.len() as int) =~= cards@);
    }
    count
}

/// With no template filter, no deck filter and mask zero, the filter keeps
/// every card: the query returns all cards as a permutation sorted
/// ascending by due instant, ties by card id.
pub proof fn lemma_unfiltered_query_keeps_all(cards: Seq<Card>, b: DayBoundary)
    ensures
        cards.filter(passes_pred(Seq::<u32>::empty(), Seq::<u32>::empty(), 0, b)) == cards,
        stable_sorted(
            cards.filter(passes_pred(Seq::<u32>::empty(), Seq::<u32>::empty(), 0, b)),
            card_order(),
        ).to_multiset() == cards.to_multiset(),
        sorted_le(
            stable_sorted(
                cards.filter(passes_pred(Seq::<u32>::empty(), Seq::<u32>::empty(), 0, b)),
                card_order(),
            ),
            card_order(),
        ),
    decreases cards.len(),
{
    broadcast use Seq::lemma_filter_push;

    let pred = passes_pred(Seq::<u32>::empty(), Seq::<u32>::empty(), 0, b);
    if cards.len() == 0 {
        assert(cards.filter(pred) =~= cards);
    } else {
        lemma_unfiltered_query_keeps_all(cards.drop_last(), b);
        assert(cards =~= cards.drop_last().push(cards.last()));
        assert(cards.drop_last().push(cards.last()).filter(pred) == cards.drop_last().filter(
            pred,
        ).push(cards.last()));
        assert(cards.filter(pred) =~= cards);
    }
    lemma_card_order_strict();
    lemma_stable_sorted_ensures(cards.filter(pred), card_order());
}

} // verus!
