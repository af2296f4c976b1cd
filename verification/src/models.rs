//! The engine's data model: cards, templates, decks and review events.
//!
//! A card's scheduling state is the part the engine reasons about: `due`
//! and `last_review` are instants (seconds since the Unix epoch) and the
//! optional memory state carries the oracle's two scalars as opaque `f32`
//! bit patterns.  A card holds a memory state exactly when it has been
//! reviewed at least once.

use vstd::prelude::*;

use crate::MAX_INSTANT;

verus! {

/// The memory model's summary of recall strength: the bit patterns of the
/// oracle's two `f32` scalars.  The engine never interprets them; it only
/// carries them between the store and the oracle.
#[derive(Debug, Clone, Copy, PartialEq, Eq, Structural)]
pub struct MemoryState {
    pub stability_bits: u32,
    pub difficulty_bits: u32,
}

/// A single learning item ("card") with its content fields and scheduling
/// state.
#[derive(Debug, Clone)]
pub struct Card {
    pub card_id: u32,
    pub deck_id: u32,
    pub template_id: u32,
    pub template_fields_content: Vec<String>,
    /// Instant at which the card next comes up for review.
    pub due: i64,
    /// Present exactly when the card has been reviewed before.
    pub memory_state: Option<MemoryState>,
    /// Day count scheduled at the most recent review.
    pub scheduled_days: u32,
    /// Instant of the most recent review, if any.
    pub last_review: Option<i64>,
}

impl Card {
    /// The card invariant: the memory state exists exactly when a last
    /// review exists, and every instant lies in the supported range.
    pub open spec fn wf(self) -> bool {
        &&& self.memory_state is Some <==> self.last_review is Some
        &&& match self.last_review {
            Some(lr) => 0 <= lr <= MAX_INSTANT,
            None => true,
        }
        &&& 0 <= self.due
    }

    /// A freshly created card: due immediately, never reviewed.
    pub fn new(
        card_id: u32,
        deck_id: u32,
        template_id: u32,
        template_fields_content: Vec<String>,
        created_at: i64,
    ) -> (card: Card)
        requires
            0 <= created_at <= MAX_INSTANT,
        ensures
            card.card_id == card_id,
            card.deck_id == deck_id,
            card.template_id == template_id,
            card.template_fields_content == template_fields_content,
            card.due == created_at,
            card.memory_state is None,
            card.scheduled_days == 0,
            card.last_review is None,
            card.wf(),
    {
        Card {
            card_id,
            deck_id,
            template_id,
            template_fields_content,
            due: created_at,
            memory_state: None,
            scheduled_days: 0,
            last_review: None,
        }
    }
}

/// Defines the shape shared by cards: an ordered list of named fields,
/// each marked as belonging to the front or the back.
#[derive(Debug, Clone)]
pub struct Template {
    pub template_id: u32,
    pub template_name: String,
    /// `(field name, is front)` in display order.
    pub template_fields: Vec<(String, bool)>,
}

impl Default for Template {
    fn default() -> (t: Self)
        ensures
            t.template_id == 0,
            t.template_name@ == Seq::<char>::empty(),
            t.template_fields@ == Seq::<(String, bool)>::empty(),
    {
        Template { template_id: 0, template_name: String::new(), template_fields: Vec::new() }
    }
}

/// One named field of a template.
#[derive(Debug)]
pub struct TemplateField {
    pub field_id: u32,
    pub template_id: u32,
    pub name: String,
    pub is_front: bool,
}

/// A named grouping of cards, together with the per-stage counts the
/// classifier derives for it.
#[derive(Debug)]
pub struct Deck {
    pub deck_id: u32,
    pub deck_name: String,
    /// Count of cards never reviewed.
    pub tolearn: u32,
    /// Count of cards reviewed today and due again today.
    pub learning: u32,
    /// Count of cards last reviewed before today and due by the end of today.
    pub toreview: u32,
}

impl Default for Deck {
    fn default() -> (d: Self)
        ensures
            d.deck_id == 0,
            d.deck_name@ == Seq::<char>::empty(),
            d.tolearn == 0,
            d.learning == 0,
            d.toreview == 0,
    {
        Deck { deck_id: 0, deck_name: String::new(), tolearn: 0, learning: 0, toreview: 0 }
    }
}

/// Separator placed between field contents when a card's fields are stored
/// as a single string.
pub const FIELD_SEPARATOR: char = '\u{001F}';

/// The single string that stores `fields` joined by [`FIELD_SEPARATOR`].
pub open spec fn spec_merge_fields(fields: Seq<Seq<char>>) -> Seq<char>
    decreases fields.len(),
{
    if fields.len() == 0 {
        Seq::empty()
    } else if fields.len() == 1 {
        fields[0]
    } else {
        fields[0] + seq![FIELD_SEPARATOR] + spec_merge_fields(fields.drop_first())
    }
}

/// The field list encoded by `s`: the pieces of `s` between separators, in
/// order.  An empty string encodes one empty field.
pub open spec fn spec_split_fields(s: Seq<char>) -> Seq<Seq<char>>
    decreases s.len(),
{
    if s.len() == 0 {
        seq![Seq::empty()]
    } else if s[0] == FIELD_SEPARATOR {
        seq![Seq::<char>::empty()] + spec_split_fields(s.drop_first())
    } else {
        let rest = spec_split_fields(s.drop_first());
        seq![seq![s[0]] + rest[0]] + rest.drop_first()
    }
}

proof fn lemma_merge_fields_push(fields: Seq<Seq<char>>, piece: Seq<char>)
    ensures
        spec_merge_fields(fields.push(piece)) == if fields.len() == 0 {
            piece
        } else {
            spec_merge_fields(fields) + seq![FIELD_SEPARATOR] + piece
        },
    decreases fields.len(),
{
    if fields.len() == 0 {
        assert(fields.push(piece) =~= seq![piece]);
    } else {
        lemma_merge_fields_push(fields.drop_first(), piece);
        assert(fields.push(piece).drop_first() =~= fields.drop_first().push(piece));
        if fields.len() == 1 {
            assert(spec_merge_fields(fields) == fields[0]);
        } else {
            assert(spec_merge_fields(fields) + seq![FIELD_SEPARATOR] + piece =~= fields[0]
                + seq![FIELD_SEPARATOR] + (spec_merge_fields(fields.drop_first())
                + seq![FIELD_SEPARATOR] + piece));
        }
    }
}

/// Joins a card's field contents into the single stored string, separating
/// consecutive fields with [`FIELD_SEPARATOR`].
pub fn merge_template_fields(fields: Vec<String>) -> (merged: String)
    ensures
        merged@ == spec_merge_fields(fields@.map_values(|f: String| f@)),
{
    let ghost views = fields@.map_values(|f: String| f@);
    let mut merged = String::new();
    let mut i: usize = 0;
    while i < fields.len()
        invariant
            0 <= i <= fields.len(),
            views == fields@.map_values(|f: String| f@),
            merged@ == spec_merge_fields(views.take(i as int)),
        decreases fields.len() - i,
    {
        if i > 0 {
            merged.append("\u{001F}");
            proof {
                reveal_strlit("\u{001F}");
            }
        }
        merged.append(fields[i].as_str());
        proof {
            assert(views.take(i + 1) =~= views.take(i as int).push(views[i as int]));
            lemma_merge_fields_push(views.take(i as int), views[i as int]);
            if i > 0 {
                assert(merged@ =~= spec_merge_fields(views.take(i + 1)));
            } else {
                assert(merged@ =~= views[0]);
            }
        }
        i += 1;
    }
    proof {
        assert(views.take(fields@.len() as int) =~= views);
    }
    merged
}

/// Whether no field content contains the separator itself.
pub open spec fn fields_separator_free(fields: Seq<Seq<char>>) -> bool {
    forall|i: int| 0 <= i < fields.len() ==> !(#[trigger] fields[i]).contains(FIELD_SEPARATOR)
}

proof fn lemma_split_separator_free(s: Seq<char>)
    requires
        !s.contains(FIELD_SEPARATOR),
    ensures
        spec_split_fields(s) == seq![s],
    decreases s.len(),
{
    if s.len() == 0 {
        assert(s =~= Seq::<char>::empty());
        assert(spec_split_fields(s) =~= seq![s]);
    } else {
        assert(s[0] != FIELD_SEPARATOR);
        assert(!s.drop_first().contains(FIELD_SEPARATOR)) by {
            if s.drop_first().contains(FIELD_SEPARATOR) {
                let k = choose|k: int|
                    0 <= k < s.drop_first().len() && s.drop_first()[k] == FIELD_SEPARATOR;
                assert(s[k + 1] == FIELD_SEPARATOR);
            }
        }
        lemma_split_separator_free(s.drop_first());
        let rest = spec_split_fields(s.drop_first());
        assert(spec_split_fields(s) == seq![seq![s[0]] + rest[0]] + rest.drop_first());
        assert(rest[0] == s.drop_first());
        assert(rest.drop_first() =~= Seq::<Seq<char>>::empty());
        assert(seq![s[0]] + s.drop_first() =~= s);
        assert(seq![seq![s[0]] + rest[0]] + rest.drop_first() =~= seq![s]);
    }
}

proof fn lemma_split_after_first_field(a: Seq<char>, b: Seq<char>)
    requires
        !a.contains(FIELD_SEPARATOR),
    ensures
        spec_split_fields(a + seq![FIELD_SEPARATOR] + b) == seq![a] + spec_split_fields(b),
    decreases a.len(),
{
    let s = a + seq![FIELD_SEPARATOR] + b;
    if a.len() == 0 {
        assert(s[0] == FIELD_SEPARATOR);
        assert(s.drop_first() =~= b);
        assert(a =~= Seq::<char>::empty());
        assert(spec_split_fields(s) =~= seq![a] + spec_split_fields(b));
    } else {
        assert(s[0] == a[0]);
        assert(a[0] != FIELD_SEPARATOR);
        assert(!a.drop_first().contains(FIELD_SEPARATOR)) by {
            if a.drop_first().contains(FIELD_SEPARATOR) {
                let k = choose|k: int|
                    0 <= k < a.drop_first().len() && a.drop_first()[k] == FIELD_SEPARATOR;
                assert(a[k + 1] == FIELD_SEPARATOR);
            }
        }
        assert(s.drop_first() =~= a.drop_first() + seq![FIELD_SEPARATOR] + b);
        lemma_split_after_first_field(a.drop_first(), b);
        let rest = spec_split_fields(s.drop_first());
        assert(rest == seq![a.drop_first()] + spec_split_fields(b));
        assert(rest[0] == a.drop_first());
        assert(rest.drop_first() =~= spec_split_fields(b));
        assert(seq![s[0]] + rest[0] =~= a);
        assert(spec_split_fields(s) == seq![seq![s[0]] + rest[0]] + rest.drop_first());
        assert(seq![seq![s[0]] + rest[0]] + rest.drop_first() =~= seq![a] + spec_split_fields(b));
    }
}

/// Splitting a merged field list recovers it exactly: for any nonempty
/// list of field contents none of which contains the separator, the
/// stored string decodes back to the same list.  (An empty list merges to
/// the empty string, which decodes as one empty field, so it is left out.)
pub proof fn lemma_split_merge_roundtrip(fields: Seq<Seq<char>>)
    requires
        fields.len() >= 1,
        fields_separator_free(fields),
    ensures
        spec_split_fields(spec_merge_fields(fields)) == fields,
    decreases fields.len(),
{
    if fields.len() == 1 {
        lemma_split_separator_free(fields[0]);
        assert(spec_split_fields(spec_merge_fields(fields)) =~= fields);
    } else {
        lemma_split_merge_roundtrip(fields.drop_first());
        lemma_split_after_first_field(fields[0], spec_merge_fields(fields.drop_first()));
        assert(spec_merge_fields(fields) == fields[0] + seq![FIELD_SEPARATOR] + spec_merge_fields(
            fields.drop_first(),
        ));
        assert(seq![fields[0]] + fields.drop_first() =~= fields);
    }
}

/// `pieces` with `prefix` prepended to its first element.
spec fn prepend_first(pieces: Seq<Seq<char>>, prefix: Seq<char>) -> Seq<Seq<char>> {
    seq![prefix + pieces[0]] + pieces.drop_first()
}

/// Splits a stored field string back into the card's field contents.
/// Inverse of [`merge_template_fields`] on field lists whose contents do
/// not contain the separator.
pub fn split_merged_fields(s: &str) -> (fields: Vec<String>)
    ensures
        fields@.map_values(|f: String| f@) == spec_split_fields(s@),
{
    let n = s.unicode_len();
    let mut done: Vec<String> = Vec::new();
    let mut start: usize = 0;
    let mut i: usize = 0;
    proof {
        let pieces = spec_split_fields(s@);
        assert(s@.skip(0) =~= s@);
        assert(Seq::<char>::empty() + pieces[0] =~= pieces[0]);
        assert(prepend_first(pieces, Seq::<char>::empty()) =~= pieces);
    }
    while i < n
        invariant
            n == s@.len(),
            0 <= start <= i <= n,
            spec_split_fields(s@) =~= done@.map_values(|f: String| f@) + prepend_first(
                spec_split_fields(s@.skip(i as int)),
                s@.subrange(start as int, i as int),
            ),
        decreases n - i,
    {
        let c = s.get_char(i);
        proof {
            assert(s@.skip(i as int)[0] == s@[i as int]);
            assert(s@.skip(i as int).drop_first() =~= s@.skip(i + 1));
        }
        if c == FIELD_SEPARATOR {
            let piece = s.substring_char(start, i).to_owned();
            done.push(piece);
            proof {
                let tail = spec_split_fields(s@.skip(i + 1));
                assert(spec_split_fields(s@.skip(i as int)) =~= seq![Seq::<char>::empty()] + tail);
                assert(prepend_first(spec_split_fields(s@.skip(i as int)), s@.subrange(start as int, i as int))
                    =~= seq![s@.subrange(start as int, i as int)] + tail);
                assert(done@.map_values(|f: String| f@) =~= done@.map_values(|f: String| f@));
                assert(spec_split_fields(s@) =~= done@.map_values(|f: String| f@) + prepend_first(
                    tail,
                    s@.subrange(i + 1, i + 1),
                ));
            }
            start = i + 1;
            i += 1;
        } else {
            proof {
                let tail = spec_split_fields(s@.skip(i + 1));
                assert(spec_split_fields(s@.skip(i as int)) =~= seq![seq![s@[i as int]] + tail[0]]
                    + tail.drop_first());
                assert(s@.subrange(start as int, i as int) + (seq![s@[i as int]] + tail[0])
                    =~= s@.subrange(start as int, i + 1) + tail[0]);
                assert(prepend_first(spec_split_fields(s@.skip(i as int)), s@.subrange(start as int, i as int))
                    =~= prepend_first(tail, s@.subrange(start as int, i + 1)));
                assert(spec_split_fields(s@) =~= done@.map_values(|f: String| f@) + prepend_first(
                    tail,
                    s@.subrange(start as int, i + 1),
                ));
            }
            i += 1;
        }
    }
    let piece = s.substring_char(start, n).to_owned();
    done.push(piece);
    proof {
        assert(s@.skip(n as int) =~= Seq::<char>::empty());
        assert(spec_split_fields(s@.skip(n as int)) =~= seq![Seq::<char>::empty()]);
        assert(prepend_first(seq![Seq::<char>::empty()], s@.subrange(start as int, n as int))
            =~= seq![s@.subrange(start as int, n as int)]);
        assert(done@.map_values(|f: String| f@) =~= spec_split_fields(s@));
    }
    done
}

/// One review event: the card, the instant it was reviewed, and the rating
/// given.  The review log is append-only.
#[derive(Debug, Clone, Copy, PartialEq, Eq, Structural)]
pub struct Review {
    pub card_id: u32,
    /// Instant of the review, seconds since the Unix epoch.
    pub review_date: i64,
    /// Recall quality: 1 = again, 2 = hard, 3 = good, 4 = easy.
    pub rating: u32,
}

impl Review {
    /// The review invariant: the instant lies in the supported range.
    pub open spec fn wf(self) -> bool {
        0 <= self.review_date <= MAX_INSTANT
    }
}

impl Default for Review {
    /// A placeholder review event, dated 2023-01-01T00:00:00Z.
    fn default() -> (review: Self)
        ensures
            review.card_id == 0,
            review.review_date == 1_672_531_200,
            review.rating == 0,
            review.wf(),
    {
        Review { card_id: 0, review_date: 1_672_531_200, rating: 0 }
    }
}

} // verus!
