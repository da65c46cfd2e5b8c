//! The card extractor: turns one card's raw pieces into a typed creator
//! record. A card missing a required field (link, name, or image) yields no
//! record; the other cards of its page are unaffected.

use vstd::prelude::*;

use crate::idset::IdentitySet;
use crate::model::{CardData, CardModel, CreatorSummary, RecordModel};
use crate::num::{clamp_u32, parse_number, parse_number_spec};
use crate::text::{trim, trim_spec};

verus! {

/// A card holds every required field: link target, name node, image.
pub open spec fn card_valid(c: CardModel) -> bool {
    c.link is Some && c.name is Some && c.image is Some
}

/// The numeric value of stat cell `i`: the trimmed cell text normalized, or
/// 0 when the cell is absent.
pub open spec fn stat_value(stats: Seq<Seq<char>>, i: int) -> u32 {
    if 0 <= i < stats.len() {
        clamp_u32(parse_number_spec(trim_spec(stats[i])))
    } else {
        0
    }
}

/// The patron count: the first stat cell, narrowed to the field's width.
pub open spec fn patrons_value(stats: Seq<Seq<char>>) -> u16 {
    (stat_value(stats, 0) % 0x10000) as u16
}

/// The record one card yields: `None` when a required field is missing,
/// otherwise every field as the extractor fills it. `featured` holds the
/// identities of the category's featured carousel; `force_featured` marks
/// records extracted from the carousel itself.
pub open spec fn card_record(
    c: CardModel,
    category_id: u8,
    featured: Set<Seq<char>>,
    force_featured: bool,
    now: u32,
) -> Option<RecordModel> {
    if card_valid(c) {
        Some(
            RecordModel {
                name: trim_spec(c.name->0),
                tags: c.tags.map_values(|t: Seq<char>| trim_spec(t)),
                category_id: category_id,
                number_of_patrons: patrons_value(c.stats),
                monthly_revenue: stat_value(c.stats, 1),
                total_revenue: stat_value(c.stats, 2),
                is_recommended: force_featured || featured.contains(c.link->0),
                url: c.link->0,
                image_url: c.image->0,
                timestamp: now,
            },
        )
    } else {
        None
    }
}

/// The records a whole card sequence yields, in document order, skipping
/// cards that miss a required field.
pub open spec fn extract_cards(
    cards: Seq<CardModel>,
    category_id: u8,
    featured: Set<Seq<char>>,
    force_featured: bool,
    now: u32,
) -> Seq<RecordModel>
    decreases cards.len(),
{
    if cards.len() == 0 {
        Seq::empty()
    } else {
        let rest = extract_cards(cards.drop_last(), category_id, featured, force_featured, now);
        match card_record(cards.last(), category_id, featured, force_featured, now) {
            Some(r) => rest.push(r),
            None => rest,
        }
    }
}

/// The identities of the valid cards in a sequence (a featured carousel).
pub open spec fn card_identities(cards: Seq<CardModel>) -> Set<Seq<char>>
    decreases cards.len(),
{
    if cards.len() == 0 {
        Set::empty()
    } else {
        let rest = card_identities(cards.drop_last());
        if card_valid(cards.last()) {
            rest.insert(cards.last().link->0)
        } else {
            rest
        }
    }
}

/// Excluding one invalid card changes nothing else: the extracted records
/// are those of the sequence without it.
pub proof fn lemma_invalid_card_excluded(
    cards: Seq<CardModel>,
    i: int,
    category_id: u8,
    featured: Set<Seq<char>>,
    force_featured: bool,
    now: u32,
)
    requires
        0 <= i < cards.len(),
        !card_valid(cards[i]),
    ensures
        extract_cards(cards, category_id, featured, force_featured, now) == extract_cards(
            cards.remove(i),
            category_id,
            featured,
            force_featured,
            now,
        ),
    decreases cards.len(),
{
    if i == cards.len() - 1 {
        assert(cards.remove(i) =~= cards.drop_last());
    } else {
        lemma_invalid_card_excluded(
            cards.drop_last(),
            i,
            category_id,
            featured,
            force_featured,
            now,
        );
        assert(cards.remove(i).drop_last() =~= cards.drop_last().remove(i));
        assert(cards.remove(i).last() == cards.last());
    }
}

/// Exec stat-cell read: trimmed, normalized, 0 when absent.
fn stat_at(stats: &Vec<String>, i: usize) -> (r: u32)
    ensures
        r == stat_value(stats.deep_view(), i as int),
{
    if i < stats.len() {
        let t = trim(stats[i].as_str());
        parse_number(t.as_str())
    } else {
        0
    }
}

/// Extract one creator record from a card's raw pieces. Returns `None`
/// exactly when a required field (link, name, image) is absent.
pub fn get_creator_summary(
    card: &CardData,
    category_id: u8,
    featured: &IdentitySet,
    force_featured: bool,
    now: u32,
) -> (r: Option<CreatorSummary>)
    ensures
        match r {
            Some(rec) => card_record(card@, category_id, featured@, force_featured, now) == Some(
                rec@,
            ),
            None => card_record(card@, category_id, featured@, force_featured, now) is None,
        },
{
    let link = match &card.link {
        Some(l) => l,
        None => {
            return None;
        },
    };
    let name = match &card.name {
        Some(nm) => nm,
        None => {
            return None;
        },
    };
    let image = match &card.image {
        Some(im) => im,
        None => {
            return None;
        },
    };
    let mut tags: Vec<String> = Vec::new();
    let n = card.tags.len();
    let mut i: usize = 0;
    while i < n
        invariant
            0 <= i <= n,
            n == card.tags@.len(),
            tags@.len() == i,
            forall|j: int| 0 <= j < i ==> tags@[j]@ == trim_spec(card@.tags[j]),
        decreases n - i,
    {
        let t = trim(card.tags[i].as_str());
        tags.push(t);
        i = i + 1;
    }
    proof {
        assert(tags.deep_view() =~= card@.tags.map_values(|t: Seq<char>| trim_spec(t)));
    }
    let p0 = stat_at(&card.stats, 0);
    let patrons: u16 = (p0 % 0x10000) as u16;
    let rec = CreatorSummary {
        name: trim(name.as_str()),
        tags,
        category_id,
        number_of_patrons: patrons,
        monthly_revenue: stat_at(&card.stats, 1),
        total_revenue: stat_at(&card.stats, 2),
        is_recommended: force_featured || featured.contains(link),
        url: link.clone(),
        image_url: image.clone(),
        timestamp: now,
    };
    Some(rec)
}

} // verus!
