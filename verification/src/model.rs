//! The data model: categories, creator records, and the plain-value shape of
//! a fetched listing page, together with their spec-level images.

use vstd::prelude::*;

verus! {

/// One category of the listing site.
pub struct Category {
    /// Small numeric identifier, from the category's canonical path segment.
    pub id: u8,
    /// Trimmed display text.
    pub name: String,
    /// Site-relative canonical path; identity and pagination seed.
    pub url: String,
}

/// Spec-level image of a `Category`.
pub ghost struct CategoryModel {
    pub id: u8,
    pub name: Seq<char>,
    pub url: Seq<char>,
}

impl View for Category {
    type V = CategoryModel;

    open spec fn view(&self) -> CategoryModel {
        CategoryModel { id: self.id, name: self.name@, url: self.url@ }
    }
}

impl DeepView for Category {
    type V = CategoryModel;

    open spec fn deep_view(&self) -> CategoryModel {
        self@
    }
}

/// One creator record as observed on a listing page.
#[derive(Debug, Clone)]
pub struct CreatorSummary {
    /// Trimmed display name.
    pub name: String,
    /// Trimmed tag labels, in document order.
    pub tags: Vec<String>,
    /// The enclosing category's id, assigned by the paginator.
    pub category_id: u8,
    /// First numeric cell of the card, 0 when absent.
    pub number_of_patrons: u16,
    /// Second numeric cell of the card, 0 when absent.
    pub monthly_revenue: u32,
    /// Third numeric cell of the card, 0 when absent.
    pub total_revenue: u32,
    /// True iff this record's identity appeared in the category's featured
    /// carousel on page 1.
    pub is_recommended: bool,
    /// The creator's site-relative profile path; the deduplication key.
    pub url: String,
    /// The card's lazy-load image target.
    pub image_url: String,
    /// Unix timestamp (seconds) of the observation.
    pub timestamp: u32,
}

/// Spec-level image of a `CreatorSummary`.
pub ghost struct RecordModel {
    pub name: Seq<char>,
    pub tags: Seq<Seq<char>>,
    pub category_id: u8,
    pub number_of_patrons: u16,
    pub monthly_revenue: u32,
    pub total_revenue: u32,
    pub is_recommended: bool,
    pub url: Seq<char>,
    pub image_url: Seq<char>,
    pub timestamp: u32,
}

impl View for CreatorSummary {
    type V = RecordModel;

    open spec fn view(&self) -> RecordModel {
        RecordModel {
            name: self.name@,
            tags: self.tags.deep_view(),
            category_id: self.category_id,
            number_of_patrons: self.number_of_patrons,
            monthly_revenue: self.monthly_revenue,
            total_revenue: self.total_revenue,
            is_recommended: self.is_recommended,
            url: self.url@,
            image_url: self.image_url@,
            timestamp: self.timestamp,
        }
    }
}

impl DeepView for CreatorSummary {
    type V = RecordModel;

    open spec fn deep_view(&self) -> RecordModel {
        self@
    }
}

/// The raw pieces of one creator card, as the page addressing finds them.
/// Absent nodes stay absent here; the extractor decides what they mean.
pub struct CardData {
    /// The card anchor's own link target.
    pub link: Option<String>,
    /// Concatenated text of the first name node.
    pub name: Option<String>,
    /// Tag label texts, in document order.
    pub tags: Vec<String>,
    /// Numeric cell texts, in document order.
    pub stats: Vec<String>,
    /// The lazy-load image attribute.
    pub image: Option<String>,
}

/// Spec-level image of a `CardData`.
pub ghost struct CardModel {
    pub link: Option<Seq<char>>,
    pub name: Option<Seq<char>>,
    pub tags: Seq<Seq<char>>,
    pub stats: Seq<Seq<char>>,
    pub image: Option<Seq<char>>,
}

impl View for CardData {
    type V = CardModel;

    open spec fn view(&self) -> CardModel {
        CardModel {
            link: self.link.deep_view(),
            name: self.name.deep_view(),
            tags: self.tags.deep_view(),
            stats: self.stats.deep_view(),
            image: self.image.deep_view(),
        }
    }
}

impl DeepView for CardData {
    type V = CardModel;

    open spec fn deep_view(&self) -> CardModel {
        self@
    }
}

/// One category tile of the category-index page.
pub struct TileData {
    /// The tile anchor's link target, when present.
    pub href: Option<String>,
    /// The tile's concatenated text.
    pub text: String,
}

/// Spec-level image of a `TileData`.
pub ghost struct TileModel {
    pub href: Option<Seq<char>>,
    pub text: Seq<char>,
}

impl View for TileData {
    type V = TileModel;

    open spec fn view(&self) -> TileModel {
        TileModel { href: self.href.deep_view(), text: self.text@ }
    }
}

impl DeepView for TileData {
    type V = TileModel;

    open spec fn deep_view(&self) -> TileModel {
        self@
    }
}

/// One listing page of a category, reduced to plain values.
pub struct PageData {
    /// A featured-section header is present on the page.
    pub has_featured_header: bool,
    /// Cards of the featured carousel, document order.
    pub featured_cards: Vec<CardData>,
    /// Cards of the general list for this page, document order.
    pub general_cards: Vec<CardData>,
    /// Trimmed-or-raw texts of the pagination controls, document order.
    pub pagination_labels: Vec<String>,
}

/// Spec-level image of a `PageData`.
pub ghost struct PageModel {
    pub has_featured_header: bool,
    pub featured_cards: Seq<CardModel>,
    pub general_cards: Seq<CardModel>,
    pub pagination_labels: Seq<Seq<char>>,
}

impl View for PageData {
    type V = PageModel;

    open spec fn view(&self) -> PageModel {
        PageModel {
            has_featured_header: self.has_featured_header,
            featured_cards: self.featured_cards.deep_view(),
            general_cards: self.general_cards.deep_view(),
            pagination_labels: self.pagination_labels.deep_view(),
        }
    }
}

impl DeepView for PageData {
    type V = PageModel;

    open spec fn deep_view(&self) -> PageModel {
        self@
    }
}

} // verus!
