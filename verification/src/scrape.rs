//! The structural addressing of the listing site's markup: trusted, minimal
//! wrappers around the scraper crate's DOM, and verified assembly of plain
//! page data from them.
//!
//! What a selector finds in a page is a deterministic function of the markup
//! and the selector text alone, so each reduction's result carries a name
//! (`cards_of`, `texts_of`, `tiles_of`, `has_match`) that the page-level
//! contracts speak of. The positional difference between page 1 (featured
//! section, then the general list) and later pages (general list first) is
//! decided in verified code, under named selector strategies.

use vstd::prelude::*;

use crate::model::{CardData, CardModel, PageData, TileData, TileModel};

verus! {

#[verifier::external_type_specification]
#[verifier::external_body]
pub struct ExHtml(scraper::Html);

#[verifier::external_type_specification]
#[verifier::external_body]
pub struct ExSelector(scraper::Selector);

#[verifier::external_type_specification]
#[verifier::external_body]
pub struct ExElementRef<'a>(scraper::ElementRef<'a>);

/// Relies on scraper::Selector::parse: compiles a CSS selector group, None
/// when the selector text is invalid.
#[verifier::external_body]
fn parse_selector(sel: &str) -> Option<scraper::Selector> {
    scraper::Selector::parse(sel).ok()
}

/// Relies on scraper::ElementRef::select: the matching descendants of an
/// element, in document order.
#[verifier::external_body]
fn select_in_element<'a>(el: &scraper::ElementRef<'a>, sel: &scraper::Selector) -> Vec<
    scraper::ElementRef<'a>,
> {
    el.select(sel).collect()
}

/// Relies on scraper::ElementRef::text: the element's concatenated text.
#[verifier::external_body]
fn element_text(el: &scraper::ElementRef) -> String {
    el.text().collect::<String>()
}

/// Relies on scraper::ElementRef::attr: the element's own attribute value,
/// when the attribute is present.
#[verifier::external_body]
fn element_attr(el: &scraper::ElementRef, name: &str) -> Option<String> {
    el.attr(name).map(str::to_owned)
}

/// What the card anchors matching `anchor` in the markup `body` reduce to:
/// one card of raw pieces per matching anchor, in document order.
pub uninterp spec fn cards_of(body: Seq<char>, anchor: Seq<char>) -> Seq<CardModel>;

/// Whether any element of the markup `body` matches `selector`.
pub uninterp spec fn has_match(body: Seq<char>, selector: Seq<char>) -> bool;

/// The concatenated texts of the elements of `body` matching `selector`,
/// in document order.
pub uninterp spec fn texts_of(body: Seq<char>, selector: Seq<char>) -> Seq<Seq<char>>;

/// What the category tiles matching `selector` in `body` reduce to: one
/// tile (first-anchor link and concatenated text) per match, in document
/// order.
pub uninterp spec fn tiles_of(body: Seq<char>, selector: Seq<char>) -> Seq<TileModel>;

/// Texts of all matches within an element.
fn texts_within(el: &scraper::ElementRef, selector: &str) -> Vec<String> {
    let mut out: Vec<String> = Vec::new();
    match parse_selector(selector) {
        Some(sel) => {
            let found = select_in_element(el, &sel);
            let mut i: usize = 0;
            while i < found.len()
                decreases found.len() - i,
            {
                out.push(element_text(&found[i]));
                i = i + 1;
            }
        },
        None => {},
    }
    out
}

/// One card's raw pieces, as the selectors find them under its anchor.
fn card_from_element(el: &scraper::ElementRef) -> CardData {
    let link = element_attr(el, "href");
    let name = match parse_selector("div.card__content--name") {
        Some(sel) => {
            let found = select_in_element(el, &sel);
            if found.len() > 0 {
                Some(element_text(&found[0]))
            } else {
                None
            }
        },
        None => None,
    };
    let tags = texts_within(el, "div.card__content--tags > span");
    let stats = texts_within(el, "div.card__content--numbers > div > span:nth-child(1)");
    let image = match parse_selector("div.author__card--image > span > img") {
        Some(sel) => {
            let found = select_in_element(el, &sel);
            if found.len() > 0 {
                element_attr(&found[0], "data-src")
            } else {
                None
            }
        },
        None => None,
    };
    CardData { link, name, tags, stats, image }
}

/// One category tile's raw pieces: its first anchor's link, and its text.
fn tile_from_element(el: &scraper::ElementRef) -> TileData {
    let href = match parse_selector("a") {
        Some(sel) => {
            let anchors = select_in_element(el, &sel);
            if anchors.len() > 0 {
                element_attr(&anchors[0], "href")
            } else {
                None
            }
        },
        None => None,
    };
    TileData { href, text: element_text(el) }
}

/// Relies on scraper's Html::parse_document and Html::select: parses the
/// markup and reduces each matching card anchor with `card_from_element`.
/// Parsing and selection depend on the two strings alone.
#[verifier::external_body]
fn cards_for(body: &str, anchor: &str) -> (r: Vec<CardData>)
    ensures
        r.deep_view() == cards_of(body@, anchor@),
{
    let doc = scraper::Html::parse_document(body);
    match scraper::Selector::parse(anchor) {
        Ok(sel) => doc.select(&sel).map(|el| card_from_element(&el)).collect(),
        Err(_) => Vec::new(),
    }
}

/// Relies on scraper's Html::parse_document and Html::select: whether the
/// markup holds any match of the selector. Depends on the two strings alone.
#[verifier::external_body]
fn doc_has_match(body: &str, selector: &str) -> (r: bool)
    ensures
        r == has_match(body@, selector@),
{
    let doc = scraper::Html::parse_document(body);
    match scraper::Selector::parse(selector) {
        Ok(sel) => doc.select(&sel).next().is_some(),
        Err(_) => false,
    }
}

/// Relies on scraper's Html::parse_document, Html::select and
/// ElementRef::text: the texts of the matching elements. Depends on the two
/// strings alone.
#[verifier::external_body]
fn texts_for(body: &str, selector: &str) -> (r: Vec<String>)
    ensures
        r.deep_view() == texts_of(body@, selector@),
{
    let doc = scraper::Html::parse_document(body);
    match scraper::Selector::parse(selector) {
        Ok(sel) => doc.select(&sel).map(|el| el.text().collect::<String>()).collect(),
        Err(_) => Vec::new(),
    }
}

/// Relies on scraper's Html::parse_document and Html::select: parses the
/// markup and reduces each matching tile with `tile_from_element`. Depends
/// on the two strings alone.
#[verifier::external_body]
fn tiles_for(body: &str, selector: &str) -> (r: Vec<TileData>)
    ensures
        r.deep_view() == tiles_of(body@, selector@),
{
    let doc = scraper::Html::parse_document(body);
    match scraper::Selector::parse(selector) {
        Ok(sel) => doc.select(&sel).map(|el| tile_from_element(&el)).collect(),
        Err(_) => Vec::new(),
    }
}

/// The featured-section header.
pub open spec fn featured_header_selector() -> Seq<char> {
    "div.author__list--header"@
}

/// The featured carousel's card anchors on page 1: the second row.
pub open spec fn featured_carousel_anchor() -> Seq<char> {
    ".less-horizontal-padding > div.row:nth-child(2) > div.col-xs-12 > div.author__list > div.carousel-cell > a"@
}

/// The general list's card anchors on page 1: the row after the featured
/// section.
pub open spec fn first_page_general_anchor() -> Seq<char> {
    ".less-horizontal-padding > div.row:nth-child(3) > div.col-xs-12 > div.author__list > div.carousel-cell > a"@
}

/// The general list's card anchors on later pages: the first list row.
pub open spec fn later_page_general_anchor() -> Seq<char> {
    ".less-horizontal-padding > div.row:nth-child(2) > div.col-xs-12 > div.author__list > div.carousel-cell > a"@
}

/// The pagination controls.
pub open spec fn pagination_selector() -> Seq<char> {
    "ul.pagination > li.pagination__item > a"@
}

/// The category tiles of the category-index page.
pub open spec fn category_tile_selector() -> Seq<char> {
    "div.tags > div"@
}

/// The two general-list locating strategies, chosen by page number: the
/// load-bearing positional difference between page 1 and later pages.
fn general_anchor_for(page: u16) -> (s: &'static str)
    ensures
        page == 1 ==> s@ == first_page_general_anchor(),
        page != 1 ==> s@ == later_page_general_anchor(),
{
    if page == 1 {
        ".less-horizontal-padding > div.row:nth-child(3) > div.col-xs-12 > div.author__list > div.carousel-cell > a"
    } else {
        ".less-horizontal-padding > div.row:nth-child(2) > div.col-xs-12 > div.author__list > div.carousel-cell > a"
    }
}

/// Reduce one listing page's markup to plain values: the featured header
/// and carousel are read on page 1 only, the general list is located by the
/// page-dependent strategy, and the pagination labels are gathered as they
/// stand.
pub fn parse_listing_page(body: &str, page: u16) -> (r: PageData)
    ensures
        r@.has_featured_header == (page == 1 && has_match(body@, featured_header_selector())),
        r@.has_featured_header ==> r@.featured_cards == cards_of(
            body@,
            featured_carousel_anchor(),
        ),
        !r@.has_featured_header ==> r@.featured_cards.len() == 0,
        page == 1 ==> r@.general_cards == cards_of(body@, first_page_general_anchor()),
        page != 1 ==> r@.general_cards == cards_of(body@, later_page_general_anchor()),
        r@.pagination_labels == texts_of(body@, pagination_selector()),
{
    let has_featured_header = if page == 1 {
        doc_has_match(body, "div.author__list--header")
    } else {
        false
    };
    let featured_cards: Vec<CardData> = if has_featured_header {
        cards_for(
            body,
            ".less-horizontal-padding > div.row:nth-child(2) > div.col-xs-12 > div.author__list > div.carousel-cell > a",
        )
    } else {
        Vec::new()
    };
    let general_cards = cards_for(body, general_anchor_for(page));
    let pagination_labels = texts_for(body, "ul.pagination > li.pagination__item > a");
    PageData { has_featured_header, featured_cards, general_cards, pagination_labels }
}

/// Reduce the category-index page's markup to category tiles.
pub fn parse_category_page(body: &str) -> (r: Vec<TileData>)
    ensures
        r.deep_view() == tiles_of(body@, category_tile_selector()),
{
    tiles_for(body, "div.tags > div")
}

} // verus!
