//! Tests of the crawl pipeline on plain page data: card extraction,
//! pagination, featured flagging, and run-scoped deduplication.

use patronite_db::{crawl_category, CardData, CategoryCrawl, Deduplicator, PageData};

fn card(link: &str, name: &str, image: &str, stats: &[&str]) -> CardData {
    CardData {
        link: Some(link.to_string()),
        name: Some(name.to_string()),
        tags: Vec::new(),
        stats: stats.iter().map(|s| s.to_string()).collect(),
        image: Some(image.to_string()),
    }
}

fn page(
    has_featured_header: bool,
    featured: Vec<CardData>,
    general: Vec<CardData>,
    labels: &[&str],
) -> PageData {
    PageData {
        has_featured_header,
        featured_cards: featured,
        general_cards: general,
        pagination_labels: labels.iter().map(|s| s.to_string()).collect(),
    }
}

#[test]
fn deduplicator_accepts_each_identity_once() {
    let mut dedup = Deduplicator::new();
    assert!(dedup.accept(&"/alice".to_string()));
    assert!(dedup.accept(&"/bob".to_string()));
    assert!(!dedup.accept(&"/alice".to_string()));
    assert!(dedup.accept(&"/carol".to_string()));
    assert!(!dedup.accept(&"/alice".to_string()));
    assert!(!dedup.accept(&"/bob".to_string()));
}

#[test]
fn extraction_fills_every_field() {
    let mut crawl = CategoryCrawl::new(9);
    let mut c = card("/alice", "  Alice  ", "/img/alice.png", &["7112", "4.23 mln zł", "197 tys. zł"]);
    c.tags = vec![" music ".to_string(), "art".to_string()];
    let p = page(false, vec![], vec![c], &[]);
    let has_next = crawl.ingest_page(&p, 1234);
    assert!(!has_next);
    assert_eq!(crawl.records.len(), 1);
    let r = &crawl.records[0];
    assert_eq!(r.name, "Alice");
    assert_eq!(r.tags, vec!["music".to_string(), "art".to_string()]);
    assert_eq!(r.category_id, 9);
    assert_eq!(r.number_of_patrons, 7112);
    assert_eq!(r.monthly_revenue, 4230000);
    assert_eq!(r.total_revenue, 197000);
    assert!(!r.is_recommended);
    assert_eq!(r.url, "/alice");
    assert_eq!(r.image_url, "/img/alice.png");
    assert_eq!(r.timestamp, 1234);
}

#[test]
fn missing_stat_cells_default_to_zero() {
    let mut crawl = CategoryCrawl::new(1);
    let p = page(false, vec![], vec![card("/a", "A", "/i", &["5"])], &[]);
    crawl.ingest_page(&p, 0);
    let r = &crawl.records[0];
    assert_eq!(r.number_of_patrons, 5);
    assert_eq!(r.monthly_revenue, 0);
    assert_eq!(r.total_revenue, 0);
}

#[test]
fn patron_count_wraps_to_its_field_width() {
    // The patron field is narrower than the revenue fields; a first cell
    // beyond it keeps only the low bits, as the record layout dictates.
    let mut crawl = CategoryCrawl::new(1);
    let p = page(false, vec![], vec![card("/a", "A", "/i", &["112430"])], &[]);
    crawl.ingest_page(&p, 0);
    assert_eq!(crawl.records[0].number_of_patrons, (112430 % 65536) as u16);
}

#[test]
fn card_missing_a_required_field_is_skipped_alone() {
    let mut crawl = CategoryCrawl::new(2);
    let mut broken = card("/bad", "Bad", "/i", &[]);
    broken.name = None;
    let mut no_image = card("/noimg", "NoImage", "/i", &[]);
    no_image.image = None;
    let mut no_link = card("/nolink", "NoLink", "/i", &[]);
    no_link.link = None;
    let p = page(
        false,
        vec![],
        vec![card("/a", "A", "/ia", &["1"]), broken, no_image, no_link, card("/b", "B", "/ib", &["2"])],
        &[],
    );
    crawl.ingest_page(&p, 0);
    assert_eq!(crawl.records.len(), 2);
    assert_eq!(crawl.records[0].url, "/a");
    assert_eq!(crawl.records[0].number_of_patrons, 1);
    assert_eq!(crawl.records[1].url, "/b");
    assert_eq!(crawl.records[1].number_of_patrons, 2);
}

#[test]
fn featured_and_general_copies_both_flagged_then_collapsed() {
    let mut crawl = CategoryCrawl::new(3);
    let p1 = page(
        true,
        vec![card("/star", "Star", "/is", &[])],
        vec![card("/star", "Star", "/is", &[]), card("/other", "Other", "/io", &[])],
        &[],
    );
    crawl.ingest_page(&p1, 0);
    // Extracted twice internally, both carrying the same identity.
    assert_eq!(crawl.records.len(), 3);
    assert_eq!(crawl.records[0].url, "/star");
    assert!(crawl.records[0].is_recommended);
    assert_eq!(crawl.records[1].url, "/star");
    assert!(crawl.records[1].is_recommended);
    assert_eq!(crawl.records[2].url, "/other");
    assert!(!crawl.records[2].is_recommended);
    // After run-scoped filtering the identity appears at most once.
    let mut dedup = Deduplicator::new();
    let fresh = dedup.filter_new(crawl.records);
    assert_eq!(fresh.len(), 2);
    assert_eq!(fresh[0].url, "/star");
    assert!(fresh[0].is_recommended);
    assert_eq!(fresh[1].url, "/other");
}

#[test]
fn pagination_follows_the_exact_next_label() {
    let mut crawl = CategoryCrawl::new(4);
    let p = page(false, vec![], vec![], &["1", "2", " Następne » "]);
    assert!(crawl.ingest_page(&p, 0));
    let p2 = page(false, vec![], vec![], &["1", "2", "Poprzednie «"]);
    assert!(!crawl.ingest_page(&p2, 0));
    let mut crawl2 = CategoryCrawl::new(4);
    // A fuzzy match is no match: the label must equal the localized text.
    let p3 = page(false, vec![], vec![], &["Następne"]);
    assert!(!crawl2.ingest_page(&p3, 0));
    // No-break spaces around the label are trimmed away like any whitespace.
    let p4 = page(false, vec![], vec![], &["\u{a0}Następne »\u{a0}"]);
    assert!(crawl2.ingest_page(&p4, 0));
}

#[test]
fn empty_category_ends_after_page_one() {
    let pages = vec![page(false, vec![], vec![], &[])];
    let out = crawl_category(5, &pages, 0).expect("the single page carries no next control");
    assert!(out.is_empty());
}

#[test]
fn featured_header_with_empty_carousel_proceeds() {
    let pages = vec![page(true, vec![], vec![card("/a", "A", "/i", &[])], &[])];
    let out = crawl_category(5, &pages, 0).unwrap();
    assert_eq!(out.len(), 1);
    assert_eq!(out[0].url, "/a");
    assert!(!out[0].is_recommended);
}

#[test]
fn crawl_stops_only_when_no_next_control_remains() {
    let pages = vec![
        page(false, vec![], vec![card("/a", "A", "/i", &[])], &["Następne »"]),
        page(false, vec![], vec![card("/b", "B", "/i", &[])], &["Następne »"]),
    ];
    // Every page promises a next page, and the pages ran out.
    assert!(crawl_category(5, &pages, 0).is_none());
}

#[test]
fn end_to_end_two_page_category() {
    let p1 = page(
        true,
        vec![card("/feat", "Feat", "/if", &["10"])],
        vec![card("/feat", "Feat", "/if", &["10"]), card("/gen", "Gen", "/ig", &["20"])],
        &["Następne »"],
    );
    let p2 = page(false, vec![], vec![card("/late", "Late", "/il", &["30"])], &["1", "2"]);
    let pages = vec![p1, p2];
    let records = crawl_category(7, &pages, 99).expect("page 2 has no next control");
    assert_eq!(records.len(), 4);
    let mut dedup = Deduplicator::new();
    let emitted = dedup.filter_new(records);
    let urls: Vec<&str> = emitted.iter().map(|r| r.url.as_str()).collect();
    assert_eq!(urls, vec!["/feat", "/gen", "/late"]);
    assert!(emitted[0].is_recommended);
    assert!(!emitted[1].is_recommended);
    assert!(!emitted[2].is_recommended);
    assert_eq!(emitted[0].number_of_patrons, 10);
    assert_eq!(emitted[1].number_of_patrons, 20);
    assert_eq!(emitted[2].number_of_patrons, 30);
    assert!(emitted.iter().all(|r| r.category_id == 7 && r.timestamp == 99));
}
