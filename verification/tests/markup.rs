//! Tests of the structural page addressing: real markup in, plain values
//! out, and the full crawl on top of it.

use patronite_db::{categories_from_tiles, crawl_category, parse_category_page, parse_listing_page, Deduplicator};

fn page_one_html() -> String {
    r#"<html><body>
    <div class="less-horizontal-padding">
      <div class="author__list--header">Our choice</div>
      <div class="row">
        <div class="col-xs-12"><div class="author__list">
          <div class="carousel-cell"><a href="/star">
            <div class="card__content--name"> Star </div>
            <div class="card__content--tags"><span> music </span><span>art</span></div>
            <div class="card__content--numbers"><div><span>10</span><span>patrons</span></div><div><span>4.23 mln zł</span></div></div>
            <div class="author__card--image"><span><img data-src="/img/star.png"></span></div>
          </a></div>
        </div></div>
      </div>
      <div class="row">
        <div class="col-xs-12"><div class="author__list">
          <div class="carousel-cell"><a href="/star">
            <div class="card__content--name"> Star </div>
            <div class="card__content--numbers"><div><span>10</span></div></div>
            <div class="author__card--image"><span><img data-src="/img/star.png"></span></div>
          </a></div>
          <div class="carousel-cell"><a href="/gen">
            <div class="card__content--name">Gen</div>
            <div class="card__content--numbers"><div><span>20</span></div></div>
            <div class="author__card--image"><span><img data-src="/img/gen.png"></span></div>
          </a></div>
          <div class="carousel-cell"><a href="/broken">
            <div class="card__content--numbers"><div><span>30</span></div></div>
            <div class="author__card--image"><span><img data-src="/img/broken.png"></span></div>
          </a></div>
        </div></div>
      </div>
    </div>
    <ul class="pagination">
      <li class="pagination__item"><a href="p">1</a></li>
      <li class="pagination__item"><a href="p"> Następne » </a></li>
    </ul>
    </body></html>"#
        .to_string()
}

fn page_two_html() -> String {
    r#"<html><body>
    <div class="less-horizontal-padding">
      <div class="page-title">More creators</div>
      <div class="row">
        <div class="col-xs-12"><div class="author__list">
          <div class="carousel-cell"><a href="/late">
            <div class="card__content--name">Late</div>
            <div class="card__content--tags"><span>films</span></div>
            <div class="card__content--numbers"><div><span>197 tys. zł</span></div></div>
            <div class="author__card--image"><span><img data-src="/img/late.png"></span></div>
          </a></div>
        </div></div>
      </div>
    </div>
    <ul class="pagination">
      <li class="pagination__item"><a href="p">1</a></li>
      <li class="pagination__item"><a href="p">2</a></li>
    </ul>
    </body></html>"#
        .to_string()
}

#[test]
fn listing_page_one_is_reduced_to_plain_values() {
    let p = parse_listing_page(&page_one_html(), 1);
    assert!(p.has_featured_header);
    assert_eq!(p.featured_cards.len(), 1);
    assert_eq!(p.featured_cards[0].link.as_deref(), Some("/star"));
    assert_eq!(p.featured_cards[0].stats, vec!["10".to_string(), "4.23 mln zł".to_string()]);
    assert_eq!(p.featured_cards[0].tags.len(), 2);
    assert_eq!(p.general_cards.len(), 3);
    assert_eq!(p.general_cards[1].link.as_deref(), Some("/gen"));
    assert!(p.general_cards[2].name.is_none());
    assert_eq!(p.pagination_labels.len(), 2);
}

#[test]
fn listing_page_two_reads_the_first_row() {
    let p = parse_listing_page(&page_two_html(), 2);
    assert!(!p.has_featured_header);
    assert!(p.featured_cards.is_empty());
    assert_eq!(p.general_cards.len(), 1);
    assert_eq!(p.general_cards[0].link.as_deref(), Some("/late"));
}

#[test]
fn crawl_over_markup_pages() {
    let pages = vec![
        parse_listing_page(&page_one_html(), 1),
        parse_listing_page(&page_two_html(), 2),
    ];
    let records = crawl_category(7, &pages, 5).expect("page 2 carries no next control");
    // Featured Star, general Star and Gen; the broken card is skipped; Late
    // from page 2.
    assert_eq!(records.len(), 4);
    let mut dedup = Deduplicator::new();
    let emitted = dedup.filter_new(records);
    let urls: Vec<&str> = emitted.iter().map(|r| r.url.as_str()).collect();
    assert_eq!(urls, vec!["/star", "/gen", "/late"]);
    assert!(emitted[0].is_recommended);
    assert_eq!(emitted[0].name, "Star");
    assert_eq!(emitted[0].tags, vec!["music".to_string(), "art".to_string()]);
    assert_eq!(emitted[0].number_of_patrons, 10);
    assert_eq!(emitted[0].monthly_revenue, 4230000);
    assert_eq!(emitted[0].image_url, "/img/star.png");
    assert_eq!(emitted[2].total_revenue, 0);
    assert_eq!(emitted[2].number_of_patrons, (197000 % 65536) as u16);
}

#[test]
fn category_page_is_reduced_to_tiles() {
    let html = r#"<html><body>
    <div class="tags">
      <div><a href="https://patronite.pl/kategoria/47/polityka">Polityka</a></div>
      <div><span>no anchor</span></div>
      <div><a href="/kategoria/abc/x">Broken id</a></div>
      <div><a href="/kategoria/3/muzyka"> Muzyka </a></div>
    </div>
    </body></html>"#;
    let tiles = parse_category_page(html);
    assert_eq!(tiles.len(), 4);
    let cs = categories_from_tiles(&tiles);
    assert_eq!(cs.len(), 2);
    assert_eq!(cs[0].id, 47);
    assert_eq!(cs[0].name, "Polityka");
    assert_eq!(cs[0].url, "/kategoria/47/polityka");
    assert_eq!(cs[1].id, 3);
    assert_eq!(cs[1].name, "Muzyka");
}
