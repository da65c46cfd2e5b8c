//! Tests of the category lister's tile extraction.

use patronite_db::{categories_from_tiles, parse_category_tile, TileData};

fn tile(href: Option<&str>, text: &str) -> TileData {
    TileData { href: href.map(|h| h.to_string()), text: text.to_string() }
}

#[test]
fn absolute_link_loses_the_origin() {
    let c = parse_category_tile(&tile(
        Some("https://patronite.pl/kategoria/47/polityka"),
        "  Polityka  ",
    ))
    .unwrap();
    assert_eq!(c.id, 47);
    assert_eq!(c.name, "Polityka");
    assert_eq!(c.url, "/kategoria/47/polityka");
}

#[test]
fn relative_link_is_kept() {
    let c = parse_category_tile(&tile(Some("/kategoria/5/muzyka"), "Muzyka")).unwrap();
    assert_eq!(c.id, 5);
    assert_eq!(c.url, "/kategoria/5/muzyka");
}

#[test]
fn failing_tiles_are_skipped_alone() {
    let tiles = vec![
        tile(Some("/kategoria/1/a"), "A"),
        tile(None, "no link"),
        tile(Some("/kategoria/999/b"), "id too wide"),
        tile(Some("/kategoria/abc/c"), "id not numeric"),
        tile(Some("/kategoria"), "no id segment"),
        tile(Some("/kategoria/2/d"), "D"),
    ];
    let cs = categories_from_tiles(&tiles);
    assert_eq!(cs.len(), 2);
    assert_eq!(cs[0].id, 1);
    assert_eq!(cs[0].name, "A");
    assert_eq!(cs[1].id, 2);
    assert_eq!(cs[1].name, "D");
}

#[test]
fn id_bound_is_inclusive() {
    assert_eq!(parse_category_tile(&tile(Some("/kategoria/255/x"), "x")).unwrap().id, 255);
    assert!(parse_category_tile(&tile(Some("/kategoria/256/x"), "x")).is_none());
}

#[test]
fn id_segment_admits_a_leading_plus() {
    assert_eq!(parse_category_tile(&tile(Some("/kategoria/+47/x"), "x")).unwrap().id, 47);
    assert!(parse_category_tile(&tile(Some("/kategoria/+/x"), "x")).is_none());
    assert!(parse_category_tile(&tile(Some("/kategoria/++7/x"), "x")).is_none());
}
