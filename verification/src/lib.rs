//! Verified crawl-and-extract core for a paginated creator-listing site.
//!
//! The library models listing pages as plain data, extracts typed creator
//! records from them, normalizes locale-formatted magnitude strings, drives
//! pagination for one category, and deduplicates records within one run.
//! The structural addressing of the site's markup stands behind a small
//! trusted layer over the scraper crate; network fetching and the
//! time-series sink live outside the library and hand it plain values.

pub mod categories;
pub mod dedup;
pub mod extract;
pub mod idset;
pub mod model;
pub mod num;
pub mod paginate;
pub mod scrape;
pub mod text;

pub use categories::categories_from_tiles;
pub use categories::parse_category_tile;
pub use dedup::Deduplicator;
pub use extract::get_creator_summary;
pub use idset::IdentitySet;
pub use model::CardData;
pub use model::Category;
pub use model::CreatorSummary;
pub use model::PageData;
pub use model::TileData;
pub use num::parse_number;
pub use paginate::crawl_category;
pub use paginate::CategoryCrawl;
pub use scrape::parse_category_page;
pub use scrape::parse_listing_page;
