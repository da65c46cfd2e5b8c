//! The creator paginator: consumes one category's listing pages in order,
//! extracts the featured carousel on page 1 and the general list on every
//! page, flags general records whose identity appeared in the carousel, and
//! decides from each page's pagination controls whether a next page exists.

use vstd::prelude::*;
use vstd::string::StringExecFns;

use crate::extract::{card_identities, card_record, card_valid, extract_cards, get_creator_summary};
use crate::idset::IdentitySet;
use crate::model::{CreatorSummary, PageData, PageModel, RecordModel};
use crate::text::{trim, trim_spec};

verus! {

/// The site's localized label of the next-page control; matched exactly.
pub open spec fn next_label() -> Seq<char> {
    "Następne »"@
}

/// A next-page control is present: some pagination label, trimmed, equals
/// the next-page label exactly.
pub open spec fn has_next_control(labels: Seq<Seq<char>>) -> bool {
    exists|i: int| 0 <= i < labels.len() && trim_spec(labels[i]) == next_label()
}

/// The featured-identity set after one page: on page 1 with a featured
/// header the carousel's identities are added; otherwise unchanged.
pub open spec fn featured_after(p: PageModel, page_no: int, featured: Set<Seq<char>>) -> Set<
    Seq<char>,
> {
    if page_no == 1 && p.has_featured_header {
        featured.union(card_identities(p.featured_cards))
    } else {
        featured
    }
}

/// The records one page contributes, in order: on page 1 the featured
/// carousel's records first (flagged featured), then the general list, each
/// general record flagged iff its identity is in the featured set.
pub open spec fn page_records(
    p: PageModel,
    page_no: int,
    category_id: u8,
    featured: Set<Seq<char>>,
    now: u32,
) -> Seq<RecordModel> {
    let feat = featured_after(p, page_no, featured);
    let from_carousel = if page_no == 1 && p.has_featured_header {
        extract_cards(p.featured_cards, category_id, feat, true, now)
    } else {
        Seq::empty()
    };
    from_carousel + extract_cards(p.general_cards, category_id, feat, false, now)
}

/// The records of a whole category, starting at page index `i` (numbered
/// `page_no`) with a featured set already accumulated: each page contributes
/// its records, and the crawl goes on exactly while a next-page control is
/// present.
pub open spec fn crawl_from(
    pages: Seq<PageModel>,
    i: int,
    page_no: int,
    category_id: u8,
    featured: Set<Seq<char>>,
    now: u32,
) -> Seq<RecordModel>
    decreases pages.len() - i,
{
    if i < 0 || i >= pages.len() {
        Seq::empty()
    } else {
        let recs = page_records(pages[i], page_no, category_id, featured, now);
        if !has_next_control(pages[i].pagination_labels) {
            recs
        } else {
            recs + crawl_from(
                pages,
                i + 1,
                page_no + 1,
                category_id,
                featured_after(pages[i], page_no, featured),
                now,
            )
        }
    }
}

/// The index of the page where the crawl stops: the first page without a
/// next-page control; `None` when every page has one.
pub open spec fn crawl_stop(pages: Seq<PageModel>) -> Option<int>
    decreases pages.len(),
{
    if pages.len() == 0 {
        None
    } else if !has_next_control(pages[0].pagination_labels) {
        Some(0)
    } else {
        match crawl_stop(pages.drop_first()) {
            Some(i) => Some(i + 1),
            None => None,
        }
    }
}

/// The page loop terminates after the first page without a next-page
/// control: the crawl visits exactly the pages that expose the control,
/// plus that one. Stated over `crawl_stop`: the stop index exists iff some
/// page lacks the control, every page before it has the control, and the
/// stop page itself lacks it.
pub proof fn lemma_crawl_stop(pages: Seq<PageModel>)
    ensures
        crawl_stop(pages) is Some <==> exists|j: int|
            0 <= j < pages.len() && !has_next_control(pages[j].pagination_labels),
        crawl_stop(pages) matches Some(i) ==> 0 <= i < pages.len() && !has_next_control(
            pages[i].pagination_labels,
        ) && forall|j: int| 0 <= j < i ==> has_next_control(pages[j].pagination_labels),
    decreases pages.len(),
{
    if pages.len() > 0 && has_next_control(pages[0].pagination_labels) {
        let tail = pages.drop_first();
        lemma_crawl_stop(tail);
        if exists|j: int| 0 <= j < pages.len() && !has_next_control(pages[j].pagination_labels) {
            let j = choose|j: int|
                0 <= j < pages.len() && !has_next_control(pages[j].pagination_labels);
            assert(j > 0);
            assert(!has_next_control(tail[j - 1].pagination_labels));
        }
        if crawl_stop(tail) is Some {
            let i = crawl_stop(tail)->0;
            assert(tail[i] == pages[i + 1]);
            assert forall|j: int| 0 <= j < i + 1 implies has_next_control(
                pages[j].pagination_labels,
            ) by {
                if j > 0 {
                    assert(has_next_control(tail[j - 1].pagination_labels));
                }
            }
        }
    }
}

/// One category's crawl in progress: the next page to ingest, the featured
/// identities gathered on page 1, and the records in emission order.
pub struct CategoryCrawl {
    /// The enclosing category's id, stamped into every record.
    pub category_id: u8,
    /// The number of the next page to ingest, starting at 1.
    pub page: u16,
    /// Identities seen in the featured carousel on page 1.
    pub featured: IdentitySet,
    /// Records gathered so far, in emission order.
    pub records: Vec<CreatorSummary>,
}

impl CategoryCrawl {
    pub fn new(category_id: u8) -> (s: Self)
        ensures
            s.category_id == category_id,
            s.page == 1,
            s.featured@ == Set::<Seq<char>>::empty(),
            s.records@ == Seq::<CreatorSummary>::empty(),
    {
        CategoryCrawl {
            category_id,
            page: 1,
            featured: IdentitySet::new(),
            records: Vec::new(),
        }
    }

    /// Ingest the next page of this category: appends exactly the page's
    /// records, accumulates featured identities on page 1, and reports
    /// whether a next-page control is present.
    pub fn ingest_page(&mut self, page: &PageData, now: u32) -> (has_next: bool)
        requires
            old(self).page < u16::MAX,
        ensures
            final(self).category_id == old(self).category_id,
            final(self).page == old(self).page + 1,
            final(self).featured@ == featured_after(
                page@,
                old(self).page as int,
                old(self).featured@,
            ),
            final(self).records.deep_view() == old(self).records.deep_view() + page_records(
                page@,
                old(self).page as int,
                old(self).category_id,
                old(self).featured@,
                now,
            ),
            has_next == has_next_control(page@.pagination_labels),
    {
        let ghost page0 = self.page as int;
        let ghost feat0 = self.featured@;
        let ghost recs0 = self.records.deep_view();
        let ghost featfinal = featured_after(page@, page0, feat0);
        let ghost cat = self.category_id;
        let first_page = self.page == 1;
        if first_page && page.has_featured_header {
            let nf = page.featured_cards.len();
            let mut i: usize = 0;
            while i < nf
                invariant
                    0 <= i <= nf,
                    nf == page.featured_cards@.len(),
                    self.category_id == cat,
                    self.page as int == page0,
                    self.featured@ == feat0.union(
                        card_identities(page@.featured_cards.take(i as int)),
                    ),
                    self.records.deep_view() == recs0 + extract_cards(
                        page@.featured_cards.take(i as int),
                        cat,
                        featfinal,
                        true,
                        now,
                    ),
                decreases nf - i,
            {
                let ghost taken = page@.featured_cards.take(i as int);
                let ghost cardv = page@.featured_cards[i as int];
                proof {
                    assert(page@.featured_cards.take(i + 1) =~= taken.push(cardv));
                    assert(taken.push(cardv).drop_last() =~= taken);
                }
                let r = get_creator_summary(&page.featured_cards[i], self.category_id, &self.featured, true, now);
                match r {
                    Some(rec) => {
                        proof {
                            // Forced-featured extraction ignores the set it
                            // ran against.
                            assert(card_record(cardv, cat, self.featured@, true, now)
                                == card_record(cardv, cat, featfinal, true, now));
                            assert(feat0.union(card_identities(taken)).insert(cardv.link->0)
                                =~= feat0.union(card_identities(taken.push(cardv))));
                        }
                        let ghost rd = self.records.deep_view();
                        let url = rec.url.clone();
                        self.featured.insert(url);
                        self.records.push(rec);
                        proof {
                            assert(self.records.deep_view() =~= rd.push(rec@));
                        }
                    },
                    None => {
                        proof {
                            assert(!card_valid(cardv));
                            assert(feat0.union(card_identities(taken)) =~= feat0.union(
                                card_identities(taken.push(cardv)),
                            ));
                        }
                    },
                }
                i = i + 1;
            }
            proof {
                assert(page@.featured_cards.take(nf as int) =~= page@.featured_cards);
            }
        }
        proof {
            assert(self.featured@ == featfinal);
            let carousel = if page0 == 1 && page@.has_featured_header {
                extract_cards(page@.featured_cards, cat, featfinal, true, now)
            } else {
                Seq::<RecordModel>::empty()
            };
            assert(self.records.deep_view() =~= recs0 + carousel);
        }
        let ghost mid = self.records.deep_view();
        let ng = page.general_cards.len();
        let mut i: usize = 0;
        while i < ng
            invariant
                0 <= i <= ng,
                ng == page.general_cards@.len(),
                self.category_id == cat,
                self.page as int == page0,
                self.featured@ == featfinal,
                self.records.deep_view() == mid + extract_cards(
                    page@.general_cards.take(i as int),
                    cat,
                    featfinal,
                    false,
                    now,
                ),
            decreases ng - i,
        {
            let ghost taken = page@.general_cards.take(i as int);
            let ghost cardv = page@.general_cards[i as int];
            proof {
                assert(page@.general_cards.take(i + 1) =~= taken.push(cardv));
                assert(taken.push(cardv).drop_last() =~= taken);
            }
            let r = get_creator_summary(&page.general_cards[i], self.category_id, &self.featured, false, now);
            match r {
                Some(rec) => {
                    let ghost rd = self.records.deep_view();
                    self.records.push(rec);
                    proof {
                        assert(self.records.deep_view() =~= rd.push(rec@));
                    }
                },
                None => {},
            }
            i = i + 1;
        }
        proof {
            assert(page@.general_cards.take(ng as int) =~= page@.general_cards);
            assert(self.records.deep_view() =~= recs0 + page_records(page@, page0, cat, feat0, now));
        }
        // Exact-match check of the localized next-page label.
        let next_lab = String::from_str("Następne »");
        let nl = page.pagination_labels.len();
        let mut has_next = false;
        let mut i: usize = 0;
        while i < nl
            invariant
                0 <= i <= nl,
                nl == page.pagination_labels@.len(),
                next_lab@ == next_label(),
                self.category_id == cat,
                self.page as int == page0,
                self.featured@ == featfinal,
                self.records.deep_view() == recs0 + page_records(page@, page0, cat, feat0, now),
                has_next == exists|j: int|
                    0 <= j < i && trim_spec(page@.pagination_labels[j]) == next_label(),
            decreases nl - i,
        {
            let t = trim(page.pagination_labels[i].as_str());
            if t.eq(&next_lab) {
                proof {
                    assert(trim_spec(page@.pagination_labels[i as int]) == next_label());
                }
                has_next = true;
            }
            i = i + 1;
        }
        self.page = self.page + 1;
        has_next
    }
}

/// Crawl one whole category from an ordered sequence of its listing pages:
/// ingest pages in order until one carries no next-page control. Returns
/// `None` when the pages run out while a next page was still promised.
pub fn crawl_category(category_id: u8, pages: &Vec<PageData>, now: u32) -> (r: Option<
    Vec<CreatorSummary>,
>)
    requires
        pages@.len() < u16::MAX as int,
    ensures
        (r is Some) == (crawl_stop(pages.deep_view()) is Some),
        r matches Some(v) ==> v.deep_view() == crawl_from(
            pages.deep_view(),
            0,
            1,
            category_id,
            Set::empty(),
            now,
        ),
{
    let ghost pv = pages.deep_view();
    let mut crawl = CategoryCrawl::new(category_id);
    let n = pages.len();
    let mut i: usize = 0;
    proof {
        assert(pv.len() == pages@.len());
        assert(crawl.records.deep_view() =~= Seq::<RecordModel>::empty());
        assert(Seq::<RecordModel>::empty() + crawl_from(pv, 0, 1, category_id, Set::empty(), now)
            =~= crawl_from(pv, 0, 1, category_id, Set::empty(), now));
    }
    while i < n
        invariant
            0 <= i <= n,
            n == pages@.len(),
            pv == pages.deep_view(),
            n == pv.len() < u16::MAX,
            crawl.category_id == category_id,
            crawl.page as int == i + 1,
            forall|j: int| 0 <= j < i ==> has_next_control(#[trigger] pv[j].pagination_labels),
            crawl_from(pv, 0, 1, category_id, Set::empty(), now) == crawl.records.deep_view()
                + crawl_from(pv, i as int, i + 1, category_id, crawl.featured@, now),
        decreases n - i,
    {
        let ghost feat_before = crawl.featured@;
        let ghost recs_before = crawl.records.deep_view();
        let has_next = crawl.ingest_page(&pages[i], now);
        proof {
            assert(pages.deep_view()[i as int] == pages@[i as int].deep_view());
            assert(pv == pages.deep_view());
            assert(pages@[i as int].deep_view() == pv[i as int]);
            if !has_next {
                assert(crawl_from(pv, i as int, i + 1, category_id, feat_before, now)
                    == page_records(pv[i as int], i + 1, category_id, feat_before, now));
            }
        }
        i = i + 1;
        if !has_next {
            proof {
                lemma_crawl_stop(pv);
                assert(!has_next_control(pv[i - 1].pagination_labels));
            }
            return Some(crawl.records);
        }
    }
    proof {
        lemma_crawl_stop(pv);
        if exists|j: int| 0 <= j < pv.len() && !has_next_control(pv[j].pagination_labels) {
            let j = choose|j: int|
                0 <= j < pv.len() && !has_next_control(pv[j].pagination_labels);
            assert(has_next_control(pv[j].pagination_labels));
        }
    }
    None
}

} // verus!
