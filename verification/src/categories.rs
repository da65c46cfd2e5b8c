//! The category lister's logic: turn category tiles into `Category` values.
//! A tile whose link is absent, or whose id segment does not parse as a
//! small integer, is skipped; the remaining tiles are unaffected.

use vstd::prelude::*;
use vstd::string::StrSliceExecFns;
use vstd::string::StringExecFns;

use crate::model::{Category, CategoryModel, TileData, TileModel};
use crate::num::digits_val;
use crate::text::{
    has_lit_at, is_digit, is_digit_exec, lit_at, scan_to, scan_to_char, trim, trim_spec,
};

verus! {

/// The site origin that absolute tile links carry.
pub open spec fn origin() -> Seq<char> {
    "https://patronite.pl"@
}

/// A tile link with the site origin in front loses it; a relative link is
/// kept as it is.
pub open spec fn strip_origin(s: Seq<char>) -> Seq<char> {
    if has_lit_at(s, 0, origin()) {
        s.skip(origin().len() as int)
    } else {
        s
    }
}

/// The third `/`-separated segment of a path, when it exists: for a
/// site-relative category path, the id segment.
pub open spec fn third_segment(s: Seq<char>) -> Option<Seq<char>> {
    let e0 = scan_to(s, 0, '/');
    if e0 == s.len() {
        None
    } else {
        let e1 = scan_to(s, e0 + 1, '/');
        if e1 == s.len() {
            None
        } else {
            Some(s.subrange(e1 + 1, scan_to(s, e1 + 1, '/')))
        }
    }
}

/// The digit part of an id segment: everything after an optional leading `+`.
pub open spec fn id_digits(s: Seq<char>) -> Seq<char> {
    if s.len() > 0 && s[0] == '+' {
        s.drop_first()
    } else {
        s
    }
}

/// An integer as the id segment admits one: an optional leading `+`, then a
/// nonempty all-digit run whose value fits the category id width.
pub open spec fn parse_u8_spec(s: Seq<char>) -> Option<u8> {
    let ds = id_digits(s);
    if ds.len() > 0 && (forall|i: int| 0 <= i < ds.len() ==> is_digit(ds[i])) && digits_val(ds)
        <= 255 {
        Some(digits_val(ds) as u8)
    } else {
        None
    }
}

/// The category one tile yields: `None` when the link is absent or the id
/// segment does not parse.
pub open spec fn tile_category(t: TileModel) -> Option<CategoryModel> {
    match t.href {
        Some(h) => {
            let url = strip_origin(h);
            match third_segment(url) {
                Some(seg) => match parse_u8_spec(seg) {
                    Some(id) => Some(
                        CategoryModel { id, name: trim_spec(t.text), url },
                    ),
                    None => None,
                },
                None => None,
            }
        },
        None => None,
    }
}

/// The categories a tile sequence yields, in document order, skipping tiles
/// that fail.
pub open spec fn tiles_categories(ts: Seq<TileModel>) -> Seq<CategoryModel>
    decreases ts.len(),
{
    if ts.len() == 0 {
        Seq::empty()
    } else {
        let rest = tiles_categories(ts.drop_last());
        match tile_category(ts.last()) {
            Some(c) => rest.push(c),
            None => rest,
        }
    }
}

/// Skipping one failing tile changes nothing else.
pub proof fn lemma_failed_tile_excluded(ts: Seq<TileModel>, i: int)
    requires
        0 <= i < ts.len(),
        tile_category(ts[i]) is None,
    ensures
        tiles_categories(ts) == tiles_categories(ts.remove(i)),
    decreases ts.len(),
{
    if i == ts.len() - 1 {
        assert(ts.remove(i) =~= ts.drop_last());
    } else {
        lemma_failed_tile_excluded(ts.drop_last(), i);
        assert(ts.remove(i).drop_last() =~= ts.drop_last().remove(i));
        assert(ts.remove(i).last() == ts.last());
    }
}

/// Exec parse of a small decimal id.
fn parse_u8(s: &str) -> (r: Option<u8>)
    ensures
        match r {
            Some(v) => parse_u8_spec(s@) == Some(v),
            None => parse_u8_spec(s@) is None,
        },
{
    let n = s.unicode_len();
    let start: usize = if n > 0 && s.get_char(0) == '+' {
        1
    } else {
        0
    };
    let ghost ds = id_digits(s@);
    proof {
        assert(ds =~= s@.subrange(start as int, n as int));
    }
    if n == start {
        return None;
    }
    let mut acc: u32 = 0;
    let mut i: usize = start;
    while i < n
        invariant
            start <= i <= n,
            n == s@.len(),
            ds == id_digits(s@),
            ds == s@.subrange(start as int, n as int),
            forall|j: int| start <= j < i ==> is_digit(s@[j]),
            digits_val(s@.subrange(start as int, i as int)) <= 255 ==> acc == digits_val(
                s@.subrange(start as int, i as int),
            ),
            digits_val(s@.subrange(start as int, i as int)) > 255 ==> acc == 256,
            acc <= 256,
        decreases n - i,
    {
        let c = s.get_char(i);
        if !is_digit_exec(c) {
            proof {
                assert(!is_digit(ds[i - start]));
            }
            return None;
        }
        proof {
            assert(s@.subrange(start as int, i + 1) =~= s@.subrange(start as int, i as int).push(
                s@[i as int],
            ));
            crate::num::lemma_digits_push(s@.subrange(start as int, i as int), s@[i as int]);
        }
        let d = c as u32 - '0' as u32;
        acc = acc * 10 + d;
        if acc > 255 {
            acc = 256;
        }
        i = i + 1;
    }
    proof {
        assert(s@.subrange(start as int, n as int) == ds);
        assert(forall|j: int| 0 <= j < ds.len() ==> is_digit(#[trigger] ds[j]));
    }
    if acc > 255 {
        None
    } else {
        Some(acc as u8)
    }
}

/// Extract one category from a tile: strip the site origin from the link,
/// read the id from the third path segment, trim the display text.
pub fn parse_category_tile(tile: &TileData) -> (r: Option<Category>)
    ensures
        match r {
            Some(c) => tile_category(tile@) == Some(c@),
            None => tile_category(tile@) is None,
        },
{
    proof {
        reveal_strlit("https://patronite.pl");
    }
    let href = match &tile.href {
        Some(h) => h,
        None => {
            return None;
        },
    };
    let hs = href.as_str();
    let url: String = if lit_at(hs, 0, "https://patronite.pl") {
        let hn = hs.unicode_len();
        proof {
            assert(origin().len() == 20);
        }
        String::from_str(hs.substring_char(20, hn))
    } else {
        proof {
            assert(strip_origin(hs@) == hs@);
        }
        href.clone()
    };
    proof {
        assert(url@ == strip_origin(tile@.href->0));
    }
    let us = url.as_str();
    let n = us.unicode_len();
    let e0 = scan_to_char(us, 0, '/');
    if e0 == n {
        return None;
    }
    let e1 = scan_to_char(us, e0 + 1, '/');
    if e1 == n {
        return None;
    }
    let e2 = scan_to_char(us, e1 + 1, '/');
    let seg = us.substring_char(e1 + 1, e2);
    let id = match parse_u8(seg) {
        Some(v) => v,
        None => {
            return None;
        },
    };
    let name = trim(tile.text.as_str());
    Some(Category { id, name, url })
}

/// Extract every category of a tile sequence, in document order, skipping
/// tiles that fail.
pub fn categories_from_tiles(tiles: &Vec<TileData>) -> (r: Vec<Category>)
    ensures
        r.deep_view() == tiles_categories(tiles.deep_view()),
{
    let n = tiles.len();
    let mut out: Vec<Category> = Vec::new();
    let mut i: usize = 0;
    proof {
        assert(out.deep_view() =~= tiles_categories(tiles.deep_view().take(0)));
    }
    while i < n
        invariant
            0 <= i <= n,
            n == tiles@.len(),
            out.deep_view() == tiles_categories(tiles.deep_view().take(i as int)),
        decreases n - i,
    {
        let ghost tv = tiles.deep_view();
        let ghost taken = tv.take(i as int);
        proof {
            assert(tiles.deep_view()[i as int] == tiles@[i as int].deep_view());
            assert(tv.take(i + 1) =~= taken.push(tv[i as int]));
            assert(taken.push(tv[i as int]).drop_last() =~= taken);
        }
        match parse_category_tile(&tiles[i]) {
            Some(c) => {
                let ghost od = out.deep_view();
                out.push(c);
                proof {
                    assert(out.deep_view() =~= od.push(c@));
                }
            },
            None => {},
        }
        i = i + 1;
    }
    proof {
        assert(tiles.deep_view().take(n as int) =~= tiles.deep_view());
    }
    out
}

} // verus!
