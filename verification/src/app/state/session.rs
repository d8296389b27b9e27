//! What a restarted session restores from the stored meta values: the
//! recent pages and the page that was open.

use vstd::prelude::*;
use crate::app::state::fixtures::{PAGE_ATLAS, PAGE_GETTING_STARTED};
use crate::text::{comma_pieces, parse_i32, parse_signed, split_commas};

verus! {

/// A piece that reads as an `i32`, or none.
pub open spec fn page_of(piece: Seq<char>) -> Option<i32> {
    match parse_signed(piece, i32::MIN as int, i32::MAX as int) {
        Some(v) => Some(v as i32),
        None => None,
    }
}

/// The page ids among the first `n` pieces, in order, the unreadable ones
/// left out.
pub open spec fn readable_pages(pieces: Seq<Seq<char>>, n: int) -> Seq<i32>
    decreases n,
{
    if n <= 0 {
        Seq::empty()
    } else {
        match page_of(pieces[n - 1]) {
            Some(id) => readable_pages(pieces, n - 1).push(id),
            None => readable_pages(pieces, n - 1),
        }
    }
}

/// The recent pages stored as `"105,112,102"`: every comma-separated piece
/// that reads as a page id; none stored, none restored.
pub open spec fn spec_recents(value: Option<Seq<char>>) -> Seq<i32> {
    match value {
        None => Seq::empty(),
        Some(v) => readable_pages(comma_pieces(v), comma_pieces(v).len() as int),
    }
}

/// The recent pages a session restores from the stored "recents" value.
pub fn recents_from_meta(value: Option<&str>) -> (r: Vec<i32>)
    ensures
        r@ == spec_recents(
            match value {
                Some(v) => Some(v@),
                None => None,
            },
        ),
{
    let v = match value {
        Some(v) => v,
        None => return Vec::new(),
    };
    let pieces = split_commas(v);
    let ghost views = pieces@.map_values(|p: String| p@);
    let mut out: Vec<i32> = Vec::new();
    let mut i: usize = 0;
    while i < pieces.len()
        invariant
            i <= pieces@.len(),
            views == pieces@.map_values(|p: String| p@),
            views == comma_pieces(v@),
            out@ == readable_pages(views, i as int),
        decreases pieces@.len() - i,
    {
        proof {
            assert(views[i as int] == pieces@[i as int]@);
        }
        match parse_i32(pieces[i].as_str()) {
            Some(id) => out.push(id),
            None => {},
        }
        i = i + 1;
    }
    out
}

/// The page that was open, from the stored "current-page" value.
pub fn current_from_meta(value: Option<&str>) -> (r: Option<i32>)
    ensures
        r == match value {
            Some(v) => page_of(v@),
            None => None,
        },
{
    match value {
        Some(v) => parse_i32(v),
        None => None,
    }
}

/// The page a session opens on: the benchmark page when a benchmark page
/// was asked for (`bench_blocks > 0`), else the page that was open last time
/// if it still exists, else "Getting Started".
pub open spec fn spec_opening_page(bench_blocks: nat, restored: Option<i32>, exists: bool) -> i32 {
    if bench_blocks > 0 {
        PAGE_ATLAS
    } else {
        match restored {
            Some(id) => if exists {
                id
            } else {
                PAGE_GETTING_STARTED
            },
            None => PAGE_GETTING_STARTED,
        }
    }
}

/// The page to open at startup; `exists` answers whether the restored page
/// is still in the workspace.
pub fn opening_page(bench_blocks: usize, restored: Option<i32>, exists: bool) -> (r: i32)
    ensures
        r == spec_opening_page(bench_blocks as nat, restored, exists),
{
    if bench_blocks > 0 {
        return PAGE_ATLAS;
    }
    match restored {
        Some(id) => if exists {
            id
        } else {
            PAGE_GETTING_STARTED
        },
        None => PAGE_GETTING_STARTED,
    }
}

} // verus!
