//! The menus' rows: the "/" menu and the "+" insert menu, filtered by what
//! was typed, and the row builders of the block menu and the sidebar.

use vstd::prelude::*;
use crate::app::state::kinds::{
    BLOCK_BULLET, BLOCK_CALLOUT, BLOCK_CODE, BLOCK_COLUMNS, BLOCK_DATABASE, BLOCK_DIVIDER,
    BLOCK_EMBED, BLOCK_FILE, BLOCK_H1, BLOCK_H2, BLOCK_H3, BLOCK_IMAGE, BLOCK_LINK, BLOCK_MATH,
    BLOCK_NUMBERED, BLOCK_PAGE, BLOCK_PARAGRAPH, BLOCK_QUOTE, BLOCK_TABLE, BLOCK_TODO, BLOCK_TOC,
    BLOCK_TOGGLE,
};
use crate::text::{contains, has_substring, lowercase, to_lowercase};

verus! {

/// One row of the "/" or "+" menu: a block-kind int (negative for a kind
/// still to come, which the menu shows disabled), its label and hint.
#[derive(Debug)]
pub struct SlashRow {
    pub id: i32,
    pub label: String,
    pub hint: String,
    pub disabled: bool,
}

/// The "/" menu: the kinds without a markdown shortcut (typing the symbol
/// converts, so the menu only lists the rest).
pub open spec fn slash_spec() -> Seq<(i32, Seq<char>, Seq<char>)> {
    seq![
        (BLOCK_PARAGRAPH, "Text"@, "Plain paragraph"@),
        (BLOCK_TOGGLE, "Toggle list"@, "Collapsible section"@),
        (BLOCK_IMAGE, "Image"@, "Embed a picture from a file"@),
        (BLOCK_FILE, "File"@, "Attach a file of any type"@),
        (BLOCK_TABLE, "Table"@, "Simple grid of cells"@),
        (BLOCK_COLUMNS, "Columns"@, "Two columns of blocks, side by side"@),
        (BLOCK_CALLOUT, "Callout"@, "Highlighted box with an emoji"@),
        (BLOCK_CODE, "Code"@, "Monospaced block — or type ```"@),
        (BLOCK_MATH, "Math"@, "LaTeX formula — or type $$"@),
        (BLOCK_TOC, "Table of contents"@, "Links to this page's headings"@),
        (BLOCK_EMBED, "Embed"@, "A link as a card — paste an address"@),
        (BLOCK_DATABASE, "Table view"@, "A database, as a table"@),
        (BLOCK_DIVIDER, "Divider"@, "Visual separator — or type ---"@),
    ]
}

/// The "+" menu: every kind, and the database layouts still to come as
/// disabled placeholders (id -1).
pub open spec fn insert_spec() -> Seq<(i32, Seq<char>, Seq<char>)> {
    seq![
        (BLOCK_PARAGRAPH, "Text"@, "Plain paragraph"@),
        (BLOCK_PAGE, "Page"@, "Embed a child page"@),
        (BLOCK_LINK, "Link to page"@, "Point at an existing page"@),
        (BLOCK_IMAGE, "Image"@, "Embed a picture from a file"@),
        (BLOCK_FILE, "File"@, "Attach a file of any type"@),
        (BLOCK_TODO, "To-do list"@, "Track tasks with a checkbox"@),
        (BLOCK_H1, "Heading 1"@, "Big section heading"@),
        (BLOCK_H2, "Heading 2"@, "Medium section heading"@),
        (BLOCK_H3, "Heading 3"@, "Small section heading"@),
        (BLOCK_TABLE, "Table"@, "Simple grid of cells"@),
        (BLOCK_COLUMNS, "Columns"@, "Side-by-side columns"@),
        (BLOCK_BULLET, "Bulleted list"@, "Simple bulleted list"@),
        (BLOCK_NUMBERED, "Numbered list"@, "Ordered list"@),
        (BLOCK_TOGGLE, "Toggle list"@, "Collapsible section"@),
        (BLOCK_QUOTE, "Quote"@, "Capture a quote"@),
        (BLOCK_DIVIDER, "Divider"@, "Visual separator"@),
        (BLOCK_CALLOUT, "Callout"@, "Highlighted box with an emoji"@),
        (BLOCK_CODE, "Code"@, "Monospaced block"@),
        (BLOCK_MATH, "Math"@, "LaTeX formula, rendered as Unicode"@),
        (BLOCK_TOC, "Table of contents"@, "Links to this page's headings"@),
        (BLOCK_EMBED, "Embed"@, "A link as a card, opened in the browser"@),
        (BLOCK_DATABASE, "Table view"@, "A database, as a table"@),
        (-1i32, "Board"@, "Board view · later"@),
        (-1i32, "Board"@, "Board view · later"@),
        (-1i32, "Gallery"@, "Gallery view · later"@),
        (-1i32, "List view"@, "Database list · later"@),
        (-1i32, "Calendar"@, "Calendar view · later"@),
        (-1i32, "Timeline"@, "Timeline view · later"@),
    ]
}

/// A label the lower-cased filter `needle` keeps: every label for an empty
/// filter, else one whose lower-cased text contains it.
pub open spec fn label_kept(needle: Seq<char>, label: Seq<char>) -> bool {
    needle.len() == 0 || has_substring(lowercase(label), needle)
}

/// The first `n` items that `needle` keeps, in order.
pub open spec fn kept_items(items: Seq<(i32, Seq<char>, Seq<char>)>, needle: Seq<char>, n: int) -> Seq<
    (i32, Seq<char>, Seq<char>),
>
    decreases n,
{
    if n <= 0 {
        Seq::empty()
    } else if label_kept(needle, items[n - 1].1) {
        kept_items(items, needle, n - 1).push(items[n - 1])
    } else {
        kept_items(items, needle, n - 1)
    }
}

/// `rows` are the items, a negative id disabled.
pub open spec fn rows_are(rows: Seq<SlashRow>, items: Seq<(i32, Seq<char>, Seq<char>)>) -> bool {
    &&& rows.len() == items.len()
    &&& forall|i: int|
        0 <= i < rows.len() ==> {
            &&& (#[trigger] rows[i]).id == items[i].0
            &&& rows[i].label@ == items[i].1
            &&& rows[i].hint@ == items[i].2
            &&& rows[i].disabled == (items[i].0 < 0)
        }
}

fn filter_menu(items: &Vec<(i32, &str, &str)>, filter: &str) -> (r: Vec<SlashRow>)
    ensures
        rows_are(
            r@,
            kept_items(
                items@.map_values(|t: (i32, &str, &str)| (t.0, t.1@, t.2@)),
                lowercase(filter@),
                items@.len() as int,
            ),
        ),
{
    let ghost all = items@.map_values(|t: (i32, &str, &str)| (t.0, t.1@, t.2@));
    let needle = to_lowercase(filter);
    let mut out: Vec<SlashRow> = Vec::new();
    let mut i: usize = 0;
    while i < items.len()
        invariant
            all == items@.map_values(|t: (i32, &str, &str)| (t.0, t.1@, t.2@)),
            needle@ == lowercase(filter@),
            i <= items@.len(),
            rows_are(out@, kept_items(all, needle@, i as int)),
        decreases items@.len() - i,
    {
        let (id, label, hint) = items[i];
        let keep = if needle.as_str().unicode_len() == 0 {
            true
        } else {
            let lower = to_lowercase(label);
            contains(lower.as_str(), needle.as_str())
        };
        if keep {
            out.push(
                SlashRow {
                    id,
                    label: String::from_str(label),
                    hint: String::from_str(hint),
                    disabled: id < 0,
                },
            );
        }
        proof {
            assert(all[i as int] == (id, label@, hint@));
        }
        i = i + 1;
    }
    out
}

/// The "/" menu's rows for the text typed after the slash: the items whose
/// label contains it, ignoring case.
pub fn slash_items(filter: &str) -> (r: Vec<SlashRow>)
    ensures
        rows_are(r@, kept_items(slash_spec(), lowercase(filter@), 13)),
        forall|i: int|
            0 <= i < r@.len() ==> lowercase(filter@).len() == 0 || occurs_in(
                lowercase(filter@),
                lowercase((#[trigger] r@[i]).label@),
            ),
        forall|j: int|
            #![trigger slash_spec()[j]]
            0 <= j < 13 && (lowercase(filter@).len() == 0 || occurs_in(
                lowercase(filter@),
                lowercase(slash_spec()[j].1),
            )) ==> exists|i: int|
                0 <= i < r@.len() && (#[trigger] r@[i]).id == slash_spec()[j].0 && r@[i].label@
                    == slash_spec()[j].1 && r@[i].hint@ == slash_spec()[j].2,
{
    let items: Vec<(i32, &str, &str)> = vec![
        (BLOCK_PARAGRAPH, "Text", "Plain paragraph"),
        (BLOCK_TOGGLE, "Toggle list", "Collapsible section"),
        (BLOCK_IMAGE, "Image", "Embed a picture from a file"),
        (BLOCK_FILE, "File", "Attach a file of any type"),
        (BLOCK_TABLE, "Table", "Simple grid of cells"),
        (BLOCK_COLUMNS, "Columns", "Two columns of blocks, side by side"),
        (BLOCK_CALLOUT, "Callout", "Highlighted box with an emoji"),
        (BLOCK_CODE, "Code", "Monospaced block — or type ```"),
        (BLOCK_MATH, "Math", "LaTeX formula — or type $$"),
        (BLOCK_TOC, "Table of contents", "Links to this page's headings"),
        (BLOCK_EMBED, "Embed", "A link as a card — paste an address"),
        (BLOCK_DATABASE, "Table view", "A database, as a table"),
        (BLOCK_DIVIDER, "Divider", "Visual separator — or type ---"),
    ];
    assert(items@.map_values(|t: (i32, &str, &str)| (t.0, t.1@, t.2@)) =~= slash_spec());
    let rows = filter_menu(&items, filter);
    proof {
        lemma_rows_are_exactly_the_matches(rows@, slash_spec(), lowercase(filter@));
    }
    rows
}

/// The "+" menu's rows for the block's line: the items whose label contains
/// it, ignoring case; the placeholders come disabled.
pub fn insert_items(filter: &str) -> (r: Vec<SlashRow>)
    ensures
        rows_are(r@, kept_items(insert_spec(), lowercase(filter@), 28)),
        forall|i: int|
            0 <= i < r@.len() ==> lowercase(filter@).len() == 0 || occurs_in(
                lowercase(filter@),
                lowercase((#[trigger] r@[i]).label@),
            ),
        forall|j: int|
            #![trigger insert_spec()[j]]
            0 <= j < 28 && (lowercase(filter@).len() == 0 || occurs_in(
                lowercase(filter@),
                lowercase(insert_spec()[j].1),
            )) ==> exists|i: int|
                0 <= i < r@.len() && (#[trigger] r@[i]).id == insert_spec()[j].0 && r@[i].label@
                    == insert_spec()[j].1 && r@[i].hint@ == insert_spec()[j].2,
{
    let items: Vec<(i32, &str, &str)> = vec![
        (BLOCK_PARAGRAPH, "Text", "Plain paragraph"),
        (BLOCK_PAGE, "Page", "Embed a child page"),
        (BLOCK_LINK, "Link to page", "Point at an existing page"),
        (BLOCK_IMAGE, "Image", "Embed a picture from a file"),
        (BLOCK_FILE, "File", "Attach a file of any type"),
        (BLOCK_TODO, "To-do list", "Track tasks with a checkbox"),
        (BLOCK_H1, "Heading 1", "Big section heading"),
        (BLOCK_H2, "Heading 2", "Medium section heading"),
        (BLOCK_H3, "Heading 3", "Small section heading"),
        (BLOCK_TABLE, "Table", "Simple grid of cells"),
        (BLOCK_COLUMNS, "Columns", "Side-by-side columns"),
        (BLOCK_BULLET, "Bulleted list", "Simple bulleted list"),
        (BLOCK_NUMBERED, "Numbered list", "Ordered list"),
        (BLOCK_TOGGLE, "Toggle list", "Collapsible section"),
        (BLOCK_QUOTE, "Quote", "Capture a quote"),
        (BLOCK_DIVIDER, "Divider", "Visual separator"),
        (BLOCK_CALLOUT, "Callout", "Highlighted box with an emoji"),
        (BLOCK_CODE, "Code", "Monospaced block"),
        (BLOCK_MATH, "Math", "LaTeX formula, rendered as Unicode"),
        (BLOCK_TOC, "Table of contents", "Links to this page's headings"),
        (BLOCK_EMBED, "Embed", "A link as a card, opened in the browser"),
        (BLOCK_DATABASE, "Table view", "A database, as a table"),
        (-1, "Board", "Board view · later"),
        (-1, "Board", "Board view · later"),
        (-1, "Gallery", "Gallery view · later"),
        (-1, "List view", "Database list · later"),
        (-1, "Calendar", "Calendar view · later"),
        (-1, "Timeline", "Timeline view · later"),
    ];
    assert(items@.map_values(|t: (i32, &str, &str)| (t.0, t.1@, t.2@)) =~= insert_spec());
    let rows = filter_menu(&items, filter);
    proof {
        lemma_rows_are_exactly_the_matches(rows@, insert_spec(), lowercase(filter@));
    }
    rows
}

/// The "/" menu's page picker: every page in tree order (its id, title and
/// breadcrumb), kept when its title contains the typed filter, ignoring
/// case. No row is disabled.
pub fn open_slash_pick(pages: &[(i32, String, String)], filter: &str) -> (r: Vec<SlashRow>)
    ensures
        r@.len() == kept_items(
            pages@.map_values(|p: (i32, String, String)| (p.0, p.1@, p.2@)),
            lowercase(filter@),
            pages@.len() as int,
        ).len(),
        forall|i: int|
            0 <= i < r@.len() ==> {
                let want = kept_items(
                    pages@.map_values(|p: (i32, String, String)| (p.0, p.1@, p.2@)),
                    lowercase(filter@),
                    pages@.len() as int,
                )[i];
                &&& (#[trigger] r@[i]).id == want.0
                &&& r@[i].label@ == want.1
                &&& r@[i].hint@ == want.2
                &&& !r@[i].disabled
            },
        forall|i: int|
            0 <= i < r@.len() ==> lowercase(filter@).len() == 0 || occurs_in(
                lowercase(filter@),
                lowercase((#[trigger] r@[i]).label@),
            ),
        forall|j: int|
            #![trigger pages@[j]]
            0 <= j < pages@.len() && (lowercase(filter@).len() == 0 || occurs_in(
                lowercase(filter@),
                lowercase(pages@[j].1@),
            )) ==> exists|i: int|
                0 <= i < r@.len() && (#[trigger] r@[i]).id == pages@[j].0 && r@[i].label@
                    == pages@[j].1@ && r@[i].hint@ == pages@[j].2@,
{
    let ghost all = pages@.map_values(|p: (i32, String, String)| (p.0, p.1@, p.2@));
    let needle = to_lowercase(filter);
    let mut out: Vec<SlashRow> = Vec::new();
    let mut i: usize = 0;
    while i < pages.len()
        invariant
            all == pages@.map_values(|p: (i32, String, String)| (p.0, p.1@, p.2@)),
            needle@ == lowercase(filter@),
            i <= pages@.len(),
            out@.len() == kept_items(all, needle@, i as int).len(),
            forall|j: int|
                0 <= j < out@.len() ==> {
                    let want = kept_items(all, needle@, i as int)[j];
                    &&& (#[trigger] out@[j]).id == want.0
                    &&& out@[j].label@ == want.1
                    &&& out@[j].hint@ == want.2
                    &&& !out@[j].disabled
                },
        decreases pages@.len() - i,
    {
        let (id, title, crumb) = (&pages[i].0, &pages[i].1, &pages[i].2);
        let keep = if needle.as_str().unicode_len() == 0 {
            true
        } else {
            let lower = to_lowercase(title.as_str());
            contains(lower.as_str(), needle.as_str())
        };
        proof {
            assert(all[i as int] == (*id, title@, crumb@));
        }
        if keep {
            out.push(SlashRow { id: *id, label: title.clone(), hint: crumb.clone(), disabled: false });
        }
        i = i + 1;
    }
    proof {
        lemma_rows_are_exactly_the_matches(out@, all, lowercase(filter@));
        assert forall|j: int|
            #![trigger pages@[j]]
            0 <= j < pages@.len() && (lowercase(filter@).len() == 0 || occurs_in(
                lowercase(filter@),
                lowercase(pages@[j].1@),
            )) implies exists|i: int|
                0 <= i < out@.len() && (#[trigger] out@[i]).id == pages@[j].0 && out@[i].label@
                    == pages@[j].1@ && out@[i].hint@ == pages@[j].2@ by {
            assert(all[j] == (pages@[j].0, pages@[j].1@, pages@[j].2@));
        }
    }
    out
}

/// The page behind the picker row at `focus`, unless that row is disabled
/// or past the end.
pub fn slash_selected_page(rows: &[SlashRow], focus: i32) -> (r: Option<i32>)
    ensures
        r == ({
            let i = if focus < 0 {
                0
            } else {
                focus as int
            };
            if i >= rows@.len() || rows@[i].disabled {
                None
            } else {
                Some(rows@[i].id)
            }
        }),
{
    let i: usize = if focus < 0 {
        0
    } else {
        focus as usize
    };
    if i >= rows.len() || rows[i].disabled {
        return None;
    }
    Some(rows[i].id)
}

/// `needle` occurs in `hay` as one contiguous run of chars.
#[verifier::opaque]
pub open spec fn occurs_in(needle: Seq<char>, hay: Seq<char>) -> bool {
    exists|k: int| 0 <= k && k + needle.len() <= hay.len() && #[trigger] hay.subrange(k, k + needle.len()) == needle
}

/// The typed filter keeps exactly the items whose lower-cased label holds
/// the whole lower-cased filter as one contiguous run (every item, for an
/// empty filter): each kept item's label holds it, and no item whose label
/// holds it is left out.
#[verifier::spinoff_prover]
pub proof fn lemma_filter_keeps_exactly_the_matches(
    items: Seq<(i32, Seq<char>, Seq<char>)>,
    needle: Seq<char>,
    n: int,
)
    requires
        0 <= n <= items.len(),
    ensures
        forall|j: int|
            0 <= j < kept_items(items, needle, n).len() ==> needle.len() == 0 || occurs_in(
                needle,
                lowercase(#[trigger] kept_items(items, needle, n)[j].1),
            ),
        forall|i: int|
            #![trigger items[i]]
            0 <= i < n && (needle.len() == 0 || occurs_in(needle, lowercase(items[i].1)))
                ==> kept_items(items, needle, n).contains(items[i]),
    decreases n,
{
    if n > 0 {
        lemma_filter_keeps_exactly_the_matches(items, needle, n - 1);
        let prev = kept_items(items, needle, n - 1);
        let cur = kept_items(items, needle, n);
        let last = items[n - 1];
        let hay = lowercase(last.1);
        assert(has_substring(hay, needle) <==> occurs_in(needle, hay)) by {
            reveal(occurs_in);
            if has_substring(hay, needle) {
                let k = choose|k: int| 0 <= k <= hay.len() - needle.len() && #[trigger] hay.subrange(k, k + needle.len()) == needle;
                assert(hay.subrange(k, k + needle.len()) == needle);
            }
            if occurs_in(needle, hay) {
                let k = choose|k: int| 0 <= k && k + needle.len() <= hay.len() && #[trigger] hay.subrange(k, k + needle.len()) == needle;
                assert(hay.subrange(k, k + needle.len()) == needle);
            }
        }
        if label_kept(needle, last.1) {
            assert(cur == prev.push(last));
            assert forall|j: int| 0 <= j < cur.len() implies needle.len() == 0 || occurs_in(
                needle,
                lowercase(#[trigger] cur[j].1),
            ) by {
                if j < prev.len() {
                    assert(cur[j] == prev[j]);
                }
            }
        } else {
            assert(cur == prev);
        }
        assert forall|i: int|
            #![trigger items[i]]
            0 <= i < n && (needle.len() == 0 || occurs_in(needle, lowercase(items[i].1)))
                implies cur.contains(items[i]) by {
            if i < n - 1 {
                assert(prev.contains(items[i]));
                let w = choose|w: int| 0 <= w < prev.len() && prev[w] == items[i];
                if label_kept(needle, last.1) {
                    assert(cur[w] == prev[w]);
                }
                assert(cur[w] == items[i]);
            } else {
                assert(label_kept(needle, last.1));
                assert(cur[prev.len() as int] == items[i]);
            }
        }
    }
}

/// Rows that show the kept items of a filter show exactly the matches: each
/// row's lower-cased label holds the whole lower-cased filter, and every item
/// whose label holds it has a row.
pub proof fn lemma_rows_are_exactly_the_matches(
    rows: Seq<SlashRow>,
    items: Seq<(i32, Seq<char>, Seq<char>)>,
    needle: Seq<char>,
)
    requires
        rows.len() == kept_items(items, needle, items.len() as int).len(),
        forall|i: int|
            0 <= i < rows.len() ==> (#[trigger] rows[i]).id == kept_items(
                items,
                needle,
                items.len() as int,
            )[i].0 && rows[i].label@ == kept_items(items, needle, items.len() as int)[i].1
                && rows[i].hint@ == kept_items(items, needle, items.len() as int)[i].2,
    ensures
        forall|i: int|
            0 <= i < rows.len() ==> needle.len() == 0 || occurs_in(
                needle,
                lowercase((#[trigger] rows[i]).label@),
            ),
        forall|j: int|
            #![trigger items[j]]
            0 <= j < items.len() && (needle.len() == 0 || occurs_in(needle, lowercase(items[j].1)))
                ==> exists|i: int|
                0 <= i < rows.len() && (#[trigger] rows[i]).id == items[j].0 && rows[i].label@
                    == items[j].1 && rows[i].hint@ == items[j].2,
{
    let kept = kept_items(items, needle, items.len() as int);
    lemma_filter_keeps_exactly_the_matches(items, needle, items.len() as int);
    assert forall|i: int| 0 <= i < rows.len() implies needle.len() == 0 || occurs_in(
        needle,
        lowercase((#[trigger] rows[i]).label@),
    ) by {
        assert(rows[i].label@ == kept[i].1);
    }
    assert forall|j: int|
        #![trigger items[j]]
        0 <= j < items.len() && (needle.len() == 0 || occurs_in(needle, lowercase(items[j].1)))
            implies exists|i: int|
            0 <= i < rows.len() && (#[trigger] rows[i]).id == items[j].0 && rows[i].label@
                == items[j].1 && rows[i].hint@ == items[j].2 by {
        assert(kept.contains(items[j]));
        let w = choose|w: int| 0 <= w < kept.len() && kept[w] == items[j];
        assert(rows[w].id == kept[w].0);
    }
}

/// An empty filter keeps every item, in order; a filter only ever drops
/// items, never reorders or invents one.
#[verifier::spinoff_prover]
pub proof fn lemma_filter_keeps_order(items: Seq<(i32, Seq<char>, Seq<char>)>, needle: Seq<char>, n: int)
    requires
        0 <= n <= items.len(),
    ensures
        needle.len() == 0 ==> kept_items(items, needle, n) == items.take(n),
        kept_items(items, needle, n).len() <= n,
        forall|j: int|
            #![trigger kept_items(items, needle, n)[j]]
            0 <= j < kept_items(items, needle, n).len() ==> exists|i: int|
                0 <= i < n && #[trigger] items[i] == kept_items(items, needle, n)[j] && label_kept(
                    needle,
                    items[i].1,
                ),
    decreases n,
{
    if n > 0 {
        lemma_filter_keeps_order(items, needle, n - 1);
        assert(items.take(n) =~= items.take(n - 1).push(items[n - 1]));
        let prev = kept_items(items, needle, n - 1);
        let cur = kept_items(items, needle, n);
        if label_kept(needle, items[n - 1].1) {
            assert(cur == prev.push(items[n - 1]));
        } else {
            assert(cur == prev);
        }
        assert forall|j: int| #![trigger cur[j]] 0 <= j < cur.len() implies exists|i: int|
            0 <= i < n && #[trigger] items[i] == cur[j] && label_kept(needle, items[i].1) by {
            if j < prev.len() {
                assert(cur[j] == prev[j]);
                let i = choose|i: int| 0 <= i < n - 1 && #[trigger] items[i] == prev[j] && label_kept(needle, items[i].1);
                assert(items[i] == cur[j]);
            } else {
                assert(label_kept(needle, items[n - 1].1));
                assert(cur[j] == items[n - 1]);
                assert(items[n - 1] == cur[j] && label_kept(needle, items[n - 1].1));
            }
        }
    }
}

// ---- the block menu and the sidebar ----

/// One row of the block menu (`swatch < 0` is no swatch).
#[derive(Debug)]
pub struct MenuRow {
    pub id: i32,
    pub label: String,
    pub icon: String,
    pub danger: bool,
    pub swatch: i32,
    pub swatch_bg: bool,
    pub check: bool,
}

/// What a menu row shows: id, label, icon, danger, swatch, swatch on the
/// background palette, check mark.
pub type MenuView = (i32, Seq<char>, Seq<char>, bool, i32, bool, bool);

impl View for MenuRow {
    type V = MenuView;

    open spec fn view(&self) -> MenuView {
        (self.id, self.label@, self.icon@, self.danger, self.swatch, self.swatch_bg, self.check)
    }
}

/// What a list of menu rows shows, row by row.
pub open spec fn shows(rows: Seq<MenuRow>) -> Seq<MenuView> {
    rows.map_values(|r: MenuRow| r@)
}

/// A plain row: no danger, no swatch, no check.
pub open spec fn entry(id: int, label: Seq<char>, icon: Seq<char>) -> MenuView {
    (id as i32, label, icon, false, -1i32, false, false)
}

/// A block-menu row, unchecked.
pub fn row(id: i32, label: &str, icon: &str, danger: bool, swatch: i32, swatch_bg: bool) -> (r: MenuRow)
    ensures
        r.id == id,
        r.label@ == label@,
        r.icon@ == icon@,
        r.danger == danger,
        r.swatch == swatch,
        r.swatch_bg == swatch_bg,
        !r.check,
{
    MenuRow {
        id,
        label: String::from_str(label),
        icon: String::from_str(icon),
        danger,
        swatch,
        swatch_bg,
        check: false,
    }
}

/// One row of the sidebar's tree.
#[derive(Debug)]
pub struct SidebarNode {
    pub id: i32,
    pub label: String,
    pub kind: String,
    pub depth: i32,
    pub expanded: bool,
    pub has_children: bool,
    pub selected: bool,
    pub y: i32,
    pub icon: String,
}

/// A section header of the sidebar: no page (id -1), kind "header".
pub fn header(label: &str) -> (r: SidebarNode)
    ensures
        r.id == -1,
        r.label@ == label@,
        r.kind@ == "header"@,
        r.depth == 0,
        !r.expanded,
        !r.has_children,
        !r.selected,
        r.y == 0,
        r.icon@ == ""@,
{
    SidebarNode {
        id: -1,
        label: String::from_str(label),
        kind: String::from_str("header"),
        depth: 0,
        expanded: false,
        has_children: false,
        selected: false,
        y: 0,
        icon: String::from_str(""),
    }
}

/// A flat row of the sidebar (a favorite, a recent page): top level, no
/// children.
pub fn leaf_row(id: i32, label: &str, kind: &str, selected: bool, icon: &str) -> (r: SidebarNode)
    ensures
        r.id == id,
        r.label@ == label@,
        r.kind@ == kind@,
        r.depth == 0,
        !r.expanded,
        !r.has_children,
        r.selected == selected,
        r.y == 0,
        r.icon@ == icon@,
{
    SidebarNode {
        id,
        label: String::from_str(label),
        kind: String::from_str(kind),
        depth: 0,
        expanded: false,
        has_children: false,
        selected,
        y: 0,
        icon: String::from_str(icon),
    }
}

} // verus!
