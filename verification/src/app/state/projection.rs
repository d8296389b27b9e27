//! A page's blocks, projected into the editor's rows: which blocks get a row
//! of their own, how deep each sits, how a numbered list counts, and what a
//! contents block lists.

use vstd::prelude::*;
use crate::app::state::kinds::{kind_int, kind_to_int, BlockKind};
use crate::app::state::layout::{
    cells_match, column_projection, projection_matches, spec_layout_slots, table_cells, ColumnBox,
    ColumnItem, TableCell,
};
use crate::app::state::runs::{build_runs, text_runs, Mark, TextRun};
use std::collections::HashMap;
use vstd::utf8::encode_utf8;

verus! {

/// A page id in the store's id space.
#[derive(Debug, Clone, Copy, PartialEq, Eq)]
pub struct PageId(pub u64);

/// The store's id of a page whose UI id is `id`: the id's 32 bits,
/// zero-extended.
pub fn core_page_id(id: i32) -> (r: PageId)
    ensures
        r.0 == (if id >= 0 { id as int } else { id + 0x1_0000_0000 }),
{
    let r = PageId(id as u32 as u64);
    assert((id as u32) as int == (if id >= 0 { id as int } else { id + 0x1_0000_0000 })) by (bit_vector);
    r
}

/// Where the find bar's hits sit, grouped by the block (its id as the UI's
/// int) that carries them, as byte ranges of its text. Empty while the bar
/// is closed.
pub type FindHits = HashMap<i32, Vec<(usize, usize)>>;

/// The hits of block `id`.
pub open spec fn hits_for(hits: Map<i32, Vec<(usize, usize)>>, id: u64) -> Seq<(usize, usize)> {
    if hits.contains_key(id as i32) {
        hits[id as i32]@
    } else {
        Seq::empty()
    }
}

/// The hits of one block, as a slice; none for a block the map does not
/// name.
pub fn hits_of(hits: &FindHits, id: u64) -> (r: &[(usize, usize)])
    ensures
        r@ == hits_for(hits@, id),
{
    broadcast use vstd::std_specs::hash::group_hash_axioms;

    let key: i32 = id as i32;
    match hits.get(&key) {
        Some(v) => v.as_slice(),
        None => &[],
    }
}

/// One block of a page, in the page's display order.
#[derive(Debug, Clone)]
pub struct Block {
    pub id: u64,
    pub parent: Option<u64>,
    pub order: u64,
    pub kind: BlockKind,
    pub text: String,
    pub checked: bool,
    /// Bold, italic, links and the rest, over byte ranges of `text`.
    pub marks: Vec<Mark>,
    /// The palette slot of the text colour, 0 for the default.
    pub color: i32,
    /// The palette slot of the background, 0 for the default.
    pub background: i32,
    pub folded: bool,
    /// The page a page or link block points at.
    pub page_ref: Option<u64>,
    pub attachment: Option<u64>,
    pub img_percent: u32,
    pub columns: u32,
}

// ---- finding a block by id ----

/// The first position at or after `from` whose block has id `id`.
pub open spec fn find_from(blocks: Seq<Block>, id: u64, from: int) -> Option<int>
    decreases blocks.len() - from,
{
    if from < 0 || from >= blocks.len() {
        None
    } else if blocks[from].id == id {
        Some(from)
    } else {
        find_from(blocks, id, from + 1)
    }
}

/// The first position whose block has id `id`.
pub open spec fn find_block(blocks: Seq<Block>, id: u64) -> Option<int> {
    find_from(blocks, id, 0)
}

pub(crate) proof fn lemma_find_from(blocks: Seq<Block>, id: u64, from: int)
    requires
        0 <= from <= blocks.len(),
    ensures
        find_from(blocks, id, from) matches Some(k) ==> from <= k < blocks.len() && blocks[k].id
            == id && forall|j: int| from <= j < k ==> blocks[j].id != id,
        find_from(blocks, id, from) is None ==> forall|j: int|
            from <= j < blocks.len() ==> blocks[j].id != id,
    decreases blocks.len() - from,
{
    if from < blocks.len() {
        lemma_find_from(blocks, id, from + 1);
    }
}

pub(crate) fn find(blocks: &[Block], id: u64) -> (r: Option<usize>)
    ensures
        match r {
            Some(k) => find_block(blocks@, id) == Some(k as int),
            None => find_block(blocks@, id) is None,
        },
        r matches Some(k) ==> k < blocks@.len() && blocks@[k as int].id == id,
{
    proof {
        lemma_find_from(blocks@, id, 0);
    }
    let mut k: usize = 0;
    while k < blocks.len()
        invariant
            k <= blocks@.len(),
            find_block(blocks@, id) == find_from(blocks@, id, k as int),
        decreases blocks@.len() - k,
    {
        if blocks[k].id == id {
            return Some(k);
        }
        k = k + 1;
    }
    None
}

// ---- which blocks get a row ----

/// A block whose delegate hides its children: a folded block, and the
/// containers that draw their own children (a table's grid, a columns
/// layout's boxes).
pub open spec fn hides_children(b: Block) -> bool {
    b.folded || b.kind == BlockKind::Table || b.kind == BlockKind::Columns || b.kind
        == BlockKind::Column
}

/// Whether one of the first `steps` ancestors up the chain from `parent`
/// hides its children. The walk stops at a parent that is not on the page.
pub open spec fn hidden_from(blocks: Seq<Block>, parent: Option<u64>, steps: nat) -> bool
    decreases steps,
{
    if steps == 0 {
        false
    } else {
        match parent {
            None => false,
            Some(pid) => match find_block(blocks, pid) {
                None => false,
                Some(k) => hides_children(blocks[k]) || hidden_from(
                    blocks,
                    blocks[k].parent,
                    (steps - 1) as nat,
                ),
            },
        }
    }
}

/// True when `b` gets no editor row at all: a table cell or a column box,
/// or a block with a hiding ancestor within 64 steps.
pub open spec fn spec_hidden(blocks: Seq<Block>, b: Block) -> bool {
    b.kind == BlockKind::TableCell || b.kind == BlockKind::Column || hidden_from(
        blocks,
        b.parent,
        64,
    )
}

/// True when `b` gets no editor row at all. Two things hide a subtree: a
/// folded block anywhere above it, and a container whose delegate draws its
/// children itself.
pub fn hidden_by_ancestor(blocks: &[Block], b: &Block) -> (r: bool)
    ensures
        r == spec_hidden(blocks@, *b),
{
    if matches!(b.kind, BlockKind::TableCell | BlockKind::Column) {
        return true;
    }
    assert(!(b.kind == BlockKind::TableCell || b.kind == BlockKind::Column));
    let mut parent = b.parent;
    let mut guard: usize = 0;
    while guard < 64
        invariant
            guard <= 64,
            spec_hidden(blocks@, *b) == hidden_from(blocks@, b.parent, 64),
            hidden_from(blocks@, b.parent, 64) == hidden_from(
                blocks@,
                parent,
                (64 - guard) as nat,
            ),
        decreases 64 - guard,
    {
        let pid = match parent {
            Some(pid) => pid,
            None => {
                assert(hidden_from(blocks@, parent, (64 - guard) as nat) == false);
                return false;
            },
        };
        let k = match find(blocks, pid) {
            Some(k) => k,
            None => {
                assert(hidden_from(blocks@, parent, (64 - guard) as nat) == false);
                return false;
            },
        };
        let p = &blocks[k];
        if p.folded || matches!(p.kind, BlockKind::Table | BlockKind::Columns | BlockKind::Column) {
            return true;
        }
        parent = p.parent;
        guard = guard + 1;
    }
    false
}

/// The positions, in order, of the first `n` blocks that get a row.
pub open spec fn visible_prefix(blocks: Seq<Block>, n: int) -> Seq<usize>
    decreases n,
{
    if n <= 0 {
        Seq::empty()
    } else if !spec_hidden(blocks, blocks[n - 1]) {
        visible_prefix(blocks, n - 1).push((n - 1) as usize)
    } else {
        visible_prefix(blocks, n - 1)
    }
}

/// The positions of the blocks that get an editor row.
pub open spec fn spec_visible(blocks: Seq<Block>) -> Seq<usize> {
    visible_prefix(blocks, blocks.len() as int)
}

/// Positions (into the page's block list) of the blocks that get an editor
/// row: a folded block stays, its whole subtree does not, and so does a
/// table's grid. Every row-index consumer shares this one list.
pub fn visible_block_indices(blocks: &[Block]) -> (r: Vec<usize>)
    ensures
        r@ == spec_visible(blocks@),
{
    let mut out: Vec<usize> = Vec::new();
    let mut i: usize = 0;
    while i < blocks.len()
        invariant
            i <= blocks@.len(),
            out@ == visible_prefix(blocks@, i as int),
        decreases blocks@.len() - i,
    {
        if !hidden_by_ancestor(blocks, &blocks[i]) {
            out.push(i);
        }
        i = i + 1;
    }
    out
}

/// Every position `spec_visible` lists is a block that gets a row, in
/// increasing order, and every block that gets a row is listed.
pub proof fn lemma_visible_is_exactly_the_shown_blocks(blocks: Seq<Block>, n: int)
    requires
        0 <= n <= blocks.len(),
        blocks.len() <= usize::MAX,
    ensures
        forall|j: int|
            0 <= j < visible_prefix(blocks, n).len() ==> {
                &&& (#[trigger] visible_prefix(blocks, n)[j]) < n
                &&& !spec_hidden(blocks, blocks[visible_prefix(blocks, n)[j] as int])
            },
        forall|a: int, b: int|
            0 <= a < b < visible_prefix(blocks, n).len() ==> (#[trigger] visible_prefix(
                blocks,
                n,
            )[a]) < (#[trigger] visible_prefix(blocks, n)[b]),
        forall|i: int|
            0 <= i < n && !spec_hidden(blocks, #[trigger] blocks[i]) ==> visible_prefix(
                blocks,
                n,
            ).contains(i as usize),
        visible_prefix(blocks, n).len() <= n,
    decreases n,
{
    if n > 0 {
        lemma_visible_is_exactly_the_shown_blocks(blocks, n - 1);
        let prev = visible_prefix(blocks, n - 1);
        let cur = visible_prefix(blocks, n);
        if spec_hidden(blocks, blocks[n - 1]) {
            assert(cur == prev);
        } else {
            assert(cur == prev.push((n - 1) as usize));
            assert forall|j: int|
                0 <= j < cur.len() implies (#[trigger] cur[j]) < n && !spec_hidden(
                    blocks,
                    blocks[cur[j] as int],
                ) by {
                if j < prev.len() {
                    assert(cur[j] == prev[j]);
                    assert(prev[j] < n - 1 && !spec_hidden(blocks, blocks[prev[j] as int]));
                }
            }
            assert forall|a: int, b: int| 0 <= a < b < cur.len() implies (#[trigger] cur[a]) < (
            #[trigger] cur[b]) by {
                assert(cur[a] == prev[a]);
                assert(prev[a] < n - 1);
                if b < prev.len() {
                    assert(cur[b] == prev[b]);
                }
            }
        }
        assert forall|i: int| 0 <= i < n && !spec_hidden(blocks, #[trigger] blocks[i]) implies cur.contains(
            i as usize,
        ) by {
            if i < n - 1 {
                let j = choose|j: int| 0 <= j < prev.len() && prev[j] == i as usize;
                assert(cur[j] == prev[j]);
            } else {
                assert(cur[cur.len() - 1] == i as usize);
            }
        }
    }
}

/// No two blocks of the page share an id.
pub open spec fn ids_unique(blocks: Seq<Block>) -> bool {
    forall|a: int, b: int|
        0 <= a < blocks.len() && 0 <= b < blocks.len() && a != b ==> (#[trigger] blocks[a]).id
            != (#[trigger] blocks[b]).id
}

pub(crate) proof fn lemma_find_unique(blocks: Seq<Block>, k: int)
    requires
        ids_unique(blocks),
        0 <= k < blocks.len(),
    ensures
        find_block(blocks, blocks[k].id) == Some(k),
{
    lemma_find_from(blocks, blocks[k].id, 0);
    if let Some(j) = find_block(blocks, blocks[k].id) {
        if j != k {
            assert(blocks[j].id != blocks[k].id);
        }
    }
}

/// A folded block, a table, a columns layout and a column box hide their
/// children: a child of one gets no row of its own. The hiding block itself
/// keeps its row unless something above it hides it.
pub proof fn lemma_hiding_block_hides_its_children(blocks: Seq<Block>, p: int, c: int)
    requires
        ids_unique(blocks),
        0 <= p < blocks.len(),
        0 <= c < blocks.len(),
        hides_children(blocks[p]),
        blocks[c].parent == Some(blocks[p].id),
    ensures
        spec_hidden(blocks, blocks[c]),
{
    lemma_find_unique(blocks, p);
}

/// Hiding reaches down the tree: a child of a block hidden by one of its
/// first 63 ancestors is hidden too, so a fold takes its whole subtree out
/// (to the depth the walk reaches), not just its children.
pub proof fn lemma_hidden_subtree(blocks: Seq<Block>, p: int, c: int)
    requires
        ids_unique(blocks),
        0 <= p < blocks.len(),
        0 <= c < blocks.len(),
        hidden_from(blocks, blocks[p].parent, 63),
        blocks[c].parent == Some(blocks[p].id),
    ensures
        spec_hidden(blocks, blocks[c]),
{
    lemma_find_unique(blocks, p);
}

// ---- depth ----

/// Nesting depth from `parent` up, counting at most `budget` ancestors:
/// every parent link counts, and the walk stops at a parent that is not on
/// the page.
pub open spec fn depth_from(blocks: Seq<Block>, parent: Option<u64>, budget: nat) -> nat
    decreases budget,
{
    match parent {
        None => 0,
        Some(pid) => if budget <= 1 {
            1
        } else {
            1 + match find_block(blocks, pid) {
                None => 0,
                Some(k) => depth_from(blocks, blocks[k].parent, (budget - 1) as nat),
            }
        },
    }
}

/// Nesting depth of one block (ancestors within the same page), at most 4.
pub open spec fn spec_depth(blocks: Seq<Block>, b: Block) -> nat {
    depth_from(blocks, b.parent, 4)
}

proof fn lemma_depth_bound(blocks: Seq<Block>, parent: Option<u64>, budget: nat)
    ensures
        depth_from(blocks, parent, budget) <= if budget == 0 { 1 } else { budget },
    decreases budget,
{
    if let Some(pid) = parent {
        if budget > 1 {
            if let Some(k) = find_block(blocks, pid) {
                lemma_depth_bound(blocks, blocks[k].parent, (budget - 1) as nat);
            }
        }
    }
}

/// Nesting depth of one block (ancestors within the same page), bounded:
/// the editor renders at most four indent levels.
pub fn block_depth(blocks: &[Block], b: &Block) -> (r: i32)
    ensures
        r == spec_depth(blocks@, *b),
{
    let mut depth: i32 = 0;
    let mut parent = b.parent;
    proof {
        lemma_depth_bound(blocks@, b.parent, 4);
    }
    loop
        invariant
            0 <= depth < 4,
            spec_depth(blocks@, *b) == depth + depth_from(blocks@, parent, (4 - depth) as nat),
        decreases 4 - depth,
    {
        let pid = match parent {
            Some(pid) => pid,
            None => return depth,
        };
        depth = depth + 1;
        if depth >= 4 {
            return depth;
        }
        match find(blocks, pid) {
            Some(k) => parent = blocks[k].parent,
            None => return depth,
        }
    }
}

// ---- the row a block is drawn in ----

/// Walking up from `id` at most `steps` times: the first block that has a
/// row of its own.
pub open spec fn drawn_in(blocks: Seq<Block>, id: u64, steps: nat) -> Option<u64>
    decreases steps,
{
    if steps == 0 {
        None
    } else {
        match find_block(blocks, id) {
            None => None,
            Some(k) => if !spec_hidden(blocks, blocks[k]) {
                Some(blocks[k].id)
            } else {
                match blocks[k].parent {
                    None => None,
                    Some(p) => drawn_in(blocks, p, (steps - 1) as nat),
                }
            },
        }
    }
}

/// The row that draws `id`: its own, or the nearest ancestor's that has one
/// (within 64 steps); `id` itself when no such block is on the page.
pub open spec fn spec_row_id_of(blocks: Seq<Block>, id: u64) -> i32 {
    match drawn_in(blocks, id, 64) {
        Some(r) => r as i32,
        None => id as i32,
    }
}

/// The row that draws `id`: itself for a block with its own row, and
/// otherwise the nearest ancestor that has one — a table cell rides on its
/// table's row, a layout's block on the layout's.
pub fn row_id_of(blocks: &[Block], id: u64) -> (r: i32)
    ensures
        r == spec_row_id_of(blocks@, id),
{
    let mut cur = id;
    let mut n: usize = 0;
    while n < 64
        invariant
            n <= 64,
            drawn_in(blocks@, id, 64) == drawn_in(blocks@, cur, (64 - n) as nat),
        decreases 64 - n,
    {
        let k = match find(blocks, cur) {
            Some(k) => k,
            None => return id as i32,
        };
        if !hidden_by_ancestor(blocks, &blocks[k]) {
            return blocks[k].id as i32;
        }
        match blocks[k].parent {
            Some(p) => cur = p,
            None => return id as i32,
        }
        n = n + 1;
    }
    id as i32
}


// ---- the contents block ----

/// One line of a contents block: the heading it links to, what it reads,
/// and how far it is indented.
#[derive(Debug)]
pub struct TocEntry {
    pub block: i32,
    pub label: String,
    pub level: i32,
}

/// The positions, among the first `n` shown ones, of the headings.
pub open spec fn heading_positions(blocks: Seq<Block>, shown: Seq<usize>, n: int) -> Seq<usize>
    decreases n,
{
    if n <= 0 {
        Seq::empty()
    } else if blocks[shown[n - 1] as int].kind.spec_heading_level() is Some {
        heading_positions(blocks, shown, n - 1).push(shown[n - 1])
    } else {
        heading_positions(blocks, shown, n - 1)
    }
}

/// The contents line of heading `b`: an empty heading reads "Untitled".
pub open spec fn toc_entry_of(e: TocEntry, b: Block) -> bool {
    &&& e.block == b.id as i32
    &&& e.label@ == (if b.text@.len() == 0 { "Untitled"@ } else { b.text@ })
    &&& e.level == b.kind.spec_heading_level()->0 as i32
}

/// The contents `entries` lists for the shown blocks: one line per heading,
/// in reading order.
pub open spec fn toc_matches(entries: Seq<TocEntry>, blocks: Seq<Block>, shown: Seq<usize>) -> bool {
    let hs = heading_positions(blocks, shown, shown.len() as int);
    &&& entries.len() == hs.len()
    &&& forall|j: int| 0 <= j < hs.len() ==> toc_entry_of(#[trigger] entries[j], blocks[hs[j] as int])
}

/// The page's headings, as one contents row's data. `shown` is the row list
/// the projection itself built, so a heading hidden by a fold or by a
/// container's delegate stays out of the contents too.
pub fn toc_entries(blocks: &[Block], shown: &[usize]) -> (r: Vec<TocEntry>)
    requires
        forall|j: int| 0 <= j < shown@.len() ==> (#[trigger] shown@[j]) < blocks@.len(),
    ensures
        toc_matches(r@, blocks@, shown@),
{
    let mut out: Vec<TocEntry> = Vec::new();
    let mut j: usize = 0;
    while j < shown.len()
        invariant
            j <= shown@.len(),
            forall|q: int| 0 <= q < shown@.len() ==> (#[trigger] shown@[q]) < blocks@.len(),
            toc_matches(out@, blocks@, shown@.take(j as int)),
        decreases shown@.len() - j,
    {
        let ghost prev = out@;
        proof {
            assert forall|n: int| 0 <= n <= j implies heading_positions(blocks@, shown@.take(j + 1), n)
                == heading_positions(blocks@, shown@.take(j as int), n) by {
                lemma_heading_positions_prefix(blocks@, shown@.take(j + 1), shown@.take(j as int), n);
            }
        }
        let b = &blocks[shown[j]];
        match b.kind.heading_level() {
            Some(level) => {
                let label = if b.text.unicode_len() == 0 {
                    String::from_str("Untitled")
                } else {
                    b.text.clone()
                };
                out.push(TocEntry { block: b.id as i32, label, level: level as i32 });
                proof {
                    let hs = heading_positions(blocks@, shown@.take(j + 1), j + 1);
                    assert forall|q: int| 0 <= q < hs.len() implies toc_entry_of(
                        #[trigger] out@[q],
                        blocks@[hs[q] as int],
                    ) by {
                        if q < hs.len() - 1 {
                            assert(out@[q] == prev[q]);
                        }
                    }
                }
            },
            None => {},
        }
        j = j + 1;
    }
    assert(shown@.take(shown@.len() as int) =~= shown@);
    out
}

proof fn lemma_heading_positions_prefix(blocks: Seq<Block>, s: Seq<usize>, t: Seq<usize>, n: int)
    requires
        0 <= n <= t.len() <= s.len(),
        forall|k: int| 0 <= k < t.len() ==> s[k] == t[k],
    ensures
        heading_positions(blocks, s, n) == heading_positions(blocks, t, n),
    decreases n,
{
    if n > 0 {
        lemma_heading_positions_prefix(blocks, s, t, n - 1);
    }
}

// ---- the rows ----

/// One editor row.
#[derive(Debug)]
pub struct BlockRow {
    pub id: i32,
    pub kind: i32,
    pub text: String,
    pub checked: bool,
    /// The text cut into runs (see [`build_runs`]).
    pub runs: Vec<TextRun>,
    /// A numbered item's number in the page's visible list, 0 for others.
    pub number: i32,
    /// The last row carries the page's bottom spacer.
    pub tail: bool,
    pub depth: i32,
    pub color: i32,
    pub bg: i32,
    pub folded: bool,
    /// -1 for none.
    pub page_ref: i32,
    /// 0 for none.
    pub attachment: i32,
    pub img_percent: i32,
    /// Has children that a fold can hide, so the chevron shows.
    pub can_fold: bool,
    pub columns: i32,
    /// A table's cells, row-major; empty for other kinds.
    pub table_cells: Vec<TableCell>,
    /// A columns layout's content and boxes; empty for other kinds.
    pub column_items: Vec<ColumnItem>,
    pub column_boxes: Vec<ColumnBox>,
    pub toc_entries: Vec<TocEntry>,
}

/// Some block of the page is a child of block `id`.
pub open spec fn has_children(blocks: Seq<Block>, id: u64) -> bool {
    exists|k: int| 0 <= k < blocks.len() && blocks[k].parent == Some(id)
}

/// How many of the first `n` rows are numbered items.
pub open spec fn numbered_count(blocks: Seq<Block>, shown: Seq<usize>, n: int) -> int
    decreases n,
{
    if n <= 0 {
        0
    } else {
        numbered_count(blocks, shown, n - 1) + (if blocks[shown[n - 1] as int].kind
            == BlockKind::Numbered {
            1int
        } else {
            0
        })
    }
}

/// Row `j` of the projection of `blocks`, whose shown positions are
/// `shown`.
pub open spec fn row_of(
    row: BlockRow,
    blocks: Seq<Block>,
    hits: Map<i32, Vec<(usize, usize)>>,
    shown: Seq<usize>,
    j: int,
) -> bool {
    let b = blocks[shown[j] as int];
    &&& row.id == b.id as i32
    &&& row.kind == kind_int(b.kind)
    &&& row.text@ == b.text@
    &&& row.checked == b.checked
    &&& text_runs(row.runs@, b.text@, b.marks@, hits_for(hits, b.id))
    &&& row.number == (if b.kind == BlockKind::Numbered {
        numbered_count(blocks, shown, j + 1)
    } else {
        0
    })
    &&& row.tail == (j == shown.len() - 1)
    &&& row.depth == spec_depth(blocks, b)
    &&& row.color == b.color
    &&& row.bg == b.background
    &&& row.folded == b.folded
    &&& row.page_ref == (match b.page_ref {
        Some(p) => p as i32,
        None => -1i32,
    })
    &&& row.attachment == (match b.attachment {
        Some(a) => a as i32,
        None => 0i32,
    })
    &&& row.img_percent == b.img_percent as i32
    &&& row.can_fold == (has_children(blocks, b.id) && b.kind != BlockKind::Table && b.kind
        != BlockKind::Columns)
    &&& row.columns == b.columns as i32
    &&& if b.kind == BlockKind::Table {
        cells_match(row.table_cells@, blocks, hits, b)
    } else {
        row.table_cells@.len() == 0
    }
    &&& if b.kind == BlockKind::Columns {
        projection_matches(row.column_items@, row.column_boxes@, blocks, hits, b)
    } else {
        row.column_items@.len() == 0 && row.column_boxes@.len() == 0
    }
    &&& if b.kind == BlockKind::Toc {
        toc_matches(row.toc_entries@, blocks, shown)
    } else {
        row.toc_entries@.len() == 0
    }
}

/// The page fits the machine: every columns layout has a slot list whose
/// counts fit the row's `i32` fields, and every text's byte length a
/// `usize` with room to spare.
pub open spec fn page_fits(blocks: Seq<Block>) -> bool {
    &&& blocks.len() <= i32::MAX
    &&& forall|k: int|
        0 <= k < blocks.len() && (#[trigger] blocks[k]).kind == BlockKind::Columns
            ==> spec_layout_slots(blocks, blocks[k]).len() <= i32::MAX
    &&& forall|k: int| 0 <= k < blocks.len() ==> encode_utf8((#[trigger] blocks[k]).text@).len() < usize::MAX
}

/// The editor rows of a page: one per shown block (see [`spec_visible`]),
/// in order.
pub open spec fn rows_match(rows: Seq<BlockRow>, blocks: Seq<Block>, hits: Map<i32, Vec<(usize, usize)>>) -> bool {
    let shown = spec_visible(blocks);
    &&& rows.len() == shown.len()
    &&& forall|j: int| 0 <= j < rows.len() ==> row_of(#[trigger] rows[j], blocks, hits, shown, j)
}

fn child_exists(blocks: &[Block], id: u64) -> (r: bool)
    ensures
        r == has_children(blocks@, id),
{
    let mut k: usize = 0;
    while k < blocks.len()
        invariant
            k <= blocks@.len(),
            forall|q: int| 0 <= q < k ==> blocks@[q].parent != Some(id),
        decreases blocks@.len() - k,
    {
        if blocks[k].parent == Some(id) {
            return true;
        }
        k = k + 1;
    }
    false
}

/// Project a page's blocks into editor rows: numbered items numbered by
/// position among the rows, the last row flagged as the tail spacer
/// carrier, folded subtrees left out entirely.
pub fn project_blocks(blocks: &[Block], hits: &FindHits) -> (rows: Vec<BlockRow>)
    requires
        page_fits(blocks@),
    ensures
        rows_match(rows@, blocks@, hits@),
{
    let shown = visible_block_indices(blocks);
    proof {
        lemma_visible_is_exactly_the_shown_blocks(blocks@, blocks@.len() as int);
    }
    let mut out: Vec<BlockRow> = Vec::new();
    let mut n: i32 = 0;
    let mut j: usize = 0;
    while j < shown.len()
        invariant
            shown@ == spec_visible(blocks@),
            forall|q: int| 0 <= q < shown@.len() ==> (#[trigger] shown@[q]) < blocks@.len(),
            j <= shown@.len(),
            shown@.len() <= blocks@.len(),
            out@.len() == j,
            n == numbered_count(blocks@, shown@, j as int),
            0 <= n <= j,
            blocks@.len() <= i32::MAX,
            page_fits(blocks@),
            forall|q: int|
                0 <= q < j ==> row_of(
                    #[trigger] out@[q],
                    blocks@,
                    hits@,
                    shown@,
                    q,
                ) || (q == shown@.len() - 1 && row_of(
                    BlockRow { tail: true, ..out@[q] },
                    blocks@,
                    hits@,
                    shown@,
                    q,
                )),
            forall|q: int| 0 <= q < j ==> !(#[trigger] out@[q]).tail,
        decreases shown@.len() - j,
    {
        let b = &blocks[shown[j]];
        let number = if b.kind == BlockKind::Numbered {
            n = n + 1;
            n
        } else {
            0
        };
        let block_hits = hits_of(hits, b.id);
        let runs = build_runs(b.text.as_str(), b.marks.as_slice(), block_hits);
        let cells = if b.kind == BlockKind::Table {
            table_cells(blocks, b, hits)
        } else {
            Vec::new()
        };
        let (items, boxes) = if b.kind == BlockKind::Columns {
            column_projection(blocks, b, hits)
        } else {
            (Vec::new(), Vec::new())
        };
        let toc = if b.kind == BlockKind::Toc {
            toc_entries(blocks, shown.as_slice())
        } else {
            Vec::new()
        };
        let row = BlockRow {
            id: b.id as i32,
            kind: kind_to_int(b.kind),
            text: b.text.clone(),
            checked: b.checked,
            runs,
            number,
            tail: false,
            depth: block_depth(blocks, b),
            color: b.color,
            bg: b.background,
            folded: b.folded,
            page_ref: match b.page_ref {
                Some(p) => p as i32,
                None => -1,
            },
            attachment: match b.attachment {
                Some(a) => a as i32,
                None => 0,
            },
            img_percent: b.img_percent as i32,
            can_fold: child_exists(blocks, b.id) && !matches!(
                b.kind,
                BlockKind::Table | BlockKind::Columns
            ),
            columns: b.columns as i32,
            table_cells: cells,
            column_items: items,
            column_boxes: boxes,
            toc_entries: toc,
        };
        let ghost prev = out@;
        out.push(row);
        proof {
            assert forall|q: int|
                0 <= q < j + 1 implies row_of(
                    #[trigger] out@[q],
                    blocks@,
                    hits@,
                    shown@,
                    q,
                ) || (q == shown@.len() - 1 && row_of(
                    BlockRow { tail: true, ..out@[q] },
                    blocks@,
                    hits@,
                    shown@,
                    q,
                )) by {
                if q < j {
                    assert(out@[q] == prev[q]);
                }
            }
            assert forall|q: int| 0 <= q < j + 1 implies !(#[trigger] out@[q]).tail by {
                if q < j {
                    assert(out@[q] == prev[q]);
                }
            }
        }
        j = j + 1;
    }
    let len = out.len();
    if len > 0 {
        out[len - 1].tail = true;
    }
    proof {
        assert forall|q: int| 0 <= q < out@.len() implies row_of(#[trigger] out@[q], blocks@, hits@, shown@, q) by {
            if q < out@.len() - 1 {
                assert(!row_of(BlockRow { tail: true, ..out@[q] }, blocks@, hits@, shown@, q) || q
                    == shown@.len() - 1);
            }
        }
    }
    out
}

} // verus!
