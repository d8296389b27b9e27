//! Containers whose delegate draws their children: a table's grid and a
//! columns layout's boxes. Both read a block's children in order-key order.

use vstd::prelude::*;
use crate::app::state::kinds::{kind_int, kind_to_int, BlockKind};
use crate::app::state::projection::{find, find_block, hits_for, hits_of, Block, FindHits};
use crate::app::state::runs::{build_runs, text_runs, TextRun};
use vstd::utf8::encode_utf8;

verus! {

// ---- a block's children, by order key ----

/// Block `k` sorts after block `j`: a larger order key, or the same key and
/// a later position (a stable sort by order key).
pub open spec fn key_after(blocks: Seq<Block>, j: int, k: int) -> bool {
    blocks[j].order < blocks[k].order || (blocks[j].order == blocks[k].order && j < k)
}

/// `s` with position `k` inserted before the first entry whose order key
/// is larger than `k`'s.
pub open spec fn insert_by_order(blocks: Seq<Block>, s: Seq<int>, k: int) -> Seq<int>
    decreases s.len(),
{
    if s.len() == 0 {
        seq![k]
    } else if blocks[s[0]].order > blocks[k].order {
        seq![k] + s
    } else {
        seq![s[0]] + insert_by_order(blocks, s.drop_first(), k)
    }
}

/// The positions among the first `n` whose block satisfies `pick`, stably
/// sorted by order key.
pub open spec fn sorted_picks(blocks: Seq<Block>, pick: spec_fn(Block) -> bool, n: int) -> Seq<int>
    decreases n,
{
    if n <= 0 {
        Seq::empty()
    } else if pick(blocks[n - 1]) {
        insert_by_order(blocks, sorted_picks(blocks, pick, n - 1), n - 1)
    } else {
        sorted_picks(blocks, pick, n - 1)
    }
}

/// The children of block `parent`.
pub open spec fn is_child_of(parent: u64) -> spec_fn(Block) -> bool {
    |b: Block| b.parent == Some(parent)
}

/// The positions of block `parent`'s children, stably sorted by order key.
pub open spec fn children_sorted(blocks: Seq<Block>, parent: u64) -> Seq<int> {
    sorted_picks(blocks, is_child_of(parent), blocks.len() as int)
}

/// `s` is strictly increasing in (order key, position).
pub open spec fn sorted_by_key(blocks: Seq<Block>, s: Seq<int>) -> bool {
    forall|a: int, b: int| 0 <= a < b < s.len() ==> key_after(blocks, #[trigger] s[a], #[trigger] s[b])
}

proof fn lemma_insert_by_order(blocks: Seq<Block>, s: Seq<int>, k: int, p: int)
    requires
        0 <= p <= s.len(),
        forall|q: int| 0 <= q < p ==> blocks[#[trigger] s[q]].order <= blocks[k].order,
        p < s.len() ==> blocks[s[p]].order > blocks[k].order,
    ensures
        insert_by_order(blocks, s, k) == s.insert(p, k),
    decreases s.len(),
{
    if s.len() == 0 {
        assert(s.insert(p, k) =~= seq![k]);
    } else if p == 0 {
        assert(s.insert(0, k) =~= seq![k] + s);
    } else {
        let t = s.drop_first();
        assert forall|q: int| 0 <= q < p - 1 implies blocks[#[trigger] t[q]].order <= blocks[k].order by {
            assert(t[q] == s[q + 1]);
        }
        if p - 1 < t.len() {
            assert(t[p - 1] == s[p]);
        }
        lemma_insert_by_order(blocks, t, k, p - 1);
        assert(s.insert(p, k) =~= seq![s[0]] + t.insert(p - 1, k));
    }
}

/// The picks stay sorted, hold each picked position once, and nothing else.
proof fn lemma_sorted_picks(blocks: Seq<Block>, pick: spec_fn(Block) -> bool, n: int)
    requires
        0 <= n <= blocks.len(),
    ensures
        sorted_by_key(blocks, sorted_picks(blocks, pick, n)),
        forall|q: int|
            0 <= q < sorted_picks(blocks, pick, n).len() ==> {
                let k = #[trigger] sorted_picks(blocks, pick, n)[q];
                0 <= k < n && pick(blocks[k])
            },
        forall|k: int| 0 <= k < n && pick(blocks[k]) ==> sorted_picks(blocks, pick, n).contains(k),
    decreases n,
{
    if n > 0 {
        lemma_sorted_picks(blocks, pick, n - 1);
        let s = sorted_picks(blocks, pick, n - 1);
        let k = n - 1;
        if pick(blocks[k]) {
            let p = first_after(blocks, s, k, 0);
            lemma_first_after(blocks, s, k, 0);
            lemma_insert_by_order(blocks, s, k, p);
            let t = s.insert(p, k);
            assert forall|a: int, b: int| 0 <= a < b < t.len() implies key_after(
                blocks,
                #[trigger] t[a],
                #[trigger] t[b],
            ) by {
                if b < p {
                    assert(t[a] == s[a] && t[b] == s[b]);
                } else if b == p {
                    assert(t[a] == s[a]);
                } else if a == p {
                    assert(t[b] == s[b - 1]);
                    assert(blocks[s[p]].order > blocks[k].order);
                    if b - 1 > p {
                        assert(key_after(blocks, s[p], s[b - 1]));
                    }
                } else if a < p {
                    assert(t[a] == s[a] && t[b] == s[b - 1]);
                } else {
                    assert(t[a] == s[a - 1] && t[b] == s[b - 1]);
                }
            }
            assert forall|q: int| 0 <= q < t.len() implies {
                let j = #[trigger] t[q];
                0 <= j < n && pick(blocks[j])
            } by {
                if q < p {
                    assert(t[q] == s[q]);
                } else if q > p {
                    assert(t[q] == s[q - 1]);
                }
            }
            assert forall|j: int| 0 <= j < n && pick(blocks[j]) implies t.contains(j) by {
                if j == k {
                    assert(t[p] == k);
                } else {
                    assert(s.contains(j));
                    let q = choose|q: int| 0 <= q < s.len() && s[q] == j;
                    if q < p {
                        assert(t[q] == j);
                    } else {
                        assert(t[q + 1] == j);
                    }
                }
            }
        }
    }
}

/// The first index at or after `from` whose entry sorts after `k`'s key.
pub open spec fn first_after(blocks: Seq<Block>, s: Seq<int>, k: int, from: int) -> int
    decreases s.len() - from,
{
    if from >= s.len() || from < 0 {
        s.len() as int
    } else if blocks[s[from]].order > blocks[k].order {
        from
    } else {
        first_after(blocks, s, k, from + 1)
    }
}

proof fn lemma_first_after(blocks: Seq<Block>, s: Seq<int>, k: int, from: int)
    requires
        0 <= from <= s.len(),
        sorted_by_key(blocks, s),
        forall|q: int| 0 <= q < from ==> blocks[#[trigger] s[q]].order <= blocks[k].order,
    ensures
        from <= first_after(blocks, s, k, from) <= s.len(),
        forall|q: int|
            0 <= q < first_after(blocks, s, k, from) ==> blocks[#[trigger] s[q]].order
                <= blocks[k].order,
        first_after(blocks, s, k, from) < s.len() ==> blocks[s[first_after(blocks, s, k, from)]].order
            > blocks[k].order,
    decreases s.len() - from,
{
    if from < s.len() && blocks[s[from]].order <= blocks[k].order {
        lemma_first_after(blocks, s, k, from + 1);
    }
}

/// Positions `v` with `k` inserted by order key, `k` being later than
/// every position already in `v`.
fn insert_position(blocks: &[Block], v: &mut Vec<usize>, k: usize)
    requires
        k < blocks@.len(),
        forall|q: int| 0 <= q < old(v)@.len() ==> (#[trigger] old(v)@[q]) < blocks@.len(),
    ensures
        final(v)@.map_values(|i: usize| i as int) == insert_by_order(
            blocks@,
            old(v)@.map_values(|i: usize| i as int),
            k as int,
        ),
        forall|q: int| 0 <= q < final(v)@.len() ==> (#[trigger] final(v)@[q]) < blocks@.len(),
{
    let ghost s = v@.map_values(|i: usize| i as int);
    let mut p: usize = 0;
    while p < v.len() && blocks[v[p]].order <= blocks[k].order
        invariant
            p <= v@.len(),
            v@ == old(v)@,
            s == old(v)@.map_values(|i: usize| i as int),
            k < blocks@.len(),
            forall|q: int| 0 <= q < v@.len() ==> (#[trigger] v@[q]) < blocks@.len(),
            forall|q: int| 0 <= q < p ==> blocks@[#[trigger] s[q]].order <= blocks@[k as int].order,
        decreases v@.len() - p,
    {
        p = p + 1;
    }
    proof {
        lemma_insert_by_order(blocks@, s, k as int, p as int);
    }
    v.insert(p, k);
    proof {
        assert(v@.map_values(|i: usize| i as int) =~= s.insert(p as int, k as int));
    }
}

/// A block's direct children, as positions in the page list, stably sorted
/// by order key. The list is kept sorted by order key, so the sort is only
/// saying so out loud.
pub fn child_indices(blocks: &[Block], parent: u64) -> (v: Vec<usize>)
    ensures
        v@.map_values(|i: usize| i as int) == children_sorted(blocks@, parent),
        forall|q: int| 0 <= q < v@.len() ==> (#[trigger] v@[q]) < blocks@.len(),
{
    let mut v: Vec<usize> = Vec::new();
    let mut k: usize = 0;
    while k < blocks.len()
        invariant
            k <= blocks@.len(),
            v@.map_values(|i: usize| i as int) == sorted_picks(blocks@, is_child_of(parent), k as int),
            forall|q: int| 0 <= q < v@.len() ==> (#[trigger] v@[q]) < blocks@.len(),
        decreases blocks@.len() - k,
    {
        if blocks[k].parent == Some(parent) {
            insert_position(blocks, &mut v, k);
        }
        k = k + 1;
    }
    v
}

/// Every child of `parent` is listed exactly once, and the list runs in
/// order-key order (ties in page order).
pub proof fn lemma_children_sorted(blocks: Seq<Block>, parent: u64)
    ensures
        sorted_by_key(blocks, children_sorted(blocks, parent)),
        forall|q: int|
            0 <= q < children_sorted(blocks, parent).len() ==> {
                let k = #[trigger] children_sorted(blocks, parent)[q];
                0 <= k < blocks.len() && blocks[k].parent == Some(parent)
            },
        forall|k: int|
            0 <= k < blocks.len() && blocks[k].parent == Some(parent) ==> children_sorted(
                blocks,
                parent,
            ).contains(k),
{
    lemma_sorted_picks(blocks, is_child_of(parent), blocks.len() as int);
}

// ---- a table's grid ----

/// The cells of table `table`.
pub open spec fn is_cell_of(table: u64) -> spec_fn(Block) -> bool {
    |b: Block| b.parent == Some(table) && b.kind == BlockKind::TableCell
}

/// How many cells a row of `table` holds: its column count, at least one.
pub open spec fn grid_cols(table: Block) -> int {
    if table.columns > 1 { table.columns as int } else { 1 }
}

/// A table's cells in row-major order: its cell children stably sorted by
/// order key, cut to whole rows.
pub open spec fn spec_grid(blocks: Seq<Block>, table: Block) -> Seq<int> {
    let s = sorted_picks(blocks, is_cell_of(table.id), blocks.len() as int);
    s.take(s.len() - (s.len() as int) % grid_cols(table))
}

/// A table's cells in row-major order: child blocks, and a page's block
/// list is display order, so filtering it yields the grid. Whole rows only:
/// the delegate chunks this list by `columns` and indexes into it, so a
/// ragged tail is left out.
pub fn grid_blocks<'a>(blocks: &'a [Block], table: &Block) -> (cells: Vec<&'a Block>)
    ensures
        cells@.len() == spec_grid(blocks@, *table).len(),
        forall|i: int| 0 <= i < cells@.len() ==> *(#[trigger] cells@[i]) == blocks@[spec_grid(blocks@, *table)[i]],
{
    let mut pos: Vec<usize> = Vec::new();
    let mut k: usize = 0;
    while k < blocks.len()
        invariant
            k <= blocks@.len(),
            pos@.map_values(|i: usize| i as int) == sorted_picks(blocks@, is_cell_of(table.id), k as int),
            forall|q: int| 0 <= q < pos@.len() ==> (#[trigger] pos@[q]) < blocks@.len(),
        decreases blocks@.len() - k,
    {
        if blocks[k].parent == Some(table.id) && blocks[k].kind == BlockKind::TableCell {
            insert_position(blocks, &mut pos, k);
        }
        k = k + 1;
    }
    let cols: usize = if table.columns > 1 { table.columns as usize } else { 1 };
    let n = pos.len();
    assert(n % cols <= n) by (nonlinear_arith)
        requires
            cols > 0,
    ;
    let keep = n - n % cols;
    let ghost want = spec_grid(blocks@, *table);
    proof {
        assert(pos@.map_values(|i: usize| i as int).len() == pos@.len());
    }
    let mut cells: Vec<&'a Block> = Vec::new();
    let mut i: usize = 0;
    while i < keep
        invariant
            i <= keep,
            keep <= pos@.len(),
            want.len() == keep,
            forall|q: int| 0 <= q < keep ==> want[q] == pos@[q] as int,
            forall|q: int| 0 <= q < pos@.len() ==> (#[trigger] pos@[q]) < blocks@.len(),
            cells@.len() == i,
            forall|q: int| 0 <= q < i ==> *(#[trigger] cells@[q]) == blocks@[want[q]],
        decreases keep - i,
    {
        cells.push(&blocks[pos[i]]);
        i = i + 1;
    }
    cells
}

/// A grid's entries are distinct positions of cells of the table.
pub(crate) proof fn lemma_grid_cells(blocks: Seq<Block>, table: Block)
    ensures
        forall|q: int|
            0 <= q < spec_grid(blocks, table).len() ==> {
                let k = #[trigger] spec_grid(blocks, table)[q];
                &&& 0 <= k < blocks.len()
                &&& blocks[k].parent == Some(table.id)
                &&& blocks[k].kind == BlockKind::TableCell
            },
        forall|a: int, b: int|
            0 <= a < b < spec_grid(blocks, table).len() ==> #[trigger] spec_grid(blocks, table)[a]
                != #[trigger] spec_grid(blocks, table)[b],
{
    lemma_sorted_picks(blocks, is_cell_of(table.id), blocks.len() as int);
    lemma_grid_valid(blocks, table);
    let s = sorted_picks(blocks, is_cell_of(table.id), blocks.len() as int);
    let g = spec_grid(blocks, table);
    let n = s.len() as int;
    let cols = grid_cols(table);
    assert(0 <= n % cols <= n) by (nonlinear_arith)
        requires
            cols >= 1,
            n >= 0,
    ;
    assert forall|q: int| 0 <= q < g.len() implies {
        let k = #[trigger] g[q];
        &&& 0 <= k < blocks.len()
        &&& blocks[k].parent == Some(table.id)
        &&& blocks[k].kind == BlockKind::TableCell
    } by {
        assert(g[q] == s[q]);
        assert(is_cell_of(table.id)(blocks[s[q]]));
    }
    assert forall|a: int, b: int| 0 <= a < b < g.len() implies #[trigger] g[a] != #[trigger] g[b] by {
        assert(g[a] == s[a] && g[b] == s[b]);
        assert(key_after(blocks, s[a], s[b]));
    }
}

proof fn lemma_grid_valid(blocks: Seq<Block>, table: Block)
    ensures
        forall|q: int| 0 <= q < spec_grid(blocks, table).len() ==> 0 <= #[trigger] spec_grid(blocks, table)[q] < blocks.len(),
{
    lemma_sorted_picks(blocks, is_cell_of(table.id), blocks.len() as int);
    let s = sorted_picks(blocks, is_cell_of(table.id), blocks.len() as int);
    let g = spec_grid(blocks, table);
    let n = s.len() as int;
    let cols = grid_cols(table);
    assert(0 <= n % cols <= n) by (nonlinear_arith)
        requires
            cols >= 1,
            n >= 0,
    ;
    assert forall|q: int| 0 <= q < g.len() implies 0 <= #[trigger] g[q] < blocks.len() by {
        assert(g[q] == s[q]);
    }
}

/// A table as the editor sees it: its cells in row-major order and the
/// column count.
#[derive(Debug)]
pub struct LiveGrid {
    pub table: i32,
    pub cells: Vec<u64>,
    pub cols: usize,
}

impl LiveGrid {
    /// The grid of table `id`, whose page's blocks are `blocks`: none when
    /// `id` is not a table there, or a table with no columns (a degenerate
    /// grid has no shape to edit).
    pub fn of(blocks: &[Block], id: u64) -> (r: Option<LiveGrid>)
        ensures
            match find_block(blocks@, id) {
                None => r is None,
                Some(k) => if blocks@[k].kind != BlockKind::Table || blocks@[k].columns == 0 {
                    r is None
                } else {
                    r matches Some(g) && g.table == id as i32 && g.cols == blocks@[k].columns as int
                        && g.cells@.len() == spec_grid(blocks@, blocks@[k]).len()
                        && forall|i: int|
                        0 <= i < g.cells@.len() ==> #[trigger] g.cells@[i] == blocks@[spec_grid(
                            blocks@,
                            blocks@[k],
                        )[i]].id
                },
            },
    {
        let k = match find(blocks, id) {
            Some(k) => k,
            None => return None,
        };
        let b = &blocks[k];
        if b.kind != BlockKind::Table || b.columns == 0 {
            return None;
        }
        let grid = grid_blocks(blocks, b);
        let mut cells: Vec<u64> = Vec::new();
        let mut i: usize = 0;
        while i < grid.len()
            invariant
                i <= grid@.len(),
                cells@.len() == i,
                forall|q: int| 0 <= q < i ==> cells@[q] == grid@[q].id,
            decreases grid@.len() - i,
        {
            cells.push(grid[i].id);
            i = i + 1;
        }
        Some(LiveGrid { table: id as i32, cells, cols: b.columns as usize })
    }

    /// How many whole rows the grid has.
    pub fn rows(&self) -> (r: usize)
        requires
            self.cols > 0,
        ensures
            r == (self.cells@.len() as int) / (self.cols as int),
    {
        self.cells.len() / self.cols
    }
}

// ---- a columns layout ----

/// One block of a columns layout, placed in the flat list the delegate
/// draws.
#[derive(Debug)]
pub struct ColumnSlot {
    /// Which box, from 0.
    pub column: i32,
    /// How far inside that box (0 = a box's own child), for the indent.
    pub depth: i32,
    /// Position in the page's block list.
    pub index: usize,
    /// Has children, so the toggle chevron shows.
    pub can_fold: bool,
}

/// Block `i` and everything below it, in reading order, placed in box
/// `column` at `depth`: a folded block keeps its own slot and loses its
/// subtree, and nothing nests past depth 8 (a corrupt-data guard).
pub open spec fn slots_of(blocks: Seq<Block>, i: int, column: i32, depth: int) -> Seq<ColumnSlot>
    decreases 8 - depth, 1int, 0int,
{
    let kids = children_sorted(blocks, blocks[i].id);
    let me = ColumnSlot { column, depth: depth as i32, index: i as usize, can_fold: kids.len() > 0 };
    if blocks[i].folded || depth >= 8 {
        seq![me]
    } else {
        seq![me] + list_slots(blocks, kids, column, depth + 1)
    }
}

/// The slots of the blocks at positions `kids`, one after another; a
/// column box among them is a container, never content, and is skipped.
pub open spec fn list_slots(blocks: Seq<Block>, kids: Seq<int>, column: i32, depth: int) -> Seq<
    ColumnSlot,
>
    decreases 9 - depth, 0int, kids.len(),
{
    if kids.len() == 0 || depth > 8 {
        Seq::empty()
    } else {
        let first = if blocks[kids[0]].kind == BlockKind::Column {
            Seq::empty()
        } else {
            slots_of(blocks, kids[0], column, depth)
        };
        first + list_slots(blocks, kids.drop_first(), column, depth)
    }
}

proof fn lemma_list_slots_push(blocks: Seq<Block>, kids: Seq<int>, k: int, column: i32, depth: int)
    requires
        depth <= 8,
    ensures
        list_slots(blocks, kids.push(k), column, depth) == list_slots(blocks, kids, column, depth) + (
        if blocks[k].kind == BlockKind::Column {
            Seq::empty()
        } else {
            slots_of(blocks, k, column, depth)
        }),
    decreases kids.len(),
{
    if kids.len() == 0 {
        assert(kids.push(k).drop_first() =~= Seq::<int>::empty());
        assert(list_slots(blocks, Seq::<int>::empty(), column, depth) =~= Seq::<ColumnSlot>::empty());
        assert(Seq::<ColumnSlot>::empty() + list_slots(blocks, kids.push(k), column, depth)
            =~= list_slots(blocks, kids.push(k), column, depth));
    } else {
        assert(kids.push(k).drop_first() =~= kids.drop_first().push(k));
        lemma_list_slots_push(blocks, kids.drop_first(), k, column, depth);
        let first = if blocks[kids[0]].kind == BlockKind::Column {
            Seq::<ColumnSlot>::empty()
        } else {
            slots_of(blocks, kids[0], column, depth)
        };
        let last = if blocks[k].kind == BlockKind::Column {
            Seq::<ColumnSlot>::empty()
        } else {
            slots_of(blocks, k, column, depth)
        };
        assert(first + (list_slots(blocks, kids.drop_first(), column, depth) + last) =~= (first
            + list_slots(blocks, kids.drop_first(), column, depth)) + last);
    }
}

/// Push `i`'s slot and the slots of everything below it, in reading order.
fn column_slots(blocks: &[Block], i: usize, column: i32, depth: i32, out: &mut Vec<ColumnSlot>)
    requires
        i < blocks@.len(),
        0 <= depth <= 8,
    ensures
        final(out)@ == old(out)@ + slots_of(blocks@, i as int, column, depth as int),
    decreases 8 - depth,
{
    let b = &blocks[i];
    let kids = child_indices(blocks, b.id);
    let ghost ks = children_sorted(blocks@, b.id);
    assert(kids@.len() == ks.len());
    out.push(ColumnSlot { column, depth, index: i, can_fold: kids.len() > 0 });
    let ghost me = ColumnSlot { column, depth, index: i, can_fold: ks.len() > 0 };
    if b.folded || depth >= 8 {
        assert(out@ =~= old(out)@ + seq![me]);
        return;
    }
    let ghost start = out@;
    let mut j: usize = 0;
    while j < kids.len()
        invariant
            j <= kids@.len(),
            kids@.len() == ks.len(),
            forall|q: int| 0 <= q < kids@.len() ==> ks[q] == kids@[q] as int,
            forall|q: int| 0 <= q < kids@.len() ==> (#[trigger] kids@[q]) < blocks@.len(),
            0 <= depth < 8,
            out@ == start + list_slots(blocks@, ks.take(j as int), column, depth + 1),
        decreases kids@.len() - j,
    {
        let k = kids[j];
        proof {
            assert(ks.take(j + 1) =~= ks.take(j as int).push(k as int));
            lemma_list_slots_push(blocks@, ks.take(j as int), k as int, column, depth + 1);
        }
        if blocks[k].kind != BlockKind::Column {
            column_slots(blocks, k, column, depth + 1, out);
            assert(out@ =~= start + list_slots(blocks@, ks.take(j + 1), column, depth + 1));
        } else {
            assert(out@ =~= start + list_slots(blocks@, ks.take(j + 1), column, depth + 1));
        }
        j = j + 1;
    }
    proof {
        assert(ks.take(kids@.len() as int) =~= ks);
        assert(out@ =~= old(out)@ + (seq![me] + list_slots(blocks@, ks, column, depth + 1)));
    }
}

/// The column boxes among the first `n` of `cs`, in order.
pub open spec fn box_positions(blocks: Seq<Block>, cs: Seq<int>, n: int) -> Seq<int>
    decreases n,
{
    if n <= 0 {
        Seq::empty()
    } else if blocks[cs[n - 1]].kind == BlockKind::Column {
        box_positions(blocks, cs, n - 1).push(cs[n - 1])
    } else {
        box_positions(blocks, cs, n - 1)
    }
}

/// What one child `c` of a layout contributes when `box_n` boxes precede
/// it: a box, its content (the box's children); anything else, itself and
/// its subtree, read as part of box `box_n` (content hanging off the layout
/// rather than a box has no box to name).
pub open spec fn layout_piece(blocks: Seq<Block>, c: int, box_n: int) -> Seq<ColumnSlot> {
    if blocks[c].kind != BlockKind::Column {
        slots_of(blocks, c, box_n as i32, 0)
    } else {
        list_slots(blocks, children_sorted(blocks, blocks[c].id), box_n as i32, 0)
    }
}

/// The slots of the first `n` children `cs` of a layout.
pub open spec fn layout_prefix(blocks: Seq<Block>, cs: Seq<int>, n: int) -> Seq<ColumnSlot>
    decreases n,
{
    if n <= 0 {
        Seq::empty()
    } else {
        layout_prefix(blocks, cs, n - 1) + layout_piece(
            blocks,
            cs[n - 1],
            box_positions(blocks, cs, n - 1).len() as int,
        )
    }
}

/// A layout's content in reading order: every box's blocks, left to right.
/// The boxes are the layout's column children, in order-key order.
pub open spec fn spec_layout_slots(blocks: Seq<Block>, layout: Block) -> Seq<ColumnSlot> {
    let cs = children_sorted(blocks, layout.id);
    layout_prefix(blocks, cs, cs.len() as int)
}

proof fn lemma_box_positions_len(blocks: Seq<Block>, cs: Seq<int>, n: int)
    requires
        0 <= n,
    ensures
        box_positions(blocks, cs, n).len() <= n,
    decreases n,
{
    if n > 0 {
        lemma_box_positions_len(blocks, cs, n - 1);
    }
}

/// A layout's content in reading order: every box's blocks, left to right.
pub fn layout_slots(blocks: &[Block], layout: &Block) -> (out: Vec<ColumnSlot>)
    requires
        blocks@.len() <= i32::MAX,
    ensures
        out@ == spec_layout_slots(blocks@, *layout),
{
    let mut out: Vec<ColumnSlot> = Vec::new();
    let mut box_n: i32 = 0;
    let cs = child_indices(blocks, layout.id);
    let ghost css = children_sorted(blocks@, layout.id);
    proof {
        lemma_sorted_picks(blocks@, is_child_of(layout.id), blocks@.len() as int);
        lemma_children_count(blocks@, layout.id);
    }
    let mut j: usize = 0;
    while j < cs.len()
        invariant
            j <= cs@.len(),
            cs@.len() == css.len(),
            css.len() <= blocks@.len(),
            blocks@.len() <= i32::MAX,
            forall|q: int| 0 <= q < cs@.len() ==> css[q] == cs@[q] as int,
            forall|q: int| 0 <= q < cs@.len() ==> (#[trigger] cs@[q]) < blocks@.len(),
            box_n as int == box_positions(blocks@, css, j as int).len(),
            out@ == layout_prefix(blocks@, css, j as int),
        decreases cs@.len() - j,
    {
        let c = cs[j];
        proof {
            lemma_box_positions_len(blocks@, css, j as int);
        }
        if blocks[c].kind != BlockKind::Column {
            column_slots(blocks, c, box_n, 0, &mut out);
        } else {
            let kids = child_indices(blocks, blocks[c].id);
            let ghost ks = children_sorted(blocks@, blocks@[c as int].id);
            let ghost start = out@;
            assert(kids@.len() == ks.len());
            let mut k: usize = 0;
            while k < kids.len()
                invariant
                    k <= kids@.len(),
                    kids@.len() == ks.len(),
                    forall|q: int| 0 <= q < kids@.len() ==> ks[q] == kids@[q] as int,
                    forall|q: int| 0 <= q < kids@.len() ==> (#[trigger] kids@[q]) < blocks@.len(),
                    out@ == start + list_slots(blocks@, ks.take(k as int), box_n, 0),
                decreases kids@.len() - k,
            {
                let kid = kids[k];
                proof {
                    assert(ks.take(k + 1) =~= ks.take(k as int).push(kid as int));
                    lemma_list_slots_push(blocks@, ks.take(k as int), kid as int, box_n, 0);
                }
                if blocks[kid].kind != BlockKind::Column {
                    column_slots(blocks, kid, box_n, 0, &mut out);
                }
                assert(out@ =~= start + list_slots(blocks@, ks.take(k + 1), box_n, 0));
                k = k + 1;
            }
            assert(ks.take(kids@.len() as int) =~= ks);
            box_n = box_n + 1;
        }
        j = j + 1;
    }
    proof {
        assert(css.len() == cs@.len());
    }
    out
}

/// A block's children are at most all the blocks.
proof fn lemma_children_count(blocks: Seq<Block>, parent: u64)
    ensures
        children_sorted(blocks, parent).len() <= blocks.len(),
{
    lemma_sorted_picks(blocks, is_child_of(parent), blocks.len() as int);
    let s = children_sorted(blocks, parent);
    // the entries are distinct positions below `blocks.len()`
    assert forall|a: int, b: int| 0 <= a < b < s.len() implies s[a] < s[b] || s[a] > s[b] by {
        assert(key_after(blocks, s[a], s[b]));
    }
    lemma_distinct_bounded(s, blocks.len() as int);
}

/// A sequence of distinct values in `0..bound` is at most `bound` long.
proof fn lemma_distinct_bounded(s: Seq<int>, bound: int)
    requires
        forall|q: int| 0 <= q < s.len() ==> 0 <= #[trigger] s[q] < bound,
        forall|a: int, b: int| 0 <= a < b < s.len() ==> #[trigger] s[a] != #[trigger] s[b],
    ensures
        s.len() <= if bound < 0 { 0 } else { bound },
    decreases s.len(),
{
    if s.len() > 0 {
        let m = s.last();
        // drop the last entry and shift every value above it down by one
        let t = s.drop_last().map_values(|v: int| if v > m { v - 1 } else { v });
        assert forall|a: int, b: int| 0 <= a < b < t.len() implies #[trigger] t[a] != #[trigger] t[b] by {
            assert(s[a] != s[b]);
            assert(s[a] != m && s[b] != m);
        }
        assert forall|q: int| 0 <= q < t.len() implies 0 <= #[trigger] t[q] < bound - 1 by {
            assert(s[q] != m);
        }
        lemma_distinct_bounded(t, bound - 1);
    }
}

// ---- the layout as the row's data ----

/// One block inside a layout, as the row's data.
#[derive(Debug)]
pub struct ColumnItem {
    pub id: i32,
    pub column: i32,
    pub depth: i32,
    pub kind: i32,
    pub text: String,
    pub runs: Vec<TextRun>,
    pub checked: bool,
    /// A numbered item's number within its box, 0 for others.
    pub number: i32,
    pub folded: bool,
    pub can_fold: bool,
    pub color: i32,
    pub bg: i32,
    /// 0 for none.
    pub attachment: i32,
}

/// One box of a layout: where its group starts in the flat item list, and
/// how many items it has.
#[derive(Debug)]
pub struct ColumnBox {
    pub id: i32,
    pub column: i32,
    pub first: i32,
    pub size: i32,
}

/// How many of the first `n` slots sit in box `c`.
pub open spec fn count_column(slots: Seq<ColumnSlot>, n: int, c: int) -> nat
    decreases n,
{
    if n <= 0 {
        0
    } else {
        count_column(slots, n - 1, c) + if slots[n - 1].column == c { 1nat } else { 0nat }
    }
}

/// How many of the first `n` slots are numbered items in box `c`.
pub open spec fn count_numbered(blocks: Seq<Block>, slots: Seq<ColumnSlot>, n: int, c: int) -> nat
    decreases n,
{
    if n <= 0 {
        0
    } else {
        count_numbered(blocks, slots, n - 1, c) + if slots[n - 1].column == c
            && blocks[slots[n - 1].index as int].kind == BlockKind::Numbered {
            1nat
        } else {
            0nat
        }
    }
}

/// How many of the first `n` slots sit in the boxes before box `i`.
pub open spec fn count_before_box(slots: Seq<ColumnSlot>, n: int, i: int) -> nat
    decreases n,
{
    if n <= 0 {
        0
    } else {
        count_before_box(slots, n - 1, i) + if 0 <= slots[n - 1].column < i { 1nat } else { 0nat }
    }
}

/// Item `j` of a layout whose slots are `slots`.
pub open spec fn item_matches(
    item: ColumnItem,
    blocks: Seq<Block>,
    hits: Map<i32, Vec<(usize, usize)>>,
    slots: Seq<ColumnSlot>,
    j: int,
) -> bool {
    let s = slots[j];
    let b = blocks[s.index as int];
    &&& item.id == b.id as i32
    &&& text_runs(item.runs@, b.text@, b.marks@, hits_for(hits, b.id))
    &&& item.column == s.column
    &&& item.depth == s.depth
    &&& item.kind == kind_int(b.kind)
    &&& item.text@ == b.text@
    &&& item.checked == b.checked
    &&& item.number == if b.kind == BlockKind::Numbered {
        count_numbered(blocks, slots, j + 1, s.column as int) as int
    } else {
        0
    }
    &&& item.folded == b.folded
    &&& item.can_fold == s.can_fold
    &&& item.color == b.color
    &&& item.bg == b.background
    &&& item.attachment == match b.attachment {
        Some(a) => a as i32,
        None => 0i32,
    }
}

/// The boxes of layout `layout`, as positions, left to right.
pub open spec fn layout_boxes(blocks: Seq<Block>, layout: Block) -> Seq<int> {
    let cs = children_sorted(blocks, layout.id);
    box_positions(blocks, cs, cs.len() as int)
}

proof fn lemma_count_bounds(blocks: Seq<Block>, slots: Seq<ColumnSlot>, n: int, c: int, i: int)
    requires
        0 <= n,
    ensures
        count_column(slots, n, c) <= n,
        count_numbered(blocks, slots, n, c) <= n,
        count_before_box(slots, n, i) <= n,
        count_before_box(slots, n, i + 1) == count_before_box(slots, n, i) + if i >= 0 {
            count_column(slots, n, i)
        } else {
            0
        },
        count_before_box(slots, n, i + 1) <= n,
        count_before_box(slots, n, 0) == 0,
    decreases n,
{
    if n > 0 {
        lemma_count_bounds(blocks, slots, n - 1, c, i);
    }
}

proof fn lemma_slots_valid(blocks: Seq<Block>, i: int, column: i32, depth: int)
    requires
        0 <= i < blocks.len(),
        blocks.len() <= usize::MAX,
    ensures
        forall|t: int|
            0 <= t < slots_of(blocks, i, column, depth).len() ==> (#[trigger] slots_of(
                blocks,
                i,
                column,
                depth,
            )[t]).index < blocks.len(),
    decreases 8 - depth, 1int, 0int,
{
    let kids = children_sorted(blocks, blocks[i].id);
    lemma_children_sorted(blocks, blocks[i].id);
    let all = slots_of(blocks, i, column, depth);
    if !(blocks[i].folded || depth >= 8) {
        lemma_list_valid(blocks, kids, column, depth + 1);
        let rest = list_slots(blocks, kids, column, depth + 1);
        assert forall|t: int| 0 <= t < all.len() implies (#[trigger] all[t]).index < blocks.len() by {
            if t > 0 {
                assert(all[t] == rest[t - 1]);
            }
        }
    }
}

proof fn lemma_list_valid(blocks: Seq<Block>, kids: Seq<int>, column: i32, depth: int)
    requires
        forall|q: int| 0 <= q < kids.len() ==> 0 <= #[trigger] kids[q] < blocks.len(),
        blocks.len() <= usize::MAX,
    ensures
        forall|t: int|
            0 <= t < list_slots(blocks, kids, column, depth).len() ==> (#[trigger] list_slots(
                blocks,
                kids,
                column,
                depth,
            )[t]).index < blocks.len(),
    decreases 9 - depth, 0int, kids.len(),
{
    if kids.len() > 0 && depth <= 8 {
        let first = if blocks[kids[0]].kind == BlockKind::Column {
            Seq::<ColumnSlot>::empty()
        } else {
            slots_of(blocks, kids[0], column, depth)
        };
        if blocks[kids[0]].kind != BlockKind::Column {
            lemma_slots_valid(blocks, kids[0], column, depth);
        }
        lemma_list_valid(blocks, kids.drop_first(), column, depth);
        let rest = list_slots(blocks, kids.drop_first(), column, depth);
        let all = list_slots(blocks, kids, column, depth);
        assert forall|t: int| 0 <= t < all.len() implies (#[trigger] all[t]).index < blocks.len() by {
            if t < first.len() {
                assert(all[t] == first[t]);
            } else {
                assert(all[t] == rest[t - first.len()]);
            }
        }
    }
}

proof fn lemma_layout_valid(blocks: Seq<Block>, cs: Seq<int>, n: int)
    requires
        0 <= n <= cs.len(),
        cs.len() <= i32::MAX,
        blocks.len() <= usize::MAX,
        forall|q: int| 0 <= q < cs.len() ==> 0 <= #[trigger] cs[q] < blocks.len(),
    ensures
        forall|t: int|
            0 <= t < layout_prefix(blocks, cs, n).len() ==> (#[trigger] layout_prefix(
                blocks,
                cs,
                n,
            )[t]).index < blocks.len(),
        forall|t: int|
            0 <= t < layout_prefix(blocks, cs, n).len() ==> 0 <= (#[trigger] layout_prefix(
                blocks,
                cs,
                n,
            )[t]).column,
    decreases n,
{
    if n > 0 {
        lemma_layout_valid(blocks, cs, n - 1);
        let c = cs[n - 1];
        let box_n = box_positions(blocks, cs, n - 1).len() as int;
        lemma_box_positions_len(blocks, cs, n - 1);
        if blocks[c].kind != BlockKind::Column {
            lemma_slots_valid(blocks, c, box_n as i32, 0);
            lemma_slots_column(blocks, c, box_n as i32, 0);
        } else {
            lemma_children_sorted(blocks, blocks[c].id);
            lemma_list_valid(blocks, children_sorted(blocks, blocks[c].id), box_n as i32, 0);
            lemma_list_column(blocks, children_sorted(blocks, blocks[c].id), box_n as i32, 0);
        }
        let prev = layout_prefix(blocks, cs, n - 1);
        let piece = layout_piece(blocks, c, box_n);
        assert(box_n as i32 >= 0);
        assert forall|t: int| 0 <= t < layout_prefix(blocks, cs, n).len() implies (#[trigger] layout_prefix(
            blocks,
            cs,
            n,
        )[t]).index < blocks.len() && 0 <= layout_prefix(blocks, cs, n)[t].column by {
            if t < prev.len() {
                assert(layout_prefix(blocks, cs, n)[t] == prev[t]);
            } else {
                assert(layout_prefix(blocks, cs, n)[t] == piece[t - prev.len()]);
            }
        }
    }
}

proof fn lemma_slots_column(blocks: Seq<Block>, i: int, column: i32, depth: int)
    ensures
        forall|t: int|
            0 <= t < slots_of(blocks, i, column, depth).len() ==> (#[trigger] slots_of(
                blocks,
                i,
                column,
                depth,
            )[t]).column == column,
    decreases 8 - depth, 1int, 0int,
{
    let kids = children_sorted(blocks, blocks[i].id);
    let all = slots_of(blocks, i, column, depth);
    if !(blocks[i].folded || depth >= 8) {
        lemma_list_column(blocks, kids, column, depth + 1);
        let rest = list_slots(blocks, kids, column, depth + 1);
        assert forall|t: int| 0 <= t < all.len() implies (#[trigger] all[t]).column == column by {
            if t > 0 {
                assert(all[t] == rest[t - 1]);
            }
        }
    }
}

proof fn lemma_list_column(blocks: Seq<Block>, kids: Seq<int>, column: i32, depth: int)
    ensures
        forall|t: int|
            0 <= t < list_slots(blocks, kids, column, depth).len() ==> (#[trigger] list_slots(
                blocks,
                kids,
                column,
                depth,
            )[t]).column == column,
    decreases 9 - depth, 0int, kids.len(),
{
    if kids.len() > 0 && depth <= 8 {
        let first = if blocks[kids[0]].kind == BlockKind::Column {
            Seq::<ColumnSlot>::empty()
        } else {
            slots_of(blocks, kids[0], column, depth)
        };
        if blocks[kids[0]].kind != BlockKind::Column {
            lemma_slots_column(blocks, kids[0], column, depth);
        }
        lemma_list_column(blocks, kids.drop_first(), column, depth);
        let rest = list_slots(blocks, kids.drop_first(), column, depth);
        let all = list_slots(blocks, kids, column, depth);
        assert forall|t: int| 0 <= t < all.len() implies (#[trigger] all[t]).column == column by {
            if t < first.len() {
                assert(all[t] == first[t]);
            } else {
                assert(all[t] == rest[t - first.len()]);
            }
        }
    }
}

/// `items` and `boxes` are layout `layout`'s content and boxes.
pub open spec fn projection_matches(
    items: Seq<ColumnItem>,
    boxes: Seq<ColumnBox>,
    blocks: Seq<Block>,
    hits: Map<i32, Vec<(usize, usize)>>,
    layout: Block,
) -> bool {
    let slots = spec_layout_slots(blocks, layout);
    let bps = layout_boxes(blocks, layout);
    &&& items.len() == slots.len()
    &&& forall|j: int| 0 <= j < slots.len() ==> item_matches(#[trigger] items[j], blocks, hits, slots, j)
    &&& boxes.len() == bps.len()
    &&& forall|i: int|
        0 <= i < bps.len() ==> {
            &&& (#[trigger] boxes[i]).id == blocks[bps[i]].id as i32
            &&& boxes[i].column == i
            &&& boxes[i].first == count_before_box(slots, slots.len() as int, i)
            &&& boxes[i].size == count_column(slots, slots.len() as int, i)
        }
}

/// The blocks inside one layout, as the row's data, and its boxes as the
/// delegate sees them. Numbering restarts per box, which is what a reader
/// sees; the boxes carry where each group starts in the flat item list.
pub fn column_projection(blocks: &[Block], layout: &Block, hits: &FindHits) -> (r: (Vec<ColumnItem>, Vec<ColumnBox>))
    requires
        blocks@.len() <= i32::MAX,
        spec_layout_slots(blocks@, *layout).len() <= i32::MAX,
        texts_fit(blocks@),
    ensures
        projection_matches(r.0@, r.1@, blocks@, hits@, *layout),
{
    let ghost slots = spec_layout_slots(blocks@, *layout);
    let ghost css = children_sorted(blocks@, layout.id);
    let ghost bps = layout_boxes(blocks@, *layout);
    // the layout's own boxes, left to right
    let cs = child_indices(blocks, layout.id);
    proof {
        lemma_children_sorted(blocks@, layout.id);
        lemma_children_count(blocks@, layout.id);
        lemma_box_positions_len(blocks@, css, css.len() as int);
        lemma_layout_valid(blocks@, css, css.len() as int);
    }
    let mut box_ids: Vec<u64> = Vec::new();
    let mut c: usize = 0;
    while c < cs.len()
        invariant
            c <= cs@.len(),
            cs@.len() == css.len(),
            forall|q: int| 0 <= q < cs@.len() ==> css[q] == cs@[q] as int,
            forall|q: int| 0 <= q < cs@.len() ==> (#[trigger] cs@[q]) < blocks@.len(),
            box_ids@.len() == box_positions(blocks@, css, c as int).len(),
            forall|i: int|
                0 <= i < box_ids@.len() ==> #[trigger] box_ids@[i] == blocks@[box_positions(
                    blocks@,
                    css,
                    c as int,
                )[i]].id,
        decreases cs@.len() - c,
    {
        if blocks[cs[c]].kind == BlockKind::Column {
            box_ids.push(blocks[cs[c]].id);
        }
        c = c + 1;
    }
    let nboxes = box_ids.len();
    let mut sizes: Vec<i32> = Vec::new();
    while sizes.len() < nboxes
        invariant
            sizes@.len() <= nboxes,
            forall|i: int| 0 <= i < sizes@.len() ==> sizes@[i] == 0,
        decreases nboxes - sizes@.len(),
    {
        sizes.push(0);
    }
    let all = layout_slots(blocks, layout);
    let mut items: Vec<ColumnItem> = Vec::new();
    let mut numbers: Vec<(i32, i32)> = Vec::new();
    let mut j: usize = 0;
    while j < all.len()
        invariant
            all@ == slots,
            slots.len() <= i32::MAX,
            j <= slots.len(),
            forall|t: int| 0 <= t < slots.len() ==> (#[trigger] slots[t]).index < blocks@.len(),
            forall|t: int| 0 <= t < slots.len() ==> 0 <= (#[trigger] slots[t]).column,
            sizes@.len() == nboxes,
            forall|i: int| 0 <= i < nboxes ==> #[trigger] sizes@[i] == count_column(slots, j as int, i),
            items@.len() == j,
            texts_fit(blocks@),
            forall|q: int| 0 <= q < j ==> item_matches(#[trigger] items@[q], blocks@, hits@, slots, q),
            forall|e: int|
                0 <= e < numbers@.len() ==> (#[trigger] numbers@[e]).1 == count_numbered(
                    blocks@,
                    slots,
                    j as int,
                    numbers@[e].0 as int,
                ),
            forall|c: int|
                #![trigger count_numbered(blocks@, slots, j as int, c)]
                count_numbered(blocks@, slots, j as int, c) > 0 ==> exists|e: int|
                    0 <= e < numbers@.len() && (#[trigger] numbers@[e]).0 == c,
            forall|a: int, b: int|
                0 <= a < b < numbers@.len() ==> (#[trigger] numbers@[a]).0 != (#[trigger] numbers@[b]).0,
        decreases slots.len() - j,
    {
        let s = &all[j];
        let col = s.column;
        let b = &blocks[s.index];
        proof {
            lemma_count_bounds(blocks@, slots, j + 1, col as int, 0);
        }
        let number: i32 = if b.kind == BlockKind::Numbered {
            let mut e: usize = 0;
            while e < numbers.len() && numbers[e].0 != col
                invariant
                    e <= numbers@.len(),
                    forall|q: int| 0 <= q < e ==> (#[trigger] numbers@[q]).0 != col,
                decreases numbers@.len() - e,
            {
                e = e + 1;
            }
            let ghost before = numbers@;
            if e < numbers.len() {
                let n = numbers[e].1 + 1;
                numbers.set(e, (col, n));
                proof {
                    assert forall|c: int|
                        #![trigger count_numbered(blocks@, slots, j + 1, c)]
                        count_numbered(blocks@, slots, j + 1, c) > 0 implies exists|f: int|
                            0 <= f < numbers@.len() && (#[trigger] numbers@[f]).0 == c by {
                        if c != col {
                            assert(count_numbered(blocks@, slots, j as int, c) > 0);
                            let f = choose|f: int| 0 <= f < before.len() && (#[trigger] before[f]).0 == c;
                            assert(numbers@[f].0 == c);
                        } else {
                            assert(numbers@[e as int].0 == c);
                        }
                    }
                }
                n
            } else {
                numbers.push((col, 1));
                proof {
                    assert forall|c: int|
                        #![trigger count_numbered(blocks@, slots, j + 1, c)]
                        count_numbered(blocks@, slots, j + 1, c) > 0 implies exists|f: int|
                            0 <= f < numbers@.len() && (#[trigger] numbers@[f]).0 == c by {
                        if c != col {
                            assert(count_numbered(blocks@, slots, j as int, c) > 0);
                            let f = choose|f: int| 0 <= f < before.len() && (#[trigger] before[f]).0 == c;
                            assert(numbers@[f].0 == c);
                        } else {
                            assert(numbers@[before.len() as int].0 == c);
                        }
                    }
                }
                1
            }
        } else {
            proof {
                assert forall|c: int|
                    #![trigger count_numbered(blocks@, slots, j + 1, c)]
                    count_numbered(blocks@, slots, j + 1, c) > 0 implies exists|f: int|
                        0 <= f < numbers@.len() && (#[trigger] numbers@[f]).0 == c by {
                    assert(count_numbered(blocks@, slots, j as int, c) > 0);
                }
            }
            0
        };
        if (col as usize) < sizes.len() {
            let idx = col as usize;
            let cur = sizes[idx];
            proof {
                lemma_count_bounds(blocks@, slots, j as int, col as int, 0);
            }
            sizes.set(idx, cur + 1);
        }
        let runs = build_runs(b.text.as_str(), b.marks.as_slice(), hits_of(hits, b.id));
        items.push(
            ColumnItem {
                id: b.id as i32,
                column: col,
                depth: s.depth,
                kind: kind_to_int(b.kind),
                text: b.text.clone(),
                runs,
                checked: b.checked,
                number,
                folded: b.folded,
                can_fold: s.can_fold,
                color: b.color,
                bg: b.background,
                attachment: match b.attachment {
                    Some(a) => a as i32,
                    None => 0,
                },
            },
        );
        j = j + 1;
    }
    // the groups are contiguous, so each box's first item is the count of
    // the items in the boxes before it
    let mut boxes: Vec<ColumnBox> = Vec::new();
    proof {
        lemma_count_bounds(blocks@, slots, slots.len() as int, 0, 0);
    }
    let mut first: i32 = 0;
    let mut i: usize = 0;
    while i < nboxes
        invariant
            i <= nboxes,
            nboxes == bps.len(),
            nboxes <= blocks@.len(),
            blocks@.len() <= i32::MAX,
            slots.len() <= i32::MAX,
            sizes@.len() == nboxes,
            forall|q: int| 0 <= q < nboxes ==> #[trigger] sizes@[q] == count_column(slots, slots.len() as int, q),
            box_ids@.len() == nboxes,
            forall|q: int| 0 <= q < nboxes ==> #[trigger] box_ids@[q] == blocks@[bps[q]].id,
            first == count_before_box(slots, slots.len() as int, i as int),
            boxes@.len() == i,
            forall|q: int|
                0 <= q < i ==> {
                    &&& (#[trigger] boxes@[q]).id == blocks@[bps[q]].id as i32
                    &&& boxes@[q].column == q
                    &&& boxes@[q].first == count_before_box(slots, slots.len() as int, q)
                    &&& boxes@[q].size == count_column(slots, slots.len() as int, q)
                },
        decreases nboxes - i,
    {
        proof {
            lemma_count_bounds(blocks@, slots, slots.len() as int, i as int, i as int);
        }
        assert(sizes@[i as int] == count_column(slots, slots.len() as int, i as int));
        boxes.push(ColumnBox { id: box_ids[i] as i32, column: i as i32, first, size: sizes[i] });
        first = first + sizes[i];
        i = i + 1;
    }
    (items, boxes)
}

/// A columns layout as the editor sees it: every block inside its boxes, in
/// reading order (the list the row's column items carry, built by the same
/// walk, so focus and the model cannot disagree about what is there).
#[derive(Debug)]
pub struct LiveLayout {
    pub layout: i32,
    pub items: Vec<u64>,
}

impl LiveLayout {
    /// The layout `id`, whose page's blocks are `blocks`: none when `id` is
    /// not a columns layout there, or one with no boxes (no shape to edit).
    pub fn of(blocks: &[Block], id: u64) -> (r: Option<LiveLayout>)
        requires
            blocks@.len() <= i32::MAX,
        ensures
            match find_block(blocks@, id) {
                None => r is None,
                Some(k) => if blocks@[k].kind != BlockKind::Columns || blocks@[k].columns == 0 {
                    r is None
                } else {
                    r matches Some(l) && l.layout == id as i32 && l.items@.len() == spec_layout_slots(
                        blocks@,
                        blocks@[k],
                    ).len() && forall|i: int|
                        0 <= i < l.items@.len() ==> #[trigger] l.items@[i] == blocks@[spec_layout_slots(
                            blocks@,
                            blocks@[k],
                        )[i].index as int].id
                },
            },
    {
        let k = match find(blocks, id) {
            Some(k) => k,
            None => return None,
        };
        let b = &blocks[k];
        if b.kind != BlockKind::Columns || b.columns == 0 {
            return None;
        }
        let slots = layout_slots(blocks, b);
        let ghost css = children_sorted(blocks@, b.id);
        proof {
            lemma_children_sorted(blocks@, b.id);
            lemma_children_count(blocks@, b.id);
            lemma_layout_valid(blocks@, css, css.len() as int);
        }
        let mut items: Vec<u64> = Vec::new();
        let mut i: usize = 0;
        while i < slots.len()
            invariant
                i <= slots@.len(),
                forall|t: int| 0 <= t < slots@.len() ==> (#[trigger] slots@[t]).index < blocks@.len(),
                items@.len() == i,
                forall|q: int| 0 <= q < i ==> items@[q] == blocks@[slots@[q].index as int].id,
            decreases slots@.len() - i,
        {
            items.push(blocks[slots[i].index].id);
            i = i + 1;
        }
        Some(LiveLayout { layout: id as i32, items })
    }
}

/// One cell of a table row's data.
#[derive(Debug)]
pub struct TableCell {
    pub id: i32,
    pub text: String,
    pub runs: Vec<TextRun>,
}

/// Every block's text has a byte length that fits a `usize` with room to
/// spare.
pub open spec fn texts_fit(blocks: Seq<Block>) -> bool {
    forall|k: int| 0 <= k < blocks.len() ==> encode_utf8((#[trigger] blocks[k]).text@).len() < usize::MAX
}

/// `cells` are table `table`'s grid: one per cell, row-major, each cut
/// into runs by its marks and `hits`.
pub open spec fn cells_match(
    cells: Seq<TableCell>,
    blocks: Seq<Block>,
    hits: Map<i32, Vec<(usize, usize)>>,
    table: Block,
) -> bool {
    &&& cells.len() == spec_grid(blocks, table).len()
    &&& forall|i: int|
        0 <= i < cells.len() ==> {
            let b = blocks[spec_grid(blocks, table)[i]];
            &&& (#[trigger] cells[i]).id == b.id as i32
            &&& cells[i].text@ == b.text@
            &&& text_runs(cells[i].runs@, b.text@, b.marks@, hits_for(hits, b.id))
        }
}

/// The cells of one table, as the row's data, in row-major order.
pub fn table_cells(blocks: &[Block], table: &Block, hits: &FindHits) -> (r: Vec<TableCell>)
    requires
        texts_fit(blocks@),
    ensures
        cells_match(r@, blocks@, hits@, *table),
{
    let cells = grid_blocks(blocks, table);
    proof {
        lemma_grid_valid(blocks@, *table);
    }
    let mut out: Vec<TableCell> = Vec::new();
    let mut i: usize = 0;
    while i < cells.len()
        invariant
            i <= cells@.len(),
            cells@.len() == spec_grid(blocks@, *table).len(),
            forall|q: int| 0 <= q < cells@.len() ==> *(#[trigger] cells@[q]) == blocks@[spec_grid(blocks@, *table)[q]],
            texts_fit(blocks@),
            forall|q: int| 0 <= q < spec_grid(blocks@, *table).len() ==> 0 <= #[trigger] spec_grid(blocks@, *table)[q] < blocks@.len(),
            out@.len() == i,
            forall|q: int|
                0 <= q < i ==> {
                    let b = blocks@[spec_grid(blocks@, *table)[q]];
                    &&& (#[trigger] out@[q]).id == b.id as i32
                    &&& out@[q].text@ == b.text@
                    &&& text_runs(out@[q].runs@, b.text@, b.marks@, hits_for(hits@, b.id))
                },
        decreases cells@.len() - i,
    {
        let c = cells[i];
        let runs = build_runs(c.text.as_str(), c.marks.as_slice(), hits_of(hits, c.id));
        out.push(TableCell { id: c.id as i32, text: c.text.clone(), runs });
        i = i + 1;
    }
    out
}

// ---- the boxes hold their items together ----

/// `slots` run box by box: the box numbers never go down.
pub open spec fn columns_ascend(slots: Seq<ColumnSlot>) -> bool {
    forall|a: int, b: int| 0 <= a <= b < slots.len() ==> #[trigger] slots[a].column <= #[trigger] slots[b].column
}

proof fn lemma_prefix_ascends(blocks: Seq<Block>, cs: Seq<int>, n: int)
    requires
        0 <= n <= cs.len(),
        cs.len() <= i32::MAX,
    ensures
        columns_ascend(layout_prefix(blocks, cs, n)),
        forall|t: int|
            0 <= t < layout_prefix(blocks, cs, n).len() ==> (#[trigger] layout_prefix(blocks, cs, n)[t]).column
                <= box_positions(blocks, cs, n).len(),
    decreases n,
{
    if n > 0 {
        lemma_prefix_ascends(blocks, cs, n - 1);
        lemma_box_positions_len(blocks, cs, n - 1);
        let c = cs[n - 1];
        let box_n = box_positions(blocks, cs, n - 1).len() as int;
        if blocks[c].kind != BlockKind::Column {
            lemma_slots_column(blocks, c, box_n as i32, 0);
        } else {
            lemma_list_column(blocks, children_sorted(blocks, blocks[c].id), box_n as i32, 0);
        }
        let prev = layout_prefix(blocks, cs, n - 1);
        let piece = layout_piece(blocks, c, box_n);
        let all = layout_prefix(blocks, cs, n);
        assert(box_n as i32 == box_n);
        assert forall|t: int| 0 <= t < all.len() implies (#[trigger] all[t]).column <= box_positions(
            blocks,
            cs,
            n,
        ).len() && (t >= prev.len() ==> all[t].column == box_n) by {
            if t < prev.len() {
                assert(all[t] == prev[t]);
            } else {
                assert(all[t] == piece[t - prev.len()]);
            }
        }
        assert forall|a: int, b: int| 0 <= a <= b < all.len() implies #[trigger] all[a].column
            <= #[trigger] all[b].column by {
            if b < prev.len() {
                assert(all[a] == prev[a] && all[b] == prev[b]);
            } else if a < prev.len() {
                assert(all[a] == prev[a]);
            }
        }
    }
}

proof fn lemma_count_tail(slots: Seq<ColumnSlot>, j: int, n: int, c: int)
    requires
        0 <= j <= n <= slots.len(),
        forall|t: int| j <= t < n ==> (#[trigger] slots[t]).column >= c,
    ensures
        count_before_box(slots, n, c) == count_before_box(slots, j, c),
    decreases n - j,
{
    if n > j {
        lemma_count_tail(slots, j, n - 1, c);
    }
}

proof fn lemma_count_upto(slots: Seq<ColumnSlot>, n: int, c: int)
    requires
        0 <= n <= slots.len(),
        forall|t: int| 0 <= t < n ==> 0 <= (#[trigger] slots[t]).column <= c,
    ensures
        count_before_box(slots, n, c) + count_column(slots, n, c) == n,
    decreases n,
{
    if n > 0 {
        lemma_count_upto(slots, n - 1, c);
    }
}

proof fn lemma_count_grows(slots: Seq<ColumnSlot>, j: int, n: int, c: int)
    requires
        0 <= j <= n <= slots.len(),
    ensures
        count_before_box(slots, j, c) + count_column(slots, j, c) <= count_before_box(slots, n, c)
            + count_column(slots, n, c),
    decreases n - j,
{
    if n > j {
        lemma_count_grows(slots, j, n - 1, c);
    }
}

/// Each box's items sit together in the flat list: an item of box `c`
/// lies in `first .. first + size` of that box, where `first` counts the
/// items of the boxes before it and `size` those of box `c`, as
/// [`column_projection`] reports them.
pub proof fn lemma_boxes_hold_their_items(blocks: Seq<Block>, layout: Block)
    requires
        blocks.len() <= i32::MAX,
    ensures
        ({
            let slots = spec_layout_slots(blocks, layout);
            forall|j: int|
                0 <= j < slots.len() ==> {
                    let c = (#[trigger] slots[j]).column as int;
                    &&& 0 <= c
                    &&& count_before_box(slots, slots.len() as int, c) <= j
                    &&& j < count_before_box(slots, slots.len() as int, c) + count_column(
                        slots,
                        slots.len() as int,
                        c,
                    )
                }
        }),
{
    let css = children_sorted(blocks, layout.id);
    lemma_children_count(blocks, layout.id);
    lemma_children_sorted(blocks, layout.id);
    lemma_prefix_ascends(blocks, css, css.len() as int);
    lemma_layout_valid(blocks, css, css.len() as int);
    let slots = spec_layout_slots(blocks, layout);
    let n = slots.len() as int;
    assert forall|j: int| 0 <= j < n implies {
        let c = (#[trigger] slots[j]).column as int;
        &&& 0 <= c
        &&& count_before_box(slots, n, c) <= j
        &&& j < count_before_box(slots, n, c) + count_column(slots, n, c)
    } by {
        let c = slots[j].column as int;
        assert forall|t: int| j <= t < n implies (#[trigger] slots[t]).column >= c by {
            assert(slots[j].column <= slots[t].column);
        }
        lemma_count_tail(slots, j, n, c);
        lemma_count_bounds(blocks, slots, j, c, c);
        assert forall|t: int| 0 <= t < j + 1 implies 0 <= (#[trigger] slots[t]).column <= c by {
            assert(slots[t].column <= slots[j].column);
        }
        lemma_count_upto(slots, j + 1, c);
        lemma_count_grows(slots, j + 1, n, c);
    }
}

} // verus!
