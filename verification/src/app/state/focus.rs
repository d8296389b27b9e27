//! Where the keyboard and the pointer land: arrow keys in the "/" and "+"
//! menus, a sidebar row's place and drop target, and the block a drag over
//! an editor row lands before.

use vstd::prelude::*;
use crate::app::state::kinds::{kind_from_int, kind_of_int, BlockKind};
use crate::app::state::menu_rows::{block_kind, spec_block_kind};
use crate::app::state::menus::{SidebarNode, SlashRow};
use crate::app::state::layout::{lemma_grid_cells, spec_grid, spec_layout_slots, LiveGrid, LiveLayout};
use crate::app::state::projection::{
    find, find_block, ids_unique, lemma_find_from, lemma_find_unique,
    lemma_visible_is_exactly_the_shown_blocks, spec_visible,
    visible_block_indices, Block,
};
use crate::text::equals;

verus! {

/// The id of the sidebar's "Workspace" header, the drop target that moves a
/// page to the top level.
pub const WORKSPACE_HEADER_ID: i32 = -100;

// ---- the "/" and "+" menus ----

/// `x` held inside `[lo, hi]`.
pub open spec fn clamp(x: int, lo: int, hi: int) -> int {
    if x < lo {
        lo
    } else if x > hi {
        hi
    } else {
        x
    }
}

/// A row the keyboard passes over: a placeholder (negative id), or no row.
pub open spec fn disabled(rows: Seq<SlashRow>, i: int) -> bool {
    !(0 <= i < rows.len()) || rows[i].id < 0
}

/// From `next`, keep stepping by `step` over disabled rows while the next
/// one is still in the menu, at most `rows.len() - guard` more times.
pub open spec fn skip_disabled(rows: Seq<SlashRow>, next: int, step: int, guard: int) -> int
    decreases rows.len() - guard,
{
    if guard < rows.len() && disabled(rows, next) && 0 <= next + step < rows.len() {
        skip_disabled(rows, next + step, step, guard + 1)
    } else {
        next
    }
}

/// The row an arrow key moves the focus to: `delta` rows on, held inside
/// the menu, then on past placeholders in the direction of travel.
pub open spec fn next_focus(rows: Seq<SlashRow>, current: int, delta: int) -> int {
    if rows.len() == 0 {
        0
    } else {
        let next = clamp(current + delta, 0, rows.len() - 1);
        if delta != 0 {
            skip_disabled(
                rows,
                next,
                if delta > 0 {
                    1
                } else {
                    -1
                },
                0,
            )
        } else {
            next
        }
    }
}

/// Arrow-key navigation in the "/" or "+" menu whose rows are `rows`: the
/// focus moves by `delta` and skips the rows that cannot be picked.
pub fn slash_next_focus(rows: &[SlashRow], current: i32, delta: i32) -> (r: i32)
    requires
        rows@.len() <= i32::MAX,
        i32::MIN <= current + delta <= i32::MAX,
    ensures
        r == next_focus(rows@, current as int, delta as int),
{
    let count = rows.len() as i32;
    if count == 0 {
        return 0;
    }
    let sum = current + delta;
    let mut next: i32 = if sum < 0 {
        0
    } else if sum > count - 1 {
        count - 1
    } else {
        sum
    };
    if delta != 0 {
        let step: i32 = if delta > 0 {
            1
        } else {
            -1
        };
        let ghost goal = skip_disabled(rows@, next as int, step as int, 0);
        let mut guard: i32 = 0;
        loop
            invariant
                count == rows@.len(),
                0 <= next < count,
                0 <= guard <= count,
                step == 1 || step == -1,
                skip_disabled(rows@, next as int, step as int, guard as int) == goal,
            ensures
                next == goal,
            decreases count - guard,
        {
            if guard >= count || rows[next as usize].id >= 0 {
                break;
            }
            let candidate = next + step;
            if candidate < 0 || candidate >= count {
                break;
            }
            next = candidate;
            guard = guard + 1;
        }
    }
    next
}

proof fn lemma_skip_in_range(rows: Seq<SlashRow>, next: int, step: int, guard: int)
    requires
        0 <= next < rows.len(),
    ensures
        0 <= skip_disabled(rows, next, step, guard) < rows.len(),
    decreases rows.len() - guard,
{
    if guard < rows.len() && disabled(rows, next) && 0 <= next + step < rows.len() {
        lemma_skip_in_range(rows, next + step, step, guard + 1);
    }
}

/// The arrow keys never move the focus out of a menu that has rows: it
/// always lands on one of them.
pub proof fn lemma_focus_stays_in_menu(rows: Seq<SlashRow>, current: int, delta: int)
    requires
        rows.len() > 0,
    ensures
        0 <= next_focus(rows, current, delta) < rows.len(),
{
    let next = clamp(current + delta, 0, rows.len() - 1);
    if delta != 0 {
        lemma_skip_in_range(
            rows,
            next,
            if delta > 0 {
                1
            } else {
                -1
            },
            0,
        );
    }
}

/// The kind the focused menu row inserts: none for a placeholder, or when
/// the focus is past the last row.
pub open spec fn selected_kind(rows: Seq<SlashRow>, focus: int) -> Option<BlockKind> {
    let i = if focus < 0 {
        0
    } else {
        focus
    };
    if i >= rows.len() || rows[i].id < 0 {
        None
    } else {
        Some(kind_of_int(rows[i].id as int))
    }
}

/// The kind the menu row at `focus` inserts, if it can be picked.
pub fn slash_selected_kind(rows: &[SlashRow], focus: i32) -> (r: Option<BlockKind>)
    ensures
        r == selected_kind(rows@, focus as int),
{
    let i: usize = if focus < 0 {
        0
    } else {
        focus as usize
    };
    if i >= rows.len() {
        return None;
    }
    let id = rows[i].id;
    if id < 0 {
        return None;
    }
    Some(kind_from_int(id))
}

// ---- the sidebar ----

/// The `y` of the first row from `from` on that shows page `id`; 0 when
/// none does.
pub open spec fn row_y_from(rows: Seq<SidebarNode>, id: i32, from: int) -> i32
    decreases rows.len() - from,
{
    if from < 0 || from >= rows.len() {
        0
    } else if rows[from].id == id {
        rows[from].y
    } else {
        row_y_from(rows, id, from + 1)
    }
}

/// Where the sidebar row of page `id` sits, 0 when the sidebar has none.
pub fn sidebar_row_y(rows: &[SidebarNode], id: i32) -> (r: i32)
    ensures
        r == row_y_from(rows@, id, 0),
{
    let mut i: usize = 0;
    while i < rows.len()
        invariant
            i <= rows@.len(),
            row_y_from(rows@, id, i as int) == row_y_from(rows@, id, 0),
        decreases rows@.len() - i,
    {
        if rows[i].id == id {
            return rows[i].y;
        }
        i = i + 1;
    }
    0
}

/// What a page dragged onto sidebar row `index` moves under: into a page
/// (`Some(Some(id))`), to the top level over the Workspace header
/// (`Some(None)`), or nowhere (`None`: other headers, recents, "New page").
pub open spec fn drop_target(rows: Seq<SidebarNode>, index: int) -> Option<Option<i32>> {
    let i = if index < 0 {
        0
    } else {
        index
    };
    if i >= rows.len() {
        None
    } else if rows[i].kind@ == "page"@ {
        Some(Some(rows[i].id))
    } else if rows[i].kind@ == "header"@ && rows[i].id == WORKSPACE_HEADER_ID {
        Some(None)
    } else {
        None
    }
}

/// The drop target behind sidebar row `index`, for the page-tree drag.
pub fn page_drop_target(rows: &[SidebarNode], index: i32) -> (r: Option<Option<i32>>)
    ensures
        r == drop_target(rows@, index as int),
{
    let i: usize = if index < 0 {
        0
    } else {
        index as usize
    };
    if i >= rows.len() {
        return None;
    }
    let node = &rows[i];
    if equals(node.kind.as_str(), "page") {
        Some(Some(node.id))
    } else if equals(node.kind.as_str(), "header") && node.id == WORKSPACE_HEADER_ID {
        Some(None)
    } else {
        None
    }
}

/// The first position from `from` on whose page is `id`.
pub open spec fn page_position(kids: Seq<i32>, id: i32, from: int) -> Option<int>
    decreases kids.len() - from,
{
    if from < 0 || from >= kids.len() {
        None
    } else if kids[from] == id {
        Some(from)
    } else {
        page_position(kids, id, from + 1)
    }
}

/// The sibling page `id` trades places with when it moves `delta` slots
/// among its siblings `kids`: none when `id` is not among them or the move
/// would leave the run.
pub open spec fn neighbor_of(kids: Seq<i32>, id: i32, delta: i32) -> Option<i32> {
    match page_position(kids, id, 0) {
        None => None,
        Some(at) => if 0 <= at + delta < kids.len() {
            Some(kids[at + delta])
        } else {
            None
        },
    }
}

/// The sibling "Move up" (-1) or "Move down" (+1) swaps page `id` with,
/// among its siblings `kids` in order.
pub fn page_neighbor(kids: &[i32], id: i32, delta: i32) -> (r: Option<i32>)
    ensures
        r == neighbor_of(kids@, id, delta),
{
    let mut at: usize = 0;
    while at < kids.len()
        invariant
            at <= kids@.len(),
            page_position(kids@, id, at as int) == page_position(kids@, id, 0),
        decreases kids@.len() - at,
    {
        if kids[at] == id {
            assert(page_position(kids@, id, at as int) == Some(at as int));
            if delta < 0 {
                let back: u64 = (0i64 - delta as i64) as u64;
                if back > at as u64 {
                    return None;
                }
                return Some(kids[at - back as usize]);
            } else {
                let ahead = delta as usize;
                if ahead >= kids.len() - at {
                    return None;
                }
                return Some(kids[at + ahead]);
            }
        }
        at = at + 1;
    }
    None
}

// ---- dragging a block ----

/// The position among the page's blocks that a drag over editor row `row`
/// lands at: before that row's block, or after it when `below`.
pub open spec fn drop_index(blocks: Seq<Block>, row: int, below: bool) -> Option<i32> {
    if row < 0 || row >= spec_visible(blocks).len() {
        None
    } else {
        Some(
            (spec_visible(blocks)[row] + if below {
                1int
            } else {
                0int
            }) as i32,
        )
    }
}

/// Translate a drag landing from the editor row under the pointer into a
/// position in the page's blocks: the two differ once a folded subtree
/// takes its rows out of the count.
pub fn drop_index_for_row(blocks: &[Block], row: i32, below: bool) -> (r: Option<i32>)
    ensures
        r == drop_index(blocks@, row as int, below),
{
    if row < 0 {
        return None;
    }
    let visible = visible_block_indices(blocks);
    let at = row as usize;
    if at >= visible.len() {
        return None;
    }
    let model = visible[at];
    let total = blocks.len();
    proof {
        assert(total == blocks@.len());
        lemma_visible_is_exactly_the_shown_blocks(blocks@, blocks@.len() as int);
        assert(visible@[at as int] < blocks@.len());
    }
    let shift: usize = if below {
        1
    } else {
        0
    };
    Some(#[verifier::truncate] ((model + shift) as i32))
}

// ---- Tab through a table ----

/// A negative id read as 0, the way a lookup by block id takes it.
pub open spec fn key_of(id: i32) -> u64 {
    if id < 0 {
        0
    } else {
        id as u64
    }
}

fn key(id: i32) -> (r: u64)
    ensures
        r == key_of(id),
{
    if id < 0 {
        0
    } else {
        id as u64
    }
}

/// The ids of the cells of the table at position `k`, in row-major order.
pub open spec fn grid_ids(blocks: Seq<Block>, k: int) -> Seq<u64> {
    Seq::new(spec_grid(blocks, blocks[k]).len(), |i: int| blocks[spec_grid(blocks, blocks[k])[i]].id)
}

/// The first position from `from` on that holds `x`.
pub open spec fn position_from(ids: Seq<u64>, x: u64, from: int) -> Option<int>
    decreases ids.len() - from,
{
    if from < 0 || from >= ids.len() {
        None
    } else if ids[from] == x {
        Some(from)
    } else {
        position_from(ids, x, from + 1)
    }
}

/// The position of the live table that cell `cell` belongs to: the cell is
/// a table cell whose parent is a table with columns.
pub open spec fn cell_table(blocks: Seq<Block>, cell: i32) -> Option<int> {
    match find_block(blocks, key_of(cell)) {
        None => None,
        Some(c) => if blocks[c].kind != BlockKind::TableCell || blocks[c].parent is None {
            None
        } else {
            match find_block(blocks, key_of(blocks[c].parent.unwrap() as i32)) {
                None => None,
                Some(k) => if blocks[k].kind != BlockKind::Table || blocks[k].columns == 0 {
                    None
                } else {
                    Some(k)
                },
            }
        },
    }
}

/// Where cell `cell` sits: its table's position and the cell's row-major
/// slot in that table's grid.
pub open spec fn cell_place(blocks: Seq<Block>, cell: i32) -> Option<(int, int)> {
    match cell_table(blocks, cell) {
        None => None,
        Some(k) => match position_from(grid_ids(blocks, k), cell as u64, 0) {
            None => None,
            Some(at) => Some((k, at)),
        },
    }
}

proof fn lemma_position_from(ids: Seq<u64>, x: u64, from: int)
    requires
        0 <= from,
    ensures
        position_from(ids, x, from) matches Some(i) ==> from <= i < ids.len() && ids[i] == x,
    decreases ids.len() - from,
{
    if from < ids.len() && ids[from] != x {
        lemma_position_from(ids, x, from + 1);
    }
}

/// The live grid cell `cell` belongs to, and the cell's row-major slot in
/// it; none for anything that is not a cell of a live grid.
pub fn grid_of_cell(blocks: &[Block], cell: i32) -> (r: Option<(LiveGrid, usize)>)
    ensures
        match cell_place(blocks@, cell) {
            None => r is None,
            Some((k, at)) => r matches Some((g, a)) && a == at && g.table == blocks@[k].id as i32
                && g.cols == blocks@[k].columns && g.cells@ == grid_ids(blocks@, k),
        },
{
    let c = match find(blocks, key(cell)) {
        Some(c) => c,
        None => return None,
    };
    if blocks[c].kind != BlockKind::TableCell {
        return None;
    }
    let parent = match blocks[c].parent {
        Some(p) => p,
        None => return None,
    };
    let table_key = key(#[verifier::truncate] (parent as i32));
    let grid = match LiveGrid::of(blocks, table_key) {
        Some(g) => g,
        None => {
            assert(cell_table(blocks@, cell) is None);
            return None;
        },
    };
    let ghost k = find_block(blocks@, table_key).unwrap();
    proof {
        lemma_find_from(blocks@, table_key, 0);
    }
    assert(grid.cells@ =~= grid_ids(blocks@, k));
    assert(cell_table(blocks@, cell) == Some(k));
    let target = #[verifier::truncate] (cell as u64);
    let mut i: usize = 0;
    while i < grid.cells.len()
        invariant
            i <= grid.cells@.len(),
            position_from(grid.cells@, target, i as int) == position_from(grid.cells@, target, 0),
            target == cell as u64,
            grid.cells@ == grid_ids(blocks@, k),
            cell_table(blocks@, cell) == Some(k),
            0 <= k < blocks@.len(),
            grid.table == blocks@[k].id as i32,
            grid.cols == blocks@[k].columns,
        decreases grid.cells@.len() - i,
    {
        if grid.cells[i] == target {
            assert(position_from(grid.cells@, target, i as int) == Some(i as int));
            return Some((grid, i));
        }
        i = i + 1;
    }
    None
}

/// Cell `cell`'s table id, row and column; none for anything that is not a
/// cell of a live grid.
pub fn table_cell_place(blocks: &[Block], cell: i32) -> (r: Option<(i32, usize, usize)>)
    ensures
        match cell_place(blocks@, cell) {
            None => r is None,
            Some((k, at)) => r == Some(
                (
                    blocks@[k].id as i32,
                    (at / blocks@[k].columns as int) as usize,
                    (at % blocks@[k].columns as int) as usize,
                ),
            ),
        },
{
    match grid_of_cell(blocks, cell) {
        Some((grid, at)) => Some((grid.table, at / grid.cols, at % grid.cols)),
        None => None,
    }
}

/// Cell `cell`'s row-major slot in its grid.
pub fn table_cell_index(blocks: &[Block], cell: i32) -> (r: Option<usize>)
    ensures
        match cell_place(blocks@, cell) {
            None => r is None,
            Some((k, at)) => r == Some(at as usize),
        },
{
    match grid_of_cell(blocks, cell) {
        Some((_, at)) => Some(at),
        None => None,
    }
}

/// What Tab (or Shift-Tab) in a table cell does.
#[derive(Debug, PartialEq, Eq)]
pub enum TableStep {
    /// Not a cell of a live grid, or stepping off the front: stay put.
    Stay,
    /// Focus this cell.
    Focus(i32),
    /// Stepping past the last cell: append row `row` to `table`, then focus
    /// the first cell the append inserts.
    AddRow { table: i32, row: usize },
}

/// What stepping `delta` cells on from cell `cell` does.
pub open spec fn table_move(blocks: Seq<Block>, cell: i32, delta: i32) -> TableStep {
    match cell_place(blocks, cell) {
        None => TableStep::Stay,
        Some((k, at)) => {
            let target = at + delta;
            let ids = grid_ids(blocks, k);
            if target < 0 {
                TableStep::Stay
            } else if target >= ids.len() {
                TableStep::AddRow {
                    table: blocks[k].id as i32,
                    row: (ids.len() as int / blocks[k].columns as int) as usize,
                }
            } else {
                TableStep::Focus(ids[target] as i32)
            }
        },
    }
}

/// Tab / Shift-Tab through a grid: stepping past the last cell grows the
/// table by a row, stepping off the front stays put.
pub fn table_step(blocks: &[Block], cell: i32, delta: i32) -> (r: TableStep)
    ensures
        r == table_move(blocks@, cell, delta),
{
    let (grid, at) = match grid_of_cell(blocks, cell) {
        Some(found) => found,
        None => return TableStep::Stay,
    };
    proof {
        lemma_position_from(grid.cells@, cell as u64, 0);
    }
    let len = grid.cells.len();
    let target: usize = if delta < 0 {
        let back: u64 = (0i64 - delta as i64) as u64;
        if back > at as u64 {
            return TableStep::Stay;
        }
        at - back as usize
    } else {
        let ahead = delta as usize;
        if ahead >= len - at {
            return TableStep::AddRow { table: grid.table, row: grid.rows() };
        }
        at + ahead
    };
    let id = grid.cells[target];
    TableStep::Focus(#[verifier::truncate] (id as i32))
}

proof fn lemma_position_first(ids: Seq<u64>, x: u64, i: int, from: int)
    requires
        0 <= from <= i < ids.len(),
        ids[i] == x,
        forall|j: int| from <= j < i ==> ids[j] != x,
    ensures
        position_from(ids, x, from) == Some(i),
    decreases i - from,
{
    if from < i {
        lemma_position_first(ids, x, i, from + 1);
    }
}

/// Every block id of the page reads as a non-negative `i32`, the way the
/// UI names blocks.
pub open spec fn ids_fit(blocks: Seq<Block>) -> bool {
    forall|i: int| 0 <= i < blocks.len() ==> (#[trigger] blocks[i]).id <= i32::MAX
}

/// Tab then Shift-Tab comes back: on a page whose blocks have distinct ids
/// that the UI can name, when Tab moves the focus from `cell` to another
/// cell, Shift-Tab from there moves it back to `cell`.
pub proof fn lemma_tab_then_back(blocks: Seq<Block>, cell: i32)
    requires
        ids_unique(blocks),
        ids_fit(blocks),
        table_move(blocks, cell, 1i32) is Focus,
    ensures
        table_move(blocks, table_move(blocks, cell, 1i32)->Focus_0, -1i32) == TableStep::Focus(cell),
{
    let (k, at) = cell_place(blocks, cell).unwrap();
    // the cell, and the table its parent names
    let c = find_block(blocks, key_of(cell)).unwrap();
    let tid = key_of(blocks[c].parent.unwrap() as i32);
    lemma_find_from(blocks, key_of(cell), 0);
    lemma_find_from(blocks, tid, 0);
    lemma_find_unique(blocks, k);
    let ids = grid_ids(blocks, k);
    let g = spec_grid(blocks, blocks[k]);
    lemma_position_from(ids, cell as u64, 0);
    lemma_grid_cells(blocks, blocks[k]);
    // the next cell is a cell of the same table, found at the next slot
    let next_pos = g[at + 1];
    let n = ids[at + 1] as i32;
    assert(ids[at + 1] == blocks[next_pos].id);
    assert(key_of(n) == blocks[next_pos].id);
    lemma_find_unique(blocks, next_pos);
    assert(key_of(blocks[k].id as i32) == blocks[k].id);
    assert(cell_table(blocks, n) == Some(k));
    assert forall|j: int| 0 <= j < at + 1 implies ids[j] != n as u64 by {
        assert(g[j] != g[at + 1]);
        assert(ids[j] == blocks[g[j]].id);
    }
    lemma_position_first(ids, n as u64, at + 1, 0);
    assert(cell_place(blocks, n) == Some((k, at + 1)));
    // and the slot before it names `cell` back
    assert(ids[at] == blocks[g[at]].id);
    assert(cell < 0 ==> (cell as u64) > 0x7fff_ffffu64) by (bit_vector);
    assert(table_move(blocks, n, -1i32) == TableStep::Focus(ids[at] as i32));
}

/// True when block `id` is a table cell: the row the editor must not turn,
/// split, merge or paste block structure into.
pub fn is_table_cell(blocks: &[Block], id: i32) -> (r: bool)
    ensures
        r == (spec_block_kind(blocks@, id as u64) == Some(BlockKind::TableCell)),
{
    match block_kind(blocks, id) {
        Some(BlockKind::TableCell) => true,
        _ => false,
    }
}

/// The position of table `table` when it is a live grid: a table with
/// columns.
pub open spec fn live_table(blocks: Seq<Block>, table: i32) -> Option<int> {
    match find_block(blocks, key_of(table)) {
        None => None,
        Some(k) => if blocks[k].kind != BlockKind::Table || blocks[k].columns == 0 {
            None
        } else {
            Some(k)
        },
    }
}

/// The grid cell at slot `at` of table `table`, clamped into the grid as it
/// is now: where the caret lands after a delete took the cell under it.
pub open spec fn cell_at(blocks: Seq<Block>, table: i32, at: int) -> Option<i32> {
    match live_table(blocks, table) {
        None => None,
        Some(k) => {
            let ids = grid_ids(blocks, k);
            if ids.len() == 0 {
                None
            } else {
                Some(
                    ids[if at < ids.len() - 1 {
                        at
                    } else {
                        ids.len() - 1
                    }] as i32,
                )
            }
        },
    }
}

/// The cell at slot `at` of table `table`, clamped to the grid's last cell.
pub fn table_cell_at(blocks: &[Block], table: i32, at: usize) -> (r: Option<i32>)
    ensures
        r == cell_at(blocks@, table, at as int),
{
    let grid = match LiveGrid::of(blocks, key(table)) {
        Some(g) => g,
        None => return None,
    };
    let ghost k = live_table(blocks@, table).unwrap();
    assert(grid.cells@ =~= grid_ids(blocks@, k));
    let last = if grid.cells.len() == 0 {
        0
    } else {
        grid.cells.len() - 1
    };
    let at = if at < last {
        at
    } else {
        last
    };
    if at < grid.cells.len() {
        Some(#[verifier::truncate] (grid.cells[at] as i32))
    } else {
        None
    }
}

/// Where a table's toolbar acts: the focused cell's row and column when the
/// focus is a cell of this table (`table`, `rows` by `cols`), else its last
/// row and column.
pub open spec fn anchor_in(blocks: Seq<Block>, table: i32, rows: int, cols: int, focus: i32) -> (
    usize,
    usize,
) {
    match cell_place(blocks, focus) {
        Some((o, at)) if blocks[o].id as i32 == table => (
            (at / blocks[o].columns as int) as usize,
            (at % blocks[o].columns as int) as usize,
        ),
        _ => (
            (if rows > 0 {
                rows - 1
            } else {
                0
            }) as usize,
            (cols - 1) as usize,
        ),
    }
}

fn table_anchor(blocks: &[Block], grid: &LiveGrid, focus: i32) -> (r: (usize, usize))
    requires
        grid.cols > 0,
    ensures
        r == anchor_in(
            blocks@,
            grid.table,
            grid.cells@.len() as int / grid.cols as int,
            grid.cols as int,
            focus,
        ),
{
    match table_cell_place(blocks, focus) {
        Some((owner, row, col)) => {
            if owner == grid.table {
                return (row, col);
            }
        },
        None => {},
    }
    let rows = grid.rows();
    (if rows > 0 {
        rows - 1
    } else {
        0
    }, grid.cols - 1)
}

/// The anchor of table `table`'s toolbar, for the focus `focus`.
pub open spec fn table_anchor_of(blocks: Seq<Block>, k: int, focus: i32) -> (usize, usize) {
    anchor_in(
        blocks,
        blocks[k].id as i32,
        grid_ids(blocks, k).len() as int / blocks[k].columns as int,
        blocks[k].columns as int,
        focus,
    )
}

/// The live grid of table `table`, with the facts its callers lean on.
fn live_grid(blocks: &[Block], table: i32) -> (r: Option<LiveGrid>)
    ensures
        match live_table(blocks@, table) {
            None => r is None,
            Some(k) => r matches Some(g) && g.table == blocks@[k].id as i32 && g.cols
                == blocks@[k].columns && g.cols > 0 && g.cells@ == grid_ids(blocks@, k),
        },
{
    let grid = LiveGrid::of(blocks, key(table));
    proof {
        lemma_find_from(blocks@, key_of(table), 0);
        if let Some(k) = live_table(blocks@, table) {
            assert(grid.unwrap().cells@ =~= grid_ids(blocks@, k));
        }
    }
    grid
}

/// Where "add a row" puts the new row of table `table`: after the anchor's
/// row. None when `table` is not a live grid.
pub fn table_add_row(blocks: &[Block], table: i32, focus: i32) -> (r: Option<usize>)
    ensures
        r == match live_table(blocks@, table) {
            None => None,
            Some(k) => {
                let rows = grid_ids(blocks@, k).len() as int / blocks@[k].columns as int;
                let after = table_anchor_of(blocks@, k, focus).0 + 1;
                Some(
                    (if after < rows {
                        after
                    } else {
                        rows
                    }) as usize,
                )
            },
        },
{
    let grid = match live_grid(blocks, table) {
        Some(g) => g,
        None => return None,
    };
    let (row, _) = table_anchor(blocks, &grid, focus);
    let rows = grid.rows();
    Some(
        if row < rows {
            row + 1
        } else {
            rows
        },
    )
}

/// Where "add a column" puts the new column of table `table`: after the
/// anchor's column.
pub fn table_add_column(blocks: &[Block], table: i32, focus: i32) -> (r: Option<usize>)
    ensures
        r == match live_table(blocks@, table) {
            None => None,
            Some(k) => {
                let cols = blocks@[k].columns as int;
                let after = table_anchor_of(blocks@, k, focus).1 + 1;
                Some(
                    (if after < cols {
                        after
                    } else {
                        cols
                    }) as usize,
                )
            },
        },
{
    let grid = match live_grid(blocks, table) {
        Some(g) => g,
        None => return None,
    };
    let (_, col) = table_anchor(blocks, &grid, focus);
    Some(
        if col < grid.cols {
            col + 1
        } else {
            grid.cols
        },
    )
}

/// The row "delete row" takes out of table `table`: the anchor's.
pub fn table_delete_row(blocks: &[Block], table: i32, focus: i32) -> (r: Option<usize>)
    ensures
        r == match live_table(blocks@, table) {
            None => None,
            Some(k) => Some(table_anchor_of(blocks@, k, focus).0),
        },
{
    let grid = match live_grid(blocks, table) {
        Some(g) => g,
        None => return None,
    };
    Some(table_anchor(blocks, &grid, focus).0)
}

/// The column "delete column" takes out of table `table`: the anchor's.
pub fn table_delete_column(blocks: &[Block], table: i32, focus: i32) -> (r: Option<usize>)
    ensures
        r == match live_table(blocks@, table) {
            None => None,
            Some(k) => Some(table_anchor_of(blocks@, k, focus).1),
        },
{
    let grid = match live_grid(blocks, table) {
        Some(g) => g,
        None => return None,
    };
    Some(table_anchor(blocks, &grid, focus).1)
}

// ---- Tab through a columns layout ----

/// Walking up from block `cur` through at most `fuel` blocks: the first
/// columns layout met (`Some(Some(id))`), or `Some(None)` when the walk
/// leaves the page or reaches the top first; `None` when the fuel ran out.
pub open spec fn columns_above(blocks: Seq<Block>, cur: u64, fuel: nat) -> Option<Option<u64>>
    decreases fuel,
{
    if fuel == 0 {
        None
    } else {
        match find_block(blocks, cur) {
            None => Some(None),
            Some(k) => if blocks[k].kind == BlockKind::Columns {
                Some(Some(cur))
            } else {
                match blocks[k].parent {
                    None => Some(None),
                    Some(p) => columns_above(blocks, p, (fuel - 1) as nat),
                }
            },
        }
    }
}

/// The walk from block `item` up to its layout: from its parent, through
/// at most as many blocks as the page has. A walk that has not ended by
/// then goes round a circle of parent links (`None`).
pub open spec fn layout_walk(blocks: Seq<Block>, item: i32) -> Option<Option<u64>> {
    match find_block(blocks, key_of(item)) {
        None => Some(None),
        Some(i) => match blocks[i].parent {
            None => Some(None),
            Some(p) => columns_above(blocks, p, (blocks.len() + 1) as nat),
        },
    }
}

/// The columns layout block `item` belongs to, its items in reading order,
/// and the item's slot in them; none outside a layout, and none when the
/// parent links above `item` go round in a circle.
pub open spec fn item_place(blocks: Seq<Block>, item: i32) -> Option<(int, int)> {
    match layout_walk(blocks, item) {
        Some(Some(owner)) => match find_block(blocks, key_of(owner as i32)) {
            None => None,
            Some(k) => if blocks[k].kind != BlockKind::Columns || blocks[k].columns == 0 {
                None
            } else {
                match position_from(layout_ids(blocks, k), item as u64, 0) {
                    None => None,
                    Some(at) => Some((k, at)),
                }
            },
        },
        _ => None,
    }
}

/// The ids of the blocks inside layout `k`, in reading order.
pub open spec fn layout_ids(blocks: Seq<Block>, k: int) -> Seq<u64> {
    Seq::new(
        spec_layout_slots(blocks, blocks[k]).len(),
        |i: int| blocks[spec_layout_slots(blocks, blocks[k])[i].index as int].id,
    )
}

/// The layout `item` is inside and the item's slot in it; none for a block
/// that is in no layout.
fn layout_of_item(blocks: &[Block], item: i32) -> (r: Option<(LiveLayout, usize)>)
    requires
        blocks@.len() <= i32::MAX,
    ensures
        match item_place(blocks@, item) {
            None => r is None,
            Some((k, at)) => r matches Some((l, a)) && a == at && l.items@ == layout_ids(blocks@, k),
        },
{
    let i = match find(blocks, key(item)) {
        Some(i) => i,
        None => return None,
    };
    let mut cur = match blocks[i].parent {
        Some(p) => p,
        None => return None,
    };
    let mut fuel: usize = blocks.len() + 1;
    loop
        invariant
            fuel <= blocks@.len() + 1,
            layout_walk(blocks@, item) == columns_above(blocks@, cur, fuel as nat),
        ensures
            layout_walk(blocks@, item) == Some(Some(cur)),
        decreases fuel,
    {
        if fuel == 0 {
            // the parent chain goes round in a circle: no layout above
            return None;
        }
        let k = match find(blocks, cur) {
            Some(k) => k,
            None => return None,
        };
        if blocks[k].kind == BlockKind::Columns {
            break;
        }
        cur = match blocks[k].parent {
            Some(p) => p,
            None => return None,
        };
        fuel = fuel - 1;
    }
    let owner = cur;
    let layout = match LiveLayout::of(blocks, key(#[verifier::truncate] (owner as i32))) {
        Some(l) => l,
        None => return None,
    };
    let ghost k = find_block(blocks@, key_of(owner as i32)).unwrap();
    assert(layout.items@ =~= layout_ids(blocks@, k));
    let target = #[verifier::truncate] (item as u64);
    let mut at: usize = 0;
    while at < layout.items.len()
        invariant
            at <= layout.items@.len(),
            position_from(layout.items@, target, at as int) == position_from(layout.items@, target, 0),
            target == item as u64,
            layout.items@ == layout_ids(blocks@, k),
            item_place(blocks@, item) == match position_from(layout_ids(blocks@, k), target, 0) {
                None => None,
                Some(a) => Some((k, a)),
            },
        decreases layout.items@.len() - at,
    {
        if layout.items[at] == target {
            assert(position_from(layout.items@, target, at as int) == Some(at as int));
            return Some((layout, at));
        }
        at = at + 1;
    }
    None
}

/// Tab / Shift-Tab through a layout: `delta` items on from `item`, stopping
/// at either end rather than leaving the layout.
pub open spec fn column_move(blocks: Seq<Block>, item: i32, delta: i32) -> Option<i32> {
    match item_place(blocks, item) {
        None => None,
        Some((k, at)) => {
            let target = at + delta;
            let ids = layout_ids(blocks, k);
            if target < 0 || target >= ids.len() {
                None
            } else {
                Some(ids[target] as i32)
            }
        },
    }
}

/// The block Tab (`delta` 1) or Shift-Tab (-1) moves to from `item` inside
/// its layout; none at either end, or outside a layout.
pub fn column_step(blocks: &[Block], item: i32, delta: i32) -> (r: Option<i32>)
    requires
        blocks@.len() <= i32::MAX,
    ensures
        r == column_move(blocks@, item, delta),
{
    let (layout, at) = match layout_of_item(blocks, item) {
        Some(found) => found,
        None => return None,
    };
    proof {
        lemma_position_from(layout.items@, item as u64, 0);
    }
    let len = layout.items.len();
    let target: usize = if delta < 0 {
        let back: u64 = (0i64 - delta as i64) as u64;
        if back > at as u64 {
            return None;
        }
        at - back as usize
    } else {
        let ahead = delta as usize;
        if ahead >= len - at {
            return None;
        }
        at + ahead
    };
    Some(#[verifier::truncate] (layout.items[target] as i32))
}

/// True when block `id` sits inside a columns layout.
pub fn is_column_item(blocks: &[Block], id: i32) -> (r: bool)
    requires
        blocks@.len() <= i32::MAX,
    ensures
        r == (item_place(blocks@, id) is Some),
{
    layout_of_item(blocks, id).is_some()
}

} // verus!
