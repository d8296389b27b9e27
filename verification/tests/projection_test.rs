use quire::app::state::kinds::{BLOCK_NUMBERED, BLOCK_TABLE, BLOCK_TABLE_CELL, BLOCK_TOC, BLOCK_TOGGLE};
use quire::app::state::projection::{
    block_depth, core_page_id, hidden_by_ancestor, project_blocks, row_id_of, toc_entries,
    visible_block_indices, Block, BlockRow, FindHits, PageId,
};
use quire::app::state::runs::{Mark, MarkKind};
use quire::app::state::BlockKind;

/// A block in display order, no marks: the shape the projections read.
fn blk(id: u64, parent: Option<u64>, order: u64, kind: BlockKind, folded: bool, text: &str) -> Block {
    Block {
        id,
        parent,
        order,
        kind,
        text: text.to_string(),
        checked: false,
        marks: Vec::new(),
        color: 0,
        background: 0,
        folded,
        page_ref: None,
        attachment: None,
        img_percent: 100,
        columns: 0,
    }
}

/// A page's blocks in display order: a folded toggle with two children (one
/// of them a grandchild of the other) and a trailing paragraph.
fn fold_scene() -> Vec<Block> {
    vec![
        blk(1, None, 10, BlockKind::Toggle, true, "section"),
        blk(2, Some(1), 11, BlockKind::Paragraph, false, "a"),
        blk(3, Some(2), 12, BlockKind::Bullet, false, "a/1"),
        blk(4, None, 13, BlockKind::Toggle, false, "open section"),
        blk(5, Some(4), 14, BlockKind::Paragraph, false, "b"),
        blk(6, None, 15, BlockKind::Paragraph, false, "tail"),
    ]
}

/// A paragraph, a three-column table with six cells, a paragraph.
fn grid_scene() -> Vec<Block> {
    let mk = |id: u64, parent: Option<u64>, kind: BlockKind, text: &str| {
        let mut b = blk(id, parent, 0, kind, false, text);
        b.columns = if kind == BlockKind::Table { 3 } else { 0 };
        b
    };
    let cell = |id: u64, text: &str| mk(id, Some(8), BlockKind::TableCell, text);
    let mut blocks = vec![
        mk(1, None, BlockKind::Paragraph, "before"),
        mk(8, None, BlockKind::Table, ""),
        cell(2, "A0"),
        {
            let mut c = cell(3, "A1");
            c.marks = vec![Mark { start: 0, end: 2, kind: MarkKind::Bold, url: String::new() }];
            c
        },
        cell(4, "A2"),
        cell(5, "B0"),
        cell(6, "B1"),
        cell(7, "B2"),
        mk(9, None, BlockKind::Paragraph, "after"),
    ];
    for (i, b) in blocks.iter_mut().enumerate() {
        b.order = (i as u64 + 1) * 10;
    }
    blocks
}

/// What a contents row's list says, as (block, label, indent).
fn toc_of(row: &BlockRow) -> Vec<(i32, String, i32)> {
    row.toc_entries.iter().map(|e| (e.block, e.label.clone(), e.level)).collect()
}

#[test]
fn a_folded_subtree_produces_no_rows_at_all() {
    let blocks = fold_scene();
    let rows = project_blocks(&blocks, &FindHits::new());
    // the collapsed section costs real rows, not hidden delegates: block 2
    // and its own child 3 drop out with their parent
    let ids: Vec<i32> = rows.iter().map(|r| r.id).collect();
    assert_eq!(ids, vec![1, 4, 5, 6]);
    assert_eq!(visible_block_indices(&blocks), vec![0, 3, 4, 5]);
}

#[test]
fn unfolding_returns_the_subtree_in_its_source_order() {
    let mut blocks = fold_scene();
    blocks[0].folded = false;
    let rows = project_blocks(&blocks, &FindHits::new());
    let ids: Vec<i32> = rows.iter().map(|r| r.id).collect();
    assert_eq!(ids, vec![1, 2, 3, 4, 5, 6]);
}

#[test]
fn the_fold_flag_reports_children_not_kind() {
    let blocks = fold_scene();
    let rows = project_blocks(&blocks, &FindHits::new());
    assert!(rows.iter().find(|r| r.id == 1).unwrap().can_fold);
    assert!(rows.iter().find(|r| r.id == 4).unwrap().can_fold);
    // a section with nothing in it reports false: no chevron to click. The
    // stored flag stays whatever it was; it just hides nothing.
    let lone = vec![{
        let mut b = blocks[0].clone();
        b.id = 9;
        b.parent = None;
        b
    }];
    let rows = project_blocks(&lone, &FindHits::new());
    assert!(!rows[0].can_fold, "toggle with no children");
    assert_eq!(rows[0].kind, BLOCK_TOGGLE);
    assert!(rows[0].folded, "the flag rides along with the block");
}

#[test]
fn hidden_rows_do_not_rename_the_numbered_list() {
    let mut blocks = fold_scene();
    blocks[0].kind = BlockKind::Numbered;
    blocks[1].kind = BlockKind::Numbered;
    blocks[2].kind = BlockKind::Numbered;
    blocks[5].kind = BlockKind::Numbered;
    let rows = project_blocks(&blocks, &FindHits::new());
    // 2 and 3 are inside the fold: the visible list is 1 then 2, not 4
    let nums: Vec<i32> = rows.iter().filter(|r| r.kind == 5).map(|r| r.number).collect();
    assert_eq!(nums, vec![1, 2]);
}

#[test]
fn a_contents_row_lists_the_headings_the_page_can_show() {
    let blocks = vec![
        blk(1, None, 10, BlockKind::Toc, false, ""),
        blk(2, None, 11, BlockKind::Heading1, false, "Top"),
        blk(3, None, 12, BlockKind::Toggle, true, "Hidden section"),
        blk(4, Some(3), 13, BlockKind::Heading2, false, "Inside the fold"),
        blk(5, None, 14, BlockKind::Heading2, false, "Second"),
        blk(6, None, 15, BlockKind::Heading3, false, ""),
        blk(7, None, 16, BlockKind::Paragraph, false, "prose"),
    ];
    let rows = project_blocks(&blocks, &FindHits::new());
    let toc = rows.iter().find(|r| r.kind == BLOCK_TOC).expect("a toc row");
    // 4 is behind its folded parent: the list is built from the rows the
    // projection itself made. An untitled heading still gets a line.
    assert_eq!(
        toc_of(toc),
        vec![
            (2, "Top".into(), 1),
            (5, "Second".into(), 2),
            (6, "Untitled".into(), 3),
        ]
    );
    assert!(
        rows.iter().filter(|r| r.kind != BLOCK_TOC).all(|r| toc_of(r).is_empty()),
        "a paragraph carries a contents list"
    );
}

#[test]
fn renaming_a_heading_renames_its_line_because_nothing_was_copied() {
    let mut blocks = vec![
        blk(1, None, 10, BlockKind::Toc, false, ""),
        blk(2, None, 11, BlockKind::Heading2, false, "Before"),
    ];
    assert_eq!(toc_of(&project_blocks(&blocks, &FindHits::new())[0])[0].1, "Before");
    blocks[1].text = "After".into();
    assert_eq!(toc_of(&project_blocks(&blocks, &FindHits::new())[0])[0].1, "After");
    // the block's own row keeps whatever text it was made from; the list
    // never read it
    blocks[0].text = "stale".into();
    assert_eq!(toc_of(&project_blocks(&blocks, &FindHits::new())[0])[0].1, "After");
}

#[test]
fn every_row_index_consumer_shares_the_one_visible_list() {
    let blocks = grid_scene();
    // a cell has no row, so no row can carry the cell kind and no row index
    // can land inside a grid
    let rows = project_blocks(&blocks, &FindHits::new());
    assert!(rows.iter().all(|r| r.kind != BLOCK_TABLE_CELL));
    assert_eq!(visible_block_indices(&blocks), vec![0, 1, 8]);
}

#[test]
fn a_grid_costs_one_row() {
    let blocks = grid_scene();
    let rows = project_blocks(&blocks, &FindHits::new());
    let ids: Vec<i32> = rows.iter().map(|r| r.id).collect();
    assert_eq!(ids, vec![1, 8, 9]);
    let table = &rows[1];
    assert_eq!((table.kind, table.columns), (BLOCK_TABLE, 3));
    assert!(!table.can_fold, "a grid has no chevron: no fold reveals its cells");
    assert!(rows.last().unwrap().tail);
    assert!(!rows[0].tail);
}

#[test]
fn a_cell_rides_on_its_tables_row_and_a_folded_child_on_its_section() {
    let blocks = grid_scene();
    assert_eq!(row_id_of(&blocks, 5), 8);
    assert_eq!(row_id_of(&blocks, 9), 9);
    let blocks = fold_scene();
    assert_eq!(row_id_of(&blocks, 3), 1);
    assert_eq!(row_id_of(&blocks, 5), 5);
    assert!(hidden_by_ancestor(&blocks, &blocks[2]));
    assert!(!hidden_by_ancestor(&blocks, &blocks[4]));
}

#[test]
fn depth_counts_the_ancestors() {
    let blocks = fold_scene();
    assert_eq!(block_depth(&blocks, &blocks[0]), 0);
    assert_eq!(block_depth(&blocks, &blocks[1]), 1);
    assert_eq!(block_depth(&blocks, &blocks[2]), 2);
    let rows = {
        let mut b = fold_scene();
        b[0].folded = false;
        project_blocks(&b, &FindHits::new())
    };
    assert_eq!(rows.iter().map(|r| r.depth).collect::<Vec<_>>(), vec![0, 1, 2, 0, 1, 0]);
}

#[test]
fn a_row_carries_its_blocks_references() {
    let mut b = blk(7, None, 1, BlockKind::Page, false, "Linked");
    b.page_ref = Some(42);
    let mut img = blk(8, None, 2, BlockKind::Image, false, "");
    img.attachment = Some(3);
    img.img_percent = 50;
    let rows = project_blocks(&[b, img, blk(9, None, 3, BlockKind::Numbered, false, "n")], &FindHits::new());
    assert_eq!(rows[0].page_ref, 42);
    assert_eq!(rows[0].attachment, 0);
    assert_eq!(rows[1].page_ref, -1);
    assert_eq!(rows[1].attachment, 3);
    assert_eq!(rows[1].img_percent, 50);
    assert_eq!((rows[2].kind, rows[2].number), (BLOCK_NUMBERED, 1));
    assert_eq!(rows[0].number, 0);
}

#[test]
fn a_contents_list_reads_only_the_positions_it_is_given() {
    let blocks = vec![
        blk(1, None, 10, BlockKind::Heading1, false, "One"),
        blk(2, None, 11, BlockKind::Heading2, false, "Two"),
    ];
    let entries = toc_entries(&blocks, &[1]);
    assert_eq!(entries.len(), 1);
    assert_eq!((entries[0].block, entries[0].label.as_str(), entries[0].level), (2, "Two", 2));
}

#[test]
fn a_page_id_keeps_its_bits() {
    assert_eq!(core_page_id(102), PageId(102));
    assert_eq!(core_page_id(-1), PageId(0xFFFF_FFFF));
    assert_eq!(core_page_id(i32::MIN), PageId(0x8000_0000));
}

fn cell_texts(row: &BlockRow) -> Vec<String> {
    row.table_cells.iter().map(|c| c.text.clone()).collect()
}

#[test]
fn a_grid_costs_one_row_and_carries_its_cells() {
    let blocks = grid_scene();
    let rows = project_blocks(&blocks, &FindHits::new());
    let ids: Vec<i32> = rows.iter().map(|r| r.id).collect();
    assert_eq!(ids, vec![1, 8, 9]);
    let table = &rows[1];
    assert_eq!((table.kind, table.columns), (BLOCK_TABLE, 3));
    assert!(!table.can_fold, "a grid has no chevron: no fold reveals its cells");
    assert_eq!(cell_texts(table), ["A0", "A1", "A2", "B0", "B1", "B2"], "row-major");
    assert_eq!(table.table_cells[4].id, 6);
    // marks ride into the grid: the delegate reads runs like a line's
    let marked = &table.table_cells[1];
    assert_eq!(marked.runs.len(), 1);
    assert_eq!((marked.runs[0].text.as_str(), marked.runs[0].bold), ("A1", true));
    assert_eq!(table.table_cells[0].runs.len(), 0, "an unmarked cell keeps the wrapping Text");
    assert!(rows[0].table_cells.is_empty());
    assert!(rows.last().unwrap().tail);
}

#[test]
fn a_ragged_grid_projects_whole_rows() {
    let mut blocks = grid_scene();
    // stray cells must not become a half-row: the delegate chunks by
    // `columns` and indexes into the list
    blocks.retain(|b| b.id != 6 && b.id != 7);
    let rows = project_blocks(&blocks, &FindHits::new());
    assert_eq!(rows[1].table_cells.len(), 3, "four cells is one row of three");
    assert_eq!(cell_texts(&rows[1]), ["A0", "A1", "A2"]);
}

#[test]
fn the_projection_carries_hits_into_rows_cells_and_columns() {
    let mut blocks = grid_scene();
    let layout = blk(20, None, 400, BlockKind::Columns, false, "");
    let left = blk(21, Some(20), 410, BlockKind::Column, false, "");
    let para = blk(22, Some(21), 420, BlockKind::Paragraph, false, "needle in a column");
    for (id, text) in [(1u64, "needle before"), (4, "needle in a cell")] {
        if let Some(b) = blocks.iter_mut().find(|b| b.id == id) {
            b.text = text.into();
        }
    }
    blocks.extend([layout, left, para]);
    let mut hits: FindHits = FindHits::new();
    // "needle" opens all three texts, so the span is the same for each
    for id in [1u64, 4, 22] {
        hits.entry(id as i32).or_default().push((0, 6));
    }
    let rows = project_blocks(&blocks, &hits);
    let hit_cells = |runs: &[quire::app::state::runs::TextRun]| -> Vec<String> {
        runs.iter().filter(|r| r.hit).map(|r| r.text.clone()).collect()
    };
    assert_eq!(hit_cells(&rows[0].runs), vec!["needle".to_string()], "a paragraph's hit is a cell of its own");
    // the grid has no row for its cell, so the cell list carries it
    let grid = rows.iter().find(|r| r.id == 8).unwrap();
    let painted: Vec<String> = grid.table_cells.iter().flat_map(|c| hit_cells(&c.runs)).collect();
    assert_eq!(painted, vec!["needle".to_string()], "a hit in a cell never reached it");
    // and so does a columns box, whose blocks the delegate lays out itself
    let boxes = rows.iter().find(|r| r.id == 20).unwrap();
    let painted: Vec<String> = boxes.column_items.iter().flat_map(|i| hit_cells(&i.runs)).collect();
    assert_eq!(painted, vec!["needle".to_string()], "a hit in a column never reached it");
    // a search that never started leaves a markless line on the single-Text
    // path (cell A1 is the one marked block here)
    let clean = project_blocks(&blocks, &FindHits::new());
    assert_eq!(clean[0].runs.len(), 0, "a closed bar still splits");
    let clean_grid = clean.iter().find(|r| r.id == 8).unwrap();
    assert_eq!(clean_grid.table_cells.len(), grid.table_cells.len());
    assert_eq!(hit_cells(&clean_grid.table_cells[1].runs), Vec::<String>::new(), "a mark is not a hit");
}
