use quire::app::state::layout::{
    child_indices, column_projection, grid_blocks, layout_slots, table_cells, LiveGrid, LiveLayout,
};
use quire::app::state::projection::{project_blocks, Block, FindHits};
use quire::app::state::BlockKind;

fn lblk(id: u64, parent: Option<u64>, order: u64, kind: BlockKind, text: &str) -> Block {
    Block {
        id,
        parent,
        order,
        kind,
        text: text.to_string(),
        checked: false,
        marks: Vec::new(),
        color: 0,
        background: 0,
        folded: false,
        page_ref: None,
        attachment: None,
        img_percent: 100,
        columns: 0,
    }
}

/// A two-box layout: box A holds a numbered pair and a toggle with a child,
/// box B holds a numbered item; a paragraph follows the layout.
fn layout_scene() -> Vec<Block> {
    let mut layout = lblk(1, None, 10, BlockKind::Columns, "");
    layout.columns = 2;
    let mut b = vec![
        layout,
        lblk(2, Some(1), 11, BlockKind::Column, ""),
        lblk(3, Some(2), 12, BlockKind::Numbered, "a1"),
        lblk(4, Some(2), 13, BlockKind::Numbered, "a2"),
        lblk(5, Some(2), 14, BlockKind::Toggle, "t"),
        lblk(6, Some(5), 15, BlockKind::Paragraph, "inside"),
        lblk(7, Some(1), 16, BlockKind::Column, ""),
        lblk(8, Some(7), 17, BlockKind::Numbered, "b1"),
        lblk(9, None, 18, BlockKind::Paragraph, "after"),
    ];
    b[2].color = 3;
    b[3].background = 2;
    b[7].attachment = Some(5);
    b
}

#[test]
fn children_come_in_order_key_order() {
    let blocks = vec![
        lblk(1, None, 10, BlockKind::Toggle, ""),
        lblk(2, Some(1), 30, BlockKind::Paragraph, "c"),
        lblk(3, Some(1), 20, BlockKind::Paragraph, "b"),
        lblk(4, None, 5, BlockKind::Paragraph, ""),
        lblk(5, Some(1), 20, BlockKind::Paragraph, "b'"),
    ];
    // equal keys keep their page order
    assert_eq!(child_indices(&blocks, 1), vec![2, 4, 1]);
    assert_eq!(child_indices(&blocks, 4), Vec::<usize>::new());
}

#[test]
fn a_layout_reads_box_by_box() {
    let blocks = layout_scene();
    let slots = layout_slots(&blocks, &blocks[0]);
    let seen: Vec<(usize, i32, i32, bool)> =
        slots.iter().map(|s| (s.index, s.column, s.depth, s.can_fold)).collect();
    assert_eq!(
        seen,
        vec![(2, 0, 0, false), (3, 0, 0, false), (4, 0, 0, true), (5, 0, 1, false), (7, 1, 0, false)]
    );
}

#[test]
fn a_folded_block_in_a_box_keeps_its_slot_and_hides_its_subtree() {
    let mut blocks = layout_scene();
    blocks[4].folded = true;
    let slots = layout_slots(&blocks, &blocks[0]);
    let seen: Vec<usize> = slots.iter().map(|s| s.index).collect();
    assert_eq!(seen, vec![2, 3, 4, 7]);
    assert!(slots[2].can_fold);
}

#[test]
fn numbering_restarts_per_box_and_the_boxes_say_where_they_start() {
    let blocks = layout_scene();
    let (items, boxes) = column_projection(&blocks, &blocks[0], &FindHits::new());
    let nums: Vec<(i32, i32)> = items.iter().map(|i| (i.id, i.number)).collect();
    assert_eq!(nums, vec![(3, 1), (4, 2), (5, 0), (6, 0), (8, 1)]);
    let bx: Vec<(i32, i32, i32, i32)> = boxes.iter().map(|b| (b.id, b.column, b.first, b.size)).collect();
    assert_eq!(bx, vec![(2, 0, 0, 4), (7, 1, 4, 1)]);
    assert_eq!(items[0].color, 3);
    assert_eq!(items[1].bg, 2);
    assert_eq!(items[4].attachment, 5);
    assert_eq!(items[3].depth, 1);
    assert_eq!(items[0].text, "a1");
}

#[test]
fn a_layout_costs_one_row_and_carries_its_content() {
    let blocks = layout_scene();
    let rows = project_blocks(&blocks, &FindHits::new());
    let ids: Vec<i32> = rows.iter().map(|r| r.id).collect();
    assert_eq!(ids, vec![1, 9]);
    assert_eq!(rows[0].column_items.len(), 5);
    assert_eq!(rows[0].column_boxes.len(), 2);
    assert!(!rows[0].can_fold);
    assert!(rows[1].column_items.is_empty());
}

#[test]
fn content_hanging_off_the_layout_reads_as_the_next_box() {
    let mut blocks = layout_scene();
    // a paragraph directly under the layout, between the boxes
    blocks.push(lblk(10, Some(1), 16, BlockKind::Paragraph, "loose"));
    // order 16 ties with box 7; the page order puts it after
    let (items, boxes) = column_projection(&blocks, &blocks[0], &FindHits::new());
    let cols: Vec<(i32, i32)> = items.iter().map(|i| (i.id, i.column)).collect();
    assert_eq!(cols, vec![(3, 0), (4, 0), (5, 0), (6, 0), (8, 1), (10, 2)]);
    assert_eq!(boxes.len(), 2);
}

#[test]
fn the_live_grid_and_layout_name_their_cells_and_items() {
    let mut blocks = layout_scene();
    let mut table = lblk(20, None, 30, BlockKind::Table, "");
    table.columns = 2;
    blocks.push(table);
    for (i, t) in ["x", "y", "z"].iter().enumerate() {
        blocks.push(lblk(21 + i as u64, Some(20), 31 + i as u64, BlockKind::TableCell, t));
    }
    let grid = LiveGrid::of(&blocks, 20).expect("a grid");
    assert_eq!(grid.table, 20);
    assert_eq!(grid.cells, vec![21, 22]);
    assert_eq!(grid.cols, 2);
    assert_eq!(grid.rows(), 1);
    assert!(LiveGrid::of(&blocks, 1).is_none(), "a layout is not a grid");
    assert!(LiveGrid::of(&blocks, 99).is_none());
    let cells = grid_blocks(&blocks, &blocks[9]);
    assert_eq!(cells.iter().map(|c| c.id).collect::<Vec<_>>(), vec![21, 22]);
    let tc = table_cells(&blocks, &blocks[9], &FindHits::new());
    assert_eq!(tc.iter().map(|c| c.text.as_str()).collect::<Vec<_>>(), vec!["x", "y"]);

    let layout = LiveLayout::of(&blocks, 1).expect("a layout");
    assert_eq!(layout.layout, 1);
    assert_eq!(layout.items, vec![3, 4, 5, 6, 8]);
    assert!(LiveLayout::of(&blocks, 20).is_none());
    blocks[0].columns = 0;
    assert!(LiveLayout::of(&blocks, 1).is_none(), "a layout with no boxes has no shape");
}
