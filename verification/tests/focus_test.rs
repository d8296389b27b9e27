use quire::app::state::focus::{
    column_step, drop_index_for_row, page_neighbor, grid_of_cell, is_column_item, is_table_cell,
    page_drop_target, sidebar_row_y, slash_next_focus, slash_selected_kind, table_add_column,
    table_add_row, table_cell_at, table_cell_index, table_cell_place, table_delete_column,
    table_delete_row, table_step, TableStep, WORKSPACE_HEADER_ID,
};
use quire::app::state::menus::{header, leaf_row, SidebarNode, SlashRow};
use quire::app::state::projection::Block;
use quire::app::state::BlockKind;

fn fblk(id: u64, parent: Option<u64>, order: u64, kind: BlockKind) -> Block {
    Block {
        id,
        parent,
        order,
        kind,
        text: String::new(),
        checked: false,
        marks: Vec::new(),
        color: 0,
        background: 0,
        folded: false,
        page_ref: None,
        attachment: None,
        img_percent: 100,
        columns: 0,
    }
}

fn srow(id: i32) -> SlashRow {
    SlashRow { id, label: String::new(), hint: String::new(), disabled: id < 0 }
}

#[test]
fn arrow_keys_skip_placeholders_and_stay_in_the_menu() {
    let rows = vec![srow(0), srow(-1), srow(-1), srow(5), srow(-1)];
    assert_eq!(slash_next_focus(&rows, 0, 1), 3);
    assert_eq!(slash_next_focus(&rows, 3, -1), 0);
    // past the end: clamped onto the last row, a placeholder with nothing after
    assert_eq!(slash_next_focus(&rows, 3, 1), 4);
    assert_eq!(slash_next_focus(&rows, 0, -1), 0);
    assert_eq!(slash_next_focus(&rows, 2, 0), 2);
    assert_eq!(slash_next_focus(&[], 4, 1), 0);
}

#[test]
fn the_focused_row_gives_its_kind() {
    let rows = vec![srow(8), srow(-1)];
    assert_eq!(slash_selected_kind(&rows, 0), Some(BlockKind::Code));
    assert_eq!(slash_selected_kind(&rows, -3), Some(BlockKind::Code));
    assert_eq!(slash_selected_kind(&rows, 1), None);
    assert_eq!(slash_selected_kind(&rows, 2), None);
}

fn page_node(id: i32, y: i32) -> SidebarNode {
    let mut n = leaf_row(id, "p", "page", false, "");
    n.y = y;
    n
}

#[test]
fn sidebar_rows_give_place_and_drop_target() {
    let mut ws = header("Workspace");
    ws.id = WORKSPACE_HEADER_ID;
    let rows = vec![header("Favorites"), page_node(105, 40), ws, page_node(102, 96), page_node(105, 120)];
    assert_eq!(sidebar_row_y(&rows, 105), 40);
    assert_eq!(sidebar_row_y(&rows, 102), 96);
    assert_eq!(sidebar_row_y(&rows, 7), 0);
    assert_eq!(page_drop_target(&rows, 1), Some(Some(105)));
    assert_eq!(page_drop_target(&rows, 2), Some(None));
    assert_eq!(page_drop_target(&rows, 0), None);
    assert_eq!(page_drop_target(&rows, -4), None);
    assert_eq!(page_drop_target(&rows, 9), None);
}

#[test]
fn a_drag_lands_past_folded_rows() {
    let mut fold = fblk(1, None, 1, BlockKind::Toggle);
    fold.folded = true;
    let blocks = vec![
        fold,
        fblk(2, Some(1), 2, BlockKind::Paragraph),
        fblk(3, Some(1), 3, BlockKind::Paragraph),
        fblk(4, None, 4, BlockKind::Paragraph),
    ];
    assert_eq!(drop_index_for_row(&blocks, 0, false), Some(0));
    assert_eq!(drop_index_for_row(&blocks, 1, false), Some(3));
    assert_eq!(drop_index_for_row(&blocks, 1, true), Some(4));
    assert_eq!(drop_index_for_row(&blocks, 2, false), None);
    assert_eq!(drop_index_for_row(&blocks, -1, false), None);
}

/// A 2x2 table (cells 11..14) and a paragraph.
fn grid_page() -> Vec<Block> {
    let mut table = fblk(10, None, 1, BlockKind::Table);
    table.columns = 2;
    vec![
        table,
        fblk(11, Some(10), 2, BlockKind::TableCell),
        fblk(12, Some(10), 3, BlockKind::TableCell),
        fblk(13, Some(10), 4, BlockKind::TableCell),
        fblk(14, Some(10), 5, BlockKind::TableCell),
        fblk(20, None, 6, BlockKind::Paragraph),
    ]
}

#[test]
fn tab_walks_a_grid_and_grows_it_at_the_end() {
    let blocks = grid_page();
    let (grid, at) = grid_of_cell(&blocks, 13).unwrap();
    assert_eq!((grid.table, grid.cells.clone(), grid.cols, at), (10, vec![11, 12, 13, 14], 2, 2));
    assert_eq!(table_cell_place(&blocks, 14), Some((10, 1, 1)));
    assert_eq!(table_cell_index(&blocks, 12), Some(1));
    assert_eq!(table_step(&blocks, 11, 1), TableStep::Focus(12));
    assert_eq!(table_step(&blocks, 13, -2), TableStep::Focus(11));
    assert_eq!(table_step(&blocks, 11, -1), TableStep::Stay);
    assert_eq!(table_step(&blocks, 14, 1), TableStep::AddRow { table: 10, row: 2 });
    assert_eq!(table_step(&blocks, 20, 1), TableStep::Stay);
    assert!(is_table_cell(&blocks, 12));
    assert!(!is_table_cell(&blocks, 20));
}

#[test]
fn toolbar_acts_at_the_focused_cell_or_the_last_one() {
    let blocks = grid_page();
    assert_eq!(table_add_row(&blocks, 10, 11), Some(1));
    assert_eq!(table_add_row(&blocks, 10, 20), Some(2));
    assert_eq!(table_add_column(&blocks, 10, 13), Some(1));
    assert_eq!(table_add_column(&blocks, 10, 14), Some(2));
    assert_eq!(table_delete_row(&blocks, 10, 13), Some(1));
    assert_eq!(table_delete_column(&blocks, 10, 12), Some(1));
    assert_eq!(table_delete_row(&blocks, 20, 13), None);
    assert_eq!(table_cell_at(&blocks, 10, 1), Some(12));
    assert_eq!(table_cell_at(&blocks, 10, 40), Some(14));
    assert_eq!(table_cell_at(&blocks, 20, 0), None);
}

#[test]
fn tab_walks_a_layout_and_stops_at_its_ends() {
    let mut layout = fblk(1, None, 1, BlockKind::Columns);
    layout.columns = 2;
    let blocks = vec![
        layout,
        fblk(2, Some(1), 2, BlockKind::Column),
        fblk(3, Some(2), 3, BlockKind::Paragraph),
        fblk(4, Some(2), 4, BlockKind::Paragraph),
        fblk(5, Some(1), 5, BlockKind::Column),
        fblk(6, Some(5), 6, BlockKind::Paragraph),
        fblk(7, None, 7, BlockKind::Paragraph),
    ];
    assert_eq!(column_step(&blocks, 3, 1), Some(4));
    assert_eq!(column_step(&blocks, 4, 1), Some(6));
    assert_eq!(column_step(&blocks, 6, 1), None);
    assert_eq!(column_step(&blocks, 3, -1), None);
    assert_eq!(column_step(&blocks, 6, -2), Some(3));
    assert!(is_column_item(&blocks, 6));
    assert!(!is_column_item(&blocks, 7));
}

#[test]
fn moving_a_page_swaps_it_with_the_sibling_beside_it() {
    let kids = [101, 105, 112];
    assert_eq!(page_neighbor(&kids, 105, -1), Some(101));
    assert_eq!(page_neighbor(&kids, 105, 1), Some(112));
    assert_eq!(page_neighbor(&kids, 101, -1), None);
    assert_eq!(page_neighbor(&kids, 112, 1), None);
    assert_eq!(page_neighbor(&kids, 7, 1), None);
}

#[test]
fn tab_then_shift_tab_comes_back_to_the_cell() {
    let blocks = grid_page();
    for cell in [11, 12, 13] {
        let TableStep::Focus(next) = table_step(&blocks, cell, 1) else {
            panic!("a cell before the last one tabs to another cell");
        };
        assert_eq!(table_step(&blocks, next, -1), TableStep::Focus(cell));
    }
}

#[test]
fn a_circle_of_parent_links_is_in_no_layout() {
    let blocks = vec![
        fblk(1, Some(2), 1, BlockKind::Paragraph),
        fblk(2, Some(1), 2, BlockKind::Paragraph),
    ];
    assert_eq!(column_step(&blocks, 1, 1), None);
    assert!(!is_column_item(&blocks, 2));
}
