use quire::app::state::menu_rows::{
    block_kind, block_link, block_page_ref, delete_dialog_text, fill_block_menu,
    fill_block_menu_colors, fill_block_menu_image_width, fill_block_menu_turn_into, fill_menu,
    COLOR_BG_BASE, COLOR_TEXT_BASE, IMAGE_WIDTH_BASE, MENU_DELETE, MENU_FAVORITE, MENU_PAGE_ICON,
    MENU_PAGE_STYLE,
};
use quire::app::state::menus::MenuRow;
use quire::app::state::projection::Block;
use quire::app::state::BlockKind;

fn mblk(id: u64, kind: BlockKind) -> Block {
    Block {
        id,
        parent: None,
        order: id,
        kind,
        text: String::new(),
        checked: false,
        marks: Vec::new(),
        color: 0,
        background: 0,
        folded: false,
        page_ref: None,
        attachment: None,
        img_percent: 100,
        columns: 0,
    }
}

fn ids(rows: &[MenuRow]) -> Vec<i32> {
    rows.iter().map(|r| r.id).collect()
}

fn labels(rows: &[MenuRow]) -> Vec<String> {
    rows.iter().map(|r| r.label.clone()).collect()
}

#[test]
fn page_menu_puts_the_look_above_delete() {
    let rows = fill_menu(false);
    assert_eq!(ids(&rows), vec![1, 2, 3, 6, 7, 8, MENU_FAVORITE, MENU_PAGE_ICON, MENU_PAGE_STYLE, MENU_DELETE]);
    assert_eq!(rows[6].label, "Add to favorites");
    assert_eq!(rows[7].label, "Set icon");
    assert_eq!(rows[8].label, "Style");
    assert!(rows[9].danger);
    assert!(rows[..9].iter().all(|r| !r.danger && r.swatch == -1 && !r.check));
}

#[test]
fn page_menu_of_a_favorite_offers_to_remove_it() {
    let rows = fill_menu(true);
    assert_eq!(rows[6].label, "Remove from favorites");
    assert_eq!(rows[6].icon, "star");
}

#[test]
fn block_menu_of_a_paragraph_without_clipboard() {
    let blocks = vec![mblk(1, BlockKind::Paragraph)];
    let rows = fill_block_menu(&blocks, 1, false);
    assert_eq!(ids(&rows), vec![7, 3, 9, 10, 11, 12, 1, 2, 4, 6]);
    assert!(rows[9].danger);
    assert_eq!(rows[9].label, "Delete");
}

#[test]
fn block_menu_of_a_picture_and_of_code_with_clipboard() {
    let blocks = vec![mblk(1, BlockKind::Image), mblk(2, BlockKind::Code)];
    let pic = fill_block_menu(&blocks, 1, true);
    assert_eq!(ids(&pic), vec![7, 13, 3, 9, 10, 11, 12, 1, 2, 4, 5, 6]);
    assert_eq!(pic[1].label, "Image width");
    let code = fill_block_menu(&blocks, 2, false);
    assert_eq!(ids(&code), vec![7, 14, 3, 9, 10, 11, 12, 1, 2, 4, 6]);
    assert_eq!(code[1].label, "Language");
    // a block that is not on the page gets the plain menu
    assert_eq!(ids(&fill_block_menu(&blocks, 9, false)), vec![7, 3, 9, 10, 11, 12, 1, 2, 4, 6]);
}

#[test]
fn image_width_checks_the_stored_stop() {
    let mut pic = mblk(4, BlockKind::Image);
    pic.img_percent = 50;
    let rows = fill_block_menu_image_width(&[pic], 4);
    assert_eq!(labels(&rows), vec!["Back", "25%", "50%", "100%"]);
    assert_eq!(ids(&rows), vec![8, IMAGE_WIDTH_BASE + 25, IMAGE_WIDTH_BASE + 50, IMAGE_WIDTH_BASE + 100]);
    assert_eq!(rows.iter().map(|r| r.check).collect::<Vec<_>>(), vec![false, false, true, false]);
    let none = fill_block_menu_image_width(&[], 4);
    assert!(none.iter().all(|r| !r.check));
}

#[test]
fn colour_menu_lists_the_palette_and_checks_the_slot() {
    let mut b = mblk(3, BlockKind::Paragraph);
    b.color = 4;
    b.background = 9;
    let text = fill_block_menu_colors(&[b.clone()], 3, false);
    assert_eq!(text.len(), 11);
    assert_eq!(text[1].label, "Default");
    assert_eq!(text[10].label, "Red");
    assert_eq!(text[5].id, COLOR_TEXT_BASE + 4);
    assert_eq!(text[5].label, "Yellow");
    assert_eq!(text[5].swatch, 4);
    assert!(!text[5].swatch_bg);
    assert_eq!(text.iter().filter(|r| r.check).count(), 1);
    assert!(text[5].check);
    let bg = fill_block_menu_colors(&[b], 3, true);
    assert_eq!(bg[10].id, COLOR_BG_BASE + 9);
    assert!(bg[10].check && bg[10].swatch_bg);
}

#[test]
fn turn_into_leaves_out_the_blocks_own_kind() {
    let blocks = vec![mblk(1, BlockKind::Code)];
    let rows = fill_block_menu_turn_into(&blocks, 1);
    assert_eq!(rows.len(), 13);
    assert_eq!(rows[0].label, "Back");
    assert!(rows.iter().all(|r| r.id != 100 + 8));
    assert_eq!((rows[1].id, rows[1].label.as_str(), rows[1].icon.as_str()), (100, "Text", "pencil"));
    assert_eq!((rows[2].id, rows[2].icon.as_str()), (113, "chevron-right"));
    assert_eq!(rows[12].label, "Divider");
    assert_eq!(rows[12].icon, "minimize");
    // a block not on the page keeps every target
    assert_eq!(fill_block_menu_turn_into(&blocks, 5).len(), 14);
}

#[test]
fn links_point_at_the_target_page_or_the_block() {
    let mut page = mblk(7, BlockKind::Page);
    page.page_ref = Some(105);
    let mut dangling = mblk(8, BlockKind::Link);
    dangling.page_ref = None;
    let blocks = vec![page, dangling, mblk(9, BlockKind::Paragraph)];
    assert_eq!(block_link(&blocks, 7), "quire://page/105");
    assert_eq!(block_link(&blocks, 8), "quire://block/8");
    assert_eq!(block_link(&blocks, 9), "quire://block/9");
    assert_eq!(block_link(&blocks, -3), "quire://block/-3");
    assert_eq!(block_page_ref(&blocks, 7), Some(105));
    assert_eq!(block_kind(&blocks, 9), Some(BlockKind::Paragraph));
    assert_eq!(block_kind(&blocks, 10), None);
}

#[test]
fn delete_dialog_counts_the_sub_pages() {
    let (title, message) = delete_dialog_text(Some("Atlas"), 4);
    assert_eq!(title, "Atlas");
    assert_eq!(message, "“Atlas” and its 3 sub-pages will be deleted. This cannot be undone.");
    let (_, single) = delete_dialog_text(Some("Notes"), 1);
    assert_eq!(single, "“Notes” will be deleted. This cannot be undone.");
    let (none, msg) = delete_dialog_text(None, 12);
    assert_eq!(none, "");
    assert_eq!(msg, "“” and its 11 sub-pages will be deleted. This cannot be undone.");
}
