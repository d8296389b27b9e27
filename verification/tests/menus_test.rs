use quire::app::state::fixtures::{
    block, mock_blocks_bench, mock_blocks_bench_page, mock_blocks_chinese, mock_blocks_for_page,
    mock_blocks_generic, mock_blocks_sample, number_renumber, with_tail, PAGE_CHINESE,
    PAGE_GETTING_STARTED, PAGE_SCRATCHPAD,
};
use quire::app::state::kinds::{BLOCK_H2, BLOCK_NUMBERED, BLOCK_PARAGRAPH, BLOCK_TABLE, BLOCK_TOC};
use quire::app::state::menus::{header, insert_items, leaf_row, row, slash_items};

#[test]
fn the_slash_menu_filters_by_label_ignoring_case() {
    let all = slash_items("");
    assert_eq!(all.len(), 13);
    assert_eq!(all[0].label, "Text");
    let found = slash_items("TAB");
    let tables: Vec<(i32, &str)> = found.iter().map(|r| (r.id, r.label.as_str())).collect();
    assert_eq!(tables, vec![(BLOCK_TABLE, "Table"), (BLOCK_TOC, "Table of contents"), (23, "Table view")]);
    assert!(slash_items("zzz").is_empty());
    assert!(all.iter().all(|r| !r.disabled));
}

#[test]
fn the_insert_menu_shows_the_placeholders_disabled() {
    let all = insert_items("");
    assert_eq!(all.len(), 28);
    assert_eq!(all.iter().filter(|r| r.disabled).count(), 6);
    let boards = insert_items("board");
    assert_eq!(boards.len(), 2);
    assert!(boards.iter().all(|r| r.disabled && r.id == -1));
    let headings: Vec<i32> = insert_items("heading").iter().map(|r| r.id).collect();
    assert_eq!(headings, vec![1, 2, 3]);
}

#[test]
fn the_row_builders_fill_their_fields() {
    let r = row(7, "Delete", "trash", true, -1, false);
    assert_eq!((r.id, r.label.as_str(), r.icon.as_str(), r.danger, r.swatch, r.swatch_bg, r.check), (7, "Delete", "trash", true, -1, false, false));
    let h = header("Favorites");
    assert_eq!((h.id, h.label.as_str(), h.kind.as_str(), h.depth), (-1, "Favorites", "header", 0));
    let l = leaf_row(102, "Getting started", "favorite", true, "★");
    assert_eq!((l.id, l.kind.as_str(), l.selected, l.icon.as_str()), (102, "favorite", true, "★"));
}

#[test]
fn the_sample_page_numbers_its_list_and_marks_its_tail() {
    let rows = mock_blocks_sample();
    assert_eq!(rows.len(), 24);
    let nums: Vec<i32> = rows.iter().filter(|r| r.kind == BLOCK_NUMBERED).map(|r| r.number).collect();
    assert_eq!(nums, vec![1, 2, 3]);
    assert!(rows.iter().enumerate().all(|(i, r)| r.id == i as i32));
    assert!(rows.last().unwrap().tail);
    assert_eq!(rows.iter().filter(|r| r.tail).count(), 1);
    assert_eq!(rows[2].text, "Why a local-first editor");
}

#[test]
fn each_page_gets_its_own_body() {
    assert_eq!(mock_blocks_for_page(PAGE_GETTING_STARTED, "x").len(), 24);
    assert_eq!(mock_blocks_for_page(PAGE_CHINESE, "x").len(), mock_blocks_chinese().len());
    assert!(mock_blocks_for_page(PAGE_SCRATCHPAD, "x").is_empty());
    assert_eq!(mock_blocks_for_page(5, "Other").len(), mock_blocks_generic("Other").len());
    let bench = mock_blocks_bench_page("Bench 3");
    assert_eq!((bench[1].kind, bench[1].text.as_str()), (BLOCK_H2, "Bench 3"));
}

#[test]
fn the_bench_page_cycles_its_kinds_and_lines() {
    let rows = mock_blocks_bench(41);
    assert_eq!(rows.len(), 41);
    assert_eq!(rows[0].kind, BLOCK_H2);
    assert_eq!(rows[5].kind, 4);
    assert_eq!(rows[9].kind, 6);
    assert_eq!(rows[13].kind, 7);
    assert_eq!(rows[20].kind, BLOCK_H2);
    assert_eq!(rows[1].kind, BLOCK_PARAGRAPH);
    assert_eq!(rows[6].text, "中文基准段落：用于长文档下的内存与滚动性能测试。");
    assert!(rows[40].tail && !rows[39].tail);
    assert!(mock_blocks_bench(0).is_empty());
}

#[test]
fn renumbering_counts_only_the_numbered_rows() {
    let mut rows = vec![
        block(BLOCK_NUMBERED, "a"),
        block(BLOCK_PARAGRAPH, "b"),
        block(BLOCK_NUMBERED, "c"),
    ];
    number_renumber(&mut rows);
    assert_eq!(rows.iter().map(|r| r.number).collect::<Vec<_>>(), vec![1, 0, 2]);
    let tailed = with_tail(rows);
    assert!(tailed[2].tail && !tailed[0].tail);
    assert!(with_tail(Vec::new()).is_empty());
}
