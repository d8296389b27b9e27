use quire::app::controller::{bench_switch_next, search_target};
use quire::app::state::db::{set_db_notice, take_db_notice};
use quire::app::state::duplicate::{copy_page_blocks, paste_plan, PastePlan};
use quire::app::state::fixtures::PAGE_GETTING_STARTED;
use quire::app::state::menus::{open_slash_pick, slash_selected_page, SlashRow};
use quire::app::state::palette::{mock_commands, set_query};
use quire::app::state::projection::{project_blocks, Block, FindHits};
use quire::app::state::stats::page_stats;
use quire::app::state::BlockKind;
use quire::app::state::reclaim::{
    reclaim_flush_failed, reclaim_in_memory, reclaim_notice, unused_attachments,
};
use quire::app::state::session::{current_from_meta, opening_page, recents_from_meta};
use quire::text::{push_decimal, push_signed, split_commas, word_count};

fn tblk(kind: BlockKind, text: &str) -> Block {
    Block {
        id: 1,
        parent: None,
        order: 1,
        kind,
        text: text.to_string(),
        checked: false,
        marks: Vec::new(),
        color: 0,
        background: 0,
        folded: false,
        page_ref: None,
        attachment: None,
        img_percent: 100,
        columns: 0,
    }
}

#[test]
fn the_palette_filters_by_fuzzy_name() {
    let all = mock_commands(&[(101, "Atlas".to_string())], 1_000_000);
    assert_eq!(set_query(&all, "").len(), all.len());
    let dark: Vec<String> = set_query(&all, "tdm").into_iter().map(|c| c.name).collect();
    assert_eq!(dark, vec!["Toggle Dark Mode".to_string()]);
    let go: Vec<i32> = set_query(&all, "GO").into_iter().map(|c| c.id).collect();
    assert_eq!(go, vec![4, 9, 11, 12, 13]);
    let back: Vec<i32> = set_query(&all, "Go B").into_iter().map(|c| c.id).collect();
    assert_eq!(back, vec![12]);
    assert!(set_query(&all, "zzz").is_empty());
}

#[test]
fn page_stats_count_words_and_chars_of_prose() {
    let blocks = vec![
        tblk(BlockKind::Paragraph, "  hello  wide world "),
        tblk(BlockKind::Image, "photo of a cat.png"),
        tblk(BlockKind::File, "report.pdf"),
        tblk(BlockKind::Heading1, "你好 世界"),
        tblk(BlockKind::Paragraph, ""),
    ];
    assert_eq!(page_stats(&blocks), (5, 25));
    assert_eq!(page_stats(&[]), (0, 0));
    assert_eq!(word_count("a\tb\nc"), 3);
    assert_eq!(word_count("   "), 0);
}

#[test]
fn numbers_are_written_in_decimal() {
    let mut s = String::from("n=");
    push_decimal(&mut s, 0);
    push_decimal(&mut s, 1907);
    assert_eq!(s, "n=01907");
    let mut t = String::new();
    push_signed(&mut t, -2147483648);
    assert_eq!(t, "-2147483648");
    let mut u = String::new();
    push_signed(&mut u, 42);
    assert_eq!(u, "42");
}

#[test]
fn the_search_panel_opens_the_picked_or_focused_row() {
    let rows = [105, 112];
    assert_eq!(search_target(102, 1, &rows), 102);
    assert_eq!(search_target(-1, 1, &rows), 112);
    assert_eq!(search_target(-1, 5, &rows), PAGE_GETTING_STARTED);
    assert_eq!(search_target(-1, -1, &rows), PAGE_GETTING_STARTED);
}

#[test]
fn the_bench_switch_cycles_through_its_pages() {
    let ids = [7, 8, 9];
    let mut cursor = 0usize;
    let seen: Vec<Option<i32>> = (0..4).map(|_| bench_switch_next(&ids, &mut cursor)).collect();
    assert_eq!(seen, vec![Some(7), Some(8), Some(9), Some(7)]);
    assert_eq!(cursor, 1);
    let mut c = 5usize;
    assert_eq!(bench_switch_next(&[], &mut c), None);
    assert_eq!(c, 5);
}

#[test]
fn the_page_picker_filters_titles_and_answers_the_focused_page() {
    let pages = vec![
        (101, "Atlas".to_string(), "Atlas".to_string()),
        (105, "Weekly Review".to_string(), "Atlas / Weekly Review".to_string()),
        (112, "中文笔记".to_string(), "中文笔记".to_string()),
    ];
    let all = open_slash_pick(&pages, "");
    assert_eq!(all.iter().map(|r| r.id).collect::<Vec<_>>(), vec![101, 105, 112]);
    let w = open_slash_pick(&pages, "REV");
    assert_eq!(w.len(), 1);
    assert_eq!((w[0].id, w[0].hint.as_str(), w[0].disabled), (105, "Atlas / Weekly Review", false));
    assert_eq!(slash_selected_page(&all, 2), Some(112));
    assert_eq!(slash_selected_page(&all, -1), Some(101));
    assert_eq!(slash_selected_page(&all, 3), None);
    let off = vec![SlashRow { id: 4, label: String::new(), hint: String::new(), disabled: true }];
    assert_eq!(slash_selected_page(&off, 0), None);
}

#[test]
fn startup_notices_become_one_sentence() {
    let mut queue: Vec<String> = Vec::new();
    assert_eq!(take_db_notice(&mut queue), None);
    set_db_notice(&mut queue, "Restored from backup".to_string());
    assert_eq!(take_db_notice(&mut queue).as_deref(), Some("Restored from backup."));
    assert!(queue.is_empty());
    set_db_notice(&mut queue, "a".to_string());
    set_db_notice(&mut queue, "b".to_string());
    assert_eq!(take_db_notice(&mut queue).as_deref(), Some("a; b."));
    assert_eq!(take_db_notice(&mut queue), None, "the queue was drained");
    let mut two = vec!["Last session ended early".to_string(), "library moved.".to_string()];
    assert_eq!(
        take_db_notice(&mut two).as_deref(),
        Some("Last session ended early; library moved.")
    );
}

#[test]
fn a_restart_restores_recents_and_the_open_page() {
    assert_eq!(recents_from_meta(Some("105,112,x,,-3,+7")), vec![105, 112, -3, 7]);
    assert_eq!(recents_from_meta(Some("")), Vec::<i32>::new());
    assert_eq!(recents_from_meta(None), Vec::<i32>::new());
    assert_eq!(recents_from_meta(Some("99999999999,4")), vec![4]);
    assert_eq!(split_commas("a,,b,"), vec!["a", "", "b", ""]);
    assert_eq!(current_from_meta(Some("112")), Some(112));
    assert_eq!(current_from_meta(Some("12a")), None);
    assert_eq!(current_from_meta(None), None);
    assert_eq!(opening_page(0, Some(112), true), 112);
    assert_eq!(opening_page(0, Some(112), false), 102);
    assert_eq!(opening_page(0, None, true), 102);
    assert_eq!(opening_page(500, Some(112), true), 105);
}

#[test]
fn reclaim_keeps_whatever_a_block_an_undo_step_or_the_clipboard_holds() {
    let mut pic = tblk(BlockKind::Image, "cat.png");
    pic.attachment = Some(2);
    let blocks = vec![pic, tblk(BlockKind::Paragraph, "text")];
    let book = [1, 2, 3, 4, 5];
    assert_eq!(unused_attachments(&book, &blocks, &[4], Some(5)), vec![1, 3]);
    assert_eq!(unused_attachments(&book, &[], &[], None), vec![1, 2, 3, 4, 5]);
    assert_eq!(unused_attachments(&[], &blocks, &[], None), Vec::<i64>::new());
}

#[test]
fn a_duplicate_page_copies_blocks_under_fresh_ids() {
    let mut root = tblk(BlockKind::Toggle, "root");
    root.id = 5;
    let mut child = tblk(BlockKind::Paragraph, "child");
    child.id = 6;
    child.parent = Some(5);
    child.color = 3;
    let mut stray = tblk(BlockKind::Paragraph, "stray");
    stray.id = 7;
    stray.parent = Some(99);
    let copies = copy_page_blocks(&[root, child, stray], 1000);
    let shape: Vec<(u64, Option<u64>, String)> =
        copies.iter().map(|b| (b.id, b.parent, b.text.clone())).collect();
    assert_eq!(
        shape,
        vec![
            (1000, None, "root".to_string()),
            (1001, Some(1000), "child".to_string()),
            (1002, None, "stray".to_string()),
        ]
    );
    assert_eq!(copies[1].color, 3);
}

#[test]
fn pasting_a_block_shares_what_it_may_and_copies_the_rest() {
    let mut page = tblk(BlockKind::Page, "Child page");
    page.page_ref = Some(120);
    assert!(matches!(paste_plan(&page, &[]),
        PastePlan::Insert { kind: BlockKind::Paragraph, ref text } if text == "Child page"));
    let mut link = tblk(BlockKind::Link, "Atlas");
    link.page_ref = Some(105);
    assert!(matches!(paste_plan(&link, &[]),
        PastePlan::Link { ref text, page: Some(105) } if text == "Atlas"));
    let mut pic = tblk(BlockKind::Image, "cat.png");
    pic.attachment = Some(3);
    assert!(matches!(paste_plan(&pic, &[1, 3]),
        PastePlan::Attachment { attachment: 3, kind: BlockKind::Image }));
    assert!(matches!(paste_plan(&pic, &[1]),
        PastePlan::Insert { kind: BlockKind::Paragraph, ref text } if text == "cat.png"));
    let quote = tblk(BlockKind::Quote, "words");
    assert!(matches!(paste_plan(&quote, &[]),
        PastePlan::Insert { kind: BlockKind::Quote, ref text } if text == "words"));
}

#[test]
fn duplicated_nested_list_keeps_parents_in_the_copy() {
    // page with a bullet + a nested child (parent pointer inside the page)
    let root = 9_000_000_001u64;
    let child = 9_000_000_002u64;
    let mut parent_item = tblk(BlockKind::Bullet, "parent item");
    parent_item.id = root;
    parent_item.order = 10;
    let mut child_item = tblk(BlockKind::Bullet, "child item");
    child_item.id = child;
    child_item.parent = Some(root);
    child_item.order = 11;
    let blocks = copy_page_blocks(&[parent_item, child_item], 9_100_000_000);
    assert_eq!(blocks.len(), 2, "copy carries both blocks");
    // the child in the COPY points at the copied root, not the original
    let copied_child = blocks.iter().find(|b| b.text == "child item").unwrap();
    let copied_root = blocks.iter().find(|b| b.text == "parent item").unwrap();
    assert_ne!(copied_child.parent, Some(root), "stale parent pointer");
    assert_eq!(copied_child.parent, Some(copied_root.id));
    // depth projection agrees (both render, child indented)
    let rows = project_blocks(&blocks, &FindHits::new());
    assert_eq!(rows[0].depth, 0);
    assert_eq!(rows[1].depth, 1);
}

#[test]
fn page_ids_read_as_i32_do_at_both_ends() {
    assert_eq!(current_from_meta(Some("-2147483648")), Some(i32::MIN));
    assert_eq!(current_from_meta(Some("2147483647")), Some(i32::MAX));
    assert_eq!(current_from_meta(Some("2147483648")), None);
    assert_eq!(current_from_meta(Some("-2147483649")), None);
    assert_eq!(current_from_meta(Some("-")), None);
    assert_eq!(current_from_meta(Some("+-1")), None);
    assert_eq!(current_from_meta(Some("-0")), Some(0));
    assert_eq!(current_from_meta(Some("")), None);
}

#[test]
fn a_reclaim_answers_with_its_count() {
    assert_eq!(reclaim_in_memory(), "running in memory — nothing to reclaim");
    assert_eq!(reclaim_notice(0, "0 B", 0), "no unused attachments to remove");
    assert_eq!(reclaim_notice(1, "1.2 MB", 0), "1 unused attachment removed (1.2 MB)");
    assert_eq!(
        reclaim_notice(12, "40 KB", 1),
        "12 unused attachments removed (40 KB), but 1 file could not be deleted"
    );
    assert_eq!(
        reclaim_notice(3, "9 KB", 2),
        "3 unused attachments removed (9 KB), but 2 files could not be deleted"
    );
    assert_eq!(
        reclaim_flush_failed("disk full"),
        "the queued edits could not be written (disk full)"
    );
}
