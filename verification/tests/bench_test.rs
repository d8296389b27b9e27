use quire::app::state::bench::{
    bench_code_source, bench_picture_plan, bench_pictures, block_search_blob, fuzzy_subsequence,
    BENCH_FIXTURE_POOL,
};
use quire::app::state::kinds::{BLOCK_IMAGE, BLOCK_PARAGRAPH};
use quire::app::state::projection::{project_blocks, Block, FindHits};
use quire::app::state::{kind_to_int, BlockKind};

#[test]
fn a_pictures_plan_spaces_the_rows_and_caps_the_pool() {
    assert_eq!(bench_picture_plan(0, 500), (0, 0), "a page with no rows");
    assert_eq!(bench_picture_plan(1000, 0), (0, 0), "--pictures 0 is off");
    // the two scenes the matrix runs
    assert_eq!(bench_picture_plan(10_000, 500), (20, BENCH_FIXTURE_POOL));
    assert_eq!(bench_picture_plan(10_000, 5_000), (2, BENCH_FIXTURE_POOL));
    // more pictures asked for than rows available cannot invent rows
    assert_eq!(bench_picture_plan(100, 1_000), (1, 100));
}

fn paragraphs(n: u64) -> Vec<Block> {
    (0..n)
        .map(|i| Block {
            id: i + 1,
            parent: None,
            order: 0,
            kind: BlockKind::Paragraph,
            text: format!("row {i}"),
            checked: false,
            marks: Vec::new(),
            color: 0,
            background: 0,
            folded: false,
            page_ref: None,
            attachment: None,
            img_percent: 100,
            columns: 0,
        })
        .collect()
}

#[test]
fn a_pictures_page_turns_every_stride_row_into_an_image() {
    let mut blocks = paragraphs(1000);
    bench_pictures(&mut blocks, 250);

    let picture_rows: Vec<(usize, u64)> = blocks
        .iter()
        .enumerate()
        .filter_map(|(i, b)| b.attachment.map(|a| (i, a)))
        .collect();
    assert_eq!(picture_rows.len(), 250, "one row every four");
    assert!(
        blocks
            .iter()
            .all(|b| (b.kind == BlockKind::Image) == (b.attachment.is_some())),
        "an image row is the only row that carries an attachment"
    );
    assert_eq!(picture_rows[0], (3, 1), "the stride, not an off-by-one");
    // consecutive picture rows draw different fixtures...
    assert_eq!(picture_rows[1], (7, 2));
    // ...and the pool wraps only after it is exhausted.
    assert_eq!(picture_rows[BENCH_FIXTURE_POOL].0, 3 + 4 * BENCH_FIXTURE_POOL);
    assert_eq!(picture_rows[BENCH_FIXTURE_POOL].1, 1, "the pool wrapped");
    assert_eq!(kind_to_int(blocks[0].kind), BLOCK_PARAGRAPH);
    assert_eq!(kind_to_int(blocks[3].kind), BLOCK_IMAGE);
    assert_eq!(blocks[3].text, "", "a picture row has no text to lay out");
}

#[test]
fn no_pictures_leaves_the_page_alone() {
    let mut blocks = paragraphs(10);
    bench_pictures(&mut blocks, 0);
    assert!(blocks.iter().all(|b| b.kind == BlockKind::Paragraph && b.attachment.is_none()));
    let mut empty: Vec<Block> = Vec::new();
    bench_pictures(&mut empty, 10);
    assert!(empty.is_empty());
}

#[test]
fn the_code_fixture_is_seven_lines() {
    let src = bench_code_source();
    assert_eq!(src.lines().count(), 7);
    assert!(src.starts_with("// measure the bytes a page of code actually costs\n"));
    assert!(src.ends_with("\n}"));
    assert!(src.contains("合计 {total} 字节"));
}

#[test]
fn the_search_blob_is_the_title_then_each_non_empty_text() {
    let mut blocks = paragraphs(3);
    blocks[1].text = String::new();
    let rows = project_blocks(&blocks, &FindHits::new());
    assert_eq!(block_search_blob("Title", &rows), "Title\nrow 0\nrow 2");
    assert_eq!(block_search_blob("Only", &[]), "Only");
}

#[test]
fn the_fuzzy_filter_matches_in_order_and_ignores_case_and_spaces() {
    assert!(fuzzy_subsequence("gs", "Getting started"));
    assert!(fuzzy_subsequence("G S", "getting started"));
    assert!(fuzzy_subsequence("", "anything"));
    assert!(fuzzy_subsequence("   ", ""));
    assert!(!fuzzy_subsequence("sg", "gs"));
    assert!(!fuzzy_subsequence("x", ""));
    assert!(fuzzy_subsequence("中文", "写作与中文测试"));
    // each query char takes a target char of its own
    assert!(!fuzzy_subsequence("oo", "o"));
    assert!(fuzzy_subsequence("ÉTÉ", "été"));
}

use quire::app::state::bench::bench_marks;
use quire::app::state::runs::MarkKind;

#[test]
fn a_marks_page_bolds_the_second_word_of_every_stride_row() {
    let mut blocks = paragraphs(8);
    for b in blocks.iter_mut() {
        b.text = "Pack my box with jugs".to_string();
    }
    blocks[3].text = "中文基准段落".to_string();
    bench_marks(&mut blocks, 4);
    // one row every two: rows 1, 3, 5, 7
    let marked: Vec<usize> = (0..8).filter(|&i| !blocks[i].marks.is_empty()).collect();
    assert_eq!(marked, vec![1, 5, 7], "a row with no space to bold is left alone");
    let m = &blocks[5].marks[0];
    assert_eq!((m.start, m.end, m.kind), (5, 7, MarkKind::Bold));
    assert_eq!(&blocks[5].text[m.start..m.end], "my");
    assert_eq!(m.url, "");
    // a row of one word has no second word
    let mut one = paragraphs(1);
    one[0].text = "solo".to_string();
    bench_marks(&mut one, 3);
    assert!(one[0].marks.is_empty());
    let mut none = paragraphs(3);
    bench_marks(&mut none, 0);
    assert!(none.iter().all(|b| b.marks.is_empty()));
}
