//! The built-in page bodies: the sample workspace's pages and the
//! benchmark pages, as editor rows.

use vstd::prelude::*;
use crate::app::state::kinds::{
    BLOCK_BULLET, BLOCK_CODE, BLOCK_DIVIDER, BLOCK_H2, BLOCK_H3, BLOCK_NUMBERED, BLOCK_PARAGRAPH,
    BLOCK_QUOTE, BLOCK_TODO,
};
use crate::app::state::projection::BlockRow;

verus! {

/// Pages of the sample workspace that the fixtures and the startup name.
pub const PAGE_WEEKLY_REVIEW: i32 = 100;
pub const PAGE_GETTING_STARTED: i32 = 102;
pub const PAGE_ATLAS: i32 = 105;
pub const PAGE_CHINESE: i32 = 112;
pub const PAGE_SCRATCHPAD: i32 = 113;

/// A row of kind `kind` reading `text`, with every other field neutral.
pub open spec fn plain_row(row: BlockRow, kind: i32, text: Seq<char>) -> bool {
    &&& row.kind == kind
    &&& row.text@ == text
    &&& !row.checked
    &&& row.runs@.len() == 0
    &&& row.depth == 0
    &&& row.color == 0
    &&& row.bg == 0
    &&& row.page_ref == -1
    &&& !row.folded
    &&& row.attachment == 0
    &&& row.img_percent == 100
    &&& !row.can_fold
    &&& row.columns == 0
    &&& row.table_cells@.len() == 0
    &&& row.column_items@.len() == 0
    &&& row.column_boxes@.len() == 0
    &&& row.toc_entries@.len() == 0
}

/// A fresh row: id 0, no number, not the tail, everything else neutral.
pub fn block(kind: i32, text: &str) -> (r: BlockRow)
    ensures
        plain_row(r, kind, text@),
        r.id == 0,
        r.number == 0,
        !r.tail,
{
    BlockRow {
        id: 0,
        kind,
        text: String::from_str(text),
        checked: false,
        runs: Vec::new(),
        number: 0,
        tail: false,
        depth: 0,
        color: 0,
        bg: 0,
        folded: false,
        page_ref: -1,
        attachment: 0,
        img_percent: 100,
        can_fold: false,
        columns: 0,
        table_cells: Vec::new(),
        column_items: Vec::new(),
        column_boxes: Vec::new(),
        toc_entries: Vec::new(),
    }
}

/// Flag the last row so its delegate renders the page's bottom spacer.
pub fn with_tail(b: Vec<BlockRow>) -> (r: Vec<BlockRow>)
    ensures
        r@.len() == b@.len(),
        forall|i: int|
            0 <= i < b@.len() ==> #[trigger] r@[i] == if i == b@.len() - 1 {
                BlockRow { tail: true, ..b@[i] }
            } else {
                b@[i]
            },
{
    let mut b = b;
    let n = b.len();
    if n > 0 {
        b[n - 1].tail = true;
    }
    b
}

/// How many of the first `n` rows are numbered items.
pub open spec fn numbered_before(rows: Seq<BlockRow>, n: int) -> int
    decreases n,
{
    if n <= 0 {
        0
    } else {
        numbered_before(rows, n - 1) + if rows[n - 1].kind == BLOCK_NUMBERED { 1int } else { 0 }
    }
}

/// Number the numbered items by their position among the numbered items;
/// every other row is left as it was.
pub fn number_renumber(b: &mut Vec<BlockRow>)
    requires
        old(b)@.len() <= i32::MAX,
    ensures
        final(b)@.len() == old(b)@.len(),
        forall|i: int|
            0 <= i < old(b)@.len() ==> #[trigger] final(b)@[i] == if old(b)@[i].kind == BLOCK_NUMBERED {
                BlockRow { number: numbered_before(old(b)@, i + 1) as i32, ..old(b)@[i] }
            } else {
                old(b)@[i]
            },
{
    let mut n: i32 = 0;
    let mut i: usize = 0;
    while i < b.len()
        invariant
            b@.len() == old(b)@.len(),
            old(b)@.len() <= i32::MAX,
            i <= b@.len(),
            n == numbered_before(old(b)@, i as int),
            0 <= n <= i,
            forall|j: int| 0 <= j < b@.len() ==> (#[trigger] b@[j]).kind == old(b)@[j].kind,
            forall|j: int|
                0 <= j < i ==> #[trigger] b@[j] == if old(b)@[j].kind == BLOCK_NUMBERED {
                    BlockRow { number: numbered_before(old(b)@, j + 1) as i32, ..old(b)@[j] }
                } else {
                    old(b)@[j]
                },
            forall|j: int| i <= j < b@.len() ==> #[trigger] b@[j] == old(b)@[j],
        decreases b@.len() - i,
    {
        if b[i].kind == BLOCK_NUMBERED {
            n = n + 1;
            b[i].number = n;
        }
        i = i + 1;
    }
}

/// Row `i` of a fixture page whose rows are `spec` (kind, text), numbered
/// when `numbered` says so.
pub open spec fn fixture_matches(rows: Seq<BlockRow>, spec: Seq<(i32, Seq<char>)>) -> bool {
    &&& rows.len() == spec.len()
    &&& forall|i: int|
        0 <= i < rows.len() ==> {
            &&& plain_row(#[trigger] rows[i], spec[i].0, spec[i].1)
            &&& rows[i].id == i
            &&& rows[i].tail == (i == rows.len() - 1)
            &&& rows[i].number == if spec[i].0 == BLOCK_NUMBERED {
                numbered_before(rows, i + 1) as i32
            } else {
                0
            }
        }
}

/// Rows from `(kind, text)` pairs, ids by position, numbered, the last one
/// the tail.
fn fixture(spec: &Vec<(i32, &str)>) -> (r: Vec<BlockRow>)
    requires
        spec@.len() <= i32::MAX,
    ensures
        fixture_matches(r@, spec@.map_values(|p: (i32, &str)| (p.0, p.1@))),
{
    let ghost want = spec@.map_values(|p: (i32, &str)| (p.0, p.1@));
    let mut b: Vec<BlockRow> = Vec::new();
    let mut i: usize = 0;
    while i < spec.len()
        invariant
            want == spec@.map_values(|p: (i32, &str)| (p.0, p.1@)),
            spec@.len() <= i32::MAX,
            i <= spec@.len(),
            b@.len() == i,
            forall|j: int|
                0 <= j < i ==> plain_row(#[trigger] b@[j], want[j].0, want[j].1) && b@[j].id == j
                    && b@[j].number == 0 && !b@[j].tail,
        decreases spec@.len() - i,
    {
        let mut row = block(spec[i].0, spec[i].1);
        row.id = i as i32;
        b.push(row);
        i = i + 1;
    }
    let ghost before = b@;
    number_renumber(&mut b);
    let r = with_tail(b);
    proof {
        assert forall|j: int| 0 <= j < r@.len() implies (#[trigger] r@[j]).kind == before[j].kind by {}
        assert forall|i: int| 0 <= i < r@.len() implies {
            &&& plain_row(#[trigger] r@[i], want[i].0, want[i].1)
            &&& r@[i].id == i
            &&& r@[i].tail == (i == r@.len() - 1)
            &&& r@[i].number == if want[i].0 == BLOCK_NUMBERED {
                numbered_before(r@, i + 1) as i32
            } else {
                0
            }
        } by {
            lemma_numbered_same(r@, before, i + 1);
        }
    }
    r
}

proof fn lemma_numbered_same(a: Seq<BlockRow>, b: Seq<BlockRow>, n: int)
    requires
        0 <= n <= a.len(),
        a.len() == b.len(),
        forall|j: int| 0 <= j < a.len() ==> (#[trigger] a[j]).kind == b[j].kind,
    ensures
        numbered_before(a, n) == numbered_before(b, n),
    decreases n,
{
    if n > 0 {
        lemma_numbered_same(a, b, n - 1);
    }
}

// ---- the sample pages ----

/// The sample workspace's "Getting started" page.
pub open spec fn sample_spec() -> Seq<(i32, Seq<char>)> {
    seq![
        (BLOCK_PARAGRAPH, "A quiet home for thinking. This workspace collects notes, plans, and references for the Atlas project — and doubles as the visual test document for Quire itself."@),
        (BLOCK_DIVIDER, ""@),
        (BLOCK_H2, "Why a local-first editor"@),
        (BLOCK_PARAGRAPH, "Cloud apps are great until the laptop fan sounds like a jet engine. Quire keeps documents in a local SQLite database, renders with the GPU, and stays out of the way."@),
        (BLOCK_QUOTE, "Simplicity is the ultimate sophistication — but performance is the ultimate courtesy."@),
        (BLOCK_H3, "Principles"@),
        (BLOCK_BULLET, "One process, one document model, no hidden servers"@),
        (BLOCK_BULLET, "Only the focused block owns a real text cursor"@),
        (BLOCK_BULLET, "Nothing animates unless the user asks for it"@),
        (BLOCK_NUMBERED, "Write instantly, even on a five-year-old laptop"@),
        (BLOCK_NUMBERED, "Scroll a 10 000-block page without hitching"@),
        (BLOCK_NUMBERED, "Close the lid, reopen, and everything is there"@),
        (BLOCK_TODO, "Block editor MVP"@),
        (BLOCK_TODO, "Slash menu — type \"/\" at the start of a line"@),
        (BLOCK_H2, "Try the interactions"@),
        (BLOCK_PARAGRAPH, "Everything below already works: select text and press Ctrl+B / Ctrl+I / Ctrl+E for bold, italic, and inline code; Ctrl+L links it; Tab indents a list item and Shift+Tab promotes it back."@),
        (BLOCK_BULLET, "Ctrl+P searches every page — titles and content"@),
        (BLOCK_BULLET, "Ctrl+K opens the command palette"@),
        (BLOCK_BULLET, "Right-click a page in the sidebar for its menu"@),
        (BLOCK_BULLET, "Click this page's big title to rename it in place"@),
        (BLOCK_H2, "运行与中文"@),
        (BLOCK_PARAGRAPH, "中文段落用于验证字体回退与行高：排版本应稳定，不出现字符裁剪；标点悬挂与换行位置符合预期。"@),
        (BLOCK_CODE, "cargo run --release  # 140 ms to first paint, hopefully"@),
        (BLOCK_PARAGRAPH, "Start typing, or press Ctrl+K to open the command palette."@),
    ]
}

/// The sample "Getting started" page: the numbered list numbered, the last
/// row the tail.
pub fn mock_blocks_sample() -> (r: Vec<BlockRow>)
    ensures
        fixture_matches(r@, sample_spec()),
{
    let spec: Vec<(i32, &str)> = vec![
        (BLOCK_PARAGRAPH, "A quiet home for thinking. This workspace collects notes, plans, and references for the Atlas project — and doubles as the visual test document for Quire itself."),
        (BLOCK_DIVIDER, ""),
        (BLOCK_H2, "Why a local-first editor"),
        (BLOCK_PARAGRAPH, "Cloud apps are great until the laptop fan sounds like a jet engine. Quire keeps documents in a local SQLite database, renders with the GPU, and stays out of the way."),
        (BLOCK_QUOTE, "Simplicity is the ultimate sophistication — but performance is the ultimate courtesy."),
        (BLOCK_H3, "Principles"),
        (BLOCK_BULLET, "One process, one document model, no hidden servers"),
        (BLOCK_BULLET, "Only the focused block owns a real text cursor"),
        (BLOCK_BULLET, "Nothing animates unless the user asks for it"),
        (BLOCK_NUMBERED, "Write instantly, even on a five-year-old laptop"),
        (BLOCK_NUMBERED, "Scroll a 10 000-block page without hitching"),
        (BLOCK_NUMBERED, "Close the lid, reopen, and everything is there"),
        (BLOCK_TODO, "Block editor MVP"),
        (BLOCK_TODO, "Slash menu — type \"/\" at the start of a line"),
        (BLOCK_H2, "Try the interactions"),
        (BLOCK_PARAGRAPH, "Everything below already works: select text and press Ctrl+B / Ctrl+I / Ctrl+E for bold, italic, and inline code; Ctrl+L links it; Tab indents a list item and Shift+Tab promotes it back."),
        (BLOCK_BULLET, "Ctrl+P searches every page — titles and content"),
        (BLOCK_BULLET, "Ctrl+K opens the command palette"),
        (BLOCK_BULLET, "Right-click a page in the sidebar for its menu"),
        (BLOCK_BULLET, "Click this page's big title to rename it in place"),
        (BLOCK_H2, "运行与中文"),
        (BLOCK_PARAGRAPH, "中文段落用于验证字体回退与行高：排版本应稳定，不出现字符裁剪；标点悬挂与换行位置符合预期。"),
        (BLOCK_CODE, "cargo run --release  # 140 ms to first paint, hopefully"),
        (BLOCK_PARAGRAPH, "Start typing, or press Ctrl+K to open the command palette."),
    ];
    assert(spec@.map_values(|p: (i32, &str)| (p.0, p.1@)) =~= sample_spec());
    fixture(&spec)
}

/// The sample workspace's Chinese writing page.
pub open spec fn chinese_spec() -> Seq<(i32, Seq<char>)> {
    seq![
        (BLOCK_H2, "写作与中文测试"@),
        (BLOCK_PARAGRAPH, "中文段落用于验证字体回退与行高：排版本应稳定，不出现字符裁剪；标点悬挂与换行位置符合预期。"@),
        (BLOCK_PARAGRAPH, "在长段落中混排 English words 与数字（如 2026 年 9 月）时，基线应保持一致，中西文之间留有恰当的间隙。"@),
        (BLOCK_TODO, "检查行高在 125% 缩放下是否稳定"@),
        (BLOCK_TODO, "检查标点挤压与引号方向"@),
        (BLOCK_QUOTE, "好的排版是看不见的 —— 读者只注意到内容本身。"@),
        (BLOCK_CODE, "cargo run --release --features skia"@),
    ]
}

/// The sample workspace's Chinese writing page.
pub fn mock_blocks_chinese() -> (r: Vec<BlockRow>)
    ensures
        fixture_matches(r@, chinese_spec()),
{
    let spec: Vec<(i32, &str)> = vec![
        (BLOCK_H2, "写作与中文测试"),
        (BLOCK_PARAGRAPH, "中文段落用于验证字体回退与行高：排版本应稳定，不出现字符裁剪；标点悬挂与换行位置符合预期。"),
        (BLOCK_PARAGRAPH, "在长段落中混排 English words 与数字（如 2026 年 9 月）时，基线应保持一致，中西文之间留有恰当的间隙。"),
        (BLOCK_TODO, "检查行高在 125% 缩放下是否稳定"),
        (BLOCK_TODO, "检查标点挤压与引号方向"),
        (BLOCK_QUOTE, "好的排版是看不见的 —— 读者只注意到内容本身。"),
        (BLOCK_CODE, "cargo run --release --features skia"),
    ];
    assert(spec@.map_values(|p: (i32, &str)| (p.0, p.1@)) =~= chinese_spec());
    fixture(&spec)
}

/// Placeholder content for a regular page. No heading: the editor's header
/// already shows the page's title.
pub open spec fn generic_spec() -> Seq<(i32, Seq<char>)> {
    seq![
        (BLOCK_PARAGRAPH, "This page is empty. Start typing, or use the + handle beside any block to insert one — the slash menu offers every kind Quire knows."@),
        (BLOCK_DIVIDER, ""@),
        (BLOCK_PARAGRAPH, "Use the sidebar to create, rename, duplicate, and delete pages — everything you type is written to a local SQLite library and is there again after a restart."@),
        (BLOCK_BULLET, "Ctrl+P searches every page, titles and content"@),
        (BLOCK_BULLET, "Ctrl+K opens the command palette"@),
        (BLOCK_BULLET, "Right-click a page for its context menu"@),
    ]
}

/// Placeholder content for a regular page, whatever its title.
pub fn mock_blocks_generic(_title: &str) -> (r: Vec<BlockRow>)
    ensures
        fixture_matches(r@, generic_spec()),
{
    let spec: Vec<(i32, &str)> = vec![
        (BLOCK_PARAGRAPH, "This page is empty. Start typing, or use the + handle beside any block to insert one — the slash menu offers every kind Quire knows."),
        (BLOCK_DIVIDER, ""),
        (BLOCK_PARAGRAPH, "Use the sidebar to create, rename, duplicate, and delete pages — everything you type is written to a local SQLite library and is there again after a restart."),
        (BLOCK_BULLET, "Ctrl+P searches every page, titles and content"),
        (BLOCK_BULLET, "Ctrl+K opens the command palette"),
        (BLOCK_BULLET, "Right-click a page for its context menu"),
    ];
    assert(spec@.map_values(|p: (i32, &str)| (p.0, p.1@)) =~= generic_spec());
    fixture(&spec)
}

/// A bench fixture page's small body, headed by its title.
pub open spec fn bench_page_spec(title: Seq<char>) -> Seq<(i32, Seq<char>)> {
    seq![
        (BLOCK_PARAGRAPH, "Benchmark fixture page. Switching between these pages exercises model swap + delegate rebuild."@),
        (BLOCK_H2, title),
        (BLOCK_PARAGRAPH, "The quick brown fox jumps over the lazy dog."@),
        (BLOCK_BULLET, "Pack my box with five dozen liquor jugs."@),
        (BLOCK_TODO, "Sphinx of black quartz, judge my vow."@),
    ]
}

/// A bench fixture page's small body, the pages a page-switch bench cycles
/// through.
pub fn mock_blocks_bench_page(title: &str) -> (r: Vec<BlockRow>)
    ensures
        fixture_matches(r@, bench_page_spec(title@)),
{
    let spec: Vec<(i32, &str)> = vec![
        (BLOCK_PARAGRAPH, "Benchmark fixture page. Switching between these pages exercises model swap + delegate rebuild."),
        (BLOCK_H2, title),
        (BLOCK_PARAGRAPH, "The quick brown fox jumps over the lazy dog."),
        (BLOCK_BULLET, "Pack my box with five dozen liquor jugs."),
        (BLOCK_TODO, "Sphinx of black quartz, judge my vow."),
    ];
    assert(spec@.map_values(|p: (i32, &str)| (p.0, p.1@)) =~= bench_page_spec(title@));
    fixture(&spec)
}

/// The body a page starts with: the sample pages' own, none for the
/// scratchpad, and the placeholder for every other page.
pub fn mock_blocks_for_page(id: i32, title: &str) -> (r: Vec<BlockRow>)
    ensures
        id == PAGE_GETTING_STARTED ==> fixture_matches(r@, sample_spec()),
        id == PAGE_CHINESE ==> fixture_matches(r@, chinese_spec()),
        id == PAGE_SCRATCHPAD ==> r@.len() == 0,
        id != PAGE_GETTING_STARTED && id != PAGE_CHINESE && id != PAGE_SCRATCHPAD ==> fixture_matches(
            r@,
            generic_spec(),
        ),
{
    match id {
        PAGE_GETTING_STARTED => mock_blocks_sample(),
        PAGE_CHINESE => mock_blocks_chinese(),
        PAGE_SCRATCHPAD => Vec::new(),
        _ => mock_blocks_generic(title),
    }
}

// ---- the bench page ----

/// The bench page's kind for row `i`: a heading every twentieth row, a
/// pair of bullets, a to-do and a quote among paragraphs.
pub open spec fn bench_kind(i: int) -> i32 {
    let k = i % 20;
    if k == 0 {
        BLOCK_H2
    } else if k == 5 || k == 6 {
        BLOCK_BULLET
    } else if k == 9 {
        BLOCK_TODO
    } else if k == 13 {
        BLOCK_QUOTE
    } else {
        BLOCK_PARAGRAPH
    }
}

/// The bench page's four lines, taken in turn.
pub open spec fn bench_text(i: int) -> Seq<char> {
    let k = i % 4;
    if k == 0 {
        "The quick brown fox jumps over the lazy dog."@
    } else if k == 1 {
        "Pack my box with five dozen liquor jugs, then verify rendering."@
    } else if k == 2 {
        "中文基准段落：用于长文档下的内存与滚动性能测试。"@
    } else {
        "Sphinx of black quartz, judge my vow — line after line after line."@
    }
}

/// A bench page of `count` rows.
pub fn mock_blocks_bench(count: usize) -> (r: Vec<BlockRow>)
    ensures
        r@.len() == count,
        forall|i: int|
            0 <= i < count ==> {
                &&& plain_row(#[trigger] r@[i], bench_kind(i), bench_text(i))
                &&& r@[i].id == i as i32
                &&& r@[i].number == 0
                &&& r@[i].tail == (i == count - 1)
            },
{
    let lorem: [&str; 4] = [
        "The quick brown fox jumps over the lazy dog.",
        "Pack my box with five dozen liquor jugs, then verify rendering.",
        "中文基准段落：用于长文档下的内存与滚动性能测试。",
        "Sphinx of black quartz, judge my vow — line after line after line.",
    ];
    let mut b: Vec<BlockRow> = Vec::new();
    let mut i: usize = 0;
    while i < count
        invariant
            i <= count,
            b@.len() == i,
            lorem@[0]@ == bench_text(0),
            lorem@[1]@ == bench_text(1),
            lorem@[2]@ == bench_text(2),
            lorem@[3]@ == bench_text(3),
            forall|j: int|
                0 <= j < i ==> plain_row(#[trigger] b@[j], bench_kind(j), bench_text(j)) && b@[j].id
                    == j as i32 && b@[j].number == 0 && !b@[j].tail,
        decreases count - i,
    {
        let kind = match i % 20 {
            0 => BLOCK_H2,
            5 | 6 => BLOCK_BULLET,
            9 => BLOCK_TODO,
            13 => BLOCK_QUOTE,
            _ => BLOCK_PARAGRAPH,
        };
        let mut row = block(kind, lorem[i % 4]);
        row.id = i as i32;
        b.push(row);
        i = i + 1;
    }
    with_tail(b)
}

} // verus!
