//! The page menu and the block menu with its submenus: which rows each one
//! shows for the page or block it was opened on.

use vstd::prelude::*;
use crate::app::state::kinds::{kind_int, kind_to_int, BlockKind};
use crate::app::state::menus::{entry, row, shows, MenuRow, MenuView};
use crate::app::state::projection::{find, find_block, Block};
use crate::text::{decimal, push_decimal, push_signed, signed_decimal};

verus! {

// ---- action ids of the page menu ----

pub const MENU_NEW_SUBPAGE: i32 = 1;
pub const MENU_RENAME: i32 = 2;
pub const MENU_DUPLICATE: i32 = 3;
pub const MENU_FAVORITE: i32 = 4;
pub const MENU_DELETE: i32 = 5;
pub const MENU_MOVE_UP: i32 = 6;
pub const MENU_MOVE_DOWN: i32 = 7;
pub const MENU_MOVE_TO: i32 = 8;
pub const MENU_BACK: i32 = 9;
/// The page's look: its Style submenu and the switches in it.
pub const MENU_PAGE_STYLE: i32 = 10;
pub const MENU_PAGE_FULL_WIDTH: i32 = 11;
pub const MENU_PAGE_SMALL_TEXT: i32 = 12;
/// Opens the emoji grid.
pub const MENU_PAGE_ICON: i32 = 13;

// ---- action-id ranges of the block menu ----

/// Plus the target page id.
pub const MOVE_TO_BASE: i32 = 100_000;
/// Plus the palette slot.
pub const COLOR_TEXT_BASE: i32 = 200_000;
pub const COLOR_BG_BASE: i32 = 300_000;
/// Plus the display width in percent, so the id carries the pick.
pub const IMAGE_WIDTH_BASE: i32 = 500_000;
/// Plus the index into the language list.
pub const CODE_LANG_BASE: i32 = 600_000;

// ---- the page menu ----

/// The page menu: the favorite row says which way it toggles; the look of
/// the page sits above the one destructive row.
pub open spec fn page_menu(favorite: bool) -> Seq<MenuView> {
    seq![
        entry(MENU_NEW_SUBPAGE as int, "New subpage"@, "plus"@),
        entry(MENU_RENAME as int, "Rename"@, "pencil"@),
        entry(MENU_DUPLICATE as int, "Duplicate"@, "copy"@),
        entry(MENU_MOVE_UP as int, "Move up"@, "chevron-up"@),
        entry(MENU_MOVE_DOWN as int, "Move down"@, "chevron-down"@),
        entry(MENU_MOVE_TO as int, "Move to"@, "arrow-right"@),
        entry(
            MENU_FAVORITE as int,
            if favorite {
                "Remove from favorites"@
            } else {
                "Add to favorites"@
            },
            "star"@,
        ),
        entry(MENU_PAGE_ICON as int, "Set icon"@, "smile"@),
        entry(MENU_PAGE_STYLE as int, "Style"@, "palette"@),
        (MENU_DELETE, "Delete"@, "trash"@, true, -1i32, false, false),
    ]
}

/// The rows of a page's menu, for a page that is a favorite or not.
pub fn fill_menu(favorite: bool) -> (r: Vec<MenuRow>)
    ensures
        shows(r@) == page_menu(favorite),
{
    let fav_label = if favorite {
        "Remove from favorites"
    } else {
        "Add to favorites"
    };
    let mut rows = vec![
        row(MENU_NEW_SUBPAGE, "New subpage", "plus", false, -1, false),
        row(MENU_RENAME, "Rename", "pencil", false, -1, false),
        row(MENU_DUPLICATE, "Duplicate", "copy", false, -1, false),
        row(MENU_MOVE_UP, "Move up", "chevron-up", false, -1, false),
        row(MENU_MOVE_DOWN, "Move down", "chevron-down", false, -1, false),
        row(MENU_MOVE_TO, "Move to", "arrow-right", false, -1, false),
        row(MENU_FAVORITE, fav_label, "star", false, -1, false),
        row(MENU_DELETE, "Delete", "trash", true, -1, false),
    ];
    let n = rows.len();
    rows.insert(n - 1, row(MENU_PAGE_STYLE, "Style", "palette", false, -1, false));
    let n = rows.len();
    rows.insert(n - 2, row(MENU_PAGE_ICON, "Set icon", "smile", false, -1, false));
    assert(shows(rows@) =~= page_menu(favorite));
    rows
}

// ---- the block menu ----

/// The kind of block `id` among a page's blocks, if it is there.
pub open spec fn spec_block_kind(blocks: Seq<Block>, id: u64) -> Option<BlockKind> {
    match find_block(blocks, id) {
        Some(k) => Some(blocks[k].kind),
        None => None,
    }
}

/// The kind of block `id`, none when the page has no such block.
pub fn block_kind(blocks: &[Block], id: i32) -> (r: Option<BlockKind>)
    ensures
        r == spec_block_kind(blocks@, id as u64),
{
    match find(blocks, id as u64) {
        Some(k) => Some(blocks[k].kind),
        None => None,
    }
}

/// The page a page or link block `id` points at, as the UI's page int.
pub open spec fn spec_page_ref(blocks: Seq<Block>, id: u64) -> Option<i32> {
    match find_block(blocks, id) {
        Some(k) => match blocks[k].page_ref {
            Some(p) => Some(p as i32),
            None => None,
        },
        None => None,
    }
}

/// The page block `id` points at, if it is on the page and points at one.
pub fn block_page_ref(blocks: &[Block], id: i32) -> (r: Option<i32>)
    ensures
        r == spec_page_ref(blocks@, id as u64),
{
    match find(blocks, id as u64) {
        Some(k) => match blocks[k].page_ref {
            Some(p) => Some(#[verifier::truncate] (p as i32)),
            None => None,
        },
        None => None,
    }
}

/// The kind of block `id`, for the per-kind decisions of the editor.
pub fn block_kind_of(blocks: &[Block], id: i32) -> (r: Option<BlockKind>)
    ensures
        r == spec_block_kind(blocks@, id as u64),
{
    block_kind(blocks, id)
}

/// The link "Copy link to block" copies: a page or link block links to the
/// page it points at, so the link opens that page everywhere; any other
/// block links to itself.
pub open spec fn link_of(blocks: Seq<Block>, id: i32) -> Seq<char> {
    let kind = spec_block_kind(blocks, id as u64);
    if (kind == Some(BlockKind::Page) || kind == Some(BlockKind::Link)) && spec_page_ref(
        blocks,
        id as u64,
    ) is Some {
        "quire://page/"@ + signed_decimal(spec_page_ref(blocks, id as u64).unwrap() as int)
    } else {
        "quire://block/"@ + signed_decimal(id as int)
    }
}

/// The text "Copy link to block" puts on the clipboard for block `id`.
pub fn block_link(blocks: &[Block], id: i32) -> (r: String)
    ensures
        r@ == link_of(blocks@, id),
{
    let kind = block_kind_of(blocks, id);
    if matches!(kind, Some(BlockKind::Page) | Some(BlockKind::Link)) {
        if let Some(target) = block_page_ref(blocks, id) {
            let mut link = String::from_str("quire://page/");
            push_signed(&mut link, target);
            return link;
        }
    }
    let mut link = String::from_str("quire://block/");
    push_signed(&mut link, id);
    link
}

/// The delete confirmation for a page titled `title` whose subtree holds
/// `subtree` pages (itself included): the title, and the message that
/// counts the sub-pages going with it.
pub open spec fn delete_message(title: Seq<char>, subtree: nat) -> Seq<char> {
    if subtree > 1 {
        "“"@ + title + "” and its "@ + decimal((subtree - 1) as nat)
            + " sub-pages will be deleted. This cannot be undone."@
    } else {
        "“"@ + title + "” will be deleted. This cannot be undone."@
    }
}

/// The delete dialog's title and message for a page titled `title` (none
/// reads as an empty title) with `subtree` pages in its subtree.
pub fn delete_dialog_text(title: Option<&str>, subtree: usize) -> (r: (String, String))
    ensures
        r.0@ == (match title {
            Some(t) => t@,
            None => Seq::<char>::empty(),
        }),
        r.1@ == delete_message(r.0@, subtree as nat),
{
    let title = match title {
        Some(t) => String::from_str(t),
        None => String::new(),
    };
    let mut message = String::from_str("“");
    message.append(title.as_str());
    if subtree > 1 {
        message.append("” and its ");
        push_decimal(&mut message, (subtree - 1) as u64);
        message.append(" sub-pages will be deleted. This cannot be undone.");
    } else {
        message.append("” will be deleted. This cannot be undone.");
    }
    assert(message@ =~= delete_message(title@, subtree as nat));
    (title, message)
}

/// The block menu: the root actions, a width submenu for a picture and a
/// language submenu for code, paste only while a block is copied, and
/// delete last.
pub open spec fn block_menu(kind: Option<BlockKind>, clipboard_full: bool) -> Seq<MenuView> {
    let base = seq![
        entry(7, "Turn into"@, "chevron-right"@),
        entry(3, "Duplicate"@, "copy"@),
        entry(9, "Copy link to block"@, "link"@),
        entry(10, "Move to"@, "arrow-right"@),
        entry(11, "Text color"@, "palette"@),
        entry(12, "Background color"@, "palette"@),
        entry(1, "Move up"@, "chevron-up"@),
        entry(2, "Move down"@, "chevron-down"@),
        entry(4, "Copy block"@, "copy"@),
    ];
    let sized = if kind == Some(BlockKind::Image) {
        base.insert(1, entry(13, "Image width"@, "chevron-right"@))
    } else {
        base
    };
    let coded = if kind == Some(BlockKind::Code) {
        sized.insert(1, entry(14, "Language"@, "chevron-right"@))
    } else {
        sized
    };
    let pasting = if clipboard_full {
        coded.push(entry(5, "Paste below"@, "import"@))
    } else {
        coded
    };
    pasting.push((6i32, "Delete"@, "trash"@, true, -1i32, false, false))
}

/// The rows of the menu of block `id`; `clipboard_full` when a block has
/// been copied and can be pasted.
pub fn fill_block_menu(blocks: &[Block], id: i32, clipboard_full: bool) -> (r: Vec<MenuRow>)
    ensures
        shows(r@) == block_menu(spec_block_kind(blocks@, id as u64), clipboard_full),
{
    let mut rows = vec![
        row(7, "Turn into", "chevron-right", false, -1, false),
        row(3, "Duplicate", "copy", false, -1, false),
        row(9, "Copy link to block", "link", false, -1, false),
        row(10, "Move to", "arrow-right", false, -1, false),
        row(11, "Text color", "palette", false, -1, false),
        row(12, "Background color", "palette", false, -1, false),
        row(1, "Move up", "chevron-up", false, -1, false),
        row(2, "Move down", "chevron-down", false, -1, false),
        row(4, "Copy block", "copy", false, -1, false),
    ];
    let kind = block_kind(blocks, id);
    if kind == Some(BlockKind::Image) {
        rows.insert(1, row(13, "Image width", "chevron-right", false, -1, false));
    }
    if kind == Some(BlockKind::Code) {
        rows.insert(1, row(14, "Language", "chevron-right", false, -1, false));
    }
    if clipboard_full {
        rows.push(row(5, "Paste below", "import", false, -1, false));
    }
    rows.push(row(6, "Delete", "trash", true, -1, false));
    assert(shows(rows@) =~= block_menu(kind, clipboard_full));
    rows
}

// ---- the block menu's submenus ----

/// A submenu's first row, back to the root.
pub open spec fn back_row() -> MenuView {
    entry(8, "Back"@, "chevron-left"@)
}

/// A row of a picker: no icon, checked when it is the current pick.
pub open spec fn pick(id: int, label: Seq<char>, check: bool) -> MenuView {
    (id as i32, label, ""@, false, -1i32, false, check)
}

/// The stored display width of block `id`, in percent, if the page has it.
pub open spec fn spec_image_width(blocks: Seq<Block>, id: i32) -> Option<i32> {
    match find_block(blocks, if id < 0 { 0u64 } else { id as u64 }) {
        Some(k) => Some(blocks[k].img_percent as i32),
        None => None,
    }
}

/// The width submenu of a picture: three stops, the stored one checked.
pub open spec fn image_width_menu(current: Option<i32>) -> Seq<MenuView> {
    seq![
        back_row(),
        pick(IMAGE_WIDTH_BASE + 25, "25%"@, current == Some(25i32)),
        pick(IMAGE_WIDTH_BASE + 50, "50%"@, current == Some(50i32)),
        pick(IMAGE_WIDTH_BASE + 100, "100%"@, current == Some(100i32)),
    ]
}

/// A picker row, with its check mark set.
fn checked_row(id: i32, label: &str, check: bool) -> (r: MenuRow)
    ensures
        r@ == pick(id as int, label@, check),
{
    let mut menu_row = row(id, label, "", false, -1, false);
    menu_row.check = check;
    menu_row
}

/// The rows of the width submenu of picture `id`.
pub fn fill_block_menu_image_width(blocks: &[Block], id: i32) -> (r: Vec<MenuRow>)
    ensures
        shows(r@) == image_width_menu(spec_image_width(blocks@, id)),
{
    let key: u64 = if id < 0 {
        0
    } else {
        id as u64
    };
    let current: Option<i32> = match find(blocks, key) {
        Some(k) => Some(blocks[k].img_percent as i32),
        None => None,
    };
    let is = |percent: i32| -> (b: bool)
        ensures
            b == (current == Some(percent)),
        {
            match current {
                Some(c) => c == percent,
                None => false,
            }
        };
    let rows = vec![
        row(8, "Back", "chevron-left", false, -1, false),
        checked_row(IMAGE_WIDTH_BASE + 25, "25%", is(25)),
        checked_row(IMAGE_WIDTH_BASE + 50, "50%", is(50)),
        checked_row(IMAGE_WIDTH_BASE + 100, "100%", is(100)),
    ];
    assert(shows(rows@) =~= image_width_menu(current));
    rows
}

/// The palette's names, slot by slot.
pub open spec fn color_labels() -> Seq<Seq<char>> {
    seq![
        "Default"@,
        "Gray"@,
        "Brown"@,
        "Orange"@,
        "Yellow"@,
        "Green"@,
        "Blue"@,
        "Purple"@,
        "Pink"@,
        "Red"@,
    ]
}

/// The stored palette slot of block `id`'s background or text colour.
pub open spec fn spec_color_slot(blocks: Seq<Block>, id: i32, background: bool) -> Option<i32> {
    match find_block(blocks, if id < 0 { 0u64 } else { id as u64 }) {
        Some(k) => Some(
            if background {
                blocks[k].background
            } else {
                blocks[k].color
            },
        ),
        None => None,
    }
}

/// The first `n` swatch rows of a colour submenu.
pub open spec fn swatches(current: Option<i32>, background: bool, n: int) -> Seq<MenuView> {
    Seq::new(
        n as nat,
        |i: int|
            (
                ((if background {
                    COLOR_BG_BASE
                } else {
                    COLOR_TEXT_BASE
                }) + i) as i32,
                color_labels()[i],
                ""@,
                false,
                i as i32,
                background,
                current == Some(i as i32),
            ),
    )
}

/// A colour submenu: the whole palette as swatch rows, the current pick
/// checked.
pub open spec fn color_menu(current: Option<i32>, background: bool) -> Seq<MenuView> {
    seq![back_row()] + swatches(current, background, 10)
}

/// The rows of block `id`'s text-colour submenu, or its background one.
pub fn fill_block_menu_colors(blocks: &[Block], id: i32, background: bool) -> (r: Vec<MenuRow>)
    ensures
        shows(r@) == color_menu(spec_color_slot(blocks@, id, background), background),
{
    let key: u64 = if id < 0 {
        0
    } else {
        id as u64
    };
    let current: Option<i32> = match find(blocks, key) {
        Some(k) => Some(
            if background {
                blocks[k].background
            } else {
                blocks[k].color
            },
        ),
        None => None,
    };
    let labels: Vec<&str> = vec![
        "Default",
        "Gray",
        "Brown",
        "Orange",
        "Yellow",
        "Green",
        "Blue",
        "Purple",
        "Pink",
        "Red",
    ];
    assert(labels@.map_values(|l: &str| l@) =~= color_labels());
    let base = if background {
        COLOR_BG_BASE
    } else {
        COLOR_TEXT_BASE
    };
    let mut rows = vec![row(8, "Back", "chevron-left", false, -1, false)];
    let mut i: usize = 0;
    while i < labels.len()
        invariant
            labels@.len() == 10,
            labels@.map_values(|l: &str| l@) == color_labels(),
            base == (if background { COLOR_BG_BASE } else { COLOR_TEXT_BASE }),
            i <= 10,
            shows(rows@) == seq![back_row()] + swatches(current, background, i as int),
        decreases 10 - i,
    {
        let slot = i as i32;
        let check = match current {
            Some(c) => c == slot,
            None => false,
        };
        let mut menu_row = row(base + slot, labels[i], "", false, slot, background);
        menu_row.check = check;
        let ghost before = shows(rows@);
        proof {
            assert(labels@.map_values(|l: &str| l@)[i as int] == labels@[i as int]@);
            assert(menu_row@ == swatches(current, background, i + 1)[i as int]);
        }
        rows.push(menu_row);
        proof {
            assert(shows(rows@) =~= before.push(menu_row@));
            assert(swatches(current, background, i + 1) =~= swatches(current, background, i as int).push(
                menu_row@,
            ));
        }
        i = i + 1;
        assert(shows(rows@) =~= seq![back_row()] + swatches(current, background, i as int));
    }
    rows
}

/// What a block can be turned into: the "/" menu's kinds, with their labels.
pub open spec fn turn_into_items() -> Seq<(BlockKind, Seq<char>)> {
    seq![
        (BlockKind::Paragraph, "Text"@),
        (BlockKind::Toggle, "Toggle list"@),
        (BlockKind::Image, "Image"@),
        (BlockKind::File, "File"@),
        (BlockKind::Table, "Table"@),
        (BlockKind::Columns, "Columns"@),
        (BlockKind::Callout, "Callout"@),
        (BlockKind::Code, "Code"@),
        (BlockKind::Math, "Math"@),
        (BlockKind::Toc, "Table of contents"@),
        (BlockKind::Embed, "Embed"@),
        (BlockKind::Database, "Table view"@),
        (BlockKind::Divider, "Divider"@),
    ]
}

/// The icon a "Turn into" row shows for its target kind.
pub open spec fn turn_icon(kind: BlockKind) -> Seq<char> {
    match kind {
        BlockKind::Paragraph => "pencil"@,
        BlockKind::Callout | BlockKind::Code | BlockKind::File => "page"@,
        BlockKind::Toggle => "chevron-right"@,
        BlockKind::Image => "image"@,
        _ => "minimize"@,
    }
}

fn turn_icon_of(kind: BlockKind) -> (r: &'static str)
    ensures
        r@ == turn_icon(kind),
{
    match kind {
        BlockKind::Paragraph => "pencil",
        BlockKind::Callout | BlockKind::Code | BlockKind::File => "page",
        BlockKind::Toggle => "chevron-right",
        BlockKind::Image => "image",
        _ => "minimize",
    }
}

/// The "Turn into" rows for the first `n` targets: every one but the
/// block's own kind, its id 100 past the kind's int.
pub open spec fn turn_into_rows(current: Option<BlockKind>, n: int) -> Seq<MenuView>
    decreases n,
{
    if n <= 0 {
        Seq::empty()
    } else {
        let prev = turn_into_rows(current, n - 1);
        let (kind, label) = turn_into_items()[n - 1];
        if current != Some(kind) {
            prev.push(entry(100 + kind_int(kind), label, turn_icon(kind)))
        } else {
            prev
        }
    }
}

/// The "Turn into" submenu of a block of kind `current`.
pub open spec fn turn_into_menu(current: Option<BlockKind>) -> Seq<MenuView> {
    seq![back_row()] + turn_into_rows(current, 13)
}

/// The rows of block `id`'s "Turn into" submenu.
pub fn fill_block_menu_turn_into(blocks: &[Block], id: i32) -> (r: Vec<MenuRow>)
    ensures
        shows(r@) == turn_into_menu(spec_block_kind(blocks@, id as u64)),
{
    let current = block_kind(blocks, id);
    let items: Vec<(BlockKind, &str)> = vec![
        (BlockKind::Paragraph, "Text"),
        (BlockKind::Toggle, "Toggle list"),
        (BlockKind::Image, "Image"),
        (BlockKind::File, "File"),
        (BlockKind::Table, "Table"),
        (BlockKind::Columns, "Columns"),
        (BlockKind::Callout, "Callout"),
        (BlockKind::Code, "Code"),
        (BlockKind::Math, "Math"),
        (BlockKind::Toc, "Table of contents"),
        (BlockKind::Embed, "Embed"),
        (BlockKind::Database, "Table view"),
        (BlockKind::Divider, "Divider"),
    ];
    let ghost want = items@.map_values(|t: (BlockKind, &str)| (t.0, t.1@));
    assert(want =~= turn_into_items());
    let mut rows = vec![row(8, "Back", "chevron-left", false, -1, false)];
    let mut i: usize = 0;
    while i < items.len()
        invariant
            items@.len() == 13,
            want == items@.map_values(|t: (BlockKind, &str)| (t.0, t.1@)),
            want == turn_into_items(),
            i <= 13,
            shows(rows@) == seq![back_row()] + turn_into_rows(current, i as int),
        decreases 13 - i,
    {
        let (kind, label) = items[i];
        let ghost before = shows(rows@);
        proof {
            assert(want[i as int] == (kind, label@));
        }
        let other = match current {
            Some(c) => c != kind,
            None => true,
        };
        if other {
            let menu_row = row(100 + kind_to_int(kind), label, turn_icon_of(kind), false, -1, false);
            rows.push(menu_row);
            proof {
                assert(shows(rows@) =~= before.push(menu_row@));
            }
        }
        i = i + 1;
        assert(shows(rows@) =~= seq![back_row()] + turn_into_rows(current, i as int));
    }
    rows
}

} // verus!
