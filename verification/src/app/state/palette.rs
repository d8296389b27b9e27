//! The command palette: its rows, and what each row's id means.

use vstd::prelude::*;
use crate::app::state::bench::{fuzzy_subsequence, spec_fuzzy};

verus! {

pub const CMD_NEW_PAGE: i32 = 1;
pub const CMD_SEARCH: i32 = 2;
pub const CMD_TOGGLE_SIDEBAR: i32 = 3;
pub const CMD_TOGGLE_THEME: i32 = 4;
pub const CMD_SETTINGS: i32 = 5;
pub const CMD_RENAME_PAGE: i32 = 6;
pub const CMD_DUPLICATE_PAGE: i32 = 7;
pub const CMD_DELETE_PAGE: i32 = 8;
pub const CMD_EXPORT_PAGE: i32 = 9;
pub const CMD_IMPORT_MD: i32 = 10;
/// Copy the open page's markdown onto the clipboard.
pub const CMD_COPY_MD: i32 = 11;
/// Retrace / re-advance the session's page navigation.
pub const CMD_NAV_BACK: i32 = 12;
pub const CMD_NAV_FORWARD: i32 = 13;
/// Jump-to-page commands are 10 000 + page id.
pub const CMD_PAGE_BASE: i32 = 10000;

/// What a palette row means, resolved from its id in exactly one place.
#[derive(Debug, Clone, Copy, PartialEq, Eq, Structural)]
pub enum PaletteAction {
    NewPage,
    SearchPages,
    ToggleSidebar,
    ToggleTheme,
    Settings,
    RenamePage,
    DuplicatePage,
    DeletePage,
    ExportMarkdown,
    ImportMarkdown,
    CopyMarkdown,
    NavigateBack,
    NavigateForward,
    OpenPage(i32),
    /// An id that no row carries.
    NoAction,
}

/// The action of a palette id: the thirteen command ids, a jump to page
/// `id - 10 000` from 10 000 up, and nothing for every other id.
pub open spec fn spec_palette_action(id: i32) -> PaletteAction {
    if id == 1 {
        PaletteAction::NewPage
    } else if id == 2 {
        PaletteAction::SearchPages
    } else if id == 3 {
        PaletteAction::ToggleSidebar
    } else if id == 4 {
        PaletteAction::ToggleTheme
    } else if id == 5 {
        PaletteAction::Settings
    } else if id == 6 {
        PaletteAction::RenamePage
    } else if id == 7 {
        PaletteAction::DuplicatePage
    } else if id == 8 {
        PaletteAction::DeletePage
    } else if id == 9 {
        PaletteAction::ExportMarkdown
    } else if id == 10 {
        PaletteAction::ImportMarkdown
    } else if id == 11 {
        PaletteAction::CopyMarkdown
    } else if id == 12 {
        PaletteAction::NavigateBack
    } else if id == 13 {
        PaletteAction::NavigateForward
    } else if id >= 10000 {
        PaletteAction::OpenPage((id - 10000) as i32)
    } else {
        PaletteAction::NoAction
    }
}

pub fn palette_action(id: i32) -> (r: PaletteAction)
    ensures
        r == spec_palette_action(id),
{
    match id {
        CMD_NEW_PAGE => PaletteAction::NewPage,
        CMD_SEARCH => PaletteAction::SearchPages,
        CMD_TOGGLE_SIDEBAR => PaletteAction::ToggleSidebar,
        CMD_TOGGLE_THEME => PaletteAction::ToggleTheme,
        CMD_SETTINGS => PaletteAction::Settings,
        CMD_RENAME_PAGE => PaletteAction::RenamePage,
        CMD_DUPLICATE_PAGE => PaletteAction::DuplicatePage,
        CMD_DELETE_PAGE => PaletteAction::DeletePage,
        CMD_EXPORT_PAGE => PaletteAction::ExportMarkdown,
        CMD_IMPORT_MD => PaletteAction::ImportMarkdown,
        CMD_COPY_MD => PaletteAction::CopyMarkdown,
        CMD_NAV_BACK => PaletteAction::NavigateBack,
        CMD_NAV_FORWARD => PaletteAction::NavigateForward,
        page if page >= CMD_PAGE_BASE => PaletteAction::OpenPage(page - CMD_PAGE_BASE),
        _ => PaletteAction::NoAction,
    }
}

/// One palette row.
pub struct CommandRow {
    pub id: i32,
    pub name: String,
    pub hint: String,
    pub section: String,
    pub icon: String,
}

/// The built-in rows, in palette order: (id, name, hint, section, icon).
pub open spec fn builtin_command(k: int) -> (i32, Seq<char>, Seq<char>, Seq<char>, Seq<char>) {
    if k == 0 {
        (1i32, "New Page"@, "Ctrl+N"@, "Editor"@, "plus"@)
    } else if k == 1 {
        (2i32, "Search Pages…"@, "Ctrl+P"@, "Navigate"@, "search"@)
    } else if k == 2 {
        (3i32, "Toggle Sidebar"@, "Ctrl+\\"@, "Interface"@, "panel-left"@)
    } else if k == 3 {
        (4i32, "Toggle Dark Mode"@, "Ctrl+Shift+L"@, "Interface"@, "moon"@)
    } else if k == 4 {
        (5i32, "Settings"@, ""@, "Navigate"@, "settings"@)
    } else if k == 5 {
        (6i32, "Rename Page"@, "F2"@, "Page"@, "pencil"@)
    } else if k == 6 {
        (7i32, "Duplicate Page"@, ""@, "Page"@, "copy"@)
    } else if k == 7 {
        (8i32, "Delete Page"@, ""@, "Page"@, "trash"@)
    } else if k == 8 {
        (9i32, "Export Page as Markdown…"@, ""@, "Page"@, "export"@)
    } else if k == 9 {
        (10i32, "Import Markdown…"@, ""@, "Page"@, "import"@)
    } else if k == 10 {
        (11i32, "Copy Page as Markdown"@, ""@, "Page"@, "copy"@)
    } else if k == 11 {
        (12i32, "Go Back"@, "Alt+Left"@, "Navigate"@, "arrow-left"@)
    } else {
        (13i32, "Go Forward"@, "Alt+Right"@, "Navigate"@, "arrow-right"@)
    }
}

pub const BUILTIN_COMMANDS: usize = 13;

/// The pages that get a jump row: every page below `bench_id_base`, in the
/// order given.
pub open spec fn jump_pages(pages: Seq<(i32, String)>, bench_id_base: i32) -> Seq<(i32, String)>
    decreases pages.len(),
{
    if pages.len() == 0 {
        Seq::empty()
    } else {
        let rest = jump_pages(pages.drop_last(), bench_id_base);
        if pages.last().0 < bench_id_base {
            rest.push(pages.last())
        } else {
            rest
        }
    }
}

/// `row` is the command (id, name, hint, section, icon).
pub open spec fn row_is(
    row: CommandRow,
    c: (i32, Seq<char>, Seq<char>, Seq<char>, Seq<char>),
) -> bool {
    &&& row.id == c.0
    &&& row.name@ == c.1
    &&& row.hint@ == c.2
    &&& row.section@ == c.3
    &&& row.icon@ == c.4
}

/// The rows the palette lists for `pages` (the workspace's pages in tree
/// order, each with its title): the built-in commands, then one "Jump to
/// page" row per page below `bench_id_base`.
pub open spec fn commands_match(rows: Seq<CommandRow>, pages: Seq<(i32, String)>, bench_id_base: i32) -> bool {
    let jumps = jump_pages(pages, bench_id_base);
    &&& rows.len() == BUILTIN_COMMANDS + jumps.len()
    &&& forall|k: int| 0 <= k < BUILTIN_COMMANDS ==> row_is(#[trigger] rows[k], builtin_command(k))
    &&& forall|j: int|
        0 <= j < jumps.len() ==> row_is(
            #[trigger] rows[BUILTIN_COMMANDS + j],
            (
                (CMD_PAGE_BASE + jumps[j].0) as i32,
                jumps[j].1@,
                ""@,
                "Jump to page"@,
                "page"@,
            ),
        )
}

fn push_command(v: &mut Vec<CommandRow>, id: i32, name: &str, hint: &str, section: &str, icon: &str)
    ensures
        final(v)@.len() == old(v)@.len() + 1,
        forall|k: int| 0 <= k < old(v)@.len() ==> final(v)@[k] == old(v)@[k],
        row_is(final(v)@.last(), (id, name@, hint@, section@, icon@)),
{
    v.push(
        CommandRow {
            id,
            name: String::from_str(name),
            hint: String::from_str(hint),
            section: String::from_str(section),
            icon: String::from_str(icon),
        },
    );
}

/// The palette's rows: the commands, then a "Jump to page" row for every
/// page (in tree order) below `bench_id_base`.
pub fn mock_commands(pages: &[(i32, String)], bench_id_base: i32) -> (v: Vec<CommandRow>)
    requires
        forall|k: int|
            0 <= k < pages@.len() && (#[trigger] pages@[k]).0 < bench_id_base ==> pages@[k].0
                <= i32::MAX - CMD_PAGE_BASE,
    ensures
        commands_match(v@, pages@, bench_id_base),
{
    let mut v: Vec<CommandRow> = Vec::new();
    push_command(&mut v, CMD_NEW_PAGE, "New Page", "Ctrl+N", "Editor", "plus");
    push_command(&mut v, CMD_SEARCH, "Search Pages…", "Ctrl+P", "Navigate", "search");
    push_command(&mut v, CMD_TOGGLE_SIDEBAR, "Toggle Sidebar", "Ctrl+\\", "Interface", "panel-left");
    push_command(&mut v, CMD_TOGGLE_THEME, "Toggle Dark Mode", "Ctrl+Shift+L", "Interface", "moon");
    push_command(&mut v, CMD_SETTINGS, "Settings", "", "Navigate", "settings");
    push_command(&mut v, CMD_RENAME_PAGE, "Rename Page", "F2", "Page", "pencil");
    push_command(&mut v, CMD_DUPLICATE_PAGE, "Duplicate Page", "", "Page", "copy");
    push_command(&mut v, CMD_DELETE_PAGE, "Delete Page", "", "Page", "trash");
    push_command(&mut v, CMD_EXPORT_PAGE, "Export Page as Markdown…", "", "Page", "export");
    push_command(&mut v, CMD_IMPORT_MD, "Import Markdown…", "", "Page", "import");
    push_command(&mut v, CMD_COPY_MD, "Copy Page as Markdown", "", "Page", "copy");
    push_command(&mut v, CMD_NAV_BACK, "Go Back", "Alt+Left", "Navigate", "arrow-left");
    push_command(&mut v, CMD_NAV_FORWARD, "Go Forward", "Alt+Right", "Navigate", "arrow-right");
    assert forall|k: int| 0 <= k < BUILTIN_COMMANDS implies row_is(
        #[trigger] v@[k],
        builtin_command(k),
    ) by {}
    let mut i: usize = 0;
    while i < pages.len()
        invariant
            i <= pages@.len(),
            forall|k: int|
                0 <= k < pages@.len() && (#[trigger] pages@[k]).0 < bench_id_base ==> pages@[k].0
                    <= i32::MAX - CMD_PAGE_BASE,
            commands_match(v@, pages@.take(i as int), bench_id_base),
        decreases pages@.len() - i,
    {
        let ghost prev = v@;
        let id = pages[i].0;
        assert(pages@.take(i + 1).drop_last() =~= pages@.take(i as int));
        if id < bench_id_base {
            push_command(&mut v, CMD_PAGE_BASE + id, pages[i].1.as_str(), "", "Jump to page", "page");
        }
        i = i + 1;
        proof {
            let jumps = jump_pages(pages@.take(i as int), bench_id_base);
            let before = jump_pages(pages@.take(i - 1), bench_id_base);
            assert forall|k: int| 0 <= k < BUILTIN_COMMANDS implies row_is(
                #[trigger] v@[k],
                builtin_command(k),
            ) by {
                assert(v@[k] == prev[k]);
            }
            assert forall|j: int| 0 <= j < jumps.len() implies row_is(
                #[trigger] v@[BUILTIN_COMMANDS + j],
                (
                    (CMD_PAGE_BASE + jumps[j].0) as i32,
                    jumps[j].1@,
                    ""@,
                    "Jump to page"@,
                    "page"@,
                ),
            ) by {
                if j < before.len() {
                    assert(jumps[j] == before[j]);
                    assert(v@[BUILTIN_COMMANDS + j] == prev[BUILTIN_COMMANDS + j]);
                }
            }
        }
    }
    assert(pages@.take(pages@.len() as int) =~= pages@);
    v
}


// ---- laws ----

proof fn lemma_jump_pages_from(pages: Seq<(i32, String)>, bench_id_base: i32)
    ensures
        forall|j: int|
            0 <= j < jump_pages(pages, bench_id_base).len() ==> {
                &&& (#[trigger] jump_pages(pages, bench_id_base)[j]).0 < bench_id_base
                &&& pages.contains(jump_pages(pages, bench_id_base)[j])
            },
        (forall|a: int, b: int|
            0 <= a < b < pages.len() ==> (#[trigger] pages[a]).0 != (#[trigger] pages[b]).0) ==> (
        forall|a: int, b: int|
            0 <= a < b < jump_pages(pages, bench_id_base).len() ==> (#[trigger] jump_pages(
                pages,
                bench_id_base,
            )[a]).0 != (#[trigger] jump_pages(pages, bench_id_base)[b]).0),
    decreases pages.len(),
{
    if pages.len() > 0 {
        let init = pages.drop_last();
        lemma_jump_pages_from(init, bench_id_base);
        let rest = jump_pages(init, bench_id_base);
        let jumps = jump_pages(pages, bench_id_base);
        assert forall|j: int| 0 <= j < jumps.len() implies pages.contains(#[trigger] jumps[j]) by {
            if j < rest.len() {
                let k = choose|k: int| 0 <= k < init.len() && init[k] == rest[j];
                assert(pages[k] == rest[j]);
            } else {
                assert(pages[pages.len() - 1] == jumps[j]);
            }
        }
        if forall|a: int, b: int|
            0 <= a < b < pages.len() ==> (#[trigger] pages[a]).0 != (#[trigger] pages[b]).0 {
            assert forall|a: int, b: int|
                0 <= a < b < init.len() implies (#[trigger] init[a]).0 != (#[trigger] init[b]).0 by {
                assert(init[a] == pages[a] && init[b] == pages[b]);
            }
            assert forall|a: int, b: int|
                0 <= a < b < jumps.len() implies (#[trigger] jumps[a]).0 != (#[trigger] jumps[b]).0 by {
                if b == rest.len() {
                    let k = choose|k: int| 0 <= k < init.len() && init[k] == rest[a];
                    assert(pages[k] == init[k]);
                    assert(jumps[b] == pages[pages.len() - 1]);
                }
            }
        }
    }
}

/// Every palette row resolves to an action of its own: the thirteen
/// commands each to a different action, a jump row to its own page, and no
/// row to nothing. With distinct page ids, no two rows share an id either.
pub proof fn lemma_every_row_resolves_to_its_own_action(
    rows: Seq<CommandRow>,
    pages: Seq<(i32, String)>,
    bench_id_base: i32,
)
    requires
        commands_match(rows, pages, bench_id_base),
        forall|k: int| 0 <= k < pages.len() ==> (#[trigger] pages[k]).0 > 0,
        forall|k: int|
            0 <= k < pages.len() && (#[trigger] pages[k]).0 < bench_id_base ==> pages[k].0
                <= i32::MAX - CMD_PAGE_BASE,
    ensures
        forall|k: int|
            0 <= k < rows.len() ==> spec_palette_action(#[trigger] rows[k].id)
                != PaletteAction::NoAction,
        forall|a: int, b: int|
            0 <= a < b < BUILTIN_COMMANDS ==> spec_palette_action(#[trigger] rows[a].id)
                != spec_palette_action(#[trigger] rows[b].id),
        forall|j: int|
            0 <= j < jump_pages(pages, bench_id_base).len() ==> spec_palette_action(
                #[trigger] rows[BUILTIN_COMMANDS + j].id,
            ) == PaletteAction::OpenPage(jump_pages(pages, bench_id_base)[j].0),
        (forall|a: int, b: int|
            0 <= a < b < pages.len() ==> (#[trigger] pages[a]).0 != (#[trigger] pages[b]).0) ==> (
        forall|a: int, b: int|
            0 <= a < b < rows.len() ==> (#[trigger] rows[a]).id != (#[trigger] rows[b]).id),
{
    let jumps = jump_pages(pages, bench_id_base);
    lemma_jump_pages_from(pages, bench_id_base);
    assert forall|j: int| 0 <= j < jumps.len() implies 0 < #[trigger] jumps[j].0 <= i32::MAX
        - CMD_PAGE_BASE by {
        let k = choose|k: int| 0 <= k < pages.len() && pages[k] == jumps[j];
        assert(pages[k].0 > 0);
    }
    assert forall|k: int| 0 <= k < rows.len() implies spec_palette_action(#[trigger] rows[k].id)
        != PaletteAction::NoAction by {
        if k < BUILTIN_COMMANDS {
            assert(row_is(rows[k], builtin_command(k)));
        } else {
            assert(row_is(rows[BUILTIN_COMMANDS + (k - BUILTIN_COMMANDS)], (
                (CMD_PAGE_BASE + jumps[k - BUILTIN_COMMANDS].0) as i32,
                jumps[k - BUILTIN_COMMANDS].1@,
                ""@,
                "Jump to page"@,
                "page"@,
            )));
        }
    }
    assert forall|a: int, b: int| 0 <= a < b < BUILTIN_COMMANDS implies spec_palette_action(
        #[trigger] rows[a].id,
    ) != spec_palette_action(#[trigger] rows[b].id) by {
        assert(row_is(rows[a], builtin_command(a)));
        assert(row_is(rows[b], builtin_command(b)));
    }
    assert forall|j: int| 0 <= j < jumps.len() implies spec_palette_action(
        #[trigger] rows[BUILTIN_COMMANDS + j].id,
    ) == PaletteAction::OpenPage(jumps[j].0) by {
        assert(row_is(rows[BUILTIN_COMMANDS + j], (
            (CMD_PAGE_BASE + jumps[j].0) as i32,
            jumps[j].1@,
            ""@,
            "Jump to page"@,
            "page"@,
        )));
    }
    if forall|a: int, b: int|
        0 <= a < b < pages.len() ==> (#[trigger] pages[a]).0 != (#[trigger] pages[b]).0 {
        assert forall|a: int, b: int| 0 <= a < b < rows.len() implies (#[trigger] rows[a]).id != (
        #[trigger] rows[b]).id by {
            if b < BUILTIN_COMMANDS {
                assert(row_is(rows[a], builtin_command(a)));
                assert(row_is(rows[b], builtin_command(b)));
            } else if a < BUILTIN_COMMANDS {
                assert(row_is(rows[a], builtin_command(a)));
                assert(row_is(rows[BUILTIN_COMMANDS + (b - BUILTIN_COMMANDS)], (
                    (CMD_PAGE_BASE + jumps[b - BUILTIN_COMMANDS].0) as i32,
                    jumps[b - BUILTIN_COMMANDS].1@,
                    ""@,
                    "Jump to page"@,
                    "page"@,
                )));
            } else {
                let ja = a - BUILTIN_COMMANDS;
                let jb = b - BUILTIN_COMMANDS;
                assert(row_is(rows[BUILTIN_COMMANDS + ja], (
                    (CMD_PAGE_BASE + jumps[ja].0) as i32,
                    jumps[ja].1@,
                    ""@,
                    "Jump to page"@,
                    "page"@,
                )));
                assert(row_is(rows[BUILTIN_COMMANDS + jb], (
                    (CMD_PAGE_BASE + jumps[jb].0) as i32,
                    jumps[jb].1@,
                    ""@,
                    "Jump to page"@,
                    "page"@,
                )));
                assert(jumps[ja].0 != jumps[jb].0);
            }
        }
    }
}

/// Nothing between the command block and the page block reaches a handler:
/// the ids from 14 to 9 999, and every id below 1, are no action.
pub proof fn lemma_unknown_ids_do_nothing(id: i32)
    ensures
        (id < 1 || 14 <= id < CMD_PAGE_BASE) <==> spec_palette_action(id)
            == PaletteAction::NoAction,
        id >= CMD_PAGE_BASE ==> spec_palette_action(id) == PaletteAction::OpenPage(
            (id - CMD_PAGE_BASE) as i32,
        ),
{
}

// ---- filtering by what was typed ----

/// What a palette row shows: id, name, hint, section, icon.
pub open spec fn command_view(c: CommandRow) -> (i32, Seq<char>, Seq<char>, Seq<char>, Seq<char>) {
    (c.id, c.name@, c.hint@, c.section@, c.icon@)
}

/// The first `n` rows whose name the query fuzzily matches, in order.
pub open spec fn matching_commands(rows: Seq<CommandRow>, query: Seq<char>, n: int) -> Seq<
    (i32, Seq<char>, Seq<char>, Seq<char>, Seq<char>),
>
    decreases n,
{
    if n <= 0 {
        Seq::empty()
    } else if spec_fuzzy(query, rows[n - 1].name@) {
        matching_commands(rows, query, n - 1).push(command_view(rows[n - 1]))
    } else {
        matching_commands(rows, query, n - 1)
    }
}

/// The rows the palette lists for `query`: all of them while it is empty,
/// else those whose name it fuzzily matches.
pub open spec fn palette_rows(rows: Seq<CommandRow>, query: Seq<char>) -> Seq<
    (i32, Seq<char>, Seq<char>, Seq<char>, Seq<char>),
> {
    if query.len() == 0 {
        rows.map_values(|c: CommandRow| command_view(c))
    } else {
        matching_commands(rows, query, rows.len() as int)
    }
}

fn copy_command(c: &CommandRow) -> (r: CommandRow)
    ensures
        command_view(r) == command_view(*c),
{
    CommandRow {
        id: c.id,
        name: c.name.clone(),
        hint: c.hint.clone(),
        section: c.section.clone(),
        icon: c.icon.clone(),
    }
}

/// The palette's rows for what was typed into it, out of all its rows.
pub fn set_query(all: &[CommandRow], query: &str) -> (r: Vec<CommandRow>)
    ensures
        r@.map_values(|c: CommandRow| command_view(c)) == palette_rows(all@, query@),
{
    let empty = query.unicode_len() == 0;
    let mut out: Vec<CommandRow> = Vec::new();
    let mut i: usize = 0;
    while i < all.len()
        invariant
            i <= all@.len(),
            empty == (query@.len() == 0),
            out@.map_values(|c: CommandRow| command_view(c)) == if empty {
                all@.take(i as int).map_values(|c: CommandRow| command_view(c))
            } else {
                matching_commands(all@, query@, i as int)
            },
        decreases all@.len() - i,
    {
        let ghost before = out@.map_values(|c: CommandRow| command_view(c));
        if empty || fuzzy_subsequence(query, all[i].name.as_str()) {
            let row = copy_command(&all[i]);
            out.push(row);
            proof {
                assert(out@.map_values(|c: CommandRow| command_view(c)) =~= before.push(
                    command_view(all@[i as int]),
                ));
            }
        }
        proof {
            assert(all@.take(i + 1).map_values(|c: CommandRow| command_view(c)) =~= all@.take(
                i as int,
            ).map_values(|c: CommandRow| command_view(c)).push(command_view(all@[i as int])));
        }
        i = i + 1;
    }
    proof {
        assert(all@.take(all@.len() as int) =~= all@);
    }
    out
}

} // verus!
