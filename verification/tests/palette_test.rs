use quire::app::state::palette::{
    mock_commands, palette_action, PaletteAction, BUILTIN_COMMANDS, CMD_COPY_MD, CMD_NAV_BACK,
    CMD_NAV_FORWARD, CMD_NEW_PAGE, CMD_PAGE_BASE,
};

/// The bench fixture pages start here; they get no jump row.
const BENCH_ID_BASE: i32 = 1_000_000;

/// A small workspace's pages in tree order, with their titles.
fn sample_pages() -> Vec<(i32, String)> {
    vec![
        (101, "Atlas".to_string()),
        (102, "Getting started".to_string()),
        (103, "Weekly review".to_string()),
        (112, "写作与中文测试".to_string()),
        (113, "Scratchpad".to_string()),
        (BENCH_ID_BASE + 1, "Bench 1".to_string()),
    ]
}

#[test]
fn the_palette_carries_the_navigation_commands() {
    let cmds = mock_commands(&sample_pages(), BENCH_ID_BASE);
    for (id, name) in [(CMD_NAV_BACK, "Go Back"), (CMD_NAV_FORWARD, "Go Forward")] {
        let row = cmds.iter().find(|c| c.id == id).expect("row present");
        assert_eq!(row.name.as_str(), name);
        assert_eq!(row.section.as_str(), "Navigate");
    }
}

#[test]
fn every_palette_row_resolves_to_its_own_action() {
    let cmds = mock_commands(&sample_pages(), BENCH_ID_BASE);
    assert!(!cmds.is_empty());
    let mut actions: Vec<PaletteAction> = Vec::new();
    for row in &cmds {
        let action = palette_action(row.id);
        assert_ne!(
            action,
            PaletteAction::NoAction,
            "row {:?} (id {}) maps to no action",
            row.name.as_str(),
            row.id
        );
        if !matches!(action, PaletteAction::OpenPage(_)) {
            assert!(
                !actions.contains(&action),
                "two rows share the action {action:?} — one of them is dead"
            );
            actions.push(action);
        }
    }
    // the ids themselves are unique too, or the palette cannot select one
    let mut ids: Vec<i32> = cmds.iter().map(|c| c.id).collect();
    ids.sort_unstable();
    let before = ids.len();
    ids.dedup();
    assert_eq!(ids.len(), before, "two palette rows carry the same id");
}

#[test]
fn a_jump_row_carries_its_page_id_and_an_unknown_id_does_nothing() {
    assert_eq!(palette_action(CMD_PAGE_BASE + 42), PaletteAction::OpenPage(42));
    // nothing between the command block and the page block, and nothing
    // the palette could invent, may reach a handler
    for id in [0, 14, 9_999, -1] {
        assert_eq!(palette_action(id), PaletteAction::NoAction, "id {id}");
    }
}

#[test]
fn the_jump_rows_follow_the_commands_in_tree_order_and_skip_bench_pages() {
    let cmds = mock_commands(&sample_pages(), BENCH_ID_BASE);
    assert_eq!(cmds.len(), BUILTIN_COMMANDS + 5);
    assert_eq!(cmds[0].id, CMD_NEW_PAGE);
    assert_eq!(cmds[0].hint, "Ctrl+N");
    assert_eq!(cmds[10].id, CMD_COPY_MD);
    let jumps: Vec<(i32, &str)> = cmds[BUILTIN_COMMANDS..]
        .iter()
        .map(|c| (c.id, c.name.as_str()))
        .collect();
    assert_eq!(
        jumps,
        vec![
            (CMD_PAGE_BASE + 101, "Atlas"),
            (CMD_PAGE_BASE + 102, "Getting started"),
            (CMD_PAGE_BASE + 103, "Weekly review"),
            (CMD_PAGE_BASE + 112, "写作与中文测试"),
            (CMD_PAGE_BASE + 113, "Scratchpad"),
        ]
    );
    for c in &cmds[BUILTIN_COMMANDS..] {
        assert_eq!(c.section, "Jump to page");
        assert_eq!(c.icon, "page");
        assert_eq!(c.hint, "");
    }
}

#[test]
fn each_command_id_names_its_command() {
    let expected = [
        (1, PaletteAction::NewPage),
        (2, PaletteAction::SearchPages),
        (3, PaletteAction::ToggleSidebar),
        (4, PaletteAction::ToggleTheme),
        (5, PaletteAction::Settings),
        (6, PaletteAction::RenamePage),
        (7, PaletteAction::DuplicatePage),
        (8, PaletteAction::DeletePage),
        (9, PaletteAction::ExportMarkdown),
        (10, PaletteAction::ImportMarkdown),
        (11, PaletteAction::CopyMarkdown),
        (12, PaletteAction::NavigateBack),
        (13, PaletteAction::NavigateForward),
        (CMD_PAGE_BASE, PaletteAction::OpenPage(0)),
        (i32::MAX, PaletteAction::OpenPage(i32::MAX - CMD_PAGE_BASE)),
    ];
    for (id, action) in expected {
        assert_eq!(palette_action(id), action, "id {id}");
    }
}
