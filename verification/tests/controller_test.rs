use quire::app::controller::{
    markdown_convert, numbered_prefix, renderer_id, renderer_id_for, renderer_name, renderer_name_for,
    RendererFeatures,
};
use quire::app::state::BlockKind;

#[test]
fn markdown_shortcuts_convert_and_strip() {
    let conv = |t: &str| markdown_convert(t, Some(BlockKind::Paragraph)).map(|(k, r, _)| (k, r));
    assert_eq!(conv("# "), Some((BlockKind::Heading1, "".to_string())));
    assert_eq!(conv("## Big"), Some((BlockKind::Heading2, "Big".into())));
    assert_eq!(conv("### Small"), Some((BlockKind::Heading3, "Small".into())));
    assert_eq!(conv("- item"), Some((BlockKind::Bullet, "item".into())));
    assert_eq!(conv("* item"), Some((BlockKind::Bullet, "item".into())));
    assert_eq!(conv("1. first"), Some((BlockKind::Numbered, "first".into())));
    assert_eq!(conv("12. x"), Some((BlockKind::Numbered, "x".into())));
    assert_eq!(conv("[] buy"), Some((BlockKind::Todo, "buy".into())));
    assert_eq!(conv("[ ] buy"), Some((BlockKind::Todo, "buy".into())));
    assert_eq!(conv("> note"), Some((BlockKind::Quote, "note".into())));
    assert_eq!(conv("---"), Some((BlockKind::Divider, "".into())));
    assert_eq!(conv("```"), Some((BlockKind::Code, "".into())));
    // non-triggers
    assert_eq!(conv("#no-space"), None);
    assert_eq!(conv("then # "), None);
    assert_eq!(conv("a. x"), None);
    assert_eq!(conv(". x"), None);
    assert_eq!(conv("-"), None);
    assert_eq!(conv("----"), None);
    assert_eq!(conv(""), None);
}

#[test]
fn markdown_shortcut_checked_todo_and_code_exemption() {
    // "[x] " lands checked
    let (kind, rest, checked) = markdown_convert("[x] done", Some(BlockKind::Paragraph)).unwrap();
    assert_eq!(kind, BlockKind::Todo);
    assert_eq!(rest, "done");
    assert_eq!(checked, Some(true));
    // an already-Todo block typing "[x] ": the fn still reports the intent,
    // the caller skips the toggle for same-kind blocks
    let (_, _, checked) = markdown_convert("[x] done", Some(BlockKind::Todo)).unwrap();
    assert_eq!(checked, Some(true));
    // code and divider text is exempt: "# " is legitimate content there
    assert_eq!(markdown_convert("# comment", Some(BlockKind::Code)), None);
    assert_eq!(markdown_convert("---", Some(BlockKind::Divider)), None);
}

#[test]
fn a_math_block_is_exempt_too_and_no_kind_is_not() {
    assert_eq!(markdown_convert("- x", Some(BlockKind::Math)), None);
    assert_eq!(
        markdown_convert("- x", None),
        Some((BlockKind::Bullet, "x".to_string(), None))
    );
}

#[test]
fn an_unchecked_todo_leaves_the_check_alone() {
    assert_eq!(
        markdown_convert("[ ] a", Some(BlockKind::Paragraph)),
        Some((BlockKind::Todo, "a".to_string(), None))
    );
    assert_eq!(
        markdown_convert("[] a", Some(BlockKind::Paragraph)),
        Some((BlockKind::Todo, "a".to_string(), None))
    );
    assert_eq!(
        markdown_convert("> q", Some(BlockKind::Paragraph)),
        Some((BlockKind::Quote, "q".to_string(), None))
    );
}

#[test]
fn a_formula_starts_with_two_dollars() {
    assert_eq!(
        markdown_convert("$$ x^2", Some(BlockKind::Paragraph)),
        Some((BlockKind::Math, "x^2".to_string(), None))
    );
    assert_eq!(
        markdown_convert("$$", Some(BlockKind::Paragraph)),
        Some((BlockKind::Math, String::new(), None))
    );
    assert_eq!(markdown_convert("$x", Some(BlockKind::Paragraph)), None);
}

#[test]
fn the_divider_and_fence_are_exact_tokens() {
    assert_eq!(markdown_convert("  ---  ", Some(BlockKind::Paragraph)), None);
    assert_eq!(markdown_convert("``` ", Some(BlockKind::Paragraph)), None);
    // the longest heading prefix wins
    assert_eq!(
        markdown_convert("### # x", Some(BlockKind::Paragraph)),
        Some((BlockKind::Heading3, "# x".to_string(), None))
    );
}

#[test]
fn a_numbered_prefix_needs_digits_a_dot_and_a_space() {
    assert_eq!(numbered_prefix("12. x"), Some("x"));
    assert_eq!(numbered_prefix("3. "), Some(""));
    assert_eq!(numbered_prefix("3.x"), None);
    assert_eq!(numbered_prefix(". x"), None);
    assert_eq!(numbered_prefix("a. x"), None);
    assert_eq!(numbered_prefix(""), None);
}

fn features(femtovg: bool, femtovg_wgpu: bool, skia: bool, skia_opengl: bool, software: bool) -> RendererFeatures {
    RendererFeatures { femtovg, femtovg_wgpu, skia, skia_opengl, software }
}

#[test]
fn the_renderer_is_named_by_the_first_backend_present() {
    assert_eq!(renderer_id_for(features(true, true, true, true, true)), "femtovg");
    assert_eq!(renderer_name_for(features(true, true, true, true, true)), "FemtoVG · GL");
    assert_eq!(renderer_id_for(features(false, true, false, false, true)), "femtovg-wgpu");
    assert_eq!(renderer_name_for(features(false, true, false, false, true)), "FemtoVG · wgpu");
    assert_eq!(renderer_id_for(features(false, false, false, true, true)), "skia");
    assert_eq!(renderer_name_for(features(false, false, false, true, true)), "Skia · GL");
    assert_eq!(renderer_name_for(features(false, false, true, true, false)), "Skia");
    assert_eq!(renderer_id_for(features(false, false, false, false, true)), "software");
    assert_eq!(renderer_name_for(features(false, false, false, false, true)), "Software");
    assert_eq!(renderer_id_for(features(false, false, false, false, false)), "unknown");
}

#[test]
fn a_build_without_a_backend_reports_unknown() {
    assert_eq!(renderer_id(), "unknown");
    assert_eq!(renderer_name(), "unknown");
}

use quire::app::controller::{find_inserted_cell_id, find_inserted_id, find_inserted_line_id, Change};

#[test]
fn the_caret_lands_on_the_first_block_of_the_right_kind() {
    let changes = [
        Change::Other,
        Change::BlockInserted { id: 40, kind: BlockKind::Table },
        Change::BlockInserted { id: 41, kind: BlockKind::TableCell },
        Change::BlockInserted { id: 42, kind: BlockKind::TableCell },
        Change::BlockInserted { id: 50, kind: BlockKind::Paragraph },
    ];
    assert_eq!(find_inserted_id(&changes), Some(40));
    assert_eq!(find_inserted_cell_id(&changes), Some(41));
    assert_eq!(find_inserted_line_id(&changes), Some(50));
    assert_eq!(find_inserted_id(&[Change::Other]), None);
    assert_eq!(find_inserted_cell_id(&changes[..2]), None);
}
