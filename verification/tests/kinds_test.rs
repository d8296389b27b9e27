use quire::app::state::kinds::{BLOCK_DATABASE, BLOCK_H2, BLOCK_PARAGRAPH, BLOCK_TOC};
use quire::app::state::{kind_from_int, kind_to_int, BlockKind};

#[test]
fn every_kind_survives_its_menu_int() {
    for i in 0..=23 {
        assert_eq!(kind_to_int(kind_from_int(i)), i);
    }
    assert_eq!(kind_from_int(BLOCK_H2), BlockKind::Heading2);
    assert_eq!(kind_from_int(BLOCK_TOC), BlockKind::Toc);
    assert_eq!(kind_from_int(BLOCK_DATABASE), BlockKind::Database);
}

#[test]
fn an_unknown_int_is_a_paragraph() {
    for i in [-1, 24, 99, i32::MIN, i32::MAX] {
        assert_eq!(kind_from_int(i), BlockKind::Paragraph);
    }
    assert_eq!(kind_to_int(BlockKind::Paragraph), BLOCK_PARAGRAPH);
}

#[test]
fn only_headings_have_a_level() {
    assert_eq!(BlockKind::Heading1.heading_level(), Some(1));
    assert_eq!(BlockKind::Heading2.heading_level(), Some(2));
    assert_eq!(BlockKind::Heading3.heading_level(), Some(3));
    assert_eq!(BlockKind::Paragraph.heading_level(), None);
    assert_eq!(BlockKind::Toc.heading_level(), None);
}
