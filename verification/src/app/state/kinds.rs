//! Block kinds and the menu ints the UI knows them by.

use vstd::prelude::*;

verus! {

/// The kinds of block a page holds, in declaration order. The menu ids the
/// UI uses are these positions (see [`kind_to_int`]).
#[derive(Debug, Clone, Copy, PartialEq, Eq, Structural)]
pub enum BlockKind {
    Paragraph,
    Heading1,
    Heading2,
    Heading3,
    Bullet,
    Numbered,
    Todo,
    Quote,
    Code,
    Divider,
    Callout,
    Page,
    Link,
    Toggle,
    Image,
    File,
    Table,
    TableCell,
    Columns,
    Column,
    Math,
    Toc,
    Embed,
    Database,
}

/// The menu ints of the kinds, as the UI writes them.
pub const BLOCK_PARAGRAPH: i32 = 0;
pub const BLOCK_H1: i32 = 1;
pub const BLOCK_H2: i32 = 2;
pub const BLOCK_H3: i32 = 3;
pub const BLOCK_BULLET: i32 = 4;
pub const BLOCK_NUMBERED: i32 = 5;
pub const BLOCK_TODO: i32 = 6;
pub const BLOCK_QUOTE: i32 = 7;
pub const BLOCK_CODE: i32 = 8;
pub const BLOCK_DIVIDER: i32 = 9;
pub const BLOCK_CALLOUT: i32 = 10;
pub const BLOCK_PAGE: i32 = 11;
pub const BLOCK_LINK: i32 = 12;
pub const BLOCK_TOGGLE: i32 = 13;
pub const BLOCK_IMAGE: i32 = 14;
pub const BLOCK_FILE: i32 = 15;
pub const BLOCK_TABLE: i32 = 16;
pub const BLOCK_TABLE_CELL: i32 = 17;
pub const BLOCK_COLUMNS: i32 = 18;
pub const BLOCK_COLUMN: i32 = 19;
pub const BLOCK_MATH: i32 = 20;
pub const BLOCK_TOC: i32 = 21;
pub const BLOCK_EMBED: i32 = 22;
/// A database view. Its layout (table, board, ...) is the view's, not a
/// kind int: one kind, many layouts.
pub const BLOCK_DATABASE: i32 = 23;

/// The menu int of a kind: its position in the declaration order.
pub open spec fn kind_int(kind: BlockKind) -> int {
    match kind {
        BlockKind::Paragraph => 0,
        BlockKind::Heading1 => 1,
        BlockKind::Heading2 => 2,
        BlockKind::Heading3 => 3,
        BlockKind::Bullet => 4,
        BlockKind::Numbered => 5,
        BlockKind::Todo => 6,
        BlockKind::Quote => 7,
        BlockKind::Code => 8,
        BlockKind::Divider => 9,
        BlockKind::Callout => 10,
        BlockKind::Page => 11,
        BlockKind::Link => 12,
        BlockKind::Toggle => 13,
        BlockKind::Image => 14,
        BlockKind::File => 15,
        BlockKind::Table => 16,
        BlockKind::TableCell => 17,
        BlockKind::Columns => 18,
        BlockKind::Column => 19,
        BlockKind::Math => 20,
        BlockKind::Toc => 21,
        BlockKind::Embed => 22,
        BlockKind::Database => 23,
    }
}

/// The kind a menu int names; every int outside `0..=23` is a paragraph.
pub open spec fn kind_of_int(i: int) -> BlockKind {
    if i == 1 { BlockKind::Heading1 }
    else if i == 2 { BlockKind::Heading2 }
    else if i == 3 { BlockKind::Heading3 }
    else if i == 4 { BlockKind::Bullet }
    else if i == 5 { BlockKind::Numbered }
    else if i == 6 { BlockKind::Todo }
    else if i == 7 { BlockKind::Quote }
    else if i == 8 { BlockKind::Code }
    else if i == 9 { BlockKind::Divider }
    else if i == 10 { BlockKind::Callout }
    else if i == 11 { BlockKind::Page }
    else if i == 12 { BlockKind::Link }
    else if i == 13 { BlockKind::Toggle }
    else if i == 14 { BlockKind::Image }
    else if i == 15 { BlockKind::File }
    else if i == 16 { BlockKind::Table }
    else if i == 17 { BlockKind::TableCell }
    else if i == 18 { BlockKind::Columns }
    else if i == 19 { BlockKind::Column }
    else if i == 20 { BlockKind::Math }
    else if i == 21 { BlockKind::Toc }
    else if i == 22 { BlockKind::Embed }
    else if i == 23 { BlockKind::Database }
    else { BlockKind::Paragraph }
}

impl BlockKind {
    /// The heading level of a heading kind.
    pub open spec fn spec_heading_level(self) -> Option<u8> {
        match self {
            BlockKind::Heading1 => Some(1u8),
            BlockKind::Heading2 => Some(2u8),
            BlockKind::Heading3 => Some(3u8),
            _ => None,
        }
    }

    /// `1`, `2` or `3` for a heading, nothing for any other kind.
    #[verifier::when_used_as_spec(spec_heading_level)]
    pub fn heading_level(self) -> (r: Option<u8>)
        ensures
            r == self.spec_heading_level(),
    {
        match self {
            BlockKind::Heading1 => Some(1),
            BlockKind::Heading2 => Some(2),
            BlockKind::Heading3 => Some(3),
            _ => None,
        }
    }
}

/// BlockKind int (UI menu ids) -> kind; an unknown int is a paragraph.
pub fn kind_from_int(kind: i32) -> (r: BlockKind)
    ensures
        r == kind_of_int(kind as int),
{
    match kind {
        1 => BlockKind::Heading1,
        2 => BlockKind::Heading2,
        3 => BlockKind::Heading3,
        4 => BlockKind::Bullet,
        5 => BlockKind::Numbered,
        6 => BlockKind::Todo,
        7 => BlockKind::Quote,
        8 => BlockKind::Code,
        9 => BlockKind::Divider,
        10 => BlockKind::Callout,
        11 => BlockKind::Page,
        12 => BlockKind::Link,
        13 => BlockKind::Toggle,
        14 => BlockKind::Image,
        15 => BlockKind::File,
        16 => BlockKind::Table,
        17 => BlockKind::TableCell,
        18 => BlockKind::Columns,
        19 => BlockKind::Column,
        20 => BlockKind::Math,
        21 => BlockKind::Toc,
        22 => BlockKind::Embed,
        23 => BlockKind::Database,
        _ => BlockKind::Paragraph,
    }
}

/// Kind -> BlockKind int (the UI's menu id).
pub fn kind_to_int(kind: BlockKind) -> (r: i32)
    ensures
        r == kind_int(kind),
{
    match kind {
        BlockKind::Heading1 => 1,
        BlockKind::Heading2 => 2,
        BlockKind::Heading3 => 3,
        BlockKind::Bullet => 4,
        BlockKind::Numbered => 5,
        BlockKind::Todo => 6,
        BlockKind::Quote => 7,
        BlockKind::Code => 8,
        BlockKind::Divider => 9,
        BlockKind::Callout => 10,
        BlockKind::Page => 11,
        BlockKind::Link => 12,
        BlockKind::Toggle => 13,
        BlockKind::Image => 14,
        BlockKind::File => 15,
        BlockKind::Table => 16,
        BlockKind::TableCell => 17,
        BlockKind::Columns => 18,
        BlockKind::Column => 19,
        BlockKind::Math => 20,
        BlockKind::Toc => 21,
        BlockKind::Embed => 22,
        BlockKind::Database => 23,
        BlockKind::Paragraph => 0,
    }
}

/// Every kind survives the trip to its menu int and back.
pub proof fn lemma_kind_int_roundtrip(kind: BlockKind)
    ensures
        kind_of_int(kind_int(kind)) == kind,
        0 <= kind_int(kind) <= 23,
{
}

/// The menu ints `0..=23` are exactly the kinds' ints: decoding one and
/// encoding the kind gives the int back, and no two kinds share an int.
pub proof fn lemma_int_kind_roundtrip(i: int)
    requires
        0 <= i <= 23,
    ensures
        kind_int(kind_of_int(i)) == i,
{
}

/// Two kinds with one int are one kind.
pub proof fn lemma_kind_int_injective(a: BlockKind, b: BlockKind)
    requires
        kind_int(a) == kind_int(b),
    ensures
        a == b,
{
    lemma_kind_int_roundtrip(a);
    lemma_kind_int_roundtrip(b);
}

} // verus!
