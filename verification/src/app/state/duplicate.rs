//! Copies: a duplicated page's blocks, under fresh ids with every parent
//! link pointing at the copy of its parent, and what pasting a copied block
//! inserts.

use vstd::prelude::*;
use crate::app::state::kinds::BlockKind;
use crate::app::state::projection::Block;
use crate::app::state::runs::Mark;
use std::collections::HashMap;

verus! {

/// Two marks alike, field by field.
pub open spec fn same_mark(a: Mark, b: Mark) -> bool {
    a.start == b.start && a.end == b.end && a.kind == b.kind && a.url@ == b.url@
}

/// Two mark lists alike, mark by mark.
pub open spec fn same_marks(a: Seq<Mark>, b: Seq<Mark>) -> bool {
    a.len() == b.len() && forall|i: int| 0 <= i < a.len() ==> same_mark(#[trigger] a[i], b[i])
}

/// `c` is `b` under the id `id` with the parent `parent`; everything else
/// is carried over.
pub open spec fn copy_of(c: Block, b: Block, id: u64, parent: Option<u64>) -> bool {
    &&& c.id == id
    &&& c.parent == parent
    &&& c.order == b.order
    &&& c.kind == b.kind
    &&& c.text@ == b.text@
    &&& c.checked == b.checked
    &&& same_marks(c.marks@, b.marks@)
    &&& c.color == b.color
    &&& c.background == b.background
    &&& c.folded == b.folded
    &&& c.page_ref == b.page_ref
    &&& c.attachment == b.attachment
    &&& c.img_percent == b.img_percent
    &&& c.columns == b.columns
}

/// Each of the first `n` source ids, to the id of its copy: the block at
/// position `j` becomes `start + j` (for an id the page repeats, the last
/// block with it wins).
pub open spec fn id_map(src: Seq<Block>, start: u64, n: int) -> Map<u64, u64>
    decreases n,
{
    if n <= 0 {
        Map::empty()
    } else {
        id_map(src, start, n - 1).insert(src[n - 1].id, (start + (n - 1)) as u64)
    }
}

/// A copy's parent: the copy of the original's parent, or none when the
/// parent is not among the copied blocks.
pub open spec fn copied_parent(src: Seq<Block>, start: u64, parent: Option<u64>) -> Option<u64> {
    match parent {
        None => None,
        Some(p) => if id_map(src, start, src.len() as int).contains_key(p) {
            Some(id_map(src, start, src.len() as int)[p])
        } else {
            None
        },
    }
}

fn copy_marks(marks: &Vec<Mark>) -> (r: Vec<Mark>)
    ensures
        same_marks(r@, marks@),
{
    let mut out: Vec<Mark> = Vec::new();
    let mut i: usize = 0;
    while i < marks.len()
        invariant
            i <= marks@.len(),
            out@.len() == i,
            forall|j: int| 0 <= j < i ==> same_mark(#[trigger] out@[j], marks@[j]),
        decreases marks@.len() - i,
    {
        let m = &marks[i];
        out.push(Mark { start: m.start, end: m.end, kind: m.kind, url: m.url.clone() });
        i = i + 1;
    }
    out
}

fn copy_with_id(b: &Block, id: u64, parent: Option<u64>) -> (r: Block)
    ensures
        copy_of(r, *b, id, parent),
{
    Block {
        id,
        parent,
        order: b.order,
        kind: b.kind,
        text: b.text.clone(),
        checked: b.checked,
        marks: copy_marks(&b.marks),
        color: b.color,
        background: b.background,
        folded: b.folded,
        page_ref: b.page_ref,
        attachment: b.attachment,
        img_percent: b.img_percent,
        columns: b.columns,
    }
}

/// The blocks of a page's duplicate: the source page's blocks in order, the
/// block at position `i` under the reserved id `start + i`, its parent the
/// copy of its original parent (none when that parent was not copied).
pub fn copy_page_blocks(src: &[Block], start: u64) -> (r: Vec<Block>)
    requires
        start + src@.len() <= u64::MAX,
    ensures
        r@.len() == src@.len(),
        forall|i: int|
            0 <= i < src@.len() ==> copy_of(
                #[trigger] r@[i],
                src@[i],
                (start + i) as u64,
                copied_parent(src@, start, src@[i].parent),
            ),
{
    broadcast use vstd::std_specs::hash::group_hash_axioms;

    let mut map: HashMap<u64, u64> = HashMap::new();
    let mut i: usize = 0;
    while i < src.len()
        invariant
            i <= src@.len(),
            start + src@.len() <= u64::MAX,
            map@ == id_map(src@, start, i as int),
        decreases src@.len() - i,
    {
        map.insert(src[i].id, start + i as u64);
        i = i + 1;
    }
    let mut out: Vec<Block> = Vec::new();
    let mut k: usize = 0;
    while k < src.len()
        invariant
            k <= src@.len(),
            start + src@.len() <= u64::MAX,
            map@ == id_map(src@, start, src@.len() as int),
            out@.len() == k,
            forall|j: int|
                0 <= j < k ==> copy_of(
                    #[trigger] out@[j],
                    src@[j],
                    (start + j) as u64,
                    copied_parent(src@, start, src@[j].parent),
                ),
        decreases src@.len() - k,
    {
        let b = &src[k];
        let parent = match b.parent {
            Some(p) => match map.get(&p) {
                Some(np) => Some(*np),
                None => None,
            },
            None => None,
        };
        out.push(copy_with_id(b, start + k as u64, parent));
        k = k + 1;
    }
    out
}

proof fn lemma_id_map_values(src: Seq<Block>, start: u64, n: int, id: u64)
    requires
        0 <= n <= src.len(),
        start + src.len() <= u64::MAX,
        id_map(src, start, n).contains_key(id),
    ensures
        exists|j: int|
            0 <= j < n && src[j].id == id && id_map(src, start, n)[id] == start + j,
    decreases n,
{
    if src[n - 1].id != id {
        lemma_id_map_values(src, start, n - 1, id);
    } else {
        assert(id_map(src, start, n)[id] == start + (n - 1));
    }
}

/// A duplicate keeps the page's tree: a copied block hangs under a copy
/// whose original carries the id of the block's original parent, so the
/// copy nests exactly as the source did.
pub proof fn lemma_copy_keeps_the_tree(src: Seq<Block>, start: u64, i: int)
    requires
        0 <= i < src.len(),
        start + src.len() <= u64::MAX,
        copied_parent(src, start, src[i].parent) is Some,
    ensures
        exists|j: int|
            0 <= j < src.len() && Some(src[j].id) == src[i].parent && copied_parent(
                src,
                start,
                src[i].parent,
            ) == Some((start + j) as u64),
{
    lemma_id_map_values(src, start, src.len() as int, src[i].parent.unwrap());
}

// ---- pasting a copied block ----

/// What pasting the copied block below another one inserts.
#[derive(Debug)]
pub enum PastePlan {
    /// A block of `kind` holding `text`.
    Insert { kind: BlockKind, text: String },
    /// A link block holding `text`, then pointed at `page`.
    Link { text: String, page: Option<u64> },
    /// The stored attachment `attachment`, shown again as a block of `kind`.
    Attachment { attachment: u64, kind: BlockKind },
}

/// Whether `book` (the attachment ids the session holds) has the row `a`.
pub open spec fn in_book(book: Seq<i64>, a: u64) -> bool {
    book.contains(a as i64)
}

/// The paste of block `c`: a page block lands as its title in a paragraph
/// (the child page is owned and cannot be shared), a link keeps its target,
/// a picture or file shares its attachment when the session holds the row
/// and is its name as text when not; anything else is copied as it is.
pub open spec fn paste_matches(plan: PastePlan, c: Block, book: Seq<i64>) -> bool {
    if c.kind == BlockKind::Page {
        plan matches PastePlan::Insert { kind, text } && kind == BlockKind::Paragraph && text@ == c.text@
    } else if c.kind == BlockKind::Link {
        plan matches PastePlan::Link { text, page } && text@ == c.text@ && page == c.page_ref
    } else if c.kind == BlockKind::Image || c.kind == BlockKind::File {
        if c.attachment is Some && in_book(book, c.attachment.unwrap()) {
            plan matches PastePlan::Attachment { attachment, kind } && attachment
                == c.attachment.unwrap() && kind == c.kind
        } else {
            plan matches PastePlan::Insert { kind, text } && kind == BlockKind::Paragraph && text@
                == c.text@
        }
    } else {
        plan matches PastePlan::Insert { kind, text } && kind == c.kind && text@ == c.text@
    }
}

/// What pasting the copied block `clip` inserts, given the attachment ids
/// the session holds.
pub fn paste_plan(clip: &Block, book: &[i64]) -> (r: PastePlan)
    ensures
        paste_matches(r, *clip, book@),
{
    match clip.kind {
        BlockKind::Page => {
            return PastePlan::Insert { kind: BlockKind::Paragraph, text: clip.text.clone() };
        },
        BlockKind::Link => {
            return PastePlan::Link { text: clip.text.clone(), page: clip.page_ref };
        },
        BlockKind::Image | BlockKind::File => {
            if let Some(a) = clip.attachment {
                let key = #[verifier::truncate] (a as i64);
                let mut i: usize = 0;
                while i < book.len()
                    invariant
                        i <= book@.len(),
                        key == a as i64,
                        clip.attachment == Some(a),
                        clip.kind == BlockKind::Image || clip.kind == BlockKind::File,
                        forall|j: int| 0 <= j < i ==> book@[j] != key,
                    decreases book@.len() - i,
                {
                    if book[i] == key {
                        assert(book@.contains(key));
                        return PastePlan::Attachment { attachment: a, kind: clip.kind };
                    }
                    i = i + 1;
                }
            }
            return PastePlan::Insert { kind: BlockKind::Paragraph, text: clip.text.clone() };
        },
        _ => {},
    }
    PastePlan::Insert { kind: clip.kind, text: clip.text.clone() }
}

} // verus!
