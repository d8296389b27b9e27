//! The open page's word and character count, shown under its title.

use vstd::prelude::*;
use crate::app::state::kinds::BlockKind;
use crate::app::state::projection::Block;
use crate::text::{word_count, words};

verus! {

/// A block whose text is prose: a picture's or a file's text is its file
/// name, a label rather than words.
pub open spec fn counted(b: Block) -> bool {
    b.kind != BlockKind::Image && b.kind != BlockKind::File
}

/// Words and chars of the first `n` blocks that count.
pub open spec fn stats_upto(blocks: Seq<Block>, n: int) -> (nat, nat)
    decreases n,
{
    if n <= 0 {
        (0, 0)
    } else {
        let (w, c) = stats_upto(blocks, n - 1);
        if counted(blocks[n - 1]) {
            (w + words(blocks[n - 1].text@), c + blocks[n - 1].text@.len())
        } else {
            (w, c)
        }
    }
}

/// A page's word count and char count, over the blocks that count.
pub open spec fn spec_page_stats(blocks: Seq<Block>) -> (nat, nat) {
    stats_upto(blocks, blocks.len() as int)
}

proof fn lemma_words_within_chars(blocks: Seq<Block>, i: int)
    requires
        0 <= i <= blocks.len(),
    ensures
        stats_upto(blocks, i).0 <= stats_upto(blocks, i).1,
    decreases i,
{
    if i > 0 {
        lemma_words_within_chars(blocks, i - 1);
        lemma_words_le_len(blocks[i - 1].text@);
    }
}

proof fn lemma_chars_grow(blocks: Seq<Block>, i: int, n: int)
    requires
        0 <= i <= n <= blocks.len(),
    ensures
        stats_upto(blocks, i).1 <= stats_upto(blocks, n).1,
    decreases n - i,
{
    if i < n {
        lemma_chars_grow(blocks, i, n - 1);
    }
}

proof fn lemma_words_le_len(s: Seq<char>)
    ensures
        words(s) <= s.len(),
{
    lemma_words_upto_le(s, s.len() as int);
}

proof fn lemma_words_upto_le(s: Seq<char>, n: int)
    requires
        0 <= n,
    ensures
        crate::text::words_upto(s, n) <= n,
    decreases n,
{
    if n > 0 {
        lemma_words_upto_le(s, n - 1);
    }
}

/// The open page's word and char count: white-space separated words and
/// chars of every block's text, pictures and files left out. The char
/// count must fit a `usize`.
pub fn page_stats(blocks: &[Block]) -> (r: (usize, usize))
    requires
        spec_page_stats(blocks@).1 <= usize::MAX,
    ensures
        r.0 == spec_page_stats(blocks@).0,
        r.1 == spec_page_stats(blocks@).1,
{
    let mut words_total: usize = 0;
    let mut chars_total: usize = 0;
    let mut i: usize = 0;
    while i < blocks.len()
        invariant
            i <= blocks@.len(),
            spec_page_stats(blocks@).1 <= usize::MAX,
            words_total == stats_upto(blocks@, i as int).0,
            chars_total == stats_upto(blocks@, i as int).1,
        decreases blocks@.len() - i,
    {
        let b = &blocks[i];
        proof {
            lemma_chars_grow(blocks@, i + 1, blocks@.len() as int);
            lemma_words_within_chars(blocks@, i + 1);
        }
        if !matches!(b.kind, BlockKind::Image | BlockKind::File) {
            let w = word_count(b.text.as_str());
            let c = b.text.as_str().unicode_len();
            words_total = words_total + w;
            chars_total = chars_total + c;
        }
        i = i + 1;
    }
    (words_total, chars_total)
}

} // verus!
