//! Which stored attachments a reclaim removes (the ones nothing can bring
//! back any more), and what a reclaim answers.

use vstd::prelude::*;
use crate::app::state::projection::Block;
use crate::text::{decimal, push_decimal};

verus! {

/// The attachment ids still referenced: every block's attachment, every id
/// an undo or redo step holds, and the copied block's attachment.
pub open spec fn live_ids(blocks: Seq<Block>, history: Seq<i64>, clipboard: Option<u64>) -> Set<i64> {
    Set::new(
        |id: i64|
            (exists|i: int|
                0 <= i < blocks.len() && (#[trigger] blocks[i].attachment) is Some && id == (
                blocks[i].attachment.unwrap() as i64)) || history.contains(id) || (
            clipboard matches Some(c) && id == c as i64),
    )
}

/// The ids of the first `n` book entries that `live` does not hold, in
/// book order.
pub open spec fn unused_upto(book: Seq<i64>, live: Set<i64>, n: int) -> Seq<i64>
    decreases n,
{
    if n <= 0 {
        Seq::empty()
    } else if live.contains(book[n - 1]) {
        unused_upto(book, live, n - 1)
    } else {
        unused_upto(book, live, n - 1).push(book[n - 1])
    }
}

fn referenced(blocks: &[Block], history: &[i64], clipboard: Option<u64>, id: i64) -> (r: bool)
    ensures
        r == live_ids(blocks@, history@, clipboard).contains(id),
{
    let mut i: usize = 0;
    while i < blocks.len()
        invariant
            i <= blocks@.len(),
            forall|j: int|
                0 <= j < i ==> !((#[trigger] blocks@[j].attachment) is Some && id == (
                blocks@[j].attachment.unwrap() as i64)),
        decreases blocks@.len() - i,
    {
        match blocks[i].attachment {
            Some(a) => {
                if #[verifier::truncate] (a as i64) == id {
                    return true;
                }
            },
            None => {},
        }
        i = i + 1;
    }
    let mut k: usize = 0;
    while k < history.len()
        invariant
            k <= history@.len(),
            forall|j: int| 0 <= j < k ==> history@[j] != id,
        decreases history@.len() - k,
    {
        if history[k] == id {
            assert(history@.contains(id));
            return true;
        }
        k = k + 1;
    }
    match clipboard {
        Some(c) => #[verifier::truncate] (c as i64) == id,
        None => false,
    }
}

/// The attachments a reclaim removes: the book's ids (in book order) that
/// no block of any page, no outstanding undo or redo step and not the
/// copied block references.
pub fn unused_attachments(book: &[i64], blocks: &[Block], history: &[i64], clipboard: Option<u64>) -> (r: Vec<i64>)
    ensures
        r@ == unused_upto(book@, live_ids(blocks@, history@, clipboard), book@.len() as int),
{
    let ghost live = live_ids(blocks@, history@, clipboard);
    let mut out: Vec<i64> = Vec::new();
    let mut i: usize = 0;
    while i < book.len()
        invariant
            i <= book@.len(),
            live == live_ids(blocks@, history@, clipboard),
            out@ == unused_upto(book@, live, i as int),
        decreases book@.len() - i,
    {
        if !referenced(blocks, history, clipboard, book[i]) {
            out.push(book[i]);
        }
        i = i + 1;
    }
    out
}

/// A reclaim removes exactly the unreferenced attachments: everything it
/// removes is in the book and referenced by nothing, and every book entry it
/// keeps is still referenced.
pub proof fn lemma_reclaim_removes_only_the_unused(book: Seq<i64>, live: Set<i64>, n: int)
    requires
        0 <= n <= book.len(),
    ensures
        forall|j: int|
            0 <= j < unused_upto(book, live, n).len() ==> !live.contains(
                #[trigger] unused_upto(book, live, n)[j],
            ) && book.take(n).contains(unused_upto(book, live, n)[j]),
        forall|i: int|
            0 <= i < n && !unused_upto(book, live, n).contains(#[trigger] book[i]) ==> live.contains(
                book[i],
            ),
    decreases n,
{
    if n > 0 {
        lemma_reclaim_removes_only_the_unused(book, live, n - 1);
        let prev = unused_upto(book, live, n - 1);
        let cur = unused_upto(book, live, n);
        assert forall|j: int| 0 <= j < cur.len() implies !live.contains(#[trigger] cur[j])
            && book.take(n).contains(cur[j]) by {
            if j < prev.len() {
                assert(cur[j] == prev[j]);
                let w = choose|w: int| 0 <= w < n - 1 && #[trigger] book.take(n - 1)[w] == prev[j];
                assert(book.take(n)[w] == cur[j]);
            } else {
                assert(cur[j] == book[n - 1]);
                assert(book.take(n)[n - 1] == cur[j]);
            }
        }
        assert forall|i: int| 0 <= i < n && !cur.contains(#[trigger] book[i]) implies live.contains(
            book[i],
        ) by {
            if i < n - 1 {
                if !live.contains(book[i]) {
                    let w = choose|w: int| 0 <= w < prev.len() && #[trigger] prev[w] == book[i];
                    if live.contains(book[n - 1]) {
                        assert(cur[w] == book[i]);
                    } else {
                        assert(cur[w] == book[i]);
                    }
                }
            } else if !live.contains(book[n - 1]) {
                assert(cur[prev.len() as int] == book[n - 1]);
            }
        }
    }
}

// ---- the answer ----

/// A session with no database file has no attachments of its own to sweep.
pub open spec fn in_memory_answer() -> Seq<char> {
    "running in memory — nothing to reclaim"@
}

/// The answer of a reclaim in a session without a database file.
pub fn reclaim_in_memory() -> (r: String)
    ensures
        r@ == in_memory_answer(),
{
    String::from_str("running in memory — nothing to reclaim")
}

/// Why a reclaim stopped before sweeping: the queued edits, which it writes
/// first, could not be written (`reason` says why).
pub fn reclaim_flush_failed(reason: &str) -> (r: String)
    ensures
        r@ == "the queued edits could not be written ("@ + reason@ + ")"@,
{
    let mut text = String::from_str("the queued edits could not be written (");
    text.append(reason);
    text.append(")");
    text
}

/// `"s"` after a count other than one.
pub open spec fn plural(n: nat) -> Seq<char> {
    if n == 1 {
        ""@
    } else {
        "s"@
    }
}

/// What a reclaim answers once it has swept: that nothing was unused, or
/// how many attachments it removed and how many bytes that freed (`freed`,
/// already written as a size), and how many files it could not delete.
pub open spec fn reclaim_answer(removed: nat, freed: Seq<char>, stuck: nat) -> Seq<char> {
    if removed == 0 {
        "no unused attachments to remove"@
    } else {
        let done = decimal(removed) + " unused attachment"@ + plural(removed) + " removed ("@ + freed
            + ")"@;
        if stuck == 0 {
            done
        } else {
            done + ", but "@ + decimal(stuck) + " file"@ + plural(stuck) + " could not be deleted"@
        }
    }
}

fn push_plural(text: &mut String, n: usize)
    ensures
        final(text)@ == old(text)@ + plural(n as nat),
{
    proof {
        reveal_strlit("");
        assert(old(text)@ + ""@ =~= old(text)@);
    }
    if n != 1 {
        text.append("s");
    }
}

/// The answer of a reclaim that removed `removed` attachments, freeing the
/// size written in `freed`, with `stuck` files it could not delete.
pub fn reclaim_notice(removed: usize, freed: &str, stuck: usize) -> (r: String)
    ensures
        r@ == reclaim_answer(removed as nat, freed@, stuck as nat),
{
    if removed == 0 {
        return String::from_str("no unused attachments to remove");
    }
    let mut text = String::new();
    push_decimal(&mut text, removed as u64);
    text.append(" unused attachment");
    push_plural(&mut text, removed);
    text.append(" removed (");
    text.append(freed);
    text.append(")");
    if stuck > 0 {
        text.append(", but ");
        push_decimal(&mut text, stuck as u64);
        text.append(" file");
        push_plural(&mut text, stuck);
        text.append(" could not be deleted");
    }
    assert(text@ =~= reclaim_answer(removed as nat, freed@, stuck as nat));
    text
}

} // verus!
