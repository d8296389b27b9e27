//! The benchmark pages' fixtures: where the picture rows go, and the code
//! block the bench page scrolls.

use vstd::prelude::*;
use crate::app::state::kinds::BlockKind;
use crate::app::state::projection::{Block, BlockRow};
use crate::text::{is_white_space, lowercase, to_lowercase, white_space};
use crate::app::state::runs::{Mark, MarkKind};
use vstd::utf8::encode_utf8;

verus! {

/// How many distinct pictures a bench page of `--pictures N` stores. Rows
/// reuse the pool spread across the page (image row k takes fixture
/// `k % pool`).
pub const BENCH_FIXTURE_POOL: usize = 200;

/// `(stride, pool)` for a bench page of `rows` rows and `pictures`
/// pictures: one picture row every `stride` blocks, drawn from `pool`
/// fixtures; `(0, 0)` when either is zero. More pictures than rows cannot
/// invent rows.
pub open spec fn spec_bench_picture_plan(rows: int, pictures: int) -> (int, int) {
    if pictures == 0 || rows == 0 {
        (0, 0)
    } else {
        let n = if pictures < rows { pictures } else { rows };
        let stride = rows / n;
        (if stride < 1 { 1 } else { stride }, if n < BENCH_FIXTURE_POOL { n } else { BENCH_FIXTURE_POOL as int })
    }
}

/// `(stride, pool)` for a bench page: one picture row every `stride` blocks,
/// drawn from `pool` fixtures. Both the row builder and the seeder ask, so
/// neither can drift from the other.
pub fn bench_picture_plan(rows: usize, pictures: usize) -> (r: (usize, usize))
    ensures
        r.0 as int == spec_bench_picture_plan(rows as int, pictures as int).0,
        r.1 as int == spec_bench_picture_plan(rows as int, pictures as int).1,
{
    if pictures == 0 || rows == 0 {
        return (0, 0);
    }
    let n = if pictures < rows { pictures } else { rows };
    let stride = rows / n;
    (if stride < 1 { 1 } else { stride }, if n < BENCH_FIXTURE_POOL { n } else { BENCH_FIXTURE_POOL })
}

/// What a row keeps when it becomes a picture: everything but its kind,
/// text and attachment.
pub open spec fn kept_apart_from_picture(new: Block, old: Block) -> bool {
    &&& new.checked == old.checked
    &&& new.marks == old.marks
    &&& new.color == old.color
    &&& new.background == old.background
    &&& new.folded == old.folded
    &&& new.page_ref == old.page_ref
    &&& new.img_percent == old.img_percent
    &&& new.columns == old.columns
}

/// Turn every `stride`-th row of the bench page into an image block: row
/// `i` with `i % stride == stride - 1` becomes an empty image of fixture
/// `(i / stride) % pool + 1` and keeps everything else; every other row is
/// left as it was.
pub fn bench_pictures(blocks: &mut Vec<Block>, pictures: usize)
    ensures
        final(blocks)@.len() == old(blocks)@.len(),
        ({
            let (stride, pool) = spec_bench_picture_plan(old(blocks)@.len() as int, pictures as int);
            forall|i: int|
                0 <= i < old(blocks)@.len() ==> if stride != 0 && i % stride == stride - 1 {
                    &&& (#[trigger] final(blocks)@[i]).kind == BlockKind::Image
                    &&& final(blocks)@[i].text@ == Seq::<char>::empty()
                    &&& final(blocks)@[i].attachment == Some(((i / stride) % pool + 1) as u64)
                    &&& final(blocks)@[i].id == old(blocks)@[i].id
                    &&& final(blocks)@[i].parent == old(blocks)@[i].parent
                    &&& final(blocks)@[i].order == old(blocks)@[i].order
                    &&& kept_apart_from_picture(final(blocks)@[i], old(blocks)@[i])
                } else {
                    final(blocks)@[i] == old(blocks)@[i]
                }
        }),
{
    let (stride, pool) = bench_picture_plan(blocks.len(), pictures);
    if stride == 0 {
        return;
    }
    let mut i: usize = 0;
    while i < blocks.len()
        invariant
            stride as int == spec_bench_picture_plan(old(blocks)@.len() as int, pictures as int).0,
            pool as int == spec_bench_picture_plan(old(blocks)@.len() as int, pictures as int).1,
            stride > 0,
            pool > 0,
            blocks@.len() == old(blocks)@.len(),
            i <= blocks@.len(),
            forall|j: int|
                0 <= j < old(blocks)@.len() ==> if j < i && j % (stride as int) == stride - 1 {
                    &&& (#[trigger] blocks@[j]).kind == BlockKind::Image
                    &&& blocks@[j].text@ == Seq::<char>::empty()
                    &&& blocks@[j].attachment == Some(((j / (stride as int)) % (pool as int) + 1) as u64)
                    &&& blocks@[j].id == old(blocks)@[j].id
                    &&& blocks@[j].parent == old(blocks)@[j].parent
                    &&& blocks@[j].order == old(blocks)@[j].order
                    &&& kept_apart_from_picture(blocks@[j], old(blocks)@[j])
                } else {
                    blocks@[j] == old(blocks)@[j]
                },
        decreases blocks@.len() - i,
    {
        if i % stride == stride - 1 {
            let fixture = ((i / stride) % pool) as u64 + 1;
            blocks[i].kind = BlockKind::Image;
            blocks[i].text = String::new();
            blocks[i].attachment = Some(fixture);
        }
        i = i + 1;
    }
}


// ---- the code fixture ----

/// A code block that reads like source: a comment line, keywords, a string,
/// numbers, an identifier-heavy line long enough to need a break, and two
/// CJK words.
pub open spec fn bench_code_lines() -> Seq<Seq<char>> {
    seq![
        "// measure the bytes a page of code actually costs"@,
        "fn measure(config: &Config) -> Result<u32, Error> {"@,
        "    let mut total = 0; // running bytes, in pages"@,
        "    for row in config.rows.iter().take(4096) { total += row.private_bytes; }"@,
        "    println!(\"合计 {total} 字节 across {} rows\", config.rows.len());"@,
        "    log::trace!(\"done\"); Ok(total)"@,
        "}"@,
    ]
}

/// `lines` joined with `sep` between them.
pub open spec fn join(lines: Seq<Seq<char>>, sep: Seq<char>) -> Seq<char>
    decreases lines.len(),
{
    if lines.len() == 0 {
        Seq::empty()
    } else if lines.len() == 1 {
        lines[0]
    } else {
        join(lines.drop_last(), sep) + sep + lines.last()
    }
}

/// The code fixture the bench page scrolls, its lines joined by newlines.
pub fn bench_code_source() -> (r: String)
    ensures
        r@ == join(bench_code_lines(), "\n"@),
{
    let ghost l = bench_code_lines();
    let ghost sep = "\n"@;
    let mut s = String::from_str("// measure the bytes a page of code actually costs");
    proof {
        lemma_join_step(l, sep, 0);
    }
    s.append("\n");
    s.append("fn measure(config: &Config) -> Result<u32, Error> {");
    proof {
        lemma_join_step(l, sep, 1);
    }
    s.append("\n");
    s.append("    let mut total = 0; // running bytes, in pages");
    proof {
        lemma_join_step(l, sep, 2);
    }
    s.append("\n");
    s.append("    for row in config.rows.iter().take(4096) { total += row.private_bytes; }");
    proof {
        lemma_join_step(l, sep, 3);
    }
    s.append("\n");
    s.append("    println!(\"合计 {total} 字节 across {} rows\", config.rows.len());");
    proof {
        lemma_join_step(l, sep, 4);
    }
    s.append("\n");
    s.append("    log::trace!(\"done\"); Ok(total)");
    proof {
        lemma_join_step(l, sep, 5);
    }
    s.append("\n");
    s.append("}");
    proof {
        lemma_join_step(l, sep, 6);
        assert(l.take(7) =~= l);
    }
    s
}

/// Joining the first `k + 1` lines is joining the first `k`, then the
/// separator (when `k > 0`) and line `k`.
proof fn lemma_join_step(lines: Seq<Seq<char>>, sep: Seq<char>, k: int)
    requires
        0 <= k < lines.len(),
    ensures
        join(lines.take(k + 1), sep) == if k == 0 {
            lines[0]
        } else {
            join(lines.take(k), sep) + sep + lines[k]
        },
{
    assert(lines.take(k + 1).drop_last() =~= lines.take(k));
}

// ---- search ----

/// A title and the texts under it, as the blob the search scans: the
/// title, then each non-empty text on a line of its own.
pub open spec fn search_blob(title: Seq<char>, texts: Seq<Seq<char>>) -> Seq<char>
    decreases texts.len(),
{
    if texts.len() == 0 {
        title
    } else if texts.last().len() == 0 {
        search_blob(title, texts.drop_last())
    } else {
        search_blob(title, texts.drop_last()) + "\n"@ + texts.last()
    }
}

/// The texts of rows.
pub open spec fn row_texts(rows: Seq<BlockRow>) -> Seq<Seq<char>> {
    rows.map_values(|r: BlockRow| r.text@)
}

/// Title + block texts, the blob the search scans.
pub fn block_search_blob(title: &str, blocks: &[BlockRow]) -> (r: String)
    ensures
        r@ == search_blob(title@, row_texts(blocks@)),
{
    let mut blob = String::from_str(title);
    let mut i: usize = 0;
    while i < blocks.len()
        invariant
            i <= blocks@.len(),
            blob@ == search_blob(title@, row_texts(blocks@.take(i as int))),
        decreases blocks@.len() - i,
    {
        proof {
            assert(row_texts(blocks@.take(i + 1)).drop_last() =~= row_texts(blocks@.take(i as int)));
            assert(row_texts(blocks@.take(i + 1)).last() == blocks@[i as int].text@);
        }
        if blocks[i].text.as_str().unicode_len() != 0 {
            blob.append("\n");
            blob.append(blocks[i].text.as_str());
        }
        i = i + 1;
    }
    assert(blocks@.take(blocks@.len() as int) =~= blocks@);
    blob
}

// ---- fuzzy match ----

/// Whether `q` occurs in `t` in order, not necessarily contiguously (each
/// char of `q` matched against the earliest possible char of `t`).
pub open spec fn subsequence(q: Seq<char>, t: Seq<char>) -> bool
    decreases t.len(),
{
    if q.len() == 0 {
        true
    } else if t.len() == 0 {
        false
    } else if q[0] == t[0] {
        subsequence(q.drop_first(), t.drop_first())
    } else {
        subsequence(q, t.drop_first())
    }
}

/// `s` without its white-space chars.
pub open spec fn without_white(s: Seq<char>) -> Seq<char> {
    s.filter(|c: char| !white_space(c))
}

/// The palette's filter: the query's non-white-space chars, lower-cased,
/// occur in order in the lower-cased target.
pub open spec fn spec_fuzzy(query: Seq<char>, target: Seq<char>) -> bool {
    subsequence(without_white(lowercase(query)), lowercase(target))
}

proof fn lemma_without_white_step(q: Seq<char>, i: int)
    requires
        0 <= i < q.len(),
    ensures
        without_white(q.take(i + 1)) == if white_space(q[i]) {
            without_white(q.take(i))
        } else {
            without_white(q.take(i)).push(q[i])
        },
{
    assert(q.take(i + 1).drop_last() =~= q.take(i));
    reveal_with_fuel(Seq::filter, 1);
}

proof fn lemma_without_white_prefix(q: Seq<char>, i: int, j: int)
    requires
        0 <= i <= j <= q.len(),
    ensures
        without_white(q.take(i)).len() <= without_white(q.take(j)).len(),
        without_white(q.take(j)).take(without_white(q.take(i)).len() as int) =~= without_white(
            q.take(i),
        ),
    decreases j - i,
{
    if i < j {
        lemma_without_white_prefix(q, i, j - 1);
        lemma_without_white_step(q, j - 1);
    }
}

proof fn lemma_subsequence_step(qs: Seq<char>, t: Seq<char>, k: int, p: int)
    requires
        0 <= k < qs.len(),
        0 <= p < t.len(),
    ensures
        subsequence(qs.skip(k), t.skip(p)) == if qs[k] == t[p] {
            subsequence(qs.skip(k + 1), t.skip(p + 1))
        } else {
            subsequence(qs.skip(k), t.skip(p + 1))
        },
{
    assert(qs.skip(k).drop_first() =~= qs.skip(k + 1));
    assert(t.skip(p).drop_first() =~= t.skip(p + 1));
}

proof fn lemma_subsequence_extend(a: Seq<char>, b: Seq<char>, c: char)
    requires
        subsequence(a, b),
    ensures
        subsequence(a, b.push(c)),
        subsequence(a.push(c), b.push(c)),
    decreases b.len(),
{
    if a.len() == 0 {
        lemma_single_at_end(b, c);
        assert(a.push(c) =~= seq![c]);
    } else if b.len() > 0 {
        assert(b.push(c).drop_first() =~= b.drop_first().push(c));
        assert(a.push(c).drop_first() =~= a.drop_first().push(c));
        if a[0] == b[0] {
            lemma_subsequence_extend(a.drop_first(), b.drop_first(), c);
        } else {
            lemma_subsequence_extend(a, b.drop_first(), c);
        }
    }
}

proof fn lemma_single_at_end(b: Seq<char>, c: char)
    ensures
        subsequence(seq![c], b.push(c)),
    decreases b.len(),
{
    let one = seq![c];
    assert(one.len() == 1 && one[0] == c);
    assert(one.drop_first() =~= Seq::<char>::empty());
    assert(subsequence(Seq::<char>::empty(), b.push(c).drop_first()));
    if b.len() == 0 {
        assert(b.push(c) =~= one);
    } else {
        assert(b.push(c).drop_first() =~= b.drop_first().push(c));
        assert(b.push(c)[0] == b[0]);
        lemma_single_at_end(b.drop_first(), c);
    }
}

proof fn lemma_filter_is_subsequence(x: Seq<char>)
    ensures
        subsequence(without_white(x), x),
    decreases x.len(),
{
    if x.len() == 0 {
        assert(without_white(x) =~= Seq::<char>::empty());
    } else {
        let y = x.drop_last();
        lemma_filter_is_subsequence(y);
        assert(y.push(x.last()) =~= x);
        reveal_with_fuel(Seq::filter, 1);
        lemma_subsequence_extend(without_white(y), y, x.last());
    }
}

/// A page's own title always passes the palette's filter: typing a text
/// matches every target that lower-cases to the same text.
pub proof fn lemma_title_matches_itself(query: Seq<char>, target: Seq<char>)
    requires
        lowercase(target) == lowercase(query),
    ensures
        spec_fuzzy(query, target),
{
    lemma_filter_is_subsequence(lowercase(query));
}

/// Cheap subsequence fuzzy match, case-insensitive.
pub fn fuzzy_subsequence(query: &str, target: &str) -> (r: bool)
    ensures
        r == spec_fuzzy(query@, target@),
{
    let lower_target = to_lowercase(target);
    let lower_query = to_lowercase(query);
    let t = lower_target.as_str();
    let q = lower_query.as_str();
    let tn = t.unicode_len();
    let qn = q.unicode_len();
    let ghost qs = without_white(q@);
    proof {
        assert(q@.take(qn as int) =~= q@);
        assert(qs.skip(0) =~= qs);
        assert(t@.skip(0) =~= t@);
    }
    // `pos` is how far into the target the matching has got; `taken` is how
    // many of the query's non-white-space chars are matched so far.
    let mut pos: usize = 0;
    let mut i: usize = 0;
    let ghost mut taken: int = 0;
    while i < qn
        invariant
            qn == q@.len(),
            tn == t@.len(),
            q@ == lowercase(query@),
            t@ == lowercase(target@),
            i <= qn,
            pos <= tn,
            qs == without_white(q@),
            q@.take(qn as int) == q@,
            taken == without_white(q@.take(i as int)).len(),
            subsequence(qs, t@) == subsequence(qs.skip(taken), t@.skip(pos as int)),
        decreases qn - i,
    {
        let c = q.get_char(i);
        proof {
            lemma_without_white_step(q@, i as int);
            lemma_without_white_prefix(q@, i + 1, qn as int);
        }
        if !is_white_space(c) {
            proof {
                assert(qs[taken] == c) by {
                    assert(without_white(q@.take(i + 1))[taken] == c);
                }
            }
            let mut found = false;
            while !found
                invariant_except_break
                    !found,
                    subsequence(qs, t@) == subsequence(qs.skip(taken), t@.skip(pos as int)),
                invariant
                    pos <= tn,
                    tn == t@.len(),
                    q@ == lowercase(query@),
                    t@ == lowercase(target@),
                    qs == without_white(q@),
                    0 <= taken < qs.len(),
                    qs[taken] == c,
                ensures
                    found,
                    subsequence(qs, t@) == subsequence(qs.skip(taken + 1), t@.skip(pos as int)),
                decreases tn - pos,
            {
                if pos >= tn {
                    proof {
                        assert(t@.skip(pos as int).len() == 0);
                        assert(qs.skip(taken).len() > 0);
                    }
                    return false;
                }
                let tc = t.get_char(pos);
                proof {
                    lemma_subsequence_step(qs, t@, taken, pos as int);
                }
                pos = pos + 1;
                if tc == c {
                    found = true;
                    break;
                }
            }
            proof {
                taken = taken + 1;
            }
        }
        i = i + 1;
    }
    proof {
        assert(qs.skip(taken).len() == 0);
    }
    true
}

// ---- marked rows ----

/// The first space byte of `b` at or after `from`.
pub open spec fn first_space(b: Seq<u8>, from: int) -> Option<int>
    decreases b.len() - from,
{
    if from < 0 || from >= b.len() {
        None
    } else if b[from] == 32 {
        Some(from)
    } else {
        first_space(b, from + 1)
    }
}

/// The second word of `b`, as a byte range: from after the first space to
/// the next space.
pub open spec fn second_word(b: Seq<u8>) -> Option<(int, int)> {
    match first_space(b, 0) {
        None => None,
        Some(p) => match first_space(b, p + 1) {
            None => None,
            Some(q) => Some((p + 1, q)),
        },
    }
}

/// One marked row every `stride` rows for `marks` marks among `rows`.
pub open spec fn marks_stride(rows: int, marks: int) -> int {
    let n = if marks < rows { marks } else { rows };
    let s = rows / n;
    if s < 1 { 1 } else { s }
}

fn find_space(bytes: &[u8], from: usize) -> (r: Option<usize>)
    ensures
        match r {
            Some(q) => first_space(bytes@, from as int) == Some(q as int),
            None => first_space(bytes@, from as int) is None,
        },
        r matches Some(q) ==> q < bytes@.len() && q < usize::MAX,
{
    let n = bytes.len();
    let mut q = from;
    while q < n
        invariant
            n == bytes@.len(),
            from <= q,
            first_space(bytes@, from as int) == first_space(bytes@, q as int),
        decreases bytes@.len() - q,
    {
        if bytes[q] == 32 {
            return Some(q);
        }
        q = q + 1;
    }
    None
}

/// Bold the second word of every `stride`-th bench row, so the bench page
/// has marked paragraphs. A row with no second word to bold (the Chinese
/// line) is left alone.
pub fn bench_marks(blocks: &mut Vec<Block>, marks: usize)
    requires
        marks == 0 || old(blocks)@.len() > 0,
    ensures
        final(blocks)@.len() == old(blocks)@.len(),
        forall|i: int|
            0 <= i < old(blocks)@.len() ==> {
                let stride = marks_stride(old(blocks)@.len() as int, marks as int);
                let w = second_word(encode_utf8(old(blocks)@[i].text@));
                if marks > 0 && i % stride == stride - 1 && w is Some {
                    &&& (#[trigger] final(blocks)@[i]) == Block { marks: final(blocks)@[i].marks, ..old(blocks)@[i] }
                    &&& final(blocks)@[i].marks@.len() == 1
                    &&& final(blocks)@[i].marks@[0].start == w.unwrap().0
                    &&& final(blocks)@[i].marks@[0].end == w.unwrap().1
                    &&& final(blocks)@[i].marks@[0].kind == MarkKind::Bold
                    &&& final(blocks)@[i].marks@[0].url@ == Seq::<char>::empty()
                } else {
                    final(blocks)@[i] == old(blocks)@[i]
                }
            },
{
    if marks == 0 {
        return;
    }
    let len = blocks.len();
    let n = if marks < len { marks } else { len };
    let q = len / n;
    let stride = if q < 1 { 1 } else { q };
    let mut i: usize = 0;
    while i < blocks.len()
        invariant
            marks > 0,
            stride as int == marks_stride(old(blocks)@.len() as int, marks as int),
            stride >= 1,
            blocks@.len() == old(blocks)@.len(),
            i <= blocks@.len(),
            forall|j: int|
                0 <= j < old(blocks)@.len() ==> {
                    let w = second_word(encode_utf8(old(blocks)@[j].text@));
                    if j < i && j % (stride as int) == stride - 1 && w is Some {
                        &&& (#[trigger] blocks@[j]) == Block { marks: blocks@[j].marks, ..old(blocks)@[j] }
                        &&& blocks@[j].marks@.len() == 1
                        &&& blocks@[j].marks@[0].start == w.unwrap().0
                        &&& blocks@[j].marks@[0].end == w.unwrap().1
                        &&& blocks@[j].marks@[0].kind == MarkKind::Bold
                        &&& blocks@[j].marks@[0].url@ == Seq::<char>::empty()
                    } else {
                        blocks@[j] == old(blocks)@[j]
                    }
                },
        decreases blocks@.len() - i,
    {
        if i % stride == stride - 1 {
            let found = {
                let bytes = blocks[i].text.as_str().as_bytes();
                match find_space(bytes, 0) {
                    Some(p) => match find_space(bytes, p + 1) {
                        Some(e) => Some((p + 1, e)),
                        None => None,
                    },
                    None => None,
                }
            };
            match found {
                Some((start, end)) => {
                    let mut v: Vec<Mark> = Vec::new();
                    v.push(Mark { start, end, kind: MarkKind::Bold, url: String::new() });
                    blocks[i].marks = v;
                },
                None => {},
            }
        }
        i = i + 1;
    }
}

} // verus!
