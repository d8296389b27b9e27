//! What the editor decides on its own when a key lands: the markdown line
//! shortcuts, and the renderer's name for the measurement record.

use vstd::prelude::*;
use crate::app::state::fixtures::PAGE_GETTING_STARTED;
use crate::app::state::kinds::BlockKind;
use crate::text::{strip, strip_prefix};

verus! {

// ---- numbered-list prefix ----

/// How many ASCII digits `s` starts with.
pub open spec fn leading_digits(s: Seq<char>) -> nat
    decreases s.len(),
{
    if s.len() > 0 && '0' <= s[0] <= '9' {
        1 + leading_digits(s.subrange(1, s.len() as int))
    } else {
        0
    }
}

/// `12. rest` -> `rest`: one or more ASCII digits, then ". ", and what
/// follows it.
pub open spec fn spec_numbered_prefix(s: Seq<char>) -> Option<Seq<char>> {
    let d = leading_digits(s) as int;
    if d >= 1 && d + 1 < s.len() && s[d] == '.' && s[d + 1] == ' ' {
        Some(s.subrange(d + 2, s.len() as int))
    } else {
        None
    }
}

proof fn lemma_leading_digits(s: Seq<char>, i: int)
    requires
        0 <= i <= s.len(),
        forall|j: int| 0 <= j < i ==> '0' <= #[trigger] s[j] <= '9',
        i == s.len() || !('0' <= s[i] <= '9'),
    ensures
        leading_digits(s) == i,
    decreases i,
{
    if i > 0 {
        let t = s.subrange(1, s.len() as int);
        assert forall|j: int| 0 <= j < i - 1 implies '0' <= #[trigger] t[j] <= '9' by {
            assert(t[j] == s[j + 1]);
        }
        if i - 1 < t.len() {
            assert(t[i - 1] == s[i]);
        }
        lemma_leading_digits(t, i - 1);
    }
}

/// `12. rest` -> `rest`; digits + ". " only.
pub fn numbered_prefix(text: &str) -> (r: Option<&str>)
    ensures
        match r {
            Some(rest) => spec_numbered_prefix(text@) == Some(rest@),
            None => spec_numbered_prefix(text@) is None,
        },
{
    let n = text.unicode_len();
    let mut d: usize = 0;
    while d < n && '0' <= text.get_char(d) && text.get_char(d) <= '9'
        invariant
            n == text@.len(),
            d <= n,
            forall|j: int| 0 <= j < d ==> '0' <= #[trigger] text@[j] <= '9',
        decreases n - d,
    {
        d = d + 1;
    }
    proof {
        lemma_leading_digits(text@, d as int);
    }
    if d >= 1 && d < n && n - d > 1 && text.get_char(d) == '.' && text.get_char(d + 1) == ' ' {
        Some(text.substring_char(d + 2, n))
    } else {
        None
    }
}

// ---- markdown line shortcuts ----

/// Markdown line-shortcuts: a trigger prefix and a space (or the exact
/// token) converts the block being edited, with the trigger stripped.
/// Gives `(kind, remaining text, set-checked)`. Code, divider and math
/// blocks never convert: their text legitimately starts with these
/// characters.
pub open spec fn spec_markdown_convert(s: Seq<char>, current: Option<BlockKind>) -> Option<
    (BlockKind, Seq<char>, Option<bool>),
> {
    if current == Some(BlockKind::Code) || current == Some(BlockKind::Divider) || current == Some(
        BlockKind::Math,
    ) {
        None
    } else if strip_prefix(s, "### "@) is Some {
        Some((BlockKind::Heading3, strip_prefix(s, "### "@)->0, None))
    } else if strip_prefix(s, "## "@) is Some {
        Some((BlockKind::Heading2, strip_prefix(s, "## "@)->0, None))
    } else if strip_prefix(s, "# "@) is Some {
        Some((BlockKind::Heading1, strip_prefix(s, "# "@)->0, None))
    } else if strip_prefix(s, "- "@) is Some {
        Some((BlockKind::Bullet, strip_prefix(s, "- "@)->0, None))
    } else if strip_prefix(s, "* "@) is Some {
        Some((BlockKind::Bullet, strip_prefix(s, "* "@)->0, None))
    } else if strip_prefix(s, "[x] "@) is Some {
        Some((BlockKind::Todo, strip_prefix(s, "[x] "@)->0, Some(true)))
    } else if strip_prefix(s, "[] "@) is Some {
        Some((BlockKind::Todo, strip_prefix(s, "[] "@)->0, None))
    } else if strip_prefix(s, "[ ] "@) is Some {
        Some((BlockKind::Todo, strip_prefix(s, "[ ] "@)->0, None))
    } else if strip_prefix(s, "> "@) is Some {
        Some((BlockKind::Quote, strip_prefix(s, "> "@)->0, None))
    } else if spec_numbered_prefix(s) is Some {
        Some((BlockKind::Numbered, spec_numbered_prefix(s)->0, None))
    } else if s == "---"@ {
        Some((BlockKind::Divider, Seq::empty(), None))
    } else if s == "```"@ {
        Some((BlockKind::Code, Seq::empty(), None))
    } else if strip_prefix(s, "$$ "@) is Some {
        Some((BlockKind::Math, strip_prefix(s, "$$ "@)->0, None))
    } else if s == "$$"@ {
        Some((BlockKind::Math, Seq::empty(), None))
    } else {
        None
    }
}

/// The shortcut `text` triggers in a block of kind `current`, as
/// `(kind, remaining text, set-checked)`.
pub fn markdown_convert(text: &str, current: Option<BlockKind>) -> (r: Option<
    (BlockKind, String, Option<bool>),
>)
    ensures
        match r {
            Some((kind, rest, checked)) => spec_markdown_convert(text@, current) == Some(
                (kind, rest@, checked),
            ),
            None => spec_markdown_convert(text@, current) is None,
        },
        current == Some(BlockKind::Code) || current == Some(BlockKind::Divider) || current == Some(
            BlockKind::Math,
        ) ==> r is None,
{
    match current {
        Some(BlockKind::Code) | Some(BlockKind::Divider) | Some(BlockKind::Math) => {
            // a formula is source: `> x` inside `\begin{...}` is content,
            // not a quote marker
            return None;
        },
        _ => {},
    }
    let n = text.unicode_len();
    if let Some(rest) = strip(text, n, "### ") {
        return Some((BlockKind::Heading3, String::from_str(rest), None));
    }
    if let Some(rest) = strip(text, n, "## ") {
        return Some((BlockKind::Heading2, String::from_str(rest), None));
    }
    if let Some(rest) = strip(text, n, "# ") {
        return Some((BlockKind::Heading1, String::from_str(rest), None));
    }
    if let Some(rest) = strip(text, n, "- ") {
        return Some((BlockKind::Bullet, String::from_str(rest), None));
    }
    if let Some(rest) = strip(text, n, "* ") {
        return Some((BlockKind::Bullet, String::from_str(rest), None));
    }
    if let Some(rest) = strip(text, n, "[x] ") {
        return Some((BlockKind::Todo, String::from_str(rest), Some(true)));
    }
    if let Some(rest) = strip(text, n, "[] ") {
        return Some((BlockKind::Todo, String::from_str(rest), None));
    }
    if let Some(rest) = strip(text, n, "[ ] ") {
        return Some((BlockKind::Todo, String::from_str(rest), None));
    }
    if let Some(rest) = strip(text, n, "> ") {
        return Some((BlockKind::Quote, String::from_str(rest), None));
    }
    if let Some(rest) = numbered_prefix(text) {
        return Some((BlockKind::Numbered, String::from_str(rest), None));
    }
    if let Some(rest) = strip(text, n, "---") {
        if rest.unicode_len() == 0 {
            proof {
                assert(text@ =~= "---"@);
            }
            return Some((BlockKind::Divider, String::new(), None));
        }
    }
    proof {
        reveal_strlit("---");
        if text@ == "---"@ {
            assert(text@.subrange(0, 3) =~= "---"@);
        }
    }
    if let Some(rest) = strip(text, n, "```") {
        if rest.unicode_len() == 0 {
            proof {
                assert(text@ =~= "```"@);
            }
            return Some((BlockKind::Code, String::new(), None));
        }
    }
    proof {
        reveal_strlit("```");
        if text@ == "```"@ {
            assert(text@.subrange(0, 3) =~= "```"@);
        }
    }
    if let Some(rest) = strip(text, n, "$$ ") {
        return Some((BlockKind::Math, String::from_str(rest), None));
    }
    if let Some(rest) = strip(text, n, "$$") {
        if rest.unicode_len() == 0 {
            proof {
                assert(text@ =~= "$$"@);
            }
            return Some((BlockKind::Math, String::new(), None));
        }
    }
    proof {
        reveal_strlit("$$");
        if text@ == "$$"@ {
            assert(text@.subrange(0, 2) =~= "$$"@);
        }
    }
    None
}


proof fn lemma_strip_suffix(s: Seq<char>, p: Seq<char>)
    requires
        strip_prefix(s, p) is Some,
    ensures
        strip_prefix(s, p)->0 =~= s.subrange(s.len() - strip_prefix(s, p)->0.len(), s.len() as int),
        strip_prefix(s, p)->0.len() == s.len() - p.len(),
{
}

/// A shortcut only ever takes its trigger off the front: what is left of
/// the line is a proper suffix of it (the trigger is never empty), and only
/// "[x] " sets the checkbox.
pub proof fn lemma_shortcut_strips_its_trigger(s: Seq<char>, current: Option<BlockKind>)
    ensures
        spec_markdown_convert(s, current) matches Some((kind, rest, checked)) ==> {
            &&& rest.len() < s.len()
            &&& rest =~= s.subrange(s.len() - rest.len(), s.len() as int)
            &&& (checked is Some ==> kind == BlockKind::Todo && checked == Some(true))
        },
{
    reveal_strlit("### ");
    reveal_strlit("## ");
    reveal_strlit("# ");
    reveal_strlit("- ");
    reveal_strlit("* ");
    reveal_strlit("[x] ");
    reveal_strlit("[] ");
    reveal_strlit("[ ] ");
    reveal_strlit("> ");
    reveal_strlit("---");
    reveal_strlit("```");
    reveal_strlit("$$ ");
    reveal_strlit("$$");
    if spec_markdown_convert(s, current) is Some {
        let ps = seq!["### "@, "## "@, "# "@, "- "@, "* "@, "[x] "@, "[] "@, "[ ] "@, "> "@, "$$ "@];
        assert forall|i: int| 0 <= i < ps.len() && strip_prefix(s, #[trigger] ps[i]) is Some implies strip_prefix(s, ps[i])->0
            =~= s.subrange(s.len() - strip_prefix(s, ps[i])->0.len(), s.len() as int)
            && strip_prefix(s, ps[i])->0.len() < s.len() by {
            lemma_strip_suffix(s, ps[i]);
        }
        assert(ps[0] == "### "@ && ps[1] == "## "@ && ps[2] == "# "@ && ps[3] == "- "@ && ps[4] == "* "@);
        assert(ps[5] == "[x] "@ && ps[6] == "[] "@ && ps[7] == "[ ] "@ && ps[8] == "> "@ && ps[9] == "$$ "@);
    }
}


/// The blocks a line shortcut leaves alone: their text legitimately starts
/// with the trigger characters.
pub open spec fn exempt_from_shortcuts(current: Option<BlockKind>) -> bool {
    current == Some(BlockKind::Code) || current == Some(BlockKind::Divider) || current == Some(
        BlockKind::Math,
    )
}

/// Only code, divider and math blocks are exempt: they never convert, and
/// in every other block (or one of unknown kind) a line converts exactly as
/// it would in a plain paragraph.
pub proof fn lemma_only_code_divider_math_are_exempt(s: Seq<char>, current: Option<BlockKind>)
    ensures
        exempt_from_shortcuts(current) ==> spec_markdown_convert(s, current) is None,
        !exempt_from_shortcuts(current) ==> spec_markdown_convert(s, current)
            == spec_markdown_convert(s, Some(BlockKind::Paragraph)),
        spec_markdown_convert(s, None) == spec_markdown_convert(s, Some(BlockKind::Paragraph)),
{
}

proof fn lemma_no_other_prefix(s: Seq<char>)
    requires
        s.len() >= 2,
        s[0] != '#' && s[0] != '-' && s[0] != '*' && s[0] != '[' && s[0] != '>',
    ensures
        strip_prefix(s, "### "@) is None,
        strip_prefix(s, "## "@) is None,
        strip_prefix(s, "# "@) is None,
        strip_prefix(s, "- "@) is None,
        strip_prefix(s, "* "@) is None,
        strip_prefix(s, "[x] "@) is None,
        strip_prefix(s, "[] "@) is None,
        strip_prefix(s, "[ ] "@) is None,
        strip_prefix(s, "> "@) is None,
{
    reveal_strlit("### ");
    reveal_strlit("## ");
    reveal_strlit("# ");
    reveal_strlit("- ");
    reveal_strlit("* ");
    reveal_strlit("[x] ");
    reveal_strlit("[] ");
    reveal_strlit("[ ] ");
    reveal_strlit("> ");
    let ps = seq!["### "@, "## "@, "# "@, "- "@, "* "@, "[x] "@, "[] "@, "[ ] "@, "> "@];
    assert forall|i: int| 0 <= i < ps.len() implies strip_prefix(s, #[trigger] ps[i]) is None by {
        if ps[i].len() <= s.len() {
            assert(s.subrange(0, ps[i].len() as int)[0] == s[0]);
        }
    }
    assert(ps[0] == "### "@ && ps[1] == "## "@ && ps[2] == "# "@ && ps[3] == "- "@ && ps[4] == "* "@);
    assert(ps[5] == "[x] "@ && ps[6] == "[] "@ && ps[7] == "[ ] "@ && ps[8] == "> "@);
}

/// Typing digits, a dot and a space at the start of a line turns any block
/// that is not exempt into a numbered-list item holding what follows.
pub proof fn lemma_numbered_shortcut(digits: Seq<char>, rest: Seq<char>, current: Option<BlockKind>)
    requires
        digits.len() >= 1,
        forall|i: int| 0 <= i < digits.len() ==> '0' <= #[trigger] digits[i] <= '9',
        !exempt_from_shortcuts(current),
    ensures
        spec_markdown_convert(digits + ". "@ + rest, current) == Some(
            (BlockKind::Numbered, rest, None::<bool>),
        ),
{
    reveal_strlit(". ");
    let s = digits + ". "@ + rest;
    let d = digits.len() as int;
    assert(s[0] == digits[0]);
    assert(s[d] == '.' && s[d + 1] == ' ');
    assert forall|j: int| 0 <= j < d implies '0' <= #[trigger] s[j] <= '9' by {
        assert(s[j] == digits[j]);
    }
    lemma_leading_digits(s, d);
    lemma_no_other_prefix(s);
    assert(s.subrange(d + 2, s.len() as int) =~= rest);
}

/// Typing "# " at the start of a line turns any block that is not exempt
/// into a top-level heading holding what follows.
pub proof fn lemma_heading_shortcut(rest: Seq<char>, current: Option<BlockKind>)
    requires
        !exempt_from_shortcuts(current),
    ensures
        spec_markdown_convert("# "@ + rest, current) == Some((BlockKind::Heading1, rest, None::<bool>)),
{
    reveal_strlit("### ");
    reveal_strlit("## ");
    reveal_strlit("# ");
    let s = "# "@ + rest;
    assert(s[0] == '#' && s[1] == ' ');
    if 4 <= s.len() {
        assert(s.subrange(0, 4)[1] == ' ');
    }
    if 3 <= s.len() {
        assert(s.subrange(0, 3)[1] == ' ');
    }
    assert(strip_prefix(s, "### "@) is None);
    assert(strip_prefix(s, "## "@) is None);
    assert(s.subrange(0, 2) =~= "# "@);
    assert(s.subrange(2, s.len() as int) =~= rest);
}

proof fn lemma_strip_own(p: Seq<char>, t: Seq<char>)
    ensures
        strip_prefix(p + t, p) == Some(t),
{
    assert((p + t).subrange(0, p.len() as int) =~= p);
    assert((p + t).subrange(p.len() as int, (p + t).len() as int) =~= t);
}

proof fn lemma_strip_differs(s: Seq<char>, q: Seq<char>, k: int)
    requires
        0 <= k < q.len(),
        k < s.len(),
        s[k] != q[k],
    ensures
        strip_prefix(s, q) is None,
{
    if q.len() <= s.len() {
        assert(s.subrange(0, q.len() as int)[k] == s[k]);
    }
}

/// The bullet, quote and to-do shortcuts: "- ", "* ", "> ", "[ ] ", "[] "
/// and "[x] " at the start of a line turn any block that is not exempt into
/// a bullet, a quote or a to-do (checked only for "[x] ") holding what
/// follows.
pub proof fn lemma_list_shortcuts(t: Seq<char>, current: Option<BlockKind>)
    requires
        !exempt_from_shortcuts(current),
    ensures
        spec_markdown_convert("- "@ + t, current) == Some((BlockKind::Bullet, t, None::<bool>)),
        spec_markdown_convert("* "@ + t, current) == Some((BlockKind::Bullet, t, None::<bool>)),
        spec_markdown_convert("> "@ + t, current) == Some((BlockKind::Quote, t, None::<bool>)),
        spec_markdown_convert("[x] "@ + t, current) == Some((BlockKind::Todo, t, Some(true))),
        spec_markdown_convert("[] "@ + t, current) == Some((BlockKind::Todo, t, None::<bool>)),
        spec_markdown_convert("[ ] "@ + t, current) == Some((BlockKind::Todo, t, None::<bool>)),
{
    reveal_strlit("### ");
    reveal_strlit("## ");
    reveal_strlit("# ");
    reveal_strlit("- ");
    reveal_strlit("* ");
    reveal_strlit("[x] ");
    reveal_strlit("[] ");
    reveal_strlit("[ ] ");
    reveal_strlit("> ");
    // "- " + t
    let s = "- "@ + t;
    assert(s[0] == '-');
    lemma_strip_differs(s, "### "@, 0);
    lemma_strip_differs(s, "## "@, 0);
    lemma_strip_differs(s, "# "@, 0);
    lemma_strip_own("- "@, t);
    // "* " + t
    let s = "* "@ + t;
    assert(s[0] == '*');
    lemma_strip_differs(s, "### "@, 0);
    lemma_strip_differs(s, "## "@, 0);
    lemma_strip_differs(s, "# "@, 0);
    lemma_strip_differs(s, "- "@, 0);
    lemma_strip_own("* "@, t);
    // "[x] " + t
    let s = "[x] "@ + t;
    assert(s[0] == '[' && s[1] == 'x');
    lemma_strip_differs(s, "### "@, 0);
    lemma_strip_differs(s, "## "@, 0);
    lemma_strip_differs(s, "# "@, 0);
    lemma_strip_differs(s, "- "@, 0);
    lemma_strip_differs(s, "* "@, 0);
    lemma_strip_own("[x] "@, t);
    // "[] " + t
    let s = "[] "@ + t;
    assert(s[0] == '[' && s[1] == ']');
    lemma_strip_differs(s, "### "@, 0);
    lemma_strip_differs(s, "## "@, 0);
    lemma_strip_differs(s, "# "@, 0);
    lemma_strip_differs(s, "- "@, 0);
    lemma_strip_differs(s, "* "@, 0);
    lemma_strip_differs(s, "[x] "@, 1);
    lemma_strip_own("[] "@, t);
    // "[ ] " + t
    let s = "[ ] "@ + t;
    assert(s[0] == '[' && s[1] == ' ');
    lemma_strip_differs(s, "### "@, 0);
    lemma_strip_differs(s, "## "@, 0);
    lemma_strip_differs(s, "# "@, 0);
    lemma_strip_differs(s, "- "@, 0);
    lemma_strip_differs(s, "* "@, 0);
    lemma_strip_differs(s, "[x] "@, 1);
    lemma_strip_differs(s, "[] "@, 1);
    lemma_strip_own("[ ] "@, t);
    // "> " + t
    let s = "> "@ + t;
    assert(s[0] == '>');
    lemma_strip_differs(s, "### "@, 0);
    lemma_strip_differs(s, "## "@, 0);
    lemma_strip_differs(s, "# "@, 0);
    lemma_strip_differs(s, "- "@, 0);
    lemma_strip_differs(s, "* "@, 0);
    lemma_strip_differs(s, "[x] "@, 0);
    lemma_strip_differs(s, "[] "@, 0);
    lemma_strip_differs(s, "[ ] "@, 0);
    lemma_strip_own("> "@, t);
}

/// The deeper heading shortcuts: "## " and "### " at the start of a line
/// turn any block that is not exempt into a second- or third-level heading
/// holding what follows.
pub proof fn lemma_deeper_heading_shortcuts(t: Seq<char>, current: Option<BlockKind>)
    requires
        !exempt_from_shortcuts(current),
    ensures
        spec_markdown_convert("## "@ + t, current) == Some((BlockKind::Heading2, t, None::<bool>)),
        spec_markdown_convert("### "@ + t, current) == Some((BlockKind::Heading3, t, None::<bool>)),
{
    reveal_strlit("### ");
    reveal_strlit("## ");
    let s = "## "@ + t;
    assert(s[2] == ' ');
    lemma_strip_differs(s, "### "@, 2);
    lemma_strip_own("## "@, t);
    lemma_strip_own("### "@, t);
}

/// The block-type tokens: a line that is exactly "---", "```" or "$$"
/// becomes an empty divider, code block or formula, and "$$ " at the start
/// of a line becomes a formula holding what follows, in any block that is
/// not exempt.
pub proof fn lemma_token_shortcuts(t: Seq<char>, current: Option<BlockKind>)
    requires
        !exempt_from_shortcuts(current),
    ensures
        spec_markdown_convert("---"@, current) == Some(
            (BlockKind::Divider, Seq::<char>::empty(), None::<bool>),
        ),
        spec_markdown_convert("```"@, current) == Some(
            (BlockKind::Code, Seq::<char>::empty(), None::<bool>),
        ),
        spec_markdown_convert("$$"@, current) == Some(
            (BlockKind::Math, Seq::<char>::empty(), None::<bool>),
        ),
        spec_markdown_convert("$$ "@ + t, current) == Some((BlockKind::Math, t, None::<bool>)),
{
    reveal_strlit("### ");
    reveal_strlit("## ");
    reveal_strlit("# ");
    reveal_strlit("- ");
    reveal_strlit("* ");
    reveal_strlit("[x] ");
    reveal_strlit("[] ");
    reveal_strlit("[ ] ");
    reveal_strlit("> ");
    reveal_strlit("---");
    reveal_strlit("```");
    reveal_strlit("$$ ");
    reveal_strlit("$$");
    // "---"
    let s = "---"@;
    lemma_no_other_prefix_but_dash(s);
    lemma_strip_differs(s, "- "@, 1);
    lemma_leading_digits(s, 0);
    // "```"
    let s = "```"@;
    lemma_no_other_prefix(s);
    lemma_leading_digits(s, 0);
    assert(s != "---"@) by {
        assert(s[0] != "---"@[0]);
    }
    // "$$ " + t
    let s = "$$ "@ + t;
    assert(s[0] == '$');
    lemma_no_other_prefix(s);
    lemma_leading_digits(s, 0);
    assert(s != "---"@) by {
        assert(s[0] != "---"@[0]);
    }
    assert(s != "```"@) by {
        assert(s[0] != "```"@[0]);
    }
    lemma_strip_own("$$ "@, t);
    // "$$"
    let s = "$$"@;
    lemma_no_other_prefix(s);
    lemma_leading_digits(s, 0);
    assert(s != "---"@) by {
        assert(s[0] != "---"@[0]);
    }
    assert(s != "```"@) by {
        assert(s[0] != "```"@[0]);
    }
}

proof fn lemma_no_other_prefix_but_dash(s: Seq<char>)
    requires
        s.len() >= 2,
        s[0] == '-',
    ensures
        strip_prefix(s, "### "@) is None,
        strip_prefix(s, "## "@) is None,
        strip_prefix(s, "# "@) is None,
        strip_prefix(s, "* "@) is None,
        strip_prefix(s, "[x] "@) is None,
        strip_prefix(s, "[] "@) is None,
        strip_prefix(s, "[ ] "@) is None,
        strip_prefix(s, "> "@) is None,
{
    reveal_strlit("### ");
    reveal_strlit("## ");
    reveal_strlit("# ");
    reveal_strlit("* ");
    reveal_strlit("[x] ");
    reveal_strlit("[] ");
    reveal_strlit("[ ] ");
    reveal_strlit("> ");
    lemma_strip_differs(s, "### "@, 0);
    lemma_strip_differs(s, "## "@, 0);
    lemma_strip_differs(s, "# "@, 0);
    lemma_strip_differs(s, "* "@, 0);
    lemma_strip_differs(s, "[x] "@, 0);
    lemma_strip_differs(s, "[] "@, 0);
    lemma_strip_differs(s, "[ ] "@, 0);
    lemma_strip_differs(s, "> "@, 0);
}

// ---- renderer ----

/// Which renderer backends a build was compiled with.
#[derive(Clone, Copy)]
pub struct RendererFeatures {
    pub femtovg: bool,
    pub femtovg_wgpu: bool,
    pub skia: bool,
    pub skia_opengl: bool,
    pub software: bool,
}

/// The features this library is built with: none of the renderer backends
/// (the library has no renderer of its own).
pub open spec fn spec_build_renderer() -> RendererFeatures {
    RendererFeatures { femtovg: false, femtovg_wgpu: false, skia: false, skia_opengl: false, software: false }
}

fn build_renderer() -> (r: RendererFeatures)
    ensures
        r == spec_build_renderer(),
{
    RendererFeatures { femtovg: false, femtovg_wgpu: false, skia: false, skia_opengl: false, software: false }
}

/// The machine-readable renderer id, the first backend present in the
/// order femtovg, femtovg-wgpu, skia (either flavour), software.
pub open spec fn spec_renderer_id(f: RendererFeatures) -> Seq<char> {
    if f.femtovg {
        "femtovg"@
    } else if f.femtovg_wgpu {
        "femtovg-wgpu"@
    } else if f.skia || f.skia_opengl {
        "skia"@
    } else if f.software {
        "software"@
    } else {
        "unknown"@
    }
}

/// The display name, by the same precedence, telling the two skia
/// flavours apart.
pub open spec fn spec_renderer_name(f: RendererFeatures) -> Seq<char> {
    if f.femtovg {
        "FemtoVG · GL"@
    } else if f.femtovg_wgpu {
        "FemtoVG · wgpu"@
    } else if f.skia {
        "Skia"@
    } else if f.skia_opengl {
        "Skia · GL"@
    } else if f.software {
        "Software"@
    } else {
        "unknown"@
    }
}

/// Machine-readable renderer id for a build with the features `f`
/// ("femtovg"/"skia"/...). The display name is [`renderer_name_for`].
pub fn renderer_id_for(f: RendererFeatures) -> (r: &'static str)
    ensures
        r@ == spec_renderer_id(f),
{
    if f.femtovg {
        "femtovg"
    } else if f.femtovg_wgpu {
        "femtovg-wgpu"
    } else if f.skia || f.skia_opengl {
        "skia"
    } else if f.software {
        "software"
    } else {
        "unknown"
    }
}

/// The renderer's display name for a build with the features `f`.
pub fn renderer_name_for(f: RendererFeatures) -> (r: &'static str)
    ensures
        r@ == spec_renderer_name(f),
{
    if f.femtovg {
        "FemtoVG · GL"
    } else if f.femtovg_wgpu {
        "FemtoVG · wgpu"
    } else if f.skia {
        "Skia"
    } else if f.skia_opengl {
        "Skia · GL"
    } else if f.software {
        "Software"
    } else {
        "unknown"
    }
}

/// Machine-readable renderer id of this build.
pub fn renderer_id() -> (r: &'static str)
    ensures
        r@ == spec_renderer_id(spec_build_renderer()),
{
    renderer_id_for(build_renderer())
}

/// The renderer's display name for this build.
pub fn renderer_name() -> (r: &'static str)
    ensures
        r@ == spec_renderer_name(spec_build_renderer()),
{
    renderer_name_for(build_renderer())
}

// ---- what an edit inserted ----

/// One change an edit made to the document, as far as the caret cares: a
/// block inserted (its id and kind), or anything else.
#[derive(Debug, Clone, Copy, PartialEq, Eq, Structural)]
pub enum Change {
    BlockInserted { id: u64, kind: BlockKind },
    Other,
}

/// The id of the first block inserted at or after `from` whose kind `pick`
/// takes.
pub open spec fn first_inserted(changes: Seq<Change>, pick: spec_fn(BlockKind) -> bool, from: int) -> Option<u64>
    decreases changes.len() - from,
{
    if from < 0 || from >= changes.len() {
        None
    } else {
        match changes[from] {
            Change::BlockInserted { id, kind } => if pick(kind) {
                Some(id)
            } else {
                first_inserted(changes, pick, from + 1)
            },
            Change::Other => first_inserted(changes, pick, from + 1),
        }
    }
}

pub open spec fn any_kind() -> spec_fn(BlockKind) -> bool {
    |k: BlockKind| true
}

pub open spec fn kind_is(want: BlockKind) -> spec_fn(BlockKind) -> bool {
    |k: BlockKind| k == want
}

/// The id, as the UI's int, of the first inserted block of kind `want`
/// (of any kind when `want` is none).
fn first_inserted_id(changes: &[Change], want: Option<BlockKind>) -> (r: Option<i32>)
    ensures
        r == (match first_inserted(
            changes@,
            match want {
                Some(k) => kind_is(k),
                None => any_kind(),
            },
            0,
        ) {
            Some(id) => Some(id as i32),
            None => None::<i32>,
        }),
{
    let ghost pick = match want {
        Some(k) => kind_is(k),
        None => any_kind(),
    };
    let mut i: usize = 0;
    while i < changes.len()
        invariant
            i <= changes@.len(),
            pick == (match want {
                Some(k) => kind_is(k),
                None => any_kind(),
            }),
            first_inserted(changes@, pick, 0) == first_inserted(changes@, pick, i as int),
        decreases changes@.len() - i,
    {
        match changes[i] {
            Change::BlockInserted { id, kind } => {
                let take = match want {
                    Some(k) => kind == k,
                    None => true,
                };
                if take {
                    return Some(id as i32);
                }
            },
            Change::Other => {},
        }
        i = i + 1;
    }
    None
}

/// The block a command inserted, as the UI's int: the first one.
pub fn find_inserted_id(changes: &[Change]) -> (r: Option<i32>)
    ensures
        r == (match first_inserted(changes@, any_kind(), 0) {
            Some(id) => Some(id as i32),
            None => None::<i32>,
        }),
{
    first_inserted_id(changes, None)
}

/// The first cell a grid-building command created: the cell a table's caret
/// starts in (cells are inserted row-major, so it is the top-left one).
pub fn find_inserted_cell_id(changes: &[Change]) -> (r: Option<i32>)
    ensures
        r == (match first_inserted(changes@, kind_is(BlockKind::TableCell), 0) {
            Some(id) => Some(id as i32),
            None => None::<i32>,
        }),
{
    first_inserted_id(changes, Some(BlockKind::TableCell))
}

/// The first line a layout-building command created: where a columns caret
/// starts (a box and its first line are inserted as a pair, so it is the
/// first box's).
pub fn find_inserted_line_id(changes: &[Change]) -> (r: Option<i32>)
    ensures
        r == (match first_inserted(changes@, kind_is(BlockKind::Paragraph), 0) {
            Some(id) => Some(id as i32),
            None => None::<i32>,
        }),
{
    first_inserted_id(changes, Some(BlockKind::Paragraph))
}

// ---- small decisions of the shell ----

/// The page the search panel opens: the row picked with the pointer, else
/// the row the keyboard focus is on (a negative focus reads as past the
/// end), else "Getting Started".
pub open spec fn spec_search_target(selected: i32, focus: i32, row_pages: Seq<i32>) -> i32 {
    let from_focus = if selected < 0 {
        if 0 <= focus < row_pages.len() {
            row_pages[focus as int]
        } else {
            -1i32
        }
    } else {
        selected
    };
    if from_focus < 0 {
        PAGE_GETTING_STARTED
    } else {
        from_focus
    }
}

/// The page to open from the search panel, given the row picked with the
/// pointer (`selected`, negative for none), the keyboard focus and the page
/// of each result row.
pub fn search_target(selected: i32, focus: i32, row_pages: &[i32]) -> (r: i32)
    ensures
        r == spec_search_target(selected, focus, row_pages@),
{
    let mut id = selected;
    if id < 0 {
        id = if focus >= 0 && (focus as usize) < row_pages.len() {
            row_pages[focus as usize]
        } else {
            -1
        };
    }
    if id < 0 {
        id = PAGE_GETTING_STARTED;
    }
    id
}

/// One tick of the page-switching benchmark: the page at the cursor (taken
/// round the list), and the cursor moved on by one, round the list. Nothing
/// happens on an empty list.
pub fn bench_switch_next(bench_ids: &[i32], cursor: &mut usize) -> (r: Option<i32>)
    requires
        *old(cursor) < usize::MAX,
    ensures
        bench_ids@.len() == 0 ==> r is None && *final(cursor) == *old(cursor),
        bench_ids@.len() > 0 ==> r == Some(bench_ids@[(*old(cursor) as int) % (bench_ids@.len() as int)])
            && *final(cursor) == (*old(cursor) as int + 1) % (bench_ids@.len() as int),
{
    if bench_ids.len() == 0 {
        return None;
    }
    let id = bench_ids[*cursor % bench_ids.len()];
    *cursor = (*cursor + 1) % bench_ids.len();
    Some(id)
}

} // verus!
