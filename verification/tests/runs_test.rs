use quire::app::state::runs::{build_runs, Mark, MarkKind, TextRun};

fn cells(runs: &[TextRun]) -> Vec<&str> {
    runs.iter().map(|r| r.text.as_str()).collect()
}

fn mark(start: usize, end: usize, kind: MarkKind) -> Mark {
    Mark { start, end, kind, url: String::new() }
}

#[test]
fn a_marked_line_is_cut_to_words_between_the_marks() {
    let text = "one two three bold words four five";
    let span = |s: &str| text.find(s).unwrap();
    let marks = [mark(span("bold"), span("bold") + "bold words".len(), MarkKind::Bold)];
    let runs = build_runs(text, &marks, &[]);
    let cells = cells(&runs);
    assert_eq!(
        cells,
        vec!["one ", "two ", "three ", "bold words", " four ", "five"],
        "the marked stretch stays one cell, the plain stretches do not"
    );
    // only a stretch that opens right after a mark carries its space, and
    // that is one cell wide: the words inside a stretch start clean
    assert!(cells[1..4].iter().all(|c| !c.starts_with(' ')));
    assert_eq!(
        runs.iter()
            .map(|r| (r.bold, r.italic, r.strike, r.code, r.link))
            .filter(|f| *f != (false, false, false, false, false))
            .count(),
        1,
        "a mark leaked onto a plain word"
    );
    // cutting is a re-join, never a rewrite
    let back: String = runs.iter().map(|r| r.text.as_str()).collect();
    assert_eq!(back, text);
}

#[test]
fn the_word_cut_joins_back_to_the_text_it_came_from() {
    for (text, marks) in [
        ("code here and  more", vec![mark(0, 4, MarkKind::Code)]),
        (
            "写作与中文测试 link 结尾",
            vec![mark("写作与中文测试 ".len(), "写作与中文测试 link".len(), MarkKind::Italic)],
        ),
        // a mark whose end is the end of the line leaves no tail to cut
        ("tail only", vec![mark(5, 9, MarkKind::Strike)]),
    ] {
        let runs = build_runs(text, &marks, &[]);
        let back: String = runs.iter().map(|r| r.text.as_str()).collect();
        assert_eq!(back, text, "the runs of {text:?} do not re-join");
        assert!(
            runs.iter().all(|r| !r.text.is_empty()),
            "an empty cell in {text:?} costs an item and paints nothing"
        );
    }
}

#[test]
fn a_hit_is_its_own_cell_and_no_cell_is_part_of_a_hit() {
    // a needle's byte span, counted from `from` so a repeat is addressable
    let span = |text: &str, needle: &str, from: usize| {
        let s = text[from..].find(needle).unwrap() + from;
        (s, s + needle.len())
    };

    // no marks at all, yet the row has to be runs: an empty list means
    // "paint this as one unbroken text", which cannot show a match
    let text = "alpha beta gamma beta";
    let runs = build_runs(text, &[], &[span(text, "beta", 0), span(text, "beta", 11)]);
    assert_eq!(
        cells(&runs),
        vec!["alpha ", "beta", " gamma ", "beta"],
        "the two matches are two cells, the plain stretches are words"
    );
    let flagged: Vec<&str> = runs.iter().filter(|r| r.hit).map(|r| r.text.as_str()).collect();
    assert_eq!(flagged, vec!["beta", "beta"], "a tint leaked, or a match went unpainted");

    // a mid-word hit cuts the word it sits in
    let text = "unforgettable";
    let runs = build_runs(text, &[], &[span(text, "forget", 0)]);
    assert_eq!(cells(&runs), vec!["un", "forget", "table"]);
    assert!(runs[1].hit && !runs[0].hit && !runs[2].hit);
    let back: String = runs.iter().map(|r| r.text.as_str()).collect();
    assert_eq!(back, text);

    // a hit inside a mark moves to the mark, which is never cut
    let text = "see the bold words now";
    let bold = span(text, "bold", 0);
    let marks = [mark(bold.0, bold.1 + " words".len(), MarkKind::Bold)];
    let runs = build_runs(text, &marks, &[span(text, "old wor", 0)]);
    assert_eq!(
        cells(&runs),
        vec!["see ", "the ", "bold words", " now"],
        "a hit cut a marked stretch in two"
    );
    assert!(runs[2].hit, "the mark the hit landed in is the cell");
    assert!(runs[2].bold);
}

#[test]
fn a_plain_line_or_an_empty_one_has_no_runs() {
    assert!(build_runs("plain words here", &[], &[]).is_empty());
    assert!(build_runs("", &[mark(0, 3, MarkKind::Bold)], &[]).is_empty());
}

#[test]
fn a_link_run_carries_its_url_and_a_formula_run_its_source() {
    let text = "see docs and \\alpha here";
    let mut link = mark(4, 8, MarkKind::Link);
    link.url = "https://example.org/docs".to_string();
    let math = mark(13, 19, MarkKind::Math);
    let runs = build_runs(text, &[link, math], &[]);
    assert_eq!(cells(&runs), vec!["see ", "docs", " and ", "\\alpha", " here"]);
    assert!(runs[1].link);
    assert_eq!(runs[1].url, "https://example.org/docs");
    assert_eq!(runs[0].url, "");
    assert!(runs[3].math && !runs[3].link);
    assert!(!runs[2].math);
}

#[test]
fn a_mark_off_a_char_boundary_is_no_cut() {
    // byte 1 is inside the two-byte "é": no cut there, the whole line is one
    // plain stretch cut to words
    let text = "é word";
    let runs = build_runs(text, &[mark(1, 3, MarkKind::Bold)], &[]);
    let back: String = runs.iter().map(|r| r.text.as_str()).collect();
    assert_eq!(back, text);
    assert!(runs.iter().all(|r| !r.text.is_empty()));
}
