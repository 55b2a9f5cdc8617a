use tailspin::date_slash::DateSlashHighlighter;
use tailspin::line_info::LineInfo;
use tailspin::pipeline::{Highlighter, Pipeline};
use tailspin::style::Style;

fn marker_style(open: &str, close: &str) -> Style {
    Style::new(open.as_bytes().to_vec(), close.as_bytes().to_vec())
}

fn marker_pipeline() -> Pipeline {
    let number = marker_style("<N>", "</N>");
    let separator = marker_style("<S>", "</S>");
    Pipeline::new(vec![Highlighter::DateSlash(DateSlashHighlighter::new(number, separator))])
}

fn run(line: &str) -> String {
    let out = marker_pipeline().process(line.as_bytes());
    String::from_utf8(out).unwrap()
}

#[test]
fn both_date_forms_are_styled_in_order() {
    let got = run("logged at 2024/03/15 and 15/Mar/2024");
    let want = "logged at <N>2024</N><S>/</S><N>03</N><S>/</S><N>15</N> \
                and <N>15</N><S>/</S><N>Mar</N><S>/</S><N>2024</N>";
    assert_eq!(got, want);
}

#[test]
fn wrong_separator_yields_no_styling() {
    assert_eq!(run("2024-03-15"), "2024-03-15");
}

#[test]
fn plain_line_is_returned_unchanged() {
    assert_eq!(run("no dates here"), "no dates here");
    assert_eq!(run(""), "");
}

#[test]
fn slashes_without_a_date_are_unchanged() {
    assert_eq!(run("a/b/c"), "a/b/c");
    assert_eq!(run("//"), "//");
}

#[test]
fn year_range_is_2020_to_2099() {
    assert_eq!(run("2019/03/15"), "2019/03/15");
    assert_eq!(run("2100/01/01"), "2100/01/01");
    assert_eq!(run("2020/01/01"), "<N>2020</N><S>/</S><N>01</N><S>/</S><N>01</N>");
    assert_eq!(run("2099/12/31"), "<N>2099</N><S>/</S><N>12</N><S>/</S><N>31</N>");
}

#[test]
fn month_and_day_ranges_are_checked() {
    assert_eq!(run("2024/13/01"), "2024/13/01");
    assert_eq!(run("2024/00/01"), "2024/00/01");
    assert_eq!(run("2024/01/32"), "2024/01/32");
    assert_eq!(run("2024/01/00"), "2024/01/00");
    assert_eq!(run("32/Jan/2024"), "32/Jan/2024");
}

#[test]
fn month_names_match_any_case() {
    assert_eq!(run("15/mar/2024"), "<N>15</N><S>/</S><N>mar</N><S>/</S><N>2024</N>");
    assert_eq!(run("15/MAR/2024"), "<N>15</N><S>/</S><N>MAR</N><S>/</S><N>2024</N>");
    assert_eq!(run("15/Max/2024"), "15/Max/2024");
}

#[test]
fn matches_are_word_bounded() {
    assert_eq!(run("x2024/03/15"), "x2024/03/15");
    assert_eq!(run("2024/03/159"), "2024/03/159");
    assert_eq!(run("15/Mar/2024x"), "15/Mar/2024x");
    assert_eq!(run("(2024/03/15)"), "(<N>2024</N><S>/</S><N>03</N><S>/</S><N>15</N>)");
}

#[test]
fn earlier_highlighter_wins_and_swapping_changes_the_winner() {
    let first = Highlighter::DateSlash(DateSlashHighlighter::new(
        marker_style("<A>", "</A>"),
        marker_style("<A>", "</A>"),
    ));
    let second = Highlighter::DateSlash(DateSlashHighlighter::new(
        marker_style("<B>", "</B>"),
        marker_style("<B>", "</B>"),
    ));
    let forward = Pipeline::new(vec![first, second]);
    let got = String::from_utf8(forward.process(b"2024/03/15")).unwrap();
    assert_eq!(got, "<A>2024</A><A>/</A><A>03</A><A>/</A><A>15</A>");

    let first = Highlighter::DateSlash(DateSlashHighlighter::new(
        marker_style("<A>", "</A>"),
        marker_style("<A>", "</A>"),
    ));
    let second = Highlighter::DateSlash(DateSlashHighlighter::new(
        marker_style("<B>", "</B>"),
        marker_style("<B>", "</B>"),
    ));
    let swapped = Pipeline::new(vec![second, first]);
    let got = String::from_utf8(swapped.process(b"2024/03/15")).unwrap();
    assert_eq!(got, "<B>2024</B><B>/</B><B>03</B><B>/</B><B>15</B>");
}

#[test]
fn styled_ranges_are_never_restyled() {
    // The first highlighter claims the date with invisible (empty) markers,
    // so its styled output is byte-identical to the input. If the second
    // highlighter were allowed to re-match inside that styled range, the
    // output would carry its markers; it must not.
    let invisible = Highlighter::DateSlash(DateSlashHighlighter::new(
        marker_style("", ""),
        marker_style("", ""),
    ));
    let loud = Highlighter::DateSlash(DateSlashHighlighter::new(
        marker_style("<B>", "</B>"),
        marker_style("<B>", "</B>"),
    ));
    let p = Pipeline::new(vec![invisible, loud]);
    let got = String::from_utf8(p.process(b"at 2024/03/15 now")).unwrap();
    assert_eq!(got, "at 2024/03/15 now");
}

#[test]
fn apply_matches_pipeline_on_single_highlighter() {
    let h = DateSlashHighlighter::new(marker_style("<N>", "</N>"), marker_style("<S>", "</S>"));
    let direct = h.apply(b"see 15/Jun/2021!");
    assert_eq!(
        String::from_utf8(direct).unwrap(),
        "see <N>15</N><S>/</S><N>Jun</N><S>/</S><N>2021</N>!"
    );
}

#[test]
fn line_info_counts_slashes_exactly() {
    assert_eq!(LineInfo::compute(b"a/b/c").slashes, 2);
    assert_eq!(LineInfo::compute(b"").slashes, 0);
    assert_eq!(LineInfo::compute(b"///").slashes, 3);
    assert_eq!(LineInfo::compute(b"no slash").slashes, 0);
}

#[test]
fn fast_reject_agrees_with_full_run() {
    // Lines with fewer than two slashes are exactly the ones the fast-reject
    // check skips; the full transform must leave every one of them unchanged.
    for line in ["", "a", "a/b", "2024", "2024/03", "15/Mar"] {
        let info = LineInfo::compute(line.as_bytes());
        assert!(info.slashes < 2);
        assert_eq!(run(line), line);
    }
}

#[test]
fn ansi_styles_from_the_terminal_palette() {
    let number = Style::fixed(196);
    let separator = Style::fixed(240);
    let p = Pipeline::new(vec![Highlighter::DateSlash(DateSlashHighlighter::new(
        number, separator,
    ))]);
    let got = p.process(b"2024/03/15");
    let want = "\x1b[38;5;196m2024\x1b[0m\x1b[38;5;240m/\x1b[0m\x1b[38;5;196m03\x1b[0m\
                \x1b[38;5;240m/\x1b[0m\x1b[38;5;196m15\x1b[0m";
    assert_eq!(String::from_utf8(got).unwrap(), want);
}

#[test]
fn multiple_matches_on_one_line() {
    let got = run("2024/01/02 2024/03/04");
    assert_eq!(
        got,
        "<N>2024</N><S>/</S><N>01</N><S>/</S><N>02</N> <N>2024</N><S>/</S><N>03</N><S>/</S><N>04</N>"
    );
}
