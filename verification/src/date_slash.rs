//! The exemplar highlighter: a recognizer for two slash-separated date
//! shapes, `YYYY/MM/DD` (year 2020-2099, month 01-12, day 01-31) and
//! `DD/Mon/YYYY` (three-letter month name, matched case-insensitively).
//! Matches are word-bounded, scanned leftmost-first and never overlap; each
//! match is re-rendered with the numeric components in one style and the two
//! separators in another, in their original order.

use crate::segment::{segs_view, SegView, Segment};
use crate::style::{paint_spec, Style, StyleView};
use crate::SLASH;
use vstd::prelude::*;

verus! {

/// An ASCII decimal digit.
pub open spec fn is_digit(b: u8) -> bool {
    48 <= b <= 57
}

/// A byte that can sit inside an alphanumeric run: an ASCII letter, digit or
/// underscore, or any non-ASCII byte (so a match never starts or ends inside
/// a multi-byte character).
pub open spec fn is_word_byte(b: u8) -> bool {
    is_digit(b) || (65 <= b <= 90) || (97 <= b <= 122) || b == 95 || b >= 128
}

/// ASCII lower-casing of one byte.
pub open spec fn lower(b: u8) -> u8 {
    if 65 <= b <= 90 {
        (b + 32) as u8
    } else {
        b
    }
}

/// A year 2020-2099 written at position `i`.
pub open spec fn year_at(s: Seq<u8>, i: int) -> bool {
    s[i] == 50 && s[i + 1] == 48 && 50 <= s[i + 2] <= 57 && is_digit(s[i + 3])
}

/// A month 01-12 written at position `i`.
pub open spec fn month_num_at(s: Seq<u8>, i: int) -> bool {
    (s[i] == 48 && 49 <= s[i + 1] <= 57) || (s[i] == 49 && 48 <= s[i + 1] <= 50)
}

/// A day 01-31 written at position `i`.
pub open spec fn day_at(s: Seq<u8>, i: int) -> bool {
    (s[i] == 48 && 49 <= s[i + 1] <= 57) || ((s[i] == 49 || s[i] == 50) && is_digit(s[i + 1])) || (
    s[i] == 51 && (s[i + 1] == 48 || s[i + 1] == 49))
}

/// Three bytes that spell a month abbreviation Jan-Dec, any letter case.
pub open spec fn month_abbrev(a: u8, b: u8, c: u8) -> bool {
    let x = lower(a);
    let y = lower(b);
    let z = lower(c);
    ||| (x == 106 && y == 97 && z == 110)  // jan
    ||| (x == 102 && y == 101 && z == 98)  // feb
    ||| (x == 109 && y == 97 && z == 114)  // mar
    ||| (x == 97 && y == 112 && z == 114)  // apr
    ||| (x == 109 && y == 97 && z == 121)  // may
    ||| (x == 106 && y == 117 && z == 110)  // jun
    ||| (x == 106 && y == 117 && z == 108)  // jul
    ||| (x == 97 && y == 117 && z == 103)  // aug
    ||| (x == 115 && y == 101 && z == 112)  // sep
    ||| (x == 111 && y == 99 && z == 116)  // oct
    ||| (x == 110 && y == 111 && z == 118)  // nov
    ||| (x == 100 && y == 101 && z == 99)  // dec

}

/// No alphanumeric run continues across the left edge `i`.
pub open spec fn boundary_before(s: Seq<u8>, i: int) -> bool {
    i == 0 || !is_word_byte(s[i - 1])
}

/// No alphanumeric run continues across the right edge `j`.
pub open spec fn boundary_after(s: Seq<u8>, j: int) -> bool {
    j == s.len() || !is_word_byte(s[j])
}

/// A word-bounded `YYYY/MM/DD` match at position `i` (10 bytes).
pub open spec fn match_a_at(s: Seq<u8>, i: int) -> bool {
    &&& 0 <= i
    &&& i + 10 <= s.len()
    &&& boundary_before(s, i)
    &&& year_at(s, i)
    &&& s[i + 4] == SLASH
    &&& month_num_at(s, i + 5)
    &&& s[i + 7] == SLASH
    &&& day_at(s, i + 8)
    &&& boundary_after(s, i + 10)
}

/// A word-bounded `DD/Mon/YYYY` match at position `i` (11 bytes).
pub open spec fn match_b_at(s: Seq<u8>, i: int) -> bool {
    &&& 0 <= i
    &&& i + 11 <= s.len()
    &&& boundary_before(s, i)
    &&& day_at(s, i)
    &&& s[i + 2] == SLASH
    &&& month_abbrev(s[i + 3], s[i + 4], s[i + 5])
    &&& s[i + 6] == SLASH
    &&& year_at(s, i + 7)
    &&& boundary_after(s, i + 11)
}

/// The styled replacement of a `YYYY/MM/DD` match: the three numeric parts in
/// the number style, the two slashes in the separator style, original order.
pub open spec fn styled_a_text(s: Seq<u8>, i: int, num: StyleView, sep: StyleView) -> Seq<u8> {
    paint_spec(num, s.subrange(i, i + 4)) + paint_spec(sep, s.subrange(i + 4, i + 5)) + paint_spec(
        num,
        s.subrange(i + 5, i + 7),
    ) + paint_spec(sep, s.subrange(i + 7, i + 8)) + paint_spec(num, s.subrange(i + 8, i + 10))
}

/// The styled replacement of a `DD/Mon/YYYY` match, original order.
pub open spec fn styled_b_text(s: Seq<u8>, i: int, num: StyleView, sep: StyleView) -> Seq<u8> {
    paint_spec(num, s.subrange(i, i + 2)) + paint_spec(sep, s.subrange(i + 2, i + 3)) + paint_spec(
        num,
        s.subrange(i + 3, i + 6),
    ) + paint_spec(sep, s.subrange(i + 6, i + 7)) + paint_spec(num, s.subrange(i + 7, i + 11))
}

/// The transformed tail of `s` from position `i` on: a leftmost-first scan
/// that replaces each non-overlapping match and copies every other byte.
pub open spec fn date_highlight_from(s: Seq<u8>, i: int, num: StyleView, sep: StyleView) -> Seq<u8>
    decreases s.len() - i,
    when 0 <= i <= s.len()
{
    if i >= s.len() {
        Seq::empty()
    } else if match_a_at(s, i) {
        styled_a_text(s, i, num, sep) + date_highlight_from(s, i + 10, num, sep)
    } else if match_b_at(s, i) {
        styled_b_text(s, i, num, sep) + date_highlight_from(s, i + 11, num, sep)
    } else {
        seq![s[i]] + date_highlight_from(s, i + 1, num, sep)
    }
}

/// The whole transformed line.
pub open spec fn date_highlight(s: Seq<u8>, num: StyleView, sep: StyleView) -> Seq<u8> {
    date_highlight_from(s, 0, num, sep)
}

/// Prepends one plain byte to a segment sequence, extending a leading plain
/// segment rather than creating an adjacent one.
pub open spec fn plain_cons(b: u8, rest: Seq<SegView>) -> Seq<SegView> {
    if rest.len() > 0 && !rest[0].styled {
        seq![SegView { styled: false, text: seq![b] + rest[0].text }] + rest.drop_first()
    } else {
        seq![SegView { styled: false, text: seq![b] }] + rest
    }
}

/// The segments the scan produces for the tail of `s` from `i` on: one styled
/// segment per match, and each maximal unmatched run as one plain segment.
pub open spec fn date_segments_from(s: Seq<u8>, i: int, num: StyleView, sep: StyleView) -> Seq<
    SegView,
>
    decreases s.len() - i,
    when 0 <= i <= s.len()
{
    if i >= s.len() {
        Seq::empty()
    } else if match_a_at(s, i) {
        seq![SegView { styled: true, text: styled_a_text(s, i, num, sep) }] + date_segments_from(
            s,
            i + 10,
            num,
            sep,
        )
    } else if match_b_at(s, i) {
        seq![SegView { styled: true, text: styled_b_text(s, i, num, sep) }] + date_segments_from(
            s,
            i + 11,
            num,
            sep,
        )
    } else {
        plain_cons(s[i], date_segments_from(s, i + 1, num, sep))
    }
}

/// The segments of the whole transformed line.
pub open spec fn date_segments(s: Seq<u8>, num: StyleView, sep: StyleView) -> Seq<SegView> {
    date_segments_from(s, 0, num, sep)
}

fn is_digit_x(b: u8) -> (r: bool)
    ensures
        r == is_digit(b),
{
    48 <= b && b <= 57
}

fn is_word_byte_x(b: u8) -> (r: bool)
    ensures
        r == is_word_byte(b),
{
    is_digit_x(b) || (65 <= b && b <= 90) || (97 <= b && b <= 122) || b == 95 || b >= 128
}

fn lower_x(b: u8) -> (r: u8)
    ensures
        r == lower(b),
{
    if 65 <= b && b <= 90 {
        b + 32
    } else {
        b
    }
}

fn month_abbrev_x(a: u8, b: u8, c: u8) -> (r: bool)
    ensures
        r == month_abbrev(a, b, c),
{
    let x = lower_x(a);
    let y = lower_x(b);
    let z = lower_x(c);
    (x == 106 && y == 97 && z == 110) || (x == 102 && y == 101 && z == 98) || (x == 109 && y == 97
        && z == 114) || (x == 97 && y == 112 && z == 114) || (x == 109 && y == 97 && z == 121) || (x
        == 106 && y == 117 && z == 110) || (x == 106 && y == 117 && z == 108) || (x == 97 && y
        == 117 && z == 103) || (x == 115 && y == 101 && z == 112) || (x == 111 && y == 99 && z
        == 116) || (x == 110 && y == 111 && z == 118) || (x == 100 && y == 101 && z == 99)
}

fn year_x(s: &[u8], i: usize) -> (r: bool)
    requires
        i + 4 <= s@.len(),
    ensures
        r == year_at(s@, i as int),
{
    s[i] == 50 && s[i + 1] == 48 && 50 <= s[i + 2] && s[i + 2] <= 57 && is_digit_x(s[i + 3])
}

fn month_num_x(s: &[u8], i: usize) -> (r: bool)
    requires
        i + 2 <= s@.len(),
    ensures
        r == month_num_at(s@, i as int),
{
    (s[i] == 48 && 49 <= s[i + 1] && s[i + 1] <= 57) || (s[i] == 49 && 48 <= s[i + 1] && s[i + 1]
        <= 50)
}

fn day_x(s: &[u8], i: usize) -> (r: bool)
    requires
        i + 2 <= s@.len(),
    ensures
        r == day_at(s@, i as int),
{
    (s[i] == 48 && 49 <= s[i + 1] && s[i + 1] <= 57) || ((s[i] == 49 || s[i] == 50) && is_digit_x(
        s[i + 1],
    )) || (s[i] == 51 && (s[i + 1] == 48 || s[i + 1] == 49))
}

fn boundary_before_x(s: &[u8], i: usize) -> (r: bool)
    requires
        i <= s@.len(),
    ensures
        r == boundary_before(s@, i as int),
{
    i == 0 || !is_word_byte_x(s[i - 1])
}

fn boundary_after_x(s: &[u8], j: usize) -> (r: bool)
    requires
        j <= s@.len(),
    ensures
        r == boundary_after(s@, j as int),
{
    j == s.len() || !is_word_byte_x(s[j])
}

/// A pending run of plain bytes put before a segment sequence, extending a
/// leading plain segment rather than creating an adjacent one.
pub open spec fn prepend_plain(t: Seq<u8>, rest: Seq<SegView>) -> Seq<SegView> {
    if t.len() == 0 {
        rest
    } else if rest.len() > 0 && !rest[0].styled {
        seq![SegView { styled: false, text: t + rest[0].text }] + rest.drop_first()
    } else {
        seq![SegView { styled: false, text: t }] + rest
    }
}

/// Moving one plain byte from the scan into the pending run commutes.
proof fn lemma_prepend_plain_snoc(t: Seq<u8>, b: u8, rest: Seq<SegView>)
    ensures
        prepend_plain(t, plain_cons(b, rest)) =~~= prepend_plain(t.push(b), rest),
{
    let one = seq![b];
    assert(t + one =~= t.push(b));
    if rest.len() > 0 && !rest[0].styled {
        let merged = SegView { styled: false, text: one + rest[0].text };
        assert(plain_cons(b, rest) == seq![merged] + rest.drop_first());
        assert((seq![merged] + rest.drop_first()).len() > 0);
        assert((seq![merged] + rest.drop_first())[0] == merged);
        if t.len() == 0 {
            assert(prepend_plain(t.push(b), rest) =~~= seq![merged] + rest.drop_first());
        } else {
            assert((seq![merged] + rest.drop_first()).drop_first() =~= rest.drop_first());
            assert(t + (one + rest[0].text) =~= t.push(b) + rest[0].text);
        }
    } else {
        let alone = SegView { styled: false, text: one };
        assert(plain_cons(b, rest) == seq![alone] + rest);
        assert((seq![alone] + rest)[0] == alone);
        if t.len() == 0 {
        } else {
            assert((seq![alone] + rest).drop_first() =~= rest);
            assert(t + one =~= t.push(b));
        }
    }
}

/// Concatenating the scan's segments yields the flat transformed text.
proof fn lemma_concat_plain_cons(b: u8, rest: Seq<SegView>)
    ensures
        crate::segment::concat_texts(plain_cons(b, rest)) =~= seq![b]
            + crate::segment::concat_texts(rest),
{
    let one = seq![b];
    if rest.len() > 0 && !rest[0].styled {
        let merged = SegView { styled: false, text: one + rest[0].text };
        assert(plain_cons(b, rest) == seq![merged] + rest.drop_first());
        assert((seq![merged] + rest.drop_first())[0] == merged);
        assert((seq![merged] + rest.drop_first()).drop_first() =~= rest.drop_first());
    } else {
        let alone = SegView { styled: false, text: one };
        assert(plain_cons(b, rest) == seq![alone] + rest);
        assert((seq![alone] + rest)[0] == alone);
        assert((seq![alone] + rest).drop_first() =~= rest);
    }
}

pub proof fn lemma_concat_date_segments(s: Seq<u8>, i: int, num: StyleView, sep: StyleView)
    requires
        0 <= i <= s.len(),
    ensures
        crate::segment::concat_texts(date_segments_from(s, i, num, sep)) =~= date_highlight_from(
            s,
            i,
            num,
            sep,
        ),
    decreases s.len() - i,
{
    if i >= s.len() {
    } else if match_a_at(s, i) {
        let st = SegView { styled: true, text: styled_a_text(s, i, num, sep) };
        let rest = date_segments_from(s, i + 10, num, sep);
        assert((seq![st] + rest)[0] == st);
        assert((seq![st] + rest).drop_first() =~= rest);
        lemma_concat_date_segments(s, i + 10, num, sep);
    } else if match_b_at(s, i) {
        let st = SegView { styled: true, text: styled_b_text(s, i, num, sep) };
        let rest = date_segments_from(s, i + 11, num, sep);
        assert((seq![st] + rest)[0] == st);
        assert((seq![st] + rest).drop_first() =~= rest);
        lemma_concat_date_segments(s, i + 11, num, sep);
    } else {
        lemma_concat_plain_cons(s[i], date_segments_from(s, i + 1, num, sep));
        lemma_concat_date_segments(s, i + 1, num, sep);
    }
}

/// The length of the date match starting at `i`, or 0 when none starts there.
fn match_len_at(s: &[u8], i: usize) -> (r: usize)
    requires
        i < s@.len(),
    ensures
        (r == 10) == match_a_at(s@, i as int),
        (r == 11) == match_b_at(s@, i as int),
        r == 0 || r == 10 || r == 11,
{
    let n = s.len();
    if n - i >= 10 && boundary_before_x(s, i) && year_x(s, i) && s[i + 4] == SLASH && month_num_x(
        s,
        i + 5,
    ) && s[i + 7] == SLASH && day_x(s, i + 8) && boundary_after_x(s, i + 10) {
        10
    } else if n - i >= 11 && boundary_before_x(s, i) && day_x(s, i) && s[i + 2] == SLASH
        && month_abbrev_x(s[i + 3], s[i + 4], s[i + 5]) && s[i + 6] == SLASH && year_x(s, i + 7)
        && boundary_after_x(s, i + 11) {
        11
    } else {
        0
    }
}

/// Fewer than two slashes in a line rule out both date shapes everywhere:
/// either match contains two separator bytes.
pub proof fn lemma_few_slashes_no_matches(s: Seq<u8>)
    requires
        crate::count_byte(s, SLASH) < 2,
    ensures
        forall|j: int| !match_a_at(s, j),
        forall|j: int| !match_b_at(s, j),
{
    assert forall|j: int| !match_a_at(s, j) by {
        if match_a_at(s, j) {
            crate::lemma_count_byte_two_positions(s, SLASH, j + 4, j + 7);
        }
    }
    assert forall|j: int| !match_b_at(s, j) by {
        if match_b_at(s, j) {
            crate::lemma_count_byte_two_positions(s, SLASH, j + 2, j + 6);
        }
    }
}

/// A line without any match is scanned into a single plain segment: the
/// transform leaves it untouched.
pub proof fn lemma_no_match_segments_from(s: Seq<u8>, i: int, num: StyleView, sep: StyleView)
    requires
        0 <= i <= s.len(),
        forall|j: int| !match_a_at(s, j),
        forall|j: int| !match_b_at(s, j),
    ensures
        date_segments_from(s, i, num, sep) == if i == s.len() {
            Seq::<SegView>::empty()
        } else {
            seq![SegView { styled: false, text: s.subrange(i, s.len() as int) }]
        },
    decreases s.len() - i,
{
    if i < s.len() {
        lemma_no_match_segments_from(s, i + 1, num, sep);
        let rest = date_segments_from(s, i + 1, num, sep);
        if i + 1 == s.len() {
            assert(plain_cons(s[i], rest) =~~= seq![
                SegView { styled: false, text: s.subrange(i, s.len() as int) },
            ]);
        } else {
            assert(seq![s[i]] + s.subrange(i + 1, s.len() as int) =~= s.subrange(
                i,
                s.len() as int,
            ));
            assert(plain_cons(s[i], rest) =~~= seq![
                SegView { styled: false, text: s.subrange(i, s.len() as int) },
            ]);
        }
    }
}

/// Appends one styled part of a match to `out`: `s[from..to]` wrapped in `st`.
fn push_painted(out: &mut Vec<u8>, st: &Style, s: &[u8], from: usize, to: usize)
    requires
        from <= to <= s@.len(),
    ensures
        final(out)@ == old(out)@ + paint_spec(st@, s@.subrange(from as int, to as int)),
{
    crate::segment::push_bytes(out, st.prefix.as_slice(), 0, st.prefix.len());
    crate::segment::push_bytes(out, s, from, to);
    crate::segment::push_bytes(out, st.suffix.as_slice(), 0, st.suffix.len());
    proof {
        assert(st.prefix@.subrange(0, st.prefix@.len() as int) =~= st@.prefix);
        assert(st.suffix@.subrange(0, st.suffix@.len() as int) =~= st@.suffix);
        assert(final(out)@ =~= old(out)@ + paint_spec(st@, s@.subrange(from as int, to as int)));
    }
}

/// The date-token highlighter: one scan pass recognizing both shapes.
pub struct DateSlashHighlighter {
    pub number: Style,
    pub separator: Style,
}

impl DateSlashHighlighter {
    pub fn new(number: Style, separator: Style) -> (h: DateSlashHighlighter)
        ensures
            h.number@ == number@,
            h.separator@ == separator@,
    {
        DateSlashHighlighter { number, separator }
    }

    /// True when the line cannot contain either date shape: both shapes need
    /// two separators, so fewer than two slashes make a match impossible.
    pub fn should_short_circuit(&self, line_info: &crate::line_info::LineInfo) -> (r: bool)
        ensures
            r == (line_info.slashes < 2),
    {
        line_info.slashes < 2
    }

    /// This highlighter must never re-interpret bytes styled by an earlier
    /// highlighter.
    pub fn only_apply_to_segments_not_already_highlighted(&self) -> (r: bool)
        ensures
            r,
    {
        true
    }

    /// Transforms `input` into segments: one styled segment per match, each
    /// maximal unmatched run as one plain segment.
    pub fn apply_segments(&self, input: &[u8]) -> (r: Vec<Segment>)
        ensures
            segs_view(r@) == date_segments(input@, self.number@, self.separator@),
    {
        let ghost num = self.number@;
        let ghost sep = self.separator@;
        let mut out: Vec<Segment> = Vec::new();
        let mut cur: Vec<u8> = Vec::new();
        let mut i: usize = 0;
        while i < input.len()
            invariant
                0 <= i <= input@.len(),
                num == self.number@,
                sep == self.separator@,
                date_segments(input@, num, sep) == segs_view(out@) + prepend_plain(
                    cur@,
                    date_segments_from(input@, i as int, num, sep),
                ),
            decreases input@.len() - i,
        {
            let ghost out0 = out@;
            let ghost cur0 = cur@;
            let ml = match_len_at(input, i);
            if ml == 0 {
                let b = input[i];
                cur.push(b);
                proof {
                    lemma_prepend_plain_snoc(
                        cur0,
                        input@[i as int],
                        date_segments_from(input@, i + 1, num, sep),
                    );
                }
                i = i + 1;
            } else {
                let ghost rec_here = date_segments_from(input@, i as int, num, sep);
                if cur.len() > 0 {
                    let t0 = cur;
                    cur = Vec::new();
                    out.push(Segment { styled: false, text: t0 });
                }
                let ghost outf = out@;
                let mut t: Vec<u8> = Vec::new();
                if ml == 10 {
                    push_painted(&mut t, &self.number, input, i, i + 4);
                    push_painted(&mut t, &self.separator, input, i + 4, i + 5);
                    push_painted(&mut t, &self.number, input, i + 5, i + 7);
                    push_painted(&mut t, &self.separator, input, i + 7, i + 8);
                    push_painted(&mut t, &self.number, input, i + 8, i + 10);
                    proof {
                        assert(t@ =~= styled_a_text(input@, i as int, num, sep));
                    }
                    out.push(Segment { styled: true, text: t });
                    i = i + 10;
                } else {
                    push_painted(&mut t, &self.number, input, i, i + 2);
                    push_painted(&mut t, &self.separator, input, i + 2, i + 3);
                    push_painted(&mut t, &self.number, input, i + 3, i + 6);
                    push_painted(&mut t, &self.separator, input, i + 6, i + 7);
                    push_painted(&mut t, &self.number, input, i + 7, i + 11);
                    proof {
                        assert(t@ =~= styled_b_text(input@, i as int, num, sep));
                    }
                    out.push(Segment { styled: true, text: t });
                    i = i + 11;
                }
                proof {
                    let st = out@.last()@;
                    let rest = date_segments_from(input@, i as int, num, sep);
                    assert(st.styled);
                    assert(rec_here == seq![st] + rest);
                    assert((seq![st] + rest)[0] == st);
                    assert(out@ =~= outf.push(out@.last()));
                    crate::segment::lemma_segs_view_push(outf, out@.last());
                    if cur0.len() == 0 {
                        assert(outf == out0);
                        assert(prepend_plain(cur0, rec_here) == rec_here);
                        assert(segs_view(out@) + rest =~~= segs_view(out0) + (seq![st] + rest));
                    } else {
                        let pl = SegView { styled: false, text: cur0 };
                        assert(outf =~= out0.push(outf.last()));
                        crate::segment::lemma_segs_view_push(out0, outf.last());
                        assert(outf.last()@ == pl);
                        assert(prepend_plain(cur0, rec_here) =~~= seq![pl] + (seq![st] + rest));
                        assert(segs_view(out@) + rest =~~= segs_view(out0) + (seq![pl] + (seq![st]
                            + rest)));
                    }
                    assert(cur@.len() == 0);
                    assert(prepend_plain(cur@, rest) == rest);
                }
            }
        }
        if cur.len() > 0 {
            let ghost out0 = out@;
            let ghost cur0 = cur@;
            out.push(Segment { styled: false, text: cur });
            proof {
                assert(date_segments_from(input@, input@.len() as int, num, sep) =~= Seq::<
                    SegView,
                >::empty());
                assert(prepend_plain(cur0, Seq::<SegView>::empty()) =~~= seq![
                    SegView { styled: false, text: cur0 },
                ]);
                assert(segs_view(out@) =~~= segs_view(out0) + seq![
                    SegView { styled: false, text: cur0 },
                ]);
            }
        } else {
            proof {
                assert(date_segments_from(input@, input@.len() as int, num, sep) =~= Seq::<
                    SegView,
                >::empty());
                assert(segs_view(out@) + Seq::<SegView>::empty() =~~= segs_view(out@));
            }
        }
        out
    }

    /// Transforms `input` into the flat styled line.
    pub fn apply(&self, input: &[u8]) -> (r: Vec<u8>)
        ensures
            r@ == date_highlight(input@, self.number@, self.separator@),
    {
        let segs = self.apply_segments(input);
        let r = crate::segment::concat_segments(&segs);
        proof {
            lemma_concat_date_segments(input@, 0, self.number@, self.separator@);
        }
        r
    }
}

} // verus!
