//! The highlight composition engine: an ordered pipeline of highlighters run
//! over one line. The line is held as non-overlapping segments that cover the
//! whole output; a highlighter restricted to unstyled text is applied to each
//! plain segment separately and never touches a styled one, so
//! earlier-registered highlighters win every byte range they claim.

use crate::date_slash::{date_segments, DateSlashHighlighter};
use crate::line_info::LineInfo;
use crate::segment::{concat_texts, segs_view, SegView, Segment};
use crate::style::StyleView;
use vstd::prelude::*;

verus! {

/// One configured unit of the pipeline.
pub enum Highlighter {
    DateSlash(DateSlashHighlighter),
}

/// The mathematical value of a [`Highlighter`]: its transform's styles and
/// whether it is restricted to still-plain segments.
#[verifier::ext_equal]
pub ghost struct HighlighterView {
    pub number: StyleView,
    pub separator: StyleView,
    pub restrict: bool,
}

impl View for Highlighter {
    type V = HighlighterView;

    open spec fn view(&self) -> HighlighterView {
        match self {
            Highlighter::DateSlash(h) => HighlighterView {
                number: h.number@,
                separator: h.separator@,
                restrict: true,
            },
        }
    }
}

/// The views of a sequence of highlighters.
pub open spec fn hls_view(v: Seq<Highlighter>) -> Seq<HighlighterView> {
    v.map_values(|h: Highlighter| h@)
}

/// The segments a highlighter's transform produces from plain text.
pub open spec fn seg_apply_spec(h: HighlighterView, text: Seq<u8>) -> Seq<SegView> {
    date_segments(text, h.number, h.separator)
}

/// One pipeline step. A restricted highlighter transforms each plain segment
/// in place and keeps every styled segment as it is; an unrestricted one
/// transforms the whole current output buffer.
pub open spec fn step_spec(h: HighlighterView, segs: Seq<SegView>) -> Seq<SegView>
    decreases segs.len(),
{
    if !h.restrict {
        seg_apply_spec(h, concat_texts(segs))
    } else if segs.len() == 0 {
        Seq::empty()
    } else {
        (if segs[0].styled {
            seq![segs[0]]
        } else {
            seg_apply_spec(h, segs[0].text)
        }) + step_spec(h, segs.drop_first())
    }
}

/// The single plain segment the pipeline starts from (none for an empty line).
pub open spec fn initial_segments(line: Seq<u8>) -> Seq<SegView> {
    if line.len() == 0 {
        Seq::empty()
    } else {
        seq![SegView { styled: false, text: line }]
    }
}

/// The segments after running every highlighter, in order.
pub open spec fn run_pipeline(hs: Seq<HighlighterView>, segs: Seq<SegView>) -> Seq<SegView>
    decreases hs.len(),
{
    if hs.len() == 0 {
        segs
    } else {
        run_pipeline(hs.drop_first(), step_spec(hs[0], segs))
    }
}

/// The final styled line a pipeline produces for `line`.
pub open spec fn pipeline_output(hs: Seq<HighlighterView>, line: Seq<u8>) -> Seq<u8> {
    concat_texts(run_pipeline(hs, initial_segments(line)))
}

/// On a line without any match, one pipeline step changes nothing.
pub proof fn lemma_step_identity_no_match(h: HighlighterView, line: Seq<u8>)
    requires
        forall|j: int| !crate::date_slash::match_a_at(line, j),
        forall|j: int| !crate::date_slash::match_b_at(line, j),
    ensures
        step_spec(h, initial_segments(line)) == initial_segments(line),
{
    crate::date_slash::lemma_no_match_segments_from(line, 0, h.number, h.separator);
    if line.len() == 0 {
        if !h.restrict {
            assert(step_spec(h, initial_segments(line)) =~~= Seq::<SegView>::empty());
        }
    } else {
        let init = initial_segments(line);
        let pl = SegView { styled: false, text: line };
        assert(init[0] == pl);
        assert(line.subrange(0, line.len() as int) =~= line);
        if h.restrict {
            assert(init.drop_first() =~= Seq::<SegView>::empty());
            assert(step_spec(h, init.drop_first()) == Seq::<SegView>::empty());
            assert(seg_apply_spec(h, line) == seq![pl]);
            assert(step_spec(h, init) == seq![pl] + Seq::<SegView>::empty());
            assert(seq![pl] + Seq::<SegView>::empty() =~= init);
        } else {
            assert(concat_texts(init.drop_first()) == Seq::<u8>::empty());
            assert(concat_texts(init) =~= line);
            assert(step_spec(h, init) =~~= init);
        }
    }
}

/// On a line without any match, the whole pipeline changes nothing.
proof fn lemma_run_identity_no_match(hs: Seq<HighlighterView>, line: Seq<u8>)
    requires
        forall|j: int| !crate::date_slash::match_a_at(line, j),
        forall|j: int| !crate::date_slash::match_b_at(line, j),
    ensures
        run_pipeline(hs, initial_segments(line)) == initial_segments(line),
    decreases hs.len(),
{
    if hs.len() > 0 {
        lemma_step_identity_no_match(hs[0], line);
        lemma_run_identity_no_match(hs.drop_first(), line);
    }
}

/// Idempotence on plain lines: a line in which no configured highlighter
/// matches anything is returned unchanged by the pipeline.
pub proof fn lemma_plain_line_unchanged(hs: Seq<HighlighterView>, line: Seq<u8>)
    requires
        forall|j: int| !crate::date_slash::match_a_at(line, j),
        forall|j: int| !crate::date_slash::match_b_at(line, j),
    ensures
        pipeline_output(hs, line) == line,
{
    lemma_run_identity_no_match(hs, line);
    if line.len() == 0 {
        assert(pipeline_output(hs, line) =~= line);
    } else {
        let init = initial_segments(line);
        assert(init[0] == SegView { styled: false, text: line });
        assert(init.drop_first() =~= Seq::<SegView>::empty());
        assert(concat_texts(init.drop_first()) == Seq::<u8>::empty());
        assert(concat_texts(init) == line + Seq::<u8>::empty());
        assert(line + Seq::<u8>::empty() =~= line);
    }
}

/// Soundness of the fast-reject check: on any line it would skip (fewer than
/// two separator bytes), running every highlighter in full returns the line
/// unchanged, so skipping the transforms never changes the output.
pub proof fn lemma_fast_reject_sound(hs: Seq<HighlighterView>, line: Seq<u8>)
    requires
        crate::count_byte(line, crate::SLASH) < 2,
    ensures
        pipeline_output(hs, line) == line,
{
    crate::date_slash::lemma_few_slashes_no_matches(line);
    lemma_plain_line_unchanged(hs, line);
}

/// Non-overlap: a restricted highlighter keeps every already-styled segment
/// exactly as it is, so no byte once claimed by an earlier highlighter is
/// ever re-styled by a later one.
pub proof fn lemma_styled_segment_preserved(h: HighlighterView, segs: Seq<SegView>, i: int)
    requires
        h.restrict,
        0 <= i < segs.len(),
        segs[i].styled,
    ensures
        exists|j: int|
            0 <= j < step_spec(h, segs).len() && step_spec(h, segs)[j] == segs[i],
    decreases segs.len(),
{
    let out = step_spec(h, segs);
    let first = if segs[0].styled {
        seq![segs[0]]
    } else {
        seg_apply_spec(h, segs[0].text)
    };
    assert(out == first + step_spec(h, segs.drop_first()));
    if i == 0 {
        assert(out[0] == segs[0]);
    } else {
        assert(segs.drop_first()[i - 1] == segs[i]);
        lemma_styled_segment_preserved(h, segs.drop_first(), i - 1);
        let j2 = choose|j2: int|
            0 <= j2 < step_spec(h, segs.drop_first()).len() && step_spec(h, segs.drop_first())[j2]
                == segs.drop_first()[i - 1];
        assert(out[first.len() + j2] == segs[i]);
    }
}

/// Non-overlap over a whole run: in a pipeline of restricted highlighters,
/// a segment styled at any point survives byte-for-byte to the final output
/// segments; no later highlighter ever claims any part of it again.
pub proof fn lemma_styled_survives_pipeline(
    hs: Seq<HighlighterView>,
    segs: Seq<SegView>,
    i: int,
)
    requires
        forall|k: int| 0 <= k < hs.len() ==> hs[k].restrict,
        0 <= i < segs.len(),
        segs[i].styled,
    ensures
        exists|j: int|
            0 <= j < run_pipeline(hs, segs).len() && run_pipeline(hs, segs)[j] == segs[i],
    decreases hs.len(),
{
    if hs.len() == 0 {
        assert(run_pipeline(hs, segs)[i] == segs[i]);
    } else {
        lemma_styled_segment_preserved(hs[0], segs, i);
        let j1 = choose|j1: int|
            0 <= j1 < step_spec(hs[0], segs).len() && step_spec(hs[0], segs)[j1] == segs[i];
        assert(forall|k: int| 0 <= k < hs.drop_first().len() ==> hs.drop_first()[k] == hs[k + 1]);
        lemma_styled_survives_pipeline(hs.drop_first(), step_spec(hs[0], segs), j1);
        let rest = run_pipeline(hs.drop_first(), step_spec(hs[0], segs));
        let j2 = choose|j2: int| 0 <= j2 < rest.len() && rest[j2] == step_spec(hs[0], segs)[j1];
        assert(run_pipeline(hs, segs) == rest);
        assert(run_pipeline(hs, segs)[j2] == segs[i]);
    }
}

/// Order priority: of two restricted highlighters, the earlier one wins every
/// byte range it claims; whatever it styled survives the later one unchanged.
pub proof fn lemma_order_priority(
    h1: HighlighterView,
    h2: HighlighterView,
    segs: Seq<SegView>,
    i: int,
)
    requires
        h2.restrict,
        0 <= i < step_spec(h1, segs).len(),
        step_spec(h1, segs)[i].styled,
    ensures
        exists|j: int|
            0 <= j < step_spec(h2, step_spec(h1, segs)).len() && step_spec(
                h2,
                step_spec(h1, segs),
            )[j] == step_spec(h1, segs)[i],
{
    lemma_styled_segment_preserved(h2, step_spec(h1, segs), i);
}

impl Highlighter {
    /// True when the highlighter cannot match anything in the described line.
    pub fn should_short_circuit(&self, info: &LineInfo) -> (r: bool)
        ensures
            r == (info.slashes < 2),
    {
        match self {
            Highlighter::DateSlash(h) => h.should_short_circuit(info),
        }
    }

    /// Whether this highlighter must only see still-plain segments.
    pub fn restricted(&self) -> (r: bool)
        ensures
            r == self@.restrict,
    {
        match self {
            Highlighter::DateSlash(h) => h.only_apply_to_segments_not_already_highlighted(),
        }
    }

    /// The highlighter's transform, as segments.
    pub fn apply_segments(&self, text: &[u8]) -> (r: Vec<Segment>)
        ensures
            segs_view(r@) == seg_apply_spec(self@, text@),
    {
        match self {
            Highlighter::DateSlash(h) => h.apply_segments(text),
        }
    }
}

/// An ordered, immutable composition of highlighters.
pub struct Pipeline {
    pub highlighters: Vec<Highlighter>,
}

impl Pipeline {
    pub fn new(highlighters: Vec<Highlighter>) -> (p: Pipeline)
        ensures
            p.highlighters@ == highlighters@,
    {
        Pipeline { highlighters }
    }

    /// Runs every highlighter over `line`, in order, and returns the final
    /// styled line. Fast-reject only skips work: the result is exactly the
    /// specified composition, which never consults the fast-reject predicate.
    pub fn process(&self, line: &[u8]) -> (out: Vec<u8>)
        ensures
            out@ == pipeline_output(hls_view(self.highlighters@), line@),
    {
        let ghost hsv = hls_view(self.highlighters@);
        let info = LineInfo::compute(line);
        let mut segs: Vec<Segment> = Vec::new();
        if line.len() > 0 {
            let mut first: Vec<u8> = Vec::new();
            crate::segment::push_bytes(&mut first, line, 0, line.len());
            proof {
                assert(line@.subrange(0, line@.len() as int) =~= line@);
            }
            segs.push(Segment { styled: false, text: first });
        }
        proof {
            assert(segs_view(segs@) =~~= initial_segments(line@));
            assert(hsv.skip(0) =~= hsv);
        }
        let mut k: usize = 0;
        while k < self.highlighters.len()
            invariant
                0 <= k <= self.highlighters@.len(),
                hsv == hls_view(self.highlighters@),
                info.slashes == crate::count_byte(line@, crate::SLASH),
                run_pipeline(hsv, initial_segments(line@)) == run_pipeline(
                    hsv.skip(k as int),
                    segs_view(segs@),
                ),
                crate::count_byte(line@, crate::SLASH) < 2 ==> segs_view(segs@)
                    == initial_segments(line@),
            decreases self.highlighters@.len() - k,
        {
            let h = &self.highlighters[k];
            proof {
                assert(hsv.skip(k as int).drop_first() =~= hsv.skip(k + 1));
                assert(hsv.skip(k as int)[0] == hsv[k as int]);
            }
            if h.should_short_circuit(&info) {
                proof {
                    crate::date_slash::lemma_few_slashes_no_matches(line@);
                    lemma_step_identity_no_match(hsv[k as int], line@);
                }
            } else if h.restricted() {
                let ghost cur = segs_view(segs@);
                let mut nsegs: Vec<Segment> = Vec::new();
                let mut j: usize = 0;
                proof {
                    assert(cur.skip(0) =~= cur);
                    assert(Seq::<SegView>::empty() + step_spec(hsv[k as int], cur) =~= step_spec(
                        hsv[k as int],
                        cur,
                    ));
                }
                while j < segs.len()
                    invariant
                        0 <= j <= segs@.len(),
                        cur == segs_view(segs@),
                        hsv[k as int].restrict,
                        hsv[k as int] == self.highlighters@[k as int]@,
                        k < self.highlighters@.len(),
                        step_spec(hsv[k as int], cur) == segs_view(nsegs@) + step_spec(
                            hsv[k as int],
                            cur.skip(j as int),
                        ),
                    decreases segs@.len() - j,
                {
                    let ghost n0 = nsegs@;
                    proof {
                        assert(cur.skip(j as int).drop_first() =~= cur.skip(j + 1));
                        assert(cur.skip(j as int)[0] == cur[j as int]);
                    }
                    let seg = &segs[j];
                    if seg.styled {
                        nsegs.push(crate::segment::dup_segment(seg));
                        proof {
                            crate::segment::lemma_segs_view_push(n0, nsegs@.last());
                            assert(segs_view(nsegs@) =~~= segs_view(n0) + seq![cur[j as int]]);
                        }
                    } else {
                        let mut pieces = self.highlighters[k].apply_segments(seg.text.as_slice());
                        proof {
                            assert(segs_view(pieces@) == seg_apply_spec(
                                hsv[k as int],
                                cur[j as int].text,
                            ));
                        }
                        nsegs.append(&mut pieces);
                        proof {
                            crate::segment::lemma_segs_view_add(n0, nsegs@.skip(n0.len() as int));
                            assert(nsegs@ =~= n0 + nsegs@.skip(n0.len() as int));
                            assert(segs_view(nsegs@) =~~= segs_view(n0) + seg_apply_spec(
                                hsv[k as int],
                                cur[j as int].text,
                            ));
                        }
                    }
                    j = j + 1;
                }
                proof {
                    assert(cur.skip(cur.len() as int) =~= Seq::<SegView>::empty());
                    assert(segs_view(nsegs@) + Seq::<SegView>::empty() =~= segs_view(nsegs@));
                }
                segs = nsegs;
            } else {
                let whole = crate::segment::concat_segments(&segs);
                let nsegs = self.highlighters[k].apply_segments(whole.as_slice());
                segs = nsegs;
            }
            k = k + 1;
        }
        proof {
            assert(hsv.skip(hsv.len() as int) =~= Seq::<HighlighterView>::empty());
        }
        crate::segment::concat_segments(&segs)
    }
}

} // verus!
