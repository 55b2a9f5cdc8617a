//! Segments: the unit of the highlight composition engine. A line being
//! processed is held as a sequence of contiguous chunks, each tagged as
//! already `styled` or still `plain`; the chunks never overlap and together
//! always cover the whole output buffer.

use vstd::prelude::*;

verus! {

/// One contiguous chunk of a line's output buffer.
pub struct Segment {
    pub styled: bool,
    pub text: Vec<u8>,
}

/// The mathematical value of a [`Segment`].
#[verifier::ext_equal]
pub ghost struct SegView {
    pub styled: bool,
    pub text: Seq<u8>,
}

impl View for Segment {
    type V = SegView;

    open spec fn view(&self) -> SegView {
        SegView { styled: self.styled, text: self.text@ }
    }
}

/// The views of a sequence of segments.
pub open spec fn segs_view(v: Seq<Segment>) -> Seq<SegView> {
    v.map_values(|seg: Segment| seg@)
}

/// The output buffer a sequence of segments stands for: their texts in order.
pub open spec fn concat_texts(segs: Seq<SegView>) -> Seq<u8>
    decreases segs.len(),
{
    if segs.len() == 0 {
        Seq::empty()
    } else {
        segs[0].text + concat_texts(segs.drop_first())
    }
}

pub proof fn lemma_segs_view_add(a: Seq<Segment>, b: Seq<Segment>)
    ensures
        segs_view(a + b) =~= segs_view(a) + segs_view(b),
{
}

pub proof fn lemma_segs_view_push(a: Seq<Segment>, e: Segment)
    ensures
        segs_view(a.push(e)) =~= segs_view(a).push(e@),
{
}

/// Appends `s[from..to]` to `out`.
pub fn push_bytes(out: &mut Vec<u8>, s: &[u8], from: usize, to: usize)
    requires
        from <= to <= s@.len(),
    ensures
        final(out)@ == old(out)@ + s@.subrange(from as int, to as int),
{
    let mut j: usize = from;
    while j < to
        invariant
            from <= j <= to <= s@.len(),
            out@ == old(out)@ + s@.subrange(from as int, j as int),
        decreases to - j,
    {
        let b = s[j];
        out.push(b);
        proof {
            assert(s@.subrange(from as int, j + 1) =~= s@.subrange(from as int, j as int).push(
                s@[j as int],
            ));
        }
        j = j + 1;
    }
    proof {
        assert(out@ =~= old(out)@ + s@.subrange(from as int, to as int));
    }
}

/// A fresh copy of a byte vector.
pub fn dup_bytes(v: &Vec<u8>) -> (r: Vec<u8>)
    ensures
        r@ == v@,
{
    let mut r: Vec<u8> = Vec::new();
    push_bytes(&mut r, v.as_slice(), 0, v.len());
    proof {
        assert(v@.subrange(0, v@.len() as int) =~= v@);
    }
    r
}

/// The flat output buffer of a segment sequence.
pub fn concat_segments(segs: &Vec<Segment>) -> (r: Vec<u8>)
    ensures
        r@ == concat_texts(segs_view(segs@)),
{
    let ghost sv = segs_view(segs@);
    let mut r: Vec<u8> = Vec::new();
    let mut k: usize = 0;
    proof {
        assert(sv.skip(0) =~= sv);
        assert(Seq::<u8>::empty() + concat_texts(sv) =~= concat_texts(sv));
    }
    while k < segs.len()
        invariant
            0 <= k <= segs@.len(),
            sv == segs_view(segs@),
            concat_texts(sv) == r@ + concat_texts(sv.skip(k as int)),
        decreases segs@.len() - k,
    {
        let seg = &segs[k];
        push_bytes(&mut r, seg.text.as_slice(), 0, seg.text.len());
        proof {
            assert(sv.skip(k as int).drop_first() =~= sv.skip(k + 1));
            assert(sv.skip(k as int)[0] == sv[k as int]);
            assert(seg.text@.subrange(0, seg.text@.len() as int) =~= sv[k as int].text);
        }
        k = k + 1;
    }
    proof {
        assert(sv.skip(sv.len() as int) =~= Seq::<SegView>::empty());
        assert(r@ =~= concat_texts(sv));
    }
    r
}

/// A fresh copy of a segment.
pub fn dup_segment(s: &Segment) -> (r: Segment)
    ensures
        r@ == s@,
{
    Segment { styled: s.styled, text: dup_bytes(&s.text) }
}

} // verus!
