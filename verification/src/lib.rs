//! A streaming terminal text colorizer core: a highlight composition engine
//! that runs independent pattern highlighters over a line without ever styling
//! a byte twice, and the decision logic of an adaptive batching line reader
//! that switches from bulk draining to single-line reads after its first call
//! and announces end of stream exactly once.

use vstd::prelude::*;

pub mod date_slash;
pub mod line_info;
pub mod pipeline;
pub mod reader;
pub mod segment;
pub mod style;

verus! {

/// The separator byte of both supported date shapes, `/`.
pub const SLASH: u8 = 47;

/// The record delimiter of the line reader, `\n`.
pub const NEWLINE: u8 = 10;

/// Count of occurrences of byte `b` in `s`.
pub open spec fn count_byte(s: Seq<u8>, b: u8) -> int
    decreases s.len(),
{
    if s.len() == 0 {
        0
    } else {
        count_byte(s.drop_last(), b) + if s.last() == b {
            1int
        } else {
            0int
        }
    }
}

pub proof fn lemma_count_byte_le_len(s: Seq<u8>, b: u8)
    ensures
        0 <= count_byte(s, b) <= s.len(),
    decreases s.len(),
{
    if s.len() > 0 {
        lemma_count_byte_le_len(s.drop_last(), b);
    }
}

pub proof fn lemma_count_byte_take_step(s: Seq<u8>, b: u8, i: int)
    requires
        0 <= i < s.len(),
    ensures
        count_byte(s.take(i + 1), b) == count_byte(s.take(i), b) + if s[i] == b {
            1int
        } else {
            0int
        },
{
    assert(s.take(i + 1).drop_last() =~= s.take(i));
    assert(s.take(i + 1).last() == s[i]);
}

pub proof fn lemma_count_byte_one_position(s: Seq<u8>, b: u8, p: int)
    requires
        0 <= p < s.len(),
        s[p] == b,
    ensures
        count_byte(s, b) >= 1,
    decreases s.len(),
{
    if p == s.len() - 1 {
        lemma_count_byte_le_len(s.drop_last(), b);
    } else {
        assert(s.drop_last()[p] == b);
        lemma_count_byte_one_position(s.drop_last(), b, p);
    }
}

pub proof fn lemma_count_byte_two_positions(s: Seq<u8>, b: u8, p: int, q: int)
    requires
        0 <= p < q < s.len(),
        s[p] == b,
        s[q] == b,
    ensures
        count_byte(s, b) >= 2,
    decreases s.len(),
{
    if q == s.len() - 1 {
        assert(s.drop_last()[p] == b);
        lemma_count_byte_one_position(s.drop_last(), b, p);
    } else {
        assert(s.drop_last()[p] == b);
        assert(s.drop_last()[q] == b);
        lemma_count_byte_two_positions(s.drop_last(), b, p, q);
        lemma_count_byte_le_len(s, b);
    }
}

} // verus!
