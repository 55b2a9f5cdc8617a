//! Per-line structural metadata, computed once before the pipeline runs.
//! A highlighter's fast-reject predicate reads these counts to skip pattern
//! matching on lines that structurally cannot contain a match.

use crate::count_byte;
use crate::SLASH;
use vstd::prelude::*;

verus! {

/// Counts derived from one input line; exact for that line and never reused.
pub struct LineInfo {
    pub slashes: usize,
}

impl LineInfo {
    /// Derives the metadata of `line`.
    pub fn compute(line: &[u8]) -> (info: LineInfo)
        ensures
            info.slashes == count_byte(line@, SLASH),
    {
        let mut slashes: usize = 0;
        let mut i: usize = 0;
        while i < line.len()
            invariant
                0 <= i <= line@.len(),
                slashes == count_byte(line@.take(i as int), SLASH),
                slashes <= i,
            decreases line@.len() - i,
        {
            proof {
                crate::lemma_count_byte_take_step(line@, SLASH, i as int);
                crate::lemma_count_byte_le_len(line@.take(i + 1), SLASH);
            }
            if line[i] == SLASH {
                slashes = slashes + 1;
            }
            i = i + 1;
        }
        proof {
            assert(line@.take(line@.len() as int) =~= line@);
        }
        LineInfo { slashes }
    }
}

} // verus!
