//! The alignment request of the HTTP service.

use vstd::prelude::*;
use crate::align::{aligned, is_alignment_of, Aligner, Alignment};
use crate::sequence::Sequence;

verus! {

/// The body of an alignment request: the two sequences as text.
#[derive(Debug)]
pub struct AlignData {
    pub seq1: String,
    pub seq2: String,
}

/// Answers an alignment request: aligns the characters of `seq1` with the
/// characters of `seq2` under the penalties of `aligner`.
pub fn align_post(aligner: Aligner, data: AlignData) -> (result: Alignment<char>)
    ensures
        result@ == aligned(aligner, data.seq1@, data.seq2@),
        is_alignment_of(result@.columns, data.seq1@, data.seq2@),
{
    let seq1 = Sequence::from(data.seq1.as_str());
    let seq2 = Sequence::from(data.seq2.as_str());
    aligner.align([&seq1, &seq2])
}

} // verus!
