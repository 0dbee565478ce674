//! The transform that keeps paragraphs of a plausible length.

use std::ops::Range;
use vstd::prelude::*;
use crate::paragraph_info::ParagraphInfo;
use crate::pipeline::{PipelineIntermediateStage, PipelineStep};
use crate::text::bytes_of;

verus! {

/// Passes a record on unchanged where the length of its text, in bytes,
/// lies in a half-open range, and drops it otherwise.
pub struct ParagraphLengthFilter {
    length_range: Range<usize>,
}

impl ParagraphLengthFilter {
    /// The range of lengths that pass.
    pub closed spec fn range(&self) -> Range<usize> {
        self.length_range
    }

    /// Whether a text of `length` bytes passes.
    pub open spec fn admits(&self, length: nat) -> bool {
        self.range().start <= length < self.range().end
    }

    /// Whether `record` passes.
    pub open spec fn passes(&self, record: ParagraphInfo) -> bool {
        self.admits(bytes_of(record.text@).len())
    }

    /// A filter that passes the lengths in `range`.
    pub fn new(range: Range<usize>) -> (filter: Self)
        ensures
            filter.range() == range,
    {
        ParagraphLengthFilter { length_range: range }
    }
}

impl PipelineIntermediateStage<ParagraphInfo> for ParagraphLengthFilter {
    open spec fn outputs(&self, input: ParagraphInfo) -> Seq<ParagraphInfo> {
        if self.passes(input) {
            seq![input]
        } else {
            Seq::empty()
        }
    }

    open spec fn stepped(&self, before: &Self, input: ParagraphInfo) -> bool {
        self.range() == before.range()
    }

    open spec fn input_buffer_size(&self) -> usize {
        64
    }

    fn execute(&mut self, input: ParagraphInfo) -> (out: Vec<ParagraphInfo>) {
        let length = input.text.as_str().as_bytes().len();
        let mut out: Vec<ParagraphInfo> = Vec::new();
        if self.length_range.start <= length && length < self.length_range.end {
            out.push(input);
        }
        assert(out@ =~= old(self).outputs(input));
        out
    }

    fn get_input_buffer_size(&self) -> (size: usize) {
        64
    }
}

impl PipelineStep<ParagraphInfo> for ParagraphLengthFilter {

}

/// Every record that the filter hands on has a length in the range, and is
/// the record that came in; every record that it drops has a length outside
/// the range.
pub proof fn lemma_length_filter_decides_by_length(
    filter: ParagraphLengthFilter,
    record: ParagraphInfo,
)
    ensures
        filter.passes(record) ==> filter.outputs(record) == seq![record],
        !filter.passes(record) ==> filter.outputs(record).len() == 0,
        forall|i: int|
            0 <= i < filter.outputs(record).len() ==> filter.range().start <= bytes_of(
                (#[trigger] filter.outputs(record)[i]).text@,
            ).len() < filter.range().end,
{
}

} // verus!
