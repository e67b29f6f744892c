use vstd::prelude::*;
use crate::frame::Frame;

verus! {

/// The counters behind the progress display: the output-video position
/// reached, and how many duplicates were folded on the way.
pub struct ProgressCounter {
    position: usize,
    duplicates: usize,
    total: usize,
}

impl ProgressCounter {
    /// The output-video frames passed so far.
    pub closed spec fn spec_position(&self) -> nat {
        self.position as nat
    }

    /// The duplicates folded into the frames passed so far.
    pub closed spec fn spec_duplicates(&self) -> nat {
        self.duplicates as nat
    }

    /// The number of frames the video has in all.
    pub closed spec fn spec_total(&self) -> nat {
        self.total as nat
    }

    /// The duplicates never outnumber the positions they take.
    pub closed spec fn wf(&self) -> bool {
        self.duplicates <= self.position
    }

    /// Counters at zero for a video of `total` frames.
    pub fn new(total: usize) -> (r: ProgressCounter)
        ensures
            r.wf(),
            r.spec_position() == 0,
            r.spec_duplicates() == 0,
            r.spec_total() == total,
    {
        ProgressCounter { position: 0, duplicates: 0, total }
    }

    /// Whether `frame` can be counted without the position overflowing.
    pub fn can_record(&self, frame: &Frame) -> (r: bool)
        ensures
            r == (self.spec_position() + frame.duplicates + 1 <= usize::MAX),
    {
        frame.duplicates < usize::MAX && self.position <= usize::MAX - 1 - frame.duplicates
    }

    /// Counts one frame: it moves the position by itself and its duplicates.
    pub fn record(&mut self, frame: &Frame)
        requires
            old(self).wf(),
            old(self).spec_position() + frame.duplicates + 1 <= usize::MAX,
        ensures
            final(self).wf(),
            final(self).spec_position() == old(self).spec_position() + frame.duplicates + 1,
            final(self).spec_duplicates() == old(self).spec_duplicates() + frame.duplicates,
            final(self).spec_total() == old(self).spec_total(),
    {
        self.position = self.position + 1 + frame.duplicates;
        self.duplicates = self.duplicates + frame.duplicates;
    }

    /// The output-video frames passed so far.
    pub fn position(&self) -> (r: usize)
        ensures
            r == self.spec_position(),
    {
        self.position
    }

    /// The duplicates folded into the frames passed so far.
    pub fn duplicates(&self) -> (r: usize)
        ensures
            r == self.spec_duplicates(),
    {
        self.duplicates
    }

    /// The number of frames the video has in all.
    pub fn total(&self) -> (r: usize)
        ensures
            r == self.spec_total(),
    {
        self.total
    }
}

} // verus!
