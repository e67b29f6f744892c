use vstd::prelude::*;
use crate::frame::{Frame, FrameView};

verus! {

/// One frame fed to the filter, with the verdict of the similarity
/// comparator between the held frame and this one.
pub ghost struct FilterInput {
    pub frame: FrameView,
    pub similar: bool,
}

/// The filter's state: the frame it holds back, and the frames it has
/// emitted so far.
pub ghost struct FilterState {
    pub held: Option<FrameView>,
    pub emitted: Seq<FrameView>,
}

/// A frame folds into the held one when the comparator calls them similar and
/// their dimensions agree: frames of different sizes are never duplicates.
pub open spec fn folds_into(held: FrameView, f: FrameView, similar: bool) -> bool {
    similar && held.image.same_size(f.image)
}

/// The frame `f` as the filter holds it: numbered by the count of frames
/// emitted before it.
pub open spec fn renumbered(f: FrameView, emitted: nat) -> FrameView {
    FrameView { index: emitted, ..f }
}

/// One step of the filter on the frame `f`: the state after it, and the frame
/// that it emits, if any.
pub open spec fn filter_step(s: FilterState, input: FilterInput) -> (FilterState, Option<FrameView>) {
    let f = input.frame;
    match s.held {
        None => (FilterState { held: Some(renumbered(f, s.emitted.len())), emitted: s.emitted }, None),
        Some(p) => if folds_into(p, f, input.similar) {
            (FilterState { held: Some(FrameView { duplicates: p.duplicates + 1, ..p }), emitted: s.emitted }, None)
        } else {
            (
                FilterState { held: Some(renumbered(f, s.emitted.len() + 1)), emitted: s.emitted.push(p) },
                Some(p),
            )
        },
    }
}

/// The state after feeding `inputs` in order to a fresh filter.
pub open spec fn filter_run(inputs: Seq<FilterInput>) -> FilterState
    decreases inputs.len(),
{
    if inputs.len() == 0 {
        FilterState { held: None, emitted: Seq::empty() }
    } else {
        filter_step(filter_run(inputs.drop_last()), inputs.last()).0
    }
}

/// What the filter emits in all for `inputs`: what it emitted on the way,
/// then the frame it held at the end of the stream.
pub open spec fn filter_output(inputs: Seq<FilterInput>) -> Seq<FrameView> {
    let s = filter_run(inputs);
    match s.held {
        Some(h) => s.emitted.push(h),
        None => s.emitted,
    }
}

/// The number of output-video frames that `frames` stand for: each stands
/// for itself and its duplicates.
pub open spec fn total_copies(frames: Seq<FrameView>) -> nat
    decreases frames.len(),
{
    if frames.len() == 0 {
        0
    } else {
        total_copies(frames.drop_last()) + frames.last().duplicates + 1
    }
}

/// Frames numbered 0, 1, 2, ... in order.
pub open spec fn densely_indexed(frames: Seq<FrameView>) -> bool {
    forall|i: int| 0 <= i < frames.len() ==> #[trigger] frames[i].index == i
}

/// What holds of the filter after any prefix of its input.
pub open spec fn filter_invariant(s: FilterState, received: nat) -> bool {
    &&& densely_indexed(s.emitted)
    &&& match s.held {
        Some(h) => h.index == s.emitted.len() && total_copies(s.emitted) + h.duplicates + 1 == received,
        None => total_copies(s.emitted) == received,
    }
}

proof fn lemma_filter_run_invariant(inputs: Seq<FilterInput>)
    requires
        forall|i: int| 0 <= i < inputs.len() ==> #[trigger] inputs[i].frame.duplicates == 0,
    ensures
        filter_invariant(filter_run(inputs), inputs.len()),
    decreases inputs.len(),
{
    if inputs.len() > 0 {
        let prev = inputs.drop_last();
        assert forall|i: int| 0 <= i < prev.len() implies #[trigger] prev[i].frame.duplicates == 0 by {
            assert(prev[i] == inputs[i]);
        }
        lemma_filter_run_invariant(prev);
        let s = filter_run(prev);
        let input = inputs.last();
        assert(input == inputs[inputs.len() - 1]);
        let t = filter_step(s, input).0;
        match s.held {
            None => {},
            Some(p) => {
                if !folds_into(p, input.frame, input.similar) {
                    assert(t.emitted.drop_last() =~= s.emitted);
                    assert forall|i: int| 0 <= i < t.emitted.len() implies #[trigger] t.emitted[i].index == i by {
                        if i < s.emitted.len() {
                            assert(t.emitted[i] == s.emitted[i]);
                        }
                    }
                }
            },
        }
    }
}

/// Every frame that enters the filter comes out in a run-length: the copies
/// that the filter's output stands for number exactly the frames fed to it.
pub proof fn lemma_frame_count_conserved(inputs: Seq<FilterInput>)
    requires
        forall|i: int| 0 <= i < inputs.len() ==> #[trigger] inputs[i].frame.duplicates == 0,
    ensures
        total_copies(filter_output(inputs)) == inputs.len(),
{
    lemma_filter_run_invariant(inputs);
    let s = filter_run(inputs);
    if let Some(h) = s.held {
        assert(filter_output(inputs).drop_last() =~= s.emitted);
    }
}

/// The filter numbers what it emits 0, 1, 2, ... with no gap.
pub proof fn lemma_output_densely_indexed(inputs: Seq<FilterInput>)
    requires
        forall|i: int| 0 <= i < inputs.len() ==> #[trigger] inputs[i].frame.duplicates == 0,
    ensures
        densely_indexed(filter_output(inputs)),
{
    lemma_filter_run_invariant(inputs);
    let s = filter_run(inputs);
    let out = filter_output(inputs);
    if let Some(h) = s.held {
        assert forall|i: int| 0 <= i < out.len() implies #[trigger] out[i].index == i by {
            if i < s.emitted.len() {
                assert(out[i] == s.emitted[i]);
            }
        }
    }
}

/// Where no frame is similar to the one before it, every frame comes out
/// once, in order, standing for itself alone.
pub proof fn lemma_distinct_frames_pass_through(inputs: Seq<FilterInput>)
    requires
        forall|i: int| 0 <= i < inputs.len() ==> (#[trigger] inputs[i]).frame.duplicates == 0 && !inputs[i].similar,
    ensures
        filter_output(inputs).len() == inputs.len(),
        forall|i: int| 0 <= i < inputs.len() ==> (#[trigger] filter_output(inputs)[i]).duplicates == 0
            && filter_output(inputs)[i].image == inputs[i].frame.image,
{
    lemma_run_passes_through(inputs);
    let s = filter_run(inputs);
    let out = filter_output(inputs);
    if inputs.len() > 0 {
        assert forall|i: int| 0 <= i < inputs.len() implies (#[trigger] out[i]).duplicates == 0
            && out[i].image == inputs[i].frame.image by {
            if i < s.emitted.len() {
                assert(out[i] == s.emitted[i]);
            }
        }
    }
}

proof fn lemma_run_passes_through(inputs: Seq<FilterInput>)
    requires
        forall|i: int| 0 <= i < inputs.len() ==> (#[trigger] inputs[i]).frame.duplicates == 0 && !inputs[i].similar,
    ensures
        ({
            let s = filter_run(inputs);
            &&& inputs.len() > 0 ==> s.held is Some && s.emitted.len() == inputs.len() - 1
                && s.held.unwrap().duplicates == 0 && s.held.unwrap().image == inputs.last().frame.image
            &&& inputs.len() == 0 ==> s.held is None && s.emitted.len() == 0
            &&& forall|i: int| 0 <= i < s.emitted.len() ==> (#[trigger] s.emitted[i]).duplicates == 0
                && s.emitted[i].image == inputs[i].frame.image
        }),
    decreases inputs.len(),
{
    if inputs.len() > 0 {
        let prev = inputs.drop_last();
        assert forall|i: int| 0 <= i < prev.len() implies (#[trigger] prev[i]).frame.duplicates == 0 && !prev[i].similar by {
            assert(prev[i] == inputs[i]);
        }
        lemma_run_passes_through(prev);
        let s = filter_run(prev);
        assert(inputs.last() == inputs[inputs.len() - 1]);
        let t = filter_run(inputs);
        assert forall|i: int| 0 <= i < t.emitted.len() implies (#[trigger] t.emitted[i]).duplicates == 0
            && t.emitted[i].image == inputs[i].frame.image by {
            if i < s.emitted.len() {
                assert(t.emitted[i] == s.emitted[i]);
                assert(prev[i] == inputs[i]);
            } else {
                assert(prev.last() == inputs[i]);
            }
        }
    }
}

/// The duplicate-collapsing stage: it holds back one frame, folds into it the
/// frames that repeat it, and lets it go when a different frame arrives.
/// Emitted frames are numbered by the count of frames emitted before them.
pub struct FilterDuplicates {
    previous: Option<Frame>,
    emitted_count: usize,
    received: usize,
    emitted: Ghost<Seq<FrameView>>,
}

/// The view of an optional frame.
pub open spec fn frame_option_view(f: Option<Frame>) -> Option<FrameView> {
    match f {
        Some(frame) => Some(frame@),
        None => None,
    }
}

impl FilterDuplicates {
    /// The filter's state as the step function sees it.
    pub closed spec fn state(&self) -> FilterState {
        FilterState { held: frame_option_view(self.previous), emitted: self.emitted@ }
    }

    /// The number of frames fed to the filter so far.
    pub closed spec fn spec_received(&self) -> nat {
        self.received as nat
    }

    /// The filter's state agrees with its counters and the step function's
    /// invariant.
    pub closed spec fn wf(&self) -> bool {
        &&& filter_invariant(self.state(), self.received as nat)
        &&& self.emitted_count == self.emitted@.len()
        &&& self.emitted@.len() + (if self.previous is Some { 1int } else { 0 }) <= self.received
    }

    /// A filter that has seen no frame.
    pub fn new() -> (r: FilterDuplicates)
        ensures
            r.wf(),
            r.state() == (FilterState { held: None, emitted: Seq::empty() }),
            r.spec_received() == 0,
    {
        FilterDuplicates { previous: None, emitted_count: 0, received: 0, emitted: Ghost(Seq::empty()) }
    }

    /// The number of frames fed to the filter so far.
    pub fn received(&self) -> (r: usize)
        ensures
            r == self.spec_received(),
    {
        self.received
    }

    /// The frame held back, which the next frame is compared against.
    pub fn previous(&self) -> (r: Option<&Frame>)
        ensures
            match r {
                Some(f) => self.state().held == Some(f@),
                None => self.state().held is None,
            },
    {
        match &self.previous {
            Some(f) => Some(f),
            None => None,
        }
    }

    /// Feeds `frame` to the filter, with `similar` the comparator's verdict on
    /// the held frame and this one; returns the frame that leaves the filter,
    /// if any, as the step function says.
    pub fn filter_frame_with(&mut self, frame: Frame, similar: bool) -> (r: Option<Frame>)
        requires
            old(self).wf(),
            old(self).spec_received() < usize::MAX,
            frame.duplicates == 0,
        ensures
            final(self).wf(),
            final(self).spec_received() == old(self).spec_received() + 1,
            (final(self).state(), frame_option_view(r)) == filter_step(
                old(self).state(),
                FilterInput { frame: frame@, similar },
            ),
    {
        let ghost old_emitted = self.emitted@;
        let mut frame = frame;
        self.received = self.received + 1;
        match self.previous.take() {
            None => {
                frame.index = self.emitted_count;
                self.previous = Some(frame);
                None
            },
            Some(mut previous) => {
                if similar && previous.image.width == frame.image.width
                    && previous.image.height == frame.image.height {
                    previous.add_duplicate();
                    self.previous = Some(previous);
                    None
                } else {
                    self.emitted = Ghost(old_emitted.push(previous@));
                    assert(self.emitted@.drop_last() =~= old_emitted);
                    self.emitted_count = self.emitted_count + 1;
                    frame.index = self.emitted_count;
                    self.previous = Some(frame);
                    Some(previous)
                }
            },
        }
    }

    /// Feeds `frame` to the filter, folding it into the held frame when the
    /// two are equal pixel for pixel.
    pub fn filter_frame(&mut self, frame: Frame) -> (r: Option<Frame>)
        requires
            old(self).wf(),
            old(self).spec_received() < usize::MAX,
            frame.duplicates == 0,
        ensures
            final(self).wf(),
            final(self).spec_received() == old(self).spec_received() + 1,
            ({
                let similar = match old(self).state().held {
                    Some(p) => p.image == frame.image@,
                    None => false,
                };
                (final(self).state(), frame_option_view(r)) == filter_step(
                    old(self).state(),
                    FilterInput { frame: frame@, similar },
                )
            }),
    {
        let similar = match &self.previous {
            Some(p) => p.is_duplicate(&frame),
            None => false,
        };
        self.filter_frame_with(frame, similar)
    }

    /// Ends the stream: the held frame leaves the filter, if there is one.
    pub fn finish(&mut self) -> (r: Option<Frame>)
        requires
            old(self).wf(),
        ensures
            final(self).wf(),
            frame_option_view(r) == old(self).state().held,
            final(self).state() == (FilterState {
                held: None,
                emitted: match old(self).state().held {
                    Some(h) => old(self).state().emitted.push(h),
                    None => old(self).state().emitted,
                },
            }),
            final(self).spec_received() == old(self).spec_received(),
    {
        let ghost old_emitted = self.emitted@;
        match self.previous.take() {
            Some(previous) => {
                self.emitted = Ghost(old_emitted.push(previous@));
                assert(self.emitted@.drop_last() =~= old_emitted);
                self.emitted_count = self.emitted_count + 1;
                Some(previous)
            },
            None => None,
        }
    }
}

} // verus!
