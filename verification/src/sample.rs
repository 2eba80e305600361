use vstd::prelude::*;
use std::sync::Arc;
use crate::sample_buffer::{SampleBuffer, channel_seqs, spec_frame_count, spec_has_frame, spec_frame_at, spec_uniform};
use crate::handles::{PlayHandle, spec_rendered};

verus! {

/// A play handle over a shared sample buffer: it plays the frames from
/// `start` on, one per call of `next`, and remembers how far it got.
#[derive(Clone)]
pub struct Sample<S> {
    /// An `Arc` gives clone-on-write through `make_mut`; a modified sample
    /// needs to be cached again.
    buffer: Arc<SampleBuffer<S>>,
    is_cached: bool,
    is_reversed: bool,
    start: usize,
    end: usize,
    current_frame: usize,
}

impl<S: Copy> Sample<S> {
    /// The buffer played.
    pub closed spec fn source(&self) -> SampleBuffer<S> {
        *self.buffer
    }

    /// The first frame played.
    pub closed spec fn start_frame(&self) -> nat {
        self.start as nat
    }

    /// The end of the played range, fixed when the sample was made.
    pub closed spec fn end_frame(&self) -> nat {
        self.end as nat
    }

    /// How many frames have been played so far.
    pub closed spec fn played(&self) -> nat {
        self.current_frame as nat
    }

    /// Whether the sample is marked as reversed.
    pub closed spec fn reversed(&self) -> bool {
        self.is_reversed
    }

    /// Whether the buffer is marked as the cached one.
    pub closed spec fn cached(&self) -> bool {
        self.is_cached
    }

    /// The buffer position of the next frame.
    pub open spec fn offset(&self) -> int {
        self.start_frame() + self.played() as int
    }

    /// The frame count of the buffer played.
    pub open spec fn source_frames(&self) -> nat {
        spec_frame_count(self.source().samples@)
    }

    /// How many frames are left to play from the current position.
    pub open spec fn frames_left(&self) -> int {
        if self.offset() < self.source_frames() { self.source_frames() - self.offset() } else { 0 }
    }

    /// A sample over `buffer`, at its first frame, spanning all its frames,
    /// not cached, marked as reversed.
    pub fn new(buffer: Arc<SampleBuffer<S>>) -> (s: Self)
        ensures
            s.source() == *buffer,
            s.start_frame() == 0,
            s.end_frame() == spec_frame_count(buffer.samples@),
            s.played() == 0,
            s.reversed(),
            !s.cached(),
    {
        let end = buffer.frames();
        Sample { buffer, is_cached: false, is_reversed: true, start: 0, end, current_frame: 0 }
    }

    /// The length of the played range.
    fn len(&self) -> (n: usize)
        requires
            self.start_frame() <= self.end_frame(),
        ensures
            n == self.end_frame() - self.start_frame(),
    {
        self.end - self.start
    }

    /// Plays up to `frames` frames (less those already played) into the
    /// first slot of `out_buffer`, which ends up holding the last frame
    /// played. A reversed sample plays nothing.
    fn play(&mut self, out_buffer: &mut [[S; 2]], frames: usize)
        requires
            old(self).offset() + (if frames > old(self).played() { frames - old(self).played() } else { 0 }) <= usize::MAX,
            ({
                let offset = old(self).offset();
                let left = if frames > old(self).played() { frames - old(self).played() } else { 0 };
                let end = if old(self).source_frames() < offset + left { old(self).source_frames() as int } else { offset + left };
                !old(self).reversed() && offset < old(self).source_frames() && offset < end ==> {
                    &&& old(out_buffer)@.len() >= 1
                    &&& old(self).source().samples@.len() >= 2
                    &&& forall|i: int| offset <= i < end ==> spec_has_frame(old(self).source().samples@, i)
                }
            }),
        ensures
            ({
                let offset = old(self).offset();
                let left = if frames > old(self).played() { frames - old(self).played() } else { 0 };
                let end = if old(self).source_frames() < offset + left { old(self).source_frames() as int } else { offset + left };
                if old(self).reversed() || offset >= old(self).source_frames() || offset >= end {
                    *final(self) == *old(self) && final(out_buffer)@ == old(out_buffer)@
                } else {
                    &&& final(self).played() == old(self).played() + (end - offset)
                    &&& final(self).source() == old(self).source()
                    &&& final(self).start_frame() == old(self).start_frame()
                    &&& final(self).end_frame() == old(self).end_frame()
                    &&& final(self).reversed() == old(self).reversed()
                    &&& final(self).cached() == old(self).cached()
                    &&& final(out_buffer)@ == old(out_buffer)@.update(0, [
                        old(self).source().samples@[0]@[end - 1],
                        old(self).source().samples@[1]@[end - 1],
                    ])
                }
            }),
    {
        let offset = self.start + self.current_frame;
        let frames_left = if frames > self.current_frame { frames - self.current_frame } else { 0 };
        let total = self.buffer.frames();
        let end = if total < offset + frames_left { total } else { offset + frames_left };
        if offset >= total {
            return;
        }
        let mut frames_written: usize = 0;
        let (lo, hi) = if self.is_reversed { (end, offset) } else { (offset, end) };
        let mut i = lo;
        let ghost out0 = out_buffer@;
        while i < hi
            invariant
                lo <= i,
                i <= hi || i == lo,
                self.is_reversed ==> lo >= hi,
                !self.is_reversed ==> lo == offset && hi == end,
                frames_written == i - lo,
                out_buffer@.len() == out0.len(),
                i > lo ==> out_buffer@ == out0.update(0, [
                    self.buffer.samples@[0]@[i - 1],
                    self.buffer.samples@[1]@[i - 1],
                ]),
                i == lo ==> out_buffer@ == out0,
                !self.is_reversed && offset < end ==> {
                    &&& out0.len() >= 1
                    &&& self.buffer.samples@.len() >= 2
                    &&& forall|k: int| offset <= k < end ==> spec_has_frame(self.buffer.samples@, k)
                },
            decreases hi - i,
        {
            let f = self.buffer.frame(i).unwrap();
            assert(spec_has_frame(self.buffer.samples@, i as int));
            out_buffer[0] = [f[0], f[1]];
            frames_written = frames_written + 1;
            i = i + 1;
        }
        self.current_frame = self.current_frame + frames_written;
    }

    /// A mutable reference to the buffer, cloned first when it is shared;
    /// the sample is no longer marked as cached.
    pub fn sample_mut(&mut self) -> (b: &mut SampleBuffer<S>)
        ensures
            !final(self).cached(),
            *b == old(self).source() || cloned(old(self).source(), *b),
            channel_seqs(b.samples@) == channel_seqs(old(self).source().samples@),
            b.path is Some <==> old(self).source().path is Some,
            b.sample_rate_original == old(self).source().sample_rate_original,
            b.sample_rate_current == old(self).source().sample_rate_current,
            final(self).source() == *final(b),
            final(self).start_frame() == old(self).start_frame(),
            final(self).end_frame() == old(self).end_frame(),
            final(self).played() == old(self).played(),
            final(self).reversed() == old(self).reversed(),
    {
        self.is_cached = false;
        self.buffer.make_mut()
    }
}

/// One call of `next`: past the last frame it gives `None` and changes
/// nothing; otherwise it counts one more frame played and gives the samples
/// of the first two channels at the current position, or `None` when some
/// channel is too short there.
pub open spec fn spec_play_step<S: Copy>(before: Sample<S>, after: Sample<S>, frame: Option<[S; 2]>) -> bool {
    if before.offset() >= before.source_frames() {
        frame is None && after == before
    } else {
        &&& after.played() == before.played() + 1
        &&& after.source() == before.source()
        &&& after.start_frame() == before.start_frame()
        &&& after.end_frame() == before.end_frame()
        &&& after.reversed() == before.reversed()
        &&& after.cached() == before.cached()
        &&& (frame is Some <==> spec_has_frame(before.source().samples@, before.offset()))
        &&& (frame matches Some(f) ==> f == [
                before.source().samples@[0]@[before.offset()],
                before.source().samples@[1]@[before.offset()],
            ])
    }
}

/// Along a run of `next` calls from a fresh sample, the state after `k`
/// calls still plays the same buffer from frame zero and has played `k`
/// frames, or all of them once `k` passes the end.
proof fn lemma_play_run_state<S: Copy>(states: Seq<Sample<S>>, frames: Seq<Option<[S; 2]>>, k: int)
    requires
        states.len() == frames.len() + 1,
        forall|i: int| 0 <= i < frames.len() ==> spec_play_step(states[i], states[i + 1], #[trigger] frames[i]),
        states[0].start_frame() == 0,
        states[0].played() == 0,
        0 <= k < states.len(),
    ensures
        states[k].source() == states[0].source(),
        states[k].start_frame() == 0,
        states[k].played() == (if k < states[0].source_frames() { k } else { states[0].source_frames() as int }),
    decreases k,
{
    if k > 0 {
        lemma_play_run_state(states, frames, k - 1);
        assert(spec_play_step(states[k - 1], states[k], frames[k - 1]));
    }
}

/// A sample played from its first frame hands out the frames of its buffer
/// in order (the samples of the first two channels), then `None` for good.
pub proof fn lemma_plays_frames_in_order<S: Copy>(states: Seq<Sample<S>>, frames: Seq<Option<[S; 2]>>)
    requires
        states.len() == frames.len() + 1,
        forall|i: int| 0 <= i < frames.len() ==> spec_play_step(states[i], states[i + 1], #[trigger] frames[i]),
        states[0].start_frame() == 0,
        states[0].played() == 0,
        states[0].source().samples@.len() >= 2,
        spec_uniform(states[0].source().samples@),
    ensures
        forall|i: int| 0 <= i < frames.len() && i < states[0].source_frames() ==> #[trigger] frames[i] == Some([
            states[0].source().samples@[0]@[i],
            states[0].source().samples@[1]@[i],
        ]),
        forall|i: int| 0 <= i < frames.len() && i >= states[0].source_frames() ==> #[trigger] frames[i] is None,
{
    let src = states[0].source().samples@;
    assert forall|i: int| 0 <= i < frames.len() implies
        (i < states[0].source_frames() ==> #[trigger] frames[i] == Some([src[0]@[i], src[1]@[i]]))
        && (i >= states[0].source_frames() ==> frames[i] is None)
    by {
        lemma_play_run_state(states, frames, i);
        assert(spec_play_step(states[i], states[i + 1], frames[i]));
        if i < states[0].source_frames() {
            assert forall|c: int| 0 <= c < src.len() implies 0 <= i && i < #[trigger] src[c]@.len() by {
                assert(spec_frame_count(src) <= src[c]@.len());
            }
            assert(spec_has_frame(src, i));
        }
    }
}

/// Along any run of `next` calls, the state after `k` calls plays the same
/// buffer and stands `k` frames further on, or at the end once fewer than `k`
/// frames were left.
proof fn lemma_play_run_offset<S: Copy>(states: Seq<Sample<S>>, outs: Seq<Option<[S; 2]>>, k: int)
    requires
        states.len() == outs.len() + 1,
        forall|i: int| 0 <= i < outs.len() ==> spec_play_step(states[i], states[i + 1], #[trigger] outs[i]),
        0 <= k < states.len(),
    ensures
        states[k].source() == states[0].source(),
        states[k].start_frame() == states[0].start_frame(),
        states[k].offset() == states[0].offset() + (if k < states[0].frames_left() { k } else { states[0].frames_left() }),
    decreases k,
{
    if k > 0 {
        lemma_play_run_offset(states, outs, k - 1);
        assert(spec_play_step(states[k - 1], states[k], outs[k - 1]));
    }
}

/// Rendering a sample whose channels are all at least as long as its first
/// one writes every frame it has left, up to the size of the buffer: the
/// count written is the smaller of the buffer's length and the frames left,
/// and each written slot got the next frame of the buffer played.
pub proof fn lemma_render_writes_every_frame_left<S: Copy + Send + Sync + 'static, F: Fn(S, S) -> S>(
    states: Seq<Sample<S>>,
    outs: Seq<Option<[S; 2]>>,
    before: Seq<[S; 2]>,
    after: Seq<[S; 2]>,
    written: int,
    combine: F,
)
    requires
        states.len() == outs.len() + 1,
        forall|i: int| 0 <= i < outs.len() ==> #[trigger] states[i].next_step(states[i + 1], outs[i]),
        spec_rendered(outs, before, after, written, combine),
        0 <= written <= before.len(),
        spec_uniform(states[0].source().samples@),
    ensures
        written == (if before.len() < states[0].frames_left() { before.len() as int } else { states[0].frames_left() }),
        forall|i: int| 0 <= i < written ==> #[trigger] outs[i] == Some([
            states[0].source().samples@[0]@[states[0].offset() + i],
            states[0].source().samples@[1]@[states[0].offset() + i],
        ]),
{
    let rem = states[0].frames_left();
    let src = states[0].source().samples@;
    assert forall|i: int| 0 <= i < outs.len() implies spec_play_step(states[i], states[i + 1], #[trigger] outs[i]) by {
        assert(states[i].next_step(states[i + 1], outs[i]));
    }
    assert forall|i: int| 0 <= i < written implies i < rem && #[trigger] outs[i] == Some([
        src[0]@[states[0].offset() + i],
        src[1]@[states[0].offset() + i],
    ]) by {
        lemma_play_run_offset(states, outs, i);
        assert(spec_play_step(states[i], states[i + 1], outs[i]));
        assert(outs[i] is Some);
    }
    if written > 0 {
        assert(outs[written - 1] is Some);
        assert(written - 1 < rem);
    }
    if written < before.len() {
        lemma_play_run_offset(states, outs, written);
        assert(spec_play_step(states[written], states[written + 1], outs[written]));
        assert(outs[written] is None);
        if states[written].offset() < states[written].source_frames() {
            let off = states[written].offset();
            assert forall|c: int| 0 <= c < src.len() implies 0 <= off && off < #[trigger] src[c]@.len() by {
                assert(spec_frame_count(src) <= src[c]@.len());
            }
            assert(spec_has_frame(src, off));
        }
    }
}

impl<S: Copy + Send + Sync + 'static> PlayHandle for Sample<S> {
    type Sample = S;

    /// The position of the next frame stays in range, and a buffer with a
    /// single channel has no frame left to play there (the frame needs a
    /// second channel).
    open spec fn can_play(&self) -> bool {
        &&& self.offset() <= usize::MAX
        &&& self.source().samples@.len() == 1 ==> self.offset() >= self.source_frames()
    }

    /// One call of `next` is one playback step (`spec_play_step`).
    open spec fn next_step(&self, after: Self, frame: Option<[S; 2]>) -> bool {
        spec_play_step(*self, after, frame)
    }

    /// Whether the sample has played all its frames.
    fn is_complete(&self) -> (done: bool)
        ensures
            done == (self.offset() >= self.source_frames()),
    {
        let total = self.buffer.frames();
        self.start >= total || self.current_frame >= total - self.start
    }

    /// The frame at the current position (the samples of the first two
    /// channels), or `None` once the position is past the last frame; a
    /// position where some channel is too short gives `None` too but still
    /// counts as played.
    fn next(&mut self) -> (frame: Option<[S; 2]>)
        ensures
            spec_play_step(*old(self), *final(self), frame),
    {
        let offset = self.start + self.current_frame;
        if offset >= self.buffer.frames() {
            return None;
        }
        let result = match self.buffer.frame(offset) {
            Some(f) => Some([f[0], f[1]]),
            None => None,
        };
        self.current_frame = self.current_frame + 1;
        result
    }
}

} // verus!
