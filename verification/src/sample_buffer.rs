use vstd::prelude::*;
use std::path::PathBuf;
use std::sync::Arc;

verus! {

/// `std::path::PathBuf`, carried through opaque.
#[verifier::external_type_specification]
#[verifier::external_body]
pub struct ExPathBuf(PathBuf);

/// `PathBuf`'s `Clone`; `PathBuf` is opaque here, so nothing is promised of the copy.
pub assume_specification[ <PathBuf as Clone>::clone ](p: &PathBuf) -> PathBuf;

/// Wraps `Vec::into_boxed_slice`: the boxed slice holds the same items in the
/// same order.
#[verifier::external_body]
fn vec_into_boxed<S>(v: Vec<S>) -> (b: Box<[S]>)
    ensures
        b@ == v@,
{
    v.into_boxed_slice()
}

/// Copies a channel item by item.
fn copy_channel<S: Copy>(channel: &Vec<S>) -> (copy: Vec<S>)
    ensures
        copy@ == channel@,
{
    let mut copy: Vec<S> = Vec::new();
    let n = channel.len();
    for i in 0..n
        invariant
            n == channel@.len(),
            copy@ == channel@.subrange(0, i as int),
    {
        copy.push(channel[i]);
    }
    copy
}

/// One frame of audio, by channel count.
pub enum AudioFrame<S> {
    Mono([S; 1]),
    Stereo([S; 2]),
    Multi(Box<[S]>),
}

impl<S: Copy> Clone for AudioFrame<S> {
    /// The same frame; the samples of a `Multi` frame are copied into a new
    /// box.
    fn clone(&self) -> (c: Self)
        ensures
            match (self, c) {
                (AudioFrame::Mono(a), AudioFrame::Mono(b)) => a == b,
                (AudioFrame::Stereo(a), AudioFrame::Stereo(b)) => a == b,
                (AudioFrame::Multi(a), AudioFrame::Multi(b)) => a@ == b@,
                _ => false,
            },
    {
        match self {
            AudioFrame::Mono(a) => AudioFrame::Mono(*a),
            AudioFrame::Stereo(a) => AudioFrame::Stereo(*a),
            AudioFrame::Multi(a) => {
                let mut v: Vec<S> = Vec::new();
                let n = a.len();
                for i in 0..n
                    invariant
                        n == a@.len(),
                        v@ == a@.subrange(0, i as int),
                {
                    v.push(a[i]);
                }
                assert(v@ =~= a@);
                AudioFrame::Multi(vec_into_boxed(v))
            },
        }
    }
}

/// Holds no state; kept as the engine's mixing stage.
pub struct Mixer {}

/// Decoded audio: one `Vec` of samples per channel.
pub struct SampleBuffer<S> {
    /// Raw sample data, one vector per channel.
    pub samples: Vec<Vec<S>>,
    /// The file the sample came from.
    pub path: Option<PathBuf>,
    /// The original sample rate.
    pub sample_rate_original: u32,
    pub sample_rate_current: u32,
}

/// The channels of `samples` as sequences.
pub open spec fn channel_seqs<S>(samples: Seq<Vec<S>>) -> Seq<Seq<S>> {
    samples.map_values(|ch: Vec<S>| ch@)
}

/// Number of frames: the length of the first channel, zero without channels.
pub open spec fn spec_frame_count<S>(samples: Seq<Vec<S>>) -> nat {
    if samples.len() == 0 { 0 } else { samples[0]@.len() }
}

/// Every channel holds a sample at `idx`.
pub open spec fn spec_has_frame<S>(samples: Seq<Vec<S>>, idx: int) -> bool {
    forall|c: int| 0 <= c < samples.len() ==> 0 <= idx && idx < #[trigger] samples[c]@.len()
}

/// The samples at position `idx`, one per channel.
pub open spec fn spec_frame_at<S>(samples: Seq<Vec<S>>, idx: int) -> Seq<S> {
    Seq::new(samples.len(), |c: int| samples[c]@[idx])
}

/// Every channel is at least as long as the first one.
pub open spec fn spec_uniform<S>(samples: Seq<Vec<S>>) -> bool {
    forall|c: int| 0 <= c < samples.len() ==> spec_frame_count(samples) <= #[trigger] samples[c]@.len()
}

/// What `to_stereo` makes of a list of channels.
pub open spec fn spec_stereo_channels<S>(samples: Seq<Seq<S>>) -> Seq<Seq<S>> {
    if samples.len() == 0 {
        seq![Seq::empty(), Seq::empty()]
    } else if samples.len() > 1 {
        samples
    } else {
        samples.push(samples[0])
    }
}

impl<S: Copy> Clone for SampleBuffer<S> {
    /// A copy of every channel and of both rates; the path, if any, is
    /// cloned.
    fn clone(&self) -> (c: Self)
        ensures
            channel_seqs(c.samples@) == channel_seqs(self.samples@),
            c.path is Some <==> self.path is Some,
            c.sample_rate_original == self.sample_rate_original,
            c.sample_rate_current == self.sample_rate_current,
    {
        let mut samples: Vec<Vec<S>> = Vec::new();
        let n = self.samples.len();
        for i in 0..n
            invariant
                n == self.samples@.len(),
                samples@.len() == i,
                forall|j: int| 0 <= j < i ==> #[trigger] samples@[j]@ == self.samples@[j]@,
        {
            samples.push(copy_channel(&self.samples[i]));
        }
        let path = match &self.path {
            Some(p) => Some(p.clone()),
            None => None,
        };
        assert(channel_seqs(samples@) =~= channel_seqs(self.samples@));
        SampleBuffer {
            samples,
            path,
            sample_rate_original: self.sample_rate_original,
            sample_rate_current: self.sample_rate_current,
        }
    }
}

impl<S> Default for SampleBuffer<S> {
    fn default() -> (b: Self)
        ensures
            b.samples@.len() == 0,
            b.path is None,
            b.sample_rate_original == 0,
            b.sample_rate_current == 0,
    {
        SampleBuffer { samples: Vec::new(), path: None, sample_rate_original: 0, sample_rate_current: 0 }
    }
}

impl<S: Copy> SampleBuffer<S> {
    /// A buffer over `buffer` recorded at `rate`; no path, current rate zero.
    pub fn new(buffer: Vec<Vec<S>>, rate: u32) -> (b: Self)
        ensures
            b.samples == buffer,
            b.path is None,
            b.sample_rate_original == rate,
            b.sample_rate_current == 0,
    {
        SampleBuffer { samples: buffer, path: None, sample_rate_original: rate, sample_rate_current: 0 }
    }

    /// The channels.
    pub fn audio(&self) -> (a: &[Vec<S>])
        ensures
            a@ == self.samples@,
    {
        self.samples.as_slice()
    }

    /// Does nothing.
    pub fn audio_mut(&mut self)
        ensures
            *final(self) == *old(self),
    {
    }

    /// Number of channels.
    pub fn channels(&self) -> (n: usize)
        ensures
            n == self.samples@.len(),
    {
        self.samples.len()
    }

    /// Number of frames, taken from the first channel (channel data is
    /// assumed to be of one length); zero without channels.
    pub fn frames(&self) -> (n: usize)
        ensures
            n == spec_frame_count(self.samples@),
    {
        if self.samples.len() == 0 {
            return 0;
        }
        self.samples[0].len()
    }

    /// The samples of every channel at position `idx`, or `None` when some
    /// channel has no sample there.
    pub fn frame(&self, idx: usize) -> (f: Option<Box<[S]>>)
        ensures
            f is Some <==> spec_has_frame(self.samples@, idx as int),
            f matches Some(fr) ==> fr@ == spec_frame_at(self.samples@, idx as int),
    {
        let n = self.samples.len();
        let mut sample_frame: Vec<S> = Vec::new();
        for channel in 0..n
            invariant
                n == self.samples@.len(),
                sample_frame@.len() == channel,
                spec_has_frame(self.samples@.subrange(0, channel as int), idx as int),
                forall|c: int| 0 <= c < channel ==> #[trigger] sample_frame@[c] == self.samples@[c]@[idx as int],
        {
            if idx >= self.samples[channel].len() {
                assert(!(0 <= idx < self.samples@[channel as int]@.len()));
                return None;
            }
            sample_frame.push(self.samples[channel][idx]);
            assert(spec_has_frame(self.samples@.subrange(0, channel + 1), idx as int)) by {
                assert forall|c: int| 0 <= c < channel + 1 implies 0 <= idx < #[trigger] self.samples@.subrange(0, channel + 1)[c]@.len() by {
                    if c < channel {
                        assert(self.samples@.subrange(0, channel as int)[c] == self.samples@[c]);
                    }
                }
            }
        }
        assert(self.samples@.subrange(0, n as int) == self.samples@);
        assert(sample_frame@ == spec_frame_at(self.samples@, idx as int));
        Some(vec_into_boxed(sample_frame))
    }

    /// Turns the buffer into a stereo one: no channels become two empty
    /// channels, one channel is duplicated, two or more are kept as they are.
    pub fn to_stereo(self) -> (b: Self)
        ensures
            channel_seqs(b.samples@) == spec_stereo_channels(channel_seqs(self.samples@)),
            self.samples@.len() == 0 ==> b.samples@.len() == 2 && b.samples@[0]@.len() == 0 && b.samples@[1]@.len() == 0,
            self.samples@.len() == 1 ==> b.samples@.len() == 2 && b.samples@[0] == self.samples@[0]
                && b.samples@[1]@ == self.samples@[0]@,
            self.samples@.len() > 1 ==> b.samples == self.samples,
            b.path == self.path,
            b.sample_rate_original == self.sample_rate_original,
            b.sample_rate_current == self.sample_rate_current,
    {
        let mut this = self;
        if this.samples.len() == 0 {
            let mut stereo: Vec<Vec<S>> = Vec::new();
            stereo.push(Vec::new());
            stereo.push(Vec::new());
            let b = SampleBuffer { samples: stereo, ..this };
            assert(channel_seqs(b.samples@) == spec_stereo_channels(channel_seqs(self.samples@)));
            return b;
        }
        if this.samples.len() > 1 {
            return this;
        }
        let dupe = copy_channel(&this.samples[0]);
        this.samples.push(dupe);
        assert(channel_seqs(this.samples@) == spec_stereo_channels(channel_seqs(self.samples@)));
        this
    }

    /// Wraps `Arc::make_mut`: a mutable reference to the buffer behind the `Arc`.
    /// When other `Arc`s share it, `Arc::make_mut` first clones it
    /// into a fresh allocation, so the reference starts at the buffer itself
    /// or at a clone of it; what is written through it is what the `Arc` holds.
    #[verifier::external_body]
    pub fn make_mut(self: &mut Arc<Self>) -> (b: &mut Self)
        ensures
            *b == **old(self) || cloned(**old(self), *b),
            **final(self) == *final(b),
    {
        Arc::make_mut(self)
    }

    /// Does nothing.
    pub fn reverse(&mut self)
        ensures
            *final(self) == *old(self),
    {
    }
}

/// `to_stereo` always leaves at least two channels, and applying it again
/// changes nothing.
pub proof fn lemma_to_stereo_idempotent<S>(samples: Seq<Seq<S>>)
    ensures
        spec_stereo_channels(samples).len() >= 2,
        spec_stereo_channels(spec_stereo_channels(samples)) == spec_stereo_channels(samples),
{
}

/// In a buffer whose channels all have one length, a frame exists at
/// exactly the positions below the frame count.
pub proof fn lemma_uniform_frames<S>(samples: Seq<Vec<S>>, idx: int)
    requires
        samples.len() >= 1,
        forall|c: int| 0 <= c < samples.len() ==> #[trigger] samples[c]@.len() == spec_frame_count(samples),
    ensures
        spec_has_frame(samples, idx) <==> 0 <= idx < spec_frame_count(samples),
{
    if 0 <= idx < spec_frame_count(samples) {
        assert forall|c: int| 0 <= c < samples.len() implies 0 <= idx < #[trigger] samples[c]@.len() by {}
    }
    if spec_has_frame(samples, idx) {
        let first = 0int;
        assert(0 <= first < samples.len());
        let l = samples[first]@.len();
        assert(forall|c: int| 0 <= c < samples.len() ==> 0 <= idx && idx < #[trigger] samples[c]@.len());
        assert(0 <= idx && idx < l);
    }
}

/// `buffer` with its first `channels` entries replaced by the samples of
/// `samples` at position `frame`.
pub open spec fn spec_fill_frame<S>(buffer: Seq<S>, samples: Seq<Vec<S>>, channels: int, frame: int) -> Seq<S> {
    Seq::new(buffer.len(), |i: int| if i < channels { samples[i]@[frame] } else { buffer[i] })
}

/// With every channel active, the frame a walk hands out is the buffer's
/// frame at that position.
pub proof fn lemma_full_walk_frame<S>(buffer: Seq<S>, samples: Seq<Vec<S>>, frame: int)
    requires
        buffer.len() == samples.len(),
    ensures
        spec_fill_frame(buffer, samples, samples.len() as int, frame) == spec_frame_at(samples, frame),
{
    assert(spec_fill_frame(buffer, samples, samples.len() as int, frame) =~= spec_frame_at(samples, frame));
}

/// Walks a buffer frame by frame, forwards or backwards. Each call of `next`
/// writes the samples of the current frame into a frame-sized buffer (as
/// many channels as are active) and hands out a copy of that buffer.
pub struct FramesIter<'a, S> {
    samples: &'a [Vec<S>],
    channels: usize,
    frame: usize,
    buffer: Vec<S>,
    reversed: bool,
}

impl<'a, S: Copy> FramesIter<'a, S> {
    /// The channels walked over.
    pub closed spec fn source(&self) -> Seq<Vec<S>> {
        self.samples@
    }

    /// How many channels are copied into each frame.
    pub closed spec fn active_channels(&self) -> nat {
        self.channels as nat
    }

    /// The position of the next frame.
    pub closed spec fn position(&self) -> nat {
        self.frame as nat
    }

    /// The frame handed out last (silence before the first one).
    pub closed spec fn current(&self) -> Seq<S> {
        self.buffer@
    }

    /// Whether the walk goes backwards.
    pub closed spec fn is_reversed(&self) -> bool {
        self.reversed
    }

    /// The shape every iterator keeps: at least one channel, no more active
    /// channels than there are, and a frame buffer with one slot per channel.
    pub open spec fn wf(&self) -> bool {
        &&& self.source().len() >= 1
        &&& self.active_channels() <= self.source().len()
        &&& self.current().len() == self.source().len()
    }

    /// Whether the walk is over: backwards at position zero, or past the end
    /// of the first channel.
    pub open spec fn is_done(&self) -> bool {
        (self.position() == 0 && self.is_reversed()) || self.position() >= self.source()[0]@.len()
    }

    /// Every active channel has a sample at the current position (a channel
    /// shorter than that would be indexed out of bounds).
    pub open spec fn can_advance(&self) -> bool {
        self.is_done() || forall|c: int| 0 <= c < self.active_channels() ==> self.position() < #[trigger] self.source()[c]@.len()
    }

    /// A forward walk over `samples`, all channels active, starting at the
    /// first frame, with every slot of the frame buffer set to `silence`.
    pub fn new(samples: &'a [Vec<S>], silence: S) -> (it: Self)
        requires
            samples@.len() >= 1,
        ensures
            it.wf(),
            it.source() == samples@,
            it.active_channels() == samples@.len(),
            it.position() == 0,
            !it.is_reversed(),
            it.current() == Seq::new(samples@.len(), |i: int| silence),
    {
        let n = samples.len();
        let mut buffer: Vec<S> = Vec::new();
        for i in 0..n
            invariant
                buffer@ == Seq::new(i as nat, |j: int| silence),
        {
            buffer.push(silence);
        }
        FramesIter { samples, channels: n, frame: 0, buffer, reversed: false }
    }

    /// Turns the direction around: a backward walk starts at the last frame
    /// of the first channel, a forward walk at the first frame.
    pub fn reverse(self) -> (it: Self)
        requires
            self.wf(),
            !self.is_reversed() ==> self.source()[0]@.len() > 0,
        ensures
            it.wf(),
            it.is_reversed() == !self.is_reversed(),
            it.position() == (if it.is_reversed() { self.source()[0]@.len() - 1 } else { 0int }),
            it.source() == self.source(),
            it.active_channels() == self.active_channels(),
            it.current() == self.current(),
    {
        let mut this = self;
        this.reversed = !this.reversed;
        this.frame = if this.reversed { this.samples[0].len() - 1 } else { 0 };
        this
    }

    /// Copies no more than `new_channels` channels into each frame.
    pub fn override_channels(self, new_channels: usize) -> (it: Self)
        requires
            self.wf(),
        ensures
            it.wf(),
            it.active_channels() == (if new_channels < self.active_channels() { new_channels as nat } else { self.active_channels() }),
            it.source() == self.source(),
            it.position() == self.position(),
            it.is_reversed() == self.is_reversed(),
            it.current() == self.current(),
    {
        let channels = if new_channels < self.channels { new_channels } else { self.channels };
        FramesIter { channels, ..self }
    }

    /// The next frame of the walk, or `None` once it is over. The frame has
    /// one slot per channel; the active ones hold the samples at the current
    /// position, the others keep what they held before.
    pub fn next(&mut self) -> (f: Option<Box<[S]>>)
        requires
            old(self).wf(),
            old(self).can_advance(),
        ensures
            final(self).wf(),
            spec_walk_step(*old(self), *final(self), spec_boxed_frame(f)),
    {
        if self.frame == 0 && self.reversed {
            return None;
        }
        if self.frame >= self.samples[0].len() {
            return None;
        }
        let ghost before = self.buffer@;
        let ghost reversed = self.reversed;
        let ghost source = self.samples@;
        let frame = self.frame;
        let channels = self.channels;
        for channel in 0..channels
            invariant
                channels == self.channels,
                frame == self.frame,
                reversed == self.reversed,
                source == self.samples@,
                !(frame == 0 && reversed),
                frame < source[0]@.len(),
                self.channels <= self.samples@.len(),
                self.buffer@.len() == self.samples@.len(),
                before.len() == self.samples@.len(),
                forall|c: int| 0 <= c < self.channels ==> frame < #[trigger] self.samples@[c]@.len(),
                self.buffer@ == Seq::new(before.len(), |i: int| if i < channel { self.samples@[i]@[frame as int] } else { before[i] }),
        {
            let v = self.samples[channel][frame];
            self.buffer.set(channel, v);
        }
        if self.reversed {
            self.frame = self.frame - 1;
        } else {
            self.frame = self.frame + 1;
        }
        let out = copy_channel(&self.buffer);
        Some(vec_into_boxed(out))
    }
}

/// The items of a handed-out frame, if any.
pub open spec fn spec_boxed_frame<S>(f: Option<Box<[S]>>) -> Option<Seq<S>> {
    match f {
        Some(b) => Some(b@),
        None => None,
    }
}

/// One call of `next` on a walk: once the walk is over it gives `None` and
/// changes nothing; otherwise the frame buffer takes the samples of the
/// active channels at the current position, a copy of it is handed out,
/// and the position moves one frame on (back, for a backward walk).
pub open spec fn spec_walk_step<'a, S: Copy>(before: FramesIter<'a, S>, after: FramesIter<'a, S>, frame: Option<Seq<S>>) -> bool {
    if before.is_done() {
        frame is None && after == before
    } else {
        &&& frame == Some(after.current())
        &&& after.current() == spec_fill_frame(before.current(), before.source(),
            before.active_channels() as int, before.position() as int)
        &&& after.position() == (if before.is_reversed() { before.position() - 1 } else { before.position() + 1int })
        &&& after.source() == before.source()
        &&& after.active_channels() == before.active_channels()
        &&& after.is_reversed() == before.is_reversed()
    }
}

/// Along a run of `next` calls on a forward walk over all channels, the
/// state after `k` calls is at frame `k`, or at the end once `k` passes it.
proof fn lemma_walk_run_state<'a, S: Copy>(states: Seq<FramesIter<'a, S>>, frames: Seq<Option<Seq<S>>>, k: int)
    requires
        states.len() == frames.len() + 1,
        forall|i: int| 0 <= i < states.len() ==> #[trigger] states[i].wf(),
        forall|i: int| 0 <= i < frames.len() ==> spec_walk_step(states[i], states[i + 1], #[trigger] frames[i]),
        states[0].position() == 0,
        !states[0].is_reversed(),
        states[0].active_channels() == states[0].source().len(),
        0 <= k < states.len(),
    ensures
        states[k].source() == states[0].source(),
        !states[k].is_reversed(),
        states[k].active_channels() == states[0].source().len(),
        states[k].position() == (if k < states[0].source()[0]@.len() { k } else { states[0].source()[0]@.len() as int }),
    decreases k,
{
    if k > 0 {
        lemma_walk_run_state(states, frames, k - 1);
        assert(spec_walk_step(states[k - 1], states[k], frames[k - 1]));
    }
}

/// A forward walk over all channels of a buffer hands out its frames in
/// order, then `None` for good.
pub proof fn lemma_walk_frames_in_order<'a, S: Copy>(states: Seq<FramesIter<'a, S>>, frames: Seq<Option<Seq<S>>>)
    requires
        states.len() == frames.len() + 1,
        forall|i: int| 0 <= i < states.len() ==> #[trigger] states[i].wf(),
        forall|i: int| 0 <= i < frames.len() ==> spec_walk_step(states[i], states[i + 1], #[trigger] frames[i]),
        states[0].position() == 0,
        !states[0].is_reversed(),
        states[0].active_channels() == states[0].source().len(),
    ensures
        forall|i: int| 0 <= i < frames.len() && i < spec_frame_count(states[0].source()) ==>
            #[trigger] frames[i] == Some(spec_frame_at(states[0].source(), i)),
        forall|i: int| 0 <= i < frames.len() && i >= spec_frame_count(states[0].source()) ==> #[trigger] frames[i] is None,
{
    let src = states[0].source();
    assert forall|i: int| 0 <= i < frames.len() implies
        (i < spec_frame_count(src) ==> #[trigger] frames[i] == Some(spec_frame_at(src, i)))
        && (i >= spec_frame_count(src) ==> frames[i] is None)
    by {
        lemma_walk_run_state(states, frames, i);
        assert(spec_walk_step(states[i], states[i + 1], frames[i]));
        assert(states[i].wf());
        if i < spec_frame_count(src) {
            lemma_full_walk_frame(states[i].current(), src, i);
        }
    }
}

impl<S: Copy> SampleBuffer<S> {
    /// A forward walk over the frames of the buffer (see `FramesIter`);
    /// `silence` fills frame slots no channel has written yet.
    pub fn iter_frames(&self, silence: S) -> (it: FramesIter<'_, S>)
        requires
            self.samples@.len() >= 1,
        ensures
            it.wf(),
            it.source() == self.samples@,
            it.active_channels() == self.samples@.len(),
            it.position() == 0,
            !it.is_reversed(),
            it.current() == Seq::new(self.samples@.len(), |i: int| silence),
    {
        FramesIter::new(self.samples.as_slice(), silence)
    }
}

} // verus!
