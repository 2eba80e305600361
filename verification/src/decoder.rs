use vstd::prelude::*;
use crate::sample_buffer::{SampleBuffer, FramesIter, channel_seqs, spec_frame_count, spec_frame_at, spec_uniform, spec_fill_frame};

verus! {

/// The sample rate assumed when the stream does not state one.
pub const DEFAULT_DECODE_RATE: u32 = 44100;

/// How many failed reads or decodes the loader tolerates; one more stops it.
pub const MAX_DECODE_ERRORS: u32 = 100;

/// What reading and decoding one packet gave.
pub enum PacketOutcome<S> {
    /// A packet decoded into `frames` frames. For a packet with frames,
    /// `samples` holds what the sample container holds after copying the
    /// packet in, in planar order, and `container_channels` is the channel
    /// count the container was made with.
    Decoded { frames: usize, container_channels: u16, samples: Vec<S> },
    /// The packet could not be decoded.
    DecodeFailed,
    /// Reading hit the end of the stream.
    EndOfStream,
    /// Reading failed for another reason.
    ReadFailed,
}

/// Chunk `k` of size `size` of `samples`.
pub open spec fn spec_chunk<S>(samples: Seq<S>, size: int, k: int) -> Seq<S> {
    samples.subrange(k * size, k * size + size)
}

/// How many whole chunks of size `size` fit in `len` samples.
pub open spec fn spec_chunk_count(len: int, size: int) -> int {
    len / size
}

/// What appending a planar packet does to the output channels: the chunks
/// of size `len / channels` (whole chunks only) are appended, the first to
/// the first channel and so on, as far as both go.
pub open spec fn spec_appended<S>(before: Seq<Seq<S>>, samples: Seq<S>, channels: int, after: Seq<Seq<S>>) -> bool {
    let size = (samples.len() as int) / channels;
    &&& after.len() == before.len()
    &&& forall|c: int| 0 <= c < before.len() ==> #[trigger] after[c] == (
        if c < spec_chunk_count(samples.len() as int, size) { before[c] + spec_chunk(samples, size, c) } else { before[c] })
}

/// Appends chunk `k` of `samples` to `out`.
fn append_chunk<S: Copy>(out: &mut Vec<S>, samples: &Vec<S>, size: usize, k: usize)
    requires
        (k + 1) * size <= samples@.len(),
    ensures
        final(out)@ == old(out)@ + spec_chunk(samples@, size as int, k as int),
{
    let len = samples.len();
    proof {
        assert(k * size + size == (k + 1) * size) by (nonlinear_arith);
        assert(k * size + size <= samples@.len());
    }
    let from = k * size;
    let to = from + size;
    let ghost base = out@;
    let mut i = from;
    while i < to
        invariant
            from <= i <= to,
            to <= samples@.len(),
            from == k * size,
            to == k * size + size,
            out@ == base + samples@.subrange(from as int, i as int),
        decreases to - i,
    {
        out.push(samples[i]);
        assert(samples@.subrange(from as int, i + 1) == samples@.subrange(from as int, i as int).push(samples@[i as int]));
        i = i + 1;
    }
}

/// Gathers the decoded audio of a stream, packet by packet: the data of
/// each packet is appended channel by channel, failures are counted, and
/// loading stops at the end of the stream or after too many failures.
pub struct DecodeProgress<S> {
    out_buffer: Vec<Vec<S>>,
    errors: u32,
    rate: u32,
}

impl<S: Copy> DecodeProgress<S> {
    /// The audio gathered so far, one sequence per channel.
    pub closed spec fn gathered(&self) -> Seq<Seq<S>> {
        channel_seqs(self.out_buffer@)
    }

    /// How many failures were counted.
    pub closed spec fn failures(&self) -> nat {
        self.errors as nat
    }

    /// The rate the result will carry.
    pub closed spec fn rate(&self) -> u32 {
        self.rate
    }

    /// Gathering for a stream with `channels` channels (as many empty
    /// channels) at `rate`, or at 44100 when the stream states no rate.
    pub fn new(channels: usize, rate: Option<u32>) -> (p: Self)
        ensures
            p.gathered() == Seq::new(channels as nat, |c: int| Seq::<S>::empty()),
            p.failures() == 0,
            p.rate() == (match rate { Some(r) => r, None => DEFAULT_DECODE_RATE }),
    {
        let mut out_buffer: Vec<Vec<S>> = Vec::new();
        for c in 0..channels
            invariant
                out_buffer@.len() == c,
                forall|k: int| 0 <= k < c ==> #[trigger] out_buffer@[k]@ == Seq::<S>::empty(),
        {
            out_buffer.push(Vec::new());
        }
        assert(channel_seqs(out_buffer@) =~= Seq::new(channels as nat, |c: int| Seq::<S>::empty()));
        let rate = match rate {
            Some(r) => r,
            None => DEFAULT_DECODE_RATE,
        };
        DecodeProgress { out_buffer, errors: 0, rate }
    }

    /// Whether another packet should be read: at most 100 failures so far.
    pub fn wants_packet(&self) -> (more: bool)
        ensures
            more == (self.failures() <= MAX_DECODE_ERRORS),
    {
        self.errors <= MAX_DECODE_ERRORS
    }

    /// Takes in what one packet gave. A packet without frames changes
    /// nothing; a packet with frames has its chunks appended (see
    /// `spec_appended`); a failure is counted. Returns whether another packet
    /// should be read: not after the end of the stream, nor once more than
    /// 100 failures have been counted.
    pub fn accept(&mut self, outcome: PacketOutcome<S>) -> (more: bool)
        requires
            old(self).failures() <= MAX_DECODE_ERRORS,
            match outcome {
                PacketOutcome::Decoded { frames, container_channels, samples } =>
                    frames > 0 ==> container_channels > 0 && samples@.len() >= container_channels,
                _ => true,
            },
        ensures
            final(self).rate() == old(self).rate(),
            match outcome {
                PacketOutcome::Decoded { frames, container_channels, samples } => {
                    &&& more
                    &&& final(self).failures() == old(self).failures()
                    &&& frames == 0 ==> final(self).gathered() == old(self).gathered()
                    &&& frames > 0 ==> spec_appended(old(self).gathered(), samples@, container_channels as int, final(self).gathered())
                },
                PacketOutcome::EndOfStream => !more && *final(self) == *old(self),
                _ => {
                    &&& final(self).failures() == old(self).failures() + 1
                    &&& final(self).gathered() == old(self).gathered()
                    &&& more == (final(self).failures() <= MAX_DECODE_ERRORS)
                },
            },
    {
        match outcome {
            PacketOutcome::Decoded { frames, container_channels, samples } => {
                if frames == 0 {
                    return true;
                }
                self.append_planar(&samples, container_channels);
                true
            },
            PacketOutcome::EndOfStream => false,
            PacketOutcome::DecodeFailed => {
                self.errors = self.errors + 1;
                self.errors <= MAX_DECODE_ERRORS
            },
            PacketOutcome::ReadFailed => {
                self.errors = self.errors + 1;
                self.errors <= MAX_DECODE_ERRORS
            },
        }
    }

    /// Appends the chunks of a planar packet to the channels.
    fn append_planar(&mut self, samples: &Vec<S>, channels: u16)
        requires
            channels > 0,
            samples@.len() >= channels,
        ensures
            spec_appended(old(self).gathered(), samples@, channels as int, final(self).gathered()),
            final(self).failures() == old(self).failures(),
            final(self).rate() == old(self).rate(),
    {
        let size = samples.len() / (channels as usize);
        assert(size >= 1) by (nonlinear_arith)
            requires size == (samples@.len() as int) / (channels as int), samples@.len() >= channels, channels > 0;
        let count = samples.len() / size;
        let n = if count < self.out_buffer.len() { count } else { self.out_buffer.len() };
        let ghost before = channel_seqs(self.out_buffer@);
        for k in 0..n
            invariant
                n <= count,
                n <= self.out_buffer@.len(),
                size >= 1,
                size == (samples@.len() as int) / (channels as int),
                count == (samples@.len() as int) / (size as int),
                self.out_buffer@.len() == before.len(),
                self.errors == old(self).errors,
                self.rate == old(self).rate,
                before == channel_seqs(old(self).out_buffer@),
                forall|c: int| 0 <= c < k ==> #[trigger] self.out_buffer@[c]@ == before[c] + spec_chunk(samples@, size as int, c),
                forall|c: int| k <= c < before.len() ==> #[trigger] self.out_buffer@[c]@ == before[c],
        {
            assert((k + 1) * size <= samples@.len()) by (nonlinear_arith)
                requires k < count, count == (samples@.len() as int) / (size as int), size >= 1;
            append_chunk(&mut self.out_buffer[k], samples, size, k);
        }
        assert(channel_seqs(self.out_buffer@).len() == before.len());
    }

    /// The gathered audio as a buffer at the stream's rate.
    pub fn finish(self) -> (b: SampleBuffer<S>)
        ensures
            channel_seqs(b.samples@) == self.gathered(),
            b.samples@.len() == self.gathered().len(),
            forall|c: int| 0 <= c < self.gathered().len() ==> #[trigger] b.samples@[c]@ == self.gathered()[c],
            b.sample_rate_original == self.rate(),
            b.sample_rate_current == 0,
            b.path is None,
    {
        SampleBuffer::new(self.out_buffer, self.rate)
    }
}

/// The first `k` frames of `samples`, one after the other (interleaved).
pub open spec fn spec_interleaved<S>(samples: Seq<Vec<S>>, k: nat) -> Seq<S>
    decreases k,
{
    if k == 0 {
        Seq::empty()
    } else {
        spec_interleaved(samples, (k - 1) as nat) + spec_frame_at(samples, k - 1)
    }
}

/// In a buffer whose channels are at least as long as the first, the first
/// `k` frames (up to the frame count) interleaved hold `k` times as many
/// samples as there are channels.
pub proof fn lemma_interleaved_len<S>(samples: Seq<Vec<S>>, k: nat)
    ensures
        spec_interleaved(samples, k).len() == (k as int) * (samples.len() as int),
    decreases k,
{
    if k > 0 {
        lemma_interleaved_len(samples, (k - 1) as nat);
        let n = samples.len() as int;
        let ki = k as int;
        assert(spec_frame_at(samples, k - 1).len() == n);
        assert(spec_interleaved(samples, k).len() == (ki - 1) * n + n);
        assert(ki * n == (ki - 1) * n + n) by (nonlinear_arith);
    } else {
        assert(spec_interleaved(samples, k).len() == 0);
    }
}

/// Sample `c` of frame `i` of the interleaved data sits at `i * channels + c`.
pub proof fn lemma_interleaved_index<S>(samples: Seq<Vec<S>>, k: nat, i: int, c: int)
    requires
        0 <= i < k,
        0 <= c < samples.len(),
    ensures
        spec_interleaved(samples, k)[i * samples.len() + c] == samples[c]@[i],
    decreases k,
{
    lemma_interleaved_len(samples, (k - 1) as nat);
    let n = samples.len();
    if i == k - 1 {
        assert(i * n + c == (k - 1) * n + c);
    } else {
        lemma_interleaved_index(samples, (k - 1) as nat, i, c);
        assert(i * n + c < (k - 1) * n) by (nonlinear_arith)
            requires i < k - 1, 0 <= c < n, 0 <= i;
    }
}

/// What a WAV file of a buffer holds: its format (32-bit float samples)
/// and its samples, frame after frame.
pub struct WavLayout<S> {
    pub channels: u16,
    pub sample_rate: u32,
    pub bits_per_sample: u16,
    pub samples: Vec<S>,
}

/// Lays a buffer out for a WAV file: the channel count (cut to 16 bits),
/// the original sample rate, 32 bits per sample, and every frame in order.
pub fn output_to_wav_layout<S: Copy>(audio_data: &SampleBuffer<S>, silence: S) -> (w: WavLayout<S>)
    requires
        audio_data.samples@.len() >= 1,
        spec_uniform(audio_data.samples@),
    ensures
        w.channels == audio_data.samples@.len() as u16,
        w.sample_rate == audio_data.sample_rate_original,
        w.bits_per_sample == 32,
        w.samples@ == spec_interleaved(audio_data.samples@, spec_frame_count(audio_data.samples@)),
{
    let ghost src = audio_data.samples@;
    let total = audio_data.frames();
    let mut out: Vec<S> = Vec::new();
    let mut iter = audio_data.iter_frames(silence);
    loop
        invariant_except_break
            iter.wf(),
            iter.source() == src,
            iter.active_channels() == src.len(),
            !iter.is_reversed(),
            iter.position() <= total,
            total == spec_frame_count(src),
            spec_uniform(src),
            src.len() >= 1,
            out@ == spec_interleaved(src, iter.position()),
        ensures
            out@ == spec_interleaved(src, total as nat),
        decreases total - iter.position(),
    {
        assert(iter.can_advance());
        let ghost pos = iter.position();
        match iter.next() {
            None => {
                break;
            },
            Some(frame) => {
                assert(spec_fill_frame(frame@, src, src.len() as int, pos as int) =~= spec_frame_at(src, pos as int));
                let ghost before = out@;
                let n = frame.len();
                for i in 0..n
                    invariant
                        n == frame@.len(),
                        out@ == before + frame@.subrange(0, i as int),
                {
                    out.push(frame[i]);
                    assert(frame@.subrange(0, i + 1) == frame@.subrange(0, i as int).push(frame@[i as int]));
                }
                assert(frame@.subrange(0, n as int) == frame@);
            },
        }
    }
    WavLayout {
        channels: audio_data.channels() as u16,
        sample_rate: audio_data.sample_rate_original,
        bits_per_sample: 32,
        samples: out,
    }
}

} // verus!
