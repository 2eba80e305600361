use vstd::prelude::*;
use crate::sample_buffer::{SampleBuffer, channel_seqs};

verus! {

/// Reverses one channel in place.
fn reverse_channel<S: Copy>(channel: &mut Vec<S>)
    ensures
        final(channel)@ == old(channel)@.reverse(),
{
    let n = channel.len();
    let ghost orig = channel@;
    let mut i: usize = 0;
    while i < n / 2
        invariant
            n == orig.len(),
            channel@.len() == n,
            i <= n / 2,
            forall|k: int| 0 <= k < i ==> channel@[k] == orig[n - 1 - k],
            forall|k: int| 0 <= k < i ==> channel@[n - 1 - k] == orig[k],
            forall|k: int| i <= k < n - i ==> channel@[k] == orig[k],
        decreases n / 2 - i,
    {
        let a = channel[i];
        let b = channel[n - 1 - i];
        channel.set(i, b);
        channel.set(n - 1 - i, a);
        i = i + 1;
    }
    assert(channel@ =~= orig.reverse());
}

/// `new` holds the channels of `old` with each sample put through `negate`.
pub open spec fn spec_inverted<S, F: Fn(S) -> S>(old: Seq<Vec<S>>, new: Seq<Vec<S>>, negate: F) -> bool {
    &&& new.len() == old.len()
    &&& forall|c: int| 0 <= c < old.len() ==> #[trigger] new[c]@.len() == old[c]@.len()
    &&& forall|c: int, i: int| 0 <= c < old.len() && 0 <= i < old[c]@.len()
        ==> call_ensures(negate, (old[c]@[i],), #[trigger] new[c]@[i])
}

/// Each channel of `out` is as long as the channel of `a` at the same
/// place, and each of its samples is `combine` applied to the sample of `a` and
/// the sample of `b` there, or `silence` where `b` is too short; `out` has
/// as many channels as the shorter of `a` and `b`.
pub open spec fn spec_mixed<S, F: Fn(S, S) -> S>(a: Seq<Vec<S>>, b: Seq<Vec<S>>, silence: S, out: Seq<Vec<S>>, combine: F) -> bool {
    &&& out.len() == (if a.len() < b.len() { a.len() } else { b.len() })
    &&& forall|c: int| 0 <= c < out.len() ==> #[trigger] out[c]@.len() == a[c]@.len()
    &&& forall|c: int, i: int| 0 <= c < out.len() && 0 <= i < a[c]@.len()
        ==> call_ensures(combine, (a[c]@[i], if i < b[c]@.len() { b[c]@[i] } else { silence }), #[trigger] out[c]@[i])
}

/// Reverses every channel of `sample` in place.
pub fn reverse<S: Copy>(sample: &mut SampleBuffer<S>)
    ensures
        channel_seqs(final(sample).samples@) == channel_seqs(old(sample).samples@).map_values(|ch: Seq<S>| ch.reverse()),
        final(sample).samples@.len() == old(sample).samples@.len(),
        forall|c: int| 0 <= c < old(sample).samples@.len() ==> #[trigger] final(sample).samples@[c]@ == old(sample).samples@[c]@.reverse(),
        final(sample).path == old(sample).path,
        final(sample).sample_rate_original == old(sample).sample_rate_original,
        final(sample).sample_rate_current == old(sample).sample_rate_current,
{
    let n = sample.samples.len();
    let ghost orig = sample.samples@;
    for c in 0..n
        invariant
            n == orig.len(),
            sample.samples@.len() == n,
            sample.path == old(sample).path,
            sample.sample_rate_original == old(sample).sample_rate_original,
            sample.sample_rate_current == old(sample).sample_rate_current,
            orig == old(sample).samples@,
            forall|k: int| 0 <= k < c ==> #[trigger] sample.samples@[k]@ == orig[k]@.reverse(),
            forall|k: int| c <= k < n ==> #[trigger] sample.samples@[k] == orig[k],
    {
        reverse_channel(&mut sample.samples[c]);
    }
    assert(channel_seqs(sample.samples@) =~= channel_seqs(orig).map_values(|ch: Seq<S>| ch.reverse()));
}

/// Puts every sample of `sample` through `negate` (the sign flip of the
/// samples), in place.
pub fn invert<S: Copy, F: Fn(S) -> S>(sample: &mut SampleBuffer<S>, negate: F)
    requires
        forall|x: S| #[trigger] negate.requires((x,)),
    ensures
        spec_inverted(old(sample).samples@, final(sample).samples@, negate),
        final(sample).path == old(sample).path,
        final(sample).sample_rate_original == old(sample).sample_rate_original,
        final(sample).sample_rate_current == old(sample).sample_rate_current,
{
    let n = sample.samples.len();
    let ghost orig = sample.samples@;
    for c in 0..n
        invariant
            n == orig.len(),
            sample.samples@.len() == n,
            sample.path == old(sample).path,
            sample.sample_rate_original == old(sample).sample_rate_original,
            sample.sample_rate_current == old(sample).sample_rate_current,
            orig == old(sample).samples@,
            forall|x: S| #[trigger] negate.requires((x,)),
            forall|k: int| 0 <= k < c ==> #[trigger] sample.samples@[k]@.len() == orig[k]@.len(),
            forall|k: int, i: int| 0 <= k < c && 0 <= i < orig[k]@.len()
                ==> call_ensures(negate, (orig[k]@[i],), #[trigger] sample.samples@[k]@[i]),
            forall|k: int| c <= k < n ==> #[trigger] sample.samples@[k] == orig[k],
    {
        invert_channel(&mut sample.samples[c], &negate);
    }
}

/// Puts every sample of one channel through `negate`, in place.
fn invert_channel<S: Copy, F: Fn(S) -> S>(channel: &mut Vec<S>, negate: &F)
    requires
        forall|x: S| #[trigger] negate.requires((x,)),
    ensures
        final(channel)@.len() == old(channel)@.len(),
        forall|i: int| 0 <= i < old(channel)@.len() ==> call_ensures(*negate, (old(channel)@[i],), #[trigger] final(channel)@[i]),
{
    let n = channel.len();
    let ghost orig = channel@;
    for i in 0..n
        invariant
            n == orig.len(),
            orig == old(channel)@,
            channel@.len() == n,
            forall|x: S| #[trigger] negate.requires((x,)),
            forall|k: int| 0 <= k < i ==> call_ensures(*negate, (orig[k],), #[trigger] channel@[k]),
            forall|k: int| i <= k < n ==> #[trigger] channel@[k] == orig[k],
    {
        let v = negate(channel[i]);
        channel.set(i, v);
    }
}

/// Mixes two buffers sample by sample with `combine` (see `spec_mixed`); the
/// result is recorded at the first buffer's original rate.
pub fn mix<S: Copy, F: Fn(S, S) -> S>(input: &SampleBuffer<S>, input_2: &SampleBuffer<S>, silence: S, combine: F) -> (out: SampleBuffer<S>)
    requires
        forall|x: S, y: S| #[trigger] combine.requires((x, y)),
    ensures
        spec_mixed(input.samples@, input_2.samples@, silence, out.samples@, combine),
        out.path is None,
        out.sample_rate_original == input.sample_rate_original,
        out.sample_rate_current == 0,
{
    let n = if input.samples.len() < input_2.samples.len() { input.samples.len() } else { input_2.samples.len() };
    let mut out: Vec<Vec<S>> = Vec::new();
    for c in 0..n
        invariant
            n <= input.samples@.len(),
            n <= input_2.samples@.len(),
            n == (if input.samples@.len() < input_2.samples@.len() { input.samples@.len() } else { input_2.samples@.len() }),
            out@.len() == c,
            forall|x: S, y: S| #[trigger] combine.requires((x, y)),
            forall|k: int| 0 <= k < c ==> #[trigger] out@[k]@.len() == input.samples@[k]@.len(),
            forall|k: int, i: int| 0 <= k < c && 0 <= i < input.samples@[k]@.len()
                ==> call_ensures(combine, (input.samples@[k]@[i],
                    if i < input_2.samples@[k]@.len() { input_2.samples@[k]@[i] } else { silence }), #[trigger] out@[k]@[i]),
    {
        let channel = mix_channel(&input.samples[c], &input_2.samples[c], silence, &combine);
        out.push(channel);
    }
    SampleBuffer::new(out, input.sample_rate_original)
}

/// Mixes one pair of channels.
fn mix_channel<S: Copy, F: Fn(S, S) -> S>(a: &Vec<S>, b: &Vec<S>, silence: S, combine: &F) -> (out: Vec<S>)
    requires
        forall|x: S, y: S| #[trigger] combine.requires((x, y)),
    ensures
        out@.len() == a@.len(),
        forall|i: int| 0 <= i < a@.len() ==> call_ensures(*combine, (a@[i], if i < b@.len() { b@[i] } else { silence }), #[trigger] out@[i]),
{
    let n = a.len();
    let mut out: Vec<S> = Vec::new();
    for i in 0..n
        invariant
            n == a@.len(),
            out@.len() == i,
            forall|x: S, y: S| #[trigger] combine.requires((x, y)),
            forall|k: int| 0 <= k < i ==> call_ensures(*combine, (a@[k], if k < b@.len() { b@[k] } else { silence }), #[trigger] out@[k]),
    {
        let other = if i < b.len() { b[i] } else { silence };
        out.push(combine(a[i], other));
    }
    out
}

/// Placeholder for convolution by FFT; does nothing.
pub fn _fft_convolve() {
}

/// Reversing a buffer twice gives back its channels.
pub proof fn lemma_reverse_twice<S>(samples: Seq<Seq<S>>)
    ensures
        samples.map_values(|ch: Seq<S>| ch.reverse()).map_values(|ch: Seq<S>| ch.reverse()) == samples,
{
    let twice = samples.map_values(|ch: Seq<S>| ch.reverse()).map_values(|ch: Seq<S>| ch.reverse());
    assert forall|c: int| 0 <= c < samples.len() implies #[trigger] twice[c] == samples[c] by {
        assert(samples[c].reverse().reverse() =~= samples[c]);
    }
    assert(twice =~= samples);
}

/// When `negate` undoes itself, inverting a buffer twice gives back its samples.
pub proof fn lemma_invert_twice<S, F: Fn(S) -> S>(a: Seq<Vec<S>>, b: Seq<Vec<S>>, c: Seq<Vec<S>>, negate: F)
    requires
        spec_inverted(a, b, negate),
        spec_inverted(b, c, negate),
        forall|x: S, y: S, z: S| call_ensures(negate, (x,), y) && call_ensures(negate, (y,), z) ==> z == x,
    ensures
        channel_seqs(c) == channel_seqs(a),
{
    assert forall|k: int| 0 <= k < a.len() implies #[trigger] c[k]@ == a[k]@ by {
        assert forall|i: int| 0 <= i < a[k]@.len() implies c[k]@[i] == a[k]@[i] by {
            assert(call_ensures(negate, (a[k]@[i],), b[k]@[i]));
            assert(call_ensures(negate, (b[k]@[i],), c[k]@[i]));
        }
        assert(c[k]@ =~= a[k]@);
    }
    assert(channel_seqs(c) =~= channel_seqs(a));
}

} // verus!
