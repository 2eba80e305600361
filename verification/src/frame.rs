use vstd::prelude::*;

verus! {

/// An audio input device (nothing is asked of it yet).
pub trait AudioInputDevice {}

/// Rearranges the channels of a stereo frame.
pub trait FrameModifier: Sized {
    /// Both channels take the sample of `channel`.
    fn force_channel(self, channel: usize) -> Self
        requires
            channel < 2,
    ;

    /// The two channels trade places.
    fn swap_channels(self) -> Self;
}

impl<S: Copy> FrameModifier for [S; 2] {
    fn force_channel(self, channel: usize) -> (f: Self)
        ensures
            f[0] == self[channel as int],
            f[1] == self[channel as int],
    {
        let sample = self[channel];
        [sample, sample]
    }

    fn swap_channels(self) -> (f: Self)
        ensures
            f[0] == self[1],
            f[1] == self[0],
    {
        [self[1], self[0]]
    }
}

/// Swapping the channels of a frame twice gives back the frame.
pub proof fn lemma_swap_channels_twice<S>(f: [S; 2], g: [S; 2], h: [S; 2])
    requires
        g[0] == f[1] && g[1] == f[0],
        h[0] == g[1] && h[1] == g[0],
    ensures
        h == f,
{
    assert(h@ =~= f@);
}

} // verus!
