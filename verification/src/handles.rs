use vstd::prelude::*;

verus! {

/// The two samples of a stereo frame put through `combine` with the two
/// samples of `produced`.
pub open spec fn spec_mixed_frame<S, F: Fn(S, S) -> S>(before: [S; 2], produced: [S; 2], after: [S; 2], combine: F) -> bool {
    &&& call_ensures(combine, (before[0], produced[0]), after[0])
    &&& call_ensures(combine, (before[1], produced[1]), after[1])
}

/// `after` is `before` with some produced frame mixed in by `combine`.
pub open spec fn spec_frame_mixed_in<S, F: Fn(S, S) -> S>(before: [S; 2], after: [S; 2], combine: F) -> bool {
    exists|p: [S; 2]| #[trigger] spec_mixed_frame(before, p, after, combine)
}

/// What rendering into `before` with the results `outs` of `next` leaves in
/// `after` when `written` frames were written: each of the first `written`
/// results is a frame, mixed by `combine` into the slot at its place; when
/// the buffer was not filled, one more call gave `None`.
pub open spec fn spec_rendered<S, F: Fn(S, S) -> S>(outs: Seq<Option<[S; 2]>>, before: Seq<[S; 2]>, after: Seq<[S; 2]>, written: int, combine: F) -> bool {
    &&& outs.len() == (if written < before.len() { written + 1 } else { written })
    &&& forall|i: int| 0 <= i < written ==> match #[trigger] outs[i] {
        Some(p) => spec_mixed_frame(before[i], p, after[i], combine),
        None => false,
    }
    &&& written < before.len() ==> outs[written] is None
}

/// Rendering stops early only when the handle has run out: every call but
/// the last gave a frame, and when fewer frames were written than the buffer
/// holds, the last call gave `None`.
pub proof fn lemma_render_stops_only_when_done<S, F: Fn(S, S) -> S>(
    outs: Seq<Option<[S; 2]>>,
    before: Seq<[S; 2]>,
    after: Seq<[S; 2]>,
    written: int,
    combine: F,
)
    requires
        0 <= written <= before.len(),
        spec_rendered(outs, before, after, written, combine),
    ensures
        forall|i: int| 0 <= i < written ==> (#[trigger] outs[i]) is Some,
        written < before.len() ==> outs.len() == written + 1 && outs.last() is None,
        written == before.len() ==> outs.len() == written,
{
    assert forall|i: int| 0 <= i < written implies (#[trigger] outs[i]) is Some by {
        match outs[i] {
            Some(p) => {},
            None => {},
        }
    }
}

/// A source of stereo frames that the engine plays.
pub trait PlayHandle: Sized + Send + 'static {
    /// The type of one sample.
    type Sample: Copy;

    /// Whether `next` can run on this state; `next` keeps it. Types with
    /// nothing to check keep the default, `true`.
    open spec fn can_play(&self) -> bool {
        true
    }

    /// Whether one call of `next` can take this state to `after` and give
    /// `frame`. Types that say nothing of their frames keep the default,
    /// `true`.
    open spec fn next_step(&self, after: Self, frame: Option<[Self::Sample; 2]>) -> bool {
        true
    }

    /// Indicate that this playhandle will no longer produce frames.
    fn is_complete(&self) -> bool;

    /// Produce the next frame.
    ///
    /// Returns None if the playhandle has terminated.
    fn next(&mut self) -> (frame: Option<[Self::Sample; 2]>)
        requires
            old(self).can_play(),
        ensures
            final(self).can_play(),
            old(self).next_step(*final(self), frame),
    ;

    /// Mixes frames into a buffer, front to back, with `combine`, until the
    /// buffer is full or `next` returns `None`: the calls of `next` made,
    /// their results and what they left in the buffer are those of
    /// `spec_rendered`.
    ///
    /// Returns how many frames were written.
    fn render<F: Fn(Self::Sample, Self::Sample) -> Self::Sample>(&mut self, frames: &mut [[Self::Sample; 2]], combine: F) -> (written: usize)
        requires
            old(self).can_play(),
            forall|x: Self::Sample, y: Self::Sample| #[trigger] combine.requires((x, y)),
        default_ensures
            final(self).can_play(),
            written <= old(frames)@.len(),
            final(frames)@.len() == old(frames)@.len(),
            forall|i: int| written <= i < old(frames)@.len() ==> #[trigger] final(frames)@[i] == old(frames)@[i],
            forall|i: int| 0 <= i < written ==> #[trigger] spec_frame_mixed_in(old(frames)@[i], final(frames)@[i], combine),
            exists|states: Seq<Self>, outs: Seq<Option<[Self::Sample; 2]>>|
                #![trigger spec_rendered(outs, old(frames)@, final(frames)@, written as int, combine), states.last()]
                states.len() == outs.len() + 1
                && (forall|i: int| 0 <= i < outs.len() ==> states[i].next_step(states[i + 1], #[trigger] outs[i]))
                && states[0] == *old(self) && states.last() == *final(self)
                && spec_rendered(outs, old(frames)@, final(frames)@, written as int, combine)
                && (forall|i: int| 0 <= i < written ==> (#[trigger] outs[i]) is Some)
                && (written < old(frames)@.len() ==> outs.len() == written + 1 && outs.last() is None),
    {
        let mut written: usize = 0;
        let n = frames.len();
        let ghost orig = frames@;
        let ghost mut states: Seq<Self> = seq![*self];
        let ghost mut outs: Seq<Option<[Self::Sample; 2]>> = Seq::empty();
        let ghost start = *self;
        while written < n
            invariant_except_break
                written <= n,
                self.can_play(),
                n == orig.len(),
                frames@.len() == n,
                forall|x: Self::Sample, y: Self::Sample| #[trigger] combine.requires((x, y)),
                forall|i: int| written <= i < n ==> #[trigger] frames@[i] == orig[i],
                forall|i: int| 0 <= i < written ==> #[trigger] spec_frame_mixed_in(orig[i], frames@[i], combine),
                states.len() == outs.len() + 1,
                forall|i: int| 0 <= i < outs.len() ==> states[i].next_step(states[i + 1], #[trigger] outs[i]),
                states[0] == start,
                states.last() == *self,
                outs.len() == written,
                forall|i: int| 0 <= i < written ==> match #[trigger] outs[i] {
                    Some(p) => spec_mixed_frame(orig[i], p, frames@[i], combine),
                    None => false,
                },
            ensures
                written <= n,
                self.can_play(),
                frames@.len() == n,
                forall|i: int| written <= i < n ==> #[trigger] frames@[i] == orig[i],
                forall|i: int| 0 <= i < written ==> #[trigger] spec_frame_mixed_in(orig[i], frames@[i], combine),
                states.len() == outs.len() + 1,
                forall|i: int| 0 <= i < outs.len() ==> states[i].next_step(states[i + 1], #[trigger] outs[i]),
                states[0] == start,
                states.last() == *self,
                spec_rendered(outs, orig, frames@, written as int, combine),
            decreases n - written,
        {
            let ghost before_call = *self;
            let produced = self.next();
            proof {
                let s2 = states.push(*self);
                let o2 = outs.push(produced);
                assert forall|i: int| 0 <= i < o2.len() implies s2[i].next_step(s2[i + 1], #[trigger] o2[i]) by {
                    if i < outs.len() {
                        assert(o2[i] == outs[i]);
                        assert(s2[i] == states[i] && s2[i + 1] == states[i + 1]);
                    } else {
                        assert(s2[i] == before_call);
                    }
                }
                states = s2;
                outs = o2;
            }
            let lr = match produced {
                Some(lr) => lr,
                None => {
                    assert(outs[written as int] is None);
                    break;
                },
            };
            let out = frames[written];
            let l = combine(out[0], lr[0]);
            let r = combine(out[1], lr[1]);
            frames[written] = [l, r];
            assert(spec_mixed_frame(orig[written as int], lr, frames@[written as int], combine));
            assert(spec_frame_mixed_in(orig[written as int], frames@[written as int], combine));
            assert(outs[written as int] == Some(lr));
            written = written + 1;
        }
        assert(spec_rendered(outs, orig, frames@, written as int, combine));
        assert(states.last() == *self);
        written
    }
}

/// Builds a play handle out of another one.
pub trait PlayHandleChain: Sized {
    /// Hands this play handle to `other` and returns what it builds.
    fn chain<F, P>(self, other: F) -> (p: P)
        where F: FnOnce(Self) -> P, P: PlayHandle,
        requires
            other.requires((self,)),
        ensures
            other.ensures((self,), p),
    {
        other(self)
    }
}

impl<P: PlayHandle> PlayHandleChain for P {}

} // verus!
