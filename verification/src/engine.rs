use vstd::prelude::*;
use crate::handles::{PlayHandle, spec_mixed_frame};
use crate::sample_buffer::Mixer;

verus! {

/// How many pending events the engine applies before each tick.
pub const EVENTS_PER_TICK: usize = 32;

/// Engine settings (none yet).
pub struct EngineConfiguration {}

/// A request sent to the engine.
pub enum Event<H> {
    /// Restart the output device.
    RequestAudioDeviceReset,
    /// Start playing a handle.
    PushPlayHandle(H),
    /// Stop every handle.
    Clear,
}

impl<H> Event<H> {
    /// The request to start playing `play`.
    pub fn play_handle(play: H) -> (e: Self)
        ensures
            e == Event::PushPlayHandle(play),
    {
        Event::PushPlayHandle(play)
    }
}

/// What the engine asks of its output device after an event.
#[derive(Debug, Clone, Copy, PartialEq, Eq, Structural)]
pub enum EngineAction {
    /// Nothing to do.
    Nothing,
    /// Restart the output device.
    ResetOutputDevice,
}

/// `accs` runs from its first frame to its last one, each step mixing in
/// the next frame of `produced` with `combine`.
pub open spec fn spec_mix_chain<S, F: Fn(S, S) -> S>(accs: Seq<[S; 2]>, produced: Seq<[S; 2]>, combine: F) -> bool {
    &&& accs.len() == produced.len() + 1
    &&& forall|i: int| 0 <= i < produced.len() ==> spec_mixed_frame(accs[i], #[trigger] produced[i], accs[i + 1], combine)
}

/// `out` is a silent frame with the frames of `produced` mixed in one after
/// the other by `combine`.
pub open spec fn spec_mixdown<S, F: Fn(S, S) -> S>(silence: S, produced: Seq<[S; 2]>, out: [S; 2], combine: F) -> bool {
    exists|accs: Seq<[S; 2]>| #[trigger] spec_mix_chain(accs, produced, combine)
        && accs[0][0] == silence && accs[0][1] == silence && accs.last() == out
}

/// With nothing playing, a tick mixes nothing into the silent frame: the
/// engine outputs silence.
pub proof fn lemma_nothing_playing_is_silence<S, F: Fn(S, S) -> S>(silence: S, out: [S; 2], combine: F)
    requires
        spec_mixdown(silence, Seq::empty(), out, combine),
    ensures
        out[0] == silence,
        out[1] == silence,
{
    let accs = choose|accs: Seq<[S; 2]>| #[trigger] spec_mix_chain(accs, Seq::<[S; 2]>::empty(), combine)
        && accs[0][0] == silence && accs[0][1] == silence && accs.last() == out;
    assert(accs.len() == 1);
}

/// The order a tick leaves the handles in, as positions into the list it
/// started with: the walk stands at `i` in `idx`; a handle whose call gave a
/// frame stays and the walk moves on, one that gave none is replaced by the
/// last handle, which is asked next.
pub open spec fn spec_survivors<S>(idx: Seq<int>, i: int, outs: Seq<Option<[S; 2]>>) -> Seq<int>
    decreases idx.len() - i,
{
    if i < 0 || i >= idx.len() {
        idx
    } else if outs[idx[i]] is Some {
        spec_survivors(idx, i + 1, outs)
    } else {
        spec_survivors(idx.update(i, idx.last()).drop_last(), i, outs)
    }
}

/// The positions, in the list a tick started with, of the handles it keeps,
/// in the order it leaves them, when the calls of `next` gave `outs`.
pub open spec fn spec_kept<S>(outs: Seq<Option<[S; 2]>>) -> Seq<int> {
    spec_survivors(Seq::new(outs.len(), |k: int| k), 0, outs)
}

/// Each handle `before[k]` went, by one call of `next`, to `after[k]` and
/// gave `outs[k]`.
pub open spec fn spec_each_stepped<H: PlayHandle>(before: Seq<H>, after: Seq<H>, outs: Seq<Option<[H::Sample; 2]>>) -> bool {
    &&& after.len() == before.len()
    &&& outs.len() == before.len()
    &&& forall|k: int| 0 <= k < before.len() ==> #[trigger] before[k].next_step(after[k], outs[k])
}

/// `o` holds the values of `known` wherever `polled` is set.
spec fn spec_agrees<T>(o: Seq<T>, known: Seq<T>, polled: Seq<bool>) -> bool {
    &&& o.len() == known.len()
    &&& forall|k: int| 0 <= k < known.len() && #[trigger] polled[k] ==> o[k] == known[k]
}

/// The walk of `spec_survivors` from `i` keeps the positions before `i`,
/// keeps only positions whose handle gave a frame, each once, and keeps every
/// such position of `idx`.
proof fn lemma_survivors<S>(idx: Seq<int>, i: int, outs: Seq<Option<[S; 2]>>)
    requires
        0 <= i <= idx.len(),
        forall|j: int| 0 <= j < idx.len() ==> 0 <= #[trigger] idx[j] < outs.len(),
        forall|a: int, b: int| 0 <= a < b < idx.len() ==> idx[a] != idx[b],
        forall|j: int| 0 <= j < i ==> (#[trigger] outs[idx[j]]) is Some,
    ensures
        ({
            let r = spec_survivors(idx, i, outs);
            &&& forall|j: int| 0 <= j < r.len() ==> 0 <= #[trigger] r[j] < outs.len() && outs[r[j]] is Some
            &&& forall|a: int, b: int| 0 <= a < b < r.len() ==> r[a] != r[b]
            &&& forall|j: int| 0 <= j < idx.len() && (#[trigger] outs[idx[j]]) is Some ==> r.contains(idx[j])
        }),
    decreases idx.len() - i,
{
    if i >= idx.len() {
        let r = spec_survivors(idx, i, outs);
        assert forall|j: int| 0 <= j < idx.len() && (#[trigger] outs[idx[j]]) is Some implies r.contains(idx[j]) by {
            assert(r[j] == idx[j]);
        }
    } else if outs[idx[i]] is Some {
        lemma_survivors(idx, i + 1, outs);
    } else {
        let idx2 = idx.update(i, idx.last()).drop_last();
        assert forall|j: int| 0 <= j < idx2.len() implies 0 <= #[trigger] idx2[j] < outs.len() by {
            if j == i {
                assert(idx2[j] == idx[idx.len() - 1]);
            } else {
                assert(idx2[j] == idx[j]);
            }
        }
        assert forall|a: int, b: int| 0 <= a < b < idx2.len() implies idx2[a] != idx2[b] by {
            if a == i {
                assert(idx2[a] == idx[idx.len() - 1]);
                assert(idx2[b] == idx[b]);
            } else if b == i {
                assert(idx2[b] == idx[idx.len() - 1]);
                assert(idx2[a] == idx[a]);
            } else {
                assert(idx2[a] == idx[a] && idx2[b] == idx[b]);
            }
        }
        assert forall|j: int| 0 <= j < i implies (#[trigger] outs[idx2[j]]) is Some by {
            assert(idx2[j] == idx[j]);
            assert(outs[idx[j]] is Some);
        }
        lemma_survivors(idx2, i, outs);
        let r = spec_survivors(idx, i, outs);
        assert(r == spec_survivors(idx2, i, outs));
        assert forall|j: int| 0 <= j < idx.len() && (#[trigger] outs[idx[j]]) is Some implies r.contains(idx[j]) by {
            if j == idx.len() - 1 {
                assert(idx2[i] == idx[j]);
                assert(outs[idx2[i]] is Some);
            } else {
                assert(j != i);
                assert(idx2[j] == idx[j]);
                assert(outs[idx2[j]] is Some);
            }
        }
    }
}

/// A tick keeps exactly the handles whose call of `next` gave a frame: each
/// kept position is one of those, none is kept twice, and every one of those
/// is kept.
pub proof fn lemma_tick_keeps_the_producers<S>(outs: Seq<Option<[S; 2]>>)
    ensures
        forall|j: int| 0 <= j < spec_kept(outs).len() ==>
            0 <= #[trigger] spec_kept(outs)[j] < outs.len() && outs[spec_kept(outs)[j]] is Some,
        forall|a: int, b: int| 0 <= a < b < spec_kept(outs).len() ==> spec_kept(outs)[a] != spec_kept(outs)[b],
        forall|k: int| 0 <= k < outs.len() && (#[trigger] outs[k]) is Some ==> spec_kept(outs).contains(k),
{
    let idx0 = Seq::new(outs.len(), |k: int| k);
    lemma_survivors(idx0, 0, outs);
    assert forall|k: int| 0 <= k < outs.len() && (#[trigger] outs[k]) is Some implies spec_kept(outs).contains(k) by {
        assert(idx0[k] == k);
        assert(outs[idx0[k]] is Some);
    }
}

/// A tick in which no handle gives a frame keeps no handle and outputs
/// silence.
pub proof fn lemma_all_finished_is_silence<S, F: Fn(S, S) -> S>(outs: Seq<Option<[S; 2]>>, silence: S, out: [S; 2], combine: F)
    requires
        forall|k: int| 0 <= k < outs.len() ==> (#[trigger] outs[k]) is None,
        spec_mixdown(silence, spec_kept(outs).map_values(|k: int| outs[k].unwrap()), out, combine),
    ensures
        spec_kept(outs).len() == 0,
        out[0] == silence,
        out[1] == silence,
{
    lemma_tick_keeps_the_producers(outs);
    if spec_kept(outs).len() > 0 {
        assert(outs[spec_kept(outs)[0]] is Some);
    }
    assert(spec_kept(outs).map_values(|k: int| outs[k].unwrap()) =~= Seq::<[S; 2]>::empty());
    lemma_nothing_playing_is_silence(silence, out, combine);
}

/// The play handles the engine mixes, in mixing order.
pub struct AudioEngine<H> {
    mixer: Mixer,
    handles: Vec<H>,
}

impl<H: PlayHandle> AudioEngine<H> {
    /// The handles, in mixing order.
    pub closed spec fn playing(&self) -> Seq<H> {
        self.handles@
    }

    /// Every handle can produce its next frame.
    pub open spec fn wf(&self) -> bool {
        forall|i: int| 0 <= i < self.playing().len() ==> #[trigger] self.playing()[i].can_play()
    }

    /// An engine with nothing playing.
    pub fn new() -> (e: Self)
        ensures
            e.wf(),
            e.playing().len() == 0,
    {
        AudioEngine { mixer: Mixer {}, handles: Vec::new() }
    }

    /// How many handles are playing.
    pub fn handle_count(&self) -> (n: usize)
        ensures
            n == self.playing().len(),
    {
        self.handles.len()
    }

    /// Applies an event: a pushed handle is appended, `Clear` drops every
    /// handle, and a reset request leaves the handles alone and asks for the
    /// output device to be restarted.
    pub fn handle_event(&mut self, event: Event<H>) -> (action: EngineAction)
        requires
            old(self).wf(),
            event matches Event::PushPlayHandle(h) ==> h.can_play(),
        ensures
            match event {
                Event::RequestAudioDeviceReset => action == EngineAction::ResetOutputDevice
                    && final(self).playing() == old(self).playing(),
                Event::PushPlayHandle(h) => action == EngineAction::Nothing
                    && final(self).playing() == old(self).playing().push(h),
                Event::Clear => action == EngineAction::Nothing
                    && final(self).playing().len() == 0,
            },
            final(self).wf(),
    {
        match event {
            Event::RequestAudioDeviceReset => {
                assert(self.playing() == old(self).playing());
                EngineAction::ResetOutputDevice
            },
            Event::PushPlayHandle(play_handle) => {
                self.handles.push(play_handle);
                EngineAction::Nothing
            },
            Event::Clear => {
                self.handles.clear();
                EngineAction::Nothing
            },
        }
    }

    /// Mixes one frame: asks every handle for its next frame, once, and
    /// adds it, with `combine`, to a frame that starts at `silence`. A handle
    /// that has no frame left is dropped, the last handle taking its place
    /// (and being asked next). Each handle's call took it to `after[k]` and
    /// gave `outs[k]`; the handles kept are those of `spec_kept(outs)`, and
    /// their frames are mixed in that order.
    pub fn tick<F: Fn(H::Sample, H::Sample) -> H::Sample>(&mut self, silence: H::Sample, combine: F) -> (frame: [H::Sample; 2])
        requires
            old(self).wf(),
            forall|x: H::Sample, y: H::Sample| #[trigger] combine.requires((x, y)),
        ensures
            final(self).wf(),
            final(self).playing().len() <= old(self).playing().len(),
            exists|after: Seq<H>, outs: Seq<Option<[H::Sample; 2]>>|
                #[trigger] spec_each_stepped(old(self).playing(), after, outs)
                && final(self).playing() == spec_kept(outs).map_values(|k: int| after[k])
                && spec_mixdown(silence, spec_kept(outs).map_values(|k: int| outs[k].unwrap()), frame, combine),
    {
        let mut frame: [H::Sample; 2] = [silence, silence];
        let mut index: usize = 0;
        let ghost n0 = self.handles@.len() as int;
        let ghost start = self.handles@;
        let ghost idx0 = Seq::new(n0 as nat, |k: int| k);
        let ghost mut idx: Seq<int> = idx0;
        let ghost mut after: Seq<H> = start;
        let ghost mut outs: Seq<Option<[H::Sample; 2]>> = Seq::new(n0 as nat, |k: int| None);
        let ghost mut polled: Seq<bool> = Seq::new(n0 as nat, |k: int| false);
        let ghost mut produced: Seq<[H::Sample; 2]> = Seq::empty();
        let ghost mut accs: Seq<[H::Sample; 2]> = seq![frame];
        assert forall|k: int| 0 <= k < n0 && !(#[trigger] polled[k]) implies
            exists|j: int| index <= j < idx.len() && idx[j] == k by {
            assert(idx[k] == k);
        }
        while index < self.handles.len()
            invariant
                index <= self.handles@.len(),
                self.handles@.len() == idx.len(),
                idx.len() <= n0,
                n0 == start.len(),
                start == old(self).handles@,
                after.len() == n0 && outs.len() == n0 && polled.len() == n0,
                forall|j: int| 0 <= j < idx.len() ==> 0 <= #[trigger] idx[j] < n0,
                forall|a: int, b: int| 0 <= a < b < idx.len() ==> idx[a] != idx[b],
                forall|j: int| 0 <= j < index ==> {
                    &&& self.handles@[j] == after[#[trigger] idx[j]]
                    &&& polled[idx[j]]
                    &&& outs[idx[j]] == Some(produced[j])
                },
                forall|j: int| index <= j < idx.len() ==>
                    self.handles@[j] == start[#[trigger] idx[j]] && !polled[idx[j]],
                forall|k: int| 0 <= k < n0 && !(#[trigger] polled[k]) ==>
                    exists|j: int| index <= j < idx.len() && idx[j] == k,
                forall|k: int| 0 <= k < n0 && #[trigger] polled[k] ==> start[k].next_step(after[k], outs[k]),
                forall|o: Seq<Option<[H::Sample; 2]>>| #[trigger] spec_agrees(o, outs, polled) ==>
                    spec_survivors(idx, index as int, o) == spec_survivors(idx0, 0, o),
                idx0 == Seq::new(n0 as nat, |k: int| k),
                produced.len() == index,
                spec_mix_chain(accs, produced, combine),
                accs[0][0] == silence && accs[0][1] == silence,
                accs.last() == frame,
                forall|i: int| 0 <= i < self.handles@.len() ==> #[trigger] self.handles@[i].can_play(),
                forall|x: H::Sample, y: H::Sample| #[trigger] combine.requires((x, y)),
            decreases self.handles@.len() - index,
        {
            let ghost k = idx[index as int];
            let ghost idx_before = idx;
            let ghost outs_before = outs;
            let ghost polled_before = polled;
            assert(self.handles@[index as int].can_play());
            assert(self.handles@[index as int] == start[k]);
            let next_frame = self.handles[index].next();
            proof {
                outs = outs.update(k, next_frame);
                after = after.update(k, self.handles@[index as int]);
                polled = polled.update(k, true);
                assert forall|o: Seq<Option<[H::Sample; 2]>>| #[trigger] spec_agrees(o, outs, polled) implies
                    spec_survivors(idx_before, index as int, o) == spec_survivors(idx0, 0, o) && o[k] == next_frame by {
                    assert forall|q: int| 0 <= q < n0 && #[trigger] polled_before[q] implies o[q] == outs_before[q] by {
                        assert(polled[q]);
                    }
                    assert(spec_agrees(o, outs_before, polled_before));
                    assert(polled[k]);
                    assert(o[k] == outs[k]);
                }
            }
            match next_frame {
                None => {
                    self.handles.swap_remove(index);
                    proof {
                        idx = idx.update(index as int, idx.last()).drop_last();
                        assert forall|o: Seq<Option<[H::Sample; 2]>>| #[trigger] spec_agrees(o, outs, polled) implies
                            spec_survivors(idx, index as int, o) == spec_survivors(idx0, 0, o) by {
                            assert(spec_survivors(idx_before, index as int, o) == spec_survivors(idx0, 0, o) && o[k] == next_frame);
                            assert(o[idx_before[index as int]] is None);
                        }
                        assert forall|a: int, b: int| 0 <= a < b < idx.len() implies idx[a] != idx[b] by {
                            if a == index {
                                assert(idx[a] == idx_before[idx_before.len() - 1]);
                                assert(idx[b] == idx_before[b]);
                            } else if b == index {
                                assert(idx[b] == idx_before[idx_before.len() - 1]);
                                assert(idx[a] == idx_before[a]);
                            } else {
                                assert(idx[a] == idx_before[a] && idx[b] == idx_before[b]);
                            }
                        }
                        assert forall|j: int| 0 <= j < idx.len() implies 0 <= #[trigger] idx[j] < n0 by {
                            if j == index {
                                assert(idx[j] == idx_before[idx_before.len() - 1]);
                            } else {
                                assert(idx[j] == idx_before[j]);
                            }
                        }
                        assert forall|j: int| 0 <= j < index implies {
                            &&& self.handles@[j] == after[#[trigger] idx[j]]
                            &&& polled[idx[j]]
                            &&& outs[idx[j]] == Some(produced[j])
                        } by {
                            assert(idx[j] == idx_before[j]);
                            assert(idx_before[j] != k);
                        }
                        assert forall|j: int| index <= j < idx.len() implies
                            self.handles@[j] == start[#[trigger] idx[j]] && !polled[idx[j]] by {
                            if j == index {
                                assert(idx[j] == idx_before[idx_before.len() - 1]);
                                assert(idx_before.len() - 1 != index);
                            } else {
                                assert(idx[j] == idx_before[j]);
                            }
                        }
                        assert forall|q: int| 0 <= q < n0 && !(#[trigger] polled[q]) implies
                            exists|j: int| index <= j < idx.len() && idx[j] == q by {
                            assert(q != k);
                            assert(!polled_before[q]);
                            let j0 = choose|j: int| index <= j < idx_before.len() && idx_before[j] == q;
                            if j0 == idx_before.len() - 1 {
                                assert(idx[index as int] == q);
                            } else {
                                assert(idx[j0] == q);
                            }
                        }
                    }
                },
                Some(f) => {
                    let l = combine(frame[0], f[0]);
                    let r = combine(frame[1], f[1]);
                    let ghost before = frame;
                    frame = [l, r];
                    proof {
                        assert(spec_mixed_frame(before, f, frame, combine));
                        let a2 = accs.push(frame);
                        let p2 = produced.push(f);
                        assert forall|i: int| 0 <= i < p2.len() implies spec_mixed_frame(a2[i], #[trigger] p2[i], a2[i + 1], combine) by {
                            if i < produced.len() {
                                assert(p2[i] == produced[i]);
                            }
                        }
                        accs = a2;
                        produced = p2;
                        assert forall|o: Seq<Option<[H::Sample; 2]>>| #[trigger] spec_agrees(o, outs, polled) implies
                            spec_survivors(idx, index + 1, o) == spec_survivors(idx0, 0, o) by {
                            assert(spec_survivors(idx_before, index as int, o) == spec_survivors(idx0, 0, o) && o[k] == next_frame);
                            assert(o[idx_before[index as int]] is Some);
                        }
                        assert forall|j: int| 0 <= j < index + 1 implies {
                            &&& self.handles@[j] == after[#[trigger] idx[j]]
                            &&& polled[idx[j]]
                            &&& outs[idx[j]] == Some(produced[j])
                        } by {
                            if j < index {
                                assert(idx[j] != k);
                            }
                        }
                        assert forall|q: int| 0 <= q < n0 && !(#[trigger] polled[q]) implies
                            exists|j: int| index + 1 <= j < idx.len() && idx[j] == q by {
                            assert(!polled_before[q]);
                            let j0 = choose|j: int| index <= j < idx_before.len() && idx_before[j] == q;
                            assert(j0 != index);
                        }
                    }
                    index = index + 1;
                },
            }
        }
        proof {
            assert(spec_agrees(outs, outs, polled));
            let kept = spec_kept(outs);
            assert(outs.len() == n0);
            assert(kept == spec_survivors(idx0, 0, outs));
            assert(kept == idx);
            assert forall|q: int| 0 <= q < n0 implies #[trigger] polled[q] by {
                if !polled[q] {
                    let j0 = choose|j: int| index <= j < idx.len() && idx[j] == q;
                }
            }
            assert forall|q: int| 0 <= q < n0 implies #[trigger] start[q].next_step(after[q], outs[q]) by {
                assert(polled[q]);
            }
            assert(spec_each_stepped(start, after, outs));
            assert(self.handles@ == kept.map_values(|k: int| after[k]));
            assert(produced == kept.map_values(|k: int| outs[k].unwrap()));
            assert(spec_mixdown(silence, produced, frame, combine));
        }
        frame
    }
}

} // verus!
