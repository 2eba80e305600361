# rmms_engine

The core of a small audio engine, verified with Verus.

`src/` is the library. It is generic over the sample type, so every
structure and algorithm in it is proved for any `Copy` sample; where
samples are combined arithmetically (mixing, inversion) the arithmetic is
passed in as a closure, and where the engine writes silence it is given the
silent sample.

- `adsr`: the stages of an envelope.
- `timing`: a stopwatch.
- `sample_buffer`: per-channel sample buffers, frame access, stereo
  conversion, and a frame-by-frame walk (`FramesIter`).
- `dsp`: reversal, inversion and mixing of buffers.
- `handles`: the `PlayHandle` trait and its default rendering.
- `sample`: playback of a shared buffer.
- `engine`: the decisions of the engine: events and the mixing tick.
- `decoder`: the accumulation of decoded packets and the WAV layout.
- `frame`, `instruments`, `pattern`: frame rearrangement, loop modes,
  step patterns.

`app/` holds what runs around it: the audio output devices (cpal, rb,
bytemuck), the engine thread, file decoding with symphonia, WAV writing with
hound, the sample cache (parking_lot), and the `f32` processing (gain,
clamping, panning, resampling with rubato, envelopes).
