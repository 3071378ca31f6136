# lavende

The audio core of a voice-chat music player, verified with Verus.

- `src/pcm.rs`: the queue that cuts incoming PCM into 20 ms stereo frames.
- `src/flow.rs`: the flow controller between a decoder thread and its consumer:
  channel polling, end-of-stream padding, Opus passthrough and forwarding. Its
  contracts follow the stream of samples taken in, every frame cut from it, and
  every item handed to the downstream channel.
- `src/mix.rs`, `src/samples.rs`: the mixer: per-track sample continuity across
  output buffers, saturating summation of several tracks, removal of tracks, and
  what each track hands to the atomic calls on its shared position and buffering
  flag (the shared values themselves are not followed).
- `src/resample.rs`: the integer side of the resamplers: neighbour selection for
  linear and cubic interpolation, the history carried between blocks, and the
  mirrored ring that holds the windowed-sinc filter's input.
- `src/debug.rs`: structured log events, the debug clock and operation timers.

`app/` holds what runs around the library: emitting the log events through
`tracing`, the process-wide clock, the floating-point resamplers and fades, and the
libopus decoder behind the library's `OpusDecoder` trait.
