# mixlab

The audio-routing core of a modular mixer, written in Verus.

- `src/source.rs` — the channel registry: a listener claims a name, at most
  one sender connects to it, and samples flow through a lock-free ring
  buffer. Its view maps each claimed name to whether a sender may connect;
  the laws at the end of the file relate the operations.
- `src/trigger.rs`, `src/webaudio_device.rs` — signal modules, generic over
  the sample type.
- `src/workspace_state.rs`, `src/client.rs` — the browser client's copy of
  the workspace and its event handling: numbering its own changes,
  re-rendering only once the server has echoed all of them, and splitting
  audio blocks over per-channel playback buffers.
- `src/ring.rs` — trusted declarations for the `ringbuf` crate, and handles
  on a buffer's two halves that record which buffer they belong to and its
  capacity.
- `src/feed.rs` — a ring buffer's producing half with a record of every
  sample the buffer took through it.
- `app/` — the registry behind a mutex with self-releasing handles, and the
  module interface over `f32` samples.
