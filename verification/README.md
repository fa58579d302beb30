# synthizer

The verified core of a realtime audio synthesis library.

`src/` is the library, verified with Verus:

- `loop_spec`, `loop_driver`: loop specifications (samples or times, endpoints inclusive, times rounded down)
  and the driver that tells a streaming reader when to read, seek or stop.
- `sample_source`, `vec_source`, `sample_reader`, `source_reader`: sources of interleaved samples, an in-memory
  source, and readers that add looping and seeking on top of a source; for a source whose audio is known
  exactly, which frames each read writes.
- `decoding`: choosing the track of a compressed stream and reading decoded packets out as interleaved frames.
- `resampling`: choosing between passing frames through and resampling, (de)interleaving, and reading the
  silence-padded, per-channel input of one resampling step.
- `signals`, `signal_maps`, `map_frame`, `slots`, `delay_line`, `frame_batcher`: per-frame signal processing and its state.
- `program`, `topology`, `audio_thread`, `drop_table`, `removal_list`, `output_block`, `batch`: programs, whose
  audio outputs merge their stereo frames into the output block and carry on from block to block; the audio thread's tables of slots, buses and
  wavetables; batches of commands applied between blocks; the order in which programs run (every writer of a
  bus before its readers, each live program once per block); bounded removal of dropped objects; and the
  stereo block handed to the device, refilled block by block with the buses reset before each, so that the
  samples handed out do not depend on how the device splits its buffer.
- `nodes`, `media_task`, `clock`, `time_span`, `channel_format`, `maybe_int`, `unique_id`, `server`, `error`,
  `config`, `nonzero`: smaller pieces.

`tests/` exercises the library.  `app/` holds what cannot be verified, and states no law of its own: the
Symphonia decoder and Rubato resampler (floating point and I/O), including the seek that converts a frame to a
time; error types implementing `std::error::Error`; conversions from `std::time::Duration`; and the audio
thread's type-erased slot, bus and wavetable values and its conversion of samples to the device's `f32`.  Every
rule those pieces follow (which commands a batch applies, what it removes, which programs run and in what
order, how the device's buffer is filled) is stated and proved in `src/` (`batch`, `audio_thread`).
