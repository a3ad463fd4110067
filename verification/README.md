# audio_visualizer_rs

Time-domain audio analysis with a verified core.

- `src/` is the Verus library. Samples are held as the IEEE-754 bit patterns
  of `f32` values, so that every decision about a sample is an integer
  statement:
  - `framing` — how many frames of `frame_size` samples, one every
    `hop_length` samples, fit in a signal, their sample windows, and the laws
    of that framing;
  - `sample` — the sign test `x >= 0.0`, `x.abs()`, NaN detection and the
    order of `f32` values, stated over bit patterns;
  - `temporal` — zero crossings per frame, peak magnitude per frame and over
    the whole signal, the frames louder than silence, and a stable ascending
    sort of levels;
  - `audio` — decoded mono audio and the decisions taken while decoding.
- `app/` holds what Verus does not see: decoding files with Symphonia, the
  floating-point arithmetic of RMS, zero crossing rate and dynamic range, and
  the MCP server (`app/main.rs`). The server offers the `audio_info` tool
  only: the spectral, harmonic, rhythm and full-analysis tools rest on
  spectrogram, chromagram, rhythm and downsampling modules that this source
  tree does not contain, so they are absent.
- `tests/` runs the library on concrete signals and checks the bit-level model
  against the `f32` operations it describes.
