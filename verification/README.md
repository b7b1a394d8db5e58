# audioware

The core of an audio middleware for rhythm games, verified with Verus. It mixes sound effects, a
song and background music into interleaved stereo buffers, schedules them to the frame, streams
and converts music files, and decides how to deal with the output device.

## Layout

- `src/`: the library. Everything in it is verified against its contracts.
  - `format`, `math`, `ramp`, `bus`, `clipper`: samples, gains and the master output.
  - `sound`, `voice`, `schedule`: sound effects, the pool of voices and the frame on which a
    sound starts.
  - `music`, `stream`, `decode`, `resample`: songs, the ring between the decoder and the mixer,
    decoded packets and changes of the sample rate.
  - `wav`: sound files.
  - `container`, `codebook`: which music files can be handed to the decoding library.
  - `command`, `event`, `clock`, `ring`: what the threads tell each other.
  - `mixer`, `custody`, `renderer`, `config`: one buffer after the other, and no sound lost.
  - `backend`, `underrun`, `interruption`, `host_time`: decisions around the output device.
  - `text`: messages.
- `app/`: what touches the machine: single-precision arithmetic, shared memory, the decoding and
  resampling libraries, and the output device.
- `tests/`: tests of the library on concrete values, with the real libraries.

## Samples

The library carries samples, gains and durations as the 32-bit words of single-precision numbers.
Arithmetic on them is a parameter, `SampleMath`; contracts state which operations are applied to
which words, in which order. `app/numbers.rs` holds the arithmetic of the machine.

## Trust

Functions marked `#[verifier::external_body]` call into `rtrb` (rings), `symphonia` (container
formats) and, to give up a handle, the standard library. Their contracts are believed, not proved;
the comment above each says what is believed. They are in `src/ring.rs` and `src/decode.rs`. Files
on which `symphonia` would stop the program are turned away before it sees them.

Public proof functions whose names start with `law_` state what holds of several calls together.
