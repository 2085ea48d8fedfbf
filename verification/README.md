# skyward

A 1090 MHz Mode S / ADS-B receiver. The decoding, tracking and bookkeeping
logic is a library verified with Verus; the program around it (radio and file
I/O, the HTTP API, SQLite storage, floating-point geometry) is ordinary Rust.

## Layout

- `src/` -- the verified library.
  - `bits`, `crc`, `hex`, `frame`, `decode`, `units`, `cpr`: Mode S frames,
    parity, field extraction and message decoding.
  - `signal`, `types`, `detect`, `slice`, `validate`, `magnitude`,
    `pipeline`, `registry`: the signal chain from magnitudes to validated
    frames. `scan` states what a stream of magnitudes decodes to, position by
    position; the pipeline's contracts say it emits exactly that, however the
    stream is split into reads.
  - `track`, `snapshot`: per-aircraft state and the views served to clients.
  - `source`, `ring`, `replay`, `fault`: the decisions of the radio sources
    (parsing source specs, the USB sample ring, pair-aligned file replay,
    fault injection).
  - `config`, `station`, `health`, `store`, `api`, `web`, `doctor`, `bench`,
    `cli`, `text`, `synth`: configuration layering, the runtime station
    position, health reporting, storage policy, HTTP request handling rules,
    diagnostics, scoring and digests.
- `tests/` -- tests of the library, run against the compiled crate.
- `app/` -- the executable: command line, I/O, async serving, and the parts
  that need floating point.
