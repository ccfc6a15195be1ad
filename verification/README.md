# sonyflake

Sonyflake is a distributed unique ID generator inspired by Twitter's
Snowflake. An ID packs the time elapsed since a start time, a sequence
number within that time unit, and the ID of the machine that made it.

This crate is written in Verus: the functions of the library carry contracts
that the verifier proves. Five small wrappers are trusted instead: three
around `chrono` (reading the clock, building an instant from a timestamp, and
from a calendar date), one that appends a character to a `String`, and one
that prints an allocation's address; their contracts are stated in their doc
comments. `std::io::Error` is declared to the verifier as an opaque type.

- `src/lib.rs`: the first generation (39 bits of time in units of 10 msec,
  8 bits of sequence, 16 bits of machine ID), its bit layout, generator
  state machine, `compose` and `decompose`, and the machine ID from the
  host's private address.
- `src/v2/`: the second generation, whose bit lengths and time unit are
  configurable, with its errors, stand-in address listings and the AWS
  helpers (the machine ID from the EC2 metadata answer, the `ntpdate` offset).
- `src/gotime.rs`, `src/gonet.rs`, `src/error.rs`, `src/text.rs`: Go's
  `time` and `net` semantics the generators rely on, the error values, and
  text rendering.
- `src/mock.rs`: stand-ins for the host's address listing.
- `app/`: what reaches outside the process — listing the host's interfaces,
  sleeping, the locks that share a generator between threads, HTTP to the
  metadata service and running `ntpdate`.
- `tests/`: the tests, run against the compiled library.

The generator itself is a state machine: `next_id_at` takes the current time
and answers the ID and, when the sequence ran out, how far ahead the ID was
stamped; `next_id` reads the clock and says how long to wait.

## Behaviour worth knowing

- `==` on errors is Go's `errors.Is`: a sentinel equals itself, and a wrapped
  error equals the errors that share its identity (its clones, or the values
  of one named sentinel).
- An error's `Debug` form is the derived one and names the variant; its
  message is `to_string()`. There is no `Display` or `std::error::Error`
  impl, and `source()` gives the wrapped message: an error wrapped with
  `Error::other` or converted from `std::io::Error` keeps the text of the
  value it wraps, not the value itself.
- An empty address renders as `<nil>`, as Go's `%s` prints it.
- `find_offset_seconds` gives the capture of Go's regexp `offset (.*) sec`:
  the leftmost match, greedy within one line.
- `next_id` answers the ID and how long to wait before using it; sharing a
  generator between threads, and the wait itself, are in `app/`.
- `decompose` returns the parts as a record; `IdParts::entries` gives them as
  the key-ordered entries `format_decomposed` renders.
