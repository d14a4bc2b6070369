# oxideav-rtmp

RTMP building blocks with machine-checked contracts, written in Verus.

Every executable function in `src/` states in its `ensures` clauses what it
returns or changes, over mathematical models of the wire formats and of the
connection state, and Verus proves it. What holds of several functions together,
such as that a reader gets back what a writer put out, stands as a public proof
function whose name begins with `law_`.

## Layout

- `src/chunk.rs`, `src/chunk_laws.rs`: chunk streams, acknowledgement windows.
- `src/aggregate.rs`: aggregate messages.
- `src/amf.rs`, `src/amf_laws.rs`, `src/amf_inline.rs`: AMF0 values.
- `src/amf3/`: AMF3 values with their three reference tables, and the bridge to
  AMF0.
- `src/flv/`: audio and video tags, plain and extended, with several tracks,
  colour metadata and stream metadata.
- `src/flv_crypt.rs`: the envelope of encrypted tags.
- `src/caps.rs`: the capabilities that both sides state when they connect.
- `src/client/`: a publishing client without input or output of its own. Bytes
  that have come are handed to it, bytes that are to go out are taken from it.
- `src/adapter/`: tags as packets and streams of `oxideav_core`, and the
  timeline that survives the rollover of 32-bit timestamps.
- `app/`: sockets, floating-point numbers, and the traits of `oxideav_core`.
- `tests/`: tests on concrete values.

## Numbers

A floating-point number is held as its 64 bits (`number::Double`). Contracts speak of
the bits; `==` in code compares the numbers, as for `f64`: a NaN equals nothing, and
the two zeros are equal. Where a number has to become text, the caller says how.
`amf::decode_all` asks for no such rule: an AMF3 value among AMF0 ones is read as its
AMF0 form, except that a dictionary with a double for a key is an error.
`amf::decode_all_with` takes the rule and reads that too.

## What is trusted

Functions of the standard library and of `oxideav_core` that the library calls are
declared with the contracts that it relies on: in `src/text.rs` the UTF-8 checks,
the quoting of text and the reading of port numbers, and in
`src/adapter/core_types.rs` the constructors of `oxideav_core`. Nothing else is
taken on trust.
