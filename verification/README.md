# Reticulum

The logic of a Reticulum node as a Verus library: what goes over the wire, what an interface does
with it, how resources are transferred over links, and what is kept in storage. Every function
states in its contract what it returns or changes, and Verus proves the contract. What
holds over several calls stands in public proof functions beside the code that they speak of.

## Layout

- `src/` is the library.
  - `bytes`, `arith`, `text`, `table`, `buffer`, `error`: small tools.
  - `hash`, `signature`, `identity`, `compress`, `msgpack`: SHA-256, the keys of identities, bzip2 and
    MessagePack.
  - `packet`, `link`: what the rest needs to know of packets and links.
  - `resource`: advertisements, senders, receivers, the manager of all transfers, requests and
    responses. `resource::transfer` holds what is true of a sender and a receiver together.
  - `buffer_stream`: byte streams over channels.
  - `iface`: framing (HDLC, KISS, AX.25), access codes, interface control, dispatch of packets,
    and one module for each kind of interface. `iface::lifecycle` says when a connection is opened,
    used and left.
  - `storage`: known destinations, ratchets and identity files.
- `tests/` runs the library, with the outside crates linked.
- `app/` is the runtime around it: sockets, serial ports, child processes, timers and files. It
  performs what the library decides and hands back what happened.

## What is trusted

Calls into outside crates and into the parts of the standard library without a specification stand
in small wrappers, each marked `#[verifier::external_body]`, with a comment that says what is
claimed of the call. Where a result is too long to describe (a digest, a signature, compressed
data) it has a name, and contracts speak of the name.

Times are nanoseconds, except in stored files. Those hold seconds as floating-point numbers, which
are read as whole ticks of a fixed fraction of a second, rounded down. Rates and progress are
fractions.
