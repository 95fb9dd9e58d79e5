# coaptic

CoAP over a caller's datagram transport, in bounded memory, verified with
[Verus](https://github.com/verus-lang/verus). An `App` serves routes and sends
requests; the caller supplies the transport, the time, the randomness and the
application's data.

- `src/message`: codes, options, values and the wire format. What was encoded is
  decoded, and the other way round.
- `src/storage`: slots, tables and bodies of fixed size, and the engine over
  them: retransmission, kept answers, observations, transfers in blocks.
- `src/app`: the reactor. Every step has a contract that relates the state
  before it to the state after it and to the record of what was sent.
  - `src/app/laws.rs` states what holds of the app as a whole.
  - `src/app/owned.rs`: whatever waits belongs to a call under way.
  - `src/app/unsent.rs`: a request that could not be sent, other than a
    cancellation, leaves nothing, as long as nothing else goes out to its peer
    under the token that was found for it; one that was refused sends nothing.
  - `src/app/queries.rs`: every message of a request carries all its queries.
  - `src/app/sequence.rs`: whatever is sent, tokens and message identifiers come
    from one source, and the identifiers from one sequence.
  - `src/app/released.rs`: taking in a datagram leaves neither its slot nor a
    request body that it made whole.
- `tests`: the same, run on concrete datagrams.

```rust
let mut app = App::profile::<profiles::Default>()
    .randomness(source)
    .block_wise::<true>()
    .route("sensors/temp", get(get_temp))
    .bind(io)?;
app.poll(now_ms)?;
let call = app.get("sensors/temp").to(peer).send(now_ms)?;
```

Sizes are fixed when an app is made; slots, tables and values are held in `Vec`s,
so the crate needs an allocator.

The only outside function that is taken on trust is `core::str::from_utf8`.
