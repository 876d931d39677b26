# mill

The verified core of the Mill event loop and of the Mill-RPC framework,
written in Verus.

- `src/` is the library, every function of it verified:
  - `protocol.rs`: the binary frame format (9-byte header, request and reply
    payloads), its encoder and its streaming parser; `protocol_laws.rs` proves
    their round trips and how the parser behaves on split and partial input.
  - `rpc.rs`: frame reassembly per connection, what a server and a client do
    with each frame, the table of pending calls and the routing of requests to
    registered services.
  - `timer_wheel.rs`: the four-level hierarchical timer wheel; `advance_to`
    fires exactly the timers that are due, in deadline order, except after a
    clock jump beyond the wheel's range (about 18.6 hours), when it fires
    every pending timer.
  - `compute.rs`: the priority queue of the compute pool (highest priority
    first, submission order within a priority) and its metrics.
  - `service.rs`, `naming.rs`: what a service definition decides: the sides
    it generates, the parameters it accepts, and the names and ids of what it
    generates.
  - `error.rs`, `codec.rs`, `text.rs`: status codes, errors, codec selection
    and the decimal and hexadecimal text in error messages.
- `app/` is the runtime around it: threads, locks and condition variables,
  the clock of the timer wheel, serde encoding of payloads and errors.
- `tests/` runs the library on concrete cases.
