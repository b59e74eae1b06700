# embassy-mqtt-lite

A minimal MQTT v3.1.1 client for embedded projects: CONNECT with authentication and Last Will,
PUBLISH with QoS 0, keep-alive by PINGREQ, SUBSCRIBE, and the reception of messages. Packets are
built in buffers of fixed size (`MAX_PACKET_SIZE`, 256 bytes); nothing is allocated on the heap.

- `src/` is the client itself, verified with Verus. It does no input or output: each operation
  says, step by step, what to write to the transport and what to read from it.
- `app/` carries these steps out on any transport that implements
  `embedded_io_async::Read + Write` (TCP, TLS, serial...).
- `tests/` runs the library on an in-memory transport.

What whole operations come to is stated and proved in `src/session.rs`: a message that is published
is received unchanged and in order, packets of other types are skipped, and a connection, a ping or
a subscription succeeds only on the answer that the protocol calls for.
