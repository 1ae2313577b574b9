# ptpip_core

A verified core of the PTP/IP (Picture Transfer Protocol over IP) camera
protocol, written in Verus.

- `src/` is the library. Its functions are verified against their contracts:
  packet framing and receiving (all at once from an in-memory stream, or piece
  by piece through `transport::PacketReceiver`), command encoding, response
  checking, the parsing of device, storage and object information and of
  events, discovery messages and the step-by-step decisions of a discovery,
  resume decisions, chunk sizes of downloads, and the session's keep-alive and
  timeout decisions. A few functions read the clock or draw a random number
  (`timed_out`, `get_timestamp`, `generate_transaction_id`); nothing is promised
  of their values, but the decisions taken on the clock's readings
  (`timeout_exceeded`, `timestamp_from`) are verified functions of their own.
  Public proof functions state the laws that tie the pieces together (for
  example, that a receiver fed piece by piece follows the same course as the
  one-shot receiver, and that a chunked download ends at exactly the object's
  size).
- `app/` is the unverified input/output layer around it: TCP connections,
  UDP sockets, files on disk, sleeps, threads and the C interface. Its loops
  perform what the library's decision functions return.
- `tests/` runs the library on concrete values.
